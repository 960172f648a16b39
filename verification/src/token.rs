//! Tokens produced by the lexer and consumed by the compiler, with the
//! source location that diagnostics report.

use vstd::prelude::*;
use vstd::string::StringExecFns;

use crate::opcode::OpCode;
use crate::text::{dec_nat, push_dec_u64, string_push};
use crate::value::{Value, ValueV};

verus! {

/// A position in a source file, as diagnostics report it: the cursor
/// position immediately after the lexeme was consumed.
#[derive(Debug)]
pub struct Location {
    pub path: String,
    pub line: usize,
    pub column: usize,
}

/// The mathematical model of a [`Location`].
#[verifier::ext_equal]
pub struct LocationV {
    pub path: Seq<char>,
    pub line: nat,
    pub column: nat,
}

impl View for Location {
    type V = LocationV;

    open spec fn view(&self) -> LocationV {
        LocationV { path: self.path@, line: self.line as nat, column: self.column as nat }
    }
}

/// How a location is rendered in diagnostics: `<path:line:column>`.
pub open spec fn location_text(l: LocationV) -> Seq<char> {
    seq!['<'] + l.path + seq![':'] + dec_nat(l.line) + seq![':'] + dec_nat(l.column) + seq!['>']
}

impl Location {
    /// The diagnostic rendering `<path:line:column>`.
    pub fn text(&self) -> (r: String)
        ensures
            r@ == location_text(self@),
    {
        let mut s = String::new();
        string_push(&mut s, '<');
        s.append(self.path.as_str());
        string_push(&mut s, ':');
        push_dec_u64(&mut s, self.line as u64);
        string_push(&mut s, ':');
        push_dec_u64(&mut s, self.column as u64);
        string_push(&mut s, '>');
        proof {
            assert(s@ =~= location_text(self@));
        }
        s
    }
}

impl Clone for Location {
    /// An equal location.
    fn clone(&self) -> (r: Location)
        ensures
            r@ == self@,
    {
        Location { path: self.path.clone(), line: self.line, column: self.column }
    }
}

/// What kind of token was scanned. `Error` tokens carry a diagnostic message
/// in the token's `lexeme` instead of source text.
#[derive(Debug)]
pub enum TokenType {
    Instruction(OpCode),
    Value(Value),
    LBrace,
    RBrace,
    Error,
    Eof,
}

/// The mathematical model of a [`TokenType`].
#[verifier::ext_equal]
pub enum TokenTypeV {
    Instruction(OpCode),
    Value(ValueV),
    LBrace,
    RBrace,
    Error,
    Eof,
}

impl View for TokenType {
    type V = TokenTypeV;

    open spec fn view(&self) -> TokenTypeV {
        match self {
            TokenType::Instruction(op) => TokenTypeV::Instruction(*op),
            TokenType::Value(v) => TokenTypeV::Value(v@),
            TokenType::LBrace => TokenTypeV::LBrace,
            TokenType::RBrace => TokenTypeV::RBrace,
            TokenType::Error => TokenTypeV::Error,
            TokenType::Eof => TokenTypeV::Eof,
        }
    }
}

impl Clone for TokenType {
    /// An equal token kind.
    fn clone(&self) -> (r: TokenType)
        ensures
            r@ == self@,
    {
        match self {
            TokenType::Instruction(op) => TokenType::Instruction(*op),
            TokenType::Value(v) => TokenType::Value(v.clone()),
            TokenType::LBrace => TokenType::LBrace,
            TokenType::RBrace => TokenType::RBrace,
            TokenType::Error => TokenType::Error,
            TokenType::Eof => TokenType::Eof,
        }
    }
}

/// One scanned token. The jump target of an `if`/`else` instruction lives
/// beside the opcode rather than inside it, so an unresolved target is the
/// distinct state `None` rather than a sentinel value; the compiler's
/// cross-reference pass fills it in.
#[derive(Debug)]
pub struct Token {
    pub typ3: TokenType,
    pub lexeme: String,
    pub location: Location,
    pub target: Option<u64>,
}

/// The mathematical model of a [`Token`].
#[verifier::ext_equal]
pub struct TokenV {
    pub typ3: TokenTypeV,
    pub lexeme: Seq<char>,
    pub location: LocationV,
    pub target: Option<u64>,
}

impl View for Token {
    type V = TokenV;

    open spec fn view(&self) -> TokenV {
        TokenV {
            typ3: self.typ3@,
            lexeme: self.lexeme@,
            location: self.location@,
            target: self.target,
        }
    }
}

impl Clone for Token {
    /// An equal token.
    fn clone(&self) -> (r: Token)
        ensures
            r@ == self@,
    {
        Token {
            typ3: self.typ3.clone(),
            lexeme: self.lexeme.clone(),
            location: self.location.clone(),
            target: self.target,
        }
    }
}

} // verus!

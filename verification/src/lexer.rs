//! The lexer: turns source text into tokens carrying source locations.
//! Scanning is total — unrecognized input becomes an `Error` token and
//! scanning continues, so one pass collects every error — and always ends
//! with exactly one `Eof` token. Each token's location is the cursor
//! position immediately after its lexeme was consumed.

use vstd::prelude::*;
use vstd::string::{StrSliceExecFns, StringExecFns};

use crate::opcode::OpCode;
use crate::text::{chars_to_string, string_push};
use crate::token::{Location, LocationV, Token, TokenType, TokenTypeV, TokenV};
use crate::value::{Value, ValueV};

verus! {

/// An ASCII decimal digit.
pub open spec fn is_digit(c: char) -> bool {
    48 <= c as u32 <= 57
}

/// An ASCII letter.
pub open spec fn is_alpha(c: char) -> bool {
    (65 <= c as u32 <= 90) || (97 <= c as u32 <= 122)
}

/// The numeric value of a digit character.
pub open spec fn digit_of(c: char) -> nat
    recommends
        is_digit(c),
{
    (c as u32 - 48) as nat
}

/// The value of a run of digit characters, most significant first.
pub open spec fn digits_val(ds: Seq<char>) -> nat
    decreases ds.len(),
{
    if ds.len() == 0 {
        0
    } else {
        digits_val(ds.drop_last()) * 10 + digit_of(ds.last())
    }
}

/// The length of the run of characters satisfying `p` that starts at `j`.
pub open spec fn run_len(cs: Seq<char>, j: int, p: spec_fn(char) -> bool) -> nat
    decreases cs.len() - j,
{
    if j < 0 || j >= cs.len() || !p(cs[j]) {
        0
    } else {
        1 + run_len(cs, j + 1, p)
    }
}

/// The digit predicate, as one function value shared by every mention.
pub open spec fn digit_pred() -> spec_fn(char) -> bool {
    |c: char| is_digit(c)
}

/// The letter predicate.
pub open spec fn alpha_pred() -> spec_fn(char) -> bool {
    |c: char| is_alpha(c)
}

/// Characters that continue a line comment: everything up to a newline.
pub open spec fn comment_pred() -> spec_fn(char) -> bool {
    |c: char| c != '\n'
}

/// Characters inside a string literal: everything up to the closing quote.
pub open spec fn string_pred() -> spec_fn(char) -> bool {
    |c: char| c != '"'
}

/// A run never reaches past the end of the text.
pub proof fn lemma_run_len_le(cs: Seq<char>, a: int, p: spec_fn(char) -> bool)
    requires
        0 <= a <= cs.len(),
    ensures
        a + run_len(cs, a, p) <= cs.len(),
    decreases cs.len() - a,
{
    if a < cs.len() && p(cs[a]) {
        lemma_run_len_le(cs, a + 1, p);
    }
}

/// A stretch of characters all satisfying `p` contributes its full length
/// to the run that starts at its beginning.
pub proof fn lemma_run_len_all(cs: Seq<char>, a: int, b: int, p: spec_fn(char) -> bool)
    requires
        0 <= a <= b <= cs.len(),
        forall|k: int| a <= k < b ==> p(cs[k]),
    ensures
        run_len(cs, a, p) == b - a + run_len(cs, b, p),
    decreases b - a,
{
    if a < b {
        lemma_run_len_all(cs, a + 1, b, p);
    }
}

/// The number of newline characters in `cs[a..b)`.
pub open spec fn count_nl(cs: Seq<char>, a: int, b: int) -> nat
    decreases b - a,
{
    if a >= b {
        0
    } else {
        (if cs[a] == '\n' {
            1nat
        } else {
            0nat
        }) + count_nl(cs, a + 1, b)
    }
}

/// The column origin after consuming `cs[a..b)`, starting from origin `ls0`:
/// one past the last newline consumed, or `ls0` if none was.
pub open spec fn ls_after(cs: Seq<char>, a: int, b: int, ls0: int) -> int
    decreases b - a,
{
    if a >= b {
        ls0
    } else {
        ls_after(
            cs,
            a + 1,
            b,
            if cs[a] == '\n' {
                a + 1
            } else {
                ls0
            },
        )
    }
}

proof fn lemma_count_nl_snoc(cs: Seq<char>, a: int, b: int)
    requires
        a <= b,
    ensures
        count_nl(cs, a, b + 1) == count_nl(cs, a, b) + (if cs[b] == '\n' {
            1nat
        } else {
            0nat
        }),
    decreases b - a,
{
    if a < b {
        lemma_count_nl_snoc(cs, a + 1, b);
    } else {
        assert(count_nl(cs, b, b + 1) == (if cs[b] == '\n' {
            1nat
        } else {
            0nat
        }) + count_nl(cs, b + 1, b + 1));
    }
}

proof fn lemma_ls_after_snoc(cs: Seq<char>, a: int, b: int, ls0: int)
    requires
        a <= b,
    ensures
        ls_after(cs, a, b + 1, ls0) == (if cs[b] == '\n' {
            b + 1
        } else {
            ls_after(cs, a, b, ls0)
        }),
    decreases b - a,
{
    if a < b {
        lemma_ls_after_snoc(
            cs,
            a + 1,
            b,
            if cs[a] == '\n' {
                a + 1
            } else {
                ls0
            },
        );
    } else {
        assert(ls_after(cs, b, b + 1, ls0) == ls_after(
            cs,
            b + 1,
            b + 1,
            if cs[b] == '\n' {
                b + 1
            } else {
                ls0
            },
        ));
    }
}

/// Builds one token of the scanner's output.
pub open spec fn mk_token(
    typ3: TokenTypeV,
    lexeme: Seq<char>,
    path: Seq<char>,
    line: nat,
    column: int,
) -> TokenV {
    TokenV {
        typ3,
        lexeme,
        location: LocationV { path, line, column: column as nat },
        target: None,
    }
}

/// The token an alphabetic lexeme scans to: a keyword instruction, or an
/// unknown-identifier error.
pub open spec fn keyword_token_type(lex: Seq<char>) -> TokenTypeV {
    if lex == "dup"@ {
        TokenTypeV::Instruction(OpCode::Dup)
    } else if lex == "if"@ {
        TokenTypeV::Instruction(OpCode::If)
    } else if lex == "else"@ {
        TokenTypeV::Instruction(OpCode::Else)
    } else if lex == "while"@ {
        TokenTypeV::Instruction(OpCode::While)
    } else if lex == "do"@ {
        TokenTypeV::Instruction(OpCode::Do)
    } else {
        TokenTypeV::Error
    }
}

/// The tokens scanned from `cs[i..]`, given the current line number and
/// column origin. This is the whole lexical grammar in one place.
#[verifier::opaque]
pub open spec fn scan_spec(path: Seq<char>, cs: Seq<char>, i: int, line: nat, ls: int) -> Seq<
    TokenV,
>
    decreases cs.len() - i,
    via scan_spec_dec
{
    if i < 0 || i >= cs.len() {
        seq![mk_token(TokenTypeV::Eof, Seq::empty(), path, line, cs.len() - ls)]
    } else {
        let c = cs[i];
        if is_digit(c) {
            let j = i + 1 + run_len(cs, i + 1, digit_pred());
            let lex = cs.subrange(i, j);
            let tok = if digits_val(lex) <= i32::MAX {
                mk_token(
                    TokenTypeV::Value(ValueV::Int32(digits_val(lex) as i32)),
                    lex,
                    path,
                    line,
                    j - ls,
                )
            } else {
                mk_token(
                    TokenTypeV::Error,
                    "integer literal out of range '"@ + lex + seq!['\''],
                    path,
                    line,
                    j - ls,
                )
            };
            seq![tok] + scan_spec(path, cs, j, line, ls)
        } else if is_alpha(c) {
            let j = i + 1 + run_len(cs, i + 1, alpha_pred());
            let lex = cs.subrange(i, j);
            let tok = if keyword_token_type(lex) is Error {
                mk_token(
                    TokenTypeV::Error,
                    "unknown identifier '"@ + lex + seq!['\''],
                    path,
                    line,
                    j - ls,
                )
            } else {
                mk_token(keyword_token_type(lex), lex, path, line, j - ls)
            };
            seq![tok] + scan_spec(path, cs, j, line, ls)
        } else if c == '{' {
            seq![mk_token(TokenTypeV::LBrace, seq![c], path, line, i + 1 - ls)] + scan_spec(
                path,
                cs,
                i + 1,
                line,
                ls,
            )
        } else if c == '}' {
            seq![mk_token(TokenTypeV::RBrace, seq![c], path, line, i + 1 - ls)] + scan_spec(
                path,
                cs,
                i + 1,
                line,
                ls,
            )
        } else if c == '+' {
            seq![mk_token(TokenTypeV::Instruction(OpCode::Add), seq![c], path, line, i + 1 - ls)]
                + scan_spec(path, cs, i + 1, line, ls)
        } else if c == '-' {
            seq![mk_token(TokenTypeV::Instruction(OpCode::Sub), seq![c], path, line, i + 1 - ls)]
                + scan_spec(path, cs, i + 1, line, ls)
        } else if c == '*' {
            seq![mk_token(TokenTypeV::Instruction(OpCode::Mul), seq![c], path, line, i + 1 - ls)]
                + scan_spec(path, cs, i + 1, line, ls)
        } else if c == '/' {
            if i + 1 < cs.len() && cs[i + 1] == '/' {
                let j = i + 2 + run_len(cs, i + 2, comment_pred());
                scan_spec(path, cs, j, line, ls)
            } else {
                seq![
                    mk_token(
                        TokenTypeV::Instruction(OpCode::Div),
                        seq![c],
                        path,
                        line,
                        i + 1 - ls,
                    ),
                ] + scan_spec(path, cs, i + 1, line, ls)
            }
        } else if c == '<' {
            if i + 1 < cs.len() && cs[i + 1] == '=' {
                seq![
                    mk_token(
                        TokenTypeV::Instruction(OpCode::Lte),
                        cs.subrange(i, i + 2),
                        path,
                        line,
                        i + 2 - ls,
                    ),
                ] + scan_spec(path, cs, i + 2, line, ls)
            } else {
                seq![
                    mk_token(TokenTypeV::Instruction(OpCode::Lt), seq![c], path, line, i + 1 - ls),
                ] + scan_spec(path, cs, i + 1, line, ls)
            }
        } else if c == '>' {
            if i + 1 < cs.len() && cs[i + 1] == '=' {
                seq![
                    mk_token(
                        TokenTypeV::Instruction(OpCode::Gte),
                        cs.subrange(i, i + 2),
                        path,
                        line,
                        i + 2 - ls,
                    ),
                ] + scan_spec(path, cs, i + 2, line, ls)
            } else {
                seq![
                    mk_token(TokenTypeV::Instruction(OpCode::Gt), seq![c], path, line, i + 1 - ls),
                ] + scan_spec(path, cs, i + 1, line, ls)
            }
        } else if c == '=' {
            seq![mk_token(TokenTypeV::Instruction(OpCode::Eq), seq![c], path, line, i + 1 - ls)]
                + scan_spec(path, cs, i + 1, line, ls)
        } else if c == '!' {
            seq![mk_token(TokenTypeV::Instruction(OpCode::Ne), seq![c], path, line, i + 1 - ls)]
                + scan_spec(path, cs, i + 1, line, ls)
        } else if c == '.' {
            seq![mk_token(TokenTypeV::Instruction(OpCode::Dump), seq![c], path, line, i + 1 - ls)]
                + scan_spec(path, cs, i + 1, line, ls)
        } else if c == '"' {
            let j = i + 1 + run_len(cs, i + 1, string_pred());
            let line2 = (line + count_nl(cs, i + 1, j)) as nat;
            let ls2 = ls_after(cs, i + 1, j, ls);
            if j >= cs.len() {
                seq![
                    mk_token(
                        TokenTypeV::Error,
                        "unterminated string literal"@,
                        path,
                        line2,
                        cs.len() - ls2,
                    ),
                ] + scan_spec(path, cs, j, line2, ls2)
            } else {
                let lex = cs.subrange(i + 1, j);
                seq![
                    mk_token(TokenTypeV::Value(ValueV::Str(lex)), lex, path, line2, j + 1 - ls2),
                ] + scan_spec(path, cs, j + 1, line2, ls2)
            }
        } else if c == '\r' || c == '\t' || c == ' ' {
            scan_spec(path, cs, i + 1, line, ls)
        } else if c == '\n' {
            scan_spec(path, cs, i + 1, (line + 1) as nat, i + 1)
        } else {
            seq![
                mk_token(
                    TokenTypeV::Error,
                    "unexpected character '"@ + seq![c, '\''],
                    path,
                    line,
                    i + 1 - ls,
                ),
            ] + scan_spec(path, cs, i + 1, line, ls)
        }
    }
}

#[via_fn]
proof fn scan_spec_dec(path: Seq<char>, cs: Seq<char>, i: int, line: nat, ls: int) {
    if 0 <= i && i < cs.len() {
        lemma_run_len_le(cs, i + 1, digit_pred());
        lemma_run_len_le(cs, i + 1, alpha_pred());
        lemma_run_len_le(cs, i + 1, string_pred());
        if i + 2 <= cs.len() {
            lemma_run_len_le(cs, i + 2, comment_pred());
        }
    }
}

/// The views of a sequence of tokens.
pub open spec fn tokens_view(ts: Seq<Token>) -> Seq<TokenV> {
    Seq::new(ts.len(), |k: int| ts[k]@)
}

/// The lexer's cursor state over the decoded characters of one source file.
pub struct Lexer {
    path: String,
    chars: Vec<char>,
    cursor: usize,
    line: usize,
    line_start: usize,
}

/// The mathematical model of a [`Lexer`].
#[verifier::ext_equal]
pub struct LexerV {
    pub path: Seq<char>,
    pub chars: Seq<char>,
    pub cursor: int,
    pub line: nat,
    pub line_start: int,
}

impl View for Lexer {
    type V = LexerV;

    closed spec fn view(&self) -> LexerV {
        LexerV {
            path: self.path@,
            chars: self.chars@,
            cursor: self.cursor as int,
            line: self.line as nat,
            line_start: self.line_start as int,
        }
    }
}

/// Decides whether a string holds exactly the given word.
fn is_word(s: &String, w: &str) -> (r: bool)
    ensures
        r == (s@ == w@),
{
    let t = String::from_str(w);
    s.eq(&t)
}

fn is_digit_char(c: char) -> (r: bool)
    ensures
        r == is_digit(c),
{
    c as u32 >= 48 && c as u32 <= 57
}

fn is_alpha_char(c: char) -> (r: bool)
    ensures
        r == is_alpha(c),
{
    (c as u32 >= 65 && c as u32 <= 90) || (c as u32 >= 97 && c as u32 <= 122)
}

fn digit_char_val(c: char) -> (d: u32)
    requires
        is_digit(c),
    ensures
        d == digit_of(c),
{
    (c as u32) - 48
}

/// A diagnostic message of the form `prefix` + `body` + `'`.
fn quoted_msg(prefix: &str, body: &str) -> (r: String)
    ensures
        r@ == prefix@ + body@ + seq!['\''],
{
    let mut s = String::from_str(prefix);
    s.append(body);
    string_push(&mut s, '\'');
    proof {
        assert(s@ =~= prefix@ + body@ + seq!['\'']);
    }
    s
}

impl Lexer {
    /// A lexer at the start of the given source text, reporting locations
    /// against `path`.
    pub fn new(path: String, source: &str) -> (l: Lexer)
        ensures
            l@ == (LexerV { path: path@, chars: source@, cursor: 0, line: 1, line_start: 0 }),
    {
        let n = source.unicode_len();
        let mut chars: Vec<char> = Vec::new();
        let mut i: usize = 0;
        while i < n
            invariant
                i <= n,
                n == source@.len(),
                chars@ =~= source@.subrange(0, i as int),
            decreases n - i,
        {
            let c = source.get_char(i);
            chars.push(c);
            proof {
                assert(chars@ =~= source@.subrange(0, i as int + 1));
            }
            i = i + 1;
        }
        proof {
            assert(chars@ =~= source@);
        }
        let l = Lexer { path, chars, cursor: 0, line: 1, line_start: 0 };
        proof {
            assert(l@ =~= (LexerV {
                path: l.path@,
                chars: source@,
                cursor: 0,
                line: 1,
                line_start: 0,
            }));
        }
        l
    }

    /// The current cursor position as a diagnostic location.
    fn cursor_location(&self) -> (l: Location)
        requires
            self@.line_start <= self@.cursor,
        ensures
            l@ == (LocationV {
                path: self@.path,
                line: self@.line,
                column: (self@.cursor - self@.line_start) as nat,
            }),
    {
        Location {
            path: self.path.clone(),
            line: self.line,
            column: self.cursor - self.line_start,
        }
    }

    /// Scans the whole source into tokens, in source order, ending with the
    /// single `Eof` token.
    #[verifier::rlimit(100)]
    pub fn scan_tokens(&mut self) -> (tokens: Vec<Token>)
        requires
            old(self)@.line_start <= old(self)@.cursor <= old(self)@.chars.len(),
            old(self)@.line + old(self)@.chars.len() <= usize::MAX,
        ensures
            tokens_view(tokens@) == scan_spec(
                old(self)@.path,
                old(self)@.chars,
                old(self)@.cursor,
                old(self)@.line,
                old(self)@.line_start,
            ),
    {
        let ghost path = self.path@;
        let ghost cs = self.chars@;
        let ghost i0 = self.cursor as int;
        let ghost line0 = self.line as nat;
        let ghost ls0 = self.line_start as int;
        let mut tokens: Vec<Token> = Vec::new();
        let n = self.chars.len();
        proof {
            assert(tokens_view(tokens@) + scan_spec(path, cs, i0, line0, ls0) =~~= scan_spec(
                path,
                cs,
                i0,
                line0,
                ls0,
            ));
        }
        while self.cursor < n
            invariant
                self@.path == path,
                self@.chars == cs,
                n == cs.len(),
                self@.line_start <= self@.cursor <= n,
                self@.line + n - self@.cursor <= line0 + n - i0,
                line0 + n <= usize::MAX,
                0 <= i0 <= self@.cursor,
                tokens_view(tokens@) + scan_spec(
                    path,
                    cs,
                    self@.cursor,
                    self@.line,
                    self@.line_start,
                ) == scan_spec(path, cs, i0, line0, ls0),
            decreases n - self.cursor,
        {
            let ghost pre_tokens = tokens_view(tokens@);
            let ghost i = self.cursor as int;
            let ghost line_g = self.line as nat;
            let ghost ls_g = self.line_start as int;
            let start: usize = self.cursor;
            let c = self.chars[self.cursor];
            self.cursor = self.cursor + 1;
            if is_digit_char(c) {
                // a maximal run of digits makes an integer literal
                while self.cursor < n && is_digit_char(self.chars[self.cursor])
                    invariant
                        self@.path == path,
                        self@.chars == cs,
                        n == cs.len(),
                        self@.line == line_g,
                        self@.line_start == ls_g,
                        i < self@.cursor <= n,
                        forall|k: int| i + 1 <= k < self@.cursor ==> is_digit(cs[k]),
                    decreases n - self.cursor,
                {
                    self.cursor = self.cursor + 1;
                }
                let ghost j = self@.cursor;
                proof {
                    lemma_run_len_all(cs, i + 1, j, digit_pred());
                    assert(run_len(cs, j, digit_pred()) == 0);
                    assert(j == i + 1 + run_len(cs, i + 1, digit_pred()));
                }
                let lexeme = chars_to_string(&self.chars, start, self.cursor);
                // accumulate the value, watching for an out-of-range literal
                let mut value: u64 = 0;
                let mut overflow = false;
                let mut k: usize = start;
                while k < self.cursor
                    invariant
                        self@.chars == cs,
                        n == cs.len(),
                        i == start as int,
                        start <= k,
                        k as int <= j == self@.cursor as int,
                        self@.cursor <= n,
                        is_digit(cs[i]),
                        forall|m: int| i + 1 <= m < j ==> is_digit(cs[m]),
                        !overflow ==> value == digits_val(cs.subrange(i, k as int)) && value
                            <= i32::MAX,
                        overflow ==> digits_val(cs.subrange(i, k as int)) > i32::MAX,
                    decreases self.cursor - k,
                {
                    let d = digit_char_val(self.chars[k]);
                    proof {
                        assert(cs.subrange(i, k as int + 1).drop_last() =~= cs.subrange(
                            i,
                            k as int,
                        ));
                        assert(cs.subrange(i, k as int + 1).last() == cs[k as int]);
                    }
                    if !overflow {
                        let next = value * 10 + d as u64;
                        if next > 0x7fff_ffff {
                            overflow = true;
                        } else {
                            value = next;
                        }
                    }
                    k = k + 1;
                }
                proof {
                    assert(cs.subrange(i, j) == cs.subrange(i, k as int));
                }
                let location = self.cursor_location();
                if !overflow {
                    let t = Token {
                        typ3: TokenType::Value(Value::Int32(value as i32)),
                        lexeme,
                        location,
                        target: None,
                    };
                    let ghost tokv = t@;
                    tokens.push(t);
                    proof {
                        assert(scan_spec(path, cs, i, line_g, ls_g) =~~= seq![tokv] + scan_spec(
                            path,
                            cs,
                            j,
                            line_g,
                            ls_g,
                        )) by {
                        reveal_with_fuel(scan_spec, 2);
                    }
                        assert(tokens_view(tokens@) =~~= pre_tokens.push(tokv));
                            lemma_glue(path, cs, i0, line0, ls0, i, line_g, ls_g, j, line_g, ls_g,
                            pre_tokens, tokv);
                    }
                } else {
                    let msg = quoted_msg("integer literal out of range '", lexeme.as_str());
                    let t = Token { typ3: TokenType::Error, lexeme: msg, location, target: None };
                    let ghost tokv = t@;
                    tokens.push(t);
                    proof {
                        assert(scan_spec(path, cs, i, line_g, ls_g) =~~= seq![tokv] + scan_spec(
                            path,
                            cs,
                            j,
                            line_g,
                            ls_g,
                        )) by {
                        reveal_with_fuel(scan_spec, 2);
                    }
                        assert(tokens_view(tokens@) =~~= pre_tokens.push(tokv));
                            lemma_glue(path, cs, i0, line0, ls0, i, line_g, ls_g, j, line_g, ls_g,
                            pre_tokens, tokv);
                    }
                }
            } else if is_alpha_char(c) {
                // a maximal run of letters is a keyword or an unknown name
                while self.cursor < n && is_alpha_char(self.chars[self.cursor])
                    invariant
                        self@.path == path,
                        self@.chars == cs,
                        n == cs.len(),
                        self@.line == line_g,
                        self@.line_start == ls_g,
                        i < self@.cursor <= n,
                        forall|k: int| i + 1 <= k < self@.cursor ==> is_alpha(cs[k]),
                    decreases n - self.cursor,
                {
                    self.cursor = self.cursor + 1;
                }
                let ghost j = self@.cursor;
                proof {
                    lemma_run_len_all(cs, i + 1, j, alpha_pred());
                    assert(run_len(cs, j, alpha_pred()) == 0);
                    assert(j == i + 1 + run_len(cs, i + 1, alpha_pred()));
                }
                let lexeme = chars_to_string(&self.chars, start, self.cursor);
                let location = self.cursor_location();
                let t = if is_word(&lexeme, "dup") {
                    Token {
                        typ3: TokenType::Instruction(OpCode::Dup),
                        lexeme,
                        location,
                        target: None,
                    }
                } else if is_word(&lexeme, "if") {
                    Token {
                        typ3: TokenType::Instruction(OpCode::If),
                        lexeme,
                        location,
                        target: None,
                    }
                } else if is_word(&lexeme, "else") {
                    Token {
                        typ3: TokenType::Instruction(OpCode::Else),
                        lexeme,
                        location,
                        target: None,
                    }
                } else if is_word(&lexeme, "while") {
                    Token {
                        typ3: TokenType::Instruction(OpCode::While),
                        lexeme,
                        location,
                        target: None,
                    }
                } else if is_word(&lexeme, "do") {
                    Token {
                        typ3: TokenType::Instruction(OpCode::Do),
                        lexeme,
                        location,
                        target: None,
                    }
                } else {
                    let msg = quoted_msg("unknown identifier '", lexeme.as_str());
                    Token { typ3: TokenType::Error, lexeme: msg, location, target: None }
                };
                let ghost tokv = t@;
                tokens.push(t);
                proof {
                    assert(scan_spec(path, cs, i, line_g, ls_g) =~~= seq![tokv] + scan_spec(
                        path,
                        cs,
                        j,
                        line_g,
                        ls_g,
                    )) by {
                        reveal_with_fuel(scan_spec, 2);
                    }
                    assert(tokens_view(tokens@) =~~= pre_tokens.push(tokv));
                        lemma_glue(path, cs, i0, line0, ls0, i, line_g, ls_g, j, line_g, ls_g,
                        pre_tokens, tokv);
                }
            } else if c == '"' {
                // a string literal scans verbatim to the closing quote,
                // tracking embedded newlines for the line counter
                while self.cursor < n && self.chars[self.cursor] != '"'
                    invariant
                        self@.path == path,
                        self@.chars == cs,
                        n == cs.len(),
                        i + 1 <= self@.cursor <= n,
                        self@.line_start <= self@.cursor,
                        self@.line + n - self@.cursor <= line0 + n - i0,
                        line0 + n <= usize::MAX,
                        0 <= i0 <= i,
                        forall|k: int| i + 1 <= k < self@.cursor ==> cs[k] != '"',
                        self@.line == line_g + count_nl(cs, i + 1, self@.cursor),
                        self@.line_start == ls_after(cs, i + 1, self@.cursor, ls_g),
                    decreases n - self.cursor,
                {
                    proof {
                        lemma_count_nl_snoc(cs, i + 1, self@.cursor);
                        lemma_ls_after_snoc(cs, i + 1, self@.cursor, ls_g);
                    }
                    if self.chars[self.cursor] == '\n' {
                        self.line = self.line + 1;
                        self.line_start = self.cursor + 1;
                    }
                    self.cursor = self.cursor + 1;
                }
                let ghost j = self@.cursor;
                proof {
                    lemma_run_len_all(cs, i + 1, j, string_pred());
                    assert(run_len(cs, j, string_pred()) == 0);
                    assert(j == i + 1 + run_len(cs, i + 1, string_pred()));
                }
                if self.cursor < n {
                    let lexeme = chars_to_string(&self.chars, start + 1, self.cursor);
                    self.cursor = self.cursor + 1;
                    let location = self.cursor_location();
                    let t = Token {
                        typ3: TokenType::Value(Value::String(lexeme.clone())),
                        lexeme,
                        location,
                        target: None,
                    };
                    let ghost tokv = t@;
                    tokens.push(t);
                    proof {
                        assert(scan_spec(path, cs, i, line_g, ls_g) =~~= seq![tokv] + scan_spec(
                            path,
                            cs,
                            j + 1,
                            self@.line,
                            self@.line_start,
                        )) by {
                        reveal_with_fuel(scan_spec, 2);
                    }
                        assert(tokens_view(tokens@) =~~= pre_tokens.push(tokv));
                        lemma_glue(path, cs, i0, line0, ls0, i, line_g, ls_g, j + 1, self@.line,
                            self@.line_start, pre_tokens, tokv);
                    }
                } else {
                    let location = self.cursor_location();
                    let t = Token {
                        typ3: TokenType::Error,
                        lexeme: String::from_str("unterminated string literal"),
                        location,
                        target: None,
                    };
                    let ghost tokv = t@;
                    tokens.push(t);
                    proof {
                        assert(scan_spec(path, cs, i, line_g, ls_g) =~~= seq![tokv] + scan_spec(
                            path,
                            cs,
                            j,
                            self@.line,
                            self@.line_start,
                        )) by {
                        reveal_with_fuel(scan_spec, 2);
                    }
                        assert(tokens_view(tokens@) =~~= pre_tokens.push(tokv));
                        lemma_glue(path, cs, i0, line0, ls0, i, line_g, ls_g, j, self@.line,
                            self@.line_start, pre_tokens, tokv);
                    }
                }
            } else if c == '/' && self.cursor < n && self.chars[self.cursor] == '/' {
                // a line comment consumes to the end of the line, no token
                self.cursor = self.cursor + 1;
                while self.cursor < n && self.chars[self.cursor] != '\n'
                    invariant
                        self@.path == path,
                        self@.chars == cs,
                        n == cs.len(),
                        self@.line == line_g,
                        self@.line_start == ls_g,
                        i + 2 <= self@.cursor <= n,
                        forall|k: int| i + 2 <= k < self@.cursor ==> cs[k] != '\n',
                    decreases n - self.cursor,
                {
                    self.cursor = self.cursor + 1;
                }
                proof {
                    lemma_run_len_all(cs, i + 2, self@.cursor, comment_pred());
                    assert(run_len(cs, self@.cursor, comment_pred()) == 0);
                    assert(self@.cursor == i + 2 + run_len(cs, i + 2, comment_pred()));
                    assert(scan_spec(path, cs, i, line_g, ls_g) == scan_spec(
                        path,
                        cs,
                        self@.cursor,
                        line_g,
                        ls_g,
                    )) by {
                        reveal_with_fuel(scan_spec, 2);
                    }
                }
            } else if c == '<' && self.cursor < n && self.chars[self.cursor] == '=' {
                self.cursor = self.cursor + 1;
                let lexeme = chars_to_string(&self.chars, start, self.cursor);
                let location = self.cursor_location();
                let t = Token {
                    typ3: TokenType::Instruction(OpCode::Lte),
                    lexeme,
                    location,
                    target: None,
                };
                let ghost tokv = t@;
                tokens.push(t);
                proof {
                    assert(scan_spec(path, cs, i, line_g, ls_g) =~~= seq![tokv] + scan_spec(
                        path,
                        cs,
                        i + 2,
                        line_g,
                        ls_g,
                    )) by {
                        reveal_with_fuel(scan_spec, 2);
                    }
                    assert(tokens_view(tokens@) =~~= pre_tokens.push(tokv));
                        lemma_glue(path, cs, i0, line0, ls0, i, line_g, ls_g, i + 2, line_g, ls_g,
                        pre_tokens, tokv);
                }
            } else if c == '>' && self.cursor < n && self.chars[self.cursor] == '=' {
                self.cursor = self.cursor + 1;
                let lexeme = chars_to_string(&self.chars, start, self.cursor);
                let location = self.cursor_location();
                let t = Token {
                    typ3: TokenType::Instruction(OpCode::Gte),
                    lexeme,
                    location,
                    target: None,
                };
                let ghost tokv = t@;
                tokens.push(t);
                proof {
                    assert(scan_spec(path, cs, i, line_g, ls_g) =~~= seq![tokv] + scan_spec(
                        path,
                        cs,
                        i + 2,
                        line_g,
                        ls_g,
                    )) by {
                        reveal_with_fuel(scan_spec, 2);
                    }
                    assert(tokens_view(tokens@) =~~= pre_tokens.push(tokv));
                        lemma_glue(path, cs, i0, line0, ls0, i, line_g, ls_g, i + 2, line_g, ls_g,
                        pre_tokens, tokv);
                }
            } else if c == '\r' || c == '\t' || c == ' ' {
                proof {
                    assert(scan_spec(path, cs, i, line_g, ls_g) == scan_spec(
                        path,
                        cs,
                        i + 1,
                        line_g,
                        ls_g,
                    )) by {
                        reveal_with_fuel(scan_spec, 2);
                    }
                }
            } else if c == '\n' {
                self.line = self.line + 1;
                self.line_start = self.cursor;
                proof {
                    assert(scan_spec(path, cs, i, line_g, ls_g) == scan_spec(
                        path,
                        cs,
                        i + 1,
                        self@.line,
                        self@.line_start,
                    )) by {
                        reveal_with_fuel(scan_spec, 2);
                    }
                }
            } else {
                // every single-character operator, or an unexpected character
                let single = match c {
                    '{' => Some(TokenType::LBrace),
                    '}' => Some(TokenType::RBrace),
                    '+' => Some(TokenType::Instruction(OpCode::Add)),
                    '-' => Some(TokenType::Instruction(OpCode::Sub)),
                    '*' => Some(TokenType::Instruction(OpCode::Mul)),
                    '/' => Some(TokenType::Instruction(OpCode::Div)),
                    '<' => Some(TokenType::Instruction(OpCode::Lt)),
                    '>' => Some(TokenType::Instruction(OpCode::Gt)),
                    '=' => Some(TokenType::Instruction(OpCode::Eq)),
                    '!' => Some(TokenType::Instruction(OpCode::Ne)),
                    '.' => Some(TokenType::Instruction(OpCode::Dump)),
                    _ => None,
                };
                let location = self.cursor_location();
                let t = match single {
                    Some(typ3) => {
                        let lexeme = chars_to_string(&self.chars, start, self.cursor);
                        Token { typ3, lexeme, location, target: None }
                    },
                    None => {
                        let mut msg = String::from_str("unexpected character '");
                        string_push(&mut msg, c);
                        string_push(&mut msg, '\'');
                        proof {
                            assert(msg@ =~= "unexpected character '"@ + seq![c, '\'']);
                        }
                        Token { typ3: TokenType::Error, lexeme: msg, location, target: None }
                    },
                };
                let ghost tokv = t@;
                tokens.push(t);
                proof {
                    assert(cs.subrange(i, i + 1) =~= seq![cs[i]]);
                    assert(scan_spec(path, cs, i, line_g, ls_g) =~~= seq![tokv] + scan_spec(
                        path,
                        cs,
                        i + 1,
                        line_g,
                        ls_g,
                    )) by {
                        reveal_with_fuel(scan_spec, 2);
                    }
                    assert(tokens_view(tokens@) =~~= pre_tokens.push(tokv));
                        lemma_glue(path, cs, i0, line0, ls0, i, line_g, ls_g, i + 1, line_g, ls_g,
                        pre_tokens, tokv);
                }
            }
        }
        let ghost pre_tokens = tokens_view(tokens@);
        let location = self.cursor_location();
        let eof = Token { typ3: TokenType::Eof, lexeme: String::new(), location, target: None };
        let ghost eofv = eof@;
        tokens.push(eof);
        proof {
            assert(scan_spec(path, cs, self@.cursor, self@.line, self@.line_start)
                =~~= seq![eofv]) by {
                reveal_with_fuel(scan_spec, 2);
            }
            assert(tokens_view(tokens@) =~~= pre_tokens + seq![eofv]);
            assert(tokens_view(tokens@) =~~= scan_spec(path, cs, i0, line0, ls0));
        }
        tokens
    }
}

/// One scanned token extends the output exactly as one unfolding of the
/// scanner's specification says it does.
proof fn lemma_glue(
    path: Seq<char>,
    cs: Seq<char>,
    i0: int,
    line0: nat,
    ls0: int,
    i: int,
    line1: nat,
    ls1: int,
    i2: int,
    line2: nat,
    ls2: int,
    pre: Seq<TokenV>,
    tokv: TokenV,
)
    requires
        pre + scan_spec(path, cs, i, line1, ls1) == scan_spec(path, cs, i0, line0, ls0),
        scan_spec(path, cs, i, line1, ls1) == seq![tokv] + scan_spec(path, cs, i2, line2, ls2),
    ensures
        pre.push(tokv) + scan_spec(path, cs, i2, line2, ls2) == scan_spec(path, cs, i0, line0, ls0),
{
    assert(pre.push(tokv) + scan_spec(path, cs, i2, line2, ls2) =~~= pre + (seq![tokv] + scan_spec(
        path,
        cs,
        i2,
        line2,
        ls2,
    )));
}

} // verus!

//! The two-pass compiler. Pass one walks the token stream once, assigning
//! byte addresses and resolving each `if`/`else` jump target through a
//! brace-matching stack; a verification pass then rejects any target still
//! unresolved; emission serializes the resolved stream into instruction
//! bytes and a constant pool.

use vstd::bytes::spec_u64_to_le_bytes;
use vstd::prelude::*;
use vstd::string::{StrSliceExecFns, StringExecFns};

use crate::bytecode::{constants_bytes, container_bytes, ByteCode, ByteCodeV};
use crate::error::{Error, ErrorV};
use crate::lexer::{scan_spec, tokens_view, Lexer};
use crate::opcode::{opcode_byte, OpCode};
use crate::token::{location_text, Token, TokenType, TokenTypeV, TokenV};
use crate::value::{Value, ValueV};

verus! {

/// Converts a stack of indices to its mathematical counterpart.
pub open spec fn to_int_seq(s: Seq<usize>) -> Seq<int> {
    s.map_values(|u: usize| u as int)
}

pub open spec fn msg_unmatched_else() -> Seq<char> {
    "'else' has no matching 'if' block"@
}

pub open spec fn msg_end_close_if() -> Seq<char> {
    "'end' can only close if blocks"@
}

pub open spec fn msg_xref_if() -> Seq<char> {
    "failed to cross reference 'if' token with return address"@
}

pub open spec fn msg_unresolved_target() -> Seq<char> {
    "block was not referenced with end instruction pointer\n-----------------------------------\nto fix this use '{' and '}' to allow the compiler to detect the end of the block"@
}

/// The given token, with its jump target resolved to `ip`.
pub open spec fn resolve_at(toks: Seq<TokenV>, prev: int, ip: nat) -> Seq<TokenV> {
    toks.update(prev, TokenV { target: Some(ip as u64), ..toks[prev] })
}

/// Pass one over `toks[count..]`: `ip` mirrors the byte offset that emission
/// will later assign, and `stack` holds the indices of the pending `if` and
/// `else` tokens whose jump targets are still unknown.
///
/// At every closing brace: if the pending entry on top is an `else`, its
/// target becomes the current offset (where execution continues after the
/// whole construct); otherwise, unless the very next token is an `else`, the
/// pending `if` resolves here (where the false branch lands when there is no
/// else-branch). An `if` that is followed by an `else` stays pending and is
/// resolved by the `else` itself, whose offset is where false conditions
/// jump.
pub open spec fn preprocess_from(toks: Seq<TokenV>, count: int, ip: nat, stack: Seq<int>) -> Result<
    Seq<TokenV>,
    ErrorV,
>
    decreases toks.len() - count,
{
    if count < 0 || count >= toks.len() {
        Ok(toks)
    } else {
        let t = toks[count];
        match t.typ3 {
            TokenTypeV::Instruction(op) => {
                if op is If {
                    preprocess_from(toks, count + 1, ip + 9, stack.push(count))
                } else if op is Else {
                    if stack.len() == 0 {
                        Err(ErrorV::CompileError(msg_unmatched_else(), t.location))
                    } else {
                        let prev = stack.last();
                        if 0 <= prev < toks.len() && toks[prev].typ3 is Instruction {
                            preprocess_from(
                                resolve_at(toks, prev, ip),
                                count + 1,
                                ip + 9,
                                stack.drop_last().push(count),
                            )
                        } else {
                            Err(ErrorV::CompileError(msg_end_close_if(), toks[prev].location))
                        }
                    }
                } else {
                    preprocess_from(toks, count + 1, ip + 1, stack)
                }
            },
            TokenTypeV::Value(..) => preprocess_from(toks, count + 1, ip + 9, stack),
            TokenTypeV::LBrace => preprocess_from(toks, count + 1, ip, stack),
            TokenTypeV::RBrace => {
                if stack.len() == 0 {
                    preprocess_from(toks, count + 1, ip, stack)
                } else {
                    let prev = stack.last();
                    if 0 <= prev < toks.len() && (toks[prev].typ3 matches
                    TokenTypeV::Instruction(op) && op is Else) {
                        preprocess_from(resolve_at(toks, prev, ip), count + 1, ip, stack.drop_last())
                    } else if count + 1 < toks.len() && (toks[count + 1].typ3 matches
                    TokenTypeV::Instruction(op2) && op2 is Else) {
                        preprocess_from(toks, count + 1, ip, stack)
                    } else if 0 <= prev < toks.len() && (toks[prev].typ3 matches
                    TokenTypeV::Instruction(op) && op is If) {
                        preprocess_from(resolve_at(toks, prev, ip), count + 1, ip, stack.drop_last())
                    } else {
                        Err(ErrorV::CompileError(msg_xref_if(), toks[prev].location))
                    }
                }
            },
            TokenTypeV::Error => Ok(toks),
            TokenTypeV::Eof => Ok(toks),
        }
    }
}

/// Whether the token at `k` is a jump instruction whose target is still
/// unresolved after pass one.
pub open spec fn unresolved_at(toks: Seq<TokenV>, k: int) -> bool {
    &&& toks[k].typ3 matches TokenTypeV::Instruction(op)
    &&& (op is If || op is Else)
    &&& toks[k].target is None
}

/// The first unresolved jump at or after `k`, or the length if none is.
pub open spec fn first_unresolved_from(toks: Seq<TokenV>, k: int) -> int
    decreases toks.len() - k,
{
    if k < 0 || k >= toks.len() {
        toks.len() as int
    } else if unresolved_at(toks, k) {
        k
    } else {
        first_unresolved_from(toks, k + 1)
    }
}

/// The bytes one token emits: a one-byte opcode; with an eight-byte operand
/// holding the jump target for `if`/`else`, or the constant-pool index
/// (`pool_len`, the pool's length at emission time) for a literal. Block
/// delimiters and error tokens emit nothing; end of input emits `Halt`.
pub open spec fn token_emit_bytes(t: TokenV, pool_len: nat) -> Seq<u8> {
    match t.typ3 {
        TokenTypeV::Instruction(op) => {
            if op is If || op is Else {
                seq![opcode_byte(op)] + spec_u64_to_le_bytes(target_of(t))
            } else {
                seq![opcode_byte(op)]
            }
        },
        TokenTypeV::Value(..) => seq![opcode_byte(OpCode::Push)] + spec_u64_to_le_bytes(
            pool_len as u64,
        ),
        TokenTypeV::LBrace => Seq::empty(),
        TokenTypeV::RBrace => Seq::empty(),
        TokenTypeV::Error => Seq::empty(),
        TokenTypeV::Eof => seq![opcode_byte(OpCode::Halt)],
    }
}

/// The resolved jump target of a token (zero when unresolved; emission is
/// only run on fully resolved streams).
pub open spec fn target_of(t: TokenV) -> u64 {
    match t.target {
        Some(x) => x,
        None => 0,
    }
}

/// The constants one token appends to the pool: the literal it carries.
pub open spec fn token_emit_consts(t: TokenV) -> Seq<ValueV> {
    match t.typ3 {
        TokenTypeV::Value(v) => seq![v],
        _ => Seq::empty(),
    }
}

/// Emission over `toks[count..]`, accumulating instruction bytes and the
/// constant pool.
pub open spec fn emit_from(
    toks: Seq<TokenV>,
    count: int,
    bytes: Seq<u8>,
    consts: Seq<ValueV>,
) -> (Seq<u8>, Seq<ValueV>)
    decreases toks.len() - count,
{
    if count < 0 || count >= toks.len() {
        (bytes, consts)
    } else {
        emit_from(
            toks,
            count + 1,
            bytes + token_emit_bytes(toks[count], consts.len()),
            consts + token_emit_consts(toks[count]),
        )
    }
}

/// The error tokens among `toks[0..k)`, in order.
pub open spec fn collect_errors(toks: Seq<TokenV>, k: int) -> Seq<TokenV>
    decreases k,
{
    if k <= 0 {
        Seq::empty()
    } else {
        collect_errors(toks, k - 1) + (if toks[k - 1].typ3 is Error {
            seq![toks[k - 1]]
        } else {
            Seq::empty()
        })
    }
}

/// One line of the batched lexical-error report.
pub open spec fn parse_error_entry(t: TokenV) -> Seq<char> {
    location_text(t.location) + " parse error: "@ + t.lexeme
}

/// The batched lexical-error report: one line per error token.
pub open spec fn err_join(es: Seq<TokenV>) -> Seq<char>
    decreases es.len(),
{
    if es.len() == 0 {
        Seq::empty()
    } else if es.len() == 1 {
        parse_error_entry(es[0])
    } else {
        err_join(es.drop_last()) + seq!['\n'] + parse_error_entry(es.last())
    }
}

/// The whole compilation pipeline on one source text: scan; abort on any
/// lexical error, reporting all of them; resolve jump targets; reject any
/// left unresolved; emit.
pub open spec fn compile_spec(path: Seq<char>, source: Seq<char>) -> Result<ByteCodeV, ErrorV> {
    let toks = scan_spec(path, source, 0, 1, 0);
    let errs = collect_errors(toks, toks.len() as int);
    if errs.len() > 0 {
        Err(ErrorV::ParseError(err_join(errs)))
    } else {
        match preprocess_from(toks, 0, 0, Seq::empty()) {
            Err(e) => Err(e),
            Ok(resolved) => {
                let fu = first_unresolved_from(resolved, 0);
                if fu < resolved.len() {
                    Err(ErrorV::CompileError(msg_unresolved_target(), resolved[fu].location))
                } else {
                    let (bytes, consts) = emit_from(resolved, 0, Seq::empty(), Seq::empty());
                    Ok(ByteCodeV { bytes, constants: consts })
                }
            },
        }
    }
}

/// The compiler: one value per compilation, holding no state of its own.
#[derive(Default)]
pub struct Compiler {}

impl Compiler {
    /// Pass one: walks the tokens once, mirroring the byte offsets emission
    /// will assign, and resolves every `if`/`else` jump target it can
    /// through a stack of pending block openers.
    pub fn preprocess_program(&self, tokens: &mut Vec<Token>) -> (r: Result<(), Error>)
        requires
            old(tokens)@.len() >= 1,
            tokens_view(old(tokens)@)[old(tokens)@.len() - 1].typ3 is Eof,
            forall|k: int|
                0 <= k < old(tokens)@.len() - 1 ==> !(tokens_view(old(tokens)@)[k].typ3 is Eof),
            forall|k: int|
                0 <= k < old(tokens)@.len() ==> !(tokens_view(old(tokens)@)[k].typ3 is Error),
            old(tokens)@.len() * 9 <= u64::MAX,
        ensures
            match preprocess_from(tokens_view(old(tokens)@), 0, 0, Seq::empty()) {
                Ok(resolved) => r is Ok && tokens_view(final(tokens)@) == resolved,
                Err(e) => r matches Err(err) && err@ == e,
            },
    {
        let ghost orig = tokens_view(tokens@);
        let n = tokens.len();
        let mut stack: Vec<usize> = Vec::new();
        let mut count: usize = 0;
        let mut ip: u64 = 0;
        proof {
            assert(to_int_seq(stack@) =~= Seq::<int>::empty());
        }
        while count < n - 1
            invariant
                orig == tokens_view(old(tokens)@),
                n == tokens@.len(),
                n >= 1,
                count <= n - 1,
                ip <= 9 * count,
                n * 9 <= u64::MAX,
                forall|k: int| 0 <= k < n ==> tokens_view(tokens@)[k].typ3 == orig[k].typ3,
                orig[n - 1].typ3 is Eof,
                forall|k: int| 0 <= k < n - 1 ==> !(orig[k].typ3 is Eof),
                forall|k: int| 0 <= k < n ==> !(orig[k].typ3 is Error),
                forall|j: int| 0 <= j < stack@.len() ==> stack@[j] < count,
                preprocess_from(tokens_view(tokens@), count as int, ip as nat, to_int_seq(stack@))
                    == preprocess_from(orig, 0, 0, Seq::empty()),
            decreases n - count,
        {
            let ghost toks_g = tokens_view(tokens@);
            let ghost stack_g = to_int_seq(stack@);
            let ghost ipg = ip as nat;
            let ghost cg = count as int;
            proof {
                assert(toks_g[cg] == tokens@[cg]@);
                assert(toks_g[cg].typ3 == orig[cg].typ3);
                assert(!(orig[cg].typ3 is Eof));
                assert(!(orig[cg].typ3 is Error));
                assert(forall|j: int| 0 <= j < stack_g.len() ==> stack_g[j] == stack@[j]);
            }
            let tt = tokens[count].typ3.clone();
            match tt {
                TokenType::Instruction(op) => {
                    if matches!(op, OpCode::If) {
                        stack.push(count);
                        proof {
                            assert(to_int_seq(stack@) =~= stack_g.push(cg));
                            assert(preprocess_from(toks_g, cg, ipg, stack_g) == preprocess_from(
                                toks_g,
                                cg + 1,
                                ipg + 9,
                                stack_g.push(cg),
                            ));
                        }
                        ip = ip + 9;
                        count = count + 1;
                    } else if matches!(op, OpCode::Else) {
                        if stack.len() == 0 {
                            let loc = tokens[count].location.clone();
                            proof {
                                assert(preprocess_from(toks_g, cg, ipg, stack_g)
                                    == Err::<Seq<TokenV>, ErrorV>(ErrorV::CompileError(
                                    msg_unmatched_else(),
                                    toks_g[cg].location,
                                )));
                            }
                            return Err(
                                Error::CompileError(
                                    String::from_str("'else' has no matching 'if' block"),
                                    loc,
                                ),
                            );
                        } else {
                            let prev = stack[stack.len() - 1];
                            proof {
                                assert(stack_g[stack_g.len() - 1] == prev as int);
                                assert(toks_g[prev as int] == tokens@[prev as int]@);
                            }
                            let is_instr = matches!(&tokens[prev].typ3, TokenType::Instruction(..));
                            if is_instr {
                                let t2 = Token {
                                    typ3: tokens[prev].typ3.clone(),
                                    lexeme: tokens[prev].lexeme.clone(),
                                    location: tokens[prev].location.clone(),
                                    target: Some(ip),
                                };
                                let ghost t2v = t2@;
                                tokens.set(prev, t2);
                                let _ = stack.pop();
                                stack.push(count);
                                proof {
                                    assert(stack_g.last() == prev as int);
                                    assert(t2v =~= (TokenV {
                                        target: Some(ip),
                                        ..toks_g[prev as int]
                                    }));
                                    assert(tokens_view(tokens@) =~~= resolve_at(
                                        toks_g,
                                        prev as int,
                                        ipg,
                                    ));
                                    assert(to_int_seq(stack@) =~= stack_g.drop_last().push(cg));
                                    assert(preprocess_from(toks_g, cg, ipg, stack_g)
                                        == preprocess_from(
                                        resolve_at(toks_g, prev as int, ipg),
                                        cg + 1,
                                        ipg + 9,
                                        stack_g.drop_last().push(cg),
                                    ));
                                }
                                ip = ip + 9;
                                count = count + 1;
                            } else {
                                let loc = tokens[prev].location.clone();
                                proof {
                                    assert(toks_g[prev as int] == tokens@[prev as int]@);
                                    assert(preprocess_from(toks_g, cg, ipg, stack_g)
                                        == Err::<Seq<TokenV>, ErrorV>(ErrorV::CompileError(
                                        msg_end_close_if(),
                                        toks_g[prev as int].location,
                                    )));
                                }
                                return Err(
                                    Error::CompileError(
                                        String::from_str("'end' can only close if blocks"),
                                        loc,
                                    ),
                                );
                            }
                        }
                    } else {
                        proof {
                            assert(preprocess_from(toks_g, cg, ipg, stack_g) == preprocess_from(
                                toks_g,
                                cg + 1,
                                ipg + 1,
                                stack_g,
                            ));
                        }
                        ip = ip + 1;
                        count = count + 1;
                    }
                },
                TokenType::Value(..) => {
                    proof {
                        assert(preprocess_from(toks_g, cg, ipg, stack_g) == preprocess_from(
                            toks_g,
                            cg + 1,
                            ipg + 9,
                            stack_g,
                        ));
                    }
                    ip = ip + 9;
                    count = count + 1;
                },
                TokenType::LBrace => {
                    proof {
                        assert(preprocess_from(toks_g, cg, ipg, stack_g) == preprocess_from(
                            toks_g,
                            cg + 1,
                            ipg,
                            stack_g,
                        ));
                    }
                    count = count + 1;
                },
                TokenType::RBrace => {
                    if stack.len() > 0 {
                        let prev = stack[stack.len() - 1];
                        proof {
                            assert(stack_g[stack_g.len() - 1] == prev as int);
                            assert(toks_g[prev as int] == tokens@[prev as int]@);
                        }
                        let prev_else = matches!(
                            &tokens[prev].typ3,
                            TokenType::Instruction(OpCode::Else),
                        );
                        if prev_else {
                            let t2 = Token {
                                typ3: tokens[prev].typ3.clone(),
                                lexeme: tokens[prev].lexeme.clone(),
                                location: tokens[prev].location.clone(),
                                target: Some(ip),
                            };
                            let ghost t2v = t2@;
                            tokens.set(prev, t2);
                            let _ = stack.pop();
                            proof {
                                assert(stack_g.last() == prev as int);
                                assert(t2v =~= (TokenV {
                                    target: Some(ip),
                                    ..toks_g[prev as int]
                                }));
                                assert(tokens_view(tokens@) =~~= resolve_at(
                                    toks_g,
                                    prev as int,
                                    ipg,
                                ));
                                assert(to_int_seq(stack@) =~= stack_g.drop_last());
                                assert(preprocess_from(toks_g, cg, ipg, stack_g)
                                    == preprocess_from(
                                    resolve_at(toks_g, prev as int, ipg),
                                    cg + 1,
                                    ipg,
                                    stack_g.drop_last(),
                                ));
                            }
                            count = count + 1;
                        } else {
                            let next_is_else = matches!(
                                &tokens[count + 1].typ3,
                                TokenType::Instruction(OpCode::Else),
                            );
                            if next_is_else {
                                proof {
                                    assert(stack_g.last() == prev as int);
                                    assert(toks_g[prev as int] == tokens@[prev as int]@);
                                    assert(toks_g[cg + 1] == tokens@[cg + 1]@);
                                    assert(preprocess_from(toks_g, cg, ipg, stack_g)
                                        == preprocess_from(toks_g, cg + 1, ipg, stack_g));
                                }
                                count = count + 1;
                            } else if matches!(
                                &tokens[prev].typ3,
                                TokenType::Instruction(OpCode::If),
                            ) {
                                let t2 = Token {
                                    typ3: tokens[prev].typ3.clone(),
                                    lexeme: tokens[prev].lexeme.clone(),
                                    location: tokens[prev].location.clone(),
                                    target: Some(ip),
                                };
                                let ghost t2v = t2@;
                                tokens.set(prev, t2);
                                let _ = stack.pop();
                                proof {
                                    assert(stack_g.last() == prev as int);
                                    assert(toks_g[cg + 1].typ3 == tokens@[cg + 1]@.typ3);
                                    assert(t2v =~= (TokenV {
                                        target: Some(ip),
                                        ..toks_g[prev as int]
                                    }));
                                    assert(tokens_view(tokens@) =~~= resolve_at(
                                        toks_g,
                                        prev as int,
                                        ipg,
                                    ));
                                    assert(to_int_seq(stack@) =~= stack_g.drop_last());
                                    assert(preprocess_from(toks_g, cg, ipg, stack_g)
                                        == preprocess_from(
                                        resolve_at(toks_g, prev as int, ipg),
                                        cg + 1,
                                        ipg,
                                        stack_g.drop_last(),
                                    ));
                                }
                                count = count + 1;
                            } else {
                                let loc = tokens[prev].location.clone();
                                proof {
                                    assert(stack_g.last() == prev as int);
                                    assert(toks_g[prev as int] == tokens@[prev as int]@);
                                    assert(toks_g[cg + 1] == tokens@[cg + 1]@);
                                    assert(preprocess_from(toks_g, cg, ipg, stack_g)
                                        == Err::<Seq<TokenV>, ErrorV>(ErrorV::CompileError(
                                        msg_xref_if(),
                                        toks_g[prev as int].location,
                                    )));
                                }
                                return Err(
                                    Error::CompileError(
                                        String::from_str(
                                            "failed to cross reference 'if' token with return address",
                                        ),
                                        loc,
                                    ),
                                );
                            }
                        }
                    } else {
                        proof {
                            assert(preprocess_from(toks_g, cg, ipg, stack_g) == preprocess_from(
                                toks_g,
                                cg + 1,
                                ipg,
                                stack_g,
                            ));
                        }
                        count = count + 1;
                    }
                },
                TokenType::Error => {
                    proof {
                        assert(false);
                    }
                },
                TokenType::Eof => {
                    proof {
                        assert(false);
                    }
                },
            }
        }
        proof {
            assert(count == n - 1);
            assert(tokens_view(tokens@)[count as int].typ3 is Eof);
            assert(preprocess_from(
                tokens_view(tokens@),
                count as int,
                ip as nat,
                to_int_seq(stack@),
            ) == Ok::<Seq<TokenV>, ErrorV>(tokens_view(tokens@)));
        }
        Ok(())
    }

    /// The verification pass: every `if`/`else` must have been resolved by
    /// pass one; the first one that was not is a fatal compile error naming
    /// its source location.
    pub fn verify_cross_reference_blocks(&self, tokens: &Vec<Token>) -> (r: Result<(), Error>)
        ensures
            ({
                let toks = tokens_view(tokens@);
                let fu = first_unresolved_from(toks, 0);
                if fu < toks.len() {
                    r matches Err(e) && e@ == ErrorV::CompileError(
                        msg_unresolved_target(),
                        toks[fu].location,
                    )
                } else {
                    r is Ok
                }
            }),
    {
        let ghost toks = tokens_view(tokens@);
        let n = tokens.len();
        let mut i: usize = 0;
        while i < n
            invariant
                n == tokens@.len(),
                i <= n,
                toks == tokens_view(tokens@),
                first_unresolved_from(toks, 0) == first_unresolved_from(toks, i as int),
            decreases n - i,
        {
            let is_jump = matches!(
                &tokens[i].typ3,
                TokenType::Instruction(OpCode::If) | TokenType::Instruction(OpCode::Else),
            );
            if is_jump && tokens[i].target.is_none() {
                let loc = tokens[i].location.clone();
                proof {
                    assert(toks[i as int] == tokens@[i as int]@);
                    assert(unresolved_at(toks, i as int));
                    assert(first_unresolved_from(toks, i as int) == i);
                }
                return Err(
                    Error::CompileError(
                        String::from_str(
                            "block was not referenced with end instruction pointer\n-----------------------------------\nto fix this use '{' and '}' to allow the compiler to detect the end of the block",
                        ),
                        loc,
                    ),
                );
            }
            proof {
                assert(!unresolved_at(toks, i as int));
            }
            i = i + 1;
        }
        Ok(())
    }

    /// Emission of one token: appends its bytes to the instruction stream
    /// and its literal, if it carries one, to the constant pool.
    pub fn bytes_from_token(&self, byte_code: &mut ByteCode, token: &Token)
        requires
            (token@.typ3 matches TokenTypeV::Instruction(op) && (op is If || op is Else))
                ==> token@.target is Some,
        ensures
            final(byte_code)@.bytes == old(byte_code)@.bytes + token_emit_bytes(
                token@,
                old(byte_code)@.constants.len(),
            ),
            final(byte_code)@.constants == old(byte_code)@.constants + token_emit_consts(token@),
    {
        match &token.typ3 {
            TokenType::Instruction(op) => {
                let is_jump = matches!(op, OpCode::If | OpCode::Else);
                let b = op.as_byte();
                byte_code.bytes.push(b);
                if is_jump {
                    let t = match token.target {
                        Some(t) => t,
                        None => 0,
                    };
                    crate::bytecode::push_u64_le(&mut byte_code.bytes, t);
                }
                proof {
                    assert(byte_code@.bytes =~= old(byte_code)@.bytes + token_emit_bytes(
                        token@,
                        old(byte_code)@.constants.len(),
                    ));
                    assert(byte_code@.constants =~= old(byte_code)@.constants
                        + token_emit_consts(token@));
                }
            },
            TokenType::Value(v) => {
                let b = OpCode::Push.as_byte();
                byte_code.bytes.push(b);
                let index = byte_code.constants.len() as u64;
                crate::bytecode::push_u64_le(&mut byte_code.bytes, index);
                byte_code.constants.push(v.clone());
                proof {
                    assert(byte_code@.bytes =~= old(byte_code)@.bytes + token_emit_bytes(
                        token@,
                        old(byte_code)@.constants.len(),
                    ));
                    assert(byte_code@.constants =~= old(byte_code)@.constants
                        + token_emit_consts(token@));
                }
            },
            TokenType::LBrace | TokenType::RBrace | TokenType::Error => {
                proof {
                    assert(byte_code@.bytes =~= old(byte_code)@.bytes + token_emit_bytes(
                        token@,
                        old(byte_code)@.constants.len(),
                    ));
                    assert(byte_code@.constants =~= old(byte_code)@.constants
                        + token_emit_consts(token@));
                }
            },
            TokenType::Eof => {
                let b = OpCode::Halt.as_byte();
                byte_code.bytes.push(b);
                proof {
                    assert(byte_code@.bytes =~= old(byte_code)@.bytes + token_emit_bytes(
                        token@,
                        old(byte_code)@.constants.len(),
                    ));
                    assert(byte_code@.constants =~= old(byte_code)@.constants
                        + token_emit_consts(token@));
                }
            },
        }
    }

    /// Serializes the constant pool: each entry's tag and payload, in order.
    pub fn constants_to_bytes(&self, constants: &Vec<Value>) -> (r: Vec<u8>)
        ensures
            r@ == constants_bytes(Seq::new(constants@.len(), |i: int| constants@[i]@)),
    {
        let ghost cs = Seq::new(constants@.len(), |i: int| constants@[i]@);
        let mut result: Vec<u8> = Vec::new();
        let n = constants.len();
        let mut i: usize = 0;
        proof {
            assert(cs.subrange(0, 0) =~= Seq::<ValueV>::empty());
        }
        while i < n
            invariant
                n == constants@.len(),
                i <= n,
                cs == Seq::new(constants@.len(), |k: int| constants@[k]@),
                result@ == constants_bytes(cs.subrange(0, i as int)),
            decreases n - i,
        {
            let ghost pre = cs.subrange(0, i as int);
            match &constants[i] {
                Value::Int32(x) => {
                    result.push(0);
                    crate::bytecode::push_u32_le(&mut result, #[verifier::truncate] (*x as u32));
                },
                Value::UInt32(x) => {
                    result.push(1);
                    crate::bytecode::push_u32_le(&mut result, *x);
                },
                Value::String(s) => {
                    result.push(2);
                    let mut sb = s.as_str().as_bytes_vec();
                    let len = sb.len() as u64;
                    crate::bytecode::push_u64_le(&mut result, len);
                    result.append(&mut sb);
                },
            }
            proof {
                lemma_constants_bytes_snoc(pre, cs[i as int]);
                assert(cs.subrange(0, i as int + 1) =~= pre.push(cs[i as int]));
                assert(result@ =~= constants_bytes(cs.subrange(0, i as int + 1)));
            }
            i = i + 1;
        }
        proof {
            assert(cs.subrange(0, n as int) =~= cs);
        }
        result
    }

    /// Compiles one source text to bytecode, or reports the first failure:
    /// every lexical error batched into one parse error, or the compile
    /// error of a malformed or unresolved block.
    pub fn compile(&self, path: &str, source: &str) -> (r: Result<ByteCode, Error>)
        requires
            source@.len() + 1 <= usize::MAX,
            (source@.len() + 2) * 9 <= u64::MAX,
        ensures
            match compile_spec(path@, source@) {
                Ok(bc) => r matches Ok(b) && b@ == bc,
                Err(e) => r matches Err(err) && err@ == e,
            },
            r matches Ok(b) ==> b@.bytes.len() >= 1,
    {
        let ghost pathv = path@;
        let ghost src = source@;
        let mut lexer = Lexer::new(String::from_str(path), source);
        let mut tokens = lexer.scan_tokens();
        let ghost toks = tokens_view(tokens@);
        proof {
            lemma_scan_spec_shape(pathv, src, 0, 1, 0);
        }
        let n = tokens.len();
        // collect every lexical error into one batched report
        let mut err_str = String::new();
        let mut any = false;
        let mut i: usize = 0;
        while i < n
            invariant
                n == tokens@.len(),
                i <= n,
                toks == tokens_view(tokens@),
                any == (collect_errors(toks, i as int).len() > 0),
                err_str@ == err_join(collect_errors(toks, i as int)),
                !any ==> forall|k: int| 0 <= k < i ==> !(toks[k].typ3 is Error),
            decreases n - i,
        {
            let ghost pre = collect_errors(toks, i as int);
            let is_err = matches!(&tokens[i].typ3, TokenType::Error);
            if is_err {
                if any {
                    crate::text::string_push(&mut err_str, '\n');
                }
                let loc_txt = tokens[i].location.text();
                err_str.append(loc_txt.as_str());
                err_str.append(" parse error: ");
                err_str.append(tokens[i].lexeme.as_str());
                any = true;
                proof {
                    assert(collect_errors(toks, i as int + 1) =~= pre.push(toks[i as int]));
                    if pre.len() == 0 {
                        assert(err_str@ =~= err_join(collect_errors(toks, i as int + 1)));
                    } else {
                        assert(collect_errors(toks, i as int + 1).drop_last() =~= pre);
                        assert(err_str@ =~= err_join(collect_errors(toks, i as int + 1)));
                    }
                }
            } else {
                proof {
                    assert(collect_errors(toks, i as int + 1) =~= pre);
                }
            }
            i = i + 1;
        }
        if any {
            return Err(Error::ParseError(err_str));
        }
        match self.preprocess_program(&mut tokens) {
            Ok(..) => (),
            Err(e) => {
                return Err(e);
            },
        }
        let ghost resolved = tokens_view(tokens@);
        match self.verify_cross_reference_blocks(&tokens) {
            Ok(..) => (),
            Err(e) => {
                return Err(e);
            },
        }
        let mut byte_code = ByteCode::new();
        let m = tokens.len();
        let mut j: usize = 0;
        proof {
            lemma_preprocess_shape(toks, 0, 0, Seq::empty());
        }
        while j < m
            invariant
                m == tokens@.len(),
                j <= m,
                resolved == tokens_view(tokens@),
                first_unresolved_from(resolved, 0) >= resolved.len(),
                emit_from(resolved, j as int, byte_code@.bytes, byte_code@.constants) == emit_from(
                    resolved,
                    0,
                    Seq::empty(),
                    Seq::empty(),
                ),
            decreases m - j,
        {
            proof {
                lemma_first_unresolved_none(resolved, j as int);
            }
            self.bytes_from_token(&mut byte_code, &tokens[j]);
            j = j + 1;
        }
        proof {
            let (eb, ec) = emit_from(resolved, 0, Seq::empty(), Seq::empty());
            assert(byte_code@.bytes == eb && byte_code@.constants == ec);
            assert(byte_code@ =~= (ByteCodeV { bytes: eb, constants: ec }));
            assert(byte_code@.bytes.len() >= 1) by {
                lemma_emit_has_halt(resolved, 0, Seq::empty(), Seq::empty());
            }
        }
        Ok(byte_code)
    }

    /// Assembles the full binary container: the halt-index header, the
    /// instruction bytes, then the serialized constant pool.
    pub fn to_binary(&self, byte_code: &ByteCode) -> (r: Vec<u8>)
        requires
            byte_code@.bytes.len() >= 1,
        ensures
            r@ == container_bytes(byte_code@),
    {
        let mut out: Vec<u8> = Vec::new();
        let halt_index = (byte_code.bytes.len() - 1) as u64;
        crate::bytecode::push_u64_le(&mut out, halt_index);
        let mut instr = byte_code.bytes.clone();
        out.append(&mut instr);
        let mut consts = self.constants_to_bytes(&byte_code.constants);
        out.append(&mut consts);
        proof {
            assert(out@ =~= container_bytes(byte_code@));
        }
        out
    }
}

/// Serializing a pool one entry longer appends exactly that entry's bytes.
proof fn lemma_constants_bytes_snoc(cs: Seq<ValueV>, v: ValueV)
    ensures
        constants_bytes(cs.push(v)) == constants_bytes(cs) + crate::bytecode::const_entry_bytes(v),
    decreases cs.len(),
{
    reveal_with_fuel(constants_bytes, 3);
    if cs.len() == 0 {
        assert(cs.push(v)[0] == v);
        assert(cs.push(v).drop_first() =~= Seq::<ValueV>::empty());
        assert(constants_bytes(cs.push(v)) =~= constants_bytes(cs)
            + crate::bytecode::const_entry_bytes(v));
    } else {
        assert(cs.push(v).drop_first() =~= cs.drop_first().push(v));
        lemma_constants_bytes_snoc(cs.drop_first(), v);
        assert(cs.push(v)[0] == cs[0]);
        assert(constants_bytes(cs.push(v)) == crate::bytecode::const_entry_bytes(cs[0])
            + constants_bytes(cs.drop_first().push(v)));
        assert(constants_bytes(cs) == crate::bytecode::const_entry_bytes(cs[0])
            + constants_bytes(cs.drop_first()));
        assert(constants_bytes(cs.push(v)) =~= constants_bytes(cs)
            + crate::bytecode::const_entry_bytes(v));
    }
}

/// When no jump is unresolved anywhere, none is unresolved at `j`.
proof fn lemma_first_unresolved_none(toks: Seq<TokenV>, j: int)
    requires
        first_unresolved_from(toks, 0) >= toks.len(),
        0 <= j < toks.len(),
    ensures
        !unresolved_at(toks, j),
{
    lemma_first_unresolved_step(toks, 0, j);
}

proof fn lemma_first_unresolved_step(toks: Seq<TokenV>, a: int, j: int)
    requires
        0 <= a <= j < toks.len(),
        first_unresolved_from(toks, a) >= toks.len(),
    ensures
        !unresolved_at(toks, j),
    decreases j - a,
{
    if a < j {
        lemma_first_unresolved_step(toks, a + 1, j);
    }
}

/// A token stream that ends with `Eof` emits at least the final `Halt`.
proof fn lemma_emit_has_halt(toks: Seq<TokenV>, count: int, bytes: Seq<u8>, consts: Seq<ValueV>)
    requires
        toks.len() >= 1,
        toks[toks.len() - 1].typ3 is Eof,
        0 <= count <= toks.len() - 1,
    ensures
        emit_from(toks, count, bytes, consts).0.len() >= 1,
    decreases toks.len() - count,
{
    if count == toks.len() - 1 {
        assert(token_emit_bytes(toks[count], consts.len()).len() == 1);
        let b2 = bytes + token_emit_bytes(toks[count], consts.len());
        assert(emit_from(toks, count, bytes, consts) == emit_from(
            toks,
            count + 1,
            b2,
            consts + token_emit_consts(toks[count]),
        ));
        assert(emit_from(toks, count + 1, b2, consts + token_emit_consts(toks[count])).0 == b2);
        assert(b2.len() >= 1);
    } else {
        lemma_emit_has_halt(
            toks,
            count + 1,
            bytes + token_emit_bytes(toks[count], consts.len()),
            consts + token_emit_consts(toks[count]),
        );
    }
}

/// Pass one only fills in jump targets: it never changes a token's kind,
/// nor the number of tokens.
proof fn lemma_preprocess_shape(toks: Seq<TokenV>, count: int, ip: nat, stack: Seq<int>)
    ensures
        preprocess_from(toks, count, ip, stack) matches Ok(r) ==> r.len() == toks.len() && (forall|
            k: int,
        |
            0 <= k < toks.len() ==> r[k].typ3 == toks[k].typ3),
    decreases toks.len() - count,
{
    if 0 <= count < toks.len() {
        let t = toks[count];
        match t.typ3 {
            TokenTypeV::Instruction(op) => {
                if op is If {
                    lemma_preprocess_shape(toks, count + 1, ip + 9, stack.push(count));
                } else if op is Else {
                    if stack.len() > 0 {
                        let prev = stack.last();
                        if 0 <= prev < toks.len() && toks[prev].typ3 is Instruction {
                            lemma_preprocess_shape(
                                resolve_at(toks, prev, ip),
                                count + 1,
                                ip + 9,
                                stack.drop_last().push(count),
                            );
                        }
                    }
                } else {
                    lemma_preprocess_shape(toks, count + 1, ip + 1, stack);
                }
            },
            TokenTypeV::Value(..) => {
                lemma_preprocess_shape(toks, count + 1, ip + 9, stack);
            },
            TokenTypeV::LBrace => {
                lemma_preprocess_shape(toks, count + 1, ip, stack);
            },
            TokenTypeV::RBrace => {
                if stack.len() == 0 {
                    lemma_preprocess_shape(toks, count + 1, ip, stack);
                } else {
                    let prev = stack.last();
                    if 0 <= prev < toks.len() && (toks[prev].typ3 matches
                    TokenTypeV::Instruction(op) && op is Else) {
                        lemma_preprocess_shape(
                            resolve_at(toks, prev, ip),
                            count + 1,
                            ip,
                            stack.drop_last(),
                        );
                    } else if count + 1 < toks.len() && (toks[count + 1].typ3 matches
                    TokenTypeV::Instruction(op2) && op2 is Else) {
                        lemma_preprocess_shape(toks, count + 1, ip, stack);
                    } else if 0 <= prev < toks.len() && (toks[prev].typ3 matches
                    TokenTypeV::Instruction(op) && op is If) {
                        lemma_preprocess_shape(
                            resolve_at(toks, prev, ip),
                            count + 1,
                            ip,
                            stack.drop_last(),
                        );
                    }
                }
            },
            TokenTypeV::Error => {},
            TokenTypeV::Eof => {},
        }
    }
}

/// The lexer's output always ends with exactly one `Eof` token, and scans
/// at most one token per character.
#[verifier::rlimit(100)]
#[verifier::spinoff_prover]
pub proof fn lemma_scan_spec_shape(path: Seq<char>, cs: Seq<char>, i: int, line: nat, ls: int)
    requires
        0 <= i <= cs.len(),
    ensures
        ({
            let s = scan_spec(path, cs, i, line, ls);
            &&& s.len() >= 1
            &&& s.len() <= cs.len() - i + 1
            &&& s[s.len() - 1].typ3 is Eof
            &&& forall|k: int| 0 <= k < s.len() - 1 ==> !(s[k].typ3 is Eof)
            &&& forall|k: int| 0 <= k < s.len() ==> s[k].target is None
            &&& forall|k: int|
                0 <= k < s.len() ==> (#[trigger] s[k].typ3 matches TokenTypeV::Value(v)
                    ==> (v matches ValueV::Str(st) ==> st.len() <= cs.len()))
        }),
    decreases cs.len() - i,
{
    reveal_with_fuel(crate::lexer::scan_spec, 2);
    crate::lexer::lemma_run_len_le(cs, i, crate::lexer::digit_pred());
    if i < cs.len() {
        crate::lexer::lemma_run_len_le(cs, i + 1, crate::lexer::digit_pred());
        crate::lexer::lemma_run_len_le(cs, i + 1, crate::lexer::alpha_pred());
        crate::lexer::lemma_run_len_le(cs, i + 1, crate::lexer::string_pred());
        if i + 2 <= cs.len() {
            crate::lexer::lemma_run_len_le(cs, i + 2, crate::lexer::comment_pred());
        }
        let c = cs[i];
        if crate::lexer::is_digit(c) {
            let j = i + 1 + crate::lexer::run_len(cs, i + 1, crate::lexer::digit_pred());
            lemma_scan_spec_shape(path, cs, j, line, ls);
        } else if crate::lexer::is_alpha(c) {
            let j = i + 1 + crate::lexer::run_len(cs, i + 1, crate::lexer::alpha_pred());
            lemma_scan_spec_shape(path, cs, j, line, ls);
        } else if c == '/' && i + 1 < cs.len() && cs[i + 1] == '/' {
            let j = i + 2 + crate::lexer::run_len(cs, i + 2, crate::lexer::comment_pred());
            lemma_scan_spec_shape(path, cs, j, line, ls);
        } else if (c == '<' || c == '>') && i + 1 < cs.len() && cs[i + 1] == '=' {
            lemma_scan_spec_shape(path, cs, i + 2, line, ls);
        } else if c == '"' {
            let j = i + 1 + crate::lexer::run_len(cs, i + 1, crate::lexer::string_pred());
            let line2 = (line + crate::lexer::count_nl(cs, i + 1, j)) as nat;
            let ls2 = crate::lexer::ls_after(cs, i + 1, j, ls);
            if j >= cs.len() {
                lemma_scan_spec_shape(path, cs, j, line2, ls2);
            } else {
                lemma_scan_spec_shape(path, cs, j + 1, line2, ls2);
            }
        } else if c == '\n' {
            lemma_scan_spec_shape(path, cs, i + 1, (line + 1) as nat, i + 1);
        } else {
            lemma_scan_spec_shape(path, cs, i + 1, line, ls);
        }
    }
}

/// A token that neither opens nor closes control flow: a plain instruction
/// or a literal. Pass one walks straight over these, only advancing the
/// byte-offset counter.
pub open spec fn simple_token(t: TokenV) -> bool {
    ||| (t.typ3 matches TokenTypeV::Instruction(op) && !(op is If) && !(op is Else))
    ||| t.typ3 is Value
}

/// The bytes a simple token will occupy in the emitted stream.
pub open spec fn simple_width(t: TokenV) -> nat {
    match t.typ3 {
        TokenTypeV::Instruction(..) => 1,
        TokenTypeV::Value(..) => 9,
        _ => 0,
    }
}

/// The bytes the simple tokens `toks[a..b)` will occupy.
pub open spec fn widths(toks: Seq<TokenV>, a: int, b: int) -> nat
    decreases b - a,
{
    if a >= b {
        0
    } else {
        simple_width(toks[a]) + widths(toks, a + 1, b)
    }
}

/// Pass one walks over a run of simple tokens, adding exactly their widths
/// to the byte-offset counter and leaving the pending-block stack alone.
proof fn lemma_simple_run(toks: Seq<TokenV>, a: int, b: int, ip: nat, stack: Seq<int>)
    requires
        0 <= a <= b <= toks.len(),
        forall|k: int| a <= k < b ==> simple_token(#[trigger] toks[k]),
    ensures
        preprocess_from(toks, a, ip, stack) == preprocess_from(
            toks,
            b,
            ip + widths(toks, a, b),
            stack,
        ),
    decreases b - a,
{
    if a < b {
        lemma_simple_run(toks, a + 1, b, ip + simple_width(toks[a]), stack);
    }
}

/// Two streams that agree on a range occupy the same bytes over it.
proof fn lemma_widths_same(s1: Seq<TokenV>, s2: Seq<TokenV>, a: int, b: int)
    requires
        forall|k: int| a <= k < b ==> #[trigger] s1[k] == s2[k],
    ensures
        widths(s1, a, b) == widths(s2, a, b),
    decreases b - a,
{
    if a < b {
        lemma_widths_same(s1, s2, a + 1, b);
    }
}

/// Once a token has been passed and is not pending on the stack, the rest
/// of pass one never touches it: later rewrites only reach indices on the
/// stack, and only indices at or past the current position are ever pushed.
proof fn lemma_preprocess_stable(
    toks: Seq<TokenV>,
    count: int,
    ip: nat,
    stack: Seq<int>,
    j: int,
)
    requires
        0 <= j < count,
        forall|k: int| 0 <= k < stack.len() ==> stack[k] != j,
    ensures
        preprocess_from(toks, count, ip, stack) matches Ok(r) ==> (j < toks.len() ==> r[j]
            == toks[j]),
    decreases toks.len() - count,
{
    if 0 <= count < toks.len() {
        let t = toks[count];
        match t.typ3 {
            TokenTypeV::Instruction(op) => {
                if op is If {
                    lemma_preprocess_stable(toks, count + 1, ip + 9, stack.push(count), j);
                } else if op is Else {
                    if stack.len() > 0 {
                        let prev = stack.last();
                        if 0 <= prev < toks.len() && toks[prev].typ3 is Instruction {
                            let toks2 = resolve_at(toks, prev, ip);
                            let stack2 = stack.drop_last().push(count);
                            assert(forall|k: int|
                                0 <= k < stack2.len() ==> #[trigger] stack2[k] != j);
                            lemma_preprocess_stable(toks2, count + 1, ip + 9, stack2, j);
                            assert(j < toks.len() ==> toks2[j] == toks[j]);
                        }
                    }
                } else {
                    lemma_preprocess_stable(toks, count + 1, ip + 1, stack, j);
                }
            },
            TokenTypeV::Value(..) => {
                lemma_preprocess_stable(toks, count + 1, ip + 9, stack, j);
            },
            TokenTypeV::LBrace => {
                lemma_preprocess_stable(toks, count + 1, ip, stack, j);
            },
            TokenTypeV::RBrace => {
                if stack.len() == 0 {
                    lemma_preprocess_stable(toks, count + 1, ip, stack, j);
                } else {
                    let prev = stack.last();
                    if 0 <= prev < toks.len() && (toks[prev].typ3 matches
                    TokenTypeV::Instruction(op) && op is Else) {
                        let toks2 = resolve_at(toks, prev, ip);
                        let stack2 = stack.drop_last();
                        assert(forall|k: int| 0 <= k < stack2.len() ==> #[trigger] stack2[k] != j);
                        lemma_preprocess_stable(toks2, count + 1, ip, stack2, j);
                        assert(j < toks.len() ==> toks2[j] == toks[j]);
                    } else if count + 1 < toks.len() && (toks[count + 1].typ3 matches
                    TokenTypeV::Instruction(op2) && op2 is Else) {
                        lemma_preprocess_stable(toks, count + 1, ip, stack, j);
                    } else if 0 <= prev < toks.len() && (toks[prev].typ3 matches
                    TokenTypeV::Instruction(op) && op is If) {
                        let toks2 = resolve_at(toks, prev, ip);
                        let stack2 = stack.drop_last();
                        assert(forall|k: int| 0 <= k < stack2.len() ==> #[trigger] stack2[k] != j);
                        lemma_preprocess_stable(toks2, count + 1, ip, stack2, j);
                        assert(j < toks.len() ==> toks2[j] == toks[j]);
                    }
                }
            },
            TokenTypeV::Error => {},
            TokenTypeV::Eof => {},
        }
    }
}

/// The jump target pass one assigns to an `if` with no `else`: the byte
/// offset immediately after the block's closing brace.
pub open spec fn if_target_no_else(toks: Seq<TokenV>, i_if: int, i_rb: int) -> nat {
    widths(toks, 0, i_if) + 9 + widths(toks, i_if + 2, i_rb)
}

/// Backpatch correctness for `if { … }` with no `else`, at any position the
/// pass reaches: whatever byte offset pass one has assigned when it meets
/// the `if`, the target it resolves is that offset plus the `if`'s own nine
/// bytes plus the body's bytes — the byte offset immediately after the
/// block's closing brace.
pub proof fn lemma_backpatch_if_no_else_at(
    toks: Seq<TokenV>,
    i_if: int,
    i_rb: int,
    ip0: nat,
    stack0: Seq<int>,
)
    requires
        0 <= i_if,
        i_if + 2 <= i_rb,
        i_rb + 1 < toks.len(),
        toks[i_if].typ3 == TokenTypeV::Instruction(OpCode::If),
        toks[i_if + 1].typ3 is LBrace,
        toks[i_rb].typ3 is RBrace,
        forall|k: int| i_if + 2 <= k < i_rb ==> simple_token(#[trigger] toks[k]),
        !(toks[i_rb + 1].typ3 matches TokenTypeV::Instruction(op) && op is Else),
        forall|k: int| 0 <= k < stack0.len() ==> stack0[k] != i_if,
    ensures
        preprocess_from(toks, i_if, ip0, stack0) matches Ok(r) ==> r[i_if] == (TokenV {
            target: Some((ip0 + 9 + widths(toks, i_if + 2, i_rb)) as u64),
            ..toks[i_if]
        }),
{
    let st1 = stack0.push(i_if);
    assert(preprocess_from(toks, i_if, ip0, stack0) == preprocess_from(
        toks,
        i_if + 1,
        ip0 + 9,
        st1,
    ));
    assert(preprocess_from(toks, i_if + 1, ip0 + 9, st1) == preprocess_from(
        toks,
        i_if + 2,
        ip0 + 9,
        st1,
    ));
    let w = ip0 + 9 + widths(toks, i_if + 2, i_rb);
    lemma_simple_run(toks, i_if + 2, i_rb, ip0 + 9, st1);
    let resolved = resolve_at(toks, i_if, w);
    assert(st1.last() == i_if);
    assert(st1.drop_last() =~= stack0);
    assert(preprocess_from(toks, i_rb, w, st1) == preprocess_from(
        resolved,
        i_rb + 1,
        w,
        stack0,
    ));
    lemma_preprocess_stable(resolved, i_rb + 1, w, stack0, i_if);
    assert(resolved[i_if] == (TokenV { target: Some(w as u64), ..toks[i_if] }));
}

/// Backpatch correctness for `if { … }` with no `else` over a whole stream:
/// when the prefix before the `if` is plain tokens, the resolved jump
/// target is exactly the byte offset immediately after the closing brace.
pub proof fn lemma_backpatch_if_no_else(toks: Seq<TokenV>, i_if: int, i_rb: int)
    requires
        0 <= i_if,
        i_if + 2 <= i_rb,
        i_rb + 1 < toks.len(),
        toks[i_if].typ3 == TokenTypeV::Instruction(OpCode::If),
        toks[i_if + 1].typ3 is LBrace,
        toks[i_rb].typ3 is RBrace,
        forall|k: int| 0 <= k < i_if ==> simple_token(#[trigger] toks[k]),
        forall|k: int| i_if + 2 <= k < i_rb ==> simple_token(#[trigger] toks[k]),
        !(toks[i_rb + 1].typ3 matches TokenTypeV::Instruction(op) && op is Else),
    ensures
        preprocess_from(toks, 0, 0, Seq::empty()) matches Ok(r) ==> r[i_if] == (TokenV {
            target: Some(if_target_no_else(toks, i_if, i_rb) as u64),
            ..toks[i_if]
        }),
{
    let st0: Seq<int> = Seq::empty();
    lemma_simple_run(toks, 0, i_if, 0, st0);
    lemma_backpatch_if_no_else_at(toks, i_if, i_rb, widths(toks, 0, i_if), st0);
}

/// The jump target pass one assigns to the `if` of an `if`/`else` pair: the
/// start of the else construct, where a false condition lands.
pub open spec fn if_target_with_else(toks: Seq<TokenV>, i_if: int, i_rb1: int) -> nat {
    widths(toks, 0, i_if) + 9 + widths(toks, i_if + 2, i_rb1)
}

/// The jump target pass one assigns to the `else`: the byte offset
/// immediately after the else-body's closing brace, where a completed true
/// branch resumes.
pub open spec fn else_target(toks: Seq<TokenV>, i_if: int, i_rb1: int, i_rb2: int) -> nat {
    if_target_with_else(toks, i_if, i_rb1) + 9 + widths(toks, i_rb1 + 3, i_rb2)
}

/// Backpatch correctness for `if { A } else { B }`, at any position the
/// pass reaches: the `if` resolves to the else construct's own byte offset
/// (where a false condition lands), and the `else` to the byte offset
/// immediately after `B`'s closing brace (where a completed true branch
/// resumes).
pub proof fn lemma_backpatch_if_else_at(
    toks: Seq<TokenV>,
    i_if: int,
    i_rb1: int,
    i_rb2: int,
    ip0: nat,
    stack0: Seq<int>,
)
    requires
        0 <= i_if,
        i_if + 2 <= i_rb1,
        i_rb1 + 3 <= i_rb2,
        i_rb2 < toks.len(),
        toks[i_if].typ3 == TokenTypeV::Instruction(OpCode::If),
        toks[i_if + 1].typ3 is LBrace,
        toks[i_rb1].typ3 is RBrace,
        toks[i_rb1 + 1].typ3 == TokenTypeV::Instruction(OpCode::Else),
        toks[i_rb1 + 2].typ3 is LBrace,
        toks[i_rb2].typ3 is RBrace,
        forall|k: int| i_if + 2 <= k < i_rb1 ==> simple_token(#[trigger] toks[k]),
        forall|k: int| i_rb1 + 3 <= k < i_rb2 ==> simple_token(#[trigger] toks[k]),
        forall|k: int|
            0 <= k < stack0.len() ==> stack0[k] != i_if && #[trigger] stack0[k] != i_rb1 + 1,
    ensures
        preprocess_from(toks, i_if, ip0, stack0) matches Ok(r) ==> ({
            let w1 = ip0 + 9 + widths(toks, i_if + 2, i_rb1);
            let w2 = w1 + 9 + widths(toks, i_rb1 + 3, i_rb2);
            &&& r[i_if] == (TokenV { target: Some(w1 as u64), ..toks[i_if] })
            &&& r[i_rb1 + 1] == (TokenV { target: Some(w2 as u64), ..toks[i_rb1 + 1] })
        }),
{
    let i_else = i_rb1 + 1;
    let w1 = ip0 + 9 + widths(toks, i_if + 2, i_rb1);
    let w2 = w1 + 9 + widths(toks, i_rb1 + 3, i_rb2);
    let st1 = stack0.push(i_if);
    // through the if, its opening brace, and the true body
    assert(preprocess_from(toks, i_if, ip0, stack0) == preprocess_from(
        toks,
        i_if + 1,
        ip0 + 9,
        st1,
    ));
    assert(preprocess_from(toks, i_if + 1, ip0 + 9, st1) == preprocess_from(
        toks,
        i_if + 2,
        ip0 + 9,
        st1,
    ));
    lemma_simple_run(toks, i_if + 2, i_rb1, ip0 + 9, st1);
    // the first closing brace leaves the pending `if` for the `else`
    assert(st1.last() == i_if);
    assert(preprocess_from(toks, i_rb1, w1, st1) == preprocess_from(toks, i_else, w1, st1));
    // the `else` resolves the `if` to its own offset and becomes pending
    let resolved1 = resolve_at(toks, i_if, w1);
    let st2 = st1.drop_last().push(i_else);
    assert(st1.drop_last() =~= stack0);
    assert(preprocess_from(toks, i_else, w1, st1) == preprocess_from(
        resolved1,
        i_else + 1,
        w1 + 9,
        st2,
    ));
    // through the else-body
    assert(resolved1[i_else + 1].typ3 is LBrace);
    assert(preprocess_from(resolved1, i_else + 1, w1 + 9, st2) == preprocess_from(
        resolved1,
        i_else + 2,
        w1 + 9,
        st2,
    ));
    assert(forall|k: int|
        i_rb1 + 3 <= k < i_rb2 ==> #[trigger] resolved1[k] == toks[k]);
    lemma_simple_run(resolved1, i_rb1 + 3, i_rb2, w1 + 9, st2);
    lemma_widths_same(resolved1, toks, i_rb1 + 3, i_rb2);
    // the second closing brace resolves the pending `else`
    assert(resolved1[i_rb2].typ3 is RBrace);
    assert(st2.last() == i_else);
    assert(resolved1[i_else].typ3 == TokenTypeV::Instruction(OpCode::Else));
    let resolved2 = resolve_at(resolved1, i_else, w2);
    assert(st2.drop_last() =~= stack0);
    assert(preprocess_from(resolved1, i_rb2, w2, st2) == preprocess_from(
        resolved2,
        i_rb2 + 1,
        w2,
        stack0,
    ));
    // neither token is touched again
    lemma_preprocess_stable(resolved2, i_rb2 + 1, w2, stack0, i_if);
    lemma_preprocess_stable(resolved2, i_rb2 + 1, w2, stack0, i_else);
    assert(resolved2[i_if] == resolved1[i_if]);
    assert(resolved1[i_if] == (TokenV { target: Some(w1 as u64), ..toks[i_if] }));
    assert(resolved2[i_else] == (TokenV { target: Some(w2 as u64), ..toks[i_else] }));
}

/// Backpatch correctness for `if { A } else { B }` over a whole stream:
/// when the prefix before the `if` is plain tokens, the `if` jump target is
/// the start of the else construct and the `else` jump target is the byte
/// offset immediately after `B`'s closing brace.
pub proof fn lemma_backpatch_if_else(toks: Seq<TokenV>, i_if: int, i_rb1: int, i_rb2: int)
    requires
        0 <= i_if,
        i_if + 2 <= i_rb1,
        i_rb1 + 3 <= i_rb2,
        i_rb2 < toks.len(),
        toks[i_if].typ3 == TokenTypeV::Instruction(OpCode::If),
        toks[i_if + 1].typ3 is LBrace,
        toks[i_rb1].typ3 is RBrace,
        toks[i_rb1 + 1].typ3 == TokenTypeV::Instruction(OpCode::Else),
        toks[i_rb1 + 2].typ3 is LBrace,
        toks[i_rb2].typ3 is RBrace,
        forall|k: int| 0 <= k < i_if ==> simple_token(#[trigger] toks[k]),
        forall|k: int| i_if + 2 <= k < i_rb1 ==> simple_token(#[trigger] toks[k]),
        forall|k: int| i_rb1 + 3 <= k < i_rb2 ==> simple_token(#[trigger] toks[k]),
    ensures
        preprocess_from(toks, 0, 0, Seq::empty()) matches Ok(r) ==> ({
            &&& r[i_if] == (TokenV {
                target: Some(if_target_with_else(toks, i_if, i_rb1) as u64),
                ..toks[i_if]
            })
            &&& r[i_rb1 + 1] == (TokenV {
                target: Some(else_target(toks, i_if, i_rb1, i_rb2) as u64),
                ..toks[i_rb1 + 1]
            })
        }),
{
    let st0: Seq<int> = Seq::empty();
    lemma_simple_run(toks, 0, i_if, 0, st0);
    lemma_backpatch_if_else_at(toks, i_if, i_rb1, i_rb2, widths(toks, 0, i_if), st0);
}

/// Emission never writes more than nine bytes per token.
proof fn lemma_emit_len_bound(toks: Seq<TokenV>, count: int, bytes: Seq<u8>, consts: Seq<ValueV>)
    requires
        0 <= count <= toks.len(),
    ensures
        emit_from(toks, count, bytes, consts).0.len() <= bytes.len() + 9 * (toks.len() - count),
    decreases toks.len() - count,
{
    vstd::bytes::lemma_auto_spec_u64_to_from_le_bytes();
    if count < toks.len() {
        assert(token_emit_bytes(toks[count], consts.len()).len() <= 9);
        lemma_emit_len_bound(
            toks,
            count + 1,
            bytes + token_emit_bytes(toks[count], consts.len()),
            consts + token_emit_consts(toks[count]),
        );
    }
}

/// When every string literal in the remaining tokens and in the pool so far
/// is short enough, every string in the emitted pool fits the format's
/// length field.
proof fn lemma_emit_pool_fit(
    toks: Seq<TokenV>,
    count: int,
    bytes: Seq<u8>,
    consts: Seq<ValueV>,
    bound: nat,
)
    requires
        0 <= count <= toks.len(),
        4 * bound <= u64::MAX,
        forall|k: int|
            count <= k < toks.len() ==> (#[trigger] toks[k].typ3 matches TokenTypeV::Value(v)
                ==> (v matches ValueV::Str(st) ==> st.len() <= bound)),
        crate::bytecode::pool_lengths_fit(consts),
    ensures
        crate::bytecode::pool_lengths_fit(emit_from(toks, count, bytes, consts).1),
    decreases toks.len() - count,
{
    if count < toks.len() {
        let added = token_emit_consts(toks[count]);
        let consts2 = consts + added;
        assert(crate::bytecode::pool_lengths_fit(consts2)) by {
            assert(forall|i: int|
                0 <= i < consts.len() ==> #[trigger] consts2[i] == consts[i]);
            match toks[count].typ3 {
                TokenTypeV::Value(v) => {
                    assert(consts2[consts.len() as int] == v);
                    match v {
                        ValueV::Str(st) => {
                            crate::bytecode::lemma_encode_utf8_len(st);
                        },
                        _ => {},
                    }
                },
                _ => {},
            }
        }
        lemma_emit_pool_fit(
            toks,
            count + 1,
            bytes + token_emit_bytes(toks[count], consts.len()),
            consts2,
            bound,
        );
    }
}

/// Decoding a written container that came out of compilation reproduces the
/// compiled instruction stream and constant pool exactly: for any program
/// that compiles, nothing is lost between emission and loading.
pub proof fn lemma_compile_round_trip(path: Seq<char>, source: Seq<char>)
    requires
        (source.len() + 2) * 9 <= u64::MAX,
        compile_spec(path, source) is Ok,
    ensures
        ({
            let bc = compile_spec(path, source)->Ok_0;
            crate::bytecode::parse_container(crate::bytecode::container_bytes(bc))
                == Ok::<ByteCodeV, ErrorV>(bc)
        }),
{
    let toks = scan_spec(path, source, 0, 1, 0);
    lemma_scan_spec_shape(path, source, 0, 1, 0);
    let resolved = preprocess_from(toks, 0, 0, Seq::empty())->Ok_0;
    lemma_preprocess_shape(toks, 0, 0, Seq::empty());
    let bc = compile_spec(path, source)->Ok_0;
    assert(bc.bytes == emit_from(resolved, 0, Seq::empty(), Seq::empty()).0);
    assert(bc.constants == emit_from(resolved, 0, Seq::empty(), Seq::empty()).1);
    assert(resolved[resolved.len() - 1].typ3 is Eof);
    lemma_emit_has_halt(resolved, 0, Seq::empty(), Seq::empty());
    lemma_emit_len_bound(resolved, 0, Seq::empty(), Seq::empty());
    assert(bc.bytes.len() <= 9 * resolved.len());
    assert(resolved.len() == toks.len());
    assert(bc.bytes.len() - 1 <= u64::MAX);
    assert(forall|k: int|
        0 <= k < resolved.len() ==> (#[trigger] resolved[k].typ3 matches TokenTypeV::Value(v)
            ==> (v matches ValueV::Str(st) ==> st.len() <= source.len())));
    lemma_emit_pool_fit(resolved, 0, Seq::empty(), Seq::empty(), source.len());
    crate::bytecode::lemma_container_round_trip(bc);
}

} // verus!

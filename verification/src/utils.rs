//! Small path and keyword helpers around the core: the keyword table the
//! lexer recognizes, and the file-name and extension conveniences the
//! command-line drivers use.

use vstd::prelude::*;
use vstd::string::{StrSliceExecFns, StringExecFns};

use crate::opcode::OpCode;

verus! {

/// The index just past the last separator in `s`, or zero if none occurs.
pub open spec fn after_last_sep(s: Seq<char>) -> int
    decreases s.len(),
{
    if s.len() == 0 {
        0
    } else if s.last() == '/' {
        s.len() as int
    } else {
        after_last_sep(s.drop_last())
    }
}

/// The index just past the last dot in `s`, or zero if none occurs.
pub open spec fn after_last_dot(s: Seq<char>) -> int
    decreases s.len(),
{
    if s.len() == 0 {
        0
    } else if s.last() == '.' {
        s.len() as int
    } else {
        after_last_dot(s.drop_last())
    }
}

/// The file-name part of a path: everything after the last `/` separator.
pub open spec fn filename_spec(s: Seq<char>) -> Seq<char> {
    s.subrange(after_last_sep(s), s.len() as int)
}

/// The extension of a path: everything after the last `.` of its file-name
/// part, empty when the file name has no dot.
pub open spec fn extension_spec(s: Seq<char>) -> Seq<char> {
    let name = filename_spec(s);
    if after_last_dot(name) == 0 {
        Seq::empty()
    } else {
        name.subrange(after_last_dot(name), name.len() as int)
    }
}

/// The fixed keyword table: each alphabetic keyword and the instruction it
/// scans to.
pub fn get_instruction_set() -> (r: Vec<(String, OpCode)>)
    ensures
        r@.len() == 5,
        r@[0].0@ == "dup"@ && r@[0].1 == OpCode::Dup,
        r@[1].0@ == "if"@ && r@[1].1 == OpCode::If,
        r@[2].0@ == "else"@ && r@[2].1 == OpCode::Else,
        r@[3].0@ == "while"@ && r@[3].1 == OpCode::While,
        r@[4].0@ == "do"@ && r@[4].1 == OpCode::Do,
{
    let mut r: Vec<(String, OpCode)> = Vec::new();
    r.push((String::from_str("dup"), OpCode::Dup));
    r.push((String::from_str("if"), OpCode::If));
    r.push((String::from_str("else"), OpCode::Else));
    r.push((String::from_str("while"), OpCode::While));
    r.push((String::from_str("do"), OpCode::Do));
    r
}

/// Finds the index just past the last occurrence of `sep` in `s`.
fn scan_after_last(s: &str, sep: char) -> (r: usize)
    ensures
        sep == '/' ==> r == after_last_sep(s@),
        sep == '.' ==> r == after_last_dot(s@),
        r <= s@.len(),
{
    let n = s.unicode_len();
    let mut i: usize = n;
    proof {
        assert(s@.subrange(0, n as int) =~= s@);
    }
    while i > 0
        invariant
            i <= n,
            n == s@.len(),
            forall|k: int| i <= k < n ==> s@[k] != sep,
            sep == '/' ==> after_last_sep(s@) == after_last_sep(s@.subrange(0, i as int)),
            sep == '.' ==> after_last_dot(s@) == after_last_dot(s@.subrange(0, i as int)),
        decreases i,
    {
        let c = s.get_char(i - 1);
        proof {
            assert(s@.subrange(0, i as int).last() == s@[i - 1]);
            assert(s@.subrange(0, i as int).drop_last() =~= s@.subrange(0, i as int - 1));
        }
        if c == sep {
            return i;
        }
        i = i - 1;
    }
    proof {
        assert(s@.subrange(0, 0) =~= Seq::<char>::empty());
    }
    0
}

/// The file-name part of a path: everything after the last `/` separator.
pub fn filename_from_path(path: &str) -> (r: String)
    ensures
        r@ == filename_spec(path@),
{
    let n = path.unicode_len();
    let from = scan_after_last(path, '/');
    let part = path.substring_char(from, n);
    String::from_str(part)
}

/// The extension of a path: everything after the last `.` of its file-name
/// part, empty when the file name has no dot.
pub fn extension_from_path(path: &str) -> (r: String)
    ensures
        r@ == extension_spec(path@),
{
    let name = filename_from_path(path);
    let m = name.as_str().unicode_len();
    let from = scan_after_last(name.as_str(), '.');
    if from == 0 {
        return String::new();
    }
    let part = name.as_str().substring_char(from, m);
    String::from_str(part)
}

} // verus!

//! The runtime value model: a tagged union of the literal types, with the
//! arithmetic, comparison, and display semantics the virtual machine uses.

use vstd::prelude::*;
use vstd::string::{StrSliceExecFns, StringExecFns};

use crate::error::Error;
use crate::text::{dec_int, dec_nat, push_dec_i64, push_dec_u64};

verus! {

/// A runtime literal. Each variant has a stable one-byte type tag used in
/// the binary constant pool: `Int32 = 0`, `UInt32 = 1`, `String = 2`.
#[derive(Debug, PartialEq, Eq)]
pub enum Value {
    Int32(i32),
    UInt32(u32),
    String(String),
}

/// The mathematical model of a [`Value`].
#[verifier::ext_equal]
pub enum ValueV {
    Int32(i32),
    UInt32(u32),
    Str(Seq<char>),
}

impl View for Value {
    type V = ValueV;

    open spec fn view(&self) -> ValueV {
        match self {
            Value::Int32(x) => ValueV::Int32(*x),
            Value::UInt32(x) => ValueV::UInt32(*x),
            Value::String(s) => ValueV::Str(s@),
        }
    }
}

impl Clone for Value {
    /// An equal value: the same variant with the same payload.
    fn clone(&self) -> (r: Value)
        ensures
            r@ == self@,
    {
        match self {
            Value::Int32(x) => Value::Int32(*x),
            Value::UInt32(x) => Value::UInt32(*x),
            Value::String(s) => Value::String(s.clone()),
        }
    }
}

/// The stable one-byte type tag of a value.
pub open spec fn tag_of(v: ValueV) -> u8 {
    match v {
        ValueV::Int32(..) => 0,
        ValueV::UInt32(..) => 1,
        ValueV::Str(..) => 2,
    }
}

/// How a value prints: integers in decimal, strings as their raw text.
pub open spec fn value_text(v: ValueV) -> Seq<char> {
    match v {
        ValueV::Int32(x) => dec_int(x as int),
        ValueV::UInt32(x) => dec_nat(x as nat),
        ValueV::Str(s) => s,
    }
}

/// A condition value is truthy when it is a nonzero integer; a string is not
/// a condition at all and faults.
pub open spec fn truthy(v: ValueV) -> bool
    recommends
        !(v is Str),
{
    match v {
        ValueV::Int32(x) => x != 0,
        ValueV::UInt32(x) => x != 0,
        ValueV::Str(..) => false,
    }
}

pub open spec fn msg_operand_types() -> Seq<char> {
    "unsupported operand types"@
}

pub open spec fn msg_division_by_zero() -> Seq<char> {
    "division by zero"@
}

pub open spec fn msg_arithmetic_overflow() -> Seq<char> {
    "arithmetic overflow"@
}

/// Addition: same-tag integers add with wraparound; a string concatenates
/// with a string or with either integer's decimal rendering; every other
/// pairing is a fault.
pub open spec fn add_spec(a: ValueV, b: ValueV) -> Result<ValueV, Seq<char>> {
    match (a, b) {
        (ValueV::Int32(x), ValueV::Int32(y)) => Ok(
            ValueV::Int32(vstd::wrapping::i32_specs::wrapping_add(x, y)),
        ),
        (ValueV::UInt32(x), ValueV::UInt32(y)) => Ok(
            ValueV::UInt32(vstd::wrapping::u32_specs::wrapping_add(x, y)),
        ),
        (ValueV::Str(s), ValueV::Int32(y)) => Ok(ValueV::Str(s + dec_int(y as int))),
        (ValueV::Str(s), ValueV::UInt32(y)) => Ok(ValueV::Str(s + dec_nat(y as nat))),
        (ValueV::Str(s), ValueV::Str(t)) => Ok(ValueV::Str(s + t)),
        _ => Err(msg_operand_types()),
    }
}

/// Subtraction: same-tag integers subtract with wraparound; anything else is
/// a fault.
pub open spec fn sub_spec(a: ValueV, b: ValueV) -> Result<ValueV, Seq<char>> {
    match (a, b) {
        (ValueV::Int32(x), ValueV::Int32(y)) => Ok(
            ValueV::Int32(vstd::wrapping::i32_specs::wrapping_sub(x, y)),
        ),
        (ValueV::UInt32(x), ValueV::UInt32(y)) => Ok(
            ValueV::UInt32(vstd::wrapping::u32_specs::wrapping_sub(x, y)),
        ),
        _ => Err(msg_operand_types()),
    }
}

/// Multiplication: same-tag integers multiply with wraparound; anything else
/// is a fault.
pub open spec fn mul_spec(a: ValueV, b: ValueV) -> Result<ValueV, Seq<char>> {
    match (a, b) {
        (ValueV::Int32(x), ValueV::Int32(y)) => Ok(
            ValueV::Int32(vstd::wrapping::i32_specs::wrapping_mul(x, y)),
        ),
        (ValueV::UInt32(x), ValueV::UInt32(y)) => Ok(
            ValueV::UInt32(vstd::wrapping::u32_specs::wrapping_mul(x, y)),
        ),
        _ => Err(msg_operand_types()),
    }
}

/// Signed division truncates toward zero.
pub open spec fn i32_div_trunc(x: i32, y: i32) -> int
    recommends
        y != 0,
{
    let xi = x as int;
    let d = y as int;
    if xi == 0 {
        0
    } else if xi > 0 && d > 0 {
        xi / d
    } else if xi < 0 && d < 0 {
        ((xi * -1) / (d * -1))
    } else if xi < 0 {
        ((xi * -1) / d) * -1
    } else {
        (xi / (d * -1)) * -1
    }
}

/// Division: same-tag integers divide; dividing by zero faults, as does the
/// one signed quotient that overflows; anything else is a fault.
pub open spec fn div_spec(a: ValueV, b: ValueV) -> Result<ValueV, Seq<char>> {
    match (a, b) {
        (ValueV::Int32(x), ValueV::Int32(y)) => {
            if y == 0 {
                Err(msg_division_by_zero())
            } else if i32_div_trunc(x, y) > i32::MAX {
                Err(msg_arithmetic_overflow())
            } else {
                Ok(ValueV::Int32(i32_div_trunc(x, y) as i32))
            }
        },
        (ValueV::UInt32(x), ValueV::UInt32(y)) => {
            if y == 0 {
                Err(msg_division_by_zero())
            } else {
                Ok(ValueV::UInt32((x as nat / y as nat) as u32))
            }
        },
        _ => Err(msg_operand_types()),
    }
}

/// Structural equality of values: equal tags and equal payloads.
pub open spec fn value_eq_spec(a: ValueV, b: ValueV) -> bool {
    match (a, b) {
        (ValueV::Int32(x), ValueV::Int32(y)) => x == y,
        (ValueV::UInt32(x), ValueV::UInt32(y)) => x == y,
        (ValueV::Str(s), ValueV::Str(t)) => s == t,
        _ => false,
    }
}

/// Lexicographic order on character sequences, by Unicode scalar value.
pub open spec fn seq_char_lt(a: Seq<char>, b: Seq<char>) -> bool
    decreases a.len(),
{
    if b.len() == 0 {
        false
    } else if a.len() == 0 {
        true
    } else if a[0] != b[0] {
        (a[0] as u32) < (b[0] as u32)
    } else {
        seq_char_lt(a.drop_first(), b.drop_first())
    }
}

/// Strict order on values: first by type tag, then within a tag by the
/// numeric order, or lexicographically for strings.
pub open spec fn value_lt_spec(a: ValueV, b: ValueV) -> bool {
    if tag_of(a) != tag_of(b) {
        tag_of(a) < tag_of(b)
    } else {
        match (a, b) {
            (ValueV::Int32(x), ValueV::Int32(y)) => x < y,
            (ValueV::UInt32(x), ValueV::UInt32(y)) => x < y,
            (ValueV::Str(s), ValueV::Str(t)) => seq_char_lt(s, t),
            _ => false,
        }
    }
}

impl Value {
    /// The stable one-byte type tag of this value.
    pub fn constant_type(&self) -> (t: u8)
        ensures
            t == tag_of(self@),
    {
        match self {
            Value::Int32(..) => 0,
            Value::UInt32(..) => 1,
            Value::String(..) => 2,
        }
    }

    /// The `Int32` payload, or zero for any other variant.
    pub fn as_i32(&self) -> (r: i32)
        ensures
            self@ matches ValueV::Int32(x) ==> r == x,
            !(self@ is Int32) ==> r == 0,
    {
        if let Value::Int32(x) = self {
            *x
        } else {
            0
        }
    }

    /// The `UInt32` payload, or zero for any other variant.
    pub fn as_u32(&self) -> (r: u32)
        ensures
            self@ matches ValueV::UInt32(x) ==> r == x,
            !(self@ is UInt32) ==> r == 0,
    {
        if let Value::UInt32(x) = self {
            *x
        } else {
            0
        }
    }

    /// The `String` payload, or the empty string for any other variant.
    pub fn as_string(&self) -> (r: String)
        ensures
            self@ matches ValueV::Str(s) ==> r@ == s,
            !(self@ is Str) ==> r@ == Seq::<char>::empty(),
    {
        if let Value::String(s) = self {
            s.clone()
        } else {
            String::new()
        }
    }

    /// An integer read from either integer variant, reinterpreting an
    /// unsigned payload's bits as signed; strings have no integer reading.
    pub fn as_i32_implicit(&self) -> (r: i32)
        requires
            !(self@ is Str),
        ensures
            self@ matches ValueV::Int32(x) ==> r == x,
            self@ matches ValueV::UInt32(x) ==> r == x as i32,
    {
        match self {
            Value::Int32(x) => *x,
            Value::UInt32(x) => #[verifier::truncate] (*x as i32),
            Value::String(..) => 0,
        }
    }

    /// How this value prints: integers in decimal, strings as raw text.
    pub fn text(&self) -> (r: String)
        ensures
            r@ == value_text(self@),
    {
        match self {
            Value::Int32(x) => {
                let mut s = String::new();
                push_dec_i64(&mut s, *x as i64);
                proof {
                    assert(s@ =~= value_text(self@));
                }
                s
            },
            Value::UInt32(x) => {
                let mut s = String::new();
                push_dec_u64(&mut s, *x as u64);
                proof {
                    assert(s@ =~= value_text(self@));
                }
                s
            },
            Value::String(s) => s.clone(),
        }
    }

    /// Whether this value, used as a condition, is truthy (nonzero).
    pub fn is_truthy(&self) -> (r: bool)
        requires
            !(self@ is Str),
        ensures
            r == truthy(self@),
    {
        match self {
            Value::Int32(x) => *x != 0,
            Value::UInt32(x) => *x != 0,
            Value::String(..) => false,
        }
    }
}

/// Adds two values, or reports the fault the operation raises.
pub fn value_add(a: &Value, b: &Value) -> (r: Result<Value, Error>)
    ensures
        match add_spec(a@, b@) {
            Ok(v) => r matches Ok(rv) && rv@ == v,
            Err(m) => r matches Err(e) && e@ == crate::error::ErrorV::RuntimeError(m),
        },
{
    match (a, b) {
        (Value::Int32(x), Value::Int32(y)) => Ok(Value::Int32(x.wrapping_add(*y))),
        (Value::UInt32(x), Value::UInt32(y)) => Ok(Value::UInt32(x.wrapping_add(*y))),
        (Value::String(s), Value::Int32(y)) => {
            let mut t = s.clone();
            push_dec_i64(&mut t, *y as i64);
            Ok(Value::String(t))
        },
        (Value::String(s), Value::UInt32(y)) => {
            let mut t = s.clone();
            push_dec_u64(&mut t, *y as u64);
            Ok(Value::String(t))
        },
        (Value::String(s), Value::String(u)) => {
            let mut t = s.clone();
            t.append(u.as_str());
            Ok(Value::String(t))
        },
        _ => Err(Error::RuntimeError(String::from_str("unsupported operand types"))),
    }
}

/// Subtracts `b` from `a`, or reports the fault the operation raises.
pub fn value_sub(a: &Value, b: &Value) -> (r: Result<Value, Error>)
    ensures
        match sub_spec(a@, b@) {
            Ok(v) => r matches Ok(rv) && rv@ == v,
            Err(m) => r matches Err(e) && e@ == crate::error::ErrorV::RuntimeError(m),
        },
{
    match (a, b) {
        (Value::Int32(x), Value::Int32(y)) => Ok(Value::Int32(x.wrapping_sub(*y))),
        (Value::UInt32(x), Value::UInt32(y)) => Ok(Value::UInt32(x.wrapping_sub(*y))),
        _ => Err(Error::RuntimeError(String::from_str("unsupported operand types"))),
    }
}

/// Multiplies two values, or reports the fault the operation raises.
pub fn value_mul(a: &Value, b: &Value) -> (r: Result<Value, Error>)
    ensures
        match mul_spec(a@, b@) {
            Ok(v) => r matches Ok(rv) && rv@ == v,
            Err(m) => r matches Err(e) && e@ == crate::error::ErrorV::RuntimeError(m),
        },
{
    match (a, b) {
        (Value::Int32(x), Value::Int32(y)) => Ok(Value::Int32(x.wrapping_mul(*y))),
        (Value::UInt32(x), Value::UInt32(y)) => Ok(Value::UInt32(x.wrapping_mul(*y))),
        _ => Err(Error::RuntimeError(String::from_str("unsupported operand types"))),
    }
}

/// Divides `a` by `b`, or reports the fault the operation raises: division
/// by zero and the one overflowing signed quotient are faults, never a
/// silent result.
pub fn value_div(a: &Value, b: &Value) -> (r: Result<Value, Error>)
    ensures
        match div_spec(a@, b@) {
            Ok(v) => r matches Ok(rv) && rv@ == v,
            Err(m) => r matches Err(e) && e@ == crate::error::ErrorV::RuntimeError(m),
        },
{
    match (a, b) {
        (Value::Int32(x), Value::Int32(y)) => {
            if *y == 0 {
                Err(Error::RuntimeError(String::from_str("division by zero")))
            } else {
                match x.checked_div(*y) {
                    Some(q) => Ok(Value::Int32(q)),
                    None => Err(Error::RuntimeError(String::from_str("arithmetic overflow"))),
                }
            }
        },
        (Value::UInt32(x), Value::UInt32(y)) => {
            if *y == 0 {
                Err(Error::RuntimeError(String::from_str("division by zero")))
            } else {
                Ok(Value::UInt32(*x / *y))
            }
        },
        _ => Err(Error::RuntimeError(String::from_str("unsupported operand types"))),
    }
}

/// Decides structural equality of two values.
pub fn value_eq(a: &Value, b: &Value) -> (r: bool)
    ensures
        r == value_eq_spec(a@, b@),
{
    match (a, b) {
        (Value::Int32(x), Value::Int32(y)) => *x == *y,
        (Value::UInt32(x), Value::UInt32(y)) => *x == *y,
        (Value::String(s), Value::String(t)) => s.eq(t),
        _ => false,
    }
}

/// An equal prefix does not influence the lexicographic comparison of what
/// follows it.
proof fn lemma_seq_char_lt_skip(a: Seq<char>, b: Seq<char>, i: int)
    requires
        0 <= i <= a.len(),
        i <= b.len(),
        forall|j: int| 0 <= j < i ==> a[j] == b[j],
    ensures
        seq_char_lt(a, b) == seq_char_lt(a.skip(i), b.skip(i)),
    decreases i,
{
    if i == 0 {
        assert(a.skip(0) =~= a);
        assert(b.skip(0) =~= b);
    } else {
        assert(a.len() > 0 && b.len() > 0);
        assert(a[0] == b[0]);
        assert(a.drop_first() =~= a.skip(1));
        assert(b.drop_first() =~= b.skip(1));
        lemma_seq_char_lt_skip(a.skip(1), b.skip(1), i - 1);
        assert(a.skip(1).skip(i - 1) =~= a.skip(i));
        assert(b.skip(1).skip(i - 1) =~= b.skip(i));
    }
}

/// Decides lexicographic order of two strings.
fn str_lt(a: &String, b: &String) -> (r: bool)
    ensures
        r == seq_char_lt(a@, b@),
{
    let alen = a.as_str().unicode_len();
    let blen = b.as_str().unicode_len();
    let n = if alen < blen {
        alen
    } else {
        blen
    };
    let mut i: usize = 0;
    while i < n
        invariant
            0 <= i <= n,
            n == (if a@.len() < b@.len() {
                a@.len()
            } else {
                b@.len()
            }),
            alen == a@.len(),
            blen == b@.len(),
            forall|j: int| 0 <= j < i ==> a@[j] == b@[j],
        decreases n - i,
    {
        let ca = a.as_str().get_char(i);
        let cb = b.as_str().get_char(i);
        if ca as u32 != cb as u32 {
            proof {
                lemma_seq_char_lt_skip(a@, b@, i as int);
                assert(a@.skip(i as int)[0] == a@[i as int]);
                assert(b@.skip(i as int)[0] == b@[i as int]);
            }
            return (ca as u32) < (cb as u32);
        }
        proof {
            assert(a@[i as int] == b@[i as int]) by {
                vstd::utf8::char_u32_cast(a@[i as int], ca as u32);
                vstd::utf8::char_u32_cast(b@[i as int], cb as u32);
            }
        }
        i = i + 1;
    }
    proof {
        lemma_seq_char_lt_skip(a@, b@, n as int);
        if a@.len() < b@.len() {
            assert(a@.skip(n as int).len() == 0);
            assert(b@.skip(n as int).len() > 0);
        } else {
            assert(b@.skip(n as int).len() == 0);
        }
    }
    alen < blen
}

/// Decides the strict value order: tag first, then payload.
pub fn value_lt(a: &Value, b: &Value) -> (r: bool)
    ensures
        r == value_lt_spec(a@, b@),
{
    let ta = a.constant_type();
    let tb = b.constant_type();
    if ta != tb {
        ta < tb
    } else {
        match (a, b) {
            (Value::Int32(x), Value::Int32(y)) => *x < *y,
            (Value::UInt32(x), Value::UInt32(y)) => *x < *y,
            (Value::String(s), Value::String(t)) => str_lt(s, t),
            _ => false,
        }
    }
}

} // verus!

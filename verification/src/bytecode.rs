//! The bytecode container: an instruction byte stream plus a constant pool,
//! and the fixed binary framing that carries both in a file. Decoding the
//! framing is proved to be the exact inverse of encoding it.

use vstd::bytes::{
    spec_u32_from_le_bytes, spec_u32_to_le_bytes, spec_u64_from_le_bytes, spec_u64_to_le_bytes,
};
use vstd::prelude::*;
use vstd::utf8::{decode_utf8, encode_utf8, valid_utf8};

use crate::error::ErrorV;
use crate::value::{Value, ValueV};

verus! {

/// An instruction stream and the constant pool its `Push` instructions index
/// into. The stream holds no framing: the eight-byte halt-index header is
/// added when a container is written and stripped when one is read.
#[derive(Debug, Clone)]
pub struct ByteCode {
    pub bytes: Vec<u8>,
    pub constants: Vec<Value>,
}

/// The mathematical model of a [`ByteCode`].
#[verifier::ext_equal]
pub struct ByteCodeV {
    pub bytes: Seq<u8>,
    pub constants: Seq<ValueV>,
}

impl View for ByteCode {
    type V = ByteCodeV;

    open spec fn view(&self) -> ByteCodeV {
        ByteCodeV {
            bytes: self.bytes@,
            constants: Seq::new(self.constants@.len(), |i: int| self.constants@[i]@),
        }
    }
}

impl ByteCode {
    /// An empty stream with an empty pool.
    pub fn new() -> (r: ByteCode)
        ensures
            r@.bytes == Seq::<u8>::empty(),
            r@.constants == Seq::<ValueV>::empty(),
    {
        let r = ByteCode { bytes: Vec::new(), constants: Vec::new() };
        proof {
            assert(r@.constants =~= Seq::<ValueV>::empty());
        }
        r
    }
}

/// The serialized form of one constant-pool entry: a one-byte type tag, then
/// four little-endian bytes for an integer, or an eight-byte length followed
/// by that many UTF-8 bytes for a string.
pub open spec fn const_entry_bytes(v: ValueV) -> Seq<u8> {
    match v {
        ValueV::Int32(x) => seq![0u8] + spec_u32_to_le_bytes(x as u32),
        ValueV::UInt32(x) => seq![1u8] + spec_u32_to_le_bytes(x),
        ValueV::Str(s) => seq![2u8] + spec_u64_to_le_bytes(encode_utf8(s).len() as u64)
            + encode_utf8(s),
    }
}

/// The serialized constant pool: each entry in order.
pub open spec fn constants_bytes(cs: Seq<ValueV>) -> Seq<u8>
    decreases cs.len(),
{
    if cs.len() == 0 {
        Seq::empty()
    } else {
        const_entry_bytes(cs[0]) + constants_bytes(cs.drop_first())
    }
}

/// Parses a serialized constant pool. A truncated entry or an unknown tag is
/// a corrupted binary; string bytes that are not valid UTF-8 are an invalid
/// string encoding.
pub open spec fn parse_constants(bs: Seq<u8>) -> Result<Seq<ValueV>, ErrorV>
    decreases bs.len(),
{
    if bs.len() == 0 {
        Ok(Seq::empty())
    } else if bs[0] == 0 {
        if bs.len() < 5 {
            Err(ErrorV::CorruptedBinary)
        } else {
            let x = spec_u32_from_le_bytes(bs.subrange(1, 5)) as i32;
            match parse_constants(bs.skip(5)) {
                Ok(rest) => Ok(seq![ValueV::Int32(x)] + rest),
                Err(e) => Err(e),
            }
        }
    } else if bs[0] == 1 {
        if bs.len() < 5 {
            Err(ErrorV::CorruptedBinary)
        } else {
            let x = spec_u32_from_le_bytes(bs.subrange(1, 5));
            match parse_constants(bs.skip(5)) {
                Ok(rest) => Ok(seq![ValueV::UInt32(x)] + rest),
                Err(e) => Err(e),
            }
        }
    } else if bs[0] == 2 {
        if bs.len() < 9 {
            Err(ErrorV::CorruptedBinary)
        } else {
            let n = spec_u64_from_le_bytes(bs.subrange(1, 9)) as int;
            if bs.len() < 9 + n {
                Err(ErrorV::CorruptedBinary)
            } else {
                let sb = bs.subrange(9, 9 + n);
                if valid_utf8(sb) {
                    match parse_constants(bs.skip(9 + n)) {
                        Ok(rest) => Ok(seq![ValueV::Str(decode_utf8(sb))] + rest),
                        Err(e) => Err(e),
                    }
                } else {
                    Err(ErrorV::InvalidUTF8String)
                }
            }
        }
    } else {
        Err(ErrorV::CorruptedBinary)
    }
}

/// The constants decoded before the first malformed pool entry: the prefix
/// a failing load has already installed by the time it reports its fault.
pub open spec fn parsed_prefix(bs: Seq<u8>) -> Seq<ValueV>
    decreases bs.len(),
{
    if bs.len() == 0 {
        Seq::empty()
    } else if bs[0] == 0 && bs.len() >= 5 {
        seq![ValueV::Int32(spec_u32_from_le_bytes(bs.subrange(1, 5)) as i32)] + parsed_prefix(
            bs.skip(5),
        )
    } else if bs[0] == 1 && bs.len() >= 5 {
        seq![ValueV::UInt32(spec_u32_from_le_bytes(bs.subrange(1, 5)))] + parsed_prefix(bs.skip(5))
    } else if bs[0] == 2 && bs.len() >= 9 && 9 + spec_u64_from_le_bytes(bs.subrange(1, 9)) as int
        <= bs.len() && valid_utf8(
        bs.subrange(9, 9 + spec_u64_from_le_bytes(bs.subrange(1, 9)) as int),
    ) {
        seq![
            ValueV::Str(
                decode_utf8(bs.subrange(9, 9 + spec_u64_from_le_bytes(bs.subrange(1, 9)) as int)),
            ),
        ] + parsed_prefix(bs.skip(9 + spec_u64_from_le_bytes(bs.subrange(1, 9)) as int))
    } else {
        Seq::empty()
    }
}

/// The full binary container: an eight-byte header holding the byte offset
/// of the final `Halt` instruction, the instruction bytes, then the
/// serialized constant pool.
pub open spec fn container_bytes(bc: ByteCodeV) -> Seq<u8>
    recommends
        bc.bytes.len() >= 1,
{
    spec_u64_to_le_bytes((bc.bytes.len() - 1) as u64) + bc.bytes + constants_bytes(bc.constants)
}

/// Parses a binary container. An empty or truncated file, or a halt index
/// inconsistent with the stream length, is a corrupted binary.
pub open spec fn parse_container(data: Seq<u8>) -> Result<ByteCodeV, ErrorV> {
    if data.len() < 8 {
        Err(ErrorV::CorruptedBinary)
    } else {
        let halt = spec_u64_from_le_bytes(data.subrange(0, 8)) as int;
        if 8 + halt + 1 > data.len() {
            Err(ErrorV::CorruptedBinary)
        } else {
            match parse_constants(data.skip(8 + halt + 1)) {
                Ok(cs) => Ok(ByteCodeV { bytes: data.subrange(8, 8 + halt + 1), constants: cs }),
                Err(e) => Err(e),
            }
        }
    }
}

/// Whether every string in the pool fits the length field of the format.
pub open spec fn pool_lengths_fit(cs: Seq<ValueV>) -> bool {
    forall|i: int|
        0 <= i < cs.len() ==> (#[trigger] cs[i] matches ValueV::Str(s) ==> encode_utf8(s).len()
            <= u64::MAX)
}

proof fn lemma_u32_i32_round_trip(x: i32)
    by (bit_vector)
    ensures
        ((x as u32) as i32) == x,
{
}

/// Parsing a serialized constant pool yields exactly the pool that was
/// serialized.
pub proof fn lemma_constants_round_trip(cs: Seq<ValueV>)
    requires
        pool_lengths_fit(cs),
    ensures
        parse_constants(constants_bytes(cs)) == Ok::<Seq<ValueV>, ErrorV>(cs),
    decreases cs.len(),
{
    vstd::bytes::lemma_auto_spec_u32_to_from_le_bytes();
    vstd::bytes::lemma_auto_spec_u64_to_from_le_bytes();
    if cs.len() == 0 {
        assert(parse_constants(constants_bytes(cs)) == Ok::<Seq<ValueV>, ErrorV>(Seq::<ValueV>::empty()));
        assert(cs =~= Seq::<ValueV>::empty());
    } else {
        let entry = const_entry_bytes(cs[0]);
        let rest = constants_bytes(cs.drop_first());
        let bs = constants_bytes(cs);
        assert(bs == entry + rest);
        assert(pool_lengths_fit(cs.drop_first())) by {
            assert(forall|i: int|
                0 <= i < cs.drop_first().len() ==> cs.drop_first()[i] == cs[i + 1]);
        }
        lemma_constants_round_trip(cs.drop_first());
        match cs[0] {
            ValueV::Int32(x) => {
                assert(entry.len() == 5);
                assert(bs[0] == 0);
                assert(bs.subrange(1, 5) =~= spec_u32_to_le_bytes(x as u32));
                assert(spec_u32_from_le_bytes(bs.subrange(1, 5)) == x as u32);
                lemma_u32_i32_round_trip(x);
                assert(bs.skip(5) =~= rest);
                assert(parse_constants(bs) == Ok::<Seq<ValueV>, ErrorV>(seq![cs[0]] + cs.drop_first()));
                assert(seq![cs[0]] + cs.drop_first() =~= cs);
            },
            ValueV::UInt32(x) => {
                assert(entry.len() == 5);
                assert(bs[0] == 1);
                assert(bs.subrange(1, 5) =~= spec_u32_to_le_bytes(x));
                assert(bs.skip(5) =~= rest);
                assert(parse_constants(bs) == Ok::<Seq<ValueV>, ErrorV>(seq![cs[0]] + cs.drop_first()));
                assert(seq![cs[0]] + cs.drop_first() =~= cs);
            },
            ValueV::Str(s) => {
                let eb = encode_utf8(s);
                let n = eb.len() as int;
                assert(eb.len() <= u64::MAX);
                assert(entry.len() == 9 + n);
                assert(bs[0] == 2);
                assert(bs.subrange(1, 9) =~= spec_u64_to_le_bytes(eb.len() as u64));
                assert(spec_u64_from_le_bytes(bs.subrange(1, 9)) == eb.len() as u64);
                assert(bs.subrange(9, 9 + n) =~= eb);
                vstd::utf8::encode_utf8_valid_utf8(s);
                vstd::utf8::encode_utf8_decode_utf8(s);
                assert(bs.skip(9 + n) =~= rest);
                assert(parse_constants(bs) == Ok::<Seq<ValueV>, ErrorV>(seq![cs[0]] + cs.drop_first()));
                assert(seq![cs[0]] + cs.drop_first() =~= cs);
            },
        }
    }
}

/// Decoding a written container reproduces the instruction stream and the
/// constant pool exactly: the framing loses nothing.
pub proof fn lemma_container_round_trip(bc: ByteCodeV)
    requires
        1 <= bc.bytes.len(),
        bc.bytes.len() - 1 <= u64::MAX,
        pool_lengths_fit(bc.constants),
    ensures
        parse_container(container_bytes(bc)) == Ok::<ByteCodeV, ErrorV>(bc),
{
    vstd::bytes::lemma_auto_spec_u64_to_from_le_bytes();
    let data = container_bytes(bc);
    let header = spec_u64_to_le_bytes((bc.bytes.len() - 1) as u64);
    assert(header.len() == 8);
    assert(data.subrange(0, 8) =~= header);
    let halt = spec_u64_from_le_bytes(data.subrange(0, 8)) as int;
    assert(halt == bc.bytes.len() - 1);
    assert(data.len() == 8 + bc.bytes.len() + constants_bytes(bc.constants).len());
    assert(data.subrange(8, 8 + halt + 1) =~= bc.bytes);
    assert(data.skip(8 + halt + 1) =~= constants_bytes(bc.constants));
    lemma_constants_round_trip(bc.constants);
    let parsed = parse_container(data);
    assert(parsed matches Ok(p) && p.bytes == bc.bytes && p.constants == bc.constants);
    assert(parsed == Ok::<ByteCodeV, ErrorV>(bc));
}

/// Reads the eight little-endian bytes at `pos` as a `u64`.
pub fn read_u64_le(bytes: &Vec<u8>, pos: usize) -> (x: u64)
    requires
        pos + 8 <= bytes@.len(),
    ensures
        x == spec_u64_from_le_bytes(bytes@.subrange(pos as int, pos as int + 8)),
{
    let n = bytes.len();
    let mut tmp: Vec<u8> = Vec::new();
    let mut i: usize = 0;
    while i < 8
        invariant
            i <= 8,
            pos + 8 <= n == bytes@.len(),
            tmp@ =~= bytes@.subrange(pos as int, pos as int + i as int),
        decreases 8 - i,
    {
        tmp.push(bytes[pos + i]);
        proof {
            assert(tmp@ =~= bytes@.subrange(pos as int, pos as int + i as int + 1));
        }
        i = i + 1;
    }
    vstd::bytes::u64_from_le_bytes(tmp.as_slice())
}

/// Reads the four little-endian bytes at `pos` as a `u32`.
pub fn read_u32_le(bytes: &Vec<u8>, pos: usize) -> (x: u32)
    requires
        pos + 4 <= bytes@.len(),
    ensures
        x == spec_u32_from_le_bytes(bytes@.subrange(pos as int, pos as int + 4)),
{
    let n = bytes.len();
    let mut tmp: Vec<u8> = Vec::new();
    let mut i: usize = 0;
    while i < 4
        invariant
            i <= 4,
            pos + 4 <= n == bytes@.len(),
            tmp@ =~= bytes@.subrange(pos as int, pos as int + i as int),
        decreases 4 - i,
    {
        tmp.push(bytes[pos + i]);
        proof {
            assert(tmp@ =~= bytes@.subrange(pos as int, pos as int + i as int + 1));
        }
        i = i + 1;
    }
    vstd::bytes::u32_from_le_bytes(tmp.as_slice())
}

/// Appends `x` as eight little-endian bytes.
pub fn push_u64_le(out: &mut Vec<u8>, x: u64)
    ensures
        final(out)@ == old(out)@ + spec_u64_to_le_bytes(x),
{
    let mut b = vstd::bytes::u64_to_le_bytes(x);
    out.append(&mut b);
}

/// Appends `x` as four little-endian bytes.
pub fn push_u32_le(out: &mut Vec<u8>, x: u32)
    ensures
        final(out)@ == old(out)@ + spec_u32_to_le_bytes(x),
{
    let mut b = vstd::bytes::u32_to_le_bytes(x);
    out.append(&mut b);
}

/// A UTF-8 encoding takes at most four bytes per character.
pub proof fn lemma_encode_utf8_len(s: Seq<char>)
    ensures
        encode_utf8(s).len() <= 4 * s.len(),
    decreases s.len(),
{
    if s.len() > 0 {
        assert(vstd::utf8::encode_scalar(s[0] as u32).len() <= 4);
        lemma_encode_utf8_len(s.drop_first());
    }
}

} // verus!

//! Elements of a raster and the bytes that stand for them.
use vstd::prelude::*;
use byteorder::ByteOrder;
use crate::header_defs::{DType, Endian};
use crate::io::CodecError;

verus! {

/// 256 to the power of `w`: the number of values that `w` bytes can hold.
pub open spec fn radix(w: nat) -> nat
    decreases w,
{
    if w == 0 {
        1
    } else {
        256 * radix((w - 1) as nat)
    }
}

/// The number that the bytes spell, the most significant byte first.
pub open spec fn unsigned_be(s: Seq<u8>) -> nat
    decreases s.len(),
{
    if s.len() == 0 {
        0
    } else {
        unsigned_be(s.drop_last()) * 256 + s.last() as nat
    }
}

/// The number that the bytes spell, the least significant byte first.
pub open spec fn unsigned_le(s: Seq<u8>) -> nat
    decreases s.len(),
{
    if s.len() == 0 {
        0
    } else {
        s[0] as nat + 256 * unsigned_le(s.drop_first())
    }
}

/// The `w` bytes that spell `v`, the most significant byte first.
pub open spec fn be_bytes(v: nat, w: nat) -> Seq<u8>
    decreases w,
{
    if w == 0 {
        Seq::empty()
    } else {
        be_bytes(v / 256, (w - 1) as nat).push((v % 256) as u8)
    }
}

/// The `w` bytes that spell `v`, the least significant byte first.
pub open spec fn le_bytes(v: nat, w: nat) -> Seq<u8>
    decreases w,
{
    if w == 0 {
        Seq::empty()
    } else {
        seq![(v % 256) as u8] + le_bytes(v / 256, (w - 1) as nat)
    }
}

/// The signed number that `v` stands for in two's complement of `w` bytes.
pub open spec fn as_signed(v: nat, w: nat) -> int {
    if 2 * v >= radix(w) {
        v - radix(w)
    } else {
        v as int
    }
}

/// The unsigned number that stands for `x` in two's complement of `w` bytes.
pub open spec fn as_unsigned(x: int, w: nat) -> nat {
    if x < 0 {
        (x + radix(w)) as nat
    } else {
        x as nat
    }
}

/// Are the elements of this type signed integers?
pub open spec fn is_signed(d: DType) -> bool {
    d == DType::int8 || d == DType::int16 || d == DType::int32 || d == DType::int64
}

/// Can an element of this type hold `x`? Elements of a floating type
/// stand here as their bit patterns.
pub open spec fn fits(d: DType, x: int) -> bool {
    let w = d.spec_size();
    if is_signed(d) {
        -(radix(w) as int) <= 2 * x < radix(w)
    } else {
        0 <= x < radix(w)
    }
}

/// The number that the bytes spell in the given byte order.
pub open spec fn unsigned_value(endian: Endian, chunk: Seq<u8>) -> nat {
    match endian {
        Endian::Big => unsigned_be(chunk),
        Endian::Little => unsigned_le(chunk),
    }
}

/// The element that the bytes of one element stand for.
pub open spec fn element_value(d: DType, endian: Endian, chunk: Seq<u8>) -> int {
    let u = unsigned_value(endian, chunk);
    if is_signed(d) {
        as_signed(u, chunk.len())
    } else {
        u as int
    }
}

/// The bytes of element `i`, for elements of `w` bytes.
pub open spec fn chunk(bytes: Seq<u8>, w: nat, i: int) -> Seq<u8> {
    bytes.subrange(i * w, (i + 1) * w)
}

/// The elements that the bytes stand for, one after the other.
pub open spec fn elements_of(d: DType, endian: Endian, bytes: Seq<u8>) -> Seq<int> {
    let w = d.spec_size();
    Seq::new(bytes.len() / w, |i: int| element_value(d, endian, chunk(bytes, w, i)))
}

/// The bytes that stand for one element.
pub open spec fn element_bytes(d: DType, endian: Endian, x: int) -> Seq<u8> {
    let w = d.spec_size();
    let u = if is_signed(d) {
        as_unsigned(x, w)
    } else {
        x as nat
    };
    match endian {
        Endian::Big => be_bytes(u, w),
        Endian::Little => le_bytes(u, w),
    }
}

/// The bytes that stand for the elements, one after the other.
pub open spec fn bytes_of(d: DType, endian: Endian, values: Seq<int>) -> Seq<u8>
    decreases values.len(),
{
    if values.len() == 0 {
        Seq::empty()
    } else {
        bytes_of(d, endian, values.drop_last()) + element_bytes(d, endian, values.last())
    }
}

pub proof fn lemma_radix_values()
    ensures
        radix(1) == 0x100,
        radix(2) == 0x1_0000,
        radix(4) == 0x1_0000_0000,
        radix(8) == 0x1_0000_0000_0000_0000,
{
    reveal_with_fuel(radix, 9);
}

/// `w` bytes are written, and they spell the number that was written.
pub proof fn lemma_be_round_trip(v: nat, w: nat)
    requires
        v < radix(w),
    ensures
        be_bytes(v, w).len() == w,
        unsigned_be(be_bytes(v, w)) == v,
    decreases w,
{
    if w > 0 {
        lemma_be_round_trip(v / 256, (w - 1) as nat);
        let b = be_bytes(v, w);
        assert(b.drop_last() =~= be_bytes(v / 256, (w - 1) as nat));
    }
}

/// `w` bytes are written, and they spell the number that was written.
pub proof fn lemma_le_round_trip(v: nat, w: nat)
    requires
        v < radix(w),
    ensures
        le_bytes(v, w).len() == w,
        unsigned_le(le_bytes(v, w)) == v,
    decreases w,
{
    if w > 0 {
        lemma_le_round_trip(v / 256, (w - 1) as nat);
        let b = le_bytes(v, w);
        assert(b.drop_first() =~= le_bytes(v / 256, (w - 1) as nat));
    }
}

/// The bytes of an element stand for that element.
pub proof fn lemma_element_round_trip(d: DType, endian: Endian, x: int)
    requires
        d != DType::Block,
        fits(d, x),
    ensures
        element_bytes(d, endian, x).len() == d.spec_size(),
        element_value(d, endian, element_bytes(d, endian, x)) == x,
{
    let w = d.spec_size();
    let u: nat = if is_signed(d) {
        as_unsigned(x, w)
    } else {
        x as nat
    };
    lemma_be_round_trip(u, w);
    lemma_le_round_trip(u, w);
}

/// Where the bytes of element `i` of `n` lie, for elements of `w` bytes.
pub proof fn lemma_chunk_bounds(i: int, n: int, w: int)
    by (nonlinear_arith)
    requires
        0 <= i < n,
        w > 0,
    ensures
        0 <= i * w,
        (i + 1) * w == i * w + w,
        (i + 1) * w <= n * w,
        (n * w) / w == n,
{
}

/// The bytes of a run of elements, element by element.
pub proof fn lemma_bytes_of_chunks(d: DType, endian: Endian, values: Seq<int>)
    requires
        d != DType::Block,
        forall|i: int| 0 <= i < values.len() ==> fits(d, #[trigger] values[i]),
    ensures
        bytes_of(d, endian, values).len() == values.len() * d.spec_size(),
        forall|i: int|
            0 <= i < values.len() ==> #[trigger] chunk(bytes_of(d, endian, values), d.spec_size(), i)
                == element_bytes(d, endian, values[i]),
    decreases values.len(),
{
    let w = d.spec_size() as int;
    if values.len() > 0 {
        let init = values.drop_last();
        let n = init.len() as int;
        assert forall|i: int| 0 <= i < init.len() implies fits(d, #[trigger] init[i]) by {
            assert(init[i] == values[i]);
        }
        lemma_bytes_of_chunks(d, endian, init);
        lemma_element_round_trip(d, endian, values.last());
        let all = bytes_of(d, endian, values);
        let head = bytes_of(d, endian, init);
        let tail = element_bytes(d, endian, values.last());
        assert(all == head + tail);
        assert(head.len() == n * w);
        assert(tail.len() == w);
        lemma_chunk_bounds(n, n + 1, w);
        assert(all.len() == (n + 1) * w);
        assert forall|i: int| 0 <= i < values.len() implies #[trigger] chunk(all, w as nat, i)
            == element_bytes(d, endian, values[i]) by {
            lemma_chunk_bounds(i, n + 1, w);
            if i < n {
                lemma_chunk_bounds(i, n, w);
                assert(chunk(head, w as nat, i) == element_bytes(d, endian, init[i]));
                assert(all.subrange(i * w, i * w + w) =~= head.subrange(i * w, i * w + w));
                assert(values[i] == init[i]);
            } else {
                assert(all.subrange(n * w, n * w + w) =~= tail);
            }
        }
    } else {
        assert(0 * d.spec_size() == 0) by (nonlinear_arith);
    }
}

/// Reading back the bytes of a run of elements gives the elements.
pub proof fn lemma_elements_round_trip(d: DType, endian: Endian, values: Seq<int>)
    requires
        d != DType::Block,
        forall|i: int| 0 <= i < values.len() ==> fits(d, #[trigger] values[i]),
    ensures
        elements_of(d, endian, bytes_of(d, endian, values)) == values,
{
    let w = d.spec_size();
    let bytes = bytes_of(d, endian, values);
    lemma_bytes_of_chunks(d, endian, values);
    if values.len() > 0 {
        lemma_chunk_bounds(0, values.len() as int, w as int);
    } else {
        assert(0 * w == 0) by (nonlinear_arith);
    }
    assert(bytes.len() / w == values.len());
    assert forall|i: int| 0 <= i < values.len() implies elements_of(d, endian, bytes)[i]
        == values[i] by {
        lemma_element_round_trip(d, endian, values[i]);
        assert(chunk(bytes, w, i) == element_bytes(d, endian, values[i]));
    }
    assert(elements_of(d, endian, bytes) =~= values);
}

/// The elements of a raster, in the type that the header names. Elements of
/// a floating type are held as their bit patterns.
#[derive(Debug, Clone, PartialEq, Eq)]
pub enum Elements {
    Int8(Vec<i8>),
    UInt8(Vec<u8>),
    Int16(Vec<i16>),
    UInt16(Vec<u16>),
    Int32(Vec<i32>),
    UInt32(Vec<u32>),
    Int64(Vec<i64>),
    UInt64(Vec<u64>),
    Float(Vec<u32>),
    Double(Vec<u64>),
}

/// The model of a run of elements: their type, and each as an integer.
pub struct ElementsView {
    pub dtype: DType,
    pub values: Seq<int>,
}

impl View for Elements {
    type V = ElementsView;

    open spec fn view(&self) -> ElementsView {
        match self {
            Elements::Int8(v) => ElementsView {
                dtype: DType::int8,
                values: v@.map_values(|x: i8| x as int),
            },
            Elements::UInt8(v) => ElementsView {
                dtype: DType::uint8,
                values: v@.map_values(|x: u8| x as int),
            },
            Elements::Int16(v) => ElementsView {
                dtype: DType::int16,
                values: v@.map_values(|x: i16| x as int),
            },
            Elements::UInt16(v) => ElementsView {
                dtype: DType::uint16,
                values: v@.map_values(|x: u16| x as int),
            },
            Elements::Int32(v) => ElementsView {
                dtype: DType::int32,
                values: v@.map_values(|x: i32| x as int),
            },
            Elements::UInt32(v) => ElementsView {
                dtype: DType::uint32,
                values: v@.map_values(|x: u32| x as int),
            },
            Elements::Int64(v) => ElementsView {
                dtype: DType::int64,
                values: v@.map_values(|x: i64| x as int),
            },
            Elements::UInt64(v) => ElementsView {
                dtype: DType::uint64,
                values: v@.map_values(|x: u64| x as int),
            },
            Elements::Float(v) => ElementsView {
                dtype: DType::float,
                values: v@.map_values(|x: u32| x as int),
            },
            Elements::Double(v) => ElementsView {
                dtype: DType::double,
                values: v@.map_values(|x: u64| x as int),
            },
        }
    }
}

/// `byteorder::BigEndian::read_i16_into`: element `i` of `dst` becomes the
/// number that the `i`th run of 2 bytes of `src` spells, the most significant byte first, read in two's complement.
/// The function panics unless `src` holds 2 bytes for each element of `dst`.
#[verifier::external_body]
fn be_read_i16(src: &[u8], dst: &mut Vec<i16>)
    requires
        src.len() == 2 * old(dst).len(),
    ensures
        final(dst).len() == old(dst).len(),
        forall|i: int|
            0 <= i < final(dst).len() ==> (#[trigger] final(dst)@[i]) as int
                == as_signed(unsigned_be(src@.subrange(2 * i, 2 * i + 2)), 2),
{
    byteorder::BigEndian::read_i16_into(src, dst)
}

/// `byteorder::BigEndian::read_u16_into`: element `i` of `dst` becomes the
/// number that the `i`th run of 2 bytes of `src` spells, the most significant byte first.
/// The function panics unless `src` holds 2 bytes for each element of `dst`.
#[verifier::external_body]
fn be_read_u16(src: &[u8], dst: &mut Vec<u16>)
    requires
        src.len() == 2 * old(dst).len(),
    ensures
        final(dst).len() == old(dst).len(),
        forall|i: int|
            0 <= i < final(dst).len() ==> (#[trigger] final(dst)@[i]) as int
                == unsigned_be(src@.subrange(2 * i, 2 * i + 2)) as int,
{
    byteorder::BigEndian::read_u16_into(src, dst)
}

/// `byteorder::BigEndian::read_i32_into`: element `i` of `dst` becomes the
/// number that the `i`th run of 4 bytes of `src` spells, the most significant byte first, read in two's complement.
/// The function panics unless `src` holds 4 bytes for each element of `dst`.
#[verifier::external_body]
fn be_read_i32(src: &[u8], dst: &mut Vec<i32>)
    requires
        src.len() == 4 * old(dst).len(),
    ensures
        final(dst).len() == old(dst).len(),
        forall|i: int|
            0 <= i < final(dst).len() ==> (#[trigger] final(dst)@[i]) as int
                == as_signed(unsigned_be(src@.subrange(4 * i, 4 * i + 4)), 4),
{
    byteorder::BigEndian::read_i32_into(src, dst)
}

/// `byteorder::BigEndian::read_u32_into`: element `i` of `dst` becomes the
/// number that the `i`th run of 4 bytes of `src` spells, the most significant byte first.
/// The function panics unless `src` holds 4 bytes for each element of `dst`.
#[verifier::external_body]
fn be_read_u32(src: &[u8], dst: &mut Vec<u32>)
    requires
        src.len() == 4 * old(dst).len(),
    ensures
        final(dst).len() == old(dst).len(),
        forall|i: int|
            0 <= i < final(dst).len() ==> (#[trigger] final(dst)@[i]) as int
                == unsigned_be(src@.subrange(4 * i, 4 * i + 4)) as int,
{
    byteorder::BigEndian::read_u32_into(src, dst)
}

/// `byteorder::BigEndian::read_i64_into`: element `i` of `dst` becomes the
/// number that the `i`th run of 8 bytes of `src` spells, the most significant byte first, read in two's complement.
/// The function panics unless `src` holds 8 bytes for each element of `dst`.
#[verifier::external_body]
fn be_read_i64(src: &[u8], dst: &mut Vec<i64>)
    requires
        src.len() == 8 * old(dst).len(),
    ensures
        final(dst).len() == old(dst).len(),
        forall|i: int|
            0 <= i < final(dst).len() ==> (#[trigger] final(dst)@[i]) as int
                == as_signed(unsigned_be(src@.subrange(8 * i, 8 * i + 8)), 8),
{
    byteorder::BigEndian::read_i64_into(src, dst)
}

/// `byteorder::BigEndian::read_u64_into`: element `i` of `dst` becomes the
/// number that the `i`th run of 8 bytes of `src` spells, the most significant byte first.
/// The function panics unless `src` holds 8 bytes for each element of `dst`.
#[verifier::external_body]
fn be_read_u64(src: &[u8], dst: &mut Vec<u64>)
    requires
        src.len() == 8 * old(dst).len(),
    ensures
        final(dst).len() == old(dst).len(),
        forall|i: int|
            0 <= i < final(dst).len() ==> (#[trigger] final(dst)@[i]) as int
                == unsigned_be(src@.subrange(8 * i, 8 * i + 8)) as int,
{
    byteorder::BigEndian::read_u64_into(src, dst)
}

/// `byteorder::LittleEndian::read_i16_into`: element `i` of `dst` becomes the
/// number that the `i`th run of 2 bytes of `src` spells, the least significant byte first, read in two's complement.
/// The function panics unless `src` holds 2 bytes for each element of `dst`.
#[verifier::external_body]
fn le_read_i16(src: &[u8], dst: &mut Vec<i16>)
    requires
        src.len() == 2 * old(dst).len(),
    ensures
        final(dst).len() == old(dst).len(),
        forall|i: int|
            0 <= i < final(dst).len() ==> (#[trigger] final(dst)@[i]) as int
                == as_signed(unsigned_le(src@.subrange(2 * i, 2 * i + 2)), 2),
{
    byteorder::LittleEndian::read_i16_into(src, dst)
}

/// `byteorder::LittleEndian::read_u16_into`: element `i` of `dst` becomes the
/// number that the `i`th run of 2 bytes of `src` spells, the least significant byte first.
/// The function panics unless `src` holds 2 bytes for each element of `dst`.
#[verifier::external_body]
fn le_read_u16(src: &[u8], dst: &mut Vec<u16>)
    requires
        src.len() == 2 * old(dst).len(),
    ensures
        final(dst).len() == old(dst).len(),
        forall|i: int|
            0 <= i < final(dst).len() ==> (#[trigger] final(dst)@[i]) as int
                == unsigned_le(src@.subrange(2 * i, 2 * i + 2)) as int,
{
    byteorder::LittleEndian::read_u16_into(src, dst)
}

/// `byteorder::LittleEndian::read_i32_into`: element `i` of `dst` becomes the
/// number that the `i`th run of 4 bytes of `src` spells, the least significant byte first, read in two's complement.
/// The function panics unless `src` holds 4 bytes for each element of `dst`.
#[verifier::external_body]
fn le_read_i32(src: &[u8], dst: &mut Vec<i32>)
    requires
        src.len() == 4 * old(dst).len(),
    ensures
        final(dst).len() == old(dst).len(),
        forall|i: int|
            0 <= i < final(dst).len() ==> (#[trigger] final(dst)@[i]) as int
                == as_signed(unsigned_le(src@.subrange(4 * i, 4 * i + 4)), 4),
{
    byteorder::LittleEndian::read_i32_into(src, dst)
}

/// `byteorder::LittleEndian::read_u32_into`: element `i` of `dst` becomes the
/// number that the `i`th run of 4 bytes of `src` spells, the least significant byte first.
/// The function panics unless `src` holds 4 bytes for each element of `dst`.
#[verifier::external_body]
fn le_read_u32(src: &[u8], dst: &mut Vec<u32>)
    requires
        src.len() == 4 * old(dst).len(),
    ensures
        final(dst).len() == old(dst).len(),
        forall|i: int|
            0 <= i < final(dst).len() ==> (#[trigger] final(dst)@[i]) as int
                == unsigned_le(src@.subrange(4 * i, 4 * i + 4)) as int,
{
    byteorder::LittleEndian::read_u32_into(src, dst)
}

/// `byteorder::LittleEndian::read_i64_into`: element `i` of `dst` becomes the
/// number that the `i`th run of 8 bytes of `src` spells, the least significant byte first, read in two's complement.
/// The function panics unless `src` holds 8 bytes for each element of `dst`.
#[verifier::external_body]
fn le_read_i64(src: &[u8], dst: &mut Vec<i64>)
    requires
        src.len() == 8 * old(dst).len(),
    ensures
        final(dst).len() == old(dst).len(),
        forall|i: int|
            0 <= i < final(dst).len() ==> (#[trigger] final(dst)@[i]) as int
                == as_signed(unsigned_le(src@.subrange(8 * i, 8 * i + 8)), 8),
{
    byteorder::LittleEndian::read_i64_into(src, dst)
}

/// `byteorder::LittleEndian::read_u64_into`: element `i` of `dst` becomes the
/// number that the `i`th run of 8 bytes of `src` spells, the least significant byte first.
/// The function panics unless `src` holds 8 bytes for each element of `dst`.
#[verifier::external_body]
fn le_read_u64(src: &[u8], dst: &mut Vec<u64>)
    requires
        src.len() == 8 * old(dst).len(),
    ensures
        final(dst).len() == old(dst).len(),
        forall|i: int|
            0 <= i < final(dst).len() ==> (#[trigger] final(dst)@[i]) as int
                == unsigned_le(src@.subrange(8 * i, 8 * i + 8)) as int,
{
    byteorder::LittleEndian::read_u64_into(src, dst)
}

/// Reads the elements that the bytes stand for. Blocks have no elements
/// to read; the bytes must hold a whole number of elements.
pub fn decode_elements(bytes: &[u8], dtype: DType, endian: Endian) -> (r: Result<
    Elements,
    CodecError,
>)
    ensures
        match r {
            Ok(e) => {
                &&& dtype != DType::Block
                &&& bytes.len() as int % dtype.spec_size() as int == 0
                &&& e@.dtype == dtype
                &&& e@.values == elements_of(dtype, endian, bytes@)
            },
            Err(e) => if dtype == DType::Block {
                e == CodecError::BlockElements
            } else {
                e == CodecError::Length && bytes.len() as int % dtype.spec_size() as int != 0
            },
        },
{
    if dtype == DType::Block {
        return Err(CodecError::BlockElements);
    }
    let w: usize = dtype.size();
    if bytes.len() % w != 0 {
        return Err(CodecError::Length);
    }
    let n: usize = bytes.len() / w;
    proof {
        lemma_radix_values();
    }
    match dtype {
        DType::int8 => {
            let mut v: Vec<i8> = Vec::new();
            let mut i: usize = 0;
            while i < n
                invariant
                    0 <= i <= n == bytes.len(),
                    radix(1) == 0x100,
                    v.len() == i,
                    forall|k: int|
                        0 <= k < i ==> (#[trigger] v@[k]) as int == element_value(
                            DType::int8,
                            endian,
                            chunk(bytes@, 1, k),
                        ),
                decreases n - i,
            {
                let b: u8 = bytes[i];
                proof {
                    let c = chunk(bytes@, 1, i as int);
                    assert(c =~= seq![b]);
                    assert(c.drop_last() =~= Seq::<u8>::empty());
                    assert(c.drop_first() =~= Seq::<u8>::empty());
                    assert(unsigned_be(c.drop_last()) == 0);
                    assert(unsigned_le(c.drop_first()) == 0);
                    assert(unsigned_value(endian, c) == b);
                }
                v.push(if b < 128 {
                        b as i8
                    } else {
                        (b as i16 - 256) as i8
                    });
                i += 1;
            }
            let e = Elements::Int8(v);
            assert(e@.values =~= elements_of(dtype, endian, bytes@));
            Ok(e)
        },
        DType::uint8 => {
            let mut v: Vec<u8> = Vec::new();
            let mut i: usize = 0;
            while i < n
                invariant
                    0 <= i <= n == bytes.len(),
                    radix(1) == 0x100,
                    v.len() == i,
                    forall|k: int|
                        0 <= k < i ==> (#[trigger] v@[k]) as int == element_value(
                            DType::uint8,
                            endian,
                            chunk(bytes@, 1, k),
                        ),
                decreases n - i,
            {
                let b: u8 = bytes[i];
                proof {
                    let c = chunk(bytes@, 1, i as int);
                    assert(c =~= seq![b]);
                    assert(c.drop_last() =~= Seq::<u8>::empty());
                    assert(c.drop_first() =~= Seq::<u8>::empty());
                    assert(unsigned_be(c.drop_last()) == 0);
                    assert(unsigned_le(c.drop_first()) == 0);
                    assert(unsigned_value(endian, c) == b);
                }
                v.push(b);
                i += 1;
            }
            let e = Elements::UInt8(v);
            assert(e@.values =~= elements_of(dtype, endian, bytes@));
            Ok(e)
        },
        DType::int16 => {
            let mut v: Vec<i16> = vec![0i16; n];
            match endian {
                Endian::Big => be_read_i16(bytes, &mut v),
                Endian::Little => le_read_i16(bytes, &mut v),
            }
            let e = Elements::Int16(v);
            assert forall|i: int| 0 <= i < n implies e@.values[i] == element_value(
                dtype,
                endian,
                chunk(bytes@, 2, i),
            ) by {
                assert(chunk(bytes@, 2, i) =~= bytes@.subrange(2 * i, 2 * i + 2));
            }
            assert(e@.values =~= elements_of(dtype, endian, bytes@));
            Ok(e)
        },
        DType::uint16 => {
            let mut v: Vec<u16> = vec![0u16; n];
            match endian {
                Endian::Big => be_read_u16(bytes, &mut v),
                Endian::Little => le_read_u16(bytes, &mut v),
            }
            let e = Elements::UInt16(v);
            assert forall|i: int| 0 <= i < n implies e@.values[i] == element_value(
                dtype,
                endian,
                chunk(bytes@, 2, i),
            ) by {
                assert(chunk(bytes@, 2, i) =~= bytes@.subrange(2 * i, 2 * i + 2));
            }
            assert(e@.values =~= elements_of(dtype, endian, bytes@));
            Ok(e)
        },
        DType::int32 => {
            let mut v: Vec<i32> = vec![0i32; n];
            match endian {
                Endian::Big => be_read_i32(bytes, &mut v),
                Endian::Little => le_read_i32(bytes, &mut v),
            }
            let e = Elements::Int32(v);
            assert forall|i: int| 0 <= i < n implies e@.values[i] == element_value(
                dtype,
                endian,
                chunk(bytes@, 4, i),
            ) by {
                assert(chunk(bytes@, 4, i) =~= bytes@.subrange(4 * i, 4 * i + 4));
            }
            assert(e@.values =~= elements_of(dtype, endian, bytes@));
            Ok(e)
        },
        DType::uint32 => {
            let mut v: Vec<u32> = vec![0u32; n];
            match endian {
                Endian::Big => be_read_u32(bytes, &mut v),
                Endian::Little => le_read_u32(bytes, &mut v),
            }
            let e = Elements::UInt32(v);
            assert forall|i: int| 0 <= i < n implies e@.values[i] == element_value(
                dtype,
                endian,
                chunk(bytes@, 4, i),
            ) by {
                assert(chunk(bytes@, 4, i) =~= bytes@.subrange(4 * i, 4 * i + 4));
            }
            assert(e@.values =~= elements_of(dtype, endian, bytes@));
            Ok(e)
        },
        DType::int64 => {
            let mut v: Vec<i64> = vec![0i64; n];
            match endian {
                Endian::Big => be_read_i64(bytes, &mut v),
                Endian::Little => le_read_i64(bytes, &mut v),
            }
            let e = Elements::Int64(v);
            assert forall|i: int| 0 <= i < n implies e@.values[i] == element_value(
                dtype,
                endian,
                chunk(bytes@, 8, i),
            ) by {
                assert(chunk(bytes@, 8, i) =~= bytes@.subrange(8 * i, 8 * i + 8));
            }
            assert(e@.values =~= elements_of(dtype, endian, bytes@));
            Ok(e)
        },
        DType::uint64 => {
            let mut v: Vec<u64> = vec![0u64; n];
            match endian {
                Endian::Big => be_read_u64(bytes, &mut v),
                Endian::Little => le_read_u64(bytes, &mut v),
            }
            let e = Elements::UInt64(v);
            assert forall|i: int| 0 <= i < n implies e@.values[i] == element_value(
                dtype,
                endian,
                chunk(bytes@, 8, i),
            ) by {
                assert(chunk(bytes@, 8, i) =~= bytes@.subrange(8 * i, 8 * i + 8));
            }
            assert(e@.values =~= elements_of(dtype, endian, bytes@));
            Ok(e)
        },
        DType::float => {
            let mut v: Vec<u32> = vec![0u32; n];
            match endian {
                Endian::Big => be_read_u32(bytes, &mut v),
                Endian::Little => le_read_u32(bytes, &mut v),
            }
            let e = Elements::Float(v);
            assert forall|i: int| 0 <= i < n implies e@.values[i] == element_value(
                dtype,
                endian,
                chunk(bytes@, 4, i),
            ) by {
                assert(chunk(bytes@, 4, i) =~= bytes@.subrange(4 * i, 4 * i + 4));
            }
            assert(e@.values =~= elements_of(dtype, endian, bytes@));
            Ok(e)
        },
        DType::double => {
            let mut v: Vec<u64> = vec![0u64; n];
            match endian {
                Endian::Big => be_read_u64(bytes, &mut v),
                Endian::Little => le_read_u64(bytes, &mut v),
            }
            let e = Elements::Double(v);
            assert forall|i: int| 0 <= i < n implies e@.values[i] == element_value(
                dtype,
                endian,
                chunk(bytes@, 8, i),
            ) by {
                assert(chunk(bytes@, 8, i) =~= bytes@.subrange(8 * i, 8 * i + 8));
            }
            assert(e@.values =~= elements_of(dtype, endian, bytes@));
            Ok(e)
        },
        DType::Block => Err(CodecError::BlockElements),
    }
}

/// Appends the `w` bytes that spell `u`, the most significant byte first.
fn push_be(out: &mut Vec<u8>, u: u64, w: usize)
    ensures
        final(out)@ == old(out)@ + be_bytes(u as nat, w as nat),
    decreases w,
{
    if w > 0 {
        push_be(out, u / 256, w - 1);
        out.push((u % 256) as u8);
        assert(out@ =~= old(out)@ + be_bytes(u as nat, w as nat));
    } else {
        assert(out@ =~= old(out)@ + be_bytes(u as nat, w as nat));
    }
}

/// Appends the `w` bytes that spell `u`, the least significant byte first.
fn push_le(out: &mut Vec<u8>, u: u64, w: usize)
    ensures
        final(out)@ == old(out)@ + le_bytes(u as nat, w as nat),
    decreases w,
{
    if w > 0 {
        out.push((u % 256) as u8);
        push_le(out, u / 256, w - 1);
        assert(out@ =~= old(out)@ + le_bytes(u as nat, w as nat));
    } else {
        assert(out@ =~= old(out)@ + le_bytes(u as nat, w as nat));
    }
}

/// Appends the bytes of one element, given as the unsigned number that
/// stands for it.
fn push_element(out: &mut Vec<u8>, u: u64, w: usize, endian: Endian)
    ensures
        final(out)@ == old(out)@ + match endian {
            Endian::Big => be_bytes(u as nat, w as nat),
            Endian::Little => le_bytes(u as nat, w as nat),
        },
{
    match endian {
        Endian::Big => push_be(out, u, w),
        Endian::Little => push_le(out, u, w),
    }
}

impl Elements {
    /// The type of the elements.
    pub fn dtype(&self) -> (d: DType)
        ensures
            d == self@.dtype,
            d != DType::Block,
    {
        match self {
            Elements::Int8(_) => DType::int8,
            Elements::UInt8(_) => DType::uint8,
            Elements::Int16(_) => DType::int16,
            Elements::UInt16(_) => DType::uint16,
            Elements::Int32(_) => DType::int32,
            Elements::UInt32(_) => DType::uint32,
            Elements::Int64(_) => DType::int64,
            Elements::UInt64(_) => DType::uint64,
            Elements::Float(_) => DType::float,
            Elements::Double(_) => DType::double,
        }
    }

    /// The number of elements.
    pub fn len(&self) -> (n: usize)
        ensures
            n == self@.values.len(),
    {
        match self {
            Elements::Int8(v) => v.len(),
            Elements::UInt8(v) => v.len(),
            Elements::Int16(v) => v.len(),
            Elements::UInt16(v) => v.len(),
            Elements::Int32(v) => v.len(),
            Elements::UInt32(v) => v.len(),
            Elements::Int64(v) => v.len(),
            Elements::UInt64(v) => v.len(),
            Elements::Float(v) => v.len(),
            Elements::Double(v) => v.len(),
        }
    }

    /// Every element lies in the range of its type.
    pub proof fn lemma_values_fit(&self)
        ensures
            forall|i: int|
                0 <= i < self@.values.len() ==> fits(self@.dtype, #[trigger] self@.values[i]),
    {
        lemma_radix_values();
    }

    /// The bytes that stand for the elements in the given byte order.
    pub fn to_bytes(&self, endian: Endian) -> (r: Vec<u8>)
        ensures
            r@ == bytes_of(self@.dtype, endian, self@.values),
    {
        let mut out: Vec<u8> = Vec::new();
        let ghost d = self@.dtype;
        let ghost values = self@.values;
        proof {
            lemma_radix_values();
            assert(values.take(0) =~= Seq::<int>::empty());
        }
        match self {
            Elements::Int8(v) => {
                let mut i: usize = 0;
                while i < v.len()
                    invariant
                        0 <= i <= v.len(),
                        d == DType::int8,
                        values == v@.map_values(|x: i8| x as int),
                        radix(1) == 0x100,
                        out@ == bytes_of(d, endian, values.take(i as int)),
                    decreases v.len() - i,
                {
                    let x: i8 = v[i];
                    proof {
                        let t = values.take(i + 1);
                        assert(t.drop_last() =~= values.take(i as int));
                        assert(t.last() == x as int);
                    }
                    let u: u64 = if x < 0 {
                        (x as i128 + 0x100) as u64
                    } else {
                        x as u64
                    };
                    push_element(&mut out, u, 1, endian);
                    i += 1;
                }
                assert(values.take(v.len() as int) =~= values);
            },
            Elements::UInt8(v) => {
                let mut i: usize = 0;
                while i < v.len()
                    invariant
                        0 <= i <= v.len(),
                        d == DType::uint8,
                        values == v@.map_values(|x: u8| x as int),
                        radix(1) == 0x100,
                        out@ == bytes_of(d, endian, values.take(i as int)),
                    decreases v.len() - i,
                {
                    let x: u8 = v[i];
                    proof {
                        let t = values.take(i + 1);
                        assert(t.drop_last() =~= values.take(i as int));
                        assert(t.last() == x as int);
                    }
                    let u: u64 = x as u64;
                    push_element(&mut out, u, 1, endian);
                    i += 1;
                }
                assert(values.take(v.len() as int) =~= values);
            },
            Elements::Int16(v) => {
                let mut i: usize = 0;
                while i < v.len()
                    invariant
                        0 <= i <= v.len(),
                        d == DType::int16,
                        values == v@.map_values(|x: i16| x as int),
                        radix(2) == 0x1_0000,
                        out@ == bytes_of(d, endian, values.take(i as int)),
                    decreases v.len() - i,
                {
                    let x: i16 = v[i];
                    proof {
                        let t = values.take(i + 1);
                        assert(t.drop_last() =~= values.take(i as int));
                        assert(t.last() == x as int);
                    }
                    let u: u64 = if x < 0 {
                        (x as i128 + 0x1_0000) as u64
                    } else {
                        x as u64
                    };
                    push_element(&mut out, u, 2, endian);
                    i += 1;
                }
                assert(values.take(v.len() as int) =~= values);
            },
            Elements::UInt16(v) => {
                let mut i: usize = 0;
                while i < v.len()
                    invariant
                        0 <= i <= v.len(),
                        d == DType::uint16,
                        values == v@.map_values(|x: u16| x as int),
                        radix(2) == 0x1_0000,
                        out@ == bytes_of(d, endian, values.take(i as int)),
                    decreases v.len() - i,
                {
                    let x: u16 = v[i];
                    proof {
                        let t = values.take(i + 1);
                        assert(t.drop_last() =~= values.take(i as int));
                        assert(t.last() == x as int);
                    }
                    let u: u64 = x as u64;
                    push_element(&mut out, u, 2, endian);
                    i += 1;
                }
                assert(values.take(v.len() as int) =~= values);
            },
            Elements::Int32(v) => {
                let mut i: usize = 0;
                while i < v.len()
                    invariant
                        0 <= i <= v.len(),
                        d == DType::int32,
                        values == v@.map_values(|x: i32| x as int),
                        radix(4) == 0x1_0000_0000,
                        out@ == bytes_of(d, endian, values.take(i as int)),
                    decreases v.len() - i,
                {
                    let x: i32 = v[i];
                    proof {
                        let t = values.take(i + 1);
                        assert(t.drop_last() =~= values.take(i as int));
                        assert(t.last() == x as int);
                    }
                    let u: u64 = if x < 0 {
                        (x as i128 + 0x1_0000_0000) as u64
                    } else {
                        x as u64
                    };
                    push_element(&mut out, u, 4, endian);
                    i += 1;
                }
                assert(values.take(v.len() as int) =~= values);
            },
            Elements::UInt32(v) => {
                let mut i: usize = 0;
                while i < v.len()
                    invariant
                        0 <= i <= v.len(),
                        d == DType::uint32,
                        values == v@.map_values(|x: u32| x as int),
                        radix(4) == 0x1_0000_0000,
                        out@ == bytes_of(d, endian, values.take(i as int)),
                    decreases v.len() - i,
                {
                    let x: u32 = v[i];
                    proof {
                        let t = values.take(i + 1);
                        assert(t.drop_last() =~= values.take(i as int));
                        assert(t.last() == x as int);
                    }
                    let u: u64 = x as u64;
                    push_element(&mut out, u, 4, endian);
                    i += 1;
                }
                assert(values.take(v.len() as int) =~= values);
            },
            Elements::Int64(v) => {
                let mut i: usize = 0;
                while i < v.len()
                    invariant
                        0 <= i <= v.len(),
                        d == DType::int64,
                        values == v@.map_values(|x: i64| x as int),
                        radix(8) == 0x1_0000_0000_0000_0000,
                        out@ == bytes_of(d, endian, values.take(i as int)),
                    decreases v.len() - i,
                {
                    let x: i64 = v[i];
                    proof {
                        let t = values.take(i + 1);
                        assert(t.drop_last() =~= values.take(i as int));
                        assert(t.last() == x as int);
                    }
                    let u: u64 = if x < 0 {
                        (x as i128 + 0x1_0000_0000_0000_0000) as u64
                    } else {
                        x as u64
                    };
                    push_element(&mut out, u, 8, endian);
                    i += 1;
                }
                assert(values.take(v.len() as int) =~= values);
            },
            Elements::UInt64(v) => {
                let mut i: usize = 0;
                while i < v.len()
                    invariant
                        0 <= i <= v.len(),
                        d == DType::uint64,
                        values == v@.map_values(|x: u64| x as int),
                        radix(8) == 0x1_0000_0000_0000_0000,
                        out@ == bytes_of(d, endian, values.take(i as int)),
                    decreases v.len() - i,
                {
                    let x: u64 = v[i];
                    proof {
                        let t = values.take(i + 1);
                        assert(t.drop_last() =~= values.take(i as int));
                        assert(t.last() == x as int);
                    }
                    let u: u64 = x as u64;
                    push_element(&mut out, u, 8, endian);
                    i += 1;
                }
                assert(values.take(v.len() as int) =~= values);
            },
            Elements::Float(v) => {
                let mut i: usize = 0;
                while i < v.len()
                    invariant
                        0 <= i <= v.len(),
                        d == DType::float,
                        values == v@.map_values(|x: u32| x as int),
                        radix(4) == 0x1_0000_0000,
                        out@ == bytes_of(d, endian, values.take(i as int)),
                    decreases v.len() - i,
                {
                    let x: u32 = v[i];
                    proof {
                        let t = values.take(i + 1);
                        assert(t.drop_last() =~= values.take(i as int));
                        assert(t.last() == x as int);
                    }
                    let u: u64 = x as u64;
                    push_element(&mut out, u, 4, endian);
                    i += 1;
                }
                assert(values.take(v.len() as int) =~= values);
            },
            Elements::Double(v) => {
                let mut i: usize = 0;
                while i < v.len()
                    invariant
                        0 <= i <= v.len(),
                        d == DType::double,
                        values == v@.map_values(|x: u64| x as int),
                        radix(8) == 0x1_0000_0000_0000_0000,
                        out@ == bytes_of(d, endian, values.take(i as int)),
                    decreases v.len() - i,
                {
                    let x: u64 = v[i];
                    proof {
                        let t = values.take(i + 1);
                        assert(t.drop_last() =~= values.take(i as int));
                        assert(t.last() == x as int);
                    }
                    let u: u64 = x as u64;
                    push_element(&mut out, u, 8, endian);
                    i += 1;
                }
                assert(values.take(v.len() as int) =~= values);
            },
        }
        out
    }
}

} // verus!

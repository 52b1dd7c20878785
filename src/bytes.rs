//! Big-endian integers and NUL-padded text fields, the building blocks of the
//! Common RDR records.
use vstd::prelude::*;
use vstd::utf8::{decode_utf8, encode_utf8, valid_utf8};

verus! {

/// The four big-endian bytes of `x`.
pub open spec fn u32_be(x: u32) -> Seq<u8> {
    seq![(x >> 24u32) as u8, (x >> 16u32) as u8, (x >> 8u32) as u8, x as u8]
}

/// The `u32` whose big-endian bytes are `b[0..4]`.
pub open spec fn u32_of_be(b: Seq<u8>) -> u32 {
    ((b[0] as u32) << 24u32) | ((b[1] as u32) << 16u32) | ((b[2] as u32) << 8u32) | (b[3] as u32)
}

/// The eight big-endian bytes of `x`.
pub open spec fn u64_be(x: u64) -> Seq<u8> {
    u32_be((x >> 32u64) as u32) + u32_be(x as u32)
}

/// The `u64` whose big-endian bytes are `b[0..8]`.
pub open spec fn u64_of_be(b: Seq<u8>) -> u64 {
    ((u32_of_be(b) as u64) << 32u64) | (u32_of_be(b.subrange(4, 8)) as u64)
}

/// `s` cut or NUL-padded to exactly `w` bytes.
pub open spec fn padded(s: Seq<u8>, w: nat) -> Seq<u8> {
    if s.len() >= w {
        s.subrange(0, w as int)
    } else {
        s + Seq::new((w - s.len()) as nat, |i: int| 0u8)
    }
}

/// `s` without its leading NUL bytes.
pub open spec fn trim_front(s: Seq<u8>) -> Seq<u8>
    decreases s.len(),
{
    if s.len() > 0 && s[0] == 0 {
        trim_front(s.drop_first())
    } else {
        s
    }
}

/// `s` without its trailing NUL bytes.
pub open spec fn trim_back(s: Seq<u8>) -> Seq<u8>
    decreases s.len(),
{
    if s.len() > 0 && s.last() == 0 {
        trim_back(s.drop_last())
    } else {
        s
    }
}

/// The bytes of a text field: the field without NUL bytes at either end.
pub open spec fn field_bytes(s: Seq<u8>) -> Seq<u8> {
    trim_back(trim_front(s))
}

/// What a text field decodes to, when its bytes are UTF-8.
pub open spec fn field_text(s: Seq<u8>) -> Seq<char> {
    decode_utf8(field_bytes(s))
}

/// Whether a text field holds UTF-8.
pub open spec fn field_is_text(s: Seq<u8>) -> bool {
    valid_utf8(field_bytes(s))
}

/// Text that survives a field of `w` bytes: its UTF-8 bytes fit and none is NUL.
pub open spec fn fits_field(t: Seq<char>, w: nat) -> bool {
    &&& encode_utf8(t).len() <= w
    &&& forall|i: int| 0 <= i < encode_utf8(t).len() ==> #[trigger] encode_utf8(t)[i] != 0
}

pub proof fn lemma_u32_be(x: u32)
    ensures
        u32_of_be(u32_be(x)) == x,
        u32_be(x).len() == 4,
{
    let b0 = (x >> 24u32) as u8;
    let b1 = (x >> 16u32) as u8;
    let b2 = (x >> 8u32) as u8;
    let b3 = x as u8;
    assert(((b0 as u32) << 24u32) | ((b1 as u32) << 16u32) | ((b2 as u32) << 8u32) | (b3 as u32)
        == x) by (bit_vector)
        requires
            b0 == (x >> 24u32) as u8,
            b1 == (x >> 16u32) as u8,
            b2 == (x >> 8u32) as u8,
            b3 == x as u8,
    ;
}

pub proof fn lemma_u64_be(x: u64)
    ensures
        u64_of_be(u64_be(x)) == x,
        u64_be(x).len() == 8,
{
    let hi = (x >> 32u64) as u32;
    let lo = x as u32;
    lemma_u32_be(hi);
    lemma_u32_be(lo);
    assert(u64_be(x).subrange(0, 4) =~= u32_be(hi));
    assert(u64_be(x).subrange(4, 8) =~= u32_be(lo));
    assert(u32_of_be(u64_be(x)) == u32_of_be(u32_be(hi)));
    assert(((hi as u64) << 32u64) | (lo as u64) == x) by (bit_vector)
        requires
            hi == (x >> 32u64) as u32,
            lo == x as u32,
    ;
}

pub proof fn lemma_i32_cast(x: i32)
    ensures
        (x as u32) as i32 == x,
{
    assert((x as u32) as i32 == x) by (bit_vector);
}

pub proof fn lemma_i64_cast(x: i64)
    ensures
        (x as u64) as i64 == x,
{
    assert((x as u64) as i64 == x) by (bit_vector);
}

proof fn lemma_trim_front_no_nul(s: Seq<u8>)
    requires
        s.len() == 0 || s[0] != 0,
    ensures
        trim_front(s) == s,
{
}

proof fn lemma_trim_back_padding(s: Seq<u8>, k: nat)
    requires
        s.len() == 0 || s.last() != 0,
    ensures
        trim_back(s + Seq::new(k, |i: int| 0u8)) == s,
    decreases k,
{
    let z = Seq::new(k, |i: int| 0u8);
    if k == 0 {
        assert(s + z =~= s);
    } else {
        let z1 = Seq::new((k - 1) as nat, |i: int| 0u8);
        assert((s + z).drop_last() =~= s + z1);
        lemma_trim_back_padding(s, (k - 1) as nat);
    }
}

proof fn lemma_trim_front_zeros(k: nat)
    ensures
        trim_front(Seq::new(k, |i: int| 0u8)) == Seq::<u8>::empty(),
    decreases k,
{
    let z = Seq::new(k, |i: int| 0u8);
    if k > 0 {
        assert(z.drop_first() =~= Seq::new((k - 1) as nat, |i: int| 0u8));
        lemma_trim_front_zeros((k - 1) as nat);
    } else {
        assert(z =~= Seq::<u8>::empty());
    }
}

/// A text that fits its field reads back unchanged.
pub proof fn lemma_field_round_trip(t: Seq<char>, w: nat)
    requires
        fits_field(t, w),
    ensures
        field_is_text(padded(encode_utf8(t), w)),
        field_text(padded(encode_utf8(t), w)) == t,
{
    let b = encode_utf8(t);
    let k = (w - b.len()) as nat;
    let z = Seq::new(k, |i: int| 0u8);
    let p = padded(b, w);
    if b.len() == w {
        assert(z =~= Seq::<u8>::empty());
        assert(b.subrange(0, w as int) =~= b);
    }
    assert(p =~= b + z);
    if b.len() == 0 {
        assert(p =~= z);
        lemma_trim_front_zeros(k);
        assert(field_bytes(p) =~= b);
    } else {
        assert(b[0] != 0);
        assert((b + z)[0] == b[0]);
        lemma_trim_front_no_nul(b + z);
        assert(b.last() == b[b.len() - 1]);
        lemma_trim_back_padding(b, k);
    }
    assert(field_bytes(p) == b);
    vstd::utf8::encode_utf8_valid_utf8(t);
    vstd::utf8::encode_utf8_decode_utf8(t);
}

/// Appends the big-endian bytes of `x`.
pub fn push_u32(out: &mut Vec<u8>, x: u32)
    ensures
        final(out)@ == old(out)@ + u32_be(x),
{
    out.push((x >> 24u32) as u8);
    out.push((x >> 16u32) as u8);
    out.push((x >> 8u32) as u8);
    out.push(x as u8);
    assert(final(out)@ =~= old(out)@ + u32_be(x));
}

/// Appends the big-endian bytes of `x`.
pub fn push_u64(out: &mut Vec<u8>, x: u64)
    ensures
        final(out)@ == old(out)@ + u64_be(x),
{
    let ghost start = out@;
    push_u32(out, (x >> 32u64) as u32);
    push_u32(out, x as u32);
    assert(out@ =~= start + u64_be(x));
}

/// Reads a big-endian `u32` at `at`.
pub fn read_u32(data: &[u8], at: usize) -> (r: u32)
    requires
        at + 4 <= data@.len(),
    ensures
        r == u32_of_be(data@.subrange(at as int, at + 4)),
{
    ((data[at] as u32) << 24u32) | ((data[at + 1] as u32) << 16u32) | ((data[at + 2] as u32)
        << 8u32) | (data[at + 3] as u32)
}

/// Reads a big-endian `u64` at `at`.
pub fn read_u64(data: &[u8], at: usize) -> (r: u64)
    requires
        at + 8 <= data@.len(),
    ensures
        r == u64_of_be(data@.subrange(at as int, at + 8)),
{
    let _n = data.len();
    let hi = read_u32(data, at);
    let lo = read_u32(data, at + 4);
    assert(data@.subrange(at as int, at + 8).subrange(0, 4) =~= data@.subrange(at as int, at + 4));
    assert(data@.subrange(at as int, at + 8).subrange(4, 8) =~= data@.subrange(at + 4, at + 8));
    ((hi as u64) << 32u64) | (lo as u64)
}

/// Appends `src` cut or NUL-padded to `width` bytes.
pub fn push_padded(out: &mut Vec<u8>, src: &[u8], width: usize)
    ensures
        final(out)@ == old(out)@ + padded(src@, width as nat),
{
    let ghost start = out@;
    let mut i: usize = 0;
    while i < width
        invariant
            i <= width,
            out@ =~= start + padded(src@, width as nat).subrange(0, i as int),
        decreases width - i,
    {
        if i < src.len() {
            out.push(src[i]);
        } else {
            out.push(0u8);
        }
        i = i + 1;
    }
    assert(padded(src@, width as nat).subrange(0, width as int) =~= padded(src@, width as nat));
}

/// The bytes of the field `data[at..at + width]` without NUL bytes at either end.
fn trimmed_field(data: &[u8], at: usize, width: usize) -> (r: Vec<u8>)
    requires
        at + width <= data@.len(),
    ensures
        r@ == field_bytes(data@.subrange(at as int, at + width)),
{
    let ghost f = data@.subrange(at as int, at + width);
    let _n = data.len();
    let end = at + width;
    let mut lo: usize = at;
    while lo < end && data[lo] == 0
        invariant
            at <= lo <= end,
            end == at + width,
            end <= data@.len(),
            f == data@.subrange(at as int, end as int),
            trim_front(f) == trim_front(data@.subrange(lo as int, end as int)),
        decreases end - lo,
    {
        assert(data@.subrange(lo as int, end as int).drop_first() =~= data@.subrange(
            lo + 1,
            end as int,
        ));
        lo = lo + 1;
    }
    assert(trim_front(data@.subrange(lo as int, end as int)) == data@.subrange(lo as int, end as int));
    let mut hi: usize = end;
    while hi > lo && data[hi - 1] == 0
        invariant
            lo <= hi <= end,
            end <= data@.len(),
            trim_front(f) == data@.subrange(lo as int, end as int),
            field_bytes(f) == trim_back(data@.subrange(lo as int, hi as int)),
        decreases hi - lo,
    {
        assert(data@.subrange(lo as int, hi as int).drop_last() =~= data@.subrange(
            lo as int,
            hi - 1,
        ));
        hi = hi - 1;
    }
    let mut r: Vec<u8> = Vec::new();
    let mut i: usize = lo;
    while i < hi
        invariant
            lo <= i <= hi,
            hi <= data@.len(),
            r@ =~= data@.subrange(lo as int, i as int),
        decreases hi - i,
    {
        r.push(data[i]);
        i = i + 1;
    }
    r
}

/// Relies on `String::from_utf8`: it accepts exactly the valid UTF-8 byte
/// sequences and decodes them.
#[verifier::external_body]
fn string_from_utf8(bytes: Vec<u8>) -> (r: Option<String>)
    ensures
        r is Some <==> valid_utf8(bytes@),
        r is Some ==> r->Some_0@ == decode_utf8(bytes@),
{
    String::from_utf8(bytes).ok()
}

/// Reads the text field `data[at..at + width]`; `None` when it is not UTF-8.
pub fn read_text(data: &[u8], at: usize, width: usize) -> (r: Option<String>)
    requires
        at + width <= data@.len(),
    ensures
        r is Some <==> field_is_text(data@.subrange(at as int, at + width)),
        r is Some ==> r->Some_0@ == field_text(data@.subrange(at as int, at + width)),
{
    string_from_utf8(trimmed_field(data, at, width))
}

} // verus!

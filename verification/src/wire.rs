//! Byte-level building blocks of the fixed layouts: little-endian integers,
//! 32-byte fields, length-prefixed UTF-8 and overwriting the head of a buffer.

use vstd::prelude::*;
use vstd::utf8::{encode_utf8, valid_utf8};

verus! {

/// `256` raised to `width`.
pub open spec fn pow256(width: nat) -> nat
    decreases width,
{
    if width == 0 {
        1
    } else {
        256 * pow256((width - 1) as nat)
    }
}

/// The `width` least significant base-256 digits of `value`, least
/// significant first.
pub open spec fn le_bytes(value: nat, width: nat) -> Seq<u8>
    decreases width,
{
    if width == 0 {
        Seq::<u8>::empty()
    } else {
        seq![(value % 256) as u8] + le_bytes(value / 256, (width - 1) as nat)
    }
}

/// The number whose base-256 digits, least significant first, are `bytes`.
pub open spec fn le_value(bytes: Seq<u8>) -> nat
    decreases bytes.len(),
{
    if bytes.len() == 0 {
        0
    } else {
        bytes[0] as nat + 256 * le_value(bytes.skip(1))
    }
}

/// `buf` after `image` has been written over its first bytes: the image,
/// then what `buf` held behind it.
pub open spec fn written(buf: Seq<u8>, image: Seq<u8>) -> Seq<u8>
    recommends
        image.len() <= buf.len(),
{
    image + buf.skip(image.len() as int)
}

pub proof fn lemma_pow256_values()
    ensures
        pow256(0) == 1,
        pow256(1) == 0x100,
        pow256(2) == 0x1_0000,
        pow256(3) == 0x100_0000,
        pow256(4) == 0x1_0000_0000,
        pow256(5) == 0x100_0000_0000,
        pow256(6) == 0x1_0000_0000_0000,
        pow256(7) == 0x100_0000_0000_0000,
        pow256(8) == 0x1_0000_0000_0000_0000,
{
    reveal_with_fuel(pow256, 9);
}

pub proof fn lemma_le_bytes_len(value: nat, width: nat)
    ensures
        le_bytes(value, width).len() == width,
    decreases width,
{
    if width > 0 {
        lemma_le_bytes_len(value / 256, (width - 1) as nat);
    }
}

/// Every byte string denotes a number below `256` to its length.
pub proof fn lemma_le_value_bound(bytes: Seq<u8>)
    ensures
        le_value(bytes) < pow256(bytes.len()),
    decreases bytes.len(),
{
    if bytes.len() > 0 {
        lemma_le_value_bound(bytes.skip(1));
    }
}

/// Reading back the digits of a number that fits in `width` bytes gives
/// the number.
pub proof fn lemma_le_value_of_bytes(value: nat, width: nat)
    requires
        value < pow256(width),
    ensures
        le_value(le_bytes(value, width)) == value,
    decreases width,
{
    if width > 0 {
        let rest = le_bytes(value / 256, (width - 1) as nat);
        let all = le_bytes(value, width);
        lemma_le_bytes_len(value / 256, (width - 1) as nat);
        assert(all.skip(1) =~= rest);
        assert(value / 256 < pow256((width - 1) as nat)) by (nonlinear_arith)
            requires
                value < 256 * pow256((width - 1) as nat),
        ;
        lemma_le_value_of_bytes(value / 256, (width - 1) as nat);
    }
}

/// Writing out the number that a byte string denotes, at the string's own
/// width, gives the string.
pub proof fn lemma_le_bytes_of_value(bytes: Seq<u8>)
    ensures
        le_bytes(le_value(bytes), bytes.len()) == bytes,
    decreases bytes.len(),
{
    if bytes.len() > 0 {
        let tail = bytes.skip(1);
        lemma_le_bytes_of_value(tail);
        let v = le_value(bytes);
        assert(v % 256 == bytes[0] as nat && v / 256 == le_value(tail)) by (nonlinear_arith)
            requires
                v == bytes[0] as nat + 256 * le_value(tail),
                (bytes[0] as nat) < 256,
        ;
        assert(le_bytes(v, bytes.len()) =~= bytes);
    }
}

/// A buffer that was written over keeps its length, starts with the image
/// and keeps its old bytes behind it.
pub proof fn lemma_written(buf: Seq<u8>, image: Seq<u8>)
    requires
        image.len() <= buf.len(),
    ensures
        written(buf, image).len() == buf.len(),
        written(buf, image).subrange(0, image.len() as int) == image,
        written(buf, image).skip(image.len() as int) == buf.skip(image.len() as int),
{
    assert(written(buf, image).subrange(0, image.len() as int) =~= image);
    assert(written(buf, image).skip(image.len() as int) =~= buf.skip(image.len() as int));
}

/// Appends the `width` low bytes of `value`, least significant first.
pub fn put_le(out: &mut Vec<u8>, value: u64, width: usize)
    requires
        width <= 8,
    ensures
        final(out)@ == old(out)@ + le_bytes(value as nat, width as nat),
{
    let mut rest: u64 = value;
    let mut i: usize = 0;
    while i < width
        invariant
            i <= width,
            out@ + le_bytes(rest as nat, (width - i) as nat) == old(out)@ + le_bytes(
                value as nat,
                width as nat,
            ),
        decreases width - i,
    {
        let ghost before = out@;
        let ghost tail = le_bytes((rest / 256) as nat, (width - i - 1) as nat);
        out.push((rest % 256) as u8);
        assert(out@ + tail =~= before + le_bytes(rest as nat, (width - i) as nat));
        rest = rest / 256;
        i += 1;
    }
    assert(out@ + le_bytes(rest as nat, 0) =~= out@);
}

/// Reads the `width` bytes at `at` as a little-endian number.
pub fn read_le(src: &[u8], at: usize, width: usize) -> (value: u64)
    requires
        width <= 8,
        at + width <= src.len(),
    ensures
        value as nat == le_value(src@.subrange(at as int, at + width)),
{
    let mut value: u64 = 0;
    let mut i: usize = width;
    while i > 0
        invariant
            i <= width <= 8,
            at + width <= src.len(),
            value as nat == le_value(src@.subrange(at + i, at + width)),
        decreases i,
    {
        let ghost upper = src@.subrange(at + i, at + width);
        i -= 1;
        let ghost field = src@.subrange(at + i, at + width);
        proof {
            lemma_le_value_bound(upper);
            lemma_pow256_values();
            assert(field.skip(1) =~= upper);
            assert(pow256(upper.len()) <= pow256(7)) by {
                reveal_with_fuel(pow256, 9);
            }
        }
        value = value * 256 + src[at + i] as u64;
    }
    assert(src@.subrange(at + width, at + width) =~= Seq::<u8>::empty());
    value
}

/// Copies the 32 bytes at `at` into an array.
pub fn read_ref(src: &[u8], at: usize) -> (field: [u8; 32])
    requires
        at + 32 <= src.len(),
    ensures
        field@ == src@.subrange(at as int, at + 32),
{
    let mut field: [u8; 32] = [0u8; 32];
    let mut i: usize = 0;
    while i < 32
        invariant
            i <= 32,
            at + 32 <= src.len(),
            forall|j: int| 0 <= j < i ==> field@[j] == src@[at + j],
        decreases 32 - i,
    {
        field[i] = src[at + i];
        i += 1;
    }
    assert(field@ =~= src@.subrange(at as int, at + 32));
    field
}

/// Writes `image` over the first bytes of `dst`; the length of `dst` and
/// the bytes behind the image stay as they were.
pub fn overwrite(dst: &mut [u8], image: &[u8])
    requires
        image.len() <= old(dst).len(),
    ensures
        final(dst)@ == written(old(dst)@, image@),
{
    let n: usize = image.len();
    let mut i: usize = 0;
    while i < n
        invariant
            i <= n == image@.len() <= dst@.len(),
            dst@.len() == old(dst)@.len(),
            forall|j: int| 0 <= j < i ==> dst@[j] == image@[j],
            forall|j: int| i <= j < dst@.len() ==> dst@[j] == old(dst)@[j],
        decreases n - i,
    {
        dst[i] = image[i];
        i += 1;
    }
    assert(dst@ =~= written(old(dst)@, image@));
}

/// [`String::from_utf8`] of the standard library: the bytes become a string
/// exactly when they are well-formed UTF-8, and the string's UTF-8 encoding
/// is then those bytes.
#[verifier::external_body]
pub(crate) fn string_from_utf8(bytes: Vec<u8>) -> (text: Option<String>)
    ensures
        text.is_some() == valid_utf8(bytes@),
        text matches Some(s) ==> encode_utf8(s@) == bytes@,
{
    match String::from_utf8(bytes) {
        Ok(s) => Some(s),
        Err(_) => None,
    }
}

} // verus!

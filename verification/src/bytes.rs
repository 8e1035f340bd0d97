//! Big-endian integers in byte sequences.
use vstd::prelude::*;

verus! {

/// `256` to the power of `width`: one more than the largest value that
/// `width` bytes can hold.
pub open spec fn byte_span(width: nat) -> nat
    decreases width,
{
    if width == 0 {
        1
    } else {
        256 * byte_span((width - 1) as nat)
    }
}

/// The `width` least significant bytes of `value`, most significant first.
pub open spec fn be_bytes(value: nat, width: nat) -> Seq<u8>
    decreases width,
{
    if width == 0 {
        seq![]
    } else {
        be_bytes(value / 256, (width - 1) as nat).push((value % 256) as u8)
    }
}

/// The number that `bytes` spells, most significant byte first.
pub open spec fn be_value(bytes: Seq<u8>) -> nat
    decreases bytes.len(),
{
    if bytes.len() == 0 {
        0
    } else {
        be_value(bytes.drop_last()) * 256 + bytes.last() as nat
    }
}

/// The spans of the integer widths on the wire.
pub proof fn lemma_byte_spans()
    ensures
        byte_span(0) == 1,
        byte_span(1) == 0x100,
        byte_span(2) == 0x1_0000,
        byte_span(4) == 0x1_0000_0000,
        byte_span(8) == 0x1_0000_0000_0000_0000,
{
    reveal_with_fuel(byte_span, 9);
}

/// `be_bytes` yields exactly `width` bytes.
pub proof fn lemma_be_bytes_len(value: nat, width: nat)
    ensures
        be_bytes(value, width).len() == width,
    decreases width,
{
    if width > 0 {
        lemma_be_bytes_len(value / 256, (width - 1) as nat);
    }
}

/// A number that fits in `width` bytes is read back from them.
pub proof fn lemma_be_round_trip(value: nat, width: nat)
    requires
        value < byte_span(width),
    ensures
        be_bytes(value, width).len() == width,
        be_value(be_bytes(value, width)) == value,
    decreases width,
{
    if width > 0 {
        let shorter = (width - 1) as nat;
        lemma_be_round_trip(value / 256, shorter);
        assert(be_bytes(value, width).drop_last() =~= be_bytes(value / 256, shorter));
    }
}

/// Appends the `width` least significant bytes of `value`, most significant
/// first.
pub fn push_be(buf: &mut Vec<u8>, value: u64, width: usize)
    ensures
        final(buf)@ == old(buf)@ + be_bytes(value as nat, width as nat),
    decreases width,
{
    if width > 0 {
        push_be(buf, value / 256, width - 1);
        buf.push((value % 256) as u8);
        assert(buf@ =~= old(buf)@ + be_bytes(value as nat, width as nat));
    } else {
        assert(buf@ =~= old(buf)@ + be_bytes(value as nat, width as nat));
    }
}

/// Reads the big-endian number in `width` bytes of `buf` from `start` on.
pub fn read_be(buf: &[u8], start: usize, width: usize) -> (value: u64)
    requires
        start + width <= buf@.len(),
        width <= 8,
    ensures
        value == be_value(buf@.subrange(start as int, start + width)),
        value < byte_span(width as nat),
    decreases width,
{
    if width == 0 {
        0
    } else {
        let high: u64 = read_be(buf, start, width - 1);
        proof {
            assert(buf@.len() == buf.len());
            let bytes = buf@.subrange(start as int, start + width);
            assert(bytes.drop_last() =~= buf@.subrange(start as int, start + width - 1));
            lemma_byte_spans();
            reveal_with_fuel(byte_span, 9);
        }
        high * 256 + buf[start + (width - 1)] as u64
    }
}

/// Whether the two slices hold the same bytes.
pub fn same_bytes(a: &[u8], b: &[u8]) -> (same: bool)
    ensures
        same == (a@ == b@),
{
    if a.len() != b.len() {
        return false;
    }
    let mut i: usize = 0;
    while i < a.len()
        invariant
            i <= a.len(),
            a.len() == b.len(),
            forall|k: int| 0 <= k < i ==> a@[k] == b@[k],
        decreases a.len() - i,
    {
        if a[i] != b[i] {
            return false;
        }
        i += 1;
    }
    assert(a@ =~= b@);
    true
}

/// Appends every byte of `tail`.
pub fn push_all(buf: &mut Vec<u8>, tail: &[u8])
    ensures
        final(buf)@ == old(buf)@ + tail@,
{
    let ghost before = buf@;
    buf.extend_from_slice(tail);
    assert(buf@ =~= before + tail@);
}

/// The bytes of `buf` from `start` up to `end`.
pub fn copy_range(buf: &[u8], start: usize, end: usize) -> (copy: Vec<u8>)
    requires
        start <= end <= buf@.len(),
    ensures
        copy@ == buf@.subrange(start as int, end as int),
{
    let mut copy: Vec<u8> = Vec::new();
    let mut i: usize = start;
    while i < end
        invariant
            start <= i <= end <= buf@.len(),
            copy@ == buf@.subrange(start as int, i as int),
        decreases end - i,
    {
        copy.push(buf[i]);
        i += 1;
        assert(copy@ =~= buf@.subrange(start as int, i as int));
    }
    copy
}

/// Lexicographic order of byte sequences.
pub open spec fn bytes_le(a: Seq<u8>, b: Seq<u8>) -> bool
    decreases a.len(),
{
    if a.len() == 0 {
        true
    } else if b.len() == 0 {
        false
    } else if a[0] != b[0] {
        a[0] < b[0]
    } else {
        bytes_le(a.skip(1), b.skip(1))
    }
}

/// Of two byte sequences one comes before the other, or both are the same.
pub proof fn lemma_bytes_le_total(a: Seq<u8>, b: Seq<u8>)
    ensures
        bytes_le(a, b) || bytes_le(b, a),
    decreases a.len(),
{
    if a.len() > 0 && b.len() > 0 {
        lemma_bytes_le_total(a.skip(1), b.skip(1));
    }
}

pub proof fn lemma_bytes_le_antisymmetric(a: Seq<u8>, b: Seq<u8>)
    requires
        bytes_le(a, b),
        bytes_le(b, a),
    ensures
        a == b,
    decreases a.len(),
{
    if a.len() > 0 && b.len() > 0 {
        lemma_bytes_le_antisymmetric(a.skip(1), b.skip(1));
        assert(a =~= seq![a[0]] + a.skip(1));
        assert(b =~= seq![b[0]] + b.skip(1));
    } else {
        assert(a =~= b);
    }
}

pub proof fn lemma_bytes_le_transitive(a: Seq<u8>, b: Seq<u8>, c: Seq<u8>)
    requires
        bytes_le(a, b),
        bytes_le(b, c),
    ensures
        bytes_le(a, c),
    decreases a.len(),
{
    if a.len() > 0 && b.len() > 0 && c.len() > 0 && a[0] == b[0] && b[0] == c[0] {
        lemma_bytes_le_transitive(a.skip(1), b.skip(1), c.skip(1));
    }
}

/// Whether `a` comes before `b` or is the same.
pub fn le_bytes(a: &[u8], b: &[u8]) -> (le: bool)
    ensures
        le == bytes_le(a@, b@),
{
    let mut i: usize = 0;
    assert(a@.skip(0) =~= a@);
    assert(b@.skip(0) =~= b@);
    while i < a.len() && i < b.len()
        invariant
            i <= a@.len(),
            i <= b@.len(),
            bytes_le(a@, b@) == bytes_le(a@.skip(i as int), b@.skip(i as int)),
        decreases a@.len() - i,
    {
        if a[i] != b[i] {
            return a[i] < b[i];
        }
        proof {
            assert(a@.skip(i as int).skip(1) =~= a@.skip(i + 1));
            assert(b@.skip(i as int).skip(1) =~= b@.skip(i + 1));
        }
        i += 1;
    }
    i == a.len()
}

/// Two bytes as a number, the more significant one first.
pub open spec fn pair_at(bytes: Seq<u8>, at: int) -> nat {
    bytes[at] as nat * 0x100 + bytes[at + 1] as nat
}

/// Four bytes as a number, the most significant one first.
pub open spec fn quad_at(bytes: Seq<u8>, at: int) -> nat {
    pair_at(bytes, at) * 0x1_0000 + pair_at(bytes, at + 2)
}

/// Eight bytes as a number, the most significant one first.
pub open spec fn octet_at(bytes: Seq<u8>, at: int) -> nat {
    quad_at(bytes, at) * 0x1_0000_0000 + quad_at(bytes, at + 4)
}

/// Numbers are written with their most significant byte first, in the bytes
/// that their width gives them.
pub proof fn law_numbers_are_big_endian(value: nat)
    ensures
        value < 0x1_0000 ==> be_bytes(value, 2).len() == 2 && pair_at(be_bytes(value, 2), 0)
            == value,
        value < 0x1_0000_0000 ==> be_bytes(value, 4).len() == 4 && quad_at(be_bytes(value, 4), 0)
            == value,
        value <= u64::MAX ==> be_bytes(value, 8).len() == 8 && octet_at(be_bytes(value, 8), 0)
            == value,
{
    if value < 0x1_0000 {
        lemma_two_bytes(value);
    }
    if value < 0x1_0000_0000 {
        lemma_four_bytes(value);
    }
    if value <= u64::MAX {
        lemma_four_bytes(value / 0x1_0000_0000);
        let low = be_bytes(value, 8);
        reveal_with_fuel(be_bytes, 5);
        lemma_be_bytes_len(value, 8);
        let high = be_bytes(value / 256 / 256 / 256 / 256, 4);
        assert(value / 256 / 256 / 256 / 256 == value / 0x1_0000_0000);
        lemma_be_bytes_len(value / 0x1_0000_0000, 4);
        assert(low =~= high.push((value / 256 / 256 / 256 % 256) as u8).push(
            (value / 256 / 256 % 256) as u8,
        ).push((value / 256 % 256) as u8).push((value % 256) as u8));
        assert(quad_at(low, 0) == quad_at(high, 0));
    }
}

proof fn lemma_two_bytes(value: nat)
    requires
        value < 0x1_0000,
    ensures
        be_bytes(value, 2).len() == 2,
        pair_at(be_bytes(value, 2), 0) == value,
{
    reveal_with_fuel(be_bytes, 3);
    assert(be_bytes(value, 2) =~= seq![(value / 256 % 256) as u8, (value % 256) as u8]);
}

proof fn lemma_four_bytes(value: nat)
    requires
        value < 0x1_0000_0000,
    ensures
        be_bytes(value, 4).len() == 4,
        quad_at(be_bytes(value, 4), 0) == value,
{
    reveal_with_fuel(be_bytes, 5);
    let a = value / 256 / 256 / 256;
    let b = value / 256 / 256;
    let c = value / 256;
    assert(be_bytes(value, 4) =~= seq![
        (a % 256) as u8,
        (b % 256) as u8,
        (c % 256) as u8,
        (value % 256) as u8,
    ]);
    assert(a < 256);
}

} // verus!

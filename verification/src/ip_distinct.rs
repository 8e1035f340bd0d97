//! The text of a network address tells it apart from all others.
use vstd::prelude::*;
use crate::addr::IpAddr;
use crate::ip_text::{
    colon_text, hex, hex_digit, ip_text, longest_zeros, segments, v4_text, v6_text, zeros_from,
};
use crate::text::{decimal, digit_char};

verus! {

/// A character of a hexadecimal number.
spec fn is_hex(c: char) -> bool {
    '0' <= c <= '9' || 'a' <= c <= 'f'
}

spec fn all_hex(text: Seq<char>) -> bool {
    forall|i: int| 0 <= i < text.len() ==> is_hex(#[trigger] text[i])
}

proof fn lemma_hex_chars(n: nat)
    ensures
        hex(n).len() > 0,
        hex(n).len() == 1 <==> n < 16,
        all_hex(hex(n)),
    decreases n,
{
    lemma_hex_digit(n % 16, n % 16);
    if n >= 16 {
        lemma_hex_chars(n / 16);
    }
}

proof fn lemma_hex_digit(a: nat, b: nat)
    requires
        a < 16,
        b < 16,
    ensures
        is_hex(hex_digit(a)),
        hex_digit(a) == hex_digit(b) ==> a == b,
{
    assert(hex_digit(a) as nat == if a < 10 { 0x30 + a } else { 0x57 + a });
    assert(hex_digit(b) as nat == if b < 10 { 0x30 + b } else { 0x57 + b });
}

proof fn lemma_hex_unique(a: nat, b: nat)
    requires
        hex(a) == hex(b),
    ensures
        a == b,
    decreases a,
{
    lemma_hex_chars(a);
    lemma_hex_chars(b);
    lemma_hex_digit(a % 16, b % 16);
    assert(hex(a).last() == hex_digit(a % 16));
    assert(hex(b).last() == hex_digit(b % 16));
    if a >= 16 {
        assert(hex(a).drop_last() =~= hex(a / 16));
        assert(hex(b).drop_last() =~= hex(b / 16));
        lemma_hex_unique(a / 16, b / 16);
    }
}

proof fn lemma_digit(a: nat, b: nat)
    requires
        a < 10,
        b < 10,
    ensures
        is_hex(digit_char(a)),
        digit_char(a) == digit_char(b) ==> a == b,
{
    assert(digit_char(a) as nat == 0x30 + a);
    assert(digit_char(b) as nat == 0x30 + b);
}

proof fn lemma_decimal_chars(n: nat)
    ensures
        decimal(n).len() > 0,
        decimal(n).len() == 1 <==> n < 10,
        all_hex(decimal(n)),
    decreases n,
{
    lemma_digit(n % 10, n % 10);
    if n >= 10 {
        lemma_decimal_chars(n / 10);
    }
}

proof fn lemma_decimal_unique(a: nat, b: nat)
    requires
        decimal(a) == decimal(b),
    ensures
        a == b,
    decreases a,
{
    lemma_decimal_chars(a);
    lemma_decimal_chars(b);
    lemma_digit(a % 10, b % 10);
    assert(decimal(a).last() == digit_char(a % 10));
    assert(decimal(b).last() == digit_char(b % 10));
    if a >= 10 {
        assert(decimal(a).drop_last() =~= decimal(a / 10));
        assert(decimal(b).drop_last() =~= decimal(b / 10));
        lemma_decimal_unique(a / 10, b / 10);
    }
}

/// A separator that does not occur before splits a text in one way.
proof fn lemma_split_first(a: Seq<char>, b: Seq<char>, c: Seq<char>, d: Seq<char>, sep: char)
    requires
        a + seq![sep] + b == c + seq![sep] + d,
        !a.contains(sep),
        !c.contains(sep),
    ensures
        a == c,
        b == d,
{
    let t = a + seq![sep] + b;
    let u = c + seq![sep] + d;
    assert(t[a.len() as int] == sep);
    assert(u[c.len() as int] == sep);
    if a.len() < c.len() {
        assert(c[a.len() as int] == u[a.len() as int]);
    } else if c.len() < a.len() {
        assert(a[c.len() as int] == t[c.len() as int]);
    }
    assert(a =~= t.take(a.len() as int));
    assert(c =~= u.take(c.len() as int));
    assert(b =~= t.skip(a.len() as int + 1));
    assert(d =~= u.skip(c.len() as int + 1));
}

/// A separator that does not occur behind splits a text in one way.
proof fn lemma_split_last(a: Seq<char>, b: Seq<char>, c: Seq<char>, d: Seq<char>, sep: char)
    requires
        a + seq![sep] + b == c + seq![sep] + d,
        !b.contains(sep),
        !d.contains(sep),
    ensures
        a == c,
        b == d,
{
    let t = a + seq![sep] + b;
    let u = c + seq![sep] + d;
    assert(t[a.len() as int] == sep);
    assert(u[c.len() as int] == sep);
    assert(t.len() == u.len());
    if a.len() < c.len() {
        assert(b[c.len() - a.len() - 1] == t[c.len() as int]);
    } else if c.len() < a.len() {
        assert(d[a.len() - c.len() - 1] == u[a.len() as int]);
    }
    assert(a =~= t.take(a.len() as int));
    assert(c =~= u.take(c.len() as int));
    assert(b =~= t.skip(a.len() as int + 1));
    assert(d =~= u.skip(c.len() as int + 1));
}

/// No two colons follow each other, and none ends the text.
spec fn single_colons(text: Seq<char>) -> bool {
    &&& forall|i: int|
        0 <= i < text.len() - 1 ==> !(#[trigger] text[i] == ':' && text[i + 1] == ':')
    &&& text.len() > 0 ==> text.last() != ':'
}

/// Two colons split a text in one way, where none stand before.
proof fn lemma_split_double(a: Seq<char>, b: Seq<char>, c: Seq<char>, d: Seq<char>)
    requires
        a + "::"@ + b == c + "::"@ + d,
        single_colons(a),
        single_colons(c),
    ensures
        a == c,
        b == d,
{
    reveal_strlit("::");
    let t = a + "::"@ + b;
    let u = c + "::"@ + d;
    assert(t[a.len() as int] == ':' && t[a.len() as int + 1] == ':');
    assert(u[c.len() as int] == ':' && u[c.len() as int + 1] == ':');
    if a.len() < c.len() {
        assert(c[a.len() as int] == u[a.len() as int]);
        if a.len() + 1 < c.len() {
            assert(c[a.len() as int + 1] == u[a.len() as int + 1]);
        }
    } else if c.len() < a.len() {
        assert(a[c.len() as int] == t[c.len() as int]);
        if c.len() + 1 < a.len() {
            assert(a[c.len() as int + 1] == t[c.len() as int + 1]);
        }
    }
    assert(a =~= t.take(a.len() as int));
    assert(c =~= u.take(c.len() as int));
    assert(b =~= t.skip(a.len() as int + 2));
    assert(d =~= u.skip(c.len() as int + 2));
}

/// Four texts with full stops between them.
spec fn dotted(a: Seq<char>, b: Seq<char>, c: Seq<char>, d: Seq<char>) -> Seq<char> {
    a + seq!['.'] + (b + seq!['.'] + (c + seq!['.'] + d))
}

proof fn lemma_v4_dotted(v4: u32)
    ensures
        v4_text(v4) == dotted(
            decimal(v4_parts(v4).0),
            decimal(v4_parts(v4).1),
            decimal(v4_parts(v4).2),
            decimal(v4_parts(v4).3),
        ),
{
    reveal_strlit(".");
    assert("."@ =~= seq!['.']);
    let (p0, p1, p2, p3) = v4_parts(v4);
    assert(v4_text(v4) =~= dotted(decimal(p0), decimal(p1), decimal(p2), decimal(p3)));
}

/// The four bytes are the whole address.
proof fn lemma_from_parts(v4: u32)
    ensures
        v4 == v4_parts(v4).0 * 0x100_0000 + v4_parts(v4).1 * 0x1_0000 + v4_parts(v4).2 * 0x100
            + v4_parts(v4).3,
{
    let q1 = v4 / 0x1_0000;
    let q2 = v4 / 0x100;
    assert(q1 / 0x100 == v4 / 0x100_0000);
    assert(q2 / 0x100 == q1);
}

proof fn lemma_v4_unique(a: u32, b: u32)
    requires
        v4_text(a) == v4_text(b),
    ensures
        a == b,
{
    let (a0, a1, a2, a3) = v4_parts(a);
    let (b0, b1, b2, b3) = v4_parts(b);
    lemma_v4_dotted(a);
    lemma_v4_dotted(b);
    lemma_v4_chars(a);
    lemma_v4_chars(b);
    let dot = seq!['.'];
    let x = decimal(a2) + dot + decimal(a3);
    let y = decimal(b2) + dot + decimal(b3);
    lemma_split_first(
        decimal(a0),
        decimal(a1) + dot + x,
        decimal(b0),
        decimal(b1) + dot + y,
        '.',
    );
    lemma_split_first(decimal(a1), x, decimal(b1), y, '.');
    lemma_split_first(decimal(a2), decimal(a3), decimal(b2), decimal(b3), '.');
    lemma_decimal_unique(a0, b0);
    lemma_decimal_unique(a1, b1);
    lemma_decimal_unique(a2, b2);
    lemma_decimal_unique(a3, b3);
    lemma_from_parts(a);
    lemma_from_parts(b);
}

/// The four bytes of an IPv4 address.
spec fn v4_parts(v4: u32) -> (nat, nat, nat, nat) {
    (
        (v4 / 0x100_0000) as nat,
        (v4 / 0x1_0000 % 0x100) as nat,
        (v4 / 0x100 % 0x100) as nat,
        (v4 % 0x100) as nat,
    )
}

/// The text of an IPv4 address has a full stop and no colon.
proof fn lemma_v4_chars(v4: u32)
    ensures
        v4_text(v4).contains('.'),
        !v4_text(v4).contains(':'),
        !decimal(v4_parts(v4).0).contains('.'),
        !decimal(v4_parts(v4).1).contains('.'),
        !decimal(v4_parts(v4).2).contains('.'),
{
    reveal_strlit(".");
    let (p0, p1, p2, p3) = v4_parts(v4);
    lemma_decimal_chars(p0);
    lemma_decimal_chars(p1);
    lemma_decimal_chars(p2);
    lemma_decimal_chars(p3);
    let text = v4_text(v4);
    assert(text[decimal(p0).len() as int] == '.');
    assert forall|i: int| 0 <= i < text.len() implies is_hex(#[trigger] text[i]) || text[i]
        == '.' by {
        let l0 = decimal(p0).len();
        let l1 = l0 + 1 + decimal(p1).len();
        let l2 = l1 + 1 + decimal(p2).len();
        if i < l0 {
            assert(text[i] == decimal(p0)[i]);
        } else if l0 < i < l1 {
            assert(text[i] == decimal(p1)[i - l0 - 1]);
        } else if l1 < i < l2 {
            assert(text[i] == decimal(p2)[i - l1 - 1]);
        } else if l2 < i {
            assert(text[i] == decimal(p3)[i - l2 - 1]);
        }
    }
}

/// What the text of segments looks like.
proof fn lemma_colon_chars(segs: Seq<u16>)
    ensures
        colon_text(segs).len() == 0 <==> segs.len() == 0,
        single_colons(colon_text(segs)),
        !colon_text(segs).contains('.'),
        colon_text(segs).contains(':') <==> segs.len() > 1,
    decreases segs.len(),
{
    reveal_strlit(":");
    let text = colon_text(segs);
    if segs.len() == 1 {
        lemma_hex_chars(segs[0] as nat);
    } else if segs.len() > 1 {
        let front = colon_text(segs.drop_last());
        let last = hex(segs.last() as nat);
        lemma_colon_chars(segs.drop_last());
        lemma_hex_chars(segs.last() as nat);
        assert(text[front.len() as int] == ':');
        assert(text.last() == last.last());
        assert forall|i: int| 0 <= i < text.len() implies #[trigger] text[i] != '.' by {
            if i < front.len() {
                assert(text[i] == front[i]);
                assert(front.contains(front[i]));
            } else if i > front.len() {
                assert(text[i] == last[i - front.len() - 1]);
            }
        }
        assert forall|i: int| 0 <= i < text.len() - 1 implies !(#[trigger] text[i] == ':' && text[i
            + 1] == ':') by {
            if i + 1 < front.len() {
                assert(text[i] == front[i] && text[i + 1] == front[i + 1]);
            } else if i + 1 == front.len() {
                assert(text[i] == front.last());
            } else {
                assert(text[i + 1] == last[i - front.len()]);
            }
        }
    }
}

proof fn lemma_colon_unique(a: Seq<u16>, b: Seq<u16>)
    requires
        colon_text(a) == colon_text(b),
    ensures
        a == b,
    decreases a.len(),
{
    lemma_colon_chars(a);
    lemma_colon_chars(b);
    if a.len() == 0 {
        assert(a =~= b);
    } else if a.len() == 1 {
        lemma_hex_unique(a[0] as nat, b[0] as nat);
        assert(a =~= b);
    } else {
        reveal_strlit(":");
        assert(":"@ =~= seq![':']);
        lemma_hex_chars(a.last() as nat);
        lemma_hex_chars(b.last() as nat);
        lemma_split_last(
            colon_text(a.drop_last()),
            hex(a.last() as nat),
            colon_text(b.drop_last()),
            hex(b.last() as nat),
            ':',
        );
        lemma_hex_unique(a.last() as nat, b.last() as nat);
        lemma_colon_unique(a.drop_last(), b.drop_last());
        assert(a =~= a.drop_last().push(a.last()));
        assert(b =~= b.drop_last().push(b.last()));
    }
}

/// The segments that are counted are there, and are zero.
proof fn lemma_zeros(segs: Seq<u16>, start: int)
    requires
        0 <= start <= segs.len(),
    ensures
        start + zeros_from(segs, start) <= segs.len(),
        forall|k: int| start <= k < start + zeros_from(segs, start) ==> #[trigger] segs[k] == 0,
    decreases segs.len() - start,
{
    if start < segs.len() && segs[start] == 0 {
        lemma_zeros(segs, start + 1);
    }
}

proof fn lemma_longest_zeros(segs: Seq<u16>, n: nat)
    ensures
        0 <= longest_zeros(segs, n),
        longest_zeros(segs, n) < n || n == 0,
    decreases n,
{
    if n > 1 {
        lemma_longest_zeros(segs, (n - 1) as nat);
    }
}

/// The segments are the whole address.
proof fn lemma_segments_unique(a: u128, b: u128)
    requires
        segments(a) == segments(b),
    ensures
        a == b,
{
    lemma_from_segments(a);
    lemma_from_segments(b);
    let s = segments(a);
    let t = segments(b);
    assert(s[0] == t[0] && s[1] == t[1] && s[2] == t[2] && s[3] == t[3] && s[4] == t[4] && s[5]
        == t[5] && s[6] == t[6] && s[7] == t[7]);
}

proof fn lemma_from_segments(v6: u128)
    ensures
        v6 == segments(v6)[0] * 0x1_0000_0000_0000_0000_0000_0000_0000 + segments(v6)[1]
            * 0x1_0000_0000_0000_0000_0000_0000 + segments(v6)[2] * 0x1_0000_0000_0000_0000_0000
            + segments(v6)[3] * 0x1_0000_0000_0000_0000 + segments(v6)[4] * 0x1_0000_0000_0000
            + segments(v6)[5] * 0x1_0000_0000 + segments(v6)[6] * 0x1_0000 + segments(v6)[7],
{
    let q0 = v6 / 0x1_0000_0000_0000_0000_0000_0000_0000;
    let q1 = v6 / 0x1_0000_0000_0000_0000_0000_0000;
    let q2 = v6 / 0x1_0000_0000_0000_0000_0000;
    let q3 = v6 / 0x1_0000_0000_0000_0000;
    let q4 = v6 / 0x1_0000_0000_0000;
    let q5 = v6 / 0x1_0000_0000;
    let q6 = v6 / 0x1_0000;
    assert(q0 < 0x1_0000);
    assert(q1 / 0x1_0000 == q0);
    assert(q2 / 0x1_0000 == q1);
    assert(q3 / 0x1_0000 == q2);
    assert(q4 / 0x1_0000 == q3);
    assert(q5 / 0x1_0000 == q4);
    assert(q6 / 0x1_0000 == q5);
}

/// Whether the address is an IPv4 address in the form of an IPv6 address.
spec fn is_mapped(v6: u128) -> bool {
    v6 / 0x1_0000_0000 == 0xffff
}

/// The text of an IPv6 address has a colon, and a full stop only where it holds
/// an IPv4 address.
proof fn lemma_v6_chars(v6: u128)
    ensures
        v6_text(v6).contains(':'),
        v6_text(v6).contains('.') <==> is_mapped(v6),
{
    reveal_strlit("::ffff:");
    reveal_strlit("::");
    let text = v6_text(v6);
    let segs = segments(v6);
    let start = longest_zeros(segs, 8);
    let len = zeros_from(segs, start);
    lemma_longest_zeros(segs, 8);
    lemma_zeros(segs, start);
    if is_mapped(v6) {
        let v4 = (v6 % 0x1_0000_0000) as u32;
        lemma_v4_chars(v4);
        let i = choose|i: int| 0 <= i < v4_text(v4).len() && v4_text(v4)[i] == '.';
        assert(text[7 + i] == '.');
        assert(text[0] == ':');
    } else if len > 1 {
        let front = colon_text(segs.take(start));
        let back = colon_text(segs.skip(start + len));
        lemma_colon_chars(segs.take(start));
        lemma_colon_chars(segs.skip(start + len));
        assert(text[front.len() as int] == ':');
        assert forall|i: int| 0 <= i < text.len() implies #[trigger] text[i] != '.' by {
            if i < front.len() {
                assert(text[i] == front[i]);
                assert(front.contains(front[i]));
            } else if i >= front.len() + 2 {
                assert(text[i] == back[i - front.len() - 2]);
                assert(back.contains(back[i - front.len() - 2]));
            }
        }
    } else {
        lemma_colon_chars(segs);
    }
}

proof fn lemma_v6_unique(a: u128, b: u128)
    requires
        v6_text(a) == v6_text(b),
    ensures
        a == b,
{
    lemma_v6_chars(a);
    lemma_v6_chars(b);
    if is_mapped(a) {
        let x = (a % 0x1_0000_0000) as u32;
        let y = (b % 0x1_0000_0000) as u32;
        let head = "::ffff:"@;
        assert(v4_text(x) =~= v6_text(a).skip(head.len() as int));
        assert(v4_text(y) =~= v6_text(b).skip(head.len() as int));
        lemma_v4_unique(x, y);
    } else {
        let s = segments(a);
        let t = segments(b);
        let i = longest_zeros(s, 8);
        let j = longest_zeros(t, 8);
        let m = zeros_from(s, i);
        let n = zeros_from(t, j);
        lemma_longest_zeros(s, 8);
        lemma_longest_zeros(t, 8);
        lemma_zeros(s, i);
        lemma_zeros(t, j);
        lemma_colon_chars(s);
        lemma_colon_chars(t);
        lemma_colon_chars(s.take(i));
        lemma_colon_chars(t.take(j));
        if m > 1 && n > 1 {
            lemma_split_double(
                colon_text(s.take(i)),
                colon_text(s.skip(i + m)),
                colon_text(t.take(j)),
                colon_text(t.skip(j + n)),
            );
            lemma_colon_unique(s.take(i), t.take(j));
            lemma_colon_unique(s.skip(i + m), t.skip(j + n));
            assert(s.take(i).len() == t.take(j).len());
            assert(s.skip(i + m).len() == t.skip(j + n).len());
            assert forall|k: int| 0 <= k < 8 implies s[k] == t[k] by {
                if k < i {
                    assert(s[k] == s.take(i)[k] && t[k] == t.take(j)[k]);
                } else if k >= i + m {
                    assert(s[k] == s.skip(i + m)[k - i - m]);
                    assert(t[k] == t.skip(j + n)[k - j - n]);
                }
            }
            assert(s =~= t);
        } else if m <= 1 && n <= 1 {
            lemma_colon_unique(s, t);
        } else {
            reveal_strlit("::");
            let (text, at) = if m > 1 {
                (v6_text(a), colon_text(s.take(i)).len() as int)
            } else {
                (v6_text(b), colon_text(t.take(j)).len() as int)
            };
            assert(text[at] == ':' && text[at + 1] == ':');
        }
        lemma_segments_unique(a, b);
    }
}

/// Distinct addresses have distinct texts.
pub proof fn law_texts_tell_addresses_apart(a: IpAddr, b: IpAddr)
    ensures
        ip_text(a) == ip_text(b) <==> a == b,
{
    if ip_text(a) == ip_text(b) {
        match (a, b) {
            (IpAddr::V4(x), IpAddr::V4(y)) => lemma_v4_unique(x, y),
            (IpAddr::V6(x), IpAddr::V6(y)) => lemma_v6_unique(x, y),
            (IpAddr::V4(x), IpAddr::V6(y)) | (IpAddr::V6(y), IpAddr::V4(x)) => {
                lemma_v4_chars(x);
                lemma_v6_chars(y);
            },
        }
    }
}

} // verus!

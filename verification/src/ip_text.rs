//! The text of network addresses.
use vstd::prelude::*;
use vstd::string::StringExecFns;
use crate::addr::{IpAddr, SocketAddr};
use crate::text::{decimal, push_decimal};

verus! {

/// The hexadecimal digit of a number below sixteen, in lower case.
pub open spec fn hex_digit(d: nat) -> char {
    if d < 10 {
        (0x30 + d) as char
    } else {
        (0x57 + d) as char
    }
}

/// `n` in hexadecimal, without leading zeros.
pub open spec fn hex(n: nat) -> Seq<char>
    decreases n,
{
    if n < 16 {
        seq![hex_digit(n)]
    } else {
        hex(n / 16).push(hex_digit(n % 16))
    }
}

/// The four bytes in decimal, with dots between them.
pub open spec fn v4_text(v4: u32) -> Seq<char> {
    decimal((v4 / 0x100_0000) as nat) + "."@ + decimal((v4 / 0x1_0000 % 0x100) as nat) + "."@
        + decimal((v4 / 0x100 % 0x100) as nat) + "."@ + decimal((v4 % 0x100) as nat)
}

/// The eight 16-bit segments of an IPv6 address.
pub open spec fn segments(v6: u128) -> Seq<u16> {
    seq![
        (v6 / 0x1_0000_0000_0000_0000_0000_0000_0000) as u16,
        (v6 / 0x1_0000_0000_0000_0000_0000_0000 % 0x1_0000) as u16,
        (v6 / 0x1_0000_0000_0000_0000_0000 % 0x1_0000) as u16,
        (v6 / 0x1_0000_0000_0000_0000 % 0x1_0000) as u16,
        (v6 / 0x1_0000_0000_0000 % 0x1_0000) as u16,
        (v6 / 0x1_0000_0000 % 0x1_0000) as u16,
        (v6 / 0x1_0000 % 0x1_0000) as u16,
        (v6 % 0x1_0000) as u16,
    ]
}

/// How many zero segments follow each other from `start` on.
pub open spec fn zeros_from(segs: Seq<u16>, start: int) -> nat
    decreases segs.len() - start,
{
    if 0 <= start < segs.len() && segs[start] == 0 {
        1 + zeros_from(segs, start + 1)
    } else {
        0
    }
}

/// Where the longest run of zero segments among the first `n` starts is: the
/// first of them, where several are as long.
pub open spec fn longest_zeros(segs: Seq<u16>, n: nat) -> int
    decreases n,
{
    if n <= 1 {
        0
    } else {
        let best = longest_zeros(segs, (n - 1) as nat);
        if zeros_from(segs, n - 1) > zeros_from(segs, best) {
            n - 1
        } else {
            best
        }
    }
}

/// The segments in hexadecimal, with colons between them.
pub open spec fn colon_text(segs: Seq<u16>) -> Seq<char>
    decreases segs.len(),
{
    if segs.len() == 0 {
        seq![]
    } else if segs.len() == 1 {
        hex(segs[0] as nat)
    } else {
        colon_text(segs.drop_last()) + ":"@ + hex(segs.last() as nat)
    }
}

/// The text of an IPv6 address: the first longest run of two or more zero
/// segments is written `::`; an IPv4-mapped address ends like an IPv4 address.
pub open spec fn v6_text(v6: u128) -> Seq<char> {
    let segs = segments(v6);
    let start = longest_zeros(segs, 8);
    let len = zeros_from(segs, start);
    if v6 / 0x1_0000_0000 == 0xffff {
        "::ffff:"@ + v4_text((v6 % 0x1_0000_0000) as u32)
    } else if len > 1 {
        colon_text(segs.take(start)) + "::"@ + colon_text(segs.skip(start + len))
    } else {
        colon_text(segs)
    }
}

pub open spec fn ip_text(ip: IpAddr) -> Seq<char> {
    match ip {
        IpAddr::V4(v4) => v4_text(v4),
        IpAddr::V6(v6) => v6_text(v6),
    }
}

/// Appends `n` in hexadecimal.
pub fn push_hex(out: &mut String, n: u16)
    ensures
        final(out)@ == old(out)@ + hex(n as nat),
    decreases n,
{
    if n >= 16 {
        push_hex(out, n / 16);
    }
    let d: u8 = (n % 16) as u8;
    let digit: u8 = if d < 10 {
        0x30 + d
    } else {
        0x57 + d
    };
    out.push(digit as char);
    assert(out@ =~= old(out)@ + hex(n as nat));
}

fn push_v4(out: &mut String, v4: u32)
    ensures
        final(out)@ == old(out)@ + v4_text(v4),
{
    push_decimal(out, (v4 / 0x100_0000) as u64);
    out.append(".");
    push_decimal(out, (v4 / 0x1_0000 % 0x100) as u64);
    out.append(".");
    push_decimal(out, (v4 / 0x100 % 0x100) as u64);
    out.append(".");
    push_decimal(out, (v4 % 0x100) as u64);
    assert(out@ =~= old(out)@ + v4_text(v4));
}

/// How many zero segments follow each other from `start` on.
fn count_zeros(segs: &[u16], start: usize) -> (count: usize)
    requires
        start <= segs@.len(),
    ensures
        count == zeros_from(segs@, start as int),
        start + count <= segs@.len(),
    decreases segs@.len() - start,
{
    if start < segs.len() && segs[start] == 0 {
        1 + count_zeros(segs, start + 1)
    } else {
        0
    }
}

/// Appends some of the segments in hexadecimal, with colons between them.
fn push_colons(out: &mut String, segs: &[u16], from: usize, to: usize)
    requires
        from <= to <= segs@.len(),
    ensures
        final(out)@ == old(out)@ + colon_text(segs@.subrange(from as int, to as int)),
{
    let ghost before = out@;
    let mut i: usize = from;
    assert(out@ =~= before + colon_text(segs@.subrange(from as int, from as int)));
    while i < to
        invariant
            from <= i <= to <= segs@.len(),
            out@ == before + colon_text(segs@.subrange(from as int, i as int)),
        decreases to - i,
    {
        let ghost then = out@;
        if i > from {
            out.append(":");
        }
        push_hex(out, segs[i]);
        proof {
            let now = segs@.subrange(from as int, i + 1);
            assert(now.drop_last() =~= segs@.subrange(from as int, i as int));
            assert(now.last() == segs@[i as int]);
            assert(out@ =~= before + colon_text(now));
        }
        i += 1;
    }
}

fn push_v6(out: &mut String, v6: u128)
    ensures
        final(out)@ == old(out)@ + v6_text(v6),
{
    if v6 / 0x1_0000_0000 == 0xffff {
        out.append("::ffff:");
        push_v4(out, (v6 % 0x1_0000_0000) as u32);
        assert(out@ =~= old(out)@ + v6_text(v6));
        return ;
    }
    let array: [u16; 8] = [
        (v6 / 0x1_0000_0000_0000_0000_0000_0000_0000) as u16,
        (v6 / 0x1_0000_0000_0000_0000_0000_0000 % 0x1_0000) as u16,
        (v6 / 0x1_0000_0000_0000_0000_0000 % 0x1_0000) as u16,
        (v6 / 0x1_0000_0000_0000_0000 % 0x1_0000) as u16,
        (v6 / 0x1_0000_0000_0000 % 0x1_0000) as u16,
        (v6 / 0x1_0000_0000 % 0x1_0000) as u16,
        (v6 / 0x1_0000 % 0x1_0000) as u16,
        (v6 % 0x1_0000) as u16,
    ];
    let segs: &[u16] = array.as_slice();
    assert(segs@ =~= segments(v6));
    let mut start: usize = 0;
    let mut len: usize = count_zeros(segs, 0);
    let mut n: usize = 1;
    while n < 8
        invariant
            1 <= n <= 8,
            segs@.len() == 8,
            start < 8,
            start == longest_zeros(segs@, n as nat),
            len == zeros_from(segs@, start as int),
            start + len <= 8,
        decreases 8 - n,
    {
        let run: usize = count_zeros(segs, n);
        if run > len {
            start = n;
            len = run;
        }
        n += 1;
    }
    if len > 1 {
        push_colons(out, segs, 0, start);
        out.append("::");
        push_colons(out, segs, start + len, 8);
        proof {
            assert(segs@.subrange(0, start as int) =~= segs@.take(start as int));
            assert(segs@.subrange(start + len, 8) =~= segs@.skip(start + len));
            assert(out@ =~= old(out)@ + v6_text(v6));
        }
    } else {
        push_colons(out, segs, 0, 8);
        assert(segs@.subrange(0, 8) =~= segs@);
    }
}

impl IpAddr {
    /// The text of the address.
    pub fn to_text(&self) -> (text: String)
        ensures
            text@ == ip_text(*self),
    {
        let mut out = String::new();
        match *self {
            IpAddr::V4(v4) => push_v4(&mut out, v4),
            IpAddr::V6(v6) => push_v6(&mut out, v6),
        }
        assert(out@ =~= ip_text(*self));
        out
    }
}

/// The text of a socket's address: an IPv6 address stands in brackets, with its
/// scope behind a percent sign where it has one.
pub open spec fn socket_text(addr: SocketAddr) -> Seq<char> {
    (match addr.ip {
        IpAddr::V4(v4) => v4_text(v4),
        IpAddr::V6(v6) => if addr.scope_id == 0 {
            "["@ + v6_text(v6) + "]"@
        } else {
            "["@ + v6_text(v6) + "%"@ + decimal(addr.scope_id as nat) + "]"@
        },
    }) + ":"@ + decimal(addr.port as nat)
}

impl SocketAddr {
    /// The text of the address.
    pub fn to_text(&self) -> (text: String)
        ensures
            text@ == socket_text(*self),
    {
        let mut out = String::new();
        match self.ip {
            IpAddr::V4(v4) => push_v4(&mut out, v4),
            IpAddr::V6(v6) => {
                out.append("[");
                push_v6(&mut out, v6);
                if self.scope_id != 0 {
                    out.append("%");
                    push_decimal(&mut out, self.scope_id as u64);
                }
                out.append("]");
            },
        }
        out.append(":");
        push_decimal(&mut out, self.port as u64);
        assert(out@ =~= socket_text(*self));
        out
    }
}

/// An IPv4 address is written as its four bytes in decimal, the most significant
/// first, with full stops between them.
pub proof fn law_v4_texts(a: u8, b: u8, c: u8, d: u8)
    ensures
        v4_text((a * 0x100_0000 + b * 0x1_0000 + c * 0x100 + d) as u32) == decimal(a as nat)
            + "."@ + decimal(b as nat) + "."@ + decimal(c as nat) + "."@ + decimal(d as nat),
{
    let v4 = (a * 0x100_0000 + b * 0x1_0000 + c * 0x100 + d) as u32;
    assert(v4 / 0x100_0000 == a);
    assert(v4 / 0x1_0000 % 0x100 == b);
    assert(v4 / 0x100 % 0x100 == c);
    assert(v4 % 0x100 == d);
}

/// Hexadecimal numbers are written in lower case, in digits that spell them.
pub proof fn law_hex_spells_the_number(n: nat)
    ensures
        hex_value(hex(n)) == n,
        forall|i: int|
            0 <= i < hex(n).len() ==> '0' <= #[trigger] hex(n)[i] <= '9' || 'a' <= hex(n)[i] <= 'f',
    decreases n,
{
    let d = n % 16;
    assert(hex_digit(d) as int == if d < 10 {
        0x30 + d
    } else {
        0x57 + d
    });
    if n < 16 {
        assert(hex(n).drop_last() =~= Seq::<char>::empty());
        reveal_with_fuel(hex_value, 2);
    } else {
        law_hex_spells_the_number(n / 16);
        assert(hex(n).drop_last() =~= hex(n / 16));
    }
    assert forall|i: int| 0 <= i < hex(n).len() implies '0' <= #[trigger] hex(n)[i] <= '9' || 'a'
        <= hex(n)[i] <= 'f' by {
        if i == hex(n).len() - 1 {
            assert(hex(n)[i] == hex_digit(d));
        } else {
            assert(hex(n)[i] == hex(n / 16)[i]);
        }
    }
}

/// The number that hexadecimal digits spell.
pub open spec fn hex_value(text: Seq<char>) -> int
    decreases text.len(),
{
    if text.len() == 0 {
        0
    } else {
        let c = text.last();
        hex_value(text.drop_last()) * 16 + (if c <= '9' {
            c as int - '0' as int
        } else {
            c as int - 'a' as int + 10
        })
    }
}

/// Two colons stand for the longest run of zero segments, the first of them where
/// several are as long, and for nothing shorter than two.
pub proof fn law_the_longest_run_is_shortened(segs: Seq<u16>, n: nat, start: int)
    requires
        0 < n <= segs.len(),
        0 <= start < n,
    ensures
        0 <= longest_zeros(segs, n) < n,
        zeros_from(segs, start) <= zeros_from(segs, longest_zeros(segs, n)),
        start < longest_zeros(segs, n) ==> zeros_from(segs, start) < zeros_from(
            segs,
            longest_zeros(segs, n),
        ),
    decreases n,
{
    if n > 1 {
        law_the_longest_run_is_shortened(segs, (n - 1) as nat, 0);
        if start < n - 1 {
            law_the_longest_run_is_shortened(segs, (n - 1) as nat, start);
        }
    }
}

/// A socket is written with its port behind a colon; an IPv6 address stands in
/// brackets, with its scope where it has one.
pub proof fn law_socket_texts(v4: u32, v6: u128, port: u16, scope_id: u32)
    requires
        scope_id != 0,
    ensures
        socket_text(SocketAddr { ip: IpAddr::V4(v4), port, flow_info: 0, scope_id: 0 })
            == v4_text(v4) + ":"@ + decimal(port as nat),
        socket_text(SocketAddr { ip: IpAddr::V6(v6), port, flow_info: 0, scope_id: 0 }) == "["@
            + v6_text(v6) + "]"@ + ":"@ + decimal(port as nat),
        socket_text(SocketAddr { ip: IpAddr::V6(v6), port, flow_info: 0, scope_id }) == "["@
            + v6_text(v6) + "%"@ + decimal(scope_id as nat) + "]"@ + ":"@ + decimal(port as nat),
{
}

} // verus!

//! Socket addresses as plain values, and their text.
use vstd::prelude::*;
use vstd::string::*;

use crate::text::{decimal, hexadecimal, push_decimal, push_hexadecimal};

verus! {

/// An internet socket address. An IP address is held as one big-endian integer.
#[derive(Debug, Clone, Copy, PartialEq, Eq, Structural, PartialOrd, Ord, Hash)]
#[allow(inconsistent_fields)]
pub enum SocketAddr {
    V4 { ip: u32, port: u16 },
    V6 { ip: u128, port: u16, flowinfo: u32, scope_id: u32 },
}

/// The four parts of an IPv4 address, separated by dots.
pub open spec fn ipv4_text(ip: u32) -> Seq<char> {
    decimal(((ip >> 24u32) & 0xff) as nat) + "."@ + decimal(((ip >> 16u32) & 0xff) as nat) + "."@
        + decimal(((ip >> 8u32) & 0xff) as nat) + "."@ + decimal((ip & 0xff) as nat)
}

/// The eight parts of an IPv6 address, most significant first.
pub open spec fn segments(ip: u128) -> Seq<u16> {
    seq![
        ((ip >> 112u128) & 0xffff) as u16,
        ((ip >> 96u128) & 0xffff) as u16,
        ((ip >> 80u128) & 0xffff) as u16,
        ((ip >> 64u128) & 0xffff) as u16,
        ((ip >> 48u128) & 0xffff) as u16,
        ((ip >> 32u128) & 0xffff) as u16,
        ((ip >> 16u128) & 0xffff) as u16,
        (ip & 0xffff) as u16,
    ]
}

/// A run of consecutive parts.
#[derive(Debug, Clone, Copy, PartialEq, Eq, Structural)]
pub struct Run {
    pub start: usize,
    pub len: usize,
}

/// How many parts at the end of `parts` are zero.
pub open spec fn trailing_zeros(parts: Seq<u16>) -> nat
    decreases parts.len(),
{
    if parts.len() > 0 && parts.last() == 0 {
        1 + trailing_zeros(parts.drop_last())
    } else {
        0
    }
}

/// The longest run of zeros, the first one where several are as long.
pub open spec fn longest_zeros(parts: Seq<u16>) -> (int, nat)
    decreases parts.len(),
{
    if parts.len() == 0 {
        (0, 0)
    } else {
        let best = longest_zeros(parts.drop_last());
        let here = trailing_zeros(parts);
        if here > best.1 {
            (parts.len() - here, here)
        } else {
            best
        }
    }
}

/// Parts in hexadecimal, separated by colons.
pub open spec fn parts_text(parts: Seq<u16>) -> Seq<char>
    decreases parts.len(),
{
    if parts.len() == 0 {
        Seq::empty()
    } else if parts.len() == 1 {
        hexadecimal(parts[0] as nat)
    } else {
        parts_text(parts.drop_last()) + ":"@ + hexadecimal(parts.last() as nat)
    }
}

/// An IPv6 address holds an IPv4 address after eighty zero bits and sixteen ones.
pub open spec fn is_ipv4_mapped(ip: u128) -> bool {
    ip >> 32u128 == 0xffff
}

/// The text of an IPv6 address: an IPv4-mapped one shows the IPv4 address, and
/// otherwise two colons stand for the longest run of more than one zero part.
pub open spec fn ipv6_text(ip: u128) -> Seq<char> {
    if is_ipv4_mapped(ip) {
        "::ffff:"@ + ipv4_text((ip & 0xffff_ffff) as u32)
    } else {
        let parts = segments(ip);
        let (start, len) = longest_zeros(parts);
        if len > 1 {
            parts_text(parts.take(start)) + "::"@ + parts_text(parts.skip(start + len))
        } else {
            parts_text(parts)
        }
    }
}

fn push_ipv4(out: &mut String, ip: u32)
    ensures
        final(out)@ == old(out)@ + ipv4_text(ip),
{
    push_decimal(out, ((ip >> 24u32) & 0xff) as u64);
    out.append(".");
    push_decimal(out, ((ip >> 16u32) & 0xff) as u64);
    out.append(".");
    push_decimal(out, ((ip >> 8u32) & 0xff) as u64);
    out.append(".");
    push_decimal(out, (ip & 0xff) as u64);
    assert(out@ =~= old(out)@ + ipv4_text(ip));
}

fn split_segments(ip: u128) -> (result: Vec<u16>)
    ensures
        result@ == segments(ip),
{
    let result: Vec<u16> =
        vec![
        ((ip >> 112u128) & 0xffff) as u16,
        ((ip >> 96u128) & 0xffff) as u16,
        ((ip >> 80u128) & 0xffff) as u16,
        ((ip >> 64u128) & 0xffff) as u16,
        ((ip >> 48u128) & 0xffff) as u16,
        ((ip >> 32u128) & 0xffff) as u16,
        ((ip >> 16u128) & 0xffff) as u16,
        (ip & 0xffff) as u16,
    ];
    assert(result@ =~= segments(ip));
    result
}

fn find_zeros(parts: &Vec<u16>) -> (result: Run)
    ensures
        (result.start as int, result.len as nat) == longest_zeros(parts@),
        result.start + result.len <= parts@.len(),
{
    let mut best = Run { start: 0, len: 0 };
    let mut here: usize = 0;
    let mut i: usize = 0;
    while i < parts.len()
        invariant
            i <= parts@.len(),
            here <= i,
            here == trailing_zeros(parts@.take(i as int)),
            (best.start as int, best.len as nat) == longest_zeros(parts@.take(i as int)),
            best.start + best.len <= i,
        decreases parts@.len() - i,
    {
        assert(parts@.take(i as int + 1).drop_last() =~= parts@.take(i as int));
        if parts[i] == 0 {
            here += 1;
        } else {
            here = 0;
        }
        if here > best.len {
            best = Run { start: i + 1 - here, len: here };
        }
        i += 1;
    }
    assert(parts@.take(i as int) =~= parts@);
    best
}

fn push_parts(out: &mut String, parts: &Vec<u16>, from: usize, to: usize)
    requires
        from <= to <= parts@.len(),
    ensures
        final(out)@ == old(out)@ + parts_text(parts@.subrange(from as int, to as int)),
{
    let mut i: usize = from;
    assert(out@ + parts_text(parts@.subrange(from as int, from as int)) =~= out@);
    while i < to
        invariant
            from <= i <= to <= parts@.len(),
            out@ == old(out)@ + parts_text(parts@.subrange(from as int, i as int)),
        decreases to - i,
    {
        let ghost before = parts@.subrange(from as int, i as int);
        let ghost after = parts@.subrange(from as int, i as int + 1);
        let ghost written = out@;
        proof {
            assert(after.drop_last() =~= before);
            assert(after.last() == parts@[i as int]);
        }
        if i > from {
            out.append(":");
        }
        push_hexadecimal(out, parts[i] as u64);
        assert(out@ =~= old(out)@ + parts_text(after));
        i += 1;
    }
}

fn push_ipv6(out: &mut String, ip: u128)
    ensures
        final(out)@ == old(out)@ + ipv6_text(ip),
{
    if ip >> 32u128 == 0xffff {
        out.append("::ffff:");
        push_ipv4(out, (ip & 0xffff_ffff) as u32);
        assert(out@ =~= old(out)@ + ipv6_text(ip));
        return;
    }
    let parts = split_segments(ip);
    let zeros = find_zeros(&parts);
    if zeros.len > 1 {
        push_parts(out, &parts, 0, zeros.start);
        out.append("::");
        push_parts(out, &parts, zeros.start + zeros.len, parts.len());
        proof {
            let (start, len) = longest_zeros(parts@);
            assert(parts@.subrange(0, start) =~= parts@.take(start));
            assert(parts@.subrange(start + len, parts@.len() as int) =~= parts@.skip(start + len));
            assert(out@ =~= old(out)@ + ipv6_text(ip));
        }
    } else {
        push_parts(out, &parts, 0, parts.len());
        assert(parts@.subrange(0, parts@.len() as int) =~= parts@);
    }
}

impl SocketAddr {
    pub fn is_ipv4(&self) -> (result: bool)
        ensures
            result == (self is V4),
    {
        match self {
            SocketAddr::V4 { .. } => true,
            SocketAddr::V6 { .. } => false,
        }
    }

    pub open spec fn text(self) -> Seq<char> {
        match self {
            SocketAddr::V4 { ip, port } => ipv4_text(ip) + ":"@ + decimal(port as nat),
            SocketAddr::V6 { ip, port, scope_id, .. } => "["@ + ipv6_text(ip) + (if scope_id == 0 {
                Seq::empty()
            } else {
                "%"@ + decimal(scope_id as nat)
            }) + "]:"@ + decimal(port as nat),
        }
    }

    /// Address and port as they are usually written.
    pub fn to_text(&self) -> (result: String)
        ensures
            result@ == self.text(),
    {
        let mut out = String::new();
        match self {
            SocketAddr::V4 { ip, port } => {
                push_ipv4(&mut out, *ip);
                out.append(":");
                push_decimal(&mut out, *port as u64);
            },
            SocketAddr::V6 { ip, port, scope_id, .. } => {
                out.append("[");
                push_ipv6(&mut out, *ip);
                if *scope_id != 0 {
                    out.append("%");
                    push_decimal(&mut out, *scope_id as u64);
                }
                out.append("]:");
                push_decimal(&mut out, *port as u64);
            },
        }
        assert(out@ =~= self.text());
        out
    }
}

/// The eight parts of an IPv6 address make it up, the first one on top.
pub proof fn law_segments_make_up_the_address(ip: u128)
    ensures
        segments(ip).len() == 8,
        ip == segments(ip)[0] * 0x1_0000_0000_0000_0000_0000_0000_0000 + segments(ip)[1]
            * 0x1_0000_0000_0000_0000_0000_0000 + segments(ip)[2] * 0x1_0000_0000_0000_0000_0000
            + segments(ip)[3] * 0x1_0000_0000_0000_0000 + segments(ip)[4] * 0x1_0000_0000_0000
            + segments(ip)[5] * 0x1_0000_0000 + segments(ip)[6] * 0x1_0000 + segments(ip)[7],
{
    let a = (ip >> 112u128) & 0xffff;
    let b = (ip >> 96u128) & 0xffff;
    let c = (ip >> 80u128) & 0xffff;
    let d = (ip >> 64u128) & 0xffff;
    let e = (ip >> 48u128) & 0xffff;
    let f = (ip >> 32u128) & 0xffff;
    let g = (ip >> 16u128) & 0xffff;
    let h = ip & 0xffff;
    assert(a <= 0xffff && b <= 0xffff && c <= 0xffff && d <= 0xffff && e <= 0xffff && f <= 0xffff
        && g <= 0xffff && h <= 0xffff) by (bit_vector)
        requires
            a == (ip >> 112u128) & 0xffff,
            b == (ip >> 96u128) & 0xffff,
            c == (ip >> 80u128) & 0xffff,
            d == (ip >> 64u128) & 0xffff,
            e == (ip >> 48u128) & 0xffff,
            f == (ip >> 32u128) & 0xffff,
            g == (ip >> 16u128) & 0xffff,
            h == ip & 0xffff,
    ;
    assert(ip == a * 0x1_0000_0000_0000_0000_0000_0000_0000 + b
        * 0x1_0000_0000_0000_0000_0000_0000 + c * 0x1_0000_0000_0000_0000_0000 + d
        * 0x1_0000_0000_0000_0000 + e * 0x1_0000_0000_0000 + f * 0x1_0000_0000 + g * 0x1_0000 + h)
        by (bit_vector)
        requires
            a == (ip >> 112u128) & 0xffff,
            b == (ip >> 96u128) & 0xffff,
            c == (ip >> 80u128) & 0xffff,
            d == (ip >> 64u128) & 0xffff,
            e == (ip >> 48u128) & 0xffff,
            f == (ip >> 32u128) & 0xffff,
            g == (ip >> 16u128) & 0xffff,
            h == ip & 0xffff,
    ;
}

/// The four parts of an IPv4 address are written in decimal, the first one on
/// top, with dots between them.
pub proof fn law_ipv4_parts_are_written(a: u8, b: u8, c: u8, d: u8, ip: u32)
    requires
        ip == a * 0x100_0000 + b * 0x1_0000 + c * 0x100 + d,
    ensures
        ipv4_text(ip) == decimal(a as nat) + "."@ + decimal(b as nat) + "."@ + decimal(c as nat)
            + "."@ + decimal(d as nat),
{
    assert((ip >> 24u32) & 0xff == a && (ip >> 16u32) & 0xff == b && (ip >> 8u32) & 0xff == c && ip
        & 0xff == d) by (bit_vector)
        requires
            ip == a * 0x100_0000 + b * 0x1_0000 + c * 0x100 + d,
    ;
}

/// All parts from `start` on, `len` of them, are zero.
pub open spec fn zeros_at(parts: Seq<u16>, start: int, len: int) -> bool {
    &&& 0 <= start
    &&& 0 <= len
    &&& start + len <= parts.len()
    &&& forall|i: int| start <= i < start + len ==> (#[trigger] parts[i]) == 0
}

proof fn lemma_trailing(parts: Seq<u16>)
    ensures
        trailing_zeros(parts) <= parts.len(),
        zeros_at(parts, parts.len() - trailing_zeros(parts), trailing_zeros(parts) as int),
        forall|len: int|
            #[trigger] zeros_at(parts, parts.len() - len, len) ==> len <= trailing_zeros(parts),
    decreases parts.len(),
{
    if parts.len() > 0 {
        let rest = parts.drop_last();
        lemma_trailing(rest);
        if parts.last() == 0 {
            let t = trailing_zeros(rest) as int;
            assert forall|i: int| parts.len() - t - 1 <= i < parts.len() implies (
            #[trigger] parts[i]) == 0 by {
                if i < rest.len() {
                    assert(rest[i] == parts[i]);
                }
            }
            assert forall|len: int| #[trigger] zeros_at(parts, parts.len() - len, len) implies len
                <= trailing_zeros(parts) by {
                if len > 0 {
                    assert forall|i: int| rest.len() - (len - 1) <= i < rest.len() implies (
                    #[trigger] rest[i]) == 0 by {
                        assert(parts[i] == rest[i]);
                    }
                    assert(zeros_at(rest, rest.len() - (len - 1), len - 1));
                }
            }
        } else {
            assert forall|len: int| #[trigger] zeros_at(parts, parts.len() - len, len) implies len
                <= trailing_zeros(parts) by {
                if len > 0 {
                    assert(parts[parts.len() - 1] == 0);
                }
            }
        }
    }
}

/// What two colons stand for is the longest run of zero parts, and of several
/// such runs the first.
pub proof fn law_longest_zeros_are_found(parts: Seq<u16>, start: int, len: int)
    requires
        zeros_at(parts, start, len),
    ensures
        ({
            let (from, found) = longest_zeros(parts);
            &&& zeros_at(parts, from, found as int)
            &&& len <= found
            &&& len == found && len > 0 ==> from <= start
        }),
    decreases parts.len(),
{
    lemma_longest(parts);
    lemma_longest_bounds(parts, start, len);
}

proof fn lemma_longest(parts: Seq<u16>)
    ensures
        zeros_at(parts, longest_zeros(parts).0, longest_zeros(parts).1 as int),
    decreases parts.len(),
{
    if parts.len() > 0 {
        let rest = parts.drop_last();
        lemma_longest(rest);
        lemma_trailing(parts);
        let (from, found) = longest_zeros(rest);
        assert forall|i: int| from <= i < from + found implies (#[trigger] parts[i]) == 0 by {
            assert(rest[i] == parts[i]);
        }
    }
}

proof fn lemma_longest_bounds(parts: Seq<u16>, start: int, len: int)
    requires
        zeros_at(parts, start, len),
    ensures
        len <= longest_zeros(parts).1,
        len == longest_zeros(parts).1 && len > 0 ==> longest_zeros(parts).0 <= start,
    decreases parts.len(),
{
    if parts.len() > 0 {
        let rest = parts.drop_last();
        lemma_trailing(parts);
        let best = longest_zeros(rest);
        if start + len < parts.len() {
            assert forall|i: int| start <= i < start + len implies (#[trigger] rest[i]) == 0 by {
                assert(parts[i] == rest[i]);
            }
            lemma_longest_bounds(rest, start, len);
        } else {
            assert(start == parts.len() - len);
            assert(zeros_at(parts, parts.len() - len, len));
            if len > 0 && trailing_zeros(parts) <= best.1 && len == best.1 {
                // The run found before this one ends before it.
                lemma_longest(rest);
                assert(best.0 + best.1 <= rest.len());
            }
        }
    }
}

/// Parts are written one after the other with a colon between any two, each in
/// hexadecimal.
pub proof fn law_parts_are_joined(first: Seq<u16>, second: Seq<u16>, part: u16)
    requires
        first.len() > 0,
        second.len() > 0,
    ensures
        parts_text(first + second) == parts_text(first) + ":"@ + parts_text(second),
        parts_text(seq![part]) == hexadecimal(part as nat),
    decreases second.len(),
{
    let both = first + second;
    assert(both.last() == second.last());
    if second.len() == 1 {
        assert(both.drop_last() =~= first);
        assert(second.last() == second[0]);
    } else {
        let rest = second.drop_last();
        assert(both.drop_last() =~= first + rest);
        law_parts_are_joined(first, rest, part);
        assert(parts_text(both) =~= parts_text(first) + ":"@ + parts_text(second));
    }
}

/// An address that holds an IPv4 address shows that. Any other shows its parts,
/// where two colons stand in for zero parts if there are two in a row, and for
/// no others.
pub proof fn law_ipv6_address_is_written(ip: u128)
    ensures
        ip / 0x1_0000_0000 == 0xffff ==> ipv6_text(ip) == "::ffff:"@ + ipv4_text(
            (ip % 0x1_0000_0000) as u32,
        ),
        ip / 0x1_0000_0000 != 0xffff ==> {
            let parts = segments(ip);
            &&& (exists|i: int| #[trigger] zeros_at(parts, i, 2)) ==> exists|from: int, len: int|
                {
                    &&& #[trigger] zeros_at(parts, from, len)
                    &&& len >= 2
                    &&& ipv6_text(ip) == parts_text(parts.take(from)) + "::"@ + parts_text(
                        parts.skip(from + len),
                    )
                    &&& forall|start: int, other: int| #[trigger]
                        zeros_at(parts, start, other) ==> other <= len
                }
            &&& !(exists|i: int| #[trigger] zeros_at(parts, i, 2)) ==> ipv6_text(ip) == parts_text(
                parts,
            )
        },
{
    assert(ip >> 32u128 == ip / 0x1_0000_0000) by (bit_vector);
    assert(ip & 0xffff_ffff == ip % 0x1_0000_0000) by (bit_vector);
    let parts = segments(ip);
    let (from, len) = longest_zeros(parts);
    lemma_longest(parts);
    assert forall|start: int, other: int| #[trigger] zeros_at(parts, start, other) implies other
        <= len by {
        law_longest_zeros_are_found(parts, start, other);
    }
    if len >= 2 {
        assert(zeros_at(parts, from, 2));
        assert(zeros_at(parts, from, len as int));
    }
}

/// A socket address shows its port behind the last colon, an IPv6 address in
/// brackets, and a scope where it has one.
pub proof fn law_socket_address_is_written(addr: SocketAddr)
    ensures
        addr matches SocketAddr::V4 { ip, port } ==> addr.text() == ipv4_text(ip) + ":"@ + decimal(
            port as nat,
        ),
        addr matches SocketAddr::V6 { ip, port, scope_id, .. } ==> {
            &&& scope_id == 0 ==> addr.text() == "["@ + ipv6_text(ip) + "]:"@ + decimal(port as nat)
            &&& scope_id != 0 ==> addr.text() == "["@ + ipv6_text(ip) + "%"@ + decimal(
                scope_id as nat,
            ) + "]:"@ + decimal(port as nat)
        },
{
    if let SocketAddr::V6 { ip, port, scope_id, .. } = addr {
        if scope_id == 0 {
            assert(addr.text() =~= "["@ + ipv6_text(ip) + "]:"@ + decimal(port as nat));
        } else {
            assert(addr.text() =~= "["@ + ipv6_text(ip) + "%"@ + decimal(scope_id as nat) + "]:"@
                + decimal(port as nat));
        }
    }
}

} // verus!

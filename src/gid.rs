//! GIDs: their bytes and the two 64-bit halves exchanged over the control
//! plane, the IPv4 address a RoCEv2 GID embeds, their IPv6 text, and the
//! choice of the GID that a transfer uses.
use vstd::prelude::*;
use crate::envelope::{u64_at, u64_bytes};
use crate::error::ErrorKind;

verus! {

/// The bytes of a GID built from its subnet prefix and interface id as the
/// verbs union stores them: each half in little-endian byte order.
pub open spec fn gid_of_ids(subnet_prefix: u64, interface_id: u64) -> Seq<u8> {
    u64_bytes(subnet_prefix) + u64_bytes(interface_id)
}

/// Builds the GID whose halves are `subnet_prefix` and `interface_id`.
pub fn gid_from_ids(subnet_prefix: u64, interface_id: u64) -> (r: [u8; 16])
    ensures
        r@ == gid_of_ids(subnet_prefix, interface_id),
{
    let s = subnet_prefix;
    let i = interface_id;
    let r: [u8; 16] = [
        (s & 0xff) as u8,
        ((s >> 8u64) & 0xff) as u8,
        ((s >> 16u64) & 0xff) as u8,
        ((s >> 24u64) & 0xff) as u8,
        ((s >> 32u64) & 0xff) as u8,
        ((s >> 40u64) & 0xff) as u8,
        ((s >> 48u64) & 0xff) as u8,
        ((s >> 56u64) & 0xff) as u8,
        (i & 0xff) as u8,
        ((i >> 8u64) & 0xff) as u8,
        ((i >> 16u64) & 0xff) as u8,
        ((i >> 24u64) & 0xff) as u8,
        ((i >> 32u64) & 0xff) as u8,
        ((i >> 40u64) & 0xff) as u8,
        ((i >> 48u64) & 0xff) as u8,
        ((i >> 56u64) & 0xff) as u8,
    ];
    assert(r@ =~= gid_of_ids(subnet_prefix, interface_id));
    r
}

/// The subnet prefix that the first half of a GID holds.
pub fn gid_subnet_prefix(gid: &[u8; 16]) -> (r: u64)
    ensures
        r == u64_at(gid@, 0),
{
    crate::envelope::read_u64(gid.as_slice(), 0)
}

/// The interface id that the second half of a GID holds.
pub fn gid_interface_id(gid: &[u8; 16]) -> (r: u64)
    ensures
        r == u64_at(gid@, 8),
{
    crate::envelope::read_u64(gid.as_slice(), 8)
}

/// A GID sent as its two halves and rebuilt on the other side is the same
/// GID, and the halves read back are the ones sent.
pub proof fn lemma_gid_ids_round_trip(subnet_prefix: u64, interface_id: u64)
    ensures
        gid_of_ids(subnet_prefix, interface_id).len() == 16,
        u64_at(gid_of_ids(subnet_prefix, interface_id), 0) == subnet_prefix,
        u64_at(gid_of_ids(subnet_prefix, interface_id), 8) == interface_id,
{
    let g = gid_of_ids(subnet_prefix, interface_id);
    crate::envelope::lemma_u64_round_trip(subnet_prefix);
    crate::envelope::lemma_u64_round_trip(interface_id);
    crate::envelope::lemma_shifted_u64(g, u64_bytes(subnet_prefix), 0);
    crate::envelope::lemma_shifted_u64(g, u64_bytes(interface_id), 8);
}

/// The halves of a GID rebuild that GID.
pub proof fn lemma_gid_bytes_round_trip(g: Seq<u8>)
    requires
        g.len() == 16,
    ensures
        gid_of_ids(u64_at(g, 0), u64_at(g, 8)) == g,
{
    let a = u64_at(g, 0);
    let b = u64_at(g, 8);
    crate::envelope::lemma_u64_bytes_of_at(g, 0);
    crate::envelope::lemma_u64_bytes_of_at(g, 8);
    assert(gid_of_ids(a, b) =~= g);
}

// ------------------------------------------------------------ IPv4 in a GID

/// The IPv4 address whose four bytes, high first, are `b[at..at+4]`.
pub open spec fn be_u32_at(b: Seq<u8>, at: int) -> u32 {
    (((b[at] as u32) << 24u32) | ((b[at + 1] as u32) << 16u32) | ((b[at + 2] as u32) << 8u32) | (b[at
        + 3] as u32)) as u32
}

/// The IPv4 address that a GID of the IPv4-mapped form `::ffff:a.b.c.d`
/// embeds; `None` for any other GID.
pub open spec fn embedded_ipv4(g: Seq<u8>) -> Option<u32> {
    if g.len() == 16 && (forall|k: int| 0 <= k < 10 ==> g[k] == 0u8) && g[10] == 0xffu8 && g[11]
        == 0xffu8 {
        Some(be_u32_at(g, 12))
    } else {
        None
    }
}

/// The IPv4-mapped GID `::ffff:ip`.
pub open spec fn mapped_gid(ip: u32) -> Seq<u8> {
    seq![0u8, 0u8, 0u8, 0u8, 0u8, 0u8, 0u8, 0u8, 0u8, 0u8, 0xffu8, 0xffu8] + seq![
        ((ip >> 24u32) & 0xff) as u8,
        ((ip >> 16u32) & 0xff) as u8,
        ((ip >> 8u32) & 0xff) as u8,
        (ip & 0xff) as u8,
    ]
}

/// The IPv4 address that `gid` embeds in the IPv4-mapped form, if any.
pub fn gid_ipv4(gid: &[u8; 16]) -> (r: Option<u32>)
    ensures
        r == embedded_ipv4(gid@),
{
    let mut k: usize = 0;
    while k < 10
        invariant
            k <= 10,
            gid@.len() == 16,
            forall|y: int| 0 <= y < k ==> gid@[y] == 0u8,
        decreases 10 - k,
    {
        if gid[k] != 0 {
            return None;
        }
        k = k + 1;
    }
    if gid[10] != 0xff || gid[11] != 0xff {
        return None;
    }
    Some(
        ((gid[12] as u32) << 24u32) | ((gid[13] as u32) << 16u32) | ((gid[14] as u32) << 8u32) | (
        gid[15] as u32),
    )
}

/// A GID embeds `ip` exactly when it is `::ffff:ip`.
pub proof fn lemma_embedded_is_mapped(g: Seq<u8>, ip: u32)
    ensures
        embedded_ipv4(g) == Some(ip) <==> g == mapped_gid(ip),
{
    let m = mapped_gid(ip);
    let b0 = ((ip >> 24u32) & 0xff) as u8;
    let b1 = ((ip >> 16u32) & 0xff) as u8;
    let b2 = ((ip >> 8u32) & 0xff) as u8;
    let b3 = (ip & 0xff) as u8;
    assert(m[12] == b0 && m[13] == b1 && m[14] == b2 && m[15] == b3);
    assert((((b0 as u32) << 24u32) | ((b1 as u32) << 16u32) | ((b2 as u32) << 8u32) | (b3 as u32))
        == ip) by (bit_vector)
        requires
            b0 == ((ip >> 24u32) & 0xff) as u8,
            b1 == ((ip >> 16u32) & 0xff) as u8,
            b2 == ((ip >> 8u32) & 0xff) as u8,
            b3 == (ip & 0xff) as u8,
    ;
    if embedded_ipv4(g) == Some(ip) {
        let c0 = g[12];
        let c1 = g[13];
        let c2 = g[14];
        let c3 = g[15];
        assert(c0 == ((ip >> 24u32) & 0xff) as u8 && c1 == ((ip >> 16u32) & 0xff) as u8 && c2 == ((
        ip >> 8u32) & 0xff) as u8 && c3 == (ip & 0xff) as u8) by (bit_vector)
            requires
                ip == (((c0 as u32) << 24u32) | ((c1 as u32) << 16u32) | ((c2 as u32) << 8u32) | (
                c3 as u32)),
        ;
        assert(g =~= m);
    }
    if g == m {
        assert(forall|k: int| 0 <= k < 10 ==> g[k] == 0u8);
    }
}

// ------------------------------------------------------------ IPv6 text

/// Lower-case hex digit of `d`.
pub open spec fn hex_char(d: int) -> char {
    if d == 0 {
        '0'
    } else if d == 1 {
        '1'
    } else if d == 2 {
        '2'
    } else if d == 3 {
        '3'
    } else if d == 4 {
        '4'
    } else if d == 5 {
        '5'
    } else if d == 6 {
        '6'
    } else if d == 7 {
        '7'
    } else if d == 8 {
        '8'
    } else if d == 9 {
        '9'
    } else if d == 10 {
        'a'
    } else if d == 11 {
        'b'
    } else if d == 12 {
        'c'
    } else if d == 13 {
        'd'
    } else if d == 14 {
        'e'
    } else {
        'f'
    }
}

/// `x` in lower-case hex without leading zeros.
pub open spec fn hex_text(x: nat) -> Seq<char>
    decreases x,
{
    if x < 16 {
        seq![hex_char(x as int)]
    } else {
        hex_text(x / 16) + seq![hex_char((x % 16) as int)]
    }
}

/// Segments in hex, separated by colons.
pub open spec fn join_hex(s: Seq<u16>) -> Seq<char>
    decreases s.len(),
{
    if s.len() == 0 {
        Seq::empty()
    } else if s.len() == 1 {
        hex_text(s[0] as nat)
    } else {
        join_hex(s.drop_last()) + seq![':'] + hex_text(s.last() as nat)
    }
}

/// Number of zero segments from `i` on.
pub open spec fn zero_run(s: Seq<u16>, i: int) -> int
    decreases s.len() - i,
{
    if 0 <= i < s.len() && s[i] == 0 {
        1 + zero_run(s, i + 1)
    } else {
        0
    }
}

/// Start and length of the first longest run of zero segments that starts
/// before `k`.
pub open spec fn longest_run(s: Seq<u16>, k: int) -> (int, int)
    decreases k,
{
    if k <= 0 {
        (0, 0)
    } else {
        let prev = longest_run(s, k - 1);
        let len = zero_run(s, k - 1);
        if len > prev.1 {
            (k - 1, len)
        } else {
            prev
        }
    }
}

/// Text of an IPv6 address: hex segments joined by colons, the first
/// longest run of two or more zero segments written `::`.
pub open spec fn ipv6_text(s: Seq<u16>) -> Seq<char> {
    let best = longest_run(s, s.len() as int);
    if best.1 >= 2 {
        join_hex(s.subrange(0, best.0)) + seq![':', ':'] + join_hex(
            s.subrange(best.0 + best.1, s.len() as int),
        )
    } else {
        join_hex(s)
    }
}

/// The eight 16-bit segments of a GID, high byte first.
pub open spec fn gid_segments(g: Seq<u8>) -> Seq<u16> {
    Seq::new(8, |k: int| (((g[2 * k] as u16) << 8u16) | (g[2 * k + 1] as u16)) as u16)
}

fn hex_digit(d: u16) -> (r: &'static str)
    requires
        d < 16,
    ensures
        r@ == seq![hex_char(d as int)],
{
    if d == 0 {
        proof {
            reveal_strlit("0");
        }
        "0"
    } else if d == 1 {
        proof {
            reveal_strlit("1");
        }
        "1"
    } else if d == 2 {
        proof {
            reveal_strlit("2");
        }
        "2"
    } else if d == 3 {
        proof {
            reveal_strlit("3");
        }
        "3"
    } else if d == 4 {
        proof {
            reveal_strlit("4");
        }
        "4"
    } else if d == 5 {
        proof {
            reveal_strlit("5");
        }
        "5"
    } else if d == 6 {
        proof {
            reveal_strlit("6");
        }
        "6"
    } else if d == 7 {
        proof {
            reveal_strlit("7");
        }
        "7"
    } else if d == 8 {
        proof {
            reveal_strlit("8");
        }
        "8"
    } else if d == 9 {
        proof {
            reveal_strlit("9");
        }
        "9"
    } else if d == 10 {
        proof {
            reveal_strlit("a");
        }
        "a"
    } else if d == 11 {
        proof {
            reveal_strlit("b");
        }
        "b"
    } else if d == 12 {
        proof {
            reveal_strlit("c");
        }
        "c"
    } else if d == 13 {
        proof {
            reveal_strlit("d");
        }
        "d"
    } else if d == 14 {
        proof {
            reveal_strlit("e");
        }
        "e"
    } else {
        proof {
            reveal_strlit("f");
        }
        "f"
    }
}

fn push_hex(out: &mut String, x: u16)
    ensures
        final(out)@ == old(out)@ + hex_text(x as nat),
{
    let ghost start = out@;
    if x >= 4096 {
        out.append(hex_digit(x / 4096));
    }
    if x >= 256 {
        out.append(hex_digit((x / 256) % 16));
    }
    if x >= 16 {
        out.append(hex_digit((x / 16) % 16));
    }
    out.append(hex_digit(x % 16));
    proof {
        let n = x as nat;
        if n < 16 {
        } else if n < 256 {
            assert(hex_text(n / 16) == seq![hex_char((n / 16) as int)]);
            assert(out@ =~= start + hex_text(n));
        } else if n < 4096 {
            assert(hex_text(n / 256) == seq![hex_char((n / 256) as int)]);
            assert((n / 16) / 16 == n / 256);
            assert(hex_text(n / 16) == hex_text(n / 256) + seq![hex_char(((n / 16) % 16) as int)]);
            assert(out@ =~= start + hex_text(n));
        } else {
            assert(hex_text(n / 4096) == seq![hex_char((n / 4096) as int)]);
            assert((n / 16) / 16 == n / 256);
            assert((n / 256) / 16 == n / 4096);
            assert(hex_text(n / 256) == hex_text(n / 4096) + seq![
                hex_char(((n / 256) % 16) as int),
            ]);
            assert(hex_text(n / 16) == hex_text(n / 256) + seq![hex_char(((n / 16) % 16) as int)]);
            assert(out@ =~= start + hex_text(n));
        }
    }
}

fn push_joined(out: &mut String, s: &[u16; 8], from: usize, to: usize)
    requires
        from <= to <= 8,
    ensures
        final(out)@ == old(out)@ + join_hex(s@.subrange(from as int, to as int)),
{
    let ghost start = out@;
    let mut k: usize = from;
    while k < to
        invariant
            from <= k <= to <= 8,
            s@.len() == 8,
            out@ == start + join_hex(s@.subrange(from as int, k as int)),
        decreases to - k,
    {
        let ghost prev = out@;
        if k > from {
            proof {
                reveal_strlit(":");
            }
            out.append(":");
        }
        push_hex(out, s[k]);
        proof {
            let sub = s@.subrange(from as int, k + 1);
            assert(sub.drop_last() =~= s@.subrange(from as int, k as int));
            if k == from {
                assert(s@.subrange(from as int, k as int).len() == 0);
                assert(out@ =~= start + join_hex(sub));
            } else {
                assert(out@ =~= start + join_hex(sub));
            }
        }
        k = k + 1;
    }
}

/// The eight segments of a GID, high byte first.
pub fn segments_of(gid: &[u8; 16]) -> (r: [u16; 8])
    ensures
        r@ == gid_segments(gid@),
{
    let mut r: [u16; 8] = [0u16; 8];
    let mut k: usize = 0;
    while k < 8
        invariant
            k <= 8,
            gid@.len() == 16,
            r@.len() == 8,
            forall|y: int| 0 <= y < k ==> r@[y] == gid_segments(gid@)[y],
        decreases 8 - k,
    {
        r[k] = ((gid[2 * k] as u16) << 8u16) | (gid[2 * k + 1] as u16);
        k = k + 1;
    }
    assert(r@ =~= gid_segments(gid@));
    r
}

/// The IPv6 text of a GID.
pub fn ipv6_string(gid: &[u8; 16]) -> (r: String)
    ensures
        r@ == ipv6_text(gid_segments(gid@)),
{
    let s = segments_of(gid);
    let mut best_start: usize = 0;
    let mut best_len: usize = 0;
    let mut i: usize = 0;
    while i < 8
        invariant
            i <= 8,
            s@.len() == 8,
            (best_start as int, best_len as int) == longest_run(s@, i as int),
            best_start + best_len <= 8,
        decreases 8 - i,
    {
        let mut j: usize = i;
        while j < 8 && s[j] == 0
            invariant
                i <= j <= 8,
                s@.len() == 8,
                zero_run(s@, i as int) == (j - i) + zero_run(s@, j as int),
            decreases 8 - j,
        {
            j = j + 1;
        }
        proof {
            if j < 8 {
                assert(zero_run(s@, j as int) == 0);
            } else {
                assert(zero_run(s@, 8) == 0);
            }
        }
        if j - i > best_len {
            best_start = i;
            best_len = j - i;
        }
        i = i + 1;
    }
    assert(s@.len() == 8);
    let mut out = String::new();
    if best_len >= 2 {
        push_joined(&mut out, &s, 0, best_start);
        proof {
            reveal_strlit("::");
        }
        out.append("::");
        push_joined(&mut out, &s, best_start + best_len, 8);
        assert(out@ =~= ipv6_text(s@));
    } else {
        push_joined(&mut out, &s, 0, 8);
        assert(s@.subrange(0, 8) =~= s@);
    }
    out
}

/// The segments of a GID, or `None` for the all-zero GID, which marks an
/// unused table slot.
pub fn gid_to_ipv6_string(gid: &[u8; 16]) -> (r: Option<[u16; 8]>)
    ensures
        (forall|k: int| 0 <= k < 16 ==> gid@[k] == 0u8) ==> r.is_none(),
        !(forall|k: int| 0 <= k < 16 ==> gid@[k] == 0u8) ==> (r matches Some(s) && s@
            == gid_segments(gid@)),
{
    let mut k: usize = 0;
    while k < 16
        invariant
            k <= 16,
            gid@.len() == 16,
            forall|y: int| 0 <= y < k ==> gid@[y] == 0u8,
        decreases 16 - k,
    {
        if gid[k] != 0 {
            return Some(segments_of(gid));
        }
        k = k + 1;
    }
    None
}

/// The remote end of a queue pair as the control plane reports it.
#[derive(Clone, Copy, Debug)]
pub struct Destination {
    pub lid: u16,
    pub qpn: u32,
    pub psn: u32,
    pub gid: [u8; 16],
}

impl Destination {
    /// The IPv6 text of the destination's GID.
    pub fn gid_to_ipv6_string(&self) -> (r: String)
        ensures
            r@ == ipv6_text(gid_segments(self.gid@)),
    {
        ipv6_string(&self.gid)
    }
}

/// The text of `::ffff:ip` in the form `ipv6_text` gives it: the two low
/// segments in hex after `::ffff:`.
pub open spec fn mapped_text(ip: u32) -> Seq<char> {
    seq![':', ':', 'f', 'f', 'f', 'f', ':'] + hex_text((ip >> 16u32) as nat) + seq![':'] + hex_text(
        (ip & 0xffffu32) as nat,
    )
}

proof fn lemma_hex_ffff()
    ensures
        hex_text(0xffff) == seq!['f', 'f', 'f', 'f'],
{
    assert(hex_text(0xf) == seq!['f']);
    assert(hex_text(0xff) == hex_text(0xf) + seq!['f']);
    assert(hex_text(0xfff) == hex_text(0xff) + seq!['f']);
    assert(hex_text(0xffff) == hex_text(0xfff) + seq!['f']);
    assert(hex_text(0xffff) =~= seq!['f', 'f', 'f', 'f']);
}

/// The IPv6 text of the GID `::ffff:ip`.
pub proof fn lemma_mapped_gid_text(ip: u32)
    ensures
        ipv6_text(gid_segments(mapped_gid(ip))) == mapped_text(ip),
{
    let g = mapped_gid(ip);
    let s = gid_segments(g);
    let b12 = ((ip >> 24u32) & 0xff) as u8;
    let b13 = ((ip >> 16u32) & 0xff) as u8;
    let b14 = ((ip >> 8u32) & 0xff) as u8;
    let b15 = (ip & 0xff) as u8;
    let hi = (ip >> 16u32) as u16;
    let lo = (ip & 0xffffu32) as u16;
    assert(g[12] == b12 && g[13] == b13 && g[14] == b14 && g[15] == b15);
    assert((((b12 as u16) << 8u16) | (b13 as u16)) as u16 == hi && (((b14 as u16) << 8u16) | (
    b15 as u16)) as u16 == lo) by (bit_vector)
        requires
            b12 == ((ip >> 24u32) & 0xff) as u8,
            b13 == ((ip >> 16u32) & 0xff) as u8,
            b14 == ((ip >> 8u32) & 0xff) as u8,
            b15 == (ip & 0xff) as u8,
            hi == (ip >> 16u32) as u16,
            lo == (ip & 0xffffu32) as u16,
    ;
    assert((((0u8 as u16) << 8u16) | (0u8 as u16)) as u16 == 0u16) by (bit_vector);
    assert((((0xffu8 as u16) << 8u16) | (0xffu8 as u16)) as u16 == 0xffffu16) by (bit_vector);
    assert((ip >> 16u32) < 65536u32 && (ip & 0xffffu32) < 65536u32) by (bit_vector);
    assert(hi as nat == (ip >> 16u32) as nat);
    assert(lo as nat == (ip & 0xffffu32) as nat);
    assert(s[0] == 0 && s[1] == 0 && s[2] == 0 && s[3] == 0 && s[4] == 0);
    assert(s[5] == 0xffff && s[6] == hi && s[7] == lo);
    assert(zero_run(s, 8) == 0);
    assert(zero_run(s, 7) <= 1);
    assert(zero_run(s, 6) <= 2);
    assert(zero_run(s, 5) == 0);
    assert(zero_run(s, 4) == 1);
    assert(zero_run(s, 3) == 2);
    assert(zero_run(s, 2) == 3);
    assert(zero_run(s, 1) == 4);
    assert(zero_run(s, 0) == 5);
    assert(longest_run(s, 0) == (0int, 0int));
    assert(longest_run(s, 1) == (0int, 5int));
    assert(longest_run(s, 2) == (0int, 5int));
    assert(longest_run(s, 3) == (0int, 5int));
    assert(longest_run(s, 4) == (0int, 5int));
    assert(longest_run(s, 5) == (0int, 5int));
    assert(longest_run(s, 6) == (0int, 5int));
    assert(longest_run(s, 7) == (0int, 5int));
    assert(longest_run(s, 8) == (0int, 5int));
    let tail = s.subrange(5, 8);
    assert(tail.drop_last().drop_last() =~= seq![0xffffu16]);
    assert(join_hex(seq![0xffffu16]) == hex_text(0xffff));
    lemma_hex_ffff();
    assert(tail.drop_last() =~= seq![0xffffu16, hi]);
    assert(join_hex(tail.drop_last()) == join_hex(seq![0xffffu16]) + seq![':'] + hex_text(
        hi as nat,
    ));
    assert(join_hex(tail) == join_hex(tail.drop_last()) + seq![':'] + hex_text(lo as nat));
    assert(join_hex(s.subrange(0, 0)) =~= Seq::<char>::empty());
    assert(ipv6_text(s) =~= mapped_text(ip));
}

/// A GID that embeds `ip` is `::ffff:ip`, and its IPv6 text is that of
/// `::ffff:ip`.
pub proof fn lemma_gid_text_round_trip(g: Seq<u8>, ip: u32)
    requires
        embedded_ipv4(g) == Some(ip),
    ensures
        g == mapped_gid(ip),
        ipv6_text(gid_segments(g)) == mapped_text(ip),
{
    lemma_embedded_is_mapped(g, ip);
    lemma_mapped_gid_text(ip);
}

// ------------------------------------------------------------ locating a GID

/// The RoCE version of a GID table entry.
#[derive(Clone, Copy, Debug, PartialEq, Eq, Structural)]
pub enum GidType {
    RoceV2,
    RoceV1,
    /// A type text that names neither version.
    Other,
}

/// Whether `a` and `b` hold the same characters.
fn text_eq(a: &str, b: &str) -> (r: bool)
    ensures
        r == (a@ == b@),
{
    let n = a.unicode_len();
    if n != b.unicode_len() {
        return false;
    }
    let mut k: usize = 0;
    while k < n
        invariant
            k <= n,
            n == a@.len(),
            n == b@.len(),
            forall|y: int| 0 <= y < k ==> a@[y] == b@[y],
        decreases n - k,
    {
        if a.get_char(k) != b.get_char(k) {
            return false;
        }
        k = k + 1;
    }
    assert(a@ =~= b@);
    true
}

impl GidType {
    /// Reads the GID type that the kernel reports: `"RoCE v2"` is version
    /// 2, `"IB/RoCE v1"` version 1, and any other text neither.
    pub fn from_str(s: &str) -> (r: GidType)
        ensures
            (r == GidType::RoceV2) == (s@ == "RoCE v2"@),
            (r == GidType::RoceV1) == (s@ == "IB/RoCE v1"@),
            r == (if s@ == "RoCE v2"@ {
                GidType::RoceV2
            } else if s@ == "IB/RoCE v1"@ {
                GidType::RoceV1
            } else {
                GidType::Other
            }),
    {
        proof {
            reveal_strlit("RoCE v2");
            reveal_strlit("IB/RoCE v1");
            assert("RoCE v2"@ != "IB/RoCE v1"@) by {
                assert("RoCE v2"@.len() != "IB/RoCE v1"@.len());
            }
        }
        if text_eq(s, "RoCE v2") {
            GidType::RoceV2
        } else if text_eq(s, "IB/RoCE v1") {
            GidType::RoceV1
        } else {
            GidType::Other
        }
    }
}

/// One slot of a device's GID table; `gid_type` is read only for the slots
/// that may be chosen.
#[derive(Clone, Copy, Debug)]
pub struct GidTableEntry {
    pub device_index: usize,
    pub port: u8,
    pub gid_index: i32,
    pub gid: [u8; 16],
    pub gid_type: Option<GidType>,
}

/// A slot fits source address `src` when its GID embeds `src` and it is a
/// RoCEv2 GID.
pub open spec fn roce_match(e: GidTableEntry, src: u32) -> bool {
    embedded_ipv4(e.gid@) == Some(src) && e.gid_type == Some(GidType::RoceV2)
}

/// The first slot, in table order, that fits `src`; `NoRoceEndpoint` when
/// none does.
pub fn locate_roce(entries: &Vec<GidTableEntry>, src: u32) -> (r: Result<usize, ErrorKind>)
    ensures
        (r matches Ok(k) ==> 0 <= k < entries@.len() && roce_match(entries@[k as int], src) && (
        forall|y: int| 0 <= y < k ==> !roce_match(#[trigger] entries@[y], src))),
        (r matches Err(e) ==> e == ErrorKind::NoRoceEndpoint && (forall|y: int|
            0 <= y < entries@.len() ==> !roce_match(#[trigger] entries@[y], src))),
{
    let mut k: usize = 0;
    while k < entries.len()
        invariant
            k <= entries@.len(),
            forall|y: int| 0 <= y < k ==> !roce_match(#[trigger] entries@[y], src),
        decreases entries@.len() - k,
    {
        let e = entries[k];
        let v2 = match e.gid_type {
            Some(GidType::RoceV2) => true,
            _ => false,
        };
        if v2 {
            if let Some(ip) = gid_ipv4(&e.gid) {
                if ip == src {
                    return Ok(k);
                }
            }
        }
        k = k + 1;
    }
    Err(ErrorKind::NoRoceEndpoint)
}

/// A slot the server may hand out when it spreads queue pairs over its
/// addresses: a RoCEv2 GID that embeds an IPv4 address.
pub open spec fn multi_ip_slot(e: GidTableEntry) -> bool {
    embedded_ipv4(e.gid@).is_some() && e.gid_type == Some(GidType::RoceV2)
}

/// The indices, in table order, of the slots that `multi_ip_slot` admits.
pub fn multi_ip_slots(entries: &Vec<GidTableEntry>) -> (r: Vec<usize>)
    ensures
        forall|a: int| 0 <= a < r@.len() ==> #[trigger] r@[a] < entries@.len() && multi_ip_slot(
            entries@[r@[a] as int],
        ),
        forall|a: int, b: int| 0 <= a < b < r@.len() ==> #[trigger] r@[a] < #[trigger] r@[b],
        forall|k: int|
            0 <= k < entries@.len() && multi_ip_slot(#[trigger] entries@[k]) ==> r@.contains(
                k as usize,
            ),
{
    let mut r: Vec<usize> = Vec::new();
    let mut k: usize = 0;
    while k < entries.len()
        invariant
            k <= entries@.len(),
            forall|a: int| 0 <= a < r@.len() ==> #[trigger] r@[a] < k && multi_ip_slot(
                entries@[r@[a] as int],
            ),
            forall|a: int, b: int| 0 <= a < b < r@.len() ==> #[trigger] r@[a] < #[trigger] r@[b],
            forall|y: int| 0 <= y < k && multi_ip_slot(#[trigger] entries@[y]) ==> r@.contains(
                y as usize,
            ),
        decreases entries@.len() - k,
    {
        let e = entries[k];
        let v2 = match e.gid_type {
            Some(GidType::RoceV2) => true,
            _ => false,
        };
        if v2 && gid_ipv4(&e.gid).is_some() {
            let ghost before = r@;
            r.push(k);
            proof {
                assert forall|y: int| 0 <= y < k + 1 && multi_ip_slot(
                    #[trigger] entries@[y],
                ) implies r@.contains(y as usize) by {
                    if y < k {
                        let a = choose|a: int| 0 <= a < before.len() && before[a] == y as usize;
                        assert(r@[a] == y as usize);
                    } else {
                        assert(r@[before.len() as int] == y as usize);
                    }
                }
            }
        }
        k = k + 1;
    }
    r
}

/// The GID entry the server gives its queue pair number `qp_index`: the
/// fixed one when there is one, else the table's entries in turn.
pub fn select_gid(single: Option<usize>, table_len: usize, qp_index: usize) -> (r: Result<
    usize,
    ErrorKind,
>)
    ensures
        single matches Some(g) ==> r == Ok::<usize, ErrorKind>(g),
        single is None && table_len > 0 ==> r == Ok::<usize, ErrorKind>(qp_index % table_len),
        single is None && table_len == 0 ==> r == Err::<usize, ErrorKind>(
            ErrorKind::NoRoceEndpoint,
        ),
{
    match single {
        Some(g) => Ok(g),
        None => {
            if table_len == 0 {
                Err(ErrorKind::NoRoceEndpoint)
            } else {
                Ok(qp_index % table_len)
            }
        },
    }
}

} // verus!

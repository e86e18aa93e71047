//! Choice of the local source address for a destination: longest-prefix
//! match over the kernel's IPv4 routes, grouped by prefix length and
//! prefix in an ordered map.
use std::collections::BTreeMap;
use vstd::prelude::*;
use crate::error::ErrorKind;

verus! {

/// One IPv4 route, addresses as 32-bit numbers (`a.b.c.d` is
/// `a << 24 | b << 16 | c << 8 | d`).
#[derive(Clone, Copy, Debug, PartialEq, Eq, Structural)]
pub struct RouteEntry {
    pub prefix_len: u8,
    pub destination: u32,
    /// The route's preferred source address, if it names one.
    pub pref_source: Option<u32>,
    /// Index of the route's outgoing interface, if it names one.
    pub oif: Option<u32>,
}

/// How the source address is found.
#[derive(Clone, Copy, Debug, PartialEq, Eq, Structural)]
pub enum RouteChoice {
    /// The route's preferred source address.
    Source(u32),
    /// The primary IPv4 address of this interface.
    Interface(u32),
}

/// Netmask of a prefix length of at most 32.
pub open spec fn prefix_mask(len: u8) -> u32 {
    if len == 0 {
        0
    } else {
        (0xffff_ffffu32 << ((32 - len) as u32)) as u32
    }
}

/// Key of a route in the table: its prefix length above its prefix.
pub open spec fn route_key(len: u8, prefix: u32) -> u64 {
    (len as u64 * 0x1_0000_0000 + prefix as u64) as u64
}

/// The routing table the routes build, entered in order: per prefix
/// length and prefix, the last route entered; routes with a prefix
/// length over 32 are not entered.
pub open spec fn route_table(routes: Seq<RouteEntry>) -> Map<u64, RouteEntry>
    decreases routes.len(),
{
    if routes.len() == 0 {
        Map::empty()
    } else {
        let e = routes.last();
        let t = route_table(routes.drop_last());
        if e.prefix_len <= 32 {
            t.insert(route_key(e.prefix_len, e.destination), e)
        } else {
            t
        }
    }
}

/// Longest-prefix match from prefix length `len` down: the first length
/// whose entry for `dst` names a source address or an outgoing interface
/// decides.
pub open spec fn match_from(t: Map<u64, RouteEntry>, dst: u32, len: int) -> Option<RouteChoice>
    decreases len + 1,
{
    if len < 0 || len > 32 {
        None
    } else {
        let key = route_key(len as u8, dst & prefix_mask(len as u8));
        if t.contains_key(key) && t[key].pref_source.is_some() {
            Some(RouteChoice::Source(t[key].pref_source.unwrap()))
        } else if t.contains_key(key) && t[key].oif.is_some() {
            Some(RouteChoice::Interface(t[key].oif.unwrap()))
        } else {
            match_from(t, dst, len - 1)
        }
    }
}

fn mask_of(len: u8) -> (r: u32)
    requires
        len <= 32,
    ensures
        r == prefix_mask(len),
{
    if len == 0 {
        0
    } else {
        0xffff_ffffu32 << ((32 - len) as u32)
    }
}

fn key_of(len: u8, prefix: u32) -> (r: u64)
    requires
        len <= 32,
    ensures
        r == route_key(len, prefix),
{
    len as u64 * 0x1_0000_0000 + prefix as u64
}

/// Longest-prefix match of `dst` over `routes`: the source address of the
/// matching route, or its interface to look the address up on;
/// `RouteMissing` when no route applies.
pub fn select_route(routes: &Vec<RouteEntry>, dst: u32) -> (r: Result<RouteChoice, ErrorKind>)
    ensures
        r == match match_from(route_table(routes@), dst, 32) {
            Some(c) => Ok::<RouteChoice, ErrorKind>(c),
            None => Err::<RouteChoice, ErrorKind>(ErrorKind::RouteMissing),
        },
{
    broadcast use vstd::std_specs::btree::group_btree_axioms, vstd::laws_cmp::group_laws_cmp;

    let mut table: BTreeMap<u64, RouteEntry> = BTreeMap::new();
    let mut k: usize = 0;
    while k < routes.len()
        invariant
            k <= routes@.len(),
            table@ == route_table(routes@.subrange(0, k as int)),
        decreases routes@.len() - k,
    {
        let e = routes[k];
        proof {
            assert(routes@.subrange(0, k + 1).drop_last() =~= routes@.subrange(0, k as int));
        }
        if e.prefix_len <= 32 {
            table.insert(key_of(e.prefix_len, e.destination), e);
        }
        k = k + 1;
    }
    assert(routes@.subrange(0, routes@.len() as int) =~= routes@);
    let ghost t = table@;
    let mut len: u8 = 33;
    while len > 0
        invariant
            len <= 33,
            table@ == t,
            t == route_table(routes@),
            match_from(t, dst, 32) == match_from(t, dst, len - 1),
        decreases len,
    {
        len = len - 1;
        let key = key_of(len, dst & mask_of(len));
        match table.get(&key) {
            Some(e) => {
                match e.pref_source {
                    Some(s) => {
                        return Ok(RouteChoice::Source(s));
                    },
                    None => {},
                }
                match e.oif {
                    Some(i) => {
                        return Ok(RouteChoice::Interface(i));
                    },
                    None => {},
                }
            },
            None => {},
        }
    }
    Err(ErrorKind::RouteMissing)
}

} // verus!

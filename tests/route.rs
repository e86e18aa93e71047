use rdma_bench::error::ErrorKind;
use rdma_bench::route::{select_route, RouteChoice, RouteEntry};

fn ip(a: u8, b: u8, c: u8, d: u8) -> u32 {
    u32::from_be_bytes([a, b, c, d])
}

fn route(len: u8, dst: u32, src: Option<u32>, oif: Option<u32>) -> RouteEntry {
    RouteEntry { prefix_len: len, destination: dst, pref_source: src, oif }
}

#[test]
fn longest_prefix_wins() {
    let routes = vec![
        route(0, 0, None, Some(2)),
        route(8, ip(10, 0, 0, 0), Some(ip(10, 9, 9, 9)), Some(3)),
        route(24, ip(10, 1, 2, 0), Some(ip(10, 1, 2, 5)), Some(4)),
        route(24, ip(10, 1, 3, 0), Some(ip(10, 1, 3, 5)), Some(5)),
    ];
    assert_eq!(select_route(&routes, ip(10, 1, 2, 3)), Ok(RouteChoice::Source(ip(10, 1, 2, 5))));
    assert_eq!(select_route(&routes, ip(10, 7, 2, 3)), Ok(RouteChoice::Source(ip(10, 9, 9, 9))));
    assert_eq!(select_route(&routes, ip(8, 8, 8, 8)), Ok(RouteChoice::Interface(2)));
}

#[test]
fn later_route_of_same_prefix_wins() {
    let routes = vec![
        route(24, ip(10, 1, 2, 0), Some(ip(10, 1, 2, 5)), None),
        route(24, ip(10, 1, 2, 0), None, Some(7)),
    ];
    assert_eq!(select_route(&routes, ip(10, 1, 2, 3)), Ok(RouteChoice::Interface(7)));
}

#[test]
fn host_route_and_missing() {
    let routes = vec![route(32, ip(10, 0, 0, 1), Some(ip(10, 0, 0, 2)), None)];
    assert_eq!(select_route(&routes, ip(10, 0, 0, 1)), Ok(RouteChoice::Source(ip(10, 0, 0, 2))));
    assert_eq!(select_route(&routes, ip(10, 0, 0, 3)), Err(ErrorKind::RouteMissing));
    assert_eq!(select_route(&Vec::new(), ip(1, 2, 3, 4)), Err(ErrorKind::RouteMissing));
    let unusable = vec![route(16, ip(10, 0, 0, 0), None, None)];
    assert_eq!(select_route(&unusable, ip(10, 0, 0, 3)), Err(ErrorKind::RouteMissing));
}

#[test]
fn last_entered_route_shadows_its_prefix() {
    // The later entry for 10.1.2.0/24 names neither a source nor an
    // interface: it replaces the earlier one, and the /8 route decides.
    let routes = vec![
        route(8, ip(10, 0, 0, 0), Some(ip(10, 9, 9, 9)), None),
        route(24, ip(10, 1, 2, 0), Some(ip(10, 1, 2, 5)), None),
        route(24, ip(10, 1, 2, 0), None, None),
    ];
    assert_eq!(select_route(&routes, ip(10, 1, 2, 3)), Ok(RouteChoice::Source(ip(10, 9, 9, 9))));
    let bad_len = vec![route(40, ip(10, 1, 2, 3), Some(1), None)];
    assert_eq!(select_route(&bad_len, ip(10, 1, 2, 3)), Err(ErrorKind::RouteMissing));
}

use rdma_bench::control::QpEndpoint;
use rdma_bench::error::ErrorKind;
use rdma_bench::gid::{
    gid_from_ids, gid_interface_id, gid_ipv4, gid_subnet_prefix, gid_to_ipv6_string, ipv6_string,
    locate_roce, multi_ip_slots, select_gid, Destination, GidTableEntry, GidType,
};

fn mapped(ip: [u8; 4]) -> [u8; 16] {
    let mut g = [0u8; 16];
    g[10] = 0xff;
    g[11] = 0xff;
    g[12..].copy_from_slice(&ip);
    g
}

fn ip(a: u8, b: u8, c: u8, d: u8) -> u32 {
    u32::from_be_bytes([a, b, c, d])
}

fn entry(port: u8, gid_index: i32, gid: [u8; 16], t: Option<GidType>) -> GidTableEntry {
    GidTableEntry { device_index: 0, port, gid_index, gid, gid_type: t }
}

#[test]
fn locate_roce_finds_v2_slot() {
    let entries = vec![
        entry(1, 0, [0xfe, 0x80, 0, 0, 0, 0, 0, 0, 1, 2, 3, 4, 5, 6, 7, 8], None),
        entry(1, 1, [0xfe, 0x80, 0, 0, 0, 0, 0, 0, 1, 2, 3, 4, 5, 6, 7, 8], None),
        entry(1, 2, mapped([10, 0, 0, 5]), Some(GidType::RoceV1)),
        entry(1, 3, mapped([10, 0, 0, 5]), Some(GidType::RoceV2)),
        entry(1, 4, mapped([10, 0, 0, 5]), Some(GidType::RoceV2)),
    ];
    let k = locate_roce(&entries, ip(10, 0, 0, 5)).unwrap();
    assert_eq!(entries[k].device_index, 0);
    assert_eq!(entries[k].port, 1);
    assert_eq!(entries[k].gid_index, 3);
    assert_eq!(locate_roce(&entries, ip(10, 0, 0, 6)), Err(ErrorKind::NoRoceEndpoint));
    assert_eq!(locate_roce(&Vec::new(), ip(10, 0, 0, 5)), Err(ErrorKind::NoRoceEndpoint));
}

#[test]
fn located_gid_text() {
    let entries = vec![entry(1, 0, mapped([10, 1, 2, 3]), Some(GidType::RoceV2))];
    let k = locate_roce(&entries, ip(10, 1, 2, 3)).unwrap();
    assert_eq!(ipv6_string(&entries[k].gid), "::ffff:a01:203");
    let d = Destination { lid: 0, qpn: 1, psn: 2, gid: entries[k].gid };
    assert_eq!(d.gid_to_ipv6_string(), "::ffff:a01:203");
}

#[test]
fn ipv6_text_forms() {
    assert_eq!(ipv6_string(&[0u8; 16]), "::");
    let mut g = [0u8; 16];
    g[15] = 1;
    assert_eq!(ipv6_string(&g), "::1");
    let g = [0xfe, 0x80, 0, 0, 0, 0, 0, 0, 0x02, 0x1b, 0, 0, 0, 0, 0, 0x42];
    assert_eq!(ipv6_string(&g), "fe80::21b:0:0:42");
    let g = [0x20, 0x01, 0x0d, 0xb8, 0, 0, 0, 0, 0, 1, 0, 0, 0, 0, 0, 1];
    assert_eq!(ipv6_string(&g), "2001:db8::1:0:0:1");
    let g = [0x20, 0x01, 0x0d, 0xb8, 0, 1, 0, 0, 0, 1, 0, 0, 0, 0, 0, 1];
    assert_eq!(ipv6_string(&g), "2001:db8:1:0:1::1");
    let g = [0x12, 0x34, 0, 5, 0, 0x67, 0, 8, 0, 9, 0, 0x0a, 0, 0x0b, 0xab, 0xcd];
    assert_eq!(ipv6_string(&g), "1234:5:67:8:9:a:b:abcd");
    assert_eq!(ipv6_string(&mapped([0, 0, 0, 0])), "::ffff:0:0");
}

#[test]
fn gid_segments_and_zero() {
    assert_eq!(gid_to_ipv6_string(&[0u8; 16]), None);
    let s = gid_to_ipv6_string(&mapped([10, 1, 2, 3])).unwrap();
    assert_eq!(s, [0, 0, 0, 0, 0, 0xffff, 0x0a01, 0x0203]);
}

#[test]
fn embedded_ipv4() {
    assert_eq!(gid_ipv4(&mapped([192, 168, 1, 20])), Some(ip(192, 168, 1, 20)));
    let mut g = mapped([192, 168, 1, 20]);
    g[10] = 0;
    assert_eq!(gid_ipv4(&g), None);
    let mut g = mapped([1, 2, 3, 4]);
    g[0] = 0xfe;
    assert_eq!(gid_ipv4(&g), None);
}

#[test]
fn gid_halves_round_trip() {
    let g = mapped([10, 0, 0, 5]);
    let s = gid_subnet_prefix(&g);
    let i = gid_interface_id(&g);
    assert_eq!(s, 0);
    assert_eq!(i, u64::from_le_bytes([0, 0, 0xff, 0xff, 10, 0, 0, 5]));
    assert_eq!(gid_from_ids(s, i), g);
    let e = QpEndpoint::local(17, &g, 99);
    assert_eq!(e.qpn, 17);
    assert_eq!(e.psn, 99);
    assert_eq!(e.lid, 0);
    assert_eq!(e.gid(), g);
    let raw = gid_from_ids(0x0102_0304_0506_0708, 0x1112_1314_1516_1718);
    assert_eq!(raw[0], 0x08);
    assert_eq!(raw[7], 0x01);
    assert_eq!(raw[8], 0x18);
}

#[test]
fn gid_type_text() {
    assert_eq!(GidType::from_str("RoCE v2"), GidType::RoceV2);
    assert_eq!(GidType::from_str("IB/RoCE v1"), GidType::RoceV1);
    assert_eq!(GidType::from_str("RoCE v3"), GidType::Other);
    assert_eq!(GidType::from_str("something else"), GidType::Other);
    assert_eq!(GidType::from_str(""), GidType::Other);
}

#[test]
fn server_gid_choice() {
    assert_eq!(select_gid(Some(4), 0, 9), Ok(4));
    assert_eq!(select_gid(None, 3, 0), Ok(0));
    assert_eq!(select_gid(None, 3, 4), Ok(1));
    assert_eq!(select_gid(None, 0, 0), Err(ErrorKind::NoRoceEndpoint));
}

#[test]
fn unknown_gid_type_is_not_roce_v2() {
    let entries = vec![
        entry(1, 0, mapped([10, 0, 0, 5]), Some(GidType::from_str("RoCE v3"))),
        entry(1, 1, mapped([10, 0, 0, 5]), Some(GidType::from_str("IB/RoCE v1"))),
    ];
    assert_eq!(locate_roce(&entries, ip(10, 0, 0, 5)), Err(ErrorKind::NoRoceEndpoint));
    let mut more = entries.clone();
    more.push(entry(2, 7, mapped([10, 0, 0, 5]), Some(GidType::from_str("RoCE v2"))));
    let k = locate_roce(&more, ip(10, 0, 0, 5)).unwrap();
    assert_eq!((more[k].port, more[k].gid_index), (2, 7));
}

#[test]
fn multi_ip_slot_list() {
    let entries = vec![
        entry(1, 0, [0xfe, 0x80, 0, 0, 0, 0, 0, 0, 1, 2, 3, 4, 5, 6, 7, 8], Some(GidType::RoceV2)),
        entry(1, 1, mapped([10, 0, 0, 5]), Some(GidType::RoceV2)),
        entry(1, 2, mapped([10, 0, 0, 6]), Some(GidType::RoceV1)),
        entry(1, 3, mapped([10, 0, 0, 7]), None),
        entry(2, 0, mapped([10, 0, 1, 5]), Some(GidType::RoceV2)),
        entry(2, 1, mapped([10, 0, 1, 6]), Some(GidType::Other)),
    ];
    assert_eq!(multi_ip_slots(&entries), vec![1, 4]);
    assert_eq!(multi_ip_slots(&Vec::new()), Vec::<usize>::new());
}

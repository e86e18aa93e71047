use rdma_bench::config::{checked_config, parse_size, TransferConfig};
use rdma_bench::control::{Family, GrpcClient, Mode};
use rdma_bench::error::{CustomError, ErrorKind, QpState};
use rdma_bench::qp::{
    gen_psn, init_attributes, psn_from, qp_caps, rtr_attributes, rts_attributes,
    ACCESS_LOCAL_WRITE, ACCESS_REMOTE_READ, ACCESS_REMOTE_WRITE,
};

#[test]
fn sizes_with_units() {
    assert_eq!(parse_size("1MB"), Ok(1_000_000));
    assert_eq!(parse_size("65536B"), Ok(65536));
    assert_eq!(parse_size("64KiB"), Ok(65536));
    assert_eq!(parse_size("1MiB"), Ok(1 << 20));
    assert_eq!(parse_size("4096"), Ok(4096));
    assert_eq!(parse_size("lots"), Err(ErrorKind::ConfigParse));
    assert_eq!(parse_size(""), Err(ErrorKind::ConfigParse));
}

#[test]
fn config_checks() {
    let c = TransferConfig::parse("1MB", "65536B", 5, 1, 1).unwrap();
    assert_eq!(c, TransferConfig { volume: 1_000_000, msg_size: 65536, iterations: 5, qps: 1, delay: 1 });
    assert_eq!(TransferConfig::parse("1MB", "x", 5, 1, 1), Err(ErrorKind::ConfigParse));
    assert_eq!(TransferConfig::parse("1MB", "0", 5, 1, 1), Err(ErrorKind::ConfigParse));
    assert_eq!(TransferConfig::parse("1MB", "1KB", 5, 0, 1), Err(ErrorKind::ConfigParse));
    assert_eq!(checked_config(u64::MAX, 1, 2, 1, 0), Err(ErrorKind::ConfigParse));
    assert_eq!(checked_config(10, 1u64 << 33, 2, 1, 0), Err(ErrorKind::ConfigParse));
    assert!(checked_config(u64::MAX, 1, 1, 1, 0).is_ok());
}

#[test]
fn psn_is_24_bits() {
    for _ in 0..100 {
        assert!(gen_psn() < (1 << 24));
    }
    assert_eq!(psn_from(0xffff_ffff), 0xff_ffff);
    assert_eq!(psn_from(0x1234_5678), 0x34_5678);
}

#[test]
fn qp_transitions() {
    assert_eq!(QpState::Reset.after_modify(QpState::Init, 0), Ok(QpState::Init));
    assert_eq!(QpState::Init.after_modify(QpState::Rtr, 0), Ok(QpState::Rtr));
    assert_eq!(QpState::Rtr.after_modify(QpState::Rts, 0), Ok(QpState::Rts));
    assert_eq!(
        QpState::Init.after_modify(QpState::Rtr, 22),
        Err(ErrorKind::QpTransition(QpState::Rtr))
    );
    assert_eq!(
        QpState::Reset.after_modify(QpState::Rts, 0),
        Err(ErrorKind::QpTransition(QpState::Rts))
    );
    assert_eq!(QpState::Rts.successor(), None);
    assert_eq!(QpState::Error.successor(), None);
}

#[test]
fn qp_attributes() {
    let caps = qp_caps();
    assert!(caps.max_send_wr >= 4096 && caps.max_recv_wr >= 4096);
    assert!(caps.max_send_sge >= 15 && caps.max_inline_data >= 64 && !caps.sq_sig_all);
    let init = init_attributes(1);
    assert_eq!(init.port_num, 1);
    assert_eq!(init.pkey_index, 0);
    assert_eq!(init.access_flags, ACCESS_LOCAL_WRITE | ACCESS_REMOTE_READ | ACCESS_REMOTE_WRITE);
    assert_eq!(init.access_flags, 7);
    let gid = [9u8; 16];
    let rtr = rtr_attributes(gid, 33, 44, 3, 2);
    assert_eq!(rtr.port_num, 2);
    assert_eq!(rtr.path_mtu, 4096);
    assert_eq!((rtr.dest_qp_num, rtr.rq_psn, rtr.sgid_index), (33, 44, 3));
    assert_eq!((rtr.max_dest_rd_atomic, rtr.min_rnr_timer, rtr.hop_limit), (1, 12, 10));
    assert!(rtr.is_global);
    assert_eq!(rtr.dgid, gid);
    let rts = rts_attributes(55);
    assert_eq!((rts.timeout, rts.retry_cnt, rts.rnr_retry, rts.sq_psn, rts.max_rd_atomic), (14, 7, 7, 55, 1));
}

#[test]
fn control_client_and_errors() {
    let c = GrpcClient::new("http://10.0.0.1:7471".to_string(), 3, Mode::MultiIp, Family::Inet, 4);
    assert_eq!(c.address, "http://10.0.0.1:7471");
    assert_eq!((c.client_id, c.mode, c.family, c.qpns), (3, Mode::MultiIp, Family::Inet, 4));
    let e = CustomError::new("wrong byte unit".to_string(), -1);
    assert_eq!(e.code(), -1);
    assert_eq!(e.message(), "wrong byte unit");
}

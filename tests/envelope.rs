use rdma_bench::envelope::{MetaData, MetaDataRequestTypes, ENVELOPE_LEN};

#[test]
fn envelope_round_trip() {
    let mut m = MetaData::default();
    m.set_request_type(MetaDataRequestTypes::WriteResponse);
    m.set_remote_address(0x0123_4567_89ab_cdef);
    m.set_message_size(1 << 40);
    m.set_rkey(0xdead_beef);
    m.lkey = 77;
    m.set_iterations(5);
    let b = m.to_bytes();
    assert_eq!(b.len(), ENVELOPE_LEN);
    assert_eq!(b.len(), MetaData::LEN);
    assert_eq!(MetaData::from_bytes(&b), Some(m));
    assert_eq!(m.get_request_type(), MetaDataRequestTypes::WriteResponse);
    assert_eq!(m.rkey(), 0xdead_beef);
    assert_eq!(m.remote_address(), 0x0123_4567_89ab_cdef);
    assert_eq!(m.message_size(), 1 << 40);
    assert_eq!(m.iterations(), 5);
}

#[test]
fn envelope_layout() {
    let m = MetaData {
        request_type: 3,
        remote_address: 0x0807_0605_0403_0201,
        message_size: 0x1112,
        rkey: 0x2122_2324,
        lkey: 0x3132_3334,
        iterations: 9,
    };
    let b = m.to_bytes();
    assert_eq!(&b[0..8], &[3, 0, 0, 0, 0, 0, 0, 0]);
    assert_eq!(&b[8..16], &[1, 2, 3, 4, 5, 6, 7, 8]);
    assert_eq!(&b[16..24], &[0x12, 0x11, 0, 0, 0, 0, 0, 0]);
    assert_eq!(&b[24..28], &[0x24, 0x23, 0x22, 0x21]);
    assert_eq!(&b[28..32], &[0x34, 0x33, 0x32, 0x31]);
    assert_eq!(&b[32..40], &[9, 0, 0, 0, 0, 0, 0, 0]);
}

#[test]
fn envelope_wrong_length() {
    assert_eq!(MetaData::from_bytes(&[0u8; 39]), None);
    assert_eq!(MetaData::from_bytes(&[0u8; 41]), None);
}

#[test]
fn request_type_codes() {
    let all = [
        (MetaDataRequestTypes::Disconnect, 0u8),
        (MetaDataRequestTypes::WriteRequest, 1),
        (MetaDataRequestTypes::WriteResponse, 2),
        (MetaDataRequestTypes::WriteFinished, 3),
        (MetaDataRequestTypes::SendRequest, 4),
        (MetaDataRequestTypes::SendResponse, 5),
        (MetaDataRequestTypes::SendFinished, 6),
        (MetaDataRequestTypes::ReadRequest, 7),
        (MetaDataRequestTypes::ReadResponse, 8),
        (MetaDataRequestTypes::ReadFinished, 9),
        (MetaDataRequestTypes::UnDef, 128),
    ];
    for (t, c) in all {
        assert_eq!(t.code(), c);
        let mut m = MetaData::default();
        m.set_request_type(t);
        assert_eq!(m.request_type, c);
        assert_eq!(m.get_request_type(), t);
    }
    let m = MetaData { request_type: 42, ..MetaData::default() };
    assert_eq!(m.get_request_type(), MetaDataRequestTypes::UnDef);
}

use bytes::Bytes;
use rtp_h264::payloader::emit;
use rtp_h264::H264Payloader;

fn payloads(mtu: usize, stream: &[u8]) -> Vec<Vec<u8>> {
    let mut payloader = H264Payloader;
    let out = payloader
        .payload(mtu, &Bytes::copy_from_slice(stream))
        .expect("the payloader never fails");
    out.iter().map(|b| b.to_vec()).collect()
}

fn emitted(mtu: usize, nalu: &[u8]) -> Vec<Vec<u8>> {
    let mut out = vec![Bytes::from_static(&[0xAA])];
    emit(&Bytes::copy_from_slice(nalu), mtu, &mut out);
    assert_eq!(out[0].to_vec(), vec![0xAA], "what was there stays first");
    out[1..].iter().map(|b| b.to_vec()).collect()
}

#[test]
fn payload_of_empty_stream_is_empty() {
    assert!(payloads(1, &[]).is_empty());
    assert!(payloads(1500, &[]).is_empty());
    assert!(payloads(0, &[]).is_empty());
}

#[test]
fn payload_with_zero_mtu_is_empty() {
    assert!(payloads(0, &[0x90, 0x90, 0x90]).is_empty());
    assert!(payloads(0, &[0x00, 0x00, 0x01, 0x65, 0x01]).is_empty());
}

#[test]
fn payload_small_nalu_is_sent_as_it_is() {
    assert_eq!(payloads(1, &[0x90]), vec![vec![0x90]]);
    assert_eq!(payloads(5, &[0x90, 0x90, 0x90]), vec![vec![0x90, 0x90, 0x90]]);
    assert_eq!(payloads(3, &[0x65, 0x01, 0x02]), vec![vec![0x65, 0x01, 0x02]]);
}

#[test]
fn payload_splits_at_start_codes() {
    assert_eq!(
        payloads(5, &[0x00, 0x00, 0x01, 0x90, 0x00, 0x00, 0x01, 0x90]),
        vec![vec![0x90], vec![0x90]]
    );
    assert_eq!(
        payloads(10, &[0x00, 0x00, 0x00, 0x01, 0x67, 0x42, 0x00, 0x00, 0x01, 0x68, 0xCE]),
        vec![vec![0x67, 0x42], vec![0x68, 0xCE]]
    );
}

#[test]
fn payload_drops_what_stands_before_the_first_start_code() {
    assert_eq!(
        payloads(10, &[0x65, 0x11, 0x00, 0x00, 0x01, 0x41, 0x22]),
        vec![vec![0x41, 0x22]]
    );
}

#[test]
fn payload_skips_empty_units_between_start_codes() {
    assert_eq!(
        payloads(10, &[0x00, 0x00, 0x01, 0x00, 0x00, 0x01, 0x41, 0x22, 0x00, 0x00, 0x01]),
        vec![vec![0x41, 0x22]]
    );
}

#[test]
fn payload_large_nalu_is_fragmented() {
    let stream: Vec<u8> = vec![
        0x00, 0x00, 0x01, 0x00, 0x01, 0x02, 0x03, 0x04, 0x05, 0x06, 0x07, 0x08, 0x09, 0x10, 0x11,
        0x12, 0x13, 0x14, 0x15,
    ];
    assert_eq!(
        payloads(5, &stream),
        vec![
            vec![0x1c, 0x80, 0x01, 0x02, 0x03],
            vec![0x1c, 0x00, 0x04, 0x05, 0x06],
            vec![0x1c, 0x00, 0x07, 0x08, 0x09],
            vec![0x1c, 0x00, 0x10, 0x11, 0x12],
            vec![0x1c, 0x40, 0x13, 0x14, 0x15],
        ]
    );
}

#[test]
fn payload_last_fragment_may_be_shorter() {
    assert_eq!(
        payloads(4, &[0x65, 0x01, 0x02, 0x03, 0x04, 0x05]),
        vec![
            vec![0x7c, 0x85, 0x01, 0x02],
            vec![0x7c, 0x05, 0x03, 0x04],
            vec![0x7c, 0x45, 0x05],
        ]
    );
}

#[test]
fn payload_fragment_headers_keep_ref_idc_and_type() {
    // header 0x41: nal_ref_idc 2 (0x40), type 1
    assert_eq!(
        payloads(3, &[0x41, 0xA0, 0xA1]),
        vec![vec![0x41, 0xA0, 0xA1]]
    );
    assert_eq!(
        payloads(3, &[0x41, 0xA0, 0xA1, 0xA2]),
        vec![vec![0x5c, 0x81, 0xA0], vec![0x5c, 0x01, 0xA1], vec![0x5c, 0x41, 0xA2]]
    );
    // the forbidden bit of the header is not carried over
    assert_eq!(
        payloads(4, &[0xE5, 0x01, 0x02, 0x03, 0x04]),
        vec![vec![0x7c, 0x85, 0x01, 0x02], vec![0x7c, 0x45, 0x03, 0x04]]
    );
}

#[test]
fn payload_drops_types_9_and_12() {
    for mtu in [1usize, 2, 3, 5, 1500] {
        assert!(payloads(mtu, &[0x09, 0x00, 0x00]).is_empty());
        assert!(payloads(mtu, &[0x0C, 0x01, 0x02, 0x03, 0x04, 0x05, 0x06]).is_empty());
        assert!(payloads(mtu, &[0x69, 0xF0]).is_empty());
        assert!(payloads(mtu, &[0x2C]).is_empty());
    }
    assert_eq!(
        payloads(5, &[0x00, 0x00, 0x01, 0x09, 0xF0, 0x00, 0x00, 0x01, 0x41, 0x01]),
        vec![vec![0x41, 0x01]]
    );
}

#[test]
fn payload_gives_nothing_where_the_mtu_has_no_room_for_a_fragment() {
    assert!(payloads(1, &[0x65, 0x01, 0x02]).is_empty());
    assert!(payloads(2, &[0x65, 0x01, 0x02]).is_empty());
    assert_eq!(
        payloads(3, &[0x65, 0x01, 0x02, 0x03]),
        vec![vec![0x7c, 0x85, 0x01], vec![0x7c, 0x05, 0x02], vec![0x7c, 0x45, 0x03]]
    );
}

#[test]
fn payload_never_exceeds_the_mtu() {
    let mut stream = vec![0x00, 0x00, 0x00, 0x01, 0x65];
    stream.extend((0..200u32).map(|i| (i % 250 + 2) as u8));
    stream.extend([0x00, 0x00, 0x01, 0x41, 0x07, 0x08]);
    for mtu in 3usize..40 {
        let out = payloads(mtu, &stream);
        assert!(!out.is_empty());
        for p in &out {
            assert!(!p.is_empty() && p.len() <= mtu);
        }
    }
}

#[test]
fn emit_appends_to_what_is_there() {
    assert_eq!(emitted(10, &[0x65, 0x01]), vec![vec![0x65, 0x01]]);
    assert_eq!(
        emitted(3, &[0x65, 0x01, 0x02, 0x03]),
        vec![vec![0x7c, 0x85, 0x01], vec![0x7c, 0x05, 0x02], vec![0x7c, 0x45, 0x03]]
    );
}

#[test]
fn emit_gives_nothing_for_degenerate_input() {
    assert!(emitted(10, &[]).is_empty());
    assert!(emitted(0, &[]).is_empty());
    assert!(emitted(0, &[0x65]).is_empty());
    assert!(emitted(0, &[0x65, 0x01, 0x02]).is_empty());
    assert!(emitted(2, &[0x65, 0x01, 0x02]).is_empty());
    assert!(emitted(10, &[0x09, 0x01]).is_empty());
    assert!(emitted(10, &[0x0C]).is_empty());
}

#[test]
fn emit_does_not_look_for_start_codes() {
    assert_eq!(
        emitted(10, &[0x65, 0x00, 0x00, 0x01, 0x41]),
        vec![vec![0x65, 0x00, 0x00, 0x01, 0x41]]
    );
}

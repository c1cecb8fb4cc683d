use bytes::Bytes;
use rtp_h264::H264PartitionHeadChecker;

fn is_head(packet: &[u8]) -> bool {
    H264PartitionHeadChecker::is_partition_head(&Bytes::copy_from_slice(packet))
}

#[test]
fn partition_head_of_empty_or_short_packet_is_false() {
    assert!(!is_head(&[]));
    assert!(!is_head(&[0x65]));
    assert!(!is_head(&[0x7c]));
}

#[test]
fn partition_head_of_single_nalu_is_true() {
    assert!(is_head(&[1, 0]));
    assert!(is_head(&[0x65, 0x00]));
    assert!(is_head(&[0x67, 0x42, 0x00]));
}

#[test]
fn partition_head_of_stap_a_and_other_types_is_true() {
    assert!(is_head(&[24, 0]));
    assert!(is_head(&[0x18, 0x00, 0x01, 0x65]));
    assert!(is_head(&[0x00, 0x00]));
    assert!(is_head(&[25, 0]));
    assert!(is_head(&[30, 0x00]));
}

#[test]
fn partition_head_of_fu_a_follows_the_start_bit() {
    assert!(is_head(&[28, 0x80]));
    assert!(is_head(&[0x7c, 0x85, 0x01]));
    assert!(is_head(&[0x7c, 0xC5, 0x01]));
    assert!(!is_head(&[28, 0x00]));
    assert!(!is_head(&[0x7c, 0x05, 0x01]));
    assert!(!is_head(&[0x7c, 0x45, 0x01]));
    assert!(!is_head(&[0x7c, 0x7f, 0x01]));
}

#[test]
fn partition_head_of_fu_b_follows_the_start_bit() {
    assert!(is_head(&[29, 0x80]));
    assert!(is_head(&[0x7d, 0x85]));
    assert!(!is_head(&[29, 0x00]));
    assert!(!is_head(&[0x7d, 0x45]));
}

use bytes::Bytes;
use rtp_h264::scan::next_ind;

fn find(data: &[u8], start: usize) -> Option<(usize, usize)> {
    next_ind(&Bytes::copy_from_slice(data), start)
}

#[test]
fn next_ind_finds_three_byte_code() {
    assert_eq!(find(&[0x00, 0x00, 0x01, 0x65], 0), Some((0, 3)));
    assert_eq!(find(&[0x65, 0x00, 0x00, 0x01, 0x65], 0), Some((1, 3)));
}

#[test]
fn next_ind_takes_the_whole_run_of_zeros() {
    assert_eq!(find(&[0x00, 0x00, 0x00, 0x01, 0x65], 0), Some((0, 4)));
    assert_eq!(find(&[0x07, 0x00, 0x00, 0x00, 0x00, 0x00, 0x01], 0), Some((1, 6)));
}

#[test]
fn next_ind_returns_the_first_code() {
    let data = [0x00, 0x00, 0x01, 0x90, 0x00, 0x00, 0x01, 0x90];
    assert_eq!(find(&data, 0), Some((0, 3)));
    assert_eq!(find(&data, 3), Some((4, 3)));
    assert_eq!(find(&data, 7), None);
}

#[test]
fn next_ind_does_not_count_zeros_before_start() {
    let data = [0x00, 0x00, 0x00, 0x01, 0x65];
    assert_eq!(find(&data, 1), Some((1, 3)));
    assert_eq!(find(&data, 2), None);
    assert_eq!(find(&data, 3), None);
}

#[test]
fn next_ind_needs_two_zeros_and_a_one() {
    assert_eq!(find(&[], 0), None);
    assert_eq!(find(&[0x00, 0x01], 0), None);
    assert_eq!(find(&[0x00, 0x00, 0x02], 0), None);
    assert_eq!(find(&[0x00, 0x00, 0x00], 0), None);
    assert_eq!(find(&[0x00, 0x01, 0x00, 0x01], 0), None);
    assert_eq!(find(&[0x01, 0x01, 0x01], 0), None);
    assert_eq!(find(&[0x00, 0x00, 0x02, 0x00, 0x00, 0x01], 0), Some((3, 3)));
}

#[test]
fn next_ind_past_the_end_finds_nothing() {
    assert_eq!(find(&[0x00, 0x00, 0x01], 3), None);
    assert_eq!(find(&[0x00, 0x00, 0x01], 4), None);
    assert_eq!(find(&[0x00, 0x00, 0x01], usize::MAX), None);
}

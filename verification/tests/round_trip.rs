use bytes::Bytes;
use rtp_h264::{H264Packet, H264PartitionHeadChecker, H264Payloader};

fn nalu(header: u8, len: usize) -> Vec<u8> {
    let mut unit = vec![header];
    unit.extend((1..len).map(|i| (i % 250 + 2) as u8));
    unit
}

#[test]
fn round_trip_without_fragmentation() {
    for is_avc in [false, true] {
        for header in [0x01u8, 0x41, 0x65, 0x67, 0x17, 0x77] {
            for len in [3usize, 4, 17, 100] {
                let unit = nalu(header, len);
                let sent = H264Payloader
                    .payload(len, &Bytes::copy_from_slice(&unit))
                    .unwrap();
                assert_eq!(sent.len(), 1);
                assert_eq!(sent[0].to_vec(), unit);

                let mut packet = H264Packet::new(is_avc);
                packet.depacketize(&sent[0]).unwrap();
                let mut expected = if is_avc {
                    (len as u32).to_be_bytes().to_vec()
                } else {
                    vec![0x00, 0x00, 0x00, 0x01]
                };
                expected.extend_from_slice(&unit);
                assert_eq!(packet.payload.to_vec(), expected);
            }
        }
    }
}

#[test]
fn round_trip_with_fragmentation() {
    for is_avc in [false, true] {
        for header in [0x65u8, 0x41, 0x01, 0xE5, 0x00, 0x7F] {
            let sizes = [(4usize, 3usize), (10, 4), (11, 4), (300, 50), (1000, 999), (70000, 1200)];
            for (len, mtu) in sizes {
                let unit = nalu(header, len);
                let sent = H264Payloader
                    .payload(mtu, &Bytes::copy_from_slice(&unit))
                    .unwrap();
                assert_eq!(sent.len(), (len - 1 + mtu - 3) / (mtu - 2));
                assert!(sent.len() >= 2);

                let mut packet = H264Packet::new(is_avc);
                for (k, fragment) in sent.iter().enumerate() {
                    let last = k == sent.len() - 1;
                    assert!(fragment.len() <= mtu);
                    assert_eq!(fragment[0] & 0x1F, 28);
                    assert_eq!(fragment[1] & 0x80 != 0, k == 0);
                    assert_eq!(fragment[1] & 0x40 != 0, last);
                    assert_eq!(
                        H264PartitionHeadChecker::is_partition_head(fragment),
                        k == 0
                    );
                    packet.depacketize(fragment).unwrap();
                    if !last {
                        assert!(packet.payload.is_empty());
                    }
                }
                let mut expected = if is_avc {
                    (len as u32).to_be_bytes().to_vec()
                } else {
                    vec![0x00, 0x00, 0x00, 0x01]
                };
                expected.push(header & 0x7F);
                expected.extend_from_slice(&unit[1..]);
                assert_eq!(packet.payload.to_vec(), expected);
            }
        }
    }
}

#[test]
fn round_trip_of_a_stream_of_units() {
    let units = [nalu(0x67, 12), nalu(0x68, 4), nalu(0x65, 500), nalu(0x41, 90)];
    let mut stream = Vec::new();
    for unit in &units {
        stream.extend_from_slice(&[0x00, 0x00, 0x00, 0x01]);
        stream.extend_from_slice(unit);
    }
    let sent = H264Payloader
        .payload(100, &Bytes::copy_from_slice(&stream))
        .unwrap();
    let mut packet = H264Packet::default();
    let mut rebuilt = Vec::new();
    let mut heads = 0;
    for payload in &sent {
        if H264PartitionHeadChecker::is_partition_head(payload) {
            heads += 1;
        }
        packet.depacketize(payload).unwrap();
        rebuilt.extend_from_slice(&packet.payload);
    }
    assert_eq!(heads, units.len());
    assert_eq!(rebuilt, stream);
}

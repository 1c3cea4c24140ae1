use actor_store::network::{decode_frame_length, encode_frame, frame_payload, NetworkLayer};
use actor_store::string_map::StringMap;
use actor_store::text::decimal;

#[test]
fn frame_starts_with_big_endian_length() {
    let payload: Vec<u8> = (0..300u32).map(|i| (i % 251) as u8).collect();
    let frame = encode_frame(&payload);
    assert_eq!(&frame[..4], &[0, 0, 1, 44]);
    assert_eq!(&frame[4..], &payload[..]);
    assert_eq!(frame.len(), 304);
}

#[test]
fn header_length_is_decoded_big_endian() {
    assert_eq!(decode_frame_length(&[0, 0, 0, 0]), 0);
    assert_eq!(decode_frame_length(&[0, 0, 1, 44]), 300);
    assert_eq!(decode_frame_length(&[1, 2, 3, 4]), 0x01020304);
    assert_eq!(decode_frame_length(&[255, 255, 255, 255]), 0xffff_ffff);
}

#[test]
fn frame_gives_back_its_payload() {
    for len in [0usize, 1, 255, 256, 70000] {
        let payload: Vec<u8> = (0..len).map(|i| (i * 7 % 256) as u8).collect();
        let frame = encode_frame(&payload);
        assert_eq!(frame_payload(&frame), Some(payload));
    }
}

#[test]
fn short_frames_have_no_payload() {
    assert_eq!(frame_payload(&vec![0, 0, 0]), None);
    assert_eq!(frame_payload(&vec![0, 0, 0, 5, 1, 2]), None);
    assert_eq!(frame_payload(&vec![0, 0, 0, 2, 1, 2, 3]), Some(vec![1, 2]));
}

#[test]
fn network_layer_keeps_its_address() {
    let n = NetworkLayer::new("node1".to_string(), "127.0.0.1:8001".to_string());
    assert_eq!(n.node_id(), "node1");
    assert_eq!(n.listen_addr(), "127.0.0.1:8001");
}

#[test]
fn numbers_render_in_decimal() {
    assert_eq!(decimal(0), "0");
    assert_eq!(decimal(7), "7");
    assert_eq!(decimal(1234), "1234");
    assert_eq!(decimal(u64::MAX), "18446744073709551615");
}

#[test]
fn string_map_keeps_one_value_per_key() {
    let mut m: StringMap<u64> = StringMap::new();
    assert_eq!(m.insert("a".to_string(), 1), None);
    assert_eq!(m.insert("b".to_string(), 2), None);
    assert_eq!(m.insert("a".to_string(), 3), Some(1));
    assert_eq!(m.len(), 2);
    assert_eq!(m.values(), vec![3, 2]);
    assert!(m.contains_key(&"b".to_string()));
    assert_eq!(m.remove(&"a".to_string()), Some(3));
    assert_eq!(m.remove(&"a".to_string()), None);
    assert_eq!(m.copied().values(), vec![2]);
    m.clear();
    assert_eq!(m.len(), 0);
}

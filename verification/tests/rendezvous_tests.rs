use qft::rendezvous::{pad_to_map_len, HelperMap, HelperStep};
use qft::MAP_LEN;

#[test]
fn pad_fills_to_map_len_with_zeros() {
    let buf = pad_to_map_len(b"hello");
    assert_eq!(buf.len(), MAP_LEN);
    assert_eq!(&buf[..5], b"hello");
    assert!(buf[5..].iter().all(|b| *b == 0));
}

#[test]
fn pad_cuts_overlong_input() {
    let long = vec![7u8; MAP_LEN + 50];
    let buf = pad_to_map_len(&long);
    assert_eq!(buf.len(), MAP_LEN);
    assert!(buf.iter().all(|b| *b == 7));
}

#[test]
fn two_peers_with_the_same_tag_are_paired() {
    let mut map = HelperMap::new();
    let tag = pad_to_map_len(b"hello");
    let first = map.process(&tag, b"1.2.3.4:5678");
    assert!(matches!(first, HelperStep::Stored));
    match map.process(&tag, b"9.8.7.6:5432") {
        HelperStep::Relay { other_addr, to_other, to_sender } => {
            assert_eq!(other_addr, b"1.2.3.4:5678".to_vec());
            assert_eq!(to_other, pad_to_map_len(b"9.8.7.6:5432"));
            assert_eq!(to_sender, pad_to_map_len(b"1.2.3.4:5678"));
            assert_eq!(to_other.len(), MAP_LEN);
            assert_eq!(to_sender.len(), MAP_LEN);
        },
        _ => panic!("the second peer with the tag must be relayed"),
    }
    // The tag was forgotten when the pair was served.
    assert!(matches!(map.process(&tag, b"5.5.5.5:1"), HelperStep::Stored));
}

#[test]
fn wrong_sized_datagrams_are_ignored() {
    let mut map = HelperMap::new();
    assert!(matches!(map.process(b"hello", b"1.2.3.4:5678"), HelperStep::Ignored));
    let long = vec![1u8; MAP_LEN + 1];
    assert!(matches!(map.process(&long, b"1.2.3.4:5678"), HelperStep::Ignored));
    // Nothing was stored by either.
    let tag = pad_to_map_len(b"hello");
    assert!(matches!(map.process(&tag, b"1.2.3.4:5678"), HelperStep::Stored));
}

#[test]
fn different_tags_wait_separately() {
    let mut map = HelperMap::new();
    let t1 = pad_to_map_len(b"hello");
    let t2 = pad_to_map_len(b"world");
    assert!(matches!(map.process(&t1, b"1.1.1.1:1"), HelperStep::Stored));
    assert!(matches!(map.process(&t2, b"2.2.2.2:2"), HelperStep::Stored));
    match map.process(&t1, b"3.3.3.3:3") {
        HelperStep::Relay { other_addr, .. } => assert_eq!(other_addr, b"1.1.1.1:1".to_vec()),
        _ => panic!("tag must pair with its own first peer"),
    }
    match map.process(&t2, b"4.4.4.4:4") {
        HelperStep::Relay { other_addr, .. } => assert_eq!(other_addr, b"2.2.2.2:2".to_vec()),
        _ => panic!("tag must pair with its own first peer"),
    }
}

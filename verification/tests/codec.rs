//! Wire-codec and connection-runtime behaviour, end to end.

use whale_land::ObjectId;
use whale_land::error::Error;
use whale_land::fixed::Fixed;
use whale_land::connection::{HandlerRegistry, ObjectIdAllocator, PacketReceiver};
use whale_land::packet::{parse_header, Packet, MAX_PACKET_SIZE};
use whale_land::clipboard::{global_event_args_to_bind_request_packet, GlobalEventArgs};

#[test]
fn uint_round_trip_boundaries() {
    for v in [0u32, 1, 7, u32::MAX] {
        let mut p = Packet::new(ObjectId(1), 0);
        p.push_uint(v);
        let mut r = p.read();
        assert_eq!(r.read_uint().unwrap(), v);
        assert!(r.finish().is_ok());
    }
}

#[test]
fn int_round_trip_boundaries() {
    for v in [0i32, -1, i32::MIN, i32::MAX] {
        let mut p = Packet::new(ObjectId(1), 0);
        p.push_int(v);
        let mut r = p.read();
        assert_eq!(r.read_int().unwrap(), v);
        assert!(r.finish().is_ok());
    }
}

#[test]
fn fixed_round_trip_boundaries() {
    // the smallest and largest integer-representable fixed-point values
    for v in [-0x800000i32, 0x7FFFFF] {
        let f = Fixed::from_i32(v).unwrap();
        let mut p = Packet::new(ObjectId(1), 0);
        p.push_fixed(f);
        let mut r = p.read();
        let back = r.read_fixed().unwrap();
        assert_eq!(back.inner_value(), f.inner_value());
        assert_eq!(back.try_to_i32().unwrap(), v);
        assert!(r.finish().is_ok());
    }
}

#[test]
fn fixed_conversions_fail_explicitly() {
    assert!(Fixed::from_i32(0x800000).is_none());
    assert!(Fixed::from_i32(-0x800001).is_none());
    // a non-zero fractional residue refuses integer conversion
    assert!(Fixed::from_inner_value(257).try_to_i32().is_none());
    assert_eq!(Fixed::from_inner_value(512).try_to_i32().unwrap(), 2);
}

#[test]
fn string_round_trip_empty() {
    let mut p = Packet::new(ObjectId(1), 0);
    p.push_str("");
    let mut r = p.read();
    assert_eq!(r.read_str().unwrap(), "");
    assert!(r.finish().is_ok());
}

#[test]
fn string_round_trip_longest_in_budget() {
    // the longest string whose field still fits the packet size budget:
    // with the header, the length field, the NUL and the padding to a
    // multiple of four, 65519 string bytes serialize to 65532 bytes
    let s = "x".repeat(65519);
    let mut p = Packet::new(ObjectId(1), 0);
    p.push_str(&s);
    assert!(p.serialize().is_ok());
    let mut r = p.read();
    assert_eq!(r.read_str().unwrap(), s);
    assert!(r.finish().is_ok());
}

#[test]
fn array_round_trip_empty_and_odd() {
    for data in [vec![], vec![1u8], vec![1, 2, 3, 4, 5]] {
        let mut p = Packet::new(ObjectId(1), 0);
        p.push_array(&data);
        let mut r = p.read();
        assert_eq!(r.read_array().unwrap(), data);
        assert!(r.finish().is_ok());
    }
}

#[test]
fn object_round_trip_boundaries() {
    for v in [Some(ObjectId(1)), Some(ObjectId(u32::MAX)), None] {
        let mut p = Packet::new(ObjectId(1), 0);
        p.push_object(v);
        let mut r = p.read();
        assert_eq!(r.read_object().unwrap(), v);
        assert!(r.finish().is_ok());
    }
}

#[test]
fn string_padding_is_multiple_of_four() {
    for len in 0..9usize {
        let s = "a".repeat(len);
        let mut p = Packet::new(ObjectId(1), 0);
        p.push_str(&s);
        let ser = p.serialize().unwrap();
        assert_eq!((ser.len() - 8) % 4, 0, "string of length {}", len);
    }
}

#[test]
fn array_padding_is_multiple_of_four() {
    for len in 0..9usize {
        let a = vec![0xABu8; len];
        let mut p = Packet::new(ObjectId(1), 0);
        p.push_array(&a);
        let ser = p.serialize().unwrap();
        assert_eq!((ser.len() - 8) % 4, 0, "array of length {}", len);
    }
}

#[test]
fn serialized_size_is_header_plus_payload() {
    let mut p = Packet::new(ObjectId(9), 7);
    p.push_uint(1);
    p.push_uint(2);
    let ser = p.serialize().unwrap();
    assert_eq!(ser.len(), 8 + 8);
}

#[test]
fn serialize_fails_exactly_beyond_budget() {
    // 65527 payload bytes is the largest serializable payload
    let mut p = Packet::new(ObjectId(1), 0);
    let data = vec![0u8; 65523];
    p.push_array(&data);
    // 4 length bytes + 65523 data + 1 padding = 65528 > 65527
    match p.serialize() {
        Err(Error::PacketTooLong { actual, maximum }) => {
            assert_eq!(actual, 8 + 65528);
            assert_eq!(maximum, MAX_PACKET_SIZE);
        },
        other => panic!("expected the too-long error, got {:?}", other),
    }

    let mut q = Packet::new(ObjectId(1), 0);
    let data = vec![0u8; 65520];
    q.push_array(&data);
    // 4 + 65520 + 0 padding = 65524 bytes of payload; 8 + 65524 < 65535
    assert!(q.serialize().is_ok());
}

#[test]
fn header_round_trip() {
    let mut p = Packet::new(ObjectId(0xDEAD_BEEF), 0x1234);
    p.push_uint(42);
    let ser = p.serialize().unwrap();
    let h = parse_header(&ser[0..8]).unwrap();
    assert_eq!(h.object_id, ObjectId(0xDEAD_BEEF));
    assert_eq!(h.opcode, 0x1234);
    assert_eq!(h.total_size, ser.len());
}

#[test]
fn header_rejects_short_declared_size() {
    // a declared total of 7 bytes is below the 8-byte header
    let mut bytes = Vec::new();
    bytes.extend_from_slice(&1u32.to_le_bytes());
    bytes.extend_from_slice(&((7u32 << 16) | 5).to_le_bytes());
    match parse_header(&bytes) {
        Err(Error::PacketTooShort { actual, minimum }) => {
            assert_eq!(actual, 7);
            assert_eq!(minimum, 8);
        },
        other => panic!("expected the too-short error, got {:?}", other),
    }
}

#[test]
fn header_rejects_zero_object_id() {
    let mut bytes = Vec::new();
    bytes.extend_from_slice(&0u32.to_le_bytes());
    bytes.extend_from_slice(&((8u32 << 16) | 5).to_le_bytes());
    assert_eq!(parse_header(&bytes), Err(Error::ZeroObjectId));
}

#[test]
fn field_read_out_of_bounds() {
    let p = Packet::new(ObjectId(1), 0);
    let mut r = p.read();
    match r.read_uint() {
        Err(Error::FieldOutOfBounds { actual, maximum }) => {
            assert_eq!(actual, 4);
            assert_eq!(maximum, 0);
        },
        other => panic!("expected the bounds error, got {:?}", other),
    }
}

#[test]
fn fd_read_out_of_bounds() {
    let p = Packet::new(ObjectId(1), 0);
    let mut r = p.read();
    assert_eq!(r.read_fd(), Err(Error::FdOutOfBounds { total: 0 }));
}

#[test]
fn misplaced_nul_is_rejected() {
    // declared length 4, but the NUL sits at index 1
    let mut payload = 4u32.to_le_bytes().to_vec();
    payload.extend_from_slice(&[b'a', 0, b'b', 0]);
    let q = Packet::new_from_existing(ObjectId(1), 0, payload, vec![]);
    let mut r = q.read();
    match r.read_str() {
        Err(Error::StringMisplacedNul { actual, expected }) => {
            assert_eq!(actual, Some(1));
            assert_eq!(expected, 3);
        },
        other => panic!("expected the misplaced-NUL error, got {:?}", other),
    }
}

#[test]
fn invalid_utf8_is_rejected() {
    let mut payload = 3u32.to_le_bytes().to_vec();
    payload.extend_from_slice(&[0xFF, 0xFE, 0, 0]);
    let p = Packet::new_from_existing(ObjectId(1), 0, payload, vec![]);
    let mut r = p.read();
    match r.read_str() {
        Err(Error::StringInvalidUtf8 { data }) => assert_eq!(data, vec![0xFF, 0xFE]),
        other => panic!("expected the encoding error, got {:?}", other),
    }
}

#[test]
fn incomplete_read_is_rejected() {
    let mut p = Packet::new(ObjectId(1), 0);
    p.push_uint(1);
    p.push_uint(2);
    p.push_fd(3);
    let mut r = p.read();
    r.read_uint().unwrap();
    match r.finish() {
        Err(Error::IncompleteRead { read_bytes, total_bytes, read_fds, total_fds }) => {
            assert_eq!(read_bytes, 4);
            assert_eq!(total_bytes, 8);
            assert_eq!(read_fds, 0);
            assert_eq!(total_fds, 1);
        },
        other => panic!("expected the incomplete-read error, got {:?}", other),
    }
}

#[test]
fn identity_monotonicity() {
    let mut alloc = ObjectIdAllocator::new();
    let mut last = 0u32;
    for _ in 0..100 {
        let id = alloc.get_next_object_id();
        assert!(id.0 != 0);
        assert!(id.0 > last);
        last = id.0;
    }
}

#[test]
fn seen_then_alloc_is_greater() {
    let mut alloc = ObjectIdAllocator::new();
    alloc.object_id_seen(ObjectId(7_000_000));
    let id = alloc.get_next_object_id();
    assert!(id.0 > 7_000_000);
    // observing a smaller id later must not lower the counter
    alloc.object_id_seen(ObjectId(5));
    let next = alloc.get_next_object_id();
    assert!(next.0 > id.0);
}

#[test]
fn handle_ordering_preserved() {
    let mut p = Packet::new(ObjectId(3), 1);
    p.push_uint(77);
    p.push_fd(5);
    p.push_fd(7);
    p.push_fd(9);
    let ser = p.serialize().unwrap();

    let mut rx = PacketReceiver::new();
    rx.push_fds(&[5, 7, 9]);
    let mut pos = 0usize;
    while !rx.is_complete() {
        let wanted = rx.wanted();
        assert!(wanted > 0);
        let take = wanted.min(ser.len() - pos);
        rx.push_bytes(&ser[pos..pos + take]).unwrap();
        pos += take;
    }
    let got = rx.into_packet();
    assert_eq!(got.fds(), &[5, 7, 9]);
    let mut r = got.read();
    assert_eq!(r.read_uint().unwrap(), 77);
    assert_eq!(r.read_fd().unwrap(), 5);
    assert_eq!(r.read_fd().unwrap(), 7);
    assert_eq!(r.read_fd().unwrap(), 9);
    assert!(r.finish().is_ok());
}

#[test]
fn short_transfer_resilience() {
    // every transfer limited to one byte: the packet still arrives
    // byte-identical
    let mut p = Packet::new(ObjectId(11), 4);
    p.push_str("hello world");
    p.push_uint(0xCAFE_F00D);
    p.push_fd(42);
    let ser = p.serialize().unwrap();

    let mut rx = PacketReceiver::new();
    rx.push_fds(&[42]);
    for b in &ser {
        assert!(!rx.is_complete());
        rx.push_bytes(&[*b]).unwrap();
    }
    assert!(rx.is_complete());
    let got = rx.into_packet();
    assert_eq!(got, p);
    assert_eq!(got.serialize().unwrap(), ser);
}

#[test]
fn receiver_rejects_short_packet() {
    let mut bytes = Vec::new();
    bytes.extend_from_slice(&1u32.to_le_bytes());
    bytes.extend_from_slice(&((5u32 << 16) | 0).to_le_bytes());
    let mut rx = PacketReceiver::new();
    match rx.push_bytes(&bytes) {
        Err(Error::PacketTooShort { actual, minimum }) => {
            assert_eq!(actual, 5);
            assert_eq!(minimum, 8);
        },
        other => panic!("expected the too-short error, got {:?}", other),
    }
}

#[test]
fn missing_handler_is_recoverable() {
    let registry: HandlerRegistry<u64> = HandlerRegistry::new();
    let p = Packet::new(ObjectId(12), 0);
    match registry.dispatch(&p) {
        Err(Error::NoEventHandler { object_id }) => assert_eq!(object_id, ObjectId(12)),
        other => panic!("expected the no-handler condition, got {:?}", other),
    }
    // and the process is still alive to run the next dispatch
    let p2 = Packet::new(ObjectId(13), 0);
    assert!(registry.dispatch(&p2).is_err());
}

#[test]
fn register_replaces_silently() {
    let mut registry: HandlerRegistry<&str> = HandlerRegistry::new();
    registry.register_handler(ObjectId(4), "first");
    registry.register_handler(ObjectId(9), "other");
    registry.register_handler(ObjectId(4), "second");
    let p = Packet::new(ObjectId(4), 0);
    assert_eq!(*registry.dispatch(&p).unwrap(), "second");
    let q = Packet::new(ObjectId(9), 0);
    assert_eq!(*registry.dispatch(&q).unwrap(), "other");
}

#[test]
fn clear_payload_keeps_addressing() {
    let mut p = Packet::new(ObjectId(6), 2);
    p.push_uint(1);
    p.push_fd(3);
    p.clear_payload();
    assert_eq!(p.object_id(), ObjectId(6));
    assert_eq!(p.opcode(), 2);
    assert_eq!(p.serialize().unwrap().len(), 8);
    assert_eq!(p.fds().len(), 0);
}

#[test]
fn set_addressing() {
    let mut p = Packet::new(ObjectId(6), 2);
    p.set_object_id(ObjectId(8));
    p.set_opcode(11);
    assert_eq!(p.object_id(), ObjectId(8));
    assert_eq!(p.opcode(), 11);
}

#[test]
fn bind_request_packet_is_byte_exact() {
    let args = GlobalEventArgs { name: 3, interface: "wl_seat".to_owned(), version: 9 };
    let packet = global_event_args_to_bind_request_packet(&args, ObjectId(5), ObjectId(2));
    assert_eq!(packet.object_id(), ObjectId(2));
    assert_eq!(packet.opcode(), 0);
    let ser = packet.serialize().unwrap();
    let mut expected: Vec<u8> = Vec::new();
    expected.extend_from_slice(&2u32.to_le_bytes());
    // total length 32 packed over opcode 0
    expected.extend_from_slice(&(32u32 << 16).to_le_bytes());
    expected.extend_from_slice(&3u32.to_le_bytes());
    // the string field: length including NUL, bytes, NUL, pad to four
    expected.extend_from_slice(&8u32.to_le_bytes());
    expected.extend_from_slice(b"wl_seat\0");
    expected.extend_from_slice(&9u32.to_le_bytes());
    expected.extend_from_slice(&5u32.to_le_bytes());
    assert_eq!(ser, expected);
}

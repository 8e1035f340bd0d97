use monitorhop::assembler::ClipboardAssembler;
use monitorhop::clipboard::{
    decode_clipboard_frame, encode_clipboard_frame, encode_clipboard_transfer, ClipboardFrame,
    MAX_CLIPBOARD_DATAGRAM_SIZE, MAX_CLIPBOARD_SIZE,
};
use monitorhop::datagram::{decode_proto_datagram, DecodedDatagram};
use monitorhop::input_event::{ClipboardEvent, Event, KeyboardEvent, PointerEvent, BTN_LEFT};
use monitorhop::proto::{
    EventType, Position, ProtoEvent, ProtocolError, MAX_EVENT_SIZE, PROTOCOL_MAGIC,
};

#[test]
fn clipboard_round_trip() {
    let event = ProtoEvent::Clipboard {
        from_fingerprint: "abcd1234".into(),
        content: "hello, world".into(),
    };
    let (datagrams, hash) = encode_clipboard_transfer(&event, 42).expect("encode");
    assert!(datagrams
        .iter()
        .all(|d| d.len() <= MAX_CLIPBOARD_DATAGRAM_SIZE));
    let mut assembler = ClipboardAssembler::default();
    let mut transfer = None;
    for datagram in datagrams {
        let frame = decode_clipboard_frame(&datagram).expect("decode");
        transfer = assembler.push(frame).expect("assemble").or(transfer);
    }
    let transfer = transfer.expect("completed transfer");
    assert_eq!(transfer.transfer_id, 42);
    assert_eq!(transfer.from_fingerprint, "abcd1234");
    assert_eq!(transfer.content, "hello, world");
    assert_eq!(transfer.content_hash, hash);
}

#[test]
fn clipboard_too_large_rejected() {
    let event = ProtoEvent::Clipboard {
        from_fingerprint: "fp".into(),
        content: "x".repeat(MAX_CLIPBOARD_SIZE + 1),
    };
    assert!(matches!(
        encode_clipboard_transfer(&event, 1),
        Err(ProtocolError::ClipboardTooLarge(_))
    ));
}

#[test]
fn clipboard_large_unicode_round_trip_out_of_order() {
    let content = "ação 🚀\n".repeat(40_000);
    let event = ProtoEvent::Clipboard {
        from_fingerprint: "fp".into(),
        content: content.clone(),
    };
    let (datagrams, _) = encode_clipboard_transfer(&event, 7).expect("encode");
    let begin = decode_clipboard_frame(&datagrams[0]).expect("begin");
    let mut chunks: Vec<_> = datagrams[1..]
        .iter()
        .map(|d| decode_clipboard_frame(d).expect("chunk"))
        .collect();
    chunks.reverse();
    let mut assembler = ClipboardAssembler::default();
    assembler.push(begin).expect("begin accepted");
    let mut completed = None;
    for chunk in chunks {
        completed = assembler.push(chunk).expect("chunk accepted").or(completed);
    }
    assert_eq!(completed.expect("complete").content, content);
}

#[test]
fn clipboard_ack_round_trip() {
    let frame = ClipboardFrame::Ack {
        transfer_id: 99,
        content_hash: [7; 32],
        accepted: true,
    };
    let bytes = encode_clipboard_frame(&frame).expect("encode");
    assert_eq!(decode_clipboard_frame(&bytes).expect("decode"), frame);
}

#[test]
fn hello_round_trip_carries_magic() {
    let (buf, len): ([u8; MAX_EVENT_SIZE], usize) = ProtoEvent::hello(*b"abcd1234").encode();
    assert!(len <= MAX_EVENT_SIZE);
    match ProtoEvent::try_from(buf).expect("decode") {
        ProtoEvent::Hello { magic, commit } => {
            assert_eq!(magic, PROTOCOL_MAGIC);
            assert_eq!(&commit, b"abcd1234");
        }
        other => panic!("expected Hello, got {}", other.describe("", "", None)),
    }
}

#[test]
fn foreign_hello_decodes_but_magic_mismatches() {
    // A greeting of another program still decodes: it is the connection that
    // refuses it, by the magic.
    let foreign = ProtoEvent::Hello {
        magic: *b"LAN-MOUS",
        commit: *b"00000000",
    };
    let (buf, len): ([u8; MAX_EVENT_SIZE], usize) = foreign.encode();
    assert!(len <= MAX_EVENT_SIZE);
    let decoded: ProtoEvent = ProtoEvent::try_from(buf).expect("decode");
    assert!(!matches!(
        decoded,
        ProtoEvent::Hello { magic, .. } if magic == PROTOCOL_MAGIC
    ));
}

fn round_trip(event: ProtoEvent) {
    let (buf, len) = event.encode();
    assert!(len <= MAX_EVENT_SIZE);
    assert_eq!(buf[0], event.event_type().to_u8());
    let again = ProtoEvent::try_from(buf).expect("decode");
    assert_eq!(again.encode(), (buf, len));
    match decode_proto_datagram(&buf[..len]) {
        Some(DecodedDatagram::Proto(arrived)) => assert_eq!(arrived.encode(), (buf, len)),
        _ => panic!("an event"),
    }
}

#[test]
fn every_event_comes_through() {
    round_trip(ProtoEvent::Enter(Position::Top));
    round_trip(ProtoEvent::Leave(7));
    round_trip(ProtoEvent::Ack(u32::MAX));
    round_trip(ProtoEvent::Ping);
    round_trip(ProtoEvent::Pong(true));
    round_trip(ProtoEvent::Bounds { width: 1920, height: 1080 });
    round_trip(ProtoEvent::MotionAbsolute { x: -5, y: i32::MAX });
    round_trip(ProtoEvent::CursorPos {
        pos: Position::Bottom,
        nx: 0.25f32.to_bits(),
        ny: 1.0f32.to_bits(),
    });
    round_trip(ProtoEvent::ReceiverSensitivity { mouse_sensitivity: 1.5f64.to_bits() });
    round_trip(ProtoEvent::Input(Event::Pointer(PointerEvent::Motion {
        time: 1,
        dx: (-1.5f64).to_bits(),
        dy: 2.0f64.to_bits(),
    })));
    round_trip(ProtoEvent::Input(Event::Pointer(PointerEvent::Button {
        time: 1,
        button: BTN_LEFT,
        state: 1,
    })));
    round_trip(ProtoEvent::Input(Event::Pointer(PointerEvent::Axis {
        time: 1,
        axis: 0,
        value: 3.0f64.to_bits(),
        momentum: true,
    })));
    round_trip(ProtoEvent::Input(Event::Pointer(PointerEvent::AxisDiscrete120 {
        axis: 1,
        value: -120,
    })));
    round_trip(ProtoEvent::Input(Event::Keyboard(KeyboardEvent::Key {
        time: 1,
        key: 30,
        state: 1,
    })));
    round_trip(ProtoEvent::Input(Event::Keyboard(KeyboardEvent::Modifiers {
        depressed: 1,
        latched: 2,
        locked: 3,
        group: 4,
    })));
}

#[test]
fn bytes_on_the_wire_are_big_endian() {
    let (buf, len) = ProtoEvent::Bounds { width: 0x0102_0304, height: 0x0506_0708 }.encode();
    assert_eq!(buf[..len], [EventType::Bounds.to_u8(), 1, 2, 3, 4, 5, 6, 7, 8]);
    let (buf, len) = ProtoEvent::Pong(true).encode();
    assert_eq!(buf[..len], [EventType::Pong.to_u8(), 1]);
}

#[test]
fn malformed_events_are_refused() {
    let mut buf = [0u8; MAX_EVENT_SIZE];
    buf[0] = 200;
    match ProtoEvent::try_from(buf) {
        Err(e) => assert_eq!(
            e.describe(),
            "invalid event id: `No discriminant in enum `EventType` matches the value `200``"
        ),
        Ok(_) => panic!("no event"),
    }
    buf[0] = EventType::Enter.to_u8();
    buf[1] = 9;
    assert!(matches!(ProtoEvent::try_from(buf), Err(ProtocolError::InvalidPosition(9))));
    assert!(decode_proto_datagram(&[]).is_none());
    assert!(decode_proto_datagram(&[200, 1]).is_none());
    assert!(decode_proto_datagram(&[EventType::ClipboardAck.to_u8()]).is_none());
    assert!(decode_proto_datagram(&[EventType::Leave.to_u8()]).is_none());
    assert!(matches!(
        decode_proto_datagram(&[EventType::Ping.to_u8()]),
        Some(DecodedDatagram::Proto(ProtoEvent::Ping))
    ));
    for event in [
        ProtoEvent::Leave(0),
        ProtoEvent::Pong(false),
        ProtoEvent::Enter(Position::Left),
        ProtoEvent::CursorPos { pos: Position::Left, nx: 0, ny: 0 },
        ProtoEvent::hello([0; 8]),
    ] {
        let (buf, len) = event.encode();
        assert!(decode_proto_datagram(&buf[..len]).is_some());
        assert!((0..len).all(|cut| decode_proto_datagram(&buf[..cut]).is_none()));
    }
    assert!(Position::from_u8(4).is_err());
    assert_eq!(Position::from_u8(Position::Right.to_u8()).unwrap(), Position::Right);
}

#[test]
fn malformed_frames_are_refused() {
    assert!(matches!(decode_clipboard_frame(&[]), Err(ProtocolError::BufferTooSmall)));
    assert!(matches!(
        decode_clipboard_frame(&[200]),
        Err(ProtocolError::InvalidEventId(200))
    ));
    assert!(matches!(
        decode_clipboard_frame(&[EventType::Ping.to_u8()]),
        Err(ProtocolError::InvalidClipboardTransfer)
    ));
    assert!(matches!(
        decode_clipboard_frame(&[EventType::ClipboardChunk.to_u8(), 0]),
        Err(ProtocolError::BufferTooSmall)
    ));
    let begin = ClipboardFrame::Begin {
        transfer_id: 1,
        from_fingerprint: "fp".into(),
        content_len: 3,
        chunk_count: 1,
        content_hash: [0; 32],
    };
    let mut bytes = encode_clipboard_frame(&begin).unwrap();
    bytes[11] = 0xff;
    assert!(matches!(decode_clipboard_frame(&bytes), Err(ProtocolError::InvalidUtf8)));
    let wrong = ClipboardFrame::Begin {
        transfer_id: 1,
        from_fingerprint: "fp".into(),
        content_len: 3,
        chunk_count: 2,
        content_hash: [0; 32],
    };
    let bytes = encode_clipboard_frame(&wrong);
    assert!(match bytes {
        Ok(b) => decode_clipboard_frame(&b).is_err(),
        Err(_) => true,
    });
    let large = ClipboardFrame::Chunk { transfer_id: 1, index: 0, data: vec![0; 1121] };
    assert!(encode_clipboard_frame(&large).is_err());
}

#[test]
fn content_is_checked_by_its_hash() {
    let event = ProtoEvent::Clipboard { from_fingerprint: "fp".into(), content: "abc".into() };
    let (datagrams, hash) = encode_clipboard_transfer(&event, 1).unwrap();
    assert_eq!(
        hash,
        [
            0xba, 0x78, 0x16, 0xbf, 0x8f, 0x01, 0xcf, 0xea, 0x41, 0x41, 0x40, 0xde, 0x5d, 0xae,
            0x22, 0x23, 0xb0, 0x03, 0x61, 0xa3, 0x96, 0x17, 0x7a, 0x9c, 0xb4, 0x10, 0xff, 0x61,
            0xf2, 0x00, 0x15, 0xad,
        ]
    );
    let begin = decode_clipboard_frame(&datagrams[0]).unwrap();
    let mut assembler = ClipboardAssembler::default();
    assert!(assembler.push(begin).unwrap().is_none());
    let forged = ClipboardFrame::Chunk { transfer_id: 1, index: 0, data: b"abd".to_vec() };
    assert!(matches!(assembler.push(forged), Err(ProtocolError::ClipboardHashMismatch)));
    let late = decode_clipboard_frame(&datagrams[1]).unwrap();
    assert!(!matches!(assembler.push(late), Ok(Some(_))));
}

#[test]
fn content_must_be_text() {
    let data = vec![0xff, 0xfe];
    let event = ProtoEvent::Clipboard { from_fingerprint: "fp".into(), content: "ab".into() };
    let (datagrams, _) = encode_clipboard_transfer(&event, 1).unwrap();
    let mut begin = decode_clipboard_frame(&datagrams[0]).unwrap();
    if let ClipboardFrame::Begin { content_hash, .. } = &mut begin {
        let digest = <sha2::Sha256 as sha2::Digest>::digest(&data);
        content_hash.copy_from_slice(&digest);
    }
    let mut assembler = ClipboardAssembler::default();
    assembler.push(begin).unwrap();
    let chunk = ClipboardFrame::Chunk { transfer_id: 1, index: 0, data };
    assert!(matches!(assembler.push(chunk), Err(ProtocolError::InvalidUtf8)));
}

#[test]
fn a_repeated_opening_keeps_the_chunks() {
    let event = ProtoEvent::Clipboard {
        from_fingerprint: "fp".into(),
        content: "y".repeat(1120 + 5),
    };
    let (datagrams, _) = encode_clipboard_transfer(&event, 3).unwrap();
    assert_eq!(datagrams.len(), 3);
    let frame = |i: usize| decode_clipboard_frame(&datagrams[i]).unwrap();
    let mut assembler = ClipboardAssembler::default();
    assert!(assembler.push(frame(0)).unwrap().is_none());
    assert!(assembler.push(frame(1)).unwrap().is_none());
    assert!(assembler.push(frame(0)).unwrap().is_none());
    assert_eq!(assembler.push(frame(2)).unwrap().unwrap().content.len(), 1125);
}

#[test]
fn transfers_do_not_disturb_each_other() {
    let event = |content: &str| ProtoEvent::Clipboard {
        from_fingerprint: "fp".into(),
        content: content.into(),
    };
    let (a, _) = encode_clipboard_transfer(&event("first"), 1).unwrap();
    let (b, _) = encode_clipboard_transfer(&event("second"), 2).unwrap();
    let mut assembler = ClipboardAssembler::default();
    for datagram in [&a[0], &b[0]] {
        let frame = decode_clipboard_frame(datagram).unwrap();
        assert!(assembler.push(frame).unwrap().is_none());
    }
    let frame = decode_clipboard_frame(&b[1]).unwrap();
    assert_eq!(assembler.push(frame).unwrap().unwrap().content, "second");
    let frame = decode_clipboard_frame(&a[1]).unwrap();
    assert_eq!(assembler.push(frame).unwrap().unwrap().content, "first");
}

#[test]
fn errors_are_described() {
    assert_eq!(
        ProtocolError::ClipboardTooLarge(5).describe(),
        "clipboard payload too large: 5 bytes"
    );
    assert_eq!(ProtocolError::InvalidUtf8.describe(), "invalid UTF-8 in clipboard payload");
    assert_eq!(
        ProtocolError::InvalidClipboardTransfer.describe(),
        "invalid clipboard transfer"
    );
    assert_eq!(
        ProtocolError::ClipboardHashMismatch.describe(),
        "clipboard integrity check failed"
    );
    assert_eq!(
        ProtocolError::BufferTooSmall.describe(),
        "buffer too small for clipboard payload"
    );
}

#[test]
fn events_are_described() {
    assert_eq!(ProtoEvent::Enter(Position::Left).describe("", "", None), "Enter(left)");
    assert_eq!(ProtoEvent::Pong(false).describe("", "", None), "pong: not available");
    assert_eq!(
        ProtoEvent::MotionAbsolute { x: -1, y: 2 }.describe("", "", None),
        "MotionAbsolute(-1, 2)"
    );
    assert_eq!(ProtoEvent::hello(*b"abcd1234").describe("", "", None), "Hello(abcd1234)");
    let motion = PointerEvent::Motion { time: 0, dx: 0, dy: 0 };
    assert_eq!(motion.describe("1.5", "-2"), "motion(1.5,-2)");
    let click = PointerEvent::Button { time: 0, button: BTN_LEFT, state: 1 };
    assert_eq!(click.describe("", ""), "button(left, 1)");
    let key = KeyboardEvent::Key { time: 0, key: 30, state: 1 };
    assert_eq!(key.describe(Some("KeyA")), "key(KeyA, 1)");
    assert_eq!(key.describe(None), "key(30, 1)");
    assert_eq!(
        ClipboardEvent::Files(vec!["a".into()]).describe(),
        "clipboard(files: 1 entries)"
    );
    assert_eq!(
        ClipboardEvent::ImagePng(vec![0; 9]).describe(),
        "clipboard(image/png: 9 bytes)"
    );
    let copied = ProtoEvent::Clipboard {
        from_fingerprint: "0123456789".into(),
        content: "é".repeat(41),
    };
    assert_eq!(
        copied.describe("", "", None),
        format!("Clipboard(from=01234567…, 82b: {}…)", "é".repeat(40))
    );
}

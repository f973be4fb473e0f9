use neko::wire::{frame, guest_message, incoming, ws_frame, Incoming, WsToGuest};

#[test]
fn frames_are_laid_out_big_endian() {
    assert_eq!(frame(4, 0x0102_0304, b"hi"), b"\x04\x01\x02\x03\x04hi");
    assert_eq!(frame(6, u32::MAX, b""), b"\x06\xff\xff\xff\xff");
    assert_eq!(ws_frame(7, 1, b"x"), b"\x09\x00\x00\x00\x07\x01x");
}

#[test]
fn frames_read_back_as_they_were_made() {
    for id in [0, 1, 255, 256, 0x00ab_cdef, u32::MAX] {
        match incoming(&frame(1, id, b"{}")) {
            Incoming::RequestHead { id: n, payload } => {
                assert_eq!(n, id);
                assert_eq!(payload, b"{}");
            }
            _ => panic!("expected the head of a request"),
        }
    }
    assert!(matches!(
        incoming(&frame(2, 9, b"body")),
        Incoming::RequestBody { id: 9, chunk: b"body" }
    ));
    assert!(matches!(incoming(&frame(3, 9, b"")), Incoming::RequestEnd { id: 9 }));
    assert!(matches!(incoming(&frame(7, 9, b"why")), Incoming::Abort { id: 9 }));
    assert!(matches!(
        incoming(&frame(8, 9, b"{}")),
        Incoming::SocketOpen { id: 9, payload: b"{}" }
    ));
    assert!(matches!(
        incoming(&ws_frame(9, 0, b"data")),
        Incoming::SocketData { id: 9, kind: 0, data: b"data" }
    ));
    assert!(matches!(incoming(&frame(10, 9, b"")), Incoming::SocketClose { id: 9 }));
}

#[test]
fn what_is_no_frame_is_passed_over() {
    assert!(matches!(incoming(b""), Incoming::Other));
    assert!(matches!(incoming(b"\x01\x00\x00\x00"), Incoming::Other));
    assert!(matches!(incoming(&frame(4, 1, b"")), Incoming::Other));
    assert!(matches!(incoming(&frame(0, 1, b"")), Incoming::Other));
    assert!(matches!(incoming(&frame(11, 1, b"")), Incoming::Other));
    assert!(matches!(incoming(&frame(9, 1, b"")), Incoming::Other));
}

#[test]
fn messages_keep_their_kind() {
    assert!(matches!(
        guest_message(1, "né".as_bytes()),
        WsToGuest::Text(s) if s == "né"
    ));
    assert!(matches!(
        guest_message(1, b"a\xffb"),
        WsToGuest::Text(s) if s == "a\u{fffd}b"
    ));
    assert!(matches!(
        guest_message(0, b"\xff\x00"),
        WsToGuest::Binary(b) if b == b"\xff\x00"
    ));
    assert!(matches!(guest_message(2, b"x"), WsToGuest::Binary(_)));
}

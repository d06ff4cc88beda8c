use leptos_ntex_unofficial::server_fn::frames::{
    check_frame, Assembly, CheckedCodec, CodecFailure, Fragment, Frame, FrameError, ProtocolFault,
    Verdict,
};
use leptos_ntex_unofficial::server_fn::pump::{
    Action, Ending, Event, Incoming, Outgoing, Polled, Pump, Stage, ROUNDS,
};
use leptos_ntex_unofficial::server_fn::websocket::{
    check_handshake, failure_response, has_token, is_token, start, verify_handshake,
    HandshakeError, UpgradeRequest,
};
use leptos_ntex_unofficial::LeptosServerFnConfig;
use ntex::http::header::{HeaderName, HeaderValue};
use ntex::http::HeaderMap;
use ntex::util::BytesMut;

fn fields(list: &[(&str, &[u8])]) -> HeaderMap {
    let mut map = HeaderMap::new();
    for (name, value) in list {
        map.append(
            HeaderName::try_from(*name).unwrap(),
            HeaderValue::from_bytes(value).unwrap(),
        );
    }
    map
}

const KEY: &[u8] = b"dGhlIHNhbXBsZSBub25jZQ==";

fn upgrade(extra: &[(&'static str, &'static [u8])]) -> HeaderMap {
    let mut list: Vec<(&str, &[u8])> = vec![
        ("upgrade", b"websocket"),
        ("connection", b"keep-alive, Upgrade"),
        ("sec-websocket-version", b"13"),
        ("sec-websocket-key", KEY),
    ];
    list.extend_from_slice(extra);
    fields(&list)
}

fn handshake(headers: &HeaderMap) -> Result<Vec<String>, HandshakeError> {
    verify_handshake(&UpgradeRequest {
        get: true,
        http_11: true,
        headers,
    })
}

fn offers(lines: &[&'static [u8]]) -> Result<Vec<String>, HandshakeError> {
    let extra: Vec<(&'static str, &'static [u8])> = lines
        .iter()
        .map(|line| ("sec-websocket-protocol", *line))
        .collect();
    handshake(&upgrade(&extra))
}

#[test]
fn subprotocol_lists() {
    assert_eq!(offers(&[b"chat"]), Ok(vec!["chat".to_owned()]));
    assert_eq!(offers(&[]), Ok(vec![]));
    assert_eq!(offers(&[b",chat"]), Ok(vec!["chat".to_owned()]));
    assert_eq!(offers(&[b"chat,"]), Ok(vec!["chat".to_owned()]));
    assert_eq!(
        offers(&[b"chat, \t, superchat"]),
        Ok(vec!["chat".to_owned(), "superchat".to_owned()])
    );
    assert_eq!(
        offers(&[b"chat, Chat"]),
        Ok(vec!["chat".to_owned(), "Chat".to_owned()])
    );
    assert_eq!(offers(&[b"chat", b"superchat"]).unwrap().len(), 2);
    assert_eq!(offers(&[b", \t", b"superchat"]).unwrap().len(), 1);
    for refused in [
        &[&b", \t,"[..]][..],
        &[b""],
        &[b"chat, bad token"],
        &["chat, \u{a0}superchat".as_bytes()],
        &[b"chat,\xff"],
        &[b"chat, chat"],
        &[b"chat", b"superchat, chat"],
        &[b"chat", b"bad token"],
    ] {
        assert_eq!(offers(refused), Err(HandshakeError::NoWebsocketUpgrade));
    }
}

#[test]
fn handshake_failures_in_order() {
    let good = upgrade(&[]);
    let request = |get, http_11, headers| UpgradeRequest {
        get,
        http_11,
        headers,
    };
    assert_eq!(verify_handshake(&request(true, true, &good)), Ok(vec![]));
    assert_eq!(
        verify_handshake(&request(false, false, &good)),
        Err(HandshakeError::GetMethodRequired)
    );
    assert_eq!(
        verify_handshake(&request(true, false, &good)),
        Err(HandshakeError::NoWebsocketUpgrade)
    );
    let without = |name: &str| {
        let mut headers = upgrade(&[]);
        headers.remove(name);
        handshake(&headers)
    };
    assert_eq!(without("upgrade"), Err(HandshakeError::NoWebsocketUpgrade));
    assert_eq!(without("connection"), Err(HandshakeError::NoConnectionUpgrade));
    assert_eq!(without("sec-websocket-version"), Err(HandshakeError::NoVersionHeader));
    assert_eq!(without("sec-websocket-key"), Err(HandshakeError::BadWebsocketKey));
    assert_eq!(
        handshake(&upgrade(&[("sec-websocket-version", b"13")])),
        Err(HandshakeError::UnsupportedVersion)
    );
    assert_eq!(
        handshake(&upgrade(&[("sec-websocket-key", KEY)])),
        Err(HandshakeError::BadWebsocketKey)
    );
}

#[test]
fn versions_and_keys_are_checked() {
    let with = |name: &str, raw: &[u8]| {
        let mut headers = upgrade(&[]);
        headers.insert(
            HeaderName::try_from(name).unwrap(),
            HeaderValue::from_bytes(raw).unwrap(),
        );
        handshake(&headers)
    };
    for version in [&b"13"[..], b"8", b"7"] {
        assert!(with("sec-websocket-version", version).is_ok());
    }
    assert_eq!(
        with("sec-websocket-version", b"12"),
        Err(HandshakeError::UnsupportedVersion)
    );
    for key in [&b""[..], b"AAAA", b"dGhlIHNhbXBsZSBub25jZQ", b"!!!!", b"dGhlIHNhbXBsZSBub25jZWE="] {
        assert_eq!(
            with("sec-websocket-key", key),
            Err(HandshakeError::BadWebsocketKey)
        );
    }
}

#[test]
fn key_length_is_sixteen() {
    let headers = upgrade(&[]);
    let request = UpgradeRequest {
        get: true,
        http_11: true,
        headers: &headers,
    };
    assert!(check_handshake(&request, Some(16)).is_ok());
    assert_eq!(check_handshake(&request, Some(15)), Err(HandshakeError::BadWebsocketKey));
    assert_eq!(check_handshake(&request, None), Err(HandshakeError::BadWebsocketKey));
}

#[test]
fn tokens_are_found_in_lists() {
    let headers = fields(&[("connection", b"a, UPGRADE ,b"), ("connection", b"\xff")]);
    assert!(has_token(&headers, "connection", "upgrade"));
    assert!(!has_token(&headers, "connection", "up"));
    assert!(is_token("chat.v1"));
    assert!(!is_token(""));
    assert!(!is_token("a b"));
}

#[test]
fn configured_subprotocol_is_announced_if_offered() {
    let announced = |offered: &[&str]| {
        let config = LeptosServerFnConfig::new().with_ws_subprotocol("chat");
        let offered = offered.iter().map(|s| (*s).to_owned()).collect();
        let mut headers = fields(&[("transfer-encoding", b"chunked"), ("x-a", b"1")]);
        start(&config, &offered, &mut headers);
        assert!(!headers.contains_key("transfer-encoding"));
        assert!(headers.contains_key("x-a"));
        headers
            .get("sec-websocket-protocol")
            .map(|value| value.to_str().unwrap().to_owned())
    };
    assert_eq!(announced(&["superchat", "chat"]), Some("chat".to_owned()));
    assert_eq!(announced(&["Chat"]), None);
    assert_eq!(announced(&[]), None);
}

#[test]
fn refused_version_names_the_known_ones() {
    let mut headers = HeaderMap::new();
    failure_response(HandshakeError::BadWebsocketKey, &mut headers);
    assert!(headers.is_empty());
    failure_response(HandshakeError::UnsupportedVersion, &mut headers);
    assert_eq!(headers.get("sec-websocket-version").unwrap().as_bytes(), b"13, 8, 7");
}

// Frames.

const MASK: [u8; 4] = [0x11, 0x22, 0x33, 0x44];

fn client_frame(first: u8, payload: &[u8]) -> Vec<u8> {
    let mut bytes = vec![first];
    if payload.len() < 126 {
        bytes.push(0x80 | payload.len() as u8);
    } else if payload.len() < 65536 {
        bytes.push(0x80 | 126);
        bytes.extend_from_slice(&(payload.len() as u16).to_be_bytes());
    } else {
        bytes.push(0x80 | 127);
        bytes.extend_from_slice(&(payload.len() as u64).to_be_bytes());
    }
    bytes.extend_from_slice(&MASK);
    for (index, byte) in payload.iter().enumerate() {
        bytes.push(byte ^ MASK[index % 4]);
    }
    bytes
}

fn decode(limit: usize, bytes: &[u8]) -> (Result<Option<Frame>, FrameError>, usize) {
    let mut codec = CheckedCodec::new(limit);
    let mut buffer = BytesMut::new();
    buffer.extend_from_slice(bytes);
    let decoded = codec.decode(&mut buffer);
    (decoded, buffer.len())
}

fn fault(bytes: &[u8]) -> ProtocolFault {
    match decode(1024, bytes) {
        (Err(FrameError::Protocol(fault)), left) => {
            assert_eq!(left, bytes.len());
            fault
        }
        other => panic!("{other:?}"),
    }
}

fn ntex_failure(limit: usize, bytes: &[u8]) -> (CodecFailure, usize) {
    match decode(limit, bytes) {
        (Err(FrameError::Ntex(failure)), left) => (failure, left),
        other => panic!("{other:?}"),
    }
}

#[test]
fn whole_messages_are_unmasked() {
    for length in [0, 1, 23, 24, 32, 125, 126, 300, 65535, 65536] {
        let payload: Vec<u8> = (0..length).map(|i| (i % 251) as u8).collect();
        let mut bytes = client_frame(0x82, &payload);
        bytes.extend_from_slice(b"next");
        match decode(1 << 20, &bytes) {
            (Ok(Some(Frame::Binary(decoded))), 4) => assert_eq!(decoded, payload),
            other => panic!("{length}: {:?}", other.1),
        }
    }
    assert!(matches!(
        decode(1024, &client_frame(0x81, b"text")),
        (Ok(Some(Frame::Text(decoded))), 0) if decoded == b"text"
    ));
}

#[test]
fn control_frames_are_decoded() {
    assert!(matches!(
        decode(0, &client_frame(0x89, b"ping")),
        (Ok(Some(Frame::Ping(decoded))), 0) if decoded == b"ping"
    ));
    assert!(matches!(
        decode(0, &client_frame(0x8a, b"")),
        (Ok(Some(Frame::Pong(decoded))), 0) if decoded.is_empty()
    ));
    assert!(matches!(
        decode(0, &client_frame(0x88, b"")),
        (Ok(Some(Frame::Close(None))), 0)
    ));
    match decode(0, &client_frame(0x88, b"\x03\xe8bye")) {
        (Ok(Some(Frame::Close(Some(reason)))), 0) => {
            assert_eq!(reason.code, 1000);
            assert_eq!(reason.description, Some("bye".to_owned()));
        }
        other => panic!("{other:?}"),
    }
    match decode(0, &client_frame(0x88, b"\x0f\xa0")) {
        (Ok(Some(Frame::Close(Some(reason)))), 0) => {
            assert_eq!(reason.code, 4000);
            assert_eq!(reason.description, None);
        }
        other => panic!("{other:?}"),
    }
}

#[test]
fn incomplete_frames_are_left_alone() {
    let whole = client_frame(0x82, &[7; 200]);
    for cut in [0, 1, 2, 3, 7, 8, whole.len() - 1] {
        let (decoded, left) = decode(1024, &whole[..cut]);
        assert!(matches!(decoded, Ok(None)), "{cut}");
        assert_eq!(left, cut);
    }
}

#[test]
fn framing_faults_are_told_apart() {
    assert_eq!(fault(&client_frame(0xc1, b"x")), ProtocolFault::ReservedBits);
    assert_eq!(fault(&client_frame(0x09, b"x")), ProtocolFault::InvalidControlFrame);
    assert_eq!(fault(&[0x89, 0xfe, 0, 126]), ProtocolFault::InvalidControlFrame);
    assert_eq!(fault(&[0x82, 0xfe, 0, 125]), ProtocolFault::NonminimalLength);
    assert_eq!(
        fault(&[0x82, 0xff, 0, 0, 0, 0, 0, 0, 0xff, 0xff]),
        ProtocolFault::InvalidExtendedLength
    );
    assert_eq!(
        fault(&[0x82, 0xff, 0x80, 0, 0, 0, 0, 0, 0, 0]),
        ProtocolFault::InvalidExtendedLength
    );
    assert_eq!(fault(&client_frame(0x88, b"x")), ProtocolFault::IncompleteCloseCode);
    for code in [999u16, 1004, 1005, 1006, 1015, 2999, 5000] {
        assert_eq!(
            fault(&client_frame(0x88, &code.to_be_bytes())),
            ProtocolFault::InvalidCloseCode
        );
    }
    assert!(matches!(
        decode(1024, &client_frame(0x88, b"\x03\xe8\xff")).0,
        Err(FrameError::InvalidText)
    ));
}

#[test]
fn codec_failures_carry_their_text() {
    let (failure, left) = ntex_failure(1024, &[0x81, 0x01, b'x']);
    assert!(!failure.overflow);
    assert_eq!(failure.message, "Received an unmasked frame from client");
    assert_eq!(left, 3);
    let (failure, _) = ntex_failure(1024, &client_frame(0x83, b"x"));
    assert_eq!(failure.message, "Invalid opcode: 3");
    let (failure, left) = ntex_failure(200, &client_frame(0x82, &[0; 201]));
    assert!(failure.overflow);
    assert_eq!(failure.message, "A payload reached size limit.");
    assert_eq!(left, 209);
    let (failure, left) = ntex_failure(200, &client_frame(0x80, b"x"));
    assert_eq!(failure.message, "Continuation is not started.");
    assert_eq!(left, 0);
}

#[test]
fn small_limits_leave_room_for_control_frames() {
    assert!(decode(1, &client_frame(0x82, &[0; 125])).0.is_ok());
    assert!(ntex_failure(1, &client_frame(0x82, &[0; 126])).0.overflow);
}

#[test]
fn data_frames_may_not_interrupt_fragments() {
    let mut codec = CheckedCodec::new(1024);
    let mut buffer = BytesMut::new();
    buffer.extend_from_slice(&client_frame(0x01, b"a"));
    buffer.extend_from_slice(&client_frame(0x89, b"p"));
    buffer.extend_from_slice(&client_frame(0x00, b"b"));
    buffer.extend_from_slice(&client_frame(0x81, b"c"));
    assert!(matches!(
        codec.decode(&mut buffer),
        Ok(Some(Frame::Continuation(Fragment::FirstText(b)))) if b == b"a"
    ));
    assert!(matches!(codec.decode(&mut buffer), Ok(Some(Frame::Ping(_)))));
    assert!(matches!(
        codec.decode(&mut buffer),
        Ok(Some(Frame::Continuation(Fragment::Continue(b)))) if b == b"b"
    ));
    assert!(matches!(
        codec.decode(&mut buffer),
        Err(FrameError::Protocol(ProtocolFault::InterruptedMessage))
    ));
}

#[test]
fn messages_follow_each_other_after_fragments() {
    let mut codec = CheckedCodec::new(1024);
    let mut assembly = Assembly::new();
    let mut buffer = BytesMut::new();
    buffer.extend_from_slice(&client_frame(0x02, b"ab"));
    buffer.extend_from_slice(&client_frame(0x00, b"cd"));
    buffer.extend_from_slice(&client_frame(0x80, b"ef"));
    buffer.extend_from_slice(&client_frame(0x81, b"text"));
    let mut messages = vec![];
    while let Ok(Some(frame)) = codec.decode(&mut buffer) {
        if let Ok(Some(message)) = assembly.accept(frame, 1024) {
            messages.push(message);
        }
    }
    assert_eq!(messages, [b"abcdef".to_vec(), b"text".to_vec()]);
}

#[test]
fn verdicts_on_given_bytes() {
    assert!(matches!(check_frame(&[0x82], false), Verdict::Incomplete));
    assert!(matches!(check_frame(&[0x82, 0x80], false), Verdict::Forward));
    assert!(matches!(
        check_frame(&[0x82, 0x80], true),
        Verdict::Refused(ProtocolFault::InterruptedMessage)
    ));
    assert!(matches!(check_frame(&[0x88, 0x02, 3], false), Verdict::Incomplete));
    assert!(matches!(check_frame(&[0x88, 0x02, 3, 0xe8], false), Verdict::Forward));
}

fn message(is_text: bool, payload: &[u8]) -> Frame {
    if is_text {
        Frame::Text(payload.to_vec())
    } else {
        Frame::Binary(payload.to_vec())
    }
}

#[test]
fn complete_messages_are_validated() {
    for is_text in [false, true] {
        let payload = vec![b'x'; 24];
        let frame = message(is_text, &payload);
        assert!(matches!(
            Assembly::new().data(frame, 24),
            Ok(Some(bytes)) if bytes == payload
        ));
        let frame = message(is_text, &payload);
        assert!(matches!(Assembly::new().data(frame, 23), Err(FrameError::TooBig)));
    }
    let invalid = vec![0xff; 24];
    assert!(matches!(
        Assembly::new().data(message(true, &invalid), 24),
        Err(FrameError::InvalidText)
    ));
    assert!(matches!(
        Assembly::new().data(message(true, &invalid), 23),
        Err(FrameError::TooBig)
    ));
    assert!(Assembly::new().data(message(false, &invalid), 24).is_ok());
    assert!(matches!(Assembly::new().data(Frame::Ping(vec![]), 0), Ok(None)));
}

fn continuation(fragment: Fragment) -> Frame {
    Frame::Continuation(fragment)
}

#[test]
fn text_split_inside_a_character_is_joined() {
    let mut assembly = Assembly::new();
    let first = continuation(Fragment::FirstText(vec![0xc3]));
    let last = continuation(Fragment::Last(vec![0xa9]));
    assert!(matches!(assembly.accept(first, 2), Ok(None)));
    assert!(matches!(
        assembly.accept(last, 2),
        Ok(Some(bytes)) if bytes == "\u{e9}".as_bytes()
    ));
    let first = continuation(Fragment::FirstText(vec![0xc3]));
    assert!(matches!(assembly.accept(first, 2), Ok(None)));
    assert!(matches!(
        assembly.accept(continuation(Fragment::Last(vec![])), 2),
        Err(FrameError::InvalidText)
    ));
}

#[test]
fn fragments_out_of_sequence_are_refused() {
    let mut assembly = Assembly::new();
    assert!(matches!(
        assembly.accept(continuation(Fragment::Continue(vec![1])), 9),
        Err(FrameError::Protocol(ProtocolFault::FragmentNotStarted))
    ));
    let first = continuation(Fragment::FirstBinary(vec![1]));
    assert!(matches!(assembly.accept(first, 9), Ok(None)));
    let again = continuation(Fragment::FirstText(vec![1]));
    assert!(matches!(
        assembly.accept(again, 9),
        Err(FrameError::Protocol(ProtocolFault::FragmentAlreadyStarted))
    ));
}

#[test]
fn fragments_over_the_limit_are_refused() {
    let mut assembly = Assembly::new();
    let first = continuation(Fragment::FirstBinary(vec![1, 2]));
    assert!(matches!(assembly.accept(first, 3), Ok(None)));
    assert!(matches!(
        assembly.accept(continuation(Fragment::Continue(vec![3, 4])), 3),
        Err(FrameError::TooBig)
    ));
    assert!(matches!(
        assembly.accept(continuation(Fragment::Last(vec![3])), 3),
        Ok(Some(bytes)) if bytes == [1, 2, 3]
    ));
    let first = continuation(Fragment::FirstBinary(vec![1, 2]));
    assert!(matches!(Assembly::new().accept(first, 1), Err(FrameError::TooBig)));
}

#[test]
fn close_reasons_name_the_failure() {
    let reason = |error: FrameError| {
        let reason = error.reason(64);
        (reason.code, reason.description.unwrap())
    };
    let size = (1009, "message exceeds limit of 64 bytes".to_owned());
    assert_eq!(reason(FrameError::TooBig), size);
    let ntex = |overflow| {
        FrameError::Ntex(CodecFailure {
            overflow,
            message: "why".to_owned(),
        })
    };
    assert_eq!(reason(ntex(true)), size);
    assert_eq!(reason(ntex(false)), (1002, "why".to_owned()));
    assert_eq!(
        reason(FrameError::InvalidText),
        (1007, "text frame payload is not valid UTF-8".to_owned())
    );
    assert_eq!(
        reason(FrameError::Protocol(ProtocolFault::NonminimalLength)),
        (1002, "nonminimal frame length".to_owned())
    );
}

#[test]
fn protocol_faults_have_their_messages() {
    assert_eq!(
        ProtocolFault::ReservedBits.message(),
        "reserved frame bits without an extension"
    );
    assert_eq!(ProtocolFault::InvalidControlFrame.message(), "invalid control frame");
    assert_eq!(
        ProtocolFault::InterruptedMessage.message(),
        "data frame interrupts a fragmented message"
    );
    assert_eq!(ProtocolFault::InvalidExtendedLength.message(), "invalid extended frame length");
    assert_eq!(ProtocolFault::IncompleteCloseCode.message(), "incomplete close code");
    assert_eq!(ProtocolFault::InvalidCloseCode.message(), "invalid close code");
    assert_eq!(ProtocolFault::FragmentAlreadyStarted.message(), "fragment already started");
    assert_eq!(ProtocolFault::FragmentNotStarted.message(), "fragment not started");
}

// The pump.

fn to_receive(pump: &mut Pump) {
    assert!(matches!(pump.step(Event::Disconnected(false)), Action::PollFlush));
    assert!(matches!(pump.step(Event::Flushed(Polled::Pending)), Action::PollWritable));
    if pump.input_open {
        assert!(matches!(pump.step(Event::Writable(true)), Action::PollRoom));
        assert!(matches!(pump.step(Event::Room(Polled::Ready)), Action::PollReceive));
    } else {
        assert!(matches!(pump.step(Event::Writable(true)), Action::PollReceive));
    }
}

#[test]
fn lost_connections_end_silently() {
    assert!(matches!(
        Pump::new(8).step(Event::Disconnected(true)),
        Action::Finish(Ending::Lost)
    ));
    let mut pump = Pump::new(8);
    pump.step(Event::Disconnected(false));
    assert!(matches!(
        pump.step(Event::Flushed(Polled::Failed)),
        Action::Finish(Ending::Lost)
    ));
    let mut pump = Pump::new(8);
    to_receive(&mut pump);
    assert!(matches!(
        pump.step(Event::Received(Incoming::Failed)),
        Action::Finish(Ending::Lost)
    ));
    assert_eq!(pump.stage, Stage::Finished);
}

#[test]
fn output_is_encoded_and_its_end_closes() {
    let mut pump = Pump::new(8);
    pump.step(Event::Disconnected(false));
    assert!(matches!(pump.step(Event::Flushed(Polled::Ready)), Action::PollOutput));
    assert!(matches!(
        pump.step(Event::Output(Outgoing::Message(vec![1, 2]))),
        Action::Encode(bytes) if bytes == [1, 2]
    ));
    assert!(matches!(pump.step(Event::Encoded(true)), Action::PollWritable));
    assert!(matches!(pump.step(Event::Writable(false)), Action::PollDisconnect));
    pump.step(Event::Disconnected(false));
    pump.step(Event::Flushed(Polled::Ready));
    assert!(matches!(
        pump.step(Event::Output(Outgoing::Ended)),
        Action::Finish(Ending::Close(None))
    ));
}

#[test]
fn failed_encoding_ends_the_connection() {
    let mut pump = Pump::new(8);
    pump.step(Event::Disconnected(false));
    pump.step(Event::Flushed(Polled::Ready));
    pump.step(Event::Output(Outgoing::Message(vec![])));
    assert!(matches!(pump.step(Event::Encoded(false)), Action::Finish(Ending::Lost)));
}

#[test]
fn idle_rounds_wait() {
    let mut pump = Pump::new(8);
    pump.step(Event::Disconnected(false));
    pump.step(Event::Flushed(Polled::Ready));
    pump.step(Event::Output(Outgoing::Pending));
    pump.step(Event::Writable(true));
    pump.step(Event::Room(Polled::Ready));
    assert!(matches!(pump.step(Event::Received(Incoming::Pending)), Action::Wait));
    assert_eq!(pump.stage, Stage::Disconnect);
}

#[test]
fn reading_pauses_without_room() {
    let mut pump = Pump::new(8);
    pump.step(Event::Disconnected(false));
    pump.step(Event::Flushed(Polled::Pending));
    pump.step(Event::Writable(true));
    assert!(matches!(pump.step(Event::Room(Polled::Pending)), Action::Pause));
    assert!(matches!(pump.step(Event::Done), Action::Wait));
}

#[test]
fn pings_are_answered() {
    let mut pump = Pump::new(8);
    to_receive(&mut pump);
    assert!(matches!(
        pump.step(Event::Received(Incoming::Frame(Frame::Ping(vec![5])))),
        Action::Pong(bytes) if bytes == [5]
    ));
    assert!(matches!(pump.step(Event::Done), Action::PollDisconnect));
    to_receive(&mut pump);
    assert!(matches!(
        pump.step(Event::Received(Incoming::Frame(Frame::Pong(vec![])))),
        Action::PollDisconnect
    ));
}

#[test]
fn messages_are_delivered_until_the_receiver_is_gone() {
    let mut pump = Pump::new(8);
    to_receive(&mut pump);
    assert!(matches!(
        pump.step(Event::Received(Incoming::Frame(Frame::Binary(vec![9])))),
        Action::Deliver(bytes) if bytes == [9]
    ));
    assert!(matches!(pump.step(Event::Delivered(false)), Action::PollDisconnect));
    assert!(!pump.input_open);
    to_receive(&mut pump);
    assert!(matches!(
        pump.step(Event::Received(Incoming::Frame(Frame::Binary(vec![9])))),
        Action::PollDisconnect
    ));
    let mut pump = Pump::new(8);
    pump.step(Event::Disconnected(false));
    pump.step(Event::Flushed(Polled::Pending));
    pump.step(Event::Writable(true));
    assert!(matches!(pump.step(Event::Room(Polled::Failed)), Action::PollReceive));
    assert!(!pump.input_open);
}

#[test]
fn oversized_messages_end_the_connection() {
    let mut pump = Pump::new(2);
    to_receive(&mut pump);
    match pump.step(Event::Received(Incoming::Frame(Frame::Binary(vec![1, 2, 3])))) {
        Action::Finish(Ending::Fail(reason)) => {
            assert_eq!(reason.code, 1009);
            assert_eq!(
                reason.description,
                Some("message exceeds limit of 2 bytes".to_owned())
            );
        }
        other => panic!("{other:?}"),
    }
}

#[test]
fn rejected_frames_and_closes_end_the_connection() {
    let mut pump = Pump::new(2);
    to_receive(&mut pump);
    assert!(matches!(
        pump.step(Event::Received(Incoming::Rejected(FrameError::InvalidText))),
        Action::Finish(Ending::Fail(reason)) if reason.code == 1007
    ));
    let mut pump = Pump::new(2);
    to_receive(&mut pump);
    assert!(matches!(
        pump.step(Event::Received(Incoming::Frame(Frame::Close(None)))),
        Action::Finish(Ending::Close(None))
    ));
}

#[test]
fn busy_pump_yields_after_its_rounds() {
    let mut pump = Pump::new(8);
    assert_eq!(ROUNDS, 32);
    for round in 0..ROUNDS {
        to_receive(&mut pump);
        let action = pump.step(Event::Received(Incoming::Frame(Frame::Pong(vec![]))));
        if round + 1 < ROUNDS {
            assert!(matches!(action, Action::PollDisconnect));
        } else {
            assert!(matches!(action, Action::Yield));
        }
    }
    assert_eq!(pump.rounds, ROUNDS);
}

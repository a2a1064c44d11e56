use aspire_orchestrator::control::{
    encode_exited, encode_kill, encode_resize, parse_control, ControlMsg,
};
use aspire_orchestrator::framing::{encode_frame, FrameReader, CHANNEL_CONTROL};

#[test]
fn frames_survive_arbitrary_splits() {
    let f1 = encode_frame(1, &vec![10, 20, 30]);
    let f2 = encode_frame(3, &vec![]);
    let f3 = encode_frame(2, &vec![7; 300]);
    let mut stream: Vec<u8> = Vec::new();
    stream.extend_from_slice(&f1);
    stream.extend_from_slice(&f2);
    stream.extend_from_slice(&f3);

    let mut reader = FrameReader::new();
    let mut frames: Vec<(u8, Vec<u8>)> = Vec::new();
    for b in stream {
        reader.feed(&vec![b]);
        while let Some(f) = reader.try_next() {
            frames.push(f);
        }
    }
    assert_eq!(frames.len(), 3);
    assert_eq!(frames[0], (1, vec![10, 20, 30]));
    assert_eq!(frames[1], (3, vec![]));
    assert_eq!(frames[2], (2, vec![7; 300]));
}

#[test]
fn oversized_payload_is_truncated() {
    let payload = vec![9u8; 70000];
    let frame = encode_frame(1, &payload);
    assert_eq!(frame.len(), 3 + 65535);
    let mut reader = FrameReader::new();
    reader.feed(&frame);
    let (ch, body) = reader.try_next().unwrap();
    assert_eq!(ch, 1);
    assert_eq!(body.len(), 65535);
    assert!(body.iter().all(|&b| b == 9));
    assert!(reader.try_next().is_none());
}

#[test]
fn incomplete_frame_is_not_delivered() {
    let frame = encode_frame(2, &vec![1, 2, 3, 4]);
    let mut reader = FrameReader::new();
    reader.feed(&frame[..5].to_vec());
    assert!(reader.try_next().is_none());
    reader.feed(&frame[5..].to_vec());
    assert_eq!(reader.try_next(), Some((2, vec![1, 2, 3, 4])));
}

#[test]
fn framed_resize_round_trip() {
    let json = encode_resize(80, 24);
    assert_eq!(json, "{\"resize\":[80,24]}");
    let frame = encode_frame(CHANNEL_CONTROL, &json.clone().into_bytes());
    let mut reader = FrameReader::new();
    reader.feed(&frame);
    let (ch, payload) = reader.try_next().unwrap();
    assert_eq!(ch, 0x03);
    assert_eq!(payload.len(), 18);
    assert_eq!(payload, json.as_bytes());
    let chars: Vec<char> = json.chars().collect();
    assert_eq!(parse_control(&chars), ControlMsg::Resize(80, 24));
}

#[test]
fn control_kill_and_exited_round_trip() {
    let kill = encode_kill();
    assert_eq!(kill, "\"kill\"");
    let kill_chars: Vec<char> = kill.chars().collect();
    assert_eq!(parse_control(&kill_chars), ControlMsg::Kill);

    let exited = encode_exited(0);
    assert_eq!(exited, "{\"exited\":0}");
    let exited_chars: Vec<char> = exited.chars().collect();
    assert_eq!(parse_control(&exited_chars), ControlMsg::Exited(0));
}

#[test]
fn malformed_control_is_unknown() {
    for payload in ["", "{\"resize\":[80,24]", "{\"resize\":[080,24]}", "kill", "{\"exited\":-1}"] {
        let chars: Vec<char> = payload.chars().collect();
        assert_eq!(parse_control(&chars), ControlMsg::Unknown);
    }
}

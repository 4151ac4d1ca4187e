use bytes::Bytes;
use forgekv::command::{parse_command, Command};
use forgekv::error::ProtocolError;
use forgekv::protocol::codec::{frame_from_body, frame_length};
use forgekv::protocol::{
    read_frame, Frame, Opcode, ProtocolLimits, Response, StatusCode, PROTOCOL_VERSION,
};
use forgekv::time::Duration;

fn limits() -> ProtocolLimits {
    ProtocolLimits {
        max_frame_size: 1024,
        max_key_size: 64,
        max_value_size: 512,
    }
}

fn payload_of(opcode: Opcode, payload: &[u8]) -> Result<Command, ProtocolError> {
    parse_command(
        &Frame::request(opcode, Bytes::copy_from_slice(payload)),
        limits(),
    )
}

#[test]
fn commands_encode_and_decode() {
    let commands = [
        Command::Ping,
        Command::Put {
            key: Bytes::from_static(b"key"),
            value: Bytes::from_static(b"binary\0value"),
        },
        Command::Get {
            key: Bytes::from_static(b"key"),
        },
        Command::SetEx {
            key: Bytes::from_static(b"session"),
            ttl: Duration::from_secs(30),
            value: Bytes::from_static(b"value"),
        },
        Command::Info,
        Command::Stats,
    ];
    for expected in commands {
        let frame = expected
            .clone()
            .into_frame()
            .expect("command should encode");
        assert_eq!(
            parse_command(&frame, limits()).expect("frame should parse"),
            expected
        );
    }
}

#[test]
fn rejects_invalid_opcode() {
    let frame = Frame {
        version: PROTOCOL_VERSION,
        code: 0xff,
        payload: Bytes::new(),
    };
    assert!(matches!(
        parse_command(&frame, limits()),
        Err(ProtocolError::InvalidOpcode(0xff))
    ));
}

#[test]
fn rejects_invalid_and_oversized_lengths() {
    let oversized = Command::Put {
        key: Bytes::from(vec![b'k'; 65]),
        value: Bytes::new(),
    }
    .into_frame()
    .expect("encoding only represents the supplied bytes");
    assert!(matches!(
        parse_command(&oversized, limits()),
        Err(ProtocolError::KeyTooLarge { .. })
    ));

    let truncated = Frame::request(Opcode::Get, Bytes::from_static(&[0, 0, 0, 8, b'a']));
    assert!(matches!(
        parse_command(&truncated, limits()),
        Err(ProtocolError::Truncated)
    ));
}

#[test]
fn codec_rejects_truncated_frame() {
    let written = [0, 0, 0, 5, PROTOCOL_VERSION, Opcode::Ping.code()];
    assert!(matches!(
        read_frame(&written, limits()),
        Err(ProtocolError::Truncated)
    ));
}

#[test]
fn codec_rejects_oversized_frame_before_body_allocation() {
    let written = 2048u32.to_be_bytes();
    assert!(matches!(
        read_frame(&written, limits()),
        Err(ProtocolError::FrameTooLarge { .. })
    ));
    assert_eq!(
        frame_length(&written, limits()),
        Err(ProtocolError::FrameTooLarge {
            actual: 2048,
            maximum: 1024
        })
    );
}

#[test]
fn frame_round_trip_preserves_binary_payload() {
    let frame = Frame::request(Opcode::Put, Bytes::from_static(b"\0\xff\x10"));
    let encoded = frame.encode(limits()).expect("frame should encode");
    assert_eq!(&encoded[6..], frame.payload.as_ref());
}

#[test]
fn redirect_response_round_trip_preserves_address() {
    let expected = Response::Redirect("127.0.0.1:6382".to_owned());
    let frame = expected
        .clone()
        .into_frame()
        .expect("redirect should encode");
    assert_eq!(
        Response::from_frame(frame).expect("redirect should decode"),
        expected
    );
}

#[test]
fn ping_and_pong_have_their_documented_bytes() {
    let ping = Command::Ping.into_frame().expect("ping should encode");
    assert_eq!(
        ping.encode(limits()).expect("ping should fit").as_ref(),
        [0, 0, 0, 2, 1, 1]
    );
    assert_eq!(ping.encoded_len(), Ok(6));
    let pong = Response::Pong.into_frame().expect("pong should encode");
    assert_eq!(
        pong.encode(limits()).expect("pong should fit").as_ref(),
        [0, 0, 0, 2, 1, 4]
    );
}

#[test]
fn setex_has_its_documented_layout() {
    let frame = Command::SetEx {
        key: Bytes::from_static(b"ab"),
        ttl: Duration::from_millis(1500),
        value: Bytes::from_static(b"xyz"),
    }
    .into_frame()
    .expect("command should encode");
    assert_eq!(frame.version, 1);
    assert_eq!(frame.code, 6);
    assert_eq!(
        frame.payload.as_ref(),
        [
            0, 0, 0, 2, b'a', b'b', 0, 0, 0, 0, 0, 0, 0x05, 0xdc, 0, 0, 0, 3, b'x', b'y', b'z'
        ]
    );
}

#[test]
fn every_command_survives_the_wire() {
    let key = Bytes::from_static(b"k\0");
    let commands = [
        Command::Del { key: key.clone() },
        Command::Exists { key: key.clone() },
        Command::Ttl { key: key.clone() },
        Command::Persist { key: key.clone() },
        Command::Put {
            key: key.clone(),
            value: Bytes::new(),
        },
    ];
    for expected in commands {
        assert_eq!(expected.key(), Some(&key));
        let encoded = expected
            .clone()
            .into_frame()
            .expect("command should encode")
            .encode(limits())
            .expect("frame should fit");
        let (frame, used) = read_frame(&encoded, limits())
            .expect("frame should read")
            .expect("frame should be there");
        assert_eq!(used, encoded.len());
        assert_eq!(
            parse_command(&frame, limits()).expect("command should parse"),
            expected
        );
        for kept in 1..encoded.len() {
            assert_eq!(
                read_frame(&encoded[..kept], limits()),
                Err(ProtocolError::Truncated)
            );
        }
    }
    assert_eq!(Command::Info.key(), None);
}

#[test]
fn frames_follow_one_another() {
    let first = Command::Ping.into_frame().expect("ping should encode");
    let second = Command::Get {
        key: Bytes::from_static(b"next"),
    }
    .into_frame()
    .expect("get should encode");
    let mut stream = first.encode(limits()).expect("frame should fit").to_vec();
    stream.extend_from_slice(&second.encode(limits()).expect("frame should fit"));
    let (read, used) = read_frame(&stream, limits())
        .expect("frame should read")
        .expect("frame should be there");
    assert_eq!(read, first);
    let (read, rest) = read_frame(&stream[used..], limits())
        .expect("frame should read")
        .expect("frame should be there");
    assert_eq!(read, second);
    assert_eq!(read_frame(&stream[used + rest..], limits()), Ok(None));
}

#[test]
fn frames_are_checked() {
    assert_eq!(
        read_frame(&[0, 0, 0, 1, 1], limits()),
        Err(ProtocolError::FrameTooSmall {
            actual: 1,
            minimum: 2
        })
    );
    assert_eq!(
        read_frame(&[0, 0, 0, 2, 9, 1], limits()),
        Err(ProtocolError::UnsupportedVersion(9))
    );
    assert_eq!(
        frame_from_body(&[7, 1]),
        Err(ProtocolError::UnsupportedVersion(7))
    );
    assert_eq!(read_frame(&[0, 0], limits()), Err(ProtocolError::Truncated));
    let large = Frame::request(Opcode::Put, Bytes::from(vec![0u8; 1023]));
    assert_eq!(
        large.encode(limits()),
        Err(ProtocolError::FrameTooLarge {
            actual: 1025,
            maximum: 1024
        })
    );
    let fitting = Frame::request(Opcode::Put, Bytes::from(vec![0u8; 1022]));
    assert!(fitting.encode(limits()).is_ok());
}

#[test]
fn requests_are_checked() {
    assert_eq!(
        payload_of(Opcode::Ping, b"x"),
        Err(ProtocolError::InvalidPayload(
            "command does not accept a payload"
        ))
    );
    assert_eq!(
        payload_of(Opcode::Get, &[0, 0, 0, 0]),
        Err(ProtocolError::InvalidPayload("key cannot be empty"))
    );
    assert_eq!(
        payload_of(Opcode::Get, &[0, 0, 0, 1, b'k', 0]),
        Err(ProtocolError::InvalidPayload("trailing payload bytes"))
    );
    assert_eq!(
        payload_of(Opcode::SetEx, &[0, 0, 0, 1, b'k', 0, 0, 0, 0, 0, 0, 0, 0, 0, 0, 0, 0]),
        Err(ProtocolError::InvalidPayload("TTL must be greater than zero"))
    );
    assert_eq!(
        payload_of(Opcode::Put, &[0, 0, 0, 1, b'k', 0, 0, 2, 1]),
        Err(ProtocolError::ValueTooLarge {
            actual: 513,
            maximum: 512
        })
    );
    assert_eq!(
        payload_of(Opcode::Get, &[0, 0, 0]),
        Err(ProtocolError::Truncated)
    );
    let frame = Frame {
        version: 2,
        code: 1,
        payload: Bytes::new(),
    };
    assert_eq!(
        parse_command(&frame, limits()),
        Err(ProtocolError::UnsupportedVersion(2))
    );
}

#[test]
fn every_response_survives_the_wire() {
    let responses = [
        Response::Success,
        Response::NotFound,
        Response::InvalidRequest("nein".to_owned()),
        Response::ServerError("internal server error".to_owned()),
        Response::Pong,
        Response::Value(Bytes::from_static(b"\0\xff")),
        Response::Integer(i64::MIN),
        Response::Integer(-1),
        Response::Info(vec![
            ("version".to_owned(), "0.4.0".to_owned()),
            ("n\u{e4}me".to_owned(), String::new()),
        ]),
        Response::Stats(vec![("hits_total".to_owned(), u64::MAX)]),
        Response::Redirect("h:1".to_owned()),
    ];
    for expected in responses {
        let frame = expected
            .clone()
            .into_frame()
            .expect("response should encode");
        assert_eq!(
            Response::from_frame(frame).expect("response should decode"),
            expected
        );
    }
}

#[test]
fn responses_are_checked() {
    let read = |status: StatusCode, payload: &[u8]| {
        Response::from_frame(Frame::response(status, Bytes::copy_from_slice(payload)))
    };
    assert_eq!(
        read(StatusCode::Success, b"x"),
        Err(ProtocolError::InvalidPayload(
            "response status does not accept a payload"
        ))
    );
    assert_eq!(
        read(StatusCode::Integer, &[0; 7]),
        Err(ProtocolError::InvalidPayload(
            "integer response must contain exactly eight bytes"
        ))
    );
    assert_eq!(
        read(StatusCode::Value, &[0, 0, 0, 2, 1]),
        Err(ProtocolError::InvalidPayload("invalid byte string length"))
    );
    assert_eq!(
        read(StatusCode::ServerError, &[0, 0, 0, 1, 0xff]),
        Err(ProtocolError::InvalidPayload("message is not valid UTF-8"))
    );
    assert_eq!(
        read(StatusCode::Stats, &[0, 0, 1]),
        Err(ProtocolError::InvalidPayload("trailing payload bytes"))
    );
    assert_eq!(read(StatusCode::Info, &[0]), Err(ProtocolError::Truncated));
    let unknown = Frame {
        version: PROTOCOL_VERSION,
        code: 0x0a,
        payload: Bytes::new(),
    };
    assert_eq!(
        Response::from_frame(unknown),
        Err(ProtocolError::InvalidOpcode(0x0a))
    );
}

#[test]
fn codes_are_the_documented_ones() {
    assert_eq!(Opcode::Stats.code(), 0x0a);
    assert_eq!(StatusCode::Redirect.code(), 0x09);
    for code in 1..=0x0a {
        assert_eq!(Opcode::try_from(code).expect("opcode").code(), code);
    }
    for code in 0..=0x09 {
        assert_eq!(StatusCode::try_from(code).expect("status").code(), code);
    }
    assert_eq!(Opcode::try_from(0), Err(ProtocolError::InvalidOpcode(0)));
    assert!(StatusCode::try_from(0x0a).is_err());
}

#[test]
fn protocol_errors_have_texts() {
    let texts = [
        (
            ProtocolError::FrameTooSmall {
                actual: 1,
                minimum: 2,
            },
            "frame length 1 is below the minimum 2",
        ),
        (
            ProtocolError::FrameTooLarge {
                actual: 2048,
                maximum: 1024,
            },
            "frame length 2048 exceeds configured maximum 1024",
        ),
        (
            ProtocolError::UnsupportedVersion(9),
            "unsupported protocol version 9",
        ),
        (ProtocolError::InvalidOpcode(0x0f), "invalid opcode 0x0f"),
        (ProtocolError::InvalidOpcode(0xab), "invalid opcode 0xab"),
        (ProtocolError::Truncated, "truncated frame"),
        (
            ProtocolError::InvalidPayload("key cannot be empty"),
            "invalid payload: key cannot be empty",
        ),
        (
            ProtocolError::KeyTooLarge {
                actual: 65,
                maximum: 64,
            },
            "key length 65 exceeds configured maximum 64",
        ),
        (
            ProtocolError::ValueTooLarge {
                actual: 10,
                maximum: 0,
            },
            "value length 10 exceeds configured maximum 0",
        ),
        (
            ProtocolError::IntegerOverflow,
            "integer overflow while processing untrusted input",
        ),
    ];
    for (error, text) in texts {
        assert_eq!(error.message(), text);
    }
}

#[test]
fn accepted_answers_are_their_own_frames() {
    let payloads: [&[u8]; 6] = [
        b"",
        b"\0\0\0\x02ok",
        b"\x80\0\0\0\0\0\0\x01",
        b"\0\0",
        b"\0\x01\0\x01n\0\0\0\x01v",
        b"\0\x01\0\x01n\0\0\0\0\0\0\0\x07",
    ];
    let mut accepted = 0;
    for code in 0..=u8::MAX {
        for payload in payloads {
            let frame = Frame {
                version: 1,
                code,
                payload: Bytes::copy_from_slice(payload),
            };
            if let Ok(response) = Response::from_frame(frame.clone()) {
                assert_eq!(response.into_frame(), Ok(frame));
                accepted += 1;
            }
        }
    }
    assert_eq!(accepted, 12);
}

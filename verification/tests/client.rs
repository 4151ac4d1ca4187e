use bytes::Bytes;
use forgekv::cli::{lay_out, parse_arguments, print_response, usage, USAGE};
use forgekv::client::{
    check_pipeline, encode_request, read_pipeline_response, read_response, Exchange, Step,
    MAX_PIPELINE_COMMANDS, MAX_REDIRECTS,
};
use forgekv::command::{parse_command, Command};
use forgekv::error::ProtocolError;
use forgekv::protocol::{read_frame, ProtocolLimits, Response};
use forgekv::time::Duration;

fn limits() -> ProtocolLimits {
    ProtocolLimits {
        max_frame_size: 64,
        max_key_size: 16,
        max_value_size: 32,
    }
}

fn parse(arguments: &[&str]) -> Result<Command, String> {
    let arguments: Vec<String> = arguments.iter().map(|text| (*text).to_owned()).collect();
    parse_arguments(&arguments)
}

#[test]
fn client_rejects_redirect_loop() {
    let address = "127.0.0.1:7001";
    let mut exchange = Exchange::new(address.to_owned());
    let error = exchange
        .on_response(Response::Redirect(address.to_owned()))
        .expect_err("redirect loop must fail");
    assert!(matches!(error, ProtocolError::RedirectLoop(_)));
    assert_eq!(error.message(), "redirect loop through 127.0.0.1:7001");
}

#[test]
fn at_most_five_redirects_are_followed() {
    let mut exchange = Exchange::new("seed:1".to_owned());
    for index in 0..MAX_REDIRECTS {
        let address = format!("node-{index}:1");
        match exchange.on_response(Response::Redirect(address.clone())) {
            Ok(Step::Resend(next)) => assert_eq!(next, address),
            other => panic!("unexpected step {other:?}"),
        }
    }
    let error = exchange
        .on_response(Response::Redirect("one-more:1".to_owned()))
        .expect_err("the limit is reached");
    assert_eq!(error, ProtocolError::TooManyRedirects { maximum: 5 });
    assert_eq!(error.message(), "more than 5 redirects");
    let error = exchange
        .on_response(Response::Redirect("node-2:1".to_owned()))
        .expect_err("a loop is a loop");
    assert_eq!(error, ProtocolError::RedirectLoop("node-2:1".to_owned()));
    match exchange.on_response(Response::Pong) {
        Ok(Step::Done(response)) => assert_eq!(response, Response::Pong),
        other => panic!("unexpected step {other:?}"),
    }
}

#[test]
fn requests_are_written_within_the_limits() {
    let command = Command::Get {
        key: Bytes::from_static(b"key"),
    };
    let encoded = encode_request(command.clone(), limits()).expect("request should encode");
    let (frame, _) = read_frame(&encoded, limits())
        .expect("request should read")
        .expect("request should be there");
    assert_eq!(parse_command(&frame, limits()), Ok(command));
    let large = Command::Put {
        key: Bytes::from_static(b"key"),
        value: Bytes::from(vec![0u8; 60]),
    };
    assert_eq!(
        encode_request(large, limits()),
        Err(ProtocolError::FrameTooLarge {
            actual: 73,
            maximum: 64
        })
    );
}

#[test]
fn pipelines_are_bounded() {
    assert_eq!(check_pipeline(0), Ok(()));
    assert_eq!(check_pipeline(MAX_PIPELINE_COMMANDS), Ok(()));
    assert_eq!(
        check_pipeline(MAX_PIPELINE_COMMANDS + 1),
        Err(ProtocolError::InvalidPayload(
            "pipeline exceeds 1024 commands"
        ))
    );
}

#[test]
fn closed_connections_are_errors() {
    assert_eq!(
        read_response(None),
        Err(ProtocolError::InvalidPayload(
            "server closed the connection before responding"
        ))
    );
    assert_eq!(
        read_pipeline_response(None),
        Err(ProtocolError::InvalidPayload(
            "server closed during pipeline response"
        ))
    );
    let frame = Response::Integer(7).into_frame().expect("frame");
    assert_eq!(read_response(Some(frame.clone())), Ok(Response::Integer(7)));
    assert_eq!(
        read_pipeline_response(Some(frame)),
        Ok(Response::Integer(7))
    );
}

#[test]
fn arguments_name_commands() {
    let key = Bytes::from_static(b"k");
    assert_eq!(parse(&["ping"]), Ok(Command::Ping));
    assert_eq!(parse(&["PiNg"]), Ok(Command::Ping));
    assert_eq!(
        parse(&["set", "k", "v\u{e9}"]),
        Ok(Command::Put {
            key: key.clone(),
            value: Bytes::from_static("v\u{e9}".as_bytes()),
        })
    );
    assert_eq!(parse(&["get", "k"]), Ok(Command::Get { key: key.clone() }));
    assert_eq!(parse(&["del", "k"]), Ok(Command::Del { key: key.clone() }));
    assert_eq!(
        parse(&["exists", "k"]),
        Ok(Command::Exists { key: key.clone() })
    );
    assert_eq!(
        parse(&["SETEX", "k", "30", "v"]),
        Ok(Command::SetEx {
            key: key.clone(),
            ttl: Duration::from_secs(30),
            value: Bytes::from_static(b"v"),
        })
    );
    assert_eq!(parse(&["ttl", "k"]), Ok(Command::Ttl { key: key.clone() }));
    assert_eq!(parse(&["persist", "k"]), Ok(Command::Persist { key }));
    assert_eq!(parse(&["info"]), Ok(Command::Info));
    assert_eq!(parse(&["stats"]), Ok(Command::Stats));
}

#[test]
fn bad_arguments_show_the_usage() {
    let cases: [(&[&str], &str); 8] = [
        (&[], "a command is required"),
        (&["flush"], "unknown command"),
        (&["ping", "x"], "invalid number of arguments"),
        (&["get"], "invalid number of arguments"),
        (&["set", "k"], "invalid number of arguments"),
        (&["setex", "k", "1"], "invalid number of arguments"),
        (
            &["setex", "k", "soon", "v"],
            "SETEX ttl must be a positive integer in seconds",
        ),
        (
            &["setex", "k", "0", "v"],
            "SETEX ttl must be greater than zero",
        ),
    ];
    for (arguments, reason) in cases {
        assert_eq!(parse(arguments), Err(format!("{reason}\n{USAGE}")));
    }
    assert_eq!(
        parse(&["setex", "k", "18446744073709551616", "v"]),
        Err(usage("SETEX ttl must be a positive integer in seconds"))
    );
}

#[test]
fn responses_are_printed() {
    let cases = [
        (Response::Success, vec!["OK"], false),
        (Response::NotFound, vec!["NOT_FOUND"], false),
        (Response::Pong, vec!["PONG"], false),
        (
            Response::InvalidRequest("bad".to_owned()),
            vec!["INVALID_REQUEST: bad"],
            true,
        ),
        (
            Response::ServerError("down".to_owned()),
            vec!["SERVER_ERROR: down"],
            true,
        ),
        (
            Response::Redirect("h:1".to_owned()),
            vec!["REDIRECT: h:1"],
            true,
        ),
        (
            Response::Value(Bytes::from_static(b"caf\xc3\xa9")),
            vec!["caf\u{e9}"],
            false,
        ),
        (
            Response::Value(Bytes::from_static(b"a\xffb")),
            vec!["a\u{fffd}b"],
            false,
        ),
        (
            Response::Integer(i64::MIN),
            vec!["-9223372036854775808"],
            false,
        ),
        (Response::Integer(120), vec!["120"], false),
        (
            Response::Info(vec![
                ("version".to_owned(), "0.4.0".to_owned()),
                ("keys".to_owned(), "0".to_owned()),
            ]),
            vec!["version: 0.4.0", "keys: 0"],
            false,
        ),
        (
            Response::Stats(vec![("hits_total".to_owned(), 3)]),
            vec!["hits_total: 3"],
            false,
        ),
    ];
    for (response, lines, error) in cases {
        let printout = print_response(&response);
        assert_eq!(printout.lines, lines);
        assert_eq!(printout.error, error);
    }
    let printout = lay_out(
        &Response::Value(Bytes::from_static(b"x")),
        "shown".to_owned(),
    );
    assert_eq!(printout.lines, ["shown"]);
}

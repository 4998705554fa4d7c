use std::io::BufReader;
use std::io::Cursor;

use dap::frame::encode_frame;
use dap::frame::parse_content_length_bytes;
use dap::messages::Command;
use dap::messages::DeserializationError;
use dap::messages::Event;
use dap::messages::Request;
use dap::messages::Response;
use dap::messages::ReverseRequest;
use dap::messages::ServerError;
use dap::server::Server;

type TestServer<'a> = Server<Cursor<Vec<u8>>, &'a mut Vec<u8>>;

fn server_on<'a>(input: &str, out: &'a mut Vec<u8>) -> TestServer<'a> {
    Server::new(BufReader::new(Cursor::new(input.as_bytes().to_vec())), out)
}

fn simulate_poll_request(input: &str) -> Request {
    let mut out = Vec::new();
    let mut server = server_on(input, &mut out);
    server.poll_request().unwrap().unwrap()
}

/// Splits a byte stream strictly by its declared `Content-Length` values.
fn split_frames(mut bytes: &[u8]) -> Vec<Vec<u8>> {
    let mut frames = Vec::new();
    while !bytes.is_empty() {
        let text = std::str::from_utf8(bytes).unwrap();
        let rest = text.strip_prefix("Content-Length: ").unwrap();
        let sep = rest.find("\r\n\r\n").unwrap();
        let len: usize = rest[..sep].parse().unwrap();
        let body_start = "Content-Length: ".len() + sep + 4;
        frames.push(bytes[body_start..body_start + len].to_vec());
        bytes = &bytes[body_start + len..];
    }
    frames
}

#[test]
fn test_server_init_request() {
    let req = simulate_poll_request(
        "Content-Length: 155\r\n\r\n{\"seq\": 152,\"type\": \"request\",\"command\": \"initialize\",\"arguments\": {\"adapterID\": \"0001e357-72c7-4f03-ae8f-c5b54bd8dabf\", \"clientName\": \"Some Cool Editor\"}}",
    );

    assert_eq!(req.seq, 152);
    assert!(matches!(req.command, Command::Initialize { .. }));
}

#[test]
fn test_server_restart_request() {
    let req = simulate_poll_request(
        "Content-Length: 67\r\n\r\n{\"seq\": 152,\"type\": \"request\",\"command\": \"restart\",\"arguments\": {}}",
    );

    assert!(match req.command {
        Command::Restart(args) => args.arguments.is_none(),
        _ => false,
    });

    // Restarting a launch request
    let req = simulate_poll_request(
        "Content-Length: 96\r\n\r\n{\"seq\": 152,\"type\": \"request\",\"command\": \"restart\",\"arguments\": {\"arguments\": {\"noDebug\":true}}}",
    );
    assert!(match req.command {
        Command::Restart(args) => match args.arguments {
            Some(inner) => inner.no_debug.is_some(),
            None => false,
        },
        _ => false,
    });

    // Restarting a launch or attach request
    let req = simulate_poll_request(
        "Content-Length: 98\r\n\r\n{\"seq\": 152,\"type\": \"request\",\"command\": \"restart\",\"arguments\": {\"arguments\": {\"__restart\":true}}}",
    );
    assert!(match req.command {
        Command::Restart(args) => match args.arguments {
            Some(inner) => inner.restart_data.as_deref() == Some("true"),
            None => false,
        },
        _ => false,
    });
}

#[test]
fn round_trip_reverse_request_preserves_payload() {
    // A reverse request goes out as one frame; reading that frame back
    // yields the same command, with the sequence number this side injected.
    let mut out = Vec::new();
    {
        let mut server = server_on("", &mut out);
        server
            .send_reverse_request(ReverseRequest { command: String::from("initialize") })
            .unwrap();
    }
    let mut sink = Vec::new();
    let mut reader = Server::new(BufReader::new(Cursor::new(out)), &mut sink);
    let req = reader.poll_request().unwrap().unwrap();
    assert_eq!(req.seq, 1);
    assert!(matches!(req.command, Command::Initialize { .. }));
}

#[test]
fn round_trip_response_fields_via_json() {
    let mut out = Vec::new();
    {
        let mut server = server_on("", &mut out);
        server
            .respond(Response { request_seq: 7, success: true, command: String::from("evaluate") })
            .unwrap();
    }
    let frames = split_frames(&out);
    assert_eq!(frames.len(), 1);
    let v: serde_json::Value = serde_json::from_slice(&frames[0]).unwrap();
    assert_eq!(v["seq"], serde_json::Value::from(1));
    assert_eq!(v["type"], serde_json::Value::String(String::from("response")));
    assert_eq!(v["request_seq"], serde_json::Value::from(7));
    assert_eq!(v["success"], serde_json::Value::Bool(true));
    assert_eq!(v["command"], serde_json::Value::String(String::from("evaluate")));
}

#[test]
fn sequence_numbers_count_up_from_one() {
    let mut out = Vec::new();
    {
        let mut server = server_on("", &mut out);
        server.send_event(Event { event: String::from("initialized") }).unwrap();
        server
            .respond(Response { request_seq: 1, success: false, command: String::from("attach") })
            .unwrap();
        server.send_reverse_request(ReverseRequest { command: String::from("restart") }).unwrap();
    }
    let frames = split_frames(&out);
    assert_eq!(frames.len(), 3);
    for (i, frame) in frames.iter().enumerate() {
        let v: serde_json::Value = serde_json::from_slice(frame).unwrap();
        assert_eq!(v["seq"], serde_json::Value::from(i as i64 + 1));
    }
}

#[test]
fn two_producers_frames_do_not_interleave() {
    // Two handles on one shared channel: however the sends arrive, the
    // stream splits by declared lengths into exactly two whole frames.
    let mut out = Vec::new();
    {
        let server = server_on("", &mut out);
        let first = std::sync::Arc::clone(&server.output);
        let second = std::sync::Arc::clone(&server.output);
        let (mut channel, handle) = first.acquire_write();
        channel.send_event(Event { event: String::from("stopped") }).unwrap();
        handle.release_write(channel);
        let (mut channel, handle) = second.acquire_write();
        channel.send_event(Event { event: String::from("continued") }).unwrap();
        handle.release_write(channel);
    }
    let frames = split_frames(&out);
    assert_eq!(frames.len(), 2);
    let first: serde_json::Value = serde_json::from_slice(&frames[0]).unwrap();
    let second: serde_json::Value = serde_json::from_slice(&frames[1]).unwrap();
    assert_eq!(first["event"], serde_json::Value::String(String::from("stopped")));
    assert_eq!(first["seq"], serde_json::Value::from(1));
    assert_eq!(second["event"], serde_json::Value::String(String::from("continued")));
    assert_eq!(second["seq"], serde_json::Value::from(2));
}

#[test]
fn unknown_header_rejected() {
    let mut out = Vec::new();
    let mut server = server_on("X-Custom: 1\r\n\r\n", &mut out);
    let err = server.poll_request().unwrap_err();
    assert!(match err {
        ServerError::UnknownHeader { header } => header == b"X-Custom".to_vec(),
        _ => false,
    });
}

#[test]
fn graceful_end_empty_stream() {
    let mut out = Vec::new();
    let mut server = server_on("", &mut out);
    assert!(server.poll_request().unwrap().is_none());
}

#[test]
fn header_without_colon_is_parse_error() {
    let mut out = Vec::new();
    let mut server = server_on("Content-Length 42\r\n\r\n", &mut out);
    assert!(matches!(server.poll_request(), Err(ServerError::HeaderParseError { .. })));
}

#[test]
fn bad_content_length_value_is_parse_error() {
    let mut out = Vec::new();
    let mut server = server_on("Content-Length: abc\r\n\r\n{}", &mut out);
    assert!(matches!(server.poll_request(), Err(ServerError::HeaderParseError { .. })));
}

#[test]
fn invalid_utf8_body_is_decoding_error() {
    let mut input = b"Content-Length: 2\r\n\r\n".to_vec();
    input.push(0xff);
    input.push(0xfe);
    let mut out = Vec::new();
    let mut server = Server::new(BufReader::new(Cursor::new(input)), &mut out);
    assert!(matches!(
        server.poll_request(),
        Err(ServerError::ParseError(DeserializationError::DecodingError))
    ));
}

#[test]
fn non_json_body_is_serde_error() {
    let mut out = Vec::new();
    let mut server = server_on("Content-Length: 8\r\n\r\nnot json", &mut out);
    assert!(matches!(
        server.poll_request(),
        Err(ServerError::ParseError(DeserializationError::SerdeError))
    ));
}

#[test]
fn truncated_body_is_io_error() {
    let mut out = Vec::new();
    let mut server = server_on("Content-Length: 99\r\n\r\nshort", &mut out);
    assert!(matches!(server.poll_request(), Err(ServerError::IoError)));
}

#[test]
fn exact_framing_declared_length() {
    let frame = encode_frame(b"hello");
    assert_eq!(frame, b"Content-Length: 5\r\n\r\nhello".to_vec());
    let empty = encode_frame(b"");
    assert_eq!(empty, b"Content-Length: 0\r\n\r\n".to_vec());
}

#[test]
fn frame_body_binary_safe_round_trip() {
    // Arbitrary text content survives framing unchanged, byte for byte.
    let body = "{\"seq\": 3,\"type\": \"request\",\"command\": \"initialize\",\"arguments\": {\"adapterID\": \"z\\u00fcrich \\ud83d\\ude00\"}}";
    let frame = encode_frame(body.as_bytes());
    let mut out = Vec::new();
    let mut server = Server::new(BufReader::new(Cursor::new(frame)), &mut out);
    let req = server.poll_request().unwrap().unwrap();
    assert_eq!(req.seq, 3);
    assert!(match req.command {
        Command::Initialize(args) => args.adapter_id.as_deref() == Some("z\u{fc}rich \u{1f600}"),
        _ => false,
    });
}

#[test]
fn content_length_value_parsing() {
    assert_eq!(parse_content_length_bytes(b" 42 "), Some(42));
    assert_eq!(parse_content_length_bytes(b"+7"), Some(7));
    assert_eq!(parse_content_length_bytes(b"0"), Some(0));
    assert_eq!(parse_content_length_bytes(b""), None);
    assert_eq!(parse_content_length_bytes(b"-1"), None);
    assert_eq!(parse_content_length_bytes(b"12a"), None);
    assert_eq!(parse_content_length_bytes(b"99999999999999999999999999"), None);
}

#[test]
fn multiple_content_length_headers_last_wins() {
    let mut out = Vec::new();
    let mut server = server_on(
        "Content-Length: 1\r\nContent-Length: 67\r\n\r\n{\"seq\": 152,\"type\": \"request\",\"command\": \"restart\",\"arguments\": {}}",
        &mut out,
    );
    let req = server.poll_request().unwrap().unwrap();
    assert_eq!(req.seq, 152);
}

#[test]
fn decode_message_initialize_text() {
    let req = dap::codec::decode_message(
        "{\"seq\": 152,\"type\": \"request\",\"command\": \"initialize\",\"arguments\": {\"adapterID\": \"a1\", \"clientName\": \"ed\"}}",
    )
    .unwrap();
    assert_eq!(req.seq, 152);
    assert!(match req.command {
        Command::Initialize(args) => {
            args.adapter_id.as_deref() == Some("a1") && args.client_name.as_deref() == Some("ed")
        },
        _ => false,
    });
}

#[test]
fn decode_message_rejects_unknown_shapes() {
    assert!(dap::codec::decode_message("{\"seq\": 1,\"type\": \"response\"}").is_err());
    assert!(dap::codec::decode_message("{\"type\": \"request\",\"command\": \"initialize\"}").is_err());
    assert!(dap::codec::decode_message("{\"seq\": 1,\"type\": \"request\",\"command\": \"launch\"}").is_err());
    assert!(dap::codec::decode_message("[]").is_err());
}

#[test]
fn output_channel_direct_send() {
    let mut out = Vec::new();
    {
        let mut channel = dap::server::ServerOutput::new(&mut out);
        channel.send_event(Event { event: String::from("terminated") }).unwrap();
        channel
            .respond(Response { request_seq: 9, success: true, command: String::from("next") })
            .unwrap();
    }
    let frames = split_frames(&out);
    assert_eq!(frames.len(), 2);
    let second: serde_json::Value = serde_json::from_slice(&frames[1]).unwrap();
    assert_eq!(second["seq"], serde_json::Value::from(2));
    assert_eq!(second["request_seq"], serde_json::Value::from(9));
}

use kv_db::codec::{
    decode_request, decode_response, encode_frame, encode_request, encode_response,
    frame_payload_len,
};
use kv_db::dispatcher::{CommandRequest, CommandResponse};
use kv_db::value::Value;

fn request_round_trip(req: CommandRequest) -> CommandRequest {
    let bytes = encode_request(&req);
    decode_request(&bytes).expect("an encoded request must decode")
}

#[test]
fn request_round_trips_every_operation() {
    let reqs = vec![
        CommandRequest::new_hget("table1", "hello"),
        CommandRequest::new_hgetall("table1"),
        CommandRequest::new_hdel("t", "k"),
        CommandRequest::new_hexist("t", "k"),
        CommandRequest::new_hset("t", "k", Value::of_str("v")),
    ];
    for req in reqs {
        let bytes = encode_request(&req);
        let back = decode_request(&bytes).expect("an encoded request must decode");
        assert_eq!(encode_request(&back), bytes);
    }
}

#[test]
fn request_round_trips_every_value_kind() {
    let values = vec![
        Value::of_str("text"),
        Value::Bytes(vec![0, 255, 7]),
        Value::Int(-42),
        Value::FloatBits(2.5f64.to_bits()),
        Value::Bool(false),
    ];
    for v in values {
        let req = CommandRequest::new_hset("t", "k", v);
        let back = request_round_trip(req);
        match back {
            CommandRequest::Hset { table, pair } => {
                assert_eq!(table, "t");
                assert_eq!(pair.key, "k");
            }
            _ => panic!("wrong operation decoded"),
        }
    }
}

#[test]
fn hset_round_trip_keeps_the_exact_value() {
    let req = CommandRequest::new_hset("t", "k", Value::Int(i64::MIN));
    match request_round_trip(req) {
        CommandRequest::Hset { pair, .. } => assert_eq!(pair.value, Value::Int(i64::MIN)),
        _ => panic!("wrong operation decoded"),
    }
}

#[test]
fn response_round_trips() {
    let resp = CommandResponse {
        status: 200,
        message: String::new(),
        values: vec![Value::of_str("world"), Value::Int(3), Value::Bool(true)],
    };
    let bytes = encode_response(&resp);
    let back = decode_response(&bytes).expect("an encoded response must decode");
    assert_eq!(back, resp);
}

#[test]
fn empty_response_round_trips() {
    let resp = CommandResponse {
        status: 404,
        message: "not found".to_string(),
        values: vec![],
    };
    let bytes = encode_response(&resp);
    assert_eq!(decode_response(&bytes), Some(resp));
}

#[test]
fn garbage_does_not_decode() {
    assert_eq!(decode_request(&vec![]), None);
    assert_eq!(decode_request(&vec![9u8, 1, 2]), None);
    let mut truncated = encode_request(&CommandRequest::new_hget("t", "k"));
    truncated.pop();
    assert_eq!(decode_request(&truncated), None);
    let mut padded = encode_request(&CommandRequest::new_hget("t", "k"));
    padded.push(0);
    assert_eq!(decode_request(&padded), None);
    assert_eq!(decode_response(&vec![1u8, 2, 3]), None);
}

#[test]
fn non_ascii_strings_survive_the_wire() {
    let req = CommandRequest::new_hset("таблица", "ключ", Value::of_str("значение"));
    match request_round_trip(req) {
        CommandRequest::Hset { table, pair } => {
            assert_eq!(table, "таблица");
            assert_eq!(pair.key, "ключ");
            assert_eq!(pair.value, Value::of_str("значение"));
        }
        _ => panic!("wrong operation decoded"),
    }
}

#[test]
fn frame_carries_its_payload_length() {
    let payload = encode_request(&CommandRequest::new_hget("t", "k"));
    let frame = encode_frame(&payload);
    assert_eq!(frame.len(), payload.len() + 8);
    assert_eq!(frame_payload_len(&frame), Some(payload.len() as u64));
    assert_eq!(&frame[8..], payload.as_slice());
    assert_eq!(frame_payload_len(&vec![1u8, 2]), None);
}

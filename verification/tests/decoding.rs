use xprotocol::abi::{
    decode_call, decode_event, AbiValue, CallKind, DecodeError, EventParam, EventSchema,
    FunctionSchema, ParamKind, RawLog,
};
use xprotocol::address::Address;
use xprotocol::events::XProtocol;

fn be_word_u128(v: u128) -> Vec<u8> {
    let mut w = vec![0u8; 16];
    w.extend_from_slice(&v.to_be_bytes());
    w
}

fn addr_word(tail: u8) -> Vec<u8> {
    let mut w = vec![0u8; 12];
    w.extend_from_slice(&[tail; 20]);
    w
}

fn topic_word(tag: u8) -> Vec<u8> {
    vec![tag; 32]
}

#[test]
fn event_decodes_static_params() {
    let schema = EventSchema {
        topic: topic_word(1),
        params: vec![
            EventParam { kind: ParamKind::Uint, indexed: false },
            EventParam { kind: ParamKind::Address, indexed: false },
            EventParam { kind: ParamKind::Bool, indexed: false },
        ],
    };
    let mut data = be_word_u128(7);
    data.extend_from_slice(&addr_word(0xAB));
    let mut bool_word = vec![0u8; 31];
    bool_word.push(1);
    data.extend_from_slice(&bool_word);
    let raw = RawLog { topics: vec![topic_word(1)], data };
    let vals = decode_event(&schema, &raw).expect("must decode");
    assert_eq!(vals.len(), 3);
    assert_eq!(vals[0].to_u64().expect("uint"), 7);
    let a = vals[1].to_address().expect("address");
    assert!(a.bytes == vec![0xAB; 20]);
    assert!(vals[2].to_bool().expect("bool"));
}

#[test]
fn event_indexed_params_come_from_topics() {
    let schema = EventSchema {
        topic: topic_word(9),
        params: vec![
            EventParam { kind: ParamKind::Uint, indexed: true },
            EventParam { kind: ParamKind::Uint, indexed: false },
        ],
    };
    let raw = RawLog {
        topics: vec![topic_word(9), be_word_u128(42)],
        data: be_word_u128(11),
    };
    let vals = decode_event(&schema, &raw).expect("must decode");
    assert_eq!(vals[0].to_u64().expect("indexed"), 42);
    assert_eq!(vals[1].to_u64().expect("data word"), 11);
}

#[test]
fn event_topic_mismatch_is_shape_error() {
    let schema = EventSchema { topic: topic_word(1), params: vec![] };
    let raw = RawLog { topics: vec![topic_word(2)], data: vec![] };
    assert_eq!(decode_event(&schema, &raw).unwrap_err(), DecodeError::Shape);
}

#[test]
fn event_bad_data_length_is_shape_error() {
    let schema = EventSchema {
        topic: topic_word(1),
        params: vec![EventParam { kind: ParamKind::Uint, indexed: false }],
    };
    let raw = RawLog { topics: vec![topic_word(1)], data: vec![0u8; 31] };
    assert_eq!(decode_event(&schema, &raw).unwrap_err(), DecodeError::Shape);
}

#[test]
fn event_invalid_bool_word_is_value_error() {
    let schema = EventSchema {
        topic: topic_word(1),
        params: vec![EventParam { kind: ParamKind::Bool, indexed: false }],
    };
    let mut data = vec![0u8; 31];
    data.push(2);
    let raw = RawLog { topics: vec![topic_word(1)], data };
    assert_eq!(decode_event(&schema, &raw).unwrap_err(), DecodeError::Value);
}

#[test]
fn uint_too_wide_for_u64_is_range_error() {
    let v = AbiValue::Uint(be_word_u128(u64::MAX as u128 + 1));
    assert_eq!(v.to_u64().unwrap_err(), DecodeError::Range);
    assert_eq!(v.to_u128().expect("fits u128"), u64::MAX as u128 + 1);
}

#[test]
fn wrong_kind_is_type_error() {
    let v = AbiValue::Bool(true);
    assert_eq!(v.to_u64().unwrap_err(), DecodeError::Type);
    assert_eq!(v.to_address().unwrap_err(), DecodeError::Type);
}

#[test]
fn call_head_decodes_and_checks_offsets() {
    let schema = FunctionSchema {
        params: vec![CallKind::Dynamic, CallKind::Uint, CallKind::Address, CallKind::Bool],
    };
    let mut input = Vec::new();
    input.extend_from_slice(&be_word_u128(128)); // offset within the input
    input.extend_from_slice(&be_word_u128(5));
    input.extend_from_slice(&addr_word(0x11));
    input.extend_from_slice(&{
        let mut w = vec![0u8; 31];
        w.push(0);
        w
    });
    let vals = decode_call(&schema, &input).expect("must decode");
    assert!(matches!(vals[0], AbiValue::Dynamic(128)));
    assert_eq!(vals[1].to_u64().expect("uint"), 5);
    assert!(!vals[3].to_bool().expect("bool"));
}

#[test]
fn call_short_input_is_shape_error() {
    let schema = FunctionSchema { params: vec![CallKind::Uint, CallKind::Uint] };
    let input = be_word_u128(1);
    assert_eq!(decode_call(&schema, &input).unwrap_err(), DecodeError::Shape);
}

#[test]
fn call_out_of_range_offset_is_value_error() {
    let schema = FunctionSchema { params: vec![CallKind::Dynamic] };
    let input = be_word_u128(33); // input is only 32 bytes long
    assert_eq!(decode_call(&schema, &input).unwrap_err(), DecodeError::Value);
}

#[test]
fn get_index_checks_bounds() {
    let values = [3u64, 4, 5];
    assert_eq!(*XProtocol::get_index(&values, 2).expect("in range"), 5);
    assert_eq!(XProtocol::get_index(&values, 3).unwrap_err(), DecodeError::Index);
}

#[test]
fn address_formats_as_lowercase_hex() {
    let mut bytes = vec![0u8; 18];
    bytes.push(0xDE);
    bytes.push(0xAD);
    let a = Address { bytes };
    assert_eq!(a.to_hex(), "0x000000000000000000000000000000000000dead");
}

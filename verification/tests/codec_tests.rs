use cfnupd::codec::{decode, encode};
use cfnupd::errors::CodecError;
use cfnupd::params::ParamJson;

fn record(key: &str, value: &str, prev: bool, resolved: &str) -> ParamJson {
    ParamJson {
        parameter_key: key.to_string(),
        parameter_value: value.to_string(),
        use_previous_value: prev,
        resolved_value: resolved.to_string(),
    }
}

fn assert_same_records(a: &[ParamJson], b: &[ParamJson]) {
    assert_eq!(a.len(), b.len());
    for (x, y) in a.iter().zip(b.iter()) {
        assert_eq!(x.parameter_key, y.parameter_key);
        assert_eq!(x.parameter_value, y.parameter_value);
        assert_eq!(x.use_previous_value, y.use_previous_value);
        assert_eq!(x.resolved_value, y.resolved_value);
    }
}

#[test]
fn encode_one_record_exact_text() {
    let records = vec![record("InstanceType", "t3.micro", false, "N/A")];
    let text = encode(&records);
    let expected = "[\n  {\n    \"parameter_key\": \"InstanceType\",\n    \"parameter_value\": \"t3.micro\",\n    \"resolved_value\": \"N/A\",\n    \"use_previous_value\": false\n  }\n]";
    assert_eq!(text, expected);
}

#[test]
fn encode_empty_list_exact_text() {
    let records: Vec<ParamJson> = Vec::new();
    assert_eq!(encode(&records), "[]");
}

#[test]
fn round_trip_plain_records() {
    let records = vec![
        record("InstanceType", "t3.micro", false, "N/A"),
        record("Environment", "production", true, "resolved-here"),
        record("Empty", "", false, ""),
    ];
    let decoded = decode(&encode(&records)).expect("round trip must parse");
    assert_same_records(&records, &decoded);
}

#[test]
fn round_trip_awkward_characters() {
    let records = vec![
        record("quotes", "a \"quoted\" value", false, "N/A"),
        record("backslashes", "C:\\path\\to\\thing", true, "\\"),
        record("breaks", "line one\nline two\ttabbed\rreturned", false, "N/A"),
        record("controls", "\u{0}\u{1}\u{8}\u{c}\u{1f}", false, "N/A"),
        record("wide", "émoji \u{1F600} ünicode", false, "ß"),
    ];
    let decoded = decode(&encode(&records)).expect("round trip must parse");
    assert_same_records(&records, &decoded);
}

#[test]
fn round_trip_empty_list() {
    let records: Vec<ParamJson> = Vec::new();
    let decoded = decode(&encode(&records)).expect("round trip must parse");
    assert_eq!(decoded.len(), 0);
}

#[test]
fn decode_missing_value_members_defaults() {
    let text = "[\n  {\n    \"parameter_key\": \"OnlyKey\"\n  }\n]";
    let decoded = decode(text).expect("a key-only object must decode");
    assert_eq!(decoded.len(), 1);
    assert_eq!(decoded[0].parameter_key, "OnlyKey");
    assert_eq!(decoded[0].parameter_value, "N/A");
    assert!(!decoded[0].use_previous_value);
    assert_eq!(decoded[0].resolved_value, "N/A");
}

#[test]
fn decode_missing_use_previous_value_defaults() {
    let text = "[{\"parameter_key\": \"K\", \"parameter_value\": \"V\", \"resolved_value\": \"R\"}]";
    let decoded = decode(text).expect("must decode");
    assert_eq!(decoded[0].parameter_value, "V");
    assert!(!decoded[0].use_previous_value);
    assert_eq!(decoded[0].resolved_value, "R");
}

#[test]
fn decode_missing_key_fails() {
    let text = "[{\"parameter_value\": \"V\", \"use_previous_value\": true}]";
    assert!(matches!(decode(text), Err(CodecError::EmptyOrMissingField)));
}

#[test]
fn decode_malformed_text_fails() {
    assert!(matches!(decode(""), Err(CodecError::MalformedParameterData)));
    assert!(matches!(decode("{}"), Err(CodecError::MalformedParameterData)));
    assert!(matches!(decode("[{]"), Err(CodecError::MalformedParameterData)));
    assert!(matches!(decode("[{\"parameter_key\": }]"), Err(CodecError::MalformedParameterData)));
    assert!(matches!(decode("[{\"unknown_member\": \"x\"}]"), Err(CodecError::MalformedParameterData)));
    assert!(matches!(decode("[{\"parameter_key\": \"K\"}] trailing"), Err(CodecError::MalformedParameterData)));
    assert!(matches!(decode("[{\"parameter_key\": 7}]"), Err(CodecError::MalformedParameterData)));
}

#[test]
fn decode_tolerates_reordered_members_and_whitespace() {
    let text = "  [ { \"use_previous_value\" : true ,\n\t\"parameter_key\":\"K\" } ]  ";
    let decoded = decode(text).expect("must decode");
    assert_eq!(decoded[0].parameter_key, "K");
    assert!(decoded[0].use_previous_value);
}

#[test]
fn decode_escapes_by_hand() {
    let text = "[{\"parameter_key\": \"\\u0041\\n\\t\\\"\\\\\\/\"}]";
    let decoded = decode(text).expect("must decode");
    assert_eq!(decoded[0].parameter_key, "A\n\t\"\\/");
}

#[test]
fn decode_rejects_surrogate_escape() {
    let text = "[{\"parameter_key\": \"\\uD800\"}]";
    assert!(matches!(decode(text), Err(CodecError::MalformedParameterData)));
}

#[test]
fn decode_rejects_raw_control_character() {
    let text = "[{\"parameter_key\": \"a\u{1}b\"}]";
    assert!(matches!(decode(text), Err(CodecError::MalformedParameterData)));
}

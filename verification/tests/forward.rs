use criptomeria_marketdata::forward::{
    build_log_entry, frame_message, normalize_instrument, source_topic, split_frame, topic_for,
    FrameError, ItemKind,
};

#[test]
fn normalizes_instrument_to_topic_segment() {
    assert_eq!(normalize_instrument("BTC-USDT"), "btcusdt");
    assert_eq!(normalize_instrument("BTC/USDT"), "btcusdt");
    assert_eq!(normalize_instrument("btcusdt"), "btcusdt");
    assert_eq!(normalize_instrument("123-ABC"), "123abc");
}

#[test]
fn builds_lob_topic_with_kind_and_instrument() {
    assert_eq!(topic_for("BTC-USDT", ItemKind::Lob), "lob__btcusdt");
}

#[test]
fn builds_trade_topic_with_kind_and_instrument() {
    assert_eq!(topic_for("BTC-USDT", ItemKind::Trade), "trade__btcusdt");
}

#[test]
fn frames_topic_and_payload_with_separator() {
    let bytes = frame_message("lob__btcusdt", b"{\"ts\":1}");
    assert_eq!(bytes, b"lob__btcusdt\0{\"ts\":1}");
}

#[test]
fn splits_frame_back_into_topic_and_payload() {
    let bytes = frame_message("trade__btcusdt", b"{\"price\":1.0}");
    let (topic, payload) = split_frame(&bytes).unwrap();
    assert_eq!(topic, "trade__btcusdt");
    assert_eq!(payload, b"{\"price\":1.0}");
}

#[test]
fn split_frame_returns_none_without_separator() {
    assert!(split_frame(b"no separator here").is_none());
}

#[test]
fn item_kinds_name_their_topic_segment() {
    assert_eq!(ItemKind::Lob.as_str(), "lob");
    assert_eq!(ItemKind::Trade.as_str(), "trade");
}

#[test]
fn normalizing_twice_changes_nothing() {
    let once = normalize_instrument("Eth_Usd.PERP-2");
    assert_eq!(once, "ethusdperp2");
    assert_eq!(normalize_instrument(&once), once);
}

#[test]
fn normalize_drops_non_ascii_letters() {
    assert_eq!(normalize_instrument("ÉTH-€"), "th");
    assert_eq!(normalize_instrument(""), "");
}

#[test]
fn suffix_topic_is_used_verbatim() {
    assert_eq!(
        source_topic("BTC-USDT", ItemKind::Trade, Some("okx_BTC-usd")),
        "trade__okx_BTC-usd"
    );
    assert_eq!(source_topic("BTC-USDT", ItemKind::Lob, None), "lob__btcusdt");
}

#[test]
fn frame_round_trips_non_ascii_topic_and_empty_payload() {
    let bytes = frame_message("lob__bïtcoin", b"");
    let (topic, payload) = split_frame(&bytes).unwrap();
    assert_eq!(topic, "lob__bïtcoin");
    assert!(payload.is_empty());
}

#[test]
fn split_frame_uses_first_separator() {
    let (topic, payload) = split_frame(b"a\0b\0c").unwrap();
    assert_eq!(topic, "a");
    assert_eq!(payload, b"b\0c");
}

#[test]
fn split_frame_replaces_invalid_utf8_in_topic() {
    let (topic, payload) = split_frame(b"lob\xff\0{}").unwrap();
    assert_eq!(topic, "lob\u{FFFD}");
    assert_eq!(payload, b"{}");
}

#[test]
fn log_message_emits_structured_json_schema() {
    let framed = frame_message("lob__btcusdt", br#"{"exchange":"okx","ts":123}"#);
    let entry = build_log_entry(&framed).expect("frame should parse");
    let parsed: serde_json::Value =
        serde_json::from_str(&entry).expect("output should be valid JSON");
    assert_eq!(parsed["topic"], "lob__btcusdt");
    assert_eq!(parsed["payload"]["exchange"], "okx");
    assert_eq!(parsed["payload"]["ts"], 123);
}

#[test]
fn log_message_emits_json_schema_for_trade_topic() {
    let framed = frame_message(
        "trade__btcusdt",
        br#"{"price":100.0,"size":1.0,"side":"buy"}"#,
    );
    let entry = build_log_entry(&framed).expect("frame should parse");
    let parsed: serde_json::Value =
        serde_json::from_str(&entry).expect("output should be valid JSON");
    assert_eq!(parsed["topic"], "trade__btcusdt");
    assert_eq!(parsed["payload"]["price"], 100.0);
    assert_eq!(parsed["payload"]["size"], 1.0);
    assert_eq!(parsed["payload"]["side"], "buy");
}

#[test]
fn log_entry_keeps_payload_bytes_and_quotes_topic() {
    let framed = frame_message("lob__\"q\"", br#"{"b":1, "a":2}"#);
    let entry = build_log_entry(&framed).unwrap();
    assert_eq!(entry, r#"{"topic":"lob__\"q\"","payload":{"b":1, "a":2}}"#);
}

#[test]
fn log_entry_rejects_frame_without_separator() {
    assert_eq!(build_log_entry(b"lob__btcusdt"), Err(FrameError::MissingSeparator));
    assert_eq!(FrameError::MissingSeparator.message(), "frame separator missing");
}

#[test]
fn log_entry_rejects_payload_that_is_not_json() {
    let framed = frame_message("lob__btcusdt", b"{not json");
    assert_eq!(build_log_entry(&framed), Err(FrameError::InvalidPayload));
    assert_eq!(FrameError::InvalidPayload.message(), "payload is not valid JSON");
}

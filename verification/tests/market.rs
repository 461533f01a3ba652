use mj_server::market::{
    bare_code, body_text, eastmoney_secid, format_time, quoted_fields, to_qq_prefix, PayloadError,
};

#[test]
fn quote_time_keeps_calendar_date() {
    assert_eq!(format_time("20260918142751"), "2026-09-18 14:27:51");
    assert_eq!(format_time("--"), "--");
    assert_eq!(format_time("2026-09-18 14:27:51"), "2026-09-18 14:27:51");
}

#[test]
fn quote_time_with_trailing_digits_keeps_only_fourteen() {
    assert_eq!(format_time("2026091814275199"), "2026-09-18 14:27:51");
    assert_eq!(format_time("2026091814275"), "2026091814275");
    assert_eq!(format_time(""), "");
    assert_eq!(format_time("2026０918142751"), "2026０918142751");
}

#[test]
fn quote_prefixes_follow_the_exchange() {
    assert_eq!(to_qq_prefix("sh600519"), "sh");
    assert_eq!(to_qq_prefix("bj899050"), "bj");
    assert_eq!(to_qq_prefix("sz000001"), "sz");
    assert_eq!(to_qq_prefix("600519"), "sz");
    assert_eq!(to_qq_prefix(""), "sz");
}

#[test]
fn bare_code_keeps_the_code_and_secid_uses_market() {
    assert_eq!(bare_code("sh600000"), "sh600000");
    assert_eq!(bare_code("600000"), "600000");
    assert_eq!(eastmoney_secid("sh600000"), "1.sh600000");
    assert_eq!(eastmoney_secid("sz000001"), "0.sz000001");
    assert_eq!(eastmoney_secid("bj899050"), "0.bj899050");
}

#[test]
fn quoted_payload_fields_are_cut_between_the_quotes() {
    let mut body = String::from("v_sh600000=\"");
    let fields: Vec<String> = (0..35).map(|i| format!("f{i}")).collect();
    body.push_str(&fields.join("~"));
    body.push_str("\";\n");
    let parsed = quoted_fields(&body, '~', 35).unwrap();
    assert_eq!(parsed.len(), 35);
    assert_eq!(parsed[0], "f0");
    assert_eq!(parsed[34], "f34");
    assert_eq!(quoted_fields(&body, '~', 36), Err(PayloadError::BadPayload));
    assert_eq!(quoted_fields("no quotes", ',', 1), Err(PayloadError::NoQuote));
    assert_eq!(quoted_fields("x=\"\"", ',', 1).unwrap(), vec![String::new()]);
}

#[test]
fn response_bodies_are_utf8_or_gbk() {
    assert_eq!(body_text("v_sh600000=\"浦发银行\";".as_bytes()), "v_sh600000=\"浦发银行\";");
    // "你好" in GBK is not valid UTF-8.
    assert_eq!(body_text(&[0xC4, 0xE3, 0xBA, 0xC3]), "你好");
    assert_eq!(body_text(&[0x61, 0xC4, 0xE3]), "a你");
    assert_eq!(body_text(&[]), "");
}

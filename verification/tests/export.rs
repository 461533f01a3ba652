use mj_server::export::{
    clamp_limit, content_disposition, esc, join_row, percent_encode, LimitQuery,
};

#[test]
fn csv_fields_are_quoted_only_when_needed() {
    assert_eq!(esc("plain"), "plain");
    assert_eq!(esc("a,b"), "\"a,b\"");
    assert_eq!(esc("say \"hi\""), "\"say \"\"hi\"\"\"");
    assert_eq!(esc("line\nbreak"), "\"line\nbreak\"");
    assert_eq!(esc("cr\r"), "\"cr\r\"");
    assert_eq!(esc(""), "");
    assert_eq!(esc("平安银行"), "平安银行");
}

#[test]
fn csv_rows_end_with_crlf() {
    let row = join_row(&["a".to_string(), "\"b,c\"".to_string(), String::new()]);
    assert_eq!(row, "a,\"b,c\",\r\n");
    assert_eq!(join_row(&[]), "\r\n");
    assert_eq!(join_row(&["only".to_string()]), "only\r\n");
}

#[test]
fn file_names_are_percent_encoded() {
    assert_eq!(percent_encode("mojin-signals.csv"), "mojin-signals.csv");
    assert_eq!(percent_encode("中文.csv"), "%E4%B8%AD%E6%96%87.csv");
    assert_eq!(percent_encode("a b~_"), "a%20b~_");
}

#[test]
fn export_limits_are_clamped() {
    assert_eq!(clamp_limit(&LimitQuery { limit: None }, 200, 5000), 200);
    assert_eq!(clamp_limit(&LimitQuery { limit: Some(0) }, 200, 5000), 1);
    assert_eq!(clamp_limit(&LimitQuery { limit: Some(-7) }, 200, 5000), 1);
    assert_eq!(clamp_limit(&LimitQuery { limit: Some(9999) }, 365, 5000), 5000);
    assert_eq!(clamp_limit(&LimitQuery { limit: Some(42) }, 365, 5000), 42);
}

#[test]
fn download_names_carry_both_forms() {
    assert_eq!(
        content_disposition("mojin-signals.csv"),
        "attachment; filename=\"mojin-signals.csv\"; filename*=UTF-8''mojin-signals.csv"
    );
    assert_eq!(
        content_disposition("信号 1.csv"),
        "attachment; filename=\"信号 1.csv\"; filename*=UTF-8''%E4%BF%A1%E5%8F%B7%201.csv"
    );
}

#[test]
fn encoded_names_hold_only_header_safe_characters() {
    for name in ["信号 1.csv", "a\"b;c.csv", "tab\tname", "émoji😀.csv"] {
        let enc = percent_encode(name);
        assert!(enc
            .chars()
            .all(|c| c.is_ascii_alphanumeric() || "-_.~%".contains(c)));
    }
}

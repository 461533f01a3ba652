use mj_server::ai::{
    candidate_codes, candidate_limit, config_view, fallback_role, mock_model_name, remote_config, risk_stance, role_instruction,
    role_model, role_model_key, role_name, roles, technician_factor, AiEnv, MockFundamental,
    MockPosition, MockPsychology, MockRisk, MockTechnician, Role,
};
use mj_server::config::EnvStatus;
use mj_server::text::{object_span, SpanError};

fn env(key: Option<&str>) -> AiEnv {
    AiEnv {
        api_key: key.map(|k| k.to_string()),
        base_url: None,
        model: None,
        timeout_secs: None,
        role_models: [None, None, None, None, None],
    }
}

fn status() -> EnvStatus {
    EnvStatus { env_file_loaded: false, env_file_path: ".env".into(), env_file_error: None }
}

#[test]
fn parses_json_span_from_remote_model_fences() {
    let span = object_span("```json\n{\"score\":0.4,\"confidence\":0.7,\"body\":\"样本有限\"}\n```").unwrap();
    assert_eq!(span, "{\"score\":0.4,\"confidence\":0.7,\"body\":\"样本有限\"}");
    assert_eq!(object_span("no json"), Err(SpanError::NoOpen));
    assert_eq!(object_span("{ open"), Err(SpanError::NoClose));
    assert_eq!(object_span("}{"), Ok(String::new()));
}

#[test]
fn roles_and_local_models() {
    let names: Vec<&str> = roles().into_iter().map(role_name).collect();
    assert_eq!(names, vec!["technician", "fundamental", "risk", "position", "psychology"]);
    assert_eq!(mock_model_name(Role::Risk), "mock-risk-v1");
    assert_eq!(MockTechnician.model_name(), "mock-technician-v1");
    assert_eq!(MockFundamental.role(), "fundamental");
    assert_eq!(MockRisk.role(), "risk");
    assert_eq!(MockPosition.model_name(), "mock-position-v1");
    assert_eq!(MockPsychology.role(), "psychology");
    assert_eq!(fallback_role("risk"), Role::Risk);
    assert_eq!(fallback_role("anything"), Role::Psychology);
}

#[test]
fn local_heuristic_tables() {
    assert_eq!(technician_factor("macd_golden"), Some((5, "MACD 金叉")));
    assert_eq!(technician_factor("vol_shrink"), Some((-1, "缩量")));
    assert_eq!(technician_factor("other"), None);
    assert_eq!(risk_stance("risk"), (-6, "提示减仓/观察"));
    assert_eq!(risk_stance("strong"), (2, "允许小仓"));
    assert_eq!(risk_stance("unknown"), (0, "中性"));
    assert!(role_instruction("risk").starts_with("优先识别"));
    assert!(role_instruction("x").starts_with("分析新闻情绪"));
}

#[test]
fn remote_config_needs_a_key() {
    assert!(remote_config(&env(None)).is_none());
    assert!(remote_config(&env(Some("   "))).is_none());
    let mut e = env(Some(" sk-test "));
    e.base_url = Some("https://dashscope.example/v1//".into());
    e.timeout_secs = Some("999".into());
    let c = remote_config(&e).unwrap();
    assert_eq!(c.api_key, "sk-test");
    assert_eq!(c.base_url, "https://dashscope.example/v1");
    assert_eq!(c.default_model, "gpt-5-mini");
    assert_eq!(c.timeout_secs, 180);
    e.timeout_secs = Some("+2".into());
    assert_eq!(remote_config(&e).unwrap().timeout_secs, 5);
    e.timeout_secs = Some("abc".into());
    assert_eq!(remote_config(&e).unwrap().timeout_secs, 45);
    e.timeout_secs = Some("60".into());
    assert_eq!(remote_config(&e).unwrap().timeout_secs, 60);
}

#[test]
fn role_models_and_keys() {
    assert_eq!(role_model_key(Role::Technician), "MJ_AI_MODEL_TECHNICIAN");
    assert_eq!(role_model(&Some("qwen".into()), "gpt"), "qwen");
    assert_eq!(role_model(&Some("  ".into()), "gpt"), "gpt");
    assert_eq!(role_model(&None, "gpt"), "gpt");
}

#[test]
fn config_view_without_key_lists_local_models() {
    let v = config_view(&env(None), &status());
    assert!(!v.remote_enabled);
    assert_eq!(v.default_model, "local-heuristic");
    assert_eq!(v.base_url, None);
    assert_eq!(v.configured_base_url, "https://api.openai.com/v1");
    assert_eq!(v.timeout_secs, 45);
    assert_eq!(v.role_models[0], ("technician".to_string(), "mock-technician-v1".to_string()));
    assert_eq!(v.env_file_path, ".env");
    let mut e = env(Some("k"));
    e.model = Some("m1".into());
    e.role_models[2] = Some("m-risk".into());
    let v = config_view(&e, &status());
    assert!(v.remote_enabled && v.token_configured);
    assert_eq!(v.default_model, "m1");
    assert_eq!(v.role_models[2], ("risk".to_string(), "m-risk".to_string()));
    assert_eq!(v.role_models[4], ("psychology".to_string(), "m1".to_string()));
}

#[test]
fn parses_json_from_remote_model_fences() {
    let span = object_span(
        "```json\n{\"score\":0.4,\"confidence\":0.7,\"body\":\"样本有限\"}\n```",
    )
    .unwrap();
    let answer: serde_json::Value = serde_json::from_str(&span).unwrap();
    assert_eq!(answer["score"].as_f64(), Some(0.4));
    assert_eq!(answer["confidence"].as_f64(), Some(0.7));
}

fn codes(list: &[&str]) -> Vec<String> {
    list.iter().map(|c| c.to_string()).collect()
}

#[test]
fn candidates_come_from_the_request_or_the_watch_list() {
    assert_eq!(
        candidate_codes(codes(&["sz300623", "sh600519", "sz300623"]), codes(&["sz000001"])),
        codes(&["sz300623", "sh600519"])
    );
    assert_eq!(
        candidate_codes(Vec::new(), codes(&["sz000001", "sh600519", "sz000001"])),
        codes(&["sz000001", "sh600519"])
    );
    assert!(candidate_codes(Vec::new(), Vec::new()).is_empty());
    let many: Vec<String> = (0..15).map(|i| format!("sz{:06}", i)).collect();
    let picked = candidate_codes(many.clone(), Vec::new());
    assert_eq!(picked.len(), 12);
    assert_eq!(picked, many[..12].to_vec());
}

#[test]
fn candidate_count_is_one_to_ten() {
    assert_eq!(candidate_limit(None), 10);
    assert_eq!(candidate_limit(Some(3)), 3);
    assert_eq!(candidate_limit(Some(0)), 1);
    assert_eq!(candidate_limit(Some(50)), 10);
}

#[test]
fn timeouts_stay_between_five_and_one_eighty() {
    for (raw, want) in [(None, 45), (Some("0"), 5), (Some("181"), 180), (Some("-3"), 45), (Some("30"), 30)] {
        let mut e = env(Some("sk-test"));
        e.timeout_secs = raw.map(|r| r.to_string());
        assert_eq!(remote_config(&e).unwrap().timeout_secs, want);
    }
}

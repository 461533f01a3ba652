//! Five-role analysis: the roles, their local heuristics' decision tables,
//! and the remote-model configuration read from the environment.
use vstd::prelude::*;

use crate::config::EnvStatus;
use crate::text::{
    views, owned, parse_u64, parse_u64_of, push_str, str_eq, trim, trim_end_char, trimmed,
    trimmed_end_char, upper_ascii, ascii_upper_str,
};

verus! {

broadcast use vstd::string::group_string_axioms;

/// The five analysis roles.
#[derive(Debug, Clone, Copy, PartialEq, Eq, Structural)]
pub enum Role {
    Technician,
    Fundamental,
    Risk,
    Position,
    Psychology,
}

/// Role names, in the fixed order of the five roles.
pub open spec fn roles_spec() -> Seq<Role> {
    seq![Role::Technician, Role::Fundamental, Role::Risk, Role::Position, Role::Psychology]
}

/// The five roles in their fixed order.
pub fn roles() -> (r: Vec<Role>)
    ensures
        r@ == roles_spec(),
{
    let r = vec![Role::Technician, Role::Fundamental, Role::Risk, Role::Position, Role::Psychology];
    assert(r@ =~= roles_spec());
    r
}

/// Wire name of a role.
pub open spec fn role_name_of(r: Role) -> Seq<char> {
    match r {
        Role::Technician => "technician"@,
        Role::Fundamental => "fundamental"@,
        Role::Risk => "risk"@,
        Role::Position => "position"@,
        Role::Psychology => "psychology"@,
    }
}

/// Wire name of a role.
pub fn role_name(r: Role) -> (s: &'static str)
    ensures
        s@ == role_name_of(r),
{
    match r {
        Role::Technician => "technician",
        Role::Fundamental => "fundamental",
        Role::Risk => "risk",
        Role::Position => "position",
        Role::Psychology => "psychology",
    }
}

/// The role whose local heuristic stands in for a provider named `role`:
/// any name that is not one of the first four roles gets the psychology one.
pub open spec fn fallback_role_of(role: Seq<char>) -> Role {
    if role == "technician"@ {
        Role::Technician
    } else if role == "fundamental"@ {
        Role::Fundamental
    } else if role == "risk"@ {
        Role::Risk
    } else if role == "position"@ {
        Role::Position
    } else {
        Role::Psychology
    }
}

/// Which local heuristic stands in for a provider of the named role.
pub fn fallback_role(role: &str) -> (r: Role)
    ensures
        r == fallback_role_of(role@),
{
    if str_eq(role, "technician") {
        Role::Technician
    } else if str_eq(role, "fundamental") {
        Role::Fundamental
    } else if str_eq(role, "risk") {
        Role::Risk
    } else if str_eq(role, "position") {
        Role::Position
    } else {
        Role::Psychology
    }
}

/// Name of the local heuristic model of a role.
pub open spec fn mock_model_of(r: Role) -> Seq<char> {
    "mock-"@ + role_name_of(r) + "-v1"@
}

/// Name of the local heuristic model of a role (`mock-{role}-v1`).
pub fn mock_model_name(r: Role) -> (s: String)
    ensures
        s@ == mock_model_of(r),
{
    let mut s = owned("mock-");
    push_str(&mut s, role_name(r));
    push_str(&mut s, "-v1");
    s
}

/// Local technical heuristic.
pub struct MockTechnician;

/// Local fundamentals heuristic.
pub struct MockFundamental;

/// Local risk heuristic.
pub struct MockRisk;

/// Local position heuristic.
pub struct MockPosition;

/// Local sentiment heuristic.
pub struct MockPsychology;

impl MockTechnician {
    /// Its role.
    pub fn role(&self) -> (r: &'static str)
        ensures
            r@ == role_name_of(Role::Technician),
    {
        "technician"
    }

    /// Its model name.
    pub fn model_name(&self) -> (r: &'static str)
        ensures
            r@ == "mock-technician-v1"@,
    {
        "mock-technician-v1"
    }
}

impl MockFundamental {
    /// Its role.
    pub fn role(&self) -> (r: &'static str)
        ensures
            r@ == role_name_of(Role::Fundamental),
    {
        "fundamental"
    }

    /// Its model name.
    pub fn model_name(&self) -> (r: &'static str)
        ensures
            r@ == "mock-fundamental-v1"@,
    {
        "mock-fundamental-v1"
    }
}

impl MockRisk {
    /// Its role.
    pub fn role(&self) -> (r: &'static str)
        ensures
            r@ == role_name_of(Role::Risk),
    {
        "risk"
    }

    /// Its model name.
    pub fn model_name(&self) -> (r: &'static str)
        ensures
            r@ == "mock-risk-v1"@,
    {
        "mock-risk-v1"
    }
}

impl MockPosition {
    /// Its role.
    pub fn role(&self) -> (r: &'static str)
        ensures
            r@ == role_name_of(Role::Position),
    {
        "position"
    }

    /// Its model name.
    pub fn model_name(&self) -> (r: &'static str)
        ensures
            r@ == "mock-position-v1"@,
    {
        "mock-position-v1"
    }
}

impl MockPsychology {
    /// Its role.
    pub fn role(&self) -> (r: &'static str)
        ensures
            r@ == role_name_of(Role::Psychology),
    {
        "psychology"
    }

    /// Its model name.
    pub fn model_name(&self) -> (r: &'static str)
        ensures
            r@ == "mock-psychology-v1"@,
    {
        "mock-psychology-v1"
    }
}

/// What the technical heuristic makes of one signal factor: the change of
/// its score, in tenths, and the note it writes; unknown factors count for
/// nothing.
pub open spec fn technician_factor_of(key: Seq<char>) -> Option<(i32, Seq<char>)> {
    if key == "macd_golden"@ {
        Some((5, "MACD 金叉"@))
    } else if key == "macd_death"@ {
        Some((-5i32, "MACD 死叉"@))
    } else if key == "vol_spike"@ {
        Some((3, "放量"@))
    } else if key == "vol_shrink"@ {
        Some((-1i32, "缩量"@))
    } else if key == "kdj_overbought"@ {
        Some((-3i32, "KDJ 超买"@))
    } else if key == "kdj_oversold"@ {
        Some((3, "KDJ 超卖"@))
    } else if key == "rsi_high"@ {
        Some((-2i32, "RSI 高位"@))
    } else if key == "rsi_low"@ {
        Some((2, "RSI 低位"@))
    } else {
        None
    }
}

/// The technical heuristic reads bullish factors up and bearish ones down:
/// a golden cross, a volume spike, an oversold KDJ and a low RSI raise the
/// score; a death cross, shrinking volume, an overbought KDJ and a high RSI
/// lower it, each opposite pair by the same amount (half a point for MACD
/// crosses, 0.3 for KDJ, 0.2 for RSI); a volume spike weighs 0.3 and
/// shrinking volume 0.1. Any other factor leaves the score alone.
pub proof fn law_technician_factor_signs()
    ensures
        technician_factor_of("macd_golden"@) is Some && (technician_factor_of("macd_golden"@)->0) == (5i32, "MACD 金叉"@),
        technician_factor_of("macd_death"@) is Some && (technician_factor_of("macd_death"@)->0) == (-5i32, "MACD 死叉"@),
        technician_factor_of("vol_spike"@) is Some && (technician_factor_of("vol_spike"@)->0) == (3i32, "放量"@),
        technician_factor_of("vol_shrink"@) is Some && (technician_factor_of("vol_shrink"@)->0) == (-1i32, "缩量"@),
        technician_factor_of("kdj_overbought"@) is Some && (technician_factor_of("kdj_overbought"@)->0) == (-3i32, "KDJ 超买"@),
        technician_factor_of("kdj_oversold"@) is Some && (technician_factor_of("kdj_oversold"@)->0) == (3i32, "KDJ 超卖"@),
        technician_factor_of("rsi_high"@) is Some && (technician_factor_of("rsi_high"@)->0) == (-2i32, "RSI 高位"@),
        technician_factor_of("rsi_low"@) is Some && (technician_factor_of("rsi_low"@)->0) == (2i32, "RSI 低位"@),
        forall|k: Seq<char>|
            #![trigger technician_factor_of(k)]
            (k == "macd_death"@ || k == "vol_shrink"@ || k == "kdj_overbought"@ || k
                == "rsi_high"@) ==> (technician_factor_of(k) is Some && (technician_factor_of(k)->0).0 < 0),
        forall|k: Seq<char>|
            #![trigger technician_factor_of(k)]
            (k == "macd_golden"@ || k == "vol_spike"@ || k == "kdj_oversold"@ || k
                == "rsi_low"@) ==> (technician_factor_of(k) is Some && (technician_factor_of(k)->0).0 > 0),
        forall|k: Seq<char>|
            #![trigger technician_factor_of(k)]
            !(k == "macd_golden"@ || k == "macd_death"@ || k == "vol_spike"@ || k == "vol_shrink"@
                || k == "kdj_overbought"@ || k == "kdj_oversold"@ || k == "rsi_high"@ || k
                == "rsi_low"@) ==> technician_factor_of(k) is None,
{
    reveal_strlit("macd_golden");
    reveal_strlit("macd_death");
    reveal_strlit("vol_spike");
    reveal_strlit("vol_shrink");
    reveal_strlit("kdj_overbought");
    reveal_strlit("kdj_oversold");
    reveal_strlit("rsi_high");
    reveal_strlit("rsi_low");
    assert("macd_death"@ != "macd_golden"@) by {
        assert("macd_death"@.len() != "macd_golden"@.len());
    }
    assert("vol_spike"@ != "macd_golden"@ && "vol_spike"@ != "macd_death"@) by {
        assert("vol_spike"@[0] != "macd_golden"@[0]);
    }
    assert("vol_shrink"@ != "macd_golden"@ && "vol_shrink"@ != "macd_death"@
        && "vol_shrink"@ != "vol_spike"@) by {
        assert("vol_shrink"@[0] != "macd_golden"@[0]);
        assert("vol_shrink"@.len() != "vol_spike"@.len());
    }
    assert("kdj_overbought"@ != "macd_golden"@ && "kdj_overbought"@ != "macd_death"@
        && "kdj_overbought"@ != "vol_spike"@ && "kdj_overbought"@ != "vol_shrink"@) by {
        assert("kdj_overbought"@[0] != "macd_golden"@[0]);
        assert("kdj_overbought"@[0] != "vol_spike"@[0]);
    }
    assert("kdj_oversold"@ != "macd_golden"@ && "kdj_oversold"@ != "macd_death"@
        && "kdj_oversold"@ != "vol_spike"@ && "kdj_oversold"@ != "vol_shrink"@
        && "kdj_oversold"@ != "kdj_overbought"@) by {
        assert("kdj_oversold"@[0] != "macd_golden"@[0]);
        assert("kdj_oversold"@[0] != "vol_spike"@[0]);
        assert("kdj_oversold"@.len() != "kdj_overbought"@.len());
    }
    assert("rsi_high"@ != "macd_golden"@ && "rsi_high"@ != "macd_death"@ && "rsi_high"@
        != "vol_spike"@ && "rsi_high"@ != "vol_shrink"@ && "rsi_high"@ != "kdj_overbought"@
        && "rsi_high"@ != "kdj_oversold"@) by {
        assert("rsi_high"@[0] != "macd_golden"@[0]);
        assert("rsi_high"@[0] != "vol_spike"@[0]);
        assert("rsi_high"@[0] != "kdj_oversold"@[0]);
    }
    assert("rsi_low"@ != "macd_golden"@ && "rsi_low"@ != "macd_death"@ && "rsi_low"@
        != "vol_spike"@ && "rsi_low"@ != "vol_shrink"@ && "rsi_low"@ != "kdj_overbought"@
        && "rsi_low"@ != "kdj_oversold"@ && "rsi_low"@ != "rsi_high"@) by {
        assert("rsi_low"@[0] != "macd_golden"@[0]);
        assert("rsi_low"@[0] != "vol_spike"@[0]);
        assert("rsi_low"@[0] != "kdj_oversold"@[0]);
        assert("rsi_low"@.len() != "rsi_high"@.len());
    }
}

/// Score change (in tenths) and note of one factor for the technical role.
pub fn technician_factor(key: &str) -> (r: Option<(i32, &'static str)>)
    ensures
        match r {
            Some((d, note)) => technician_factor_of(key@) == Some((d, note@)),
            None => technician_factor_of(key@) is None,
        },
{
    if str_eq(key, "macd_golden") {
        Some((5, "MACD 金叉"))
    } else if str_eq(key, "macd_death") {
        Some((-5i32, "MACD 死叉"))
    } else if str_eq(key, "vol_spike") {
        Some((3, "放量"))
    } else if str_eq(key, "vol_shrink") {
        Some((-1i32, "缩量"))
    } else if str_eq(key, "kdj_overbought") {
        Some((-3i32, "KDJ 超买"))
    } else if str_eq(key, "kdj_oversold") {
        Some((3, "KDJ 超卖"))
    } else if str_eq(key, "rsi_high") {
        Some((-2i32, "RSI 高位"))
    } else if str_eq(key, "rsi_low") {
        Some((2, "RSI 低位"))
    } else {
        None
    }
}

/// The risk role's stance on a signal level: its score in tenths and its
/// hint.
pub open spec fn risk_stance_of(level: Seq<char>) -> (i32, Seq<char>) {
    if level == "risk"@ {
        (-6i32, "提示减仓/观察"@)
    } else if level == "tip"@ {
        (0, "中性观察"@)
    } else if level == "confirm"@ {
        (1, "控制仓位"@)
    } else if level == "strong"@ {
        (2, "允许小仓"@)
    } else {
        (0, "中性"@)
    }
}

/// Score (in tenths) and hint of the risk role for a signal level.
pub fn risk_stance(level: &str) -> (r: (i32, &'static str))
    ensures
        (r.0, r.1@) == risk_stance_of(level@),
{
    if str_eq(level, "risk") {
        (-6i32, "提示减仓/观察")
    } else if str_eq(level, "tip") {
        (0, "中性观察")
    } else if str_eq(level, "confirm") {
        (1, "控制仓位")
    } else if str_eq(level, "strong") {
        (2, "允许小仓")
    } else {
        (0, "中性")
    }
}

/// Instruction given to a remote model in a role.
pub open spec fn role_instruction_of(role: Seq<char>) -> Seq<char> {
    if role == "technician"@ {
        "只分析价格、量能、MACD/KDJ/RSI 等技术因素，指出失效条件。"@
    } else if role == "fundamental"@ {
        "分析行业逻辑、基本面线索和历史后验样本，明确数据缺口。"@
    } else if role == "risk"@ {
        "优先识别回撤、拥挤、事件和数据时效风险，观点应保守。"@
    } else if role == "position"@ {
        "从组合仓位、相关性和风险预算角度给出观点，不假设用户风险承受能力。"@
    } else {
        "分析新闻情绪、昨日美股和 A 股板块联动，区分事实与推断。"@
    }
}

/// Instruction given to a remote model in a role.
pub fn role_instruction(role: &str) -> (s: &'static str)
    ensures
        s@ == role_instruction_of(role@),
{
    if str_eq(role, "technician") {
        "只分析价格、量能、MACD/KDJ/RSI 等技术因素，指出失效条件。"
    } else if str_eq(role, "fundamental") {
        "分析行业逻辑、基本面线索和历史后验样本，明确数据缺口。"
    } else if str_eq(role, "risk") {
        "优先识别回撤、拥挤、事件和数据时效风险，观点应保守。"
    } else if str_eq(role, "position") {
        "从组合仓位、相关性和风险预算角度给出观点，不假设用户风险承受能力。"
    } else {
        "分析新闻情绪、昨日美股和 A 股板块联动，区分事实与推断。"
    }
}

// ───────────── remote model configuration ─────────────

/// The settings the remote-model configuration is read from; `None` for a
/// variable that is not set.
#[derive(Debug, Clone)]
pub struct AiEnv {
    /// `MJ_AI_API_KEY`.
    pub api_key: Option<String>,
    /// `MJ_AI_BASE_URL`.
    pub base_url: Option<String>,
    /// `MJ_AI_MODEL`.
    pub model: Option<String>,
    /// `MJ_AI_TIMEOUT_SECS`.
    pub timeout_secs: Option<String>,
    /// `MJ_AI_MODEL_{ROLE}` for the five roles, in their fixed order.
    pub role_models: [Option<String>; 5],
}

/// Remote-model settings in force.
#[derive(Debug, Clone)]
pub struct RemoteConfig {
    pub api_key: String,
    pub base_url: String,
    pub default_model: String,
    pub timeout_secs: u64,
}

/// Default endpoint.
pub open spec fn default_base_url() -> Seq<char> {
    "https://api.openai.com/v1"@
}

/// Default model.
pub open spec fn default_model() -> Seq<char> {
    "gpt-5-mini"@
}

/// A variable's value, or a default.
pub open spec fn or_default(v: Option<String>, d: Seq<char>) -> Seq<char> {
    match v {
        Some(s) => s@,
        None => d,
    }
}

/// Configured endpoint: the setting or the default, without trailing `/`.
pub open spec fn base_url_of(env: AiEnv) -> Seq<char> {
    trim_end_char(or_default(env.base_url, default_base_url()), '/')
}

/// Timeout: the setting read as a number, else 45, brought into `5..=180`.
pub open spec fn timeout_of(env: AiEnv) -> u64 {
    let t = match env.timeout_secs {
        Some(s) => match parse_u64_of(s@) {
            Some(n) => n,
            None => 45,
        },
        None => 45,
    };
    if t < 5 {
        5
    } else if t > 180 {
        180
    } else {
        t
    }
}

/// The timeout of a remote model lies in `5..=180` seconds, and is 45 when
/// none is set.
pub proof fn law_timeout_in_range(env: AiEnv)
    ensures
        5 <= timeout_of(env) <= 180,
        env.timeout_secs is None ==> timeout_of(env) == 45,
{
}

/// Remote models are enabled when the API key, trimmed, is not empty.
pub open spec fn remote_enabled(env: AiEnv) -> bool {
    env.api_key is Some && trim(env.api_key->0@).len() != 0
}

/// The settings in force, when remote models are enabled.
pub open spec fn remote_config_matches(env: AiEnv, c: RemoteConfig) -> bool {
    &&& c.api_key@ == trim(env.api_key->0@)
    &&& c.base_url@ == base_url_of(env)
    &&& c.default_model@ == or_default(env.model, default_model())
    &&& c.timeout_secs == timeout_of(env)
}

/// A variable's value, or a default.
fn value_or(v: &Option<String>, d: &str) -> (s: String)
    ensures
        s@ == or_default(*v, d@),
{
    match v {
        Some(s) => s.clone(),
        None => owned(d),
    }
}

/// Endpoint setting without trailing `/`.
fn configured_base_url(env: &AiEnv) -> (s: String)
    ensures
        s@ == base_url_of(*env),
{
    let raw = value_or(&env.base_url, "https://api.openai.com/v1");
    trimmed_end_char(raw.as_str(), '/')
}

/// Timeout setting.
fn configured_timeout(env: &AiEnv) -> (t: u64)
    ensures
        t == timeout_of(*env),
{
    let t = match &env.timeout_secs {
        Some(s) => match parse_u64(s.as_str()) {
            Some(n) => n,
            None => 45,
        },
        None => 45,
    };
    if t < 5 {
        5
    } else if t > 180 {
        180
    } else {
        t
    }
}

/// The remote-model settings: none without a (non-blank) API key; otherwise
/// the trimmed key, the endpoint, the default model and the timeout.
pub fn remote_config(env: &AiEnv) -> (r: Option<RemoteConfig>)
    ensures
        r is Some <==> remote_enabled(*env),
        r matches Some(c) ==> remote_config_matches(*env, c),
{
    let key = match &env.api_key {
        Some(k) => trimmed(k.as_str()),
        None => return None,
    };
    if key.as_str().is_empty() {
        return None;
    }
    Some(
        RemoteConfig {
            api_key: key,
            base_url: configured_base_url(env),
            default_model: value_or(&env.model, "gpt-5-mini"),
            timeout_secs: configured_timeout(env),
        },
    )
}

/// Name of the variable that overrides the model of a role:
/// `MJ_AI_MODEL_` and the role's name in upper case.
pub open spec fn role_model_key_of(r: Role) -> Seq<char> {
    "MJ_AI_MODEL_"@ + ascii_upper_str(role_name_of(r))
}

/// Name of the variable that overrides the model of a role.
pub fn role_model_key(r: Role) -> (k: String)
    ensures
        k@ == role_model_key_of(r),
{
    let mut k = owned("MJ_AI_MODEL_");
    let up = upper_ascii(role_name(r));
    push_str(&mut k, up.as_str());
    k
}

/// Model of a role: its override when set and not blank, else the default.
pub open spec fn role_model_of(over: Option<String>, default: Seq<char>) -> Seq<char> {
    match over {
        Some(v) => if trim(v@).len() != 0 {
            v@
        } else {
            default
        },
        None => default,
    }
}

/// Model used for a role.
pub fn role_model(over: &Option<String>, default: &str) -> (m: String)
    ensures
        m@ == role_model_of(*over, default@),
{
    match over {
        Some(v) => {
            let t = trimmed(v.as_str());
            if !t.as_str().is_empty() {
                v.clone()
            } else {
                owned(default)
            }
        },
        None => owned(default),
    }
}

/// Index of a role in the fixed order.
pub open spec fn role_index(r: Role) -> int {
    match r {
        Role::Technician => 0,
        Role::Fundamental => 1,
        Role::Risk => 2,
        Role::Position => 3,
        Role::Psychology => 4,
    }
}

/// The i-th listed role reads the i-th override: with remote models the
/// model listed for the role in position `i` (technician, fundamental, risk,
/// position, psychology) is the `i`-th `MJ_AI_MODEL_{ROLE}` setting when set
/// and not blank, else the default model; without, it is that role's local
/// heuristic.
pub proof fn law_role_models_by_position(env: AiEnv)
    ensures
        role_name_of(roles_spec()[0]) == "technician"@,
        role_name_of(roles_spec()[1]) == "fundamental"@,
        role_name_of(roles_spec()[2]) == "risk"@,
        role_name_of(roles_spec()[3]) == "position"@,
        role_name_of(roles_spec()[4]) == "psychology"@,
        forall|i: int|
            0 <= i < 5 && remote_enabled(env) ==> #[trigger] listed_model_of(env, roles_spec()[i])
                == role_model_of(env.role_models[i], or_default(env.model, default_model())),
        forall|i: int|
            0 <= i < 5 && !remote_enabled(env) ==> #[trigger] listed_model_of(env, roles_spec()[i])
                == mock_model_of(roles_spec()[i]),
{
    assert forall|i: int|
        0 <= i < 5 && remote_enabled(env) implies #[trigger] listed_model_of(env, roles_spec()[i])
            == role_model_of(env.role_models[i], or_default(env.model, default_model())) by {
        assert(role_index(roles_spec()[i]) == i);
    }
}

/// What the configuration endpoint shows (never the key itself).
#[derive(Debug, Clone)]
pub struct AiConfigView {
    pub remote_enabled: bool,
    pub base_url: Option<String>,
    pub default_model: String,
    pub configured_base_url: String,
    pub configured_model: String,
    pub timeout_secs: u64,
    pub role_models: Vec<(String, String)>,
    pub token_configured: bool,
    pub env_file_loaded: bool,
    pub env_file_path: String,
    pub env_file_error: Option<String>,
}

/// The model listed for a role: with remote models, its override or the
/// default model; without, its local heuristic.
pub open spec fn listed_model_of(env: AiEnv, r: Role) -> Seq<char> {
    if remote_enabled(env) {
        role_model_of(env.role_models[role_index(r)], or_default(env.model, default_model()))
    } else {
        mock_model_of(r)
    }
}

/// The configuration view for the given settings and environment-file status.
pub fn config_view(env: &AiEnv, status: &EnvStatus) -> (v: AiConfigView)
    ensures
        v.remote_enabled == remote_enabled(*env),
        v.token_configured == remote_enabled(*env),
        v.base_url is Some <==> remote_enabled(*env),
        v.base_url matches Some(b) ==> b@ == base_url_of(*env),
        v.default_model@ == if remote_enabled(*env) {
            or_default(env.model, default_model())
        } else {
            "local-heuristic"@
        },
        v.configured_base_url@ == base_url_of(*env),
        v.configured_model@ == or_default(env.model, default_model()),
        v.timeout_secs == if remote_enabled(*env) {
            timeout_of(*env)
        } else {
            45
        },
        v.role_models@.len() == 5,
        forall|i: int|
            0 <= i < 5 ==> {
                let r = roles_spec()[i];
                &&& (#[trigger] v.role_models@[i]).0@ == role_name_of(r)
                &&& v.role_models@[i].1@ == listed_model_of(*env, r)
            },
        forall|i: int|
            0 <= i < 5 && remote_enabled(*env) ==> (#[trigger] v.role_models@[i]).1@
                == role_model_of(env.role_models[i], or_default(env.model, default_model())),
        v.env_file_loaded == status.env_file_loaded,
        v.env_file_path == status.env_file_path,
        v.env_file_error == status.env_file_error,
{
    let config = remote_config(env);
    let enabled = config.is_some();
    let shown_model = match &config {
        Some(c) => c.default_model.clone(),
        None => owned("local-heuristic"),
    };
    let rs = roles();
    let mut role_models: Vec<(String, String)> = Vec::new();
    let mut i: usize = 0;
    while i < 5
        invariant
            i <= 5,
            rs@ == roles_spec(),
            enabled == remote_enabled(*env),
            enabled ==> shown_model@ == or_default(env.model, default_model()),
            role_models@.len() == i,
            forall|k: int|
                0 <= k < i ==> {
                    let r = roles_spec()[k];
                    &&& (#[trigger] role_models@[k]).0@ == role_name_of(r)
                    &&& role_models@[k].1@ == listed_model_of(*env, r)
                },
        decreases 5 - i,
    {
        let r = rs[i];
        assert(role_index(r) == i);
        let model = if enabled {
            role_model(&env.role_models[i], shown_model.as_str())
        } else {
            mock_model_name(r)
        };
        role_models.push((owned(role_name(r)), model));
        i = i + 1;
    }
    proof {
        law_role_models_by_position(*env);
        assert forall|i: int|
            0 <= i < 5 && remote_enabled(*env) implies (#[trigger] role_models@[i]).1@
                == role_model_of(env.role_models[i], or_default(env.model, default_model())) by {
            assert(listed_model_of(*env, roles_spec()[i]) == role_models@[i].1@);
        }
    }
    AiConfigView {
        remote_enabled: enabled,
        base_url: match &config {
            Some(c) => Some(c.base_url.clone()),
            None => None,
        },
        default_model: shown_model,
        configured_base_url: configured_base_url(env),
        configured_model: value_or(&env.model, "gpt-5-mini"),
        timeout_secs: match &config {
            Some(c) => c.timeout_secs,
            None => 45,
        },
        role_models,
        token_configured: enabled,
        env_file_loaded: status.env_file_loaded,
        env_file_path: status.env_file_path.clone(),
        env_file_error: status.env_file_error.clone(),
    }
}

// ───────────── candidate selection ─────────────

/// `s` with every item that already occurred earlier in it left out.
pub open spec fn distinct_in_order(s: Seq<Seq<char>>) -> Seq<Seq<char>>
    decreases s.len(),
{
    if s.len() == 0 {
        Seq::empty()
    } else {
        let r = distinct_in_order(s.drop_last());
        if s.drop_last().contains(s.last()) {
            r
        } else {
            r.push(s.last())
        }
    }
}

/// Most codes one candidate selection analyses.
pub open spec fn max_analyzed() -> nat {
    12
}

/// Most candidates one selection returns.
pub open spec fn max_returned() -> nat {
    10
}

/// The first `n` items of `s` (all of them when there are fewer).
pub open spec fn at_most(s: Seq<Seq<char>>, n: nat) -> Seq<Seq<char>> {
    if s.len() <= n {
        s
    } else {
        s.take(n as int)
    }
}

/// Codes a candidate selection analyses: the requested codes, or the watch
/// list when none is requested, each once, in order, at most twelve.
pub open spec fn candidate_codes_of(requested: Seq<Seq<char>>, watchlist: Seq<Seq<char>>) -> Seq<
    Seq<char>,
> {
    at_most(
        distinct_in_order(
            if requested.len() > 0 {
                requested
            } else {
                watchlist
            },
        ),
        max_analyzed(),
    )
}

/// The codes listed once each keep exactly the codes of the list.
pub proof fn lemma_distinct_in_order_contains(s: Seq<Seq<char>>, x: Seq<char>)
    ensures
        distinct_in_order(s).contains(x) <==> s.contains(x),
    decreases s.len(),
{
    if s.len() > 0 {
        lemma_distinct_in_order_contains(s.drop_last(), x);
        let p = s.drop_last();
        assert(s =~= p.push(s.last()));
        if p.contains(x) {
            let k = choose|k: int| 0 <= k < p.len() && p[k] == x;
            assert(s[k] == x);
        }
        if s.contains(x) {
            let k = choose|k: int| 0 <= k < s.len() && s[k] == x;
            if k < p.len() {
                assert(p[k] == x);
            }
        }
        let r = distinct_in_order(p);
        if !p.contains(s.last()) {
            assert(r.push(s.last())[r.len() as int] == s.last());
            if r.contains(x) {
                let k = choose|k: int| 0 <= k < r.len() && r[k] == x;
                assert(r.push(s.last())[k] == x);
            }
            if r.push(s.last()).contains(x) {
                let k = choose|k: int| 0 <= k < r.len() + 1 && r.push(s.last())[k] == x;
                if k < r.len() {
                    assert(r[k] == x);
                }
            }
        }
    }
}

/// No code occurs twice among the selected candidates, and each of them was
/// requested (or, with no request, is on the watch list).
pub proof fn law_candidates_distinct(requested: Seq<Seq<char>>, watchlist: Seq<Seq<char>>)
    ensures
        candidate_codes_of(requested, watchlist).len() <= max_analyzed(),
        forall|i: int, j: int|
            0 <= i < j < candidate_codes_of(requested, watchlist).len() ==> candidate_codes_of(
                requested,
                watchlist,
            )[i] != candidate_codes_of(requested, watchlist)[j],
        forall|i: int|
            0 <= i < candidate_codes_of(requested, watchlist).len() ==> (if requested.len() > 0 {
                requested
            } else {
                watchlist
            }).contains(#[trigger] candidate_codes_of(requested, watchlist)[i]),
{
    let src = if requested.len() > 0 {
        requested
    } else {
        watchlist
    };
    lemma_distinct_in_order_unique(src);
    let d = distinct_in_order(src);
    let c = candidate_codes_of(requested, watchlist);
    assert forall|i: int| 0 <= i < c.len() implies src.contains(#[trigger] c[i]) by {
        assert(c[i] == d[i]);
        assert(d.contains(d[i]));
        lemma_distinct_in_order_contains(src, d[i]);
    }
}

/// Items of `distinct_in_order` are pairwise different.
proof fn lemma_distinct_in_order_unique(s: Seq<Seq<char>>)
    ensures
        forall|i: int, j: int|
            0 <= i < j < distinct_in_order(s).len() ==> distinct_in_order(s)[i] != distinct_in_order(
                s,
            )[j],
    decreases s.len(),
{
    if s.len() > 0 {
        let p = s.drop_last();
        lemma_distinct_in_order_unique(p);
        lemma_distinct_in_order_contains(p, s.last());
        let r = distinct_in_order(p);
        if !p.contains(s.last()) {
            assert forall|i: int, j: int|
                0 <= i < j < r.push(s.last()).len() implies r.push(s.last())[i] != r.push(
                s.last(),
            )[j] by {
                if j == r.len() {
                    assert(r.contains(r[i]));
                }
            }
        }
    }
}

/// Whether `code` is among `v`.
fn has_code(v: &Vec<String>, code: &str) -> (b: bool)
    ensures
        b == views(v@).contains(code@),
{
    let mut i: usize = 0;
    while i < v.len()
        invariant
            i <= v@.len(),
            forall|k: int| 0 <= k < i ==> views(v@)[k] != code@,
        decreases v@.len() - i,
    {
        if str_eq(v[i].as_str(), code) {
            assert(views(v@)[i as int] == code@);
            return true;
        }
        i = i + 1;
    }
    false
}

/// The codes a candidate selection analyses; see [`candidate_codes_of`].
pub fn candidate_codes(requested: Vec<String>, watchlist: Vec<String>) -> (r: Vec<String>)
    ensures
        views(r@) == candidate_codes_of(views(requested@), views(watchlist@)),
{
    let use_requested = requested.len() > 0;
    let src = if use_requested {
        requested
    } else {
        watchlist
    };
    let ghost ss = views(src@);
    assert(ss == (if views(requested@).len() > 0 {
        views(requested@)
    } else {
        views(watchlist@)
    }));
    let mut out: Vec<String> = Vec::new();
    let mut i: usize = 0;
    while i < src.len()
        invariant
            i <= src@.len(),
            ss == views(src@),
            views(out@) == at_most(distinct_in_order(ss.take(i as int)), 12),
        decreases src@.len() - i,
    {
        let ghost p = ss.take(i as int);
        let ghost d = distinct_in_order(p);
        assert(ss.take(i + 1).drop_last() =~= p);
        assert(ss.take(i + 1).last() == src@[i as int]@);
        if out.len() < 12 {
            assert(views(out@) == d);
            proof {
                lemma_distinct_in_order_contains(p, src@[i as int]@);
            }
            if !has_code(&out, src[i].as_str()) {
                let c = src[i].clone();
                out.push(c);
                assert(views(out@) =~= d.push(src@[i as int]@));
            }
        } else {
            let ghost d2 = distinct_in_order(ss.take(i + 1));
            assert(d2.take(12) =~= d.take(12));
        }
        i = i + 1;
    }
    assert(ss.take(src@.len() as int) =~= ss);
    out
}

/// Number of candidates returned: the requested number (10 when none is
/// given), brought into `1..=10`.
pub fn candidate_limit(max_candidates: Option<usize>) -> (n: usize)
    ensures
        n == match max_candidates {
            Some(m) => if m < 1 {
                1
            } else if m > 10 {
                10
            } else {
                m
            },
            None => 10,
        },
        1 <= n <= max_returned(),
{
    match max_candidates {
        Some(m) => if m < 1 {
            1
        } else if m > 10 {
            10
        } else {
            m
        },
        None => 10,
    }
}

} // verus!

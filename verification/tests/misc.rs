use mj_server::config::{load_env, EnvFileProbe};
use mj_server::signals::{level_name, replay_schedule, scan_codes, tradable, Level};
use mj_server::text::{parse_u64, split, chars_of, trimmed};
use mj_server::universe::{prepare_index_add, prepare_watch_add, IndexAdd, UniverseError, WatchAdd};

#[test]
fn env_status_reports_the_probe() {
    let s = load_env("/srv/.env".into(), EnvFileProbe::Loaded);
    assert!(s.env_file_loaded);
    assert_eq!(s.env_file_path, "/srv/.env");
    assert_eq!(s.env_file_error, None);
    let s = load_env(".env".into(), EnvFileProbe::NotAFile);
    assert!(!s.env_file_loaded);
    assert_eq!(s.env_file_error, None);
    let s = load_env(".env".into(), EnvFileProbe::Failed("line 3".into()));
    assert!(!s.env_file_loaded);
    assert_eq!(s.env_file_error.as_deref(), Some("line 3"));
}

#[test]
fn levels_have_lower_case_names() {
    assert_eq!(level_name(Level::Tip), "tip");
    assert_eq!(level_name(Level::Confirm), "confirm");
    assert_eq!(level_name(Level::Strong), "strong");
    assert_eq!(level_name(Level::Risk), "risk");
    assert!(tradable(Level::Confirm) && tradable(Level::Strong));
    assert!(!tradable(Level::Tip) && !tradable(Level::Risk));
}

#[test]
fn watch_and_index_requests_fill_defaults() {
    let row = prepare_watch_add(WatchAdd { group: None, code: "sz000001".into(), name: None, note: Some("n".into()) }).unwrap();
    assert_eq!(row.group, "默认");
    assert_eq!(row.code, "sz000001");
    assert_eq!(row.name, "");
    assert_eq!(row.note, "n");
    assert_eq!(
        prepare_watch_add(WatchAdd { group: Some("g".into()), code: "  ".into(), name: None, note: None }).err(),
        Some(UniverseError::CodeRequired)
    );
    let idx = prepare_index_add(IndexAdd { code: "sh000300".into(), name: None, enabled: None }).unwrap();
    assert!(idx.enabled);
    assert_eq!(idx.name, "");
    let idx = prepare_index_add(IndexAdd { code: "x".into(), name: Some("沪深300".into()), enabled: Some(false) }).unwrap();
    assert!(!idx.enabled);
    assert!(prepare_index_add(IndexAdd { code: String::new(), name: None, enabled: None }).is_err());
}

#[test]
fn text_helpers_match_std() {
    for s in ["a,b,,c", "", ",", "no-sep", ",x,"] {
        let ours = split(&chars_of(s), ',');
        let std_split: Vec<String> = s.split(',').map(|p| p.to_string()).collect();
        assert_eq!(ours, std_split);
    }
    for s in ["  a b  ", "\u{3000}全角\u{3000}", "", "\t\n", "x"] {
        assert_eq!(trimmed(s), s.trim());
    }
    for s in ["0", "+7", "18446744073709551615", "18446744073709551616", "", "+", "-1", "1a"] {
        assert_eq!(parse_u64(s), s.parse::<u64>().ok());
    }
}

#[test]
fn scans_default_to_the_sample_codes() {
    assert_eq!(scan_codes(Vec::new()), vec!["sz300623", "sh600519", "sz000001", "sz399006"]);
    assert_eq!(scan_codes(vec!["sh600000".to_string()]), vec!["sh600000"]);
}

#[test]
fn replay_holds_each_trade_and_never_overlaps() {
    let mut eligible = vec![false; 50];
    eligible[29] = true; // trade 30..=34, look again at 34
    eligible[31] = true; // skipped: inside the first trade
    eligible[34] = true; // trade 35..=39
    eligible[40] = true; // trade 41..=45
    eligible[45] = true; // not looked at: its exit would be bar 50
    let (trades, scanned) = replay_schedule(50, 5, &eligible);
    assert_eq!(trades, vec![(30, 34), (35, 39), (41, 45)]);
    // Bars looked at: 29, 34, 39 and 40.
    assert_eq!(scanned, 4);
    let (none, scanned) = replay_schedule(20, 5, &[false; 20]);
    assert!(none.is_empty());
    assert_eq!(scanned, 0);
    let (_, scanned) = replay_schedule(40, 5, &[false; 40]);
    assert_eq!(scanned, 6);
}

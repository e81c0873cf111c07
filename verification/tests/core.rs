use std::collections::VecDeque;

use cascada::accounts::{
    account_matches, apply_connected, apply_disconnected, apply_heartbeat, attaches_by_discovery,
    discover_ctrader_account, discover_mt_account, discover_tv_account, new_ctrader_account,
    new_mt_account, new_tv_account, record_heartbeat, reset_for_restore, update_server,
    ReportOutcome,
};
use cascada::journal::{record_historical, record_opened, TRADE_BUFFER_CAP};
use cascada::log_ids::next_log_id;
use cascada::model::{Account, AccountRole, CopyRule, LogLevel, Platform, Side, TradeSummary};
use cascada::plans::{
    backfill_choice, ctrader_logins_to_register, floating_loss_positions, mirror_needs_relookup,
    needed_subscriptions, opened_dispatch, opened_needs_backfill, opened_rule_tag, reconcile_plan,
    register_ctrader_accounts, settle_found_rule, subscription_differs,
};
use cascada::throttle::{throttle_open, QUOTE_EMIT_GAP_MS, TRAILING_CHECK_GAP_MS};
use cascada::replies::{bracketed, close_reply, decimal_string, resync_reply, rule_for_command};
use cascada::risk::{
    contract_size_for, failure_notice_check, failure_notice_decision, failure_report,
    heartbeat_sweep, heartbeat_verdict, weekend_sweep_at, weekend_sweep_check, weekend_sweep_decision,
    HeartbeatEntry, HeartbeatVerdict,
};
use cascada::rules::{delete_rule, find_rule, rule_position, upsert_rule};
use cascada::symbols::{canonical_symbols, quote_kept, upper_keep_set};
use cascada::text::{ascii_uppercased, contains_str, str_equal, trim_str};

fn rule(id: &str, name: &str, master: &str, slave: &str, enabled: bool) -> CopyRule<u32> {
    CopyRule {
        id: id.to_string(),
        name: name.to_string(),
        master_id: master.to_string(),
        slave_id: slave.to_string(),
        enabled,
        weekend_close: false,
        max_floating_loss_bits: 0,
        settings: 7,
    }
}

fn account(id: &str, platform: Platform, login: &str) -> Account {
    Account {
        id: id.to_string(),
        platform,
        label: format!("acc {id}"),
        login: login.to_string(),
        server: "srv".to_string(),
        role: AccountRole::Idle,
        connected: true,
        balance_bits: 1000.0f64.to_bits(),
        equity_bits: 990.0f64.to_bits(),
        currency: "USD".to_string(),
        last_seen: 5,
        password: None,
    }
}

fn trade(acc: &str, _ticket: &str, symbol: &str, side: Side, open: bool) -> TradeSummary {
    TradeSummary {
        account_id: acc.to_string(),
        symbol: symbol.to_string(),
        rule_id: String::new(),
        side,
        open,
    }
}

fn strings(v: &[&str]) -> Vec<String> {
    v.iter().map(|s| s.to_string()).collect()
}

#[test]
fn log_ids_count_up_and_wrap() {
    let mut c = 5u64;
    assert_eq!(next_log_id(&mut c), 5);
    assert_eq!(next_log_id(&mut c), 6);
    assert_eq!(c, 7);
    let mut top = u64::MAX;
    assert_eq!(next_log_id(&mut top), u64::MAX);
    assert_eq!(top, 0);
}

#[test]
fn upsert_appends_new_rule() {
    let mut rules = vec![rule("a", "A", "m", "s", true)];
    let at = upsert_rule(&mut rules, rule("b", "B", "m", "s2", false));
    assert_eq!(at, 1);
    assert_eq!(rules.len(), 2);
    assert_eq!(rules[1].name, "B");
}

#[test]
fn upsert_replaces_first_rule_with_same_id() {
    let mut rules = vec![rule("a", "A", "m", "s", true), rule("b", "B", "m", "s", true), rule("a", "A2", "m", "s", true)];
    let at = upsert_rule(&mut rules, rule("a", "NEW", "m9", "s9", false));
    assert_eq!(at, 0);
    assert_eq!(rules.len(), 3);
    assert_eq!(rules[0].name, "NEW");
    assert_eq!(rules[0].master_id, "m9");
    assert_eq!(rules[2].name, "A2");
}

#[test]
fn upsert_then_find_gives_saved_rule() {
    let mut rules = vec![rule("a", "A", "m", "s", true)];
    upsert_rule(&mut rules, rule("a", "renamed", "m", "s", true));
    let found = find_rule(&rules, &"a".to_string()).unwrap();
    assert_eq!(found.name, "renamed");
    assert!(find_rule(&rules, &"zz".to_string()).is_none());
}

#[test]
fn upsert_twice_same_as_once() {
    let mut once = vec![rule("a", "A", "m", "s", true)];
    upsert_rule(&mut once, rule("c", "C", "m", "s", true));
    let mut twice = vec![rule("a", "A", "m", "s", true)];
    upsert_rule(&mut twice, rule("c", "C", "m", "s", true));
    upsert_rule(&mut twice, rule("c", "C", "m", "s", true));
    assert_eq!(once.len(), twice.len());
    assert_eq!(twice[1].id, "c");
    assert_eq!(rule_position(&twice, &"c".to_string()), Some(1));
}

#[test]
fn delete_removes_every_rule_with_id() {
    let mut rules = vec![rule("a", "A", "m", "s", true), rule("b", "B", "m", "s", true), rule("a", "A2", "m", "s", true)];
    delete_rule(&mut rules, &"a".to_string());
    assert_eq!(rules.len(), 1);
    assert_eq!(rules[0].id, "b");
    assert!(find_rule(&rules, &"a".to_string()).is_none());
}

#[test]
fn delete_undoes_upsert_of_new_id() {
    let mut rules = vec![rule("a", "A", "m", "s", true), rule("b", "B", "m", "s", true)];
    upsert_rule(&mut rules, rule("n", "N", "m", "s", true));
    delete_rule(&mut rules, &"n".to_string());
    let ids: Vec<String> = rules.iter().map(|r| r.id.clone()).collect();
    assert_eq!(ids, vec!["a".to_string(), "b".to_string()]);
}

#[test]
fn command_on_missing_rule_is_refused() {
    let rules = vec![rule("a", "A", "m", "s", true)];
    assert_eq!(rule_for_command(&rules, &"x".to_string()).err().unwrap(), "找不到该规则");
    assert_eq!(rule_for_command(&rules, &"a".to_string()).ok().unwrap().name, "A");
}

#[test]
fn resync_replies() {
    let m = "acc-1".to_string();
    assert_eq!(resync_reply(&m, false, None).err().unwrap(), "信号端账户未连接");
    assert_eq!(resync_reply(&m, true, Some("closed".to_string())).err().unwrap(), "closed");
    assert_eq!(resync_reply(&m, true, None).unwrap(), "已请求补单（信号端 acc-1 的持仓将重新同步）");
}

#[test]
fn close_reply_counts() {
    assert_eq!(close_reply(3, 0, &"EU".to_string()), "已发出平仓 3 笔、取消挂单 0 笔（规则：EU）");
    assert_eq!(close_reply(12, 105, &"X".to_string()), "已发出平仓 12 笔、取消挂单 105 笔（规则：X）");
}

#[test]
fn decimal_texts() {
    assert_eq!(decimal_string(0), "0");
    assert_eq!(decimal_string(9), "9");
    assert_eq!(decimal_string(1203), "1203");
    assert_eq!(decimal_string(u64::MAX), u64::MAX.to_string());
}

#[test]
fn bracketed_log_line() {
    assert_eq!(bracketed("acc-1", "order failed"), "[acc-1] order failed");
}

#[test]
fn journal_opened_goes_front_and_caps() {
    let mut j: VecDeque<u32> = VecDeque::new();
    for i in 0..(TRADE_BUFFER_CAP as u32) {
        record_opened(&mut j, i);
    }
    assert_eq!(j.len(), TRADE_BUFFER_CAP);
    assert_eq!(j[0], 999);
    assert_eq!(j[TRADE_BUFFER_CAP - 1], 0);
    record_opened(&mut j, 5000);
    assert_eq!(j.len(), TRADE_BUFFER_CAP);
    assert_eq!(j[0], 5000);
    assert_eq!(j[TRADE_BUFFER_CAP - 1], 1);
}

#[test]
fn journal_historical_goes_back_and_caps() {
    let mut j: VecDeque<u32> = VecDeque::new();
    record_historical(&mut j, 1);
    record_historical(&mut j, 2);
    assert_eq!(j.iter().copied().collect::<Vec<_>>(), vec![1, 2]);
    for i in 3..=1001u32 {
        record_historical(&mut j, i);
    }
    assert_eq!(j.len(), TRADE_BUFFER_CAP);
    assert_eq!(j[0], 2);
    assert_eq!(*j.back().unwrap(), 1001);
}

#[test]
fn canonical_symbols_trim_dedupe_sort() {
    let out = canonical_symbols(strings(&[" eurusd ", "EURUSD", "", "US500.cash", "gbpjpy", "  ", "us500.CASH"]));
    assert_eq!(out, strings(&["eurusd", "gbpjpy", "US500.cash"]));
}

#[test]
fn canonical_symbols_unicode_case_dedupe() {
    let out = canonical_symbols(strings(&["STRASSE", "straße", "Ärger", "ärger"]));
    assert_eq!(out, strings(&["STRASSE", "Ärger"]));
}

#[test]
fn canonical_symbols_empty_input() {
    assert!(canonical_symbols(Vec::new()).is_empty());
    assert!(canonical_symbols(strings(&[" ", "\t", "\u{3000}"])).is_empty());
}

#[test]
fn canonical_symbols_is_stable_under_repeat() {
    let once = canonical_symbols(strings(&["xauusd", "EURusd", "btcusd", "eurUSD", " Nas100 "]));
    let twice = canonical_symbols(once.clone());
    assert_eq!(once, twice);
    assert_eq!(once, strings(&["btcusd", "EURusd", "Nas100", "xauusd"]));
}

#[test]
fn keep_set_and_quote_retention() {
    let keep = upper_keep_set(&strings(&["eurusd", "US500.cash"]));
    assert_eq!(keep, strings(&["EURUSD", "US500.CASH"]));
    assert!(quote_kept("acc", "EURUSD", "acc", &keep));
    assert!(!quote_kept("acc", "GBPUSD", "acc", &keep));
    assert!(quote_kept("other", "GBPUSD", "acc", &keep));
}

#[test]
fn contract_sizes() {
    assert_eq!(contract_size_for("xauusd"), 100);
    assert_eq!(contract_size_for("GOLD.m"), 100);
    assert_eq!(contract_size_for("XAGUSD"), 5000);
    assert_eq!(contract_size_for("btcusdt"), 1);
    assert_eq!(contract_size_for("US30.cash"), 1);
    assert_eq!(contract_size_for("nas100"), 1);
    assert_eq!(contract_size_for("EURUSD"), 100_000);
    assert_eq!(contract_size_for(""), 100_000);
}

#[test]
fn heartbeat_alert_and_recovery() {
    assert_eq!(heartbeat_verdict(AccountRole::Master, 1_000, 40_000, false), HeartbeatVerdict::Alert { silent_secs: 39 });
    assert_eq!(heartbeat_verdict(AccountRole::Master, 1_000, 40_000, true), HeartbeatVerdict::Quiet);
    assert_eq!(heartbeat_verdict(AccountRole::Master, 1_000, 31_000, false), HeartbeatVerdict::Quiet);
    assert_eq!(heartbeat_verdict(AccountRole::Master, 1_000, 20_000, true), HeartbeatVerdict::Recovered);
    assert_eq!(heartbeat_verdict(AccountRole::Slave, 1_000, 90_000, false), HeartbeatVerdict::Quiet);
    assert_eq!(heartbeat_verdict(AccountRole::Master, 0, 90_000, false), HeartbeatVerdict::Quiet);
}

#[test]
fn heartbeat_sweep_reads_clock() {
    let entries = vec![
        HeartbeatEntry { role: AccountRole::Idle, last_seen: 10, alerted: false },
        HeartbeatEntry { role: AccountRole::Master, last_seen: 1, alerted: false },
        HeartbeatEntry { role: AccountRole::Master, last_seen: 0, alerted: true },
    ];
    let r = heartbeat_sweep(&entries);
    assert_eq!(r[0], Some(HeartbeatVerdict::Quiet));
    assert!(matches!(r[1], Some(HeartbeatVerdict::Alert { silent_secs }) if silent_secs > 1_000_000));
    assert_eq!(r[2], Some(HeartbeatVerdict::Quiet));
}

#[test]
fn weekend_sweep_window() {
    let today = "2024-05-03".to_string();
    assert!(weekend_sweep_decision(4, 20, 0, &today, &None));
    assert!(weekend_sweep_decision(4, 20, 4, &today, &Some("2024-04-26".to_string())));
    assert!(!weekend_sweep_decision(4, 20, 4, &today, &Some(today.clone())));
    assert!(!weekend_sweep_decision(4, 20, 5, &today, &None));
    assert!(!weekend_sweep_decision(3, 20, 0, &today, &None));
    assert!(!weekend_sweep_decision(4, 19, 59, &today, &None));
}

#[test]
fn weekend_sweep_at_instants() {
    let mut r = rule("r", "R", "m", "s", true);
    r.weekend_close = true;
    // Friday 2024-01-05 20:02:00 UTC.
    let friday = 1_704_484_920_000i64;
    assert_eq!(weekend_sweep_at(&r, &None, friday), Some("2024-01-05".to_string()));
    assert_eq!(weekend_sweep_at(&r, &Some("2024-01-05".to_string()), friday), None);
    assert_eq!(weekend_sweep_at(&r, &Some("2023-12-29".to_string()), friday), Some("2024-01-05".to_string()));
    // 20:05 is past the window; Thursday 20:02 is the wrong day.
    assert_eq!(weekend_sweep_at(&r, &None, friday + 3 * 60_000), None);
    assert_eq!(weekend_sweep_at(&r, &None, friday - 86_400_000), None);
    // Before the epoch: Friday 1969-12-26 20:00 UTC.
    assert_eq!(weekend_sweep_at(&r, &None, -(6 * 86_400_000 - 20 * 3_600_000)), Some("1969-12-26".to_string()));
    // Beyond chrono's calendar.
    assert_eq!(weekend_sweep_at(&r, &None, i64::MAX), None);
    r.weekend_close = false;
    assert_eq!(weekend_sweep_at(&r, &None, friday), None);
}

#[test]
fn weekend_sweep_off_for_rule_without_it() {
    let r = rule("a", "A", "m", "s", true);
    assert!(weekend_sweep_check(&r, &None).is_none());
    let mut w = rule("b", "B", "m", "s", true);
    w.weekend_close = true;
    if let Some(d) = weekend_sweep_check(&w, &None) {
        assert_eq!(d.len(), 10);
        assert!(weekend_sweep_check(&w, &Some(d)).is_none());
    }
}

#[test]
fn failure_reports_and_throttle() {
    assert!(failure_report(LogLevel::Error, "order failed: no money"));
    assert!(failure_report(LogLevel::Error, "下单失败"));
    assert!(!failure_report(LogLevel::Warn, "order failed"));
    assert!(!failure_report(LogLevel::Error, "order fail"));
    assert!(failure_notice_decision(40_000, None));
    assert!(!failure_notice_decision(40_000, Some(20_000)));
    assert!(failure_notice_decision(50_001, Some(20_000)));
    assert!(!failure_notice_decision(30_000, None));
}

#[test]
fn failure_notice_reads_clock() {
    let now = failure_notice_check(LogLevel::Error, "close failed", None);
    assert!(now.unwrap() > 1_600_000_000_000);
    assert!(failure_notice_check(LogLevel::Info, "close failed", None).is_none());
    assert!(failure_notice_check(LogLevel::Error, "close failed", Some(i64::MAX)).is_none());
}

#[test]
fn restore_resets_connection_and_money() {
    let mut a = account("1", Platform::MT4, "77");
    reset_for_restore(&mut a);
    assert!(!a.connected);
    assert_eq!(a.balance_bits, 0);
    assert_eq!(f64::from_bits(a.equity_bits), 0.0);
    assert_eq!(a.login, "77");
}

#[test]
fn connected_report_updates_account() {
    let mut a = account("1", Platform::MT5, "77");
    let out = apply_connected(&mut a, "78".to_string(), "EUR".to_string(), 5.0f64.to_bits(), 6.0f64.to_bits(), false);
    assert_eq!(out, ReportOutcome { emit: true, save: true });
    assert_eq!(a.login, "78");
    assert_eq!(a.currency, "EUR");
    assert_eq!(f64::from_bits(a.balance_bits), 5.0);
    let out2 = apply_connected(&mut a, "".to_string(), "EUR".to_string(), 5.0f64.to_bits(), 6.0f64.to_bits(), false);
    assert_eq!(out2, ReportOutcome { emit: false, save: false });
    assert_eq!(a.login, "78");
}

#[test]
fn disconnected_report() {
    let mut a = account("1", Platform::MT5, "77");
    assert!(apply_disconnected(&mut a));
    assert!(!a.connected);
    assert!(!apply_disconnected(&mut a));
}

#[test]
fn heartbeat_report() {
    let mut a = account("1", Platform::MT5, "77");
    assert!(apply_heartbeat(&mut a, 1.0f64.to_bits(), 2.0f64.to_bits(), 5, true));
    assert!(!apply_heartbeat(&mut a, 1.0f64.to_bits(), 2.0f64.to_bits(), 5, false));
    assert!(apply_heartbeat(&mut a, 1.0f64.to_bits(), 2.0f64.to_bits(), 6, false));
    assert_eq!(a.last_seen, 6);
    assert!(record_heartbeat(&mut a, 1.0f64.to_bits(), 2.0f64.to_bits(), false));
    assert!(a.last_seen > 1_600_000_000_000);
}

#[test]
fn account_lookup_and_server() {
    let mut a = account("1", Platform::MT4, "77");
    assert!(account_matches(&a, Platform::MT4, "77"));
    assert!(!account_matches(&a, Platform::MT5, "77"));
    assert!(!update_server(&mut a, "".to_string()));
    assert!(!update_server(&mut a, "srv".to_string()));
    assert!(update_server(&mut a, "live-2".to_string()));
    assert_eq!(a.server, "live-2");
    assert!(attaches_by_discovery(Platform::TradingView));
    assert!(!attaches_by_discovery(Platform::CTrader));
}

#[test]
fn new_accounts_labels_and_roles() {
    let mt = new_mt_account("id1".to_string(), Platform::MT5, "1234", "Broker-Live");
    assert_eq!(mt.label, "MT5 1234");
    assert_eq!(mt.role, AccountRole::Idle);
    assert_eq!(mt.currency, "USD");
    assert_eq!(mt.server, "Broker-Live");
    let odd = new_mt_account("id2".to_string(), Platform::CTrader, "9", "");
    assert_eq!(odd.label, "MT 9");
    let tv = new_tv_account("id3".to_string(), "tv-1");
    assert_eq!(tv.label, "TradingView tv-1");
    assert_eq!(tv.role, AccountRole::Master);
    assert_eq!(tv.server, "");
    let ct = new_ctrader_account("id4".to_string(), "555");
    assert_eq!(ct.label, "cTrader 555");
    assert_eq!(ct.platform, Platform::CTrader);
}

fn is_uuid_shape(s: &str) -> bool {
    s.len() == 36
        && s.chars().enumerate().all(|(i, c)| if [8, 13, 18, 23].contains(&i) { c == '-' } else { c.is_ascii_hexdigit() && !c.is_ascii_uppercase() })
        && s.as_bytes()[14] == b'4'
}

#[test]
fn discovered_accounts_get_fresh_ids() {
    let a = discover_mt_account(Platform::MT4, "1", "s");
    let b = discover_tv_account("2");
    let c = discover_ctrader_account("3");
    assert!(is_uuid_shape(&a.id) && is_uuid_shape(&b.id) && is_uuid_shape(&c.id));
    assert_ne!(a.id, b.id);
    assert_eq!(a.label, "MT4 1");
}

#[test]
fn subscriptions_needed_by_rules() {
    let rules = vec![rule("r1", "R1", "m", "s1", true), rule("r2", "R2", "m", "s2", false), rule("r3", "R3", "m2", "s1", true)];
    let trades = vec![
        trade("s1", "1", "XAUUSD", Side::Buy, true),
        trade("s1", "2", "EURUSD", Side::Sell, true),
        trade("s1", "3", "EURUSD", Side::Buy, true),
        trade("s1", "4", "GBPUSD", Side::Buy, false),
        trade("s2", "5", "USDJPY", Side::Buy, true),
        trade("m", "6", "AUDUSD", Side::Buy, true),
    ];
    let needs = needed_subscriptions(&rules, &trades);
    assert_eq!(needs.len(), 1);
    assert_eq!(needs[0].account_id, "s1");
    assert_eq!(needs[0].symbols, strings(&["EURUSD", "XAUUSD"]));
}

#[test]
fn subscription_difference() {
    assert!(!subscription_differs(&strings(&["A", "B"]), &strings(&["A", "B"])));
    assert!(subscription_differs(&strings(&["A"]), &strings(&["A", "B"])));
    assert!(subscription_differs(&strings(&["a", "B"]), &strings(&["A", "B"])));
    // The held list is canonical (sorted by upper-case); the needed list may
    // come in another order: the same set is no change.
    assert!(!subscription_differs(&strings(&["eurusd", "GBPUSD"]), &strings(&["GBPUSD", "eurusd"])));
    assert!(subscription_differs(&strings(&["US500.CASH"]), &strings(&["US500.cash"])));
    assert!(!subscription_differs(&strings(&[]), &strings(&[])));
    assert!(subscription_differs(&strings(&["A", "B"]), &strings(&["B"])));
}

#[test]
fn log_ids_from_fresh_counter_are_distinct() {
    let mut c = 0u64;
    let ids: Vec<u64> = (0..50).map(|_| next_log_id(&mut c)).collect();
    assert_eq!(ids, (0..50).collect::<Vec<u64>>());
    let mut w = u64::MAX - 1;
    let wrapped: Vec<u64> = (0..4).map(|_| next_log_id(&mut w)).collect();
    assert_eq!(wrapped, vec![u64::MAX - 1, u64::MAX, 0, 1]);
}

#[test]
fn throttles() {
    assert!(throttle_open(None, QUOTE_EMIT_GAP_MS));
    assert!(!throttle_open(Some(199), QUOTE_EMIT_GAP_MS));
    assert!(throttle_open(Some(200), QUOTE_EMIT_GAP_MS));
    assert!(!throttle_open(Some(999), TRAILING_CHECK_GAP_MS));
    assert!(throttle_open(Some(1000), TRAILING_CHECK_GAP_MS));
    assert!(throttle_open(None, TRAILING_CHECK_GAP_MS));
    assert_eq!(QUOTE_EMIT_GAP_MS, 200);
    assert_eq!(TRAILING_CHECK_GAP_MS, 1000);
}

#[test]
fn opened_position_rule_tag() {
    let s = |x: &str| x.to_string();
    assert!(mirror_needs_relookup(&s(""), true));
    assert!(!mirror_needs_relookup(&s("r"), true));
    assert!(!mirror_needs_relookup(&s(""), false));
    assert_eq!(settle_found_rule(s(""), true, Some(s("r2"))), "r2");
    assert_eq!(settle_found_rule(s("r1"), true, Some(s("r2"))), "r1");
    assert_eq!(settle_found_rule(s(""), false, Some(s("r2"))), "");
    assert_eq!(settle_found_rule(s(""), true, None), "");
    // A rule known for the ticket wins.
    assert_eq!(opened_rule_tag(s("own"), s("r1"), false, false, Some(s("bf"))), "r1");
    // Nothing found, back-filling linked one.
    assert_eq!(opened_rule_tag(s("own"), s(""), false, false, Some(s("bf"))), "bf");
    // Nothing found, not back-filled: the tag it arrived with stays.
    assert_eq!(opened_rule_tag(s("own"), s(""), false, false, None), "own");
    // Back-filling is not due for a mirror or a position with an origin.
    assert_eq!(opened_rule_tag(s("own"), s(""), true, false, Some(s("bf"))), "own");
    assert_eq!(opened_rule_tag(s("own"), s(""), false, true, Some(s("bf"))), "own");
}

#[test]
fn ctrader_discovery_registers_new_logins_once() {
    let held = vec![
        account("a1", Platform::CTrader, "111"),
        account("a2", Platform::MT5, "222"),
    ];
    let candidates = strings(&["111", "222", "", "tradingview", "333", "222"]);
    let tv = "tradingview".to_string();
    assert_eq!(ctrader_logins_to_register(&held, &candidates, &tv), strings(&["222", "333"]));
    let mut accounts = held.clone();
    let added = register_ctrader_accounts(&mut accounts, &candidates, &tv);
    assert_eq!(added, 2);
    assert_eq!(accounts.len(), 4);
    assert_eq!(accounts[0].id, "a1");
    assert_eq!(accounts[1].id, "a2");
    assert_eq!(accounts[2].platform, Platform::CTrader);
    assert_eq!(accounts[2].login, "222");
    assert_eq!(accounts[2].label, "cTrader 222");
    assert_eq!(accounts[3].login, "333");
    assert_eq!(accounts[3].role, AccountRole::Idle);
    assert!(is_uuid_shape(&accounts[2].id));
    assert_ne!(accounts[2].id, accounts[3].id);
    // A second pass over the same folders adds nothing.
    assert_eq!(register_ctrader_accounts(&mut accounts, &candidates, &tv), 0);
    assert_eq!(accounts.len(), 4);
}

#[test]
fn reconcile_picks_ready_rules_once() {
    let rules = vec![
        rule("r1", "R1", "m", "s", true),
        rule("r2", "R2", "m", "s", false),
        rule("r3", "R3", "m", "x", true),
        rule("r4", "R4", "m", "s", true),
        rule("r1", "dup", "m", "s", true),
    ];
    let picks = reconcile_plan(&rules, &strings(&["r4"]), &strings(&["m", "s"]));
    assert_eq!(picks, vec![0]);
}

#[test]
fn backfill_unique_match() {
    let rules = vec![rule("r0", "R0", "m0", "other", true), rule("r1", "R1", "m", "s", true)];
    let trades = vec![
        trade("m", "10", "EURUSD", Side::Buy, true),
        trade("m", "11", "EURUSD", Side::Sell, true),
        trade("m", "12", "EURUSD", Side::Buy, false),
    ];
    let ok = vec![vec![true, true, true], vec![true, true, true]];
    assert_eq!(backfill_choice(&rules, &trades, &ok, &"s".to_string(), Side::Buy), Some((1, 0)));
}

#[test]
fn backfill_ambiguous_gives_up() {
    let rules = vec![rule("r1", "R1", "m", "s", true), rule("r2", "R2", "m2", "s", true)];
    let trades = vec![
        trade("m", "10", "EURUSD", Side::Buy, true),
        trade("m", "11", "EURUSD", Side::Buy, true),
        trade("m2", "12", "EURUSD", Side::Buy, true),
    ];
    let ok = vec![vec![true, true, true], vec![true, true, true]];
    assert_eq!(backfill_choice(&rules, &trades, &ok, &"s".to_string(), Side::Buy), None);
    let ok2 = vec![vec![true, false, true], vec![true, true, true]];
    assert_eq!(backfill_choice(&rules, &trades, &ok2, &"s".to_string(), Side::Buy), Some((0, 0)));
    let ok3 = vec![vec![false, false, false], vec![true, true, true]];
    assert_eq!(backfill_choice(&rules, &trades, &ok3, &"s".to_string(), Side::Buy), Some((1, 2)));
}

#[test]
fn opened_decisions() {
    assert!(opened_needs_backfill(&"".to_string(), false, false));
    assert!(!opened_needs_backfill(&"r".to_string(), false, false));
    assert!(!opened_needs_backfill(&"".to_string(), true, false));
    assert!(!opened_needs_backfill(&"".to_string(), false, true));
    assert!(opened_dispatch(false, false));
    assert!(!opened_dispatch(true, false));
    assert!(!opened_dispatch(false, true));
}

#[test]
fn text_helpers() {
    assert_eq!(trim_str("\u{3000} a b \t\n"), "a b");
    assert_eq!(trim_str("   "), "");
    assert!(contains_str("order failed now", "failed"));
    assert!(!contains_str("fail", "failed"));
    assert!(contains_str("x", ""));
    assert_eq!(ascii_uppercased("us500.cash-é"), "US500.CASH-é");
    assert!(str_equal("abc", "abc"));
    assert!(!str_equal("abc", "abd"));
}


#[test]
fn floating_loss_counts_each_pair_once() {
    let mut trades = vec![
        trade("s", "1", "EURUSD", Side::Buy, true),
        trade("s", "2", "EURUSD", Side::Sell, true),
        trade("s", "3", "XAUUSD", Side::Buy, false),
        trade("s", "4", "XAUUSD", Side::Buy, true),
        trade("t", "5", "EURUSD", Side::Buy, true),
        trade("s", "6", "GBPUSD", Side::Buy, true),
    ];
    for t in trades.iter_mut() {
        t.rule_id = "r".to_string();
    }
    trades[5].rule_id = "other".to_string();
    assert_eq!(floating_loss_positions(&trades, &"r".to_string()), vec![0, 3, 4]);
    assert!(floating_loss_positions(&trades, &"none".to_string()).is_empty());
}

use vstd::prelude::*;
use crate::clock::{now_millis, weekday_at, hour_at, minute_at, date_text_at, utc_weekday, utc_hour, utc_minute, utc_date_text, utc_placeable};
use crate::model::{AccountRole, CopyRule, LogLevel};
use crate::text::{has_infix, ascii_upper, ascii_upper_chars, contains_chars};

verus! {

/// Silence after which a signal account counts as lost (milliseconds).
pub const HEARTBEAT_TIMEOUT_MS: i64 = 30_000;

/// Least gap between two failure notifications from one source (milliseconds).
pub const FAILURE_NOTICE_GAP_MS: i64 = 30_000;

/// What the heartbeat watchdog does about one account.
#[derive(Clone, Copy, Debug, PartialEq, Eq, Structural)]
pub enum HeartbeatVerdict {
    /// Nothing to do.
    Quiet,
    /// Raise the alarm: the signal account has been silent this many whole seconds.
    Alert { silent_secs: i64 },
    /// The account is heard again: clear the alarm.
    Recovered,
}

/// The watchdog's verdict on an account at instant `now` (ms): only signal
/// (master) accounts that have been seen are watched; silence beyond the
/// timeout raises one alarm, which is cleared once the account is heard again.
pub open spec fn heartbeat_judgement(role: AccountRole, last_seen: i64, now: i64, alerted: bool) -> HeartbeatVerdict {
    if role != AccountRole::Master || last_seen <= 0 {
        HeartbeatVerdict::Quiet
    } else {
        let age = now - last_seen;
        if age > HEARTBEAT_TIMEOUT_MS && !alerted {
            HeartbeatVerdict::Alert { silent_secs: (age / 1000) as i64 }
        } else if age <= HEARTBEAT_TIMEOUT_MS && alerted {
            HeartbeatVerdict::Recovered
        } else {
            HeartbeatVerdict::Quiet
        }
    }
}

/// The alarm flag after acting on a verdict.
pub open spec fn alarm_after(v: HeartbeatVerdict, alerted: bool) -> bool {
    match v {
        HeartbeatVerdict::Alert { .. } => true,
        HeartbeatVerdict::Recovered => false,
        HeartbeatVerdict::Quiet => alerted,
    }
}

/// The age `now - last_seen` of a watched account fits in an `i64`.
pub open spec fn age_fits(role: AccountRole, last_seen: i64, now: i64) -> bool {
    role == AccountRole::Master && last_seen > 0 ==> i64::MIN <= now - last_seen
}

/// The heartbeat watchdog's verdict on one account at instant `now_ms`.
pub fn heartbeat_verdict(role: AccountRole, last_seen: i64, now_ms: i64, alerted: bool) -> (v: HeartbeatVerdict)
    requires
        age_fits(role, last_seen, now_ms),
    ensures
        v == heartbeat_judgement(role, last_seen, now_ms, alerted),
{
    if role != AccountRole::Master || last_seen <= 0 {
        return HeartbeatVerdict::Quiet;
    }
    let age = now_ms - last_seen;
    if age > HEARTBEAT_TIMEOUT_MS && !alerted {
        HeartbeatVerdict::Alert { silent_secs: age / 1000 }
    } else if age <= HEARTBEAT_TIMEOUT_MS && alerted {
        HeartbeatVerdict::Recovered
    } else {
        HeartbeatVerdict::Quiet
    }
}

/// One account as the heartbeat watchdog sees it.
pub struct HeartbeatEntry {
    pub role: AccountRole,
    pub last_seen: i64,
    pub alerted: bool,
}

/// The watchdog's verdict on one entry at `now`, or `None` when its age at
/// that instant does not fit in an `i64`.
pub open spec fn entry_outcome(e: HeartbeatEntry, now: i64) -> Option<HeartbeatVerdict> {
    if age_fits(e.role, e.last_seen, now) {
        Some(heartbeat_judgement(e.role, e.last_seen, now, e.alerted))
    } else {
        None
    }
}

/// The watchdog's verdicts on all entries at `now`.
pub open spec fn sweep_outcome(entries: Seq<HeartbeatEntry>, now: i64) -> Seq<Option<HeartbeatVerdict>> {
    Seq::new(entries.len(), |i: int| entry_outcome(entries[i], now))
}

/// The watchdog's pass over all accounts, at one reading of the clock: for
/// each account its verdict at that instant, or `None` for a watched account
/// whose age at that instant does not fit in an `i64`.
pub fn heartbeat_sweep(entries: &Vec<HeartbeatEntry>) -> (r: Vec<Option<HeartbeatVerdict>>)
    ensures
        exists|now: i64| r@ == #[trigger] sweep_outcome(entries@, now),
{
    let now = now_millis();
    let mut out: Vec<Option<HeartbeatVerdict>> = Vec::new();
    let mut i: usize = 0;
    while i < entries.len()
        invariant
            i <= entries@.len(),
            out@ == sweep_outcome(entries@, now).take(i as int),
        decreases entries@.len() - i,
    {
        let e = &entries[i];
        let watched = e.role == AccountRole::Master && e.last_seen > 0;
        let fits = !watched || now.checked_sub(e.last_seen).is_some();
        if fits {
            out.push(Some(heartbeat_verdict(e.role, e.last_seen, now, e.alerted)));
        } else {
            out.push(None);
        }
        i = i + 1;
        assert(out@ =~= sweep_outcome(entries@, now).take(i as int));
    }
    assert(out@ =~= sweep_outcome(entries@, now));
    out
}

/// Whether the weekend sweep of a rule is due: Friday, 20:00 to 20:04 UTC,
/// and not yet done on `today`.
pub open spec fn weekend_sweep_due(weekday: u32, hour: u32, minute: u32, today: Seq<char>, last: Option<Seq<char>>) -> bool {
    weekday == 4 && hour == 20 && minute < 5 && last != Some(today)
}

/// The text views of an optional text.
pub open spec fn opt_view(s: Option<String>) -> Option<Seq<char>> {
    match s {
        Some(t) => Some(t@),
        None => None,
    }
}

/// Whether the weekend sweep is due at the given calendar reading.
pub fn weekend_sweep_decision(weekday: u32, hour: u32, minute: u32, today: &String, last: &Option<String>) -> (r: bool)
    ensures
        r == weekend_sweep_due(weekday, hour, minute, today@, opt_view(*last)),
{
    if weekday != 4 || hour != 20 || minute >= 5 {
        return false;
    }
    match last {
        Some(d) => *d != *today,
        None => true,
    }
}

/// The weekend sweep outcome when the clock reads `ms`: the date of `ms`
/// when chrono places the instant and the sweep is due then, else nothing.
pub open spec fn weekend_outcome(ms: i64, last: Option<Seq<char>>) -> Option<Seq<char>> {
    if utc_placeable(ms) && weekend_sweep_due(
        utc_weekday(ms),
        utc_hour(ms),
        utc_minute(ms),
        utc_date_text(ms),
        last,
    ) {
        Some(utc_date_text(ms))
    } else {
        None
    }
}

/// The weekend sweep check of one rule at the instant `ms`: `Some(today)`,
/// the date to record, when the rule asks for the sweep and it is due then;
/// `None` otherwise (also where chrono cannot place the instant).
pub fn weekend_sweep_at<S>(rule: &CopyRule<S>, last: &Option<String>, ms: i64) -> (r: Option<String>)
    ensures
        opt_view(r) == (if rule.weekend_close { weekend_outcome(ms, opt_view(*last)) } else { None }),
{
    if !rule.weekend_close {
        return None;
    }
    let (w, h, m, d) = match (weekday_at(ms), hour_at(ms), minute_at(ms), date_text_at(ms)) {
        (Some(w), Some(h), Some(m), Some(d)) => (w, h, m, d),
        _ => {
            return None;
        },
    };
    if weekend_sweep_decision(w, h, m, &d, last) {
        Some(d)
    } else {
        None
    }
}

/// The weekend sweep check of one rule against the clock, read once: see
/// `weekend_sweep_at`.
pub fn weekend_sweep_check<S>(rule: &CopyRule<S>, last: &Option<String>) -> (r: Option<String>)
    ensures
        !rule.weekend_close ==> r is None,
        rule.weekend_close ==> exists|ms: i64| opt_view(r) == #[trigger] weekend_outcome(ms, opt_view(*last)),
{
    let ms = now_millis();
    weekend_sweep_at(rule, last, ms)
}

/// Whether a log entry reports a failure that merits a desktop notice:
/// an error whose text mentions `failed` (English) or `失败` (Chinese).
pub open spec fn is_failure_report(level: LogLevel, msg: Seq<char>) -> bool {
    level == LogLevel::Error && (has_infix(msg, "failed"@) || has_infix(msg, "failed "@)
        || has_infix(msg, "失败"@))
}

/// Whether enough time has passed since the last notice from the same
/// source (none counts as time 0).
pub open spec fn failure_notice_due(now: i64, last: Option<i64>) -> bool {
    now - (match last {
        Some(t) => t,
        None => 0i64,
    }) > FAILURE_NOTICE_GAP_MS
}

/// Whether a log entry reports a failure, see `is_failure_report`.
pub fn failure_report(level: LogLevel, msg: &str) -> (r: bool)
    ensures
        r == is_failure_report(level, msg@),
{
    if level != LogLevel::Error {
        return false;
    }
    let chars = crate::text::chars_of(msg);
    contains_chars(&chars, "failed") || contains_chars(&chars, "failed ") || contains_chars(
        &chars,
        "失败",
    )
}

/// Whether a failure notice is due at `now` given the last one.
pub fn failure_notice_decision(now: i64, last: Option<i64>) -> (r: bool)
    requires
        i64::MIN <= now - (match last {
            Some(t) => t,
            None => 0i64,
        }) <= i64::MAX,
    ensures
        r == failure_notice_due(now, last),
{
    let prev = match last {
        Some(t) => t,
        None => 0,
    };
    now - prev > FAILURE_NOTICE_GAP_MS
}

/// The failure-notice outcome when the clock reads `now`: `Some(now)` when
/// the gap to the last notice fits in an `i64` and is long enough, else
/// nothing.
pub open spec fn failure_outcome(now: i64, last: Option<i64>) -> Option<i64> {
    let prev = match last {
        Some(t) => t,
        None => 0i64,
    };
    if i64::MIN <= now - prev <= i64::MAX && failure_notice_due(now, last) {
        Some(now)
    } else {
        None
    }
}

/// The failure-notice check of one log entry against the clock: `Some(now)`,
/// the instant to record for the source, when the entry reports a failure
/// and the last notice is long enough ago; `None` otherwise (also when the
/// gap does not fit in an `i64`). The clock is read once, only for failure
/// reports; the result is `failure_outcome` of that reading.
pub fn failure_notice_check(level: LogLevel, msg: &str, last: Option<i64>) -> (r: Option<i64>)
    ensures
        !is_failure_report(level, msg@) ==> r is None,
        is_failure_report(level, msg@) ==> exists|now: i64| r == #[trigger] failure_outcome(now, last),
{
    if !failure_report(level, msg) {
        return None;
    }
    let now = now_millis();
    let prev: i64 = match last {
        Some(t) => t,
        None => 0,
    };
    match now.checked_sub(prev) {
        Some(_) => {
            if failure_notice_decision(now, last) {
                assert(failure_outcome(now, last) == Some(now));
                Some(now)
            } else {
                assert(failure_outcome(now, last) is None);
                None
            }
        },
        None => {
            assert(failure_outcome(now, last) is None);
            None
        },
    }
}

/// Contract size of one standard lot, in units of the quote currency, as
/// the floating-loss estimate guesses it from the symbol (upper-cased):
/// gold 100 oz, silver 5000 oz, crypto and indices 1, everything else
/// (forex) 100000.
pub open spec fn contract_size(symbol: Seq<char>) -> u32 {
    let s = ascii_upper(symbol);
    if has_infix(s, "XAU"@) || has_infix(s, "GOLD"@) {
        100
    } else if has_infix(s, "XAG"@) || has_infix(s, "SILVER"@) {
        5000
    } else if has_infix(s, "BTC"@) || has_infix(s, "ETH"@) || has_infix(s, "XRP"@) || has_infix(
        s,
        "LTC"@,
    ) || has_infix(s, "BCH"@) || has_infix(s, "DOGE"@) || has_infix(s, "SOL"@) || has_infix(
        s,
        "ADA"@,
    ) || has_infix(s, "USDT"@) || has_infix(s, "USD1"@) || has_infix(s, "CRYPTO"@) {
        1
    } else if has_infix(s, "US30"@) || has_infix(s, "NAS"@) || has_infix(s, "SPX"@) || has_infix(
        s,
        "US500"@,
    ) || has_infix(s, "USTEC"@) || has_infix(s, "UK100"@) || has_infix(s, "GER30"@) || has_infix(
        s,
        "DAX"@,
    ) || has_infix(s, "JP225"@) || has_infix(s, "NIKKEI"@) || has_infix(s, "AUS200"@)
        || has_infix(s, "ESP35"@) || has_infix(s, "FRA40"@) || has_infix(s, "EUSTX"@)
        || has_infix(s, "HK50"@) || has_infix(s, "CH50"@) || has_infix(s, "VIX"@) {
        1
    } else {
        100_000
    }
}

/// Contract size of one lot of `symbol`, see `contract_size`.
pub fn contract_size_for(symbol: &str) -> (r: u32)
    ensures
        r == contract_size(symbol@),
{
    let s = ascii_upper_chars(symbol);
    if contains_chars(&s, "XAU") || contains_chars(&s, "GOLD") {
        return 100;
    }
    if contains_chars(&s, "XAG") || contains_chars(&s, "SILVER") {
        return 5000;
    }
    if contains_chars(&s, "BTC") || contains_chars(&s, "ETH") || contains_chars(&s, "XRP")
        || contains_chars(&s, "LTC") || contains_chars(&s, "BCH") || contains_chars(&s, "DOGE")
        || contains_chars(&s, "SOL") || contains_chars(&s, "ADA") || contains_chars(&s, "USDT")
        || contains_chars(&s, "USD1") || contains_chars(&s, "CRYPTO") {
        return 1;
    }
    if contains_chars(&s, "US30") || contains_chars(&s, "NAS") || contains_chars(&s, "SPX")
        || contains_chars(&s, "US500") || contains_chars(&s, "USTEC") || contains_chars(&s, "UK100")
        || contains_chars(&s, "GER30") || contains_chars(&s, "DAX") || contains_chars(&s, "JP225")
        || contains_chars(&s, "NIKKEI") || contains_chars(&s, "AUS200") || contains_chars(
        &s,
        "ESP35",
    ) || contains_chars(&s, "FRA40") || contains_chars(&s, "EUSTX") || contains_chars(&s, "HK50")
        || contains_chars(&s, "CH50") || contains_chars(&s, "VIX") {
        return 1;
    }
    100_000
}

// ---- laws of the watchdogs ----

/// While an account stays silent, the alarm is raised once: the verdict
/// after acting on an alarm is quiet as long as the silence lasts.
pub proof fn lemma_heartbeat_alarm_once(role: AccountRole, last_seen: i64, now1: i64, now2: i64, alerted: bool)
    requires
        heartbeat_judgement(role, last_seen, now1, alerted) is Alert,
        now2 - last_seen > HEARTBEAT_TIMEOUT_MS,
    ensures
        heartbeat_judgement(
            role,
            last_seen,
            now2,
            alarm_after(heartbeat_judgement(role, last_seen, now1, alerted), alerted),
        ) == HeartbeatVerdict::Quiet,
{
}

/// A raised alarm is cleared as soon as the account is heard within the
/// timeout, and a cleared alarm can be raised again.
pub proof fn lemma_heartbeat_recovery(role: AccountRole, last_seen: i64, now: i64)
    requires
        role == AccountRole::Master,
        last_seen > 0,
        now - last_seen <= HEARTBEAT_TIMEOUT_MS,
    ensures
        heartbeat_judgement(role, last_seen, now, true) == HeartbeatVerdict::Recovered,
        !alarm_after(heartbeat_judgement(role, last_seen, now, true), true),
{
}

/// A weekend sweep recorded for a date is not due again on that date.
pub proof fn lemma_weekend_sweep_once_a_day(weekday: u32, hour: u32, minute: u32, today: Seq<char>)
    ensures
        !weekend_sweep_due(weekday, hour, minute, today, Some(today)),
{
}

/// The weekend sweep decision: due exactly on Friday (weekday 4, counting
/// from Monday = 0), from 20:00 to 20:04, unless already done on `today`.
pub proof fn lemma_weekend_sweep_window(weekday: u32, hour: u32, minute: u32, today: Seq<char>, last: Option<Seq<char>>)
    ensures
        weekend_sweep_due(weekday, hour, minute, today, last) ==> weekday == 4 && hour == 20 && minute <= 4,
        weekday == 4 && hour == 20 && minute <= 4 && last != Some(today) ==> weekend_sweep_due(weekday, hour, minute, today, last),
        weekend_sweep_due(weekday, hour, minute, today, last) ==> last != Some(today),
{
}

/// A sweep happens only at an instant `ms` whose UTC day is a Friday (the
/// Unix epoch fell on a Thursday) and whose time of day lies in
/// 20:00:00-20:04:59; what it records is that day's date, and once that date
/// is recorded no instant of the same date sweeps again.
pub proof fn lemma_weekend_sweep_instants(ms: i64, last: Option<Seq<char>>, ms2: i64)
    ensures
        weekend_outcome(ms, last) is Some ==> {
            &&& ((ms as int) / 86_400_000 + 3) % 7 == 4
            &&& 72_000 <= (ms as int / 1000) % 86_400 < 72_300
            &&& weekend_outcome(ms, last) == Some(utc_date_text(ms))
            &&& last != Some(utc_date_text(ms))
        },
        weekend_outcome(ms, last) is Some && utc_date_text(ms2) == weekend_outcome(ms, last)->0
            ==> weekend_outcome(ms2, weekend_outcome(ms, last)) is None,
        utc_placeable(ms) && ((ms as int) / 86_400_000 + 3) % 7 == 4 && 72_000 <= (ms as int / 1000) % 86_400 < 72_300
            && last != Some(utc_date_text(ms)) ==> weekend_outcome(ms, last) == Some(utc_date_text(ms)),
{
    if weekend_outcome(ms, last) is Some {
        let v: int = (ms as int) / 86_400_000 + 3;
        assert(0 <= v % 7 < 7);
        let x: int = (ms as int / 1000) % 86_400;
        assert(0 <= x < 86_400);
        assert(x / 3600 == 20);
        assert((x / 60) % 60 < 5);
        assert(72_000 <= x < 75_600);
        assert(1200 <= x / 60 < 1260);
        assert(x < 72_300);
    }
    let x: int = (ms as int / 1000) % 86_400;
    if 72_000 <= x < 72_300 {
        assert(x / 3600 == 20);
        assert(x / 60 < 1205);
        assert(1200 <= x / 60);
        assert((x / 60) % 60 == x / 60 - 1200);
    }
}

/// The markers that make a symbol count price moves one to one (crypto
/// coins and stock indices) in the floating-loss estimate.
pub open spec fn unit_lot_markers() -> Seq<Seq<char>> {
    seq![
        "BTC"@,
        "ETH"@,
        "XRP"@,
        "LTC"@,
        "BCH"@,
        "DOGE"@,
        "SOL"@,
        "ADA"@,
        "USDT"@,
        "USD1"@,
        "CRYPTO"@,
        "US30"@,
        "NAS"@,
        "SPX"@,
        "US500"@,
        "USTEC"@,
        "UK100"@,
        "GER30"@,
        "DAX"@,
        "JP225"@,
        "NIKKEI"@,
        "AUS200"@,
        "ESP35"@,
        "FRA40"@,
        "EUSTX"@,
        "HK50"@,
        "CH50"@,
        "VIX"@
    ]
}

/// Contract sizes by symbol, upper-case or not: a gold symbol (`XAU`,
/// `GOLD`) is 100 oz, a silver one (`XAG`, `SILVER`, and no gold marker)
/// 5000 oz; a symbol carrying a crypto or index marker and no metal marker
/// counts 1 per unit of price; any other symbol is forex, 100000. Sizing
/// never depends on the case of the symbol.
pub proof fn lemma_contract_size_classes(symbol: Seq<char>)
    ensures
        ({
            let s = ascii_upper(symbol);
            let gold = has_infix(s, "XAU"@) || has_infix(s, "GOLD"@);
            let silver = has_infix(s, "XAG"@) || has_infix(s, "SILVER"@);
            &&& gold ==> contract_size(symbol) == 100
            &&& !gold && silver ==> contract_size(symbol) == 5000
            &&& forall|k: int| 0 <= k < unit_lot_markers().len() && !gold && !silver
                && has_infix(s, #[trigger] unit_lot_markers()[k]) ==> contract_size(symbol) == 1
            &&& !gold && !silver && (forall|k: int| 0 <= k < unit_lot_markers().len() ==> !has_infix(s, #[trigger] unit_lot_markers()[k]))
                ==> contract_size(symbol) == 100_000
        }),
        contract_size(ascii_upper(symbol)) == contract_size(symbol),
{
    let s = ascii_upper(symbol);
    assert forall|k: int| 0 <= k < unit_lot_markers().len() && has_infix(s, #[trigger] unit_lot_markers()[k])
        && !(has_infix(s, "XAU"@) || has_infix(s, "GOLD"@)) && !(has_infix(s, "XAG"@) || has_infix(s, "SILVER"@))
        implies contract_size(symbol) == 1 by {
            if k == 0 { assert(unit_lot_markers()[k] == "BTC"@); }
            if k == 1 { assert(unit_lot_markers()[k] == "ETH"@); }
            if k == 2 { assert(unit_lot_markers()[k] == "XRP"@); }
            if k == 3 { assert(unit_lot_markers()[k] == "LTC"@); }
            if k == 4 { assert(unit_lot_markers()[k] == "BCH"@); }
            if k == 5 { assert(unit_lot_markers()[k] == "DOGE"@); }
            if k == 6 { assert(unit_lot_markers()[k] == "SOL"@); }
            if k == 7 { assert(unit_lot_markers()[k] == "ADA"@); }
            if k == 8 { assert(unit_lot_markers()[k] == "USDT"@); }
            if k == 9 { assert(unit_lot_markers()[k] == "USD1"@); }
            if k == 10 { assert(unit_lot_markers()[k] == "CRYPTO"@); }
            if k == 11 { assert(unit_lot_markers()[k] == "US30"@); }
            if k == 12 { assert(unit_lot_markers()[k] == "NAS"@); }
            if k == 13 { assert(unit_lot_markers()[k] == "SPX"@); }
            if k == 14 { assert(unit_lot_markers()[k] == "US500"@); }
            if k == 15 { assert(unit_lot_markers()[k] == "USTEC"@); }
            if k == 16 { assert(unit_lot_markers()[k] == "UK100"@); }
            if k == 17 { assert(unit_lot_markers()[k] == "GER30"@); }
            if k == 18 { assert(unit_lot_markers()[k] == "DAX"@); }
            if k == 19 { assert(unit_lot_markers()[k] == "JP225"@); }
            if k == 20 { assert(unit_lot_markers()[k] == "NIKKEI"@); }
            if k == 21 { assert(unit_lot_markers()[k] == "AUS200"@); }
            if k == 22 { assert(unit_lot_markers()[k] == "ESP35"@); }
            if k == 23 { assert(unit_lot_markers()[k] == "FRA40"@); }
            if k == 24 { assert(unit_lot_markers()[k] == "EUSTX"@); }
            if k == 25 { assert(unit_lot_markers()[k] == "HK50"@); }
            if k == 26 { assert(unit_lot_markers()[k] == "CH50"@); }
            if k == 27 { assert(unit_lot_markers()[k] == "VIX"@); }
    }
    if forall|k: int| 0 <= k < unit_lot_markers().len() ==> !has_infix(s, #[trigger] unit_lot_markers()[k]) {
        assert(unit_lot_markers()[0] == "BTC"@);
        assert(unit_lot_markers()[1] == "ETH"@);
        assert(unit_lot_markers()[2] == "XRP"@);
        assert(unit_lot_markers()[3] == "LTC"@);
        assert(unit_lot_markers()[4] == "BCH"@);
        assert(unit_lot_markers()[5] == "DOGE"@);
        assert(unit_lot_markers()[6] == "SOL"@);
        assert(unit_lot_markers()[7] == "ADA"@);
        assert(unit_lot_markers()[8] == "USDT"@);
        assert(unit_lot_markers()[9] == "USD1"@);
        assert(unit_lot_markers()[10] == "CRYPTO"@);
        assert(unit_lot_markers()[11] == "US30"@);
        assert(unit_lot_markers()[12] == "NAS"@);
        assert(unit_lot_markers()[13] == "SPX"@);
        assert(unit_lot_markers()[14] == "US500"@);
        assert(unit_lot_markers()[15] == "USTEC"@);
        assert(unit_lot_markers()[16] == "UK100"@);
        assert(unit_lot_markers()[17] == "GER30"@);
        assert(unit_lot_markers()[18] == "DAX"@);
        assert(unit_lot_markers()[19] == "JP225"@);
        assert(unit_lot_markers()[20] == "NIKKEI"@);
        assert(unit_lot_markers()[21] == "AUS200"@);
        assert(unit_lot_markers()[22] == "ESP35"@);
        assert(unit_lot_markers()[23] == "FRA40"@);
        assert(unit_lot_markers()[24] == "EUSTX"@);
        assert(unit_lot_markers()[25] == "HK50"@);
        assert(unit_lot_markers()[26] == "CH50"@);
        assert(unit_lot_markers()[27] == "VIX"@);
    }
    crate::text::lemma_ascii_upper_idempotent(symbol);
}

/// After a failure notice at `t`, no notice follows within the gap.
pub proof fn lemma_failure_notice_gap(t: i64, later: i64)
    requires
        t <= later <= t + FAILURE_NOTICE_GAP_MS,
    ensures
        !failure_notice_due(later, Some(t)),
{
}

} // verus!

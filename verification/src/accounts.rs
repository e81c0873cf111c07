use vstd::prelude::*;
use crate::clock::now_millis;
use crate::model::{Account, AccountRole, Platform};

verus! {

/// Whether `s` has the shape of a hyphenated lower-case version-4 UUID:
/// 36 chars, hyphens at 8, 13, 18 and 23, the version digit `4` at 14, the
/// variant digit one of `8 9 a b` at 19, lower-case hex digits elsewhere.
pub open spec fn is_uuid_v4_text(s: Seq<char>) -> bool {
    &&& s.len() == 36
    &&& forall|i: int|
        0 <= i < 36 ==> (if i == 8 || i == 13 || i == 18 || i == 23 {
            #[trigger] s[i] == '-'
        } else {
            ('0' <= s[i] <= '9') || ('a' <= s[i] <= 'f')
        })
    &&& s[14] == '4'
    &&& (s[19] == '8' || s[19] == '9' || s[19] == 'a' || s[19] == 'b')
}

/// `uuid::Uuid::new_v4`, rendered by its `Display` (hyphenated, lower case).
/// The value is chance; the contract states only its shape, which the
/// crate's version/variant masking and hyphenated formatter fix.
#[verifier::external_body]
fn fresh_uuid() -> (id: String)
    ensures
        is_uuid_v4_text(id@),
{
    uuid::Uuid::new_v4().to_string()
}

/// An account as it is restored from disk or from an imported snapshot:
/// offline, with zero balance and equity until its connector reports in.
pub open spec fn restored(a: Account) -> Account {
    Account { connected: false, balance_bits: 0, equity_bits: 0, ..a }
}

/// Puts a restored account offline with zero balance and equity (the
/// bit pattern of `0.0` is 0).
pub fn reset_for_restore(a: &mut Account)
    ensures
        *final(a) == restored(*old(a)),
{
    a.connected = false;
    a.balance_bits = 0;
    a.equity_bits = 0;
}

/// What the event loop does after applying a connector's report.
#[derive(Clone, Copy, Debug, PartialEq, Eq, Structural)]
pub struct ReportOutcome {
    /// Push the account to the front end.
    pub emit: bool,
    /// Persist the snapshot.
    pub save: bool,
}

/// The account after a `Connected` report: online with the reported
/// figures and currency, and the reported login when it is non-empty.
pub open spec fn after_connected(a: Account, login: String, currency: String, balance_bits: u64, equity_bits: u64) -> Account {
    let b = Account { connected: true, balance_bits, equity_bits, currency, ..a };
    if login@.len() > 0 && a.login@ != login@ {
        Account { login, ..b }
    } else {
        b
    }
}

/// What follows a `Connected` report: save when the login changed; push the
/// account when anything shown changed. `figures_changed` says whether the
/// reported balance or equity differ, as floating-point numbers, from the
/// held ones.
pub open spec fn connected_outcome(a: Account, login: Seq<char>, currency: Seq<char>, figures_changed: bool) -> ReportOutcome {
    let save = login.len() > 0 && a.login@ != login;
    ReportOutcome {
        emit: !a.connected || figures_changed || a.currency@ != currency || save,
        save,
    }
}

/// Applies a connector's `Connected` report to its account.
pub fn apply_connected(
    a: &mut Account,
    login: String,
    currency: String,
    balance_bits: u64,
    equity_bits: u64,
    figures_changed: bool,
) -> (r: ReportOutcome)
    ensures
        *final(a) == after_connected(*old(a), login, currency, balance_bits, equity_bits),
        r == connected_outcome(*old(a), login@, currency@, figures_changed),
{
    let changed = !a.connected || figures_changed || a.currency != currency;
    a.connected = true;
    a.balance_bits = balance_bits;
    a.equity_bits = equity_bits;
    a.currency = currency;
    let mut save = false;
    if login.unicode_len() > 0 && a.login != login {
        a.login = login;
        save = true;
    }
    ReportOutcome { emit: changed || save, save }
}

/// Applies a connector's `Disconnected` report: the account goes offline;
/// the result says whether it was online (and so is to be pushed).
pub fn apply_disconnected(a: &mut Account) -> (emit: bool)
    ensures
        *final(a) == (Account { connected: false, ..*old(a) }),
        emit == old(a).connected,
{
    if !a.connected {
        return false;
    }
    a.connected = false;
    true
}

/// The account after a heartbeat at instant `now`: online, the reported
/// figures, last seen `now`.
pub open spec fn after_heartbeat(a: Account, balance_bits: u64, equity_bits: u64, now: i64) -> Account {
    Account { connected: true, balance_bits, equity_bits, last_seen: now, ..a }
}

/// Whether a heartbeat at `now` changes what is shown of the account.
pub open spec fn heartbeat_changes(a: Account, now: i64, figures_changed: bool) -> bool {
    !a.connected || figures_changed || a.last_seen != now
}

/// Applies a heartbeat received at instant `now`; the result says whether
/// the account is to be pushed.
pub fn apply_heartbeat(a: &mut Account, balance_bits: u64, equity_bits: u64, now: i64, figures_changed: bool) -> (emit: bool)
    ensures
        *final(a) == after_heartbeat(*old(a), balance_bits, equity_bits, now),
        emit == heartbeat_changes(*old(a), now, figures_changed),
{
    let changed = !a.connected || figures_changed || a.last_seen != now;
    a.connected = true;
    a.balance_bits = balance_bits;
    a.equity_bits = equity_bits;
    a.last_seen = now;
    changed
}

/// A heartbeat puts the account online whatever state it was in, with the
/// reported figures and `now` as last seen, keeping its identity, login,
/// server, role and currency; one that reaches an offline account is always
/// pushed; and the same heartbeat applied again, with no change of figures,
/// changes nothing and is not pushed.
pub proof fn lemma_heartbeat_brings_online(a: Account, balance_bits: u64, equity_bits: u64, now: i64, figures_changed: bool)
    ensures
        after_heartbeat(a, balance_bits, equity_bits, now).connected,
        after_heartbeat(a, balance_bits, equity_bits, now).balance_bits == balance_bits,
        after_heartbeat(a, balance_bits, equity_bits, now).equity_bits == equity_bits,
        after_heartbeat(a, balance_bits, equity_bits, now).last_seen == now,
        after_heartbeat(a, balance_bits, equity_bits, now).id == a.id,
        after_heartbeat(a, balance_bits, equity_bits, now).platform == a.platform,
        after_heartbeat(a, balance_bits, equity_bits, now).login == a.login,
        after_heartbeat(a, balance_bits, equity_bits, now).server == a.server,
        after_heartbeat(a, balance_bits, equity_bits, now).role == a.role,
        after_heartbeat(a, balance_bits, equity_bits, now).currency == a.currency,
        !a.connected ==> heartbeat_changes(a, now, figures_changed),
        figures_changed ==> heartbeat_changes(a, now, figures_changed),
        a.last_seen != now ==> heartbeat_changes(a, now, figures_changed),
        !heartbeat_changes(after_heartbeat(a, balance_bits, equity_bits, now), now, false),
        after_heartbeat(after_heartbeat(a, balance_bits, equity_bits, now), balance_bits, equity_bits, now)
            == after_heartbeat(a, balance_bits, equity_bits, now),
{
}

/// A `Connected` report puts the account online with the reported figures
/// and currency, whatever state it was in; a `Disconnected` report takes it
/// offline and is pushed exactly when it was online.
pub proof fn lemma_reports_set_connection(a: Account, login: String, currency: String, balance_bits: u64, equity_bits: u64)
    ensures
        after_connected(a, login, currency, balance_bits, equity_bits).connected,
        after_connected(a, login, currency, balance_bits, equity_bits).balance_bits == balance_bits,
        after_connected(a, login, currency, balance_bits, equity_bits).equity_bits == equity_bits,
        after_connected(a, login, currency, balance_bits, equity_bits).currency == currency,
        after_connected(a, login, currency, balance_bits, equity_bits).id == a.id,
        !a.connected ==> connected_outcome(a, login@, currency@, false).emit,
        connected_outcome(a, login@, currency@, false).save <==> (login@.len() > 0 && a.login@ != login@),
        login@.len() > 0 ==> after_connected(a, login, currency, balance_bits, equity_bits).login@ == login@,
        login@.len() == 0 ==> after_connected(a, login, currency, balance_bits, equity_bits).login == a.login,
        connected_outcome(a, login@, currency@, false).save ==> connected_outcome(a, login@, currency@, false).emit,
{
}

/// Applies a heartbeat at the current time (read from the clock).
pub fn record_heartbeat(a: &mut Account, balance_bits: u64, equity_bits: u64, figures_changed: bool) -> (emit: bool)
    ensures
        exists|now: i64|
            *final(a) == #[trigger] after_heartbeat(*old(a), balance_bits, equity_bits, now)
                && emit == heartbeat_changes(*old(a), now, figures_changed),
{
    let now = now_millis();
    apply_heartbeat(a, balance_bits, equity_bits, now, figures_changed)
}

/// Whether `a` is the account of `platform` with login `login`.
pub fn account_matches(a: &Account, platform: Platform, login: &str) -> (r: bool)
    ensures
        r == (a.platform == platform && a.login@ == login@),
{
    a.platform == platform && crate::text::str_equal(a.login.as_str(), login)
}

/// Records the server an MT terminal reports when it is non-empty and new;
/// the result says whether the account changed (and so is to be saved).
pub fn update_server(a: &mut Account, server: String) -> (changed: bool)
    ensures
        changed == (server@.len() > 0 && old(a).server@ != server@),
        *final(a) == if changed { Account { server, ..*old(a) } } else { *old(a) },
{
    if server.unicode_len() > 0 && a.server != server {
        a.server = server;
        true
    } else {
        false
    }
}

/// Whether connectors of `platform` attach on their own through the file
/// discovery loops (so `connect` has nothing to dial).
pub fn attaches_by_discovery(platform: Platform) -> (r: bool)
    ensures
        r == (platform == Platform::MT4 || platform == Platform::MT5 || platform
            == Platform::TradingView),
{
    match platform {
        Platform::MT4 | Platform::MT5 | Platform::TradingView => true,
        Platform::CTrader => false,
    }
}

/// The label given to an auto-discovered MetaTrader account.
pub open spec fn mt_label(platform: Platform, login: Seq<char>) -> Seq<char> {
    (match platform {
        Platform::MT4 => "MT4"@,
        Platform::MT5 => "MT5"@,
        _ => "MT"@,
    }) + " "@ + login
}

/// A freshly discovered account: offline, idle unless given a role, no
/// money, USD, never seen, no password.
pub open spec fn fresh_account(a: Account, id: Seq<char>, platform: Platform, label: Seq<char>, login: Seq<char>, server: Seq<char>, role: AccountRole) -> bool {
    &&& a.id@ == id
    &&& a.platform == platform
    &&& a.label@ == label
    &&& a.login@ == login
    &&& a.server@ == server
    &&& a.role == role
    &&& !a.connected
    &&& a.balance_bits == 0
    &&& a.equity_bits == 0
    &&& a.currency@ == "USD"@
    &&& a.last_seen == 0
    &&& a.password is None
}

fn build_account(id: String, platform: Platform, label: String, login: &str, server: &str, role: AccountRole) -> (a: Account)
    ensures
        fresh_account(a, id@, platform, label@, login@, server@, role),
{
    Account {
        id,
        platform,
        label,
        login: String::from_str(login),
        server: String::from_str(server),
        role,
        connected: false,
        balance_bits: 0,
        equity_bits: 0,
        currency: String::from_str("USD"),
        last_seen: 0,
        password: None,
    }
}

/// The account created for an MT terminal that dials in with an unknown
/// login: labelled after its platform and login, idle.
pub fn new_mt_account(id: String, platform: Platform, login: &str, server: &str) -> (a: Account)
    ensures
        fresh_account(a, id@, platform, mt_label(platform, login@), login@, server@, AccountRole::Idle),
{
    let mut label = match platform {
        Platform::MT4 => String::from_str("MT4"),
        Platform::MT5 => String::from_str("MT5"),
        _ => String::from_str("MT"),
    };
    label.append(" ");
    label.append(login);
    build_account(id, platform, label, login, server, AccountRole::Idle)
}

/// The account created for a TradingView session: a signal account
/// (TradingView is read-only), no server.
pub fn new_tv_account(id: String, login: &str) -> (a: Account)
    ensures
        fresh_account(a, id@, Platform::TradingView, "TradingView "@ + login@, login@, ""@, AccountRole::Master),
{
    let mut label = String::from_str("TradingView ");
    label.append(login);
    build_account(id, Platform::TradingView, label, login, "", AccountRole::Master)
}

/// The account created for a cTrader login found on disk: idle, no server.
pub fn new_ctrader_account(id: String, login: &str) -> (a: Account)
    ensures
        fresh_account(a, id@, Platform::CTrader, "cTrader "@ + login@, login@, ""@, AccountRole::Idle),
{
    let mut label = String::from_str("cTrader ");
    label.append(login);
    build_account(id, Platform::CTrader, label, login, "", AccountRole::Idle)
}

/// `new_mt_account` under a fresh random id.
pub fn discover_mt_account(platform: Platform, login: &str, server: &str) -> (a: Account)
    ensures
        is_uuid_v4_text(a.id@),
        fresh_account(a, a.id@, platform, mt_label(platform, login@), login@, server@, AccountRole::Idle),
{
    new_mt_account(fresh_uuid(), platform, login, server)
}

/// `new_tv_account` under a fresh random id.
pub fn discover_tv_account(login: &str) -> (a: Account)
    ensures
        is_uuid_v4_text(a.id@),
        fresh_account(a, a.id@, Platform::TradingView, "TradingView "@ + login@, login@, ""@, AccountRole::Master),
{
    new_tv_account(fresh_uuid(), login)
}

/// `new_ctrader_account` under a fresh random id.
pub fn discover_ctrader_account(login: &str) -> (a: Account)
    ensures
        is_uuid_v4_text(a.id@),
        fresh_account(a, a.id@, Platform::CTrader, "cTrader "@ + login@, login@, ""@, AccountRole::Idle),
{
    new_ctrader_account(fresh_uuid(), login)
}

} // verus!

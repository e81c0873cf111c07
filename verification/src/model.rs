use vstd::prelude::*;

verus! {

/// The trading platform an account lives on.
#[derive(Clone, Copy, Debug, PartialEq, Eq, Structural)]
pub enum Platform {
    MT4,
    MT5,
    CTrader,
    TradingView,
}

/// What an account does in copy trading: emits signals, follows them, or
/// neither yet.
#[derive(Clone, Copy, Debug, PartialEq, Eq, Structural)]
pub enum AccountRole {
    Master,
    Slave,
    Idle,
}

/// Direction of a position.
#[derive(Clone, Copy, Debug, PartialEq, Eq, Structural)]
pub enum Side {
    Buy,
    Sell,
}

/// Severity of a log entry.
#[derive(Clone, Copy, Debug, PartialEq, Eq, Structural)]
pub enum LogLevel {
    Error,
    Warn,
    Info,
}

/// A trading account known to the app. Money amounts are held as the bit
/// patterns of their IEEE-754 `f64` values: this library carries them and
/// never computes with them.
pub struct Account {
    pub id: String,
    pub platform: Platform,
    pub label: String,
    pub login: String,
    pub server: String,
    pub role: AccountRole,
    pub connected: bool,
    pub balance_bits: u64,
    pub equity_bits: u64,
    pub currency: String,
    pub last_seen: i64,
    pub password: Option<String>,
}

impl Clone for Account {
    fn clone(&self) -> (r: Self)
        ensures
            r == *self,
    {
        Account {
            id: self.id.clone(),
            platform: self.platform,
            label: self.label.clone(),
            login: self.login.clone(),
            server: self.server.clone(),
            role: self.role,
            connected: self.connected,
            balance_bits: self.balance_bits,
            equity_bits: self.equity_bits,
            currency: self.currency.clone(),
            last_seen: self.last_seen,
            password: match &self.password {
                Some(p) => Some(p.clone()),
                None => None,
            },
        }
    }
}

/// A copy rule: positions of `master_id` are mirrored onto `slave_id`.
/// The floating-loss limit (USD, 0 = off) is held as the bit pattern of its
/// `f64` value; `settings` carries what the copy engine alone reads (symbol
/// mapping, lot sizing and the like), untouched here.
pub struct CopyRule<S> {
    pub id: String,
    pub name: String,
    pub master_id: String,
    pub slave_id: String,
    pub enabled: bool,
    pub weekend_close: bool,
    pub max_floating_loss_bits: u64,
    pub settings: S,
}

/// What the planning functions read of a journal entry: who holds it, its
/// symbol, its side, the rule it was copied under (empty if none), and
/// whether it is still open.
pub struct TradeSummary {
    pub account_id: String,
    pub symbol: String,
    pub rule_id: String,
    pub side: Side,
    pub open: bool,
}

} // verus!

use vstd::prelude::*;
use crate::model::CopyRule;
use crate::rules::lookup;
use crate::text::push_char;

verus! {

/// The char of decimal digit `d`.
pub open spec fn digit_char(d: nat) -> char {
    (48 + d) as char
}

/// The decimal text of `n`, most significant digit first, no leading zeros.
pub open spec fn decimal(n: nat) -> Seq<char>
    decreases n,
{
    if n < 10 {
        seq![digit_char(n)]
    } else {
        decimal(n / 10).push(digit_char(n % 10))
    }
}

/// The decimal text of `n`.
pub fn decimal_string(n: u64) -> (s: String)
    ensures
        s@ == decimal(n as nat),
    decreases n,
{
    let d = (n % 10) as u8;
    let c = (48u8 + d) as char;
    if n < 10 {
        let mut s = String::new();
        push_char(&mut s, c);
        proof {
            assert(s@ =~= seq![digit_char(n as nat)]);
        }
        s
    } else {
        let mut s = decimal_string(n / 10);
        push_char(&mut s, c);
        s
    }
}

/// The reply when a command names a rule that does not exist.
pub open spec fn no_such_rule() -> Seq<char> {
    "找不到该规则"@
}

/// The reply when the rule's signal account has no live connector.
pub open spec fn signal_offline() -> Seq<char> {
    "信号端账户未连接"@
}

/// The rule a command names, or the "no such rule" reply.
pub fn rule_for_command<'a, S>(rules: &'a Vec<CopyRule<S>>, rule_id: &String) -> (r: Result<&'a CopyRule<S>, String>)
    ensures
        match lookup(rules@, rule_id@) {
            Some(rule) => r matches Ok(x) && *x == rule,
            None => r matches Err(e) && e@ == no_such_rule(),
        },
{
    match crate::rules::find_rule(rules, rule_id) {
        Some(rule) => Ok(rule),
        None => Err(String::from_str("找不到该规则")),
    }
}

/// The reply to a position re-sync request for the rule whose signal
/// account is `master_id`: refused when that account has no connector,
/// the send error when the request could not be sent, else the
/// confirmation naming the account.
pub fn resync_reply(master_id: &String, connector_found: bool, send_error: Option<String>) -> (r: Result<String, String>)
    ensures
        !connector_found ==> (r matches Err(e) && e@ == signal_offline()),
        connector_found && send_error is Some ==> r == Err::<String, String>(send_error->0),
        connector_found && send_error is None ==> (r matches Ok(m) && m@ == "已请求补单（信号端 "@ + master_id@ + " 的持仓将重新同步）"@),
{
    if !connector_found {
        return Err(String::from_str("信号端账户未连接"));
    }
    match send_error {
        Some(e) => Err(e),
        None => {
            let mut m = String::from_str("已请求补单（信号端 ");
            m.append(master_id.as_str());
            m.append(" 的持仓将重新同步）");
            Ok(m)
        },
    }
}

/// The reply to a "close all positions of a rule" request: how many close
/// and cancel orders went out, and the rule's name.
pub fn close_reply(closed: u64, cancelled: u64, rule_name: &String) -> (m: String)
    ensures
        m@ == "已发出平仓 "@ + decimal(closed as nat) + " 笔、取消挂单 "@ + decimal(cancelled as nat) + " 笔（规则："@ + rule_name@ + "）"@,
{
    let mut m = String::from_str("已发出平仓 ");
    let c = decimal_string(closed);
    m.append(c.as_str());
    m.append(" 笔、取消挂单 ");
    let k = decimal_string(cancelled);
    m.append(k.as_str());
    m.append(" 笔（规则：");
    m.append(rule_name.as_str());
    m.append("）");
    m
}

/// A log line prefixed with its source in brackets: `[source] message`.
pub fn bracketed(source: &str, message: &str) -> (m: String)
    ensures
        m@ == "["@ + source@ + "] "@ + message@,
{
    let mut m = String::from_str("[");
    m.append(source);
    m.append("] ");
    m.append(message);
    m
}

} // verus!

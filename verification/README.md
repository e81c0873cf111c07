# cascada

Verified core of a copy-trading desktop back end (MetaTrader, cTrader and
TradingView accounts; signal positions mirrored onto follower accounts).

- `src/` is the library, written in Verus and verified: the rule book
  (`rules`), the bounded trade journal (`journal`), symbol-list
  canonicalisation (`symbols`, `text`, `order`), the watchdog decisions
  (`risk`, `clock`, `throttle`), account bookkeeping (`accounts`), planning of
  subscriptions, reconciliation and back-filling (`plans`), command replies
  (`replies`) and log ids (`log_ids`).
- `app/` is the Tauri side: commands, the shared state behind locks and
  concurrent maps, connectors, notifications and the floating-point risk
  estimate. It reads files, directories and the clocks and hands what it
  read to the library, which makes the decisions; what stays in `app/` is
  the I/O, the locking and the floating-point arithmetic.
- `tests/` runs the library on concrete values.

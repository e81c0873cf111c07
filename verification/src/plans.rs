use vstd::prelude::*;
use crate::model::{CopyRule, Side, TradeSummary};
use crate::order::{lex_le, stable_arrangement, views, sort_by_keys, lemma_arrangement_onto, lemma_stable_sorted_unique};
use crate::text::{chars_of, trim};
use crate::symbols::{canonical_of, is_canonical_form, dedupe_trimmed, symbol_key, unicode_uppercase, lemma_canonical_form, lemma_dedupe_of_canonical};

verus! {

// ---- subscriptions the rules need ----

/// Sorting key that orders texts by themselves.
pub open spec fn text_itself() -> spec_fn(Seq<char>) -> Seq<char> {
    |s: Seq<char>| s
}

/// Some open journal entry of account `acc` has symbol `sym`.
pub open spec fn holds_symbol(trades: Seq<TradeSummary>, acc: Seq<char>, sym: Seq<char>) -> bool {
    exists|k: int| 0 <= k < trades.len() && (#[trigger] trades[k]).open && trades[k].account_id@ == acc && trades[k].symbol@ == sym
}

/// Some open journal entry belongs to account `acc`.
pub open spec fn holds_any(trades: Seq<TradeSummary>, acc: Seq<char>) -> bool {
    exists|k: int| 0 <= k < trades.len() && (#[trigger] trades[k]).open && trades[k].account_id@ == acc
}

/// `acc` follows some enabled rule.
pub open spec fn follows_enabled<S>(rules: Seq<CopyRule<S>>, acc: Seq<char>) -> bool {
    exists|k: int| 0 <= k < rules.len() && (#[trigger] rules[k]).enabled && rules[k].slave_id@ == acc
}

/// The texts of `s` are in ascending code-point order, each once.
pub open spec fn strictly_ascending(s: Seq<Seq<char>>) -> bool {
    &&& forall|i: int, j: int| #![trigger s[i], s[j]] 0 <= i < j < s.len() ==> lex_le(s[i], s[j]) && s[i] != s[j]
}

/// The symbols an account needs: one subscription per symbol it holds open.
pub struct SubscriptionNeed {
    pub account_id: String,
    pub symbols: Vec<String>,
}

/// `needs` lists every account that follows an enabled rule and holds open
/// positions, each once, with the symbols of those positions in ascending
/// order, each once.
pub open spec fn needs_exact<S>(needs: Seq<SubscriptionNeed>, rules: Seq<CopyRule<S>>, trades: Seq<TradeSummary>) -> bool {
    &&& forall|i: int| 0 <= i < needs.len() ==> follows_enabled(rules, (#[trigger] needs[i]).account_id@) && holds_any(trades, needs[i].account_id@)
    &&& forall|acc: Seq<char>| follows_enabled(rules, acc) && holds_any(trades, acc) ==> exists|i: int| 0 <= i < needs.len() && (#[trigger] needs[i]).account_id@ == acc
    &&& forall|i: int, j: int| #![trigger needs[i], needs[j]] 0 <= i < j < needs.len() ==> needs[i].account_id@ != needs[j].account_id@
    &&& forall|i: int| 0 <= i < needs.len() ==> lists_open_symbols(views((#[trigger] needs[i]).symbols@), trades, needs[i].account_id@)
}

/// `list` holds the symbols of the open positions of `acc`, ascending, each once.
pub open spec fn lists_open_symbols(list: Seq<Seq<char>>, trades: Seq<TradeSummary>, acc: Seq<char>) -> bool {
    &&& strictly_ascending(list)
    &&& forall|sym: Seq<char>| #[trigger] list.contains(sym) <==> holds_symbol(trades, acc, sym)
}

/// The open symbols of account `acc`, each once, in ascending order.
fn open_symbols_of(trades: &Vec<TradeSummary>, acc: &String) -> (r: Vec<String>)
    ensures
        lists_open_symbols(views(r@), trades@, acc@),
{
    let mut uniq: Vec<String> = Vec::new();
    let mut k: usize = 0;
    while k < trades.len()
        invariant
            k <= trades@.len(),
            forall|a: int, b: int| #![trigger uniq@[a], uniq@[b]] 0 <= a < b < uniq@.len() ==> uniq@[a]@ != uniq@[b]@,
            forall|sym: Seq<char>| views(uniq@).contains(sym) <==> exists|q: int| 0 <= q < k && (#[trigger] trades@[q]).open && trades@[q].account_id@ == acc@ && trades@[q].symbol@ == sym,
        decreases trades@.len() - k,
    {
        let t = &trades[k];
        if t.open && t.account_id == *acc {
            let mut seen = false;
            let mut q: usize = 0;
            while q < uniq.len()
                invariant
                    q <= uniq@.len(),
                    seen <==> exists|z: int| 0 <= z < q && (#[trigger] uniq@[z])@ == t.symbol@,
                decreases uniq@.len() - q,
            {
                if uniq[q] == t.symbol {
                    seen = true;
                }
                q = q + 1;
            }
            let ghost before = views(uniq@);
            if !seen {
                uniq.push(t.symbol.clone());
            }
            proof {
                assert forall|sym: Seq<char>| views(uniq@).contains(sym) <==> exists|q: int| 0 <= q < k + 1 && (#[trigger] trades@[q]).open && trades@[q].account_id@ == acc@ && trades@[q].symbol@ == sym by {
                    if views(uniq@).contains(sym) {
                        let z = choose|z: int| 0 <= z < views(uniq@).len() && views(uniq@)[z] == sym;
                        if z < before.len() {
                            assert(before[z] == sym);
                            assert(before.contains(sym));
                        } else {
                            assert(trades@[k as int].symbol@ == sym);
                        }
                    }
                    if exists|q: int| 0 <= q < k + 1 && (#[trigger] trades@[q]).open && trades@[q].account_id@ == acc@ && trades@[q].symbol@ == sym {
                        let q = choose|q: int| 0 <= q < k + 1 && (#[trigger] trades@[q]).open && trades@[q].account_id@ == acc@ && trades@[q].symbol@ == sym;
                        if q < k {
                            assert(before.contains(sym));
                            let z = choose|z: int| 0 <= z < before.len() && before[z] == sym;
                            assert(views(uniq@)[z] == sym);
                        } else if seen {
                            let z = choose|z: int| 0 <= z < uniq@.len() && (#[trigger] uniq@[z])@ == t.symbol@;
                            assert(views(uniq@)[z] == sym);
                        } else {
                            assert(views(uniq@)[uniq@.len() - 1] == sym);
                        }
                    }
                }
            }
        } else {
            proof {
                assert forall|sym: Seq<char>| views(uniq@).contains(sym) <==> exists|q: int| 0 <= q < k + 1 && (#[trigger] trades@[q]).open && trades@[q].account_id@ == acc@ && trades@[q].symbol@ == sym by {
                    if exists|q: int| 0 <= q < k + 1 && (#[trigger] trades@[q]).open && trades@[q].account_id@ == acc@ && trades@[q].symbol@ == sym {
                        let q = choose|q: int| 0 <= q < k + 1 && (#[trigger] trades@[q]).open && trades@[q].account_id@ == acc@ && trades@[q].symbol@ == sym;
                        assert(q < k);
                    }
                }
            }
        }
        k = k + 1;
    }
    let mut keys: Vec<Vec<char>> = Vec::new();
    let mut i: usize = 0;
    while i < uniq.len()
        invariant
            i <= uniq@.len(),
            keys@.len() == i,
            forall|z: int| 0 <= z < i ==> (#[trigger] keys@[z])@ == uniq@[z]@,
        decreases uniq@.len() - i,
    {
        keys.push(chars_of(uniq[i].as_str()));
        i = i + 1;
    }
    let sorted = sort_by_keys(&uniq, &keys, Ghost(text_itself()));
    proof {
        let inp = views(uniq@);
        let out = views(sorted@);
        let p = choose|p: Seq<int>| #[trigger] stable_arrangement(p, out, inp, text_itself());
        assert forall|a: int, b: int| #![trigger out[a], out[b]] 0 <= a < b < out.len() implies lex_le(out[a], out[b]) && out[a] != out[b] by {
            assert(out[a] == inp[p[a]]);
            assert(out[b] == inp[p[b]]);
            assert(p[a] != p[b]);
            if p[a] < p[b] {
                assert(uniq@[p[a]]@ != uniq@[p[b]]@);
            } else {
                assert(uniq@[p[b]]@ != uniq@[p[a]]@);
            }
        }
        assert forall|sym: Seq<char>| out.contains(sym) <==> holds_symbol(trades@, acc@, sym) by {
            if out.contains(sym) {
                let z = choose|z: int| 0 <= z < out.len() && out[z] == sym;
                assert(out[z] == inp[p[z]]);
                assert(inp.contains(sym));
            }
            if holds_symbol(trades@, acc@, sym) {
                let q = choose|q: int| 0 <= q < trades@.len() && (#[trigger] trades@[q]).open && trades@[q].account_id@ == acc@ && trades@[q].symbol@ == sym;
                assert(inp.contains(sym));
                let z = choose|z: int| 0 <= z < inp.len() && inp[z] == sym;
                // the arrangement is onto: some position of `out` holds index z
                lemma_arrangement_onto(p, inp.len() as int, z);
                let w = choose|w: int| 0 <= w < p.len() && p[w] == z;
                assert(out[w] == sym);
            }
        }
    }
    sorted
}

} // verus!

verus! {

/// The subscriptions the enabled rules need: for every account that follows
/// an enabled rule and holds open positions, the symbols of those positions
/// (so that floating-loss watching and quote-driven stops get prices).
pub fn needed_subscriptions<S>(rules: &Vec<CopyRule<S>>, trades: &Vec<TradeSummary>) -> (needs: Vec<SubscriptionNeed>)
    ensures
        needs_exact(needs@, rules@, trades@),
{
    let mut needs: Vec<SubscriptionNeed> = Vec::new();
    let mut i: usize = 0;
    while i < rules.len()
        invariant
            i <= rules@.len(),
            forall|j: int| 0 <= j < needs@.len() ==> follows_enabled(rules@, (#[trigger] needs@[j]).account_id@) && holds_any(trades@, needs@[j].account_id@) && lists_open_symbols(views(needs@[j].symbols@), trades@, needs@[j].account_id@),
            forall|k: int| 0 <= k < i && (#[trigger] rules@[k]).enabled && holds_any(trades@, rules@[k].slave_id@) ==> exists|j: int| 0 <= j < needs@.len() && (#[trigger] needs@[j]).account_id@ == rules@[k].slave_id@,
            forall|a: int, b: int| #![trigger needs@[a], needs@[b]] 0 <= a < b < needs@.len() ==> needs@[a].account_id@ != needs@[b].account_id@,
        decreases rules@.len() - i,
    {
        let rule = &rules[i];
        if rule.enabled {
            let mut present = false;
            let mut j: usize = 0;
            while j < needs.len()
                invariant
                    j <= needs@.len(),
                    present <==> exists|q: int| 0 <= q < j && (#[trigger] needs@[q]).account_id@ == rule.slave_id@,
                decreases needs@.len() - j,
            {
                if needs[j].account_id == rule.slave_id {
                    present = true;
                }
                j = j + 1;
            }
            if !present {
                let syms = open_symbols_of(trades, &rule.slave_id);
                proof {
                    if holds_any(trades@, rule.slave_id@) {
                        let k = choose|k: int| 0 <= k < trades@.len() && (#[trigger] trades@[k]).open && trades@[k].account_id@ == rule.slave_id@;
                        assert(holds_symbol(trades@, rule.slave_id@, trades@[k].symbol@));
                        assert(views(syms@).contains(trades@[k].symbol@));
                    }
                }
                if syms.len() > 0 {
                    let ghost before = needs@;
                    proof {
                        assert(views(syms@).contains(views(syms@)[0]));
                        let sym = views(syms@)[0];
                        assert(holds_symbol(trades@, rule.slave_id@, sym));
                        let k = choose|k: int| 0 <= k < trades@.len() && (#[trigger] trades@[k]).open && trades@[k].account_id@ == rule.slave_id@ && trades@[k].symbol@ == sym;
                        assert(holds_any(trades@, rule.slave_id@));
                        assert(follows_enabled(rules@, rule.slave_id@));
                    }
                    needs.push(SubscriptionNeed { account_id: rule.slave_id.clone(), symbols: syms });
                    proof {
                        assert forall|k: int| 0 <= k < i && (#[trigger] rules@[k]).enabled && holds_any(trades@, rules@[k].slave_id@) implies exists|j: int| 0 <= j < needs@.len() && (#[trigger] needs@[j]).account_id@ == rules@[k].slave_id@ by {
                            let j = choose|j: int| 0 <= j < before.len() && (#[trigger] before[j]).account_id@ == rules@[k].slave_id@;
                            assert(needs@[j] == before[j]);
                        }
                        assert forall|a: int, b: int| #![trigger needs@[a], needs@[b]] 0 <= a < b < needs@.len() implies needs@[a].account_id@ != needs@[b].account_id@ by {
                            if b == needs@.len() - 1 {
                                assert(needs@[a] == before[a]);
                            } else {
                                assert(needs@[a] == before[a]);
                                assert(needs@[b] == before[b]);
                            }
                        }
                        assert forall|j: int| 0 <= j < needs@.len() implies follows_enabled(rules@, (#[trigger] needs@[j]).account_id@) && holds_any(trades@, needs@[j].account_id@) && lists_open_symbols(views(needs@[j].symbols@), trades@, needs@[j].account_id@) by {
                            if j < before.len() {
                                assert(needs@[j] == before[j]);
                            }
                        }
                    }
                }
            }
        }
        proof {
            if rules@[i as int].enabled && holds_any(trades@, rules@[i as int].slave_id@) {
                let last = needs@.len() - 1;
                if needs@.len() > 0 && needs@[last].account_id@ == rules@[i as int].slave_id@ {
                    assert(exists|j: int| 0 <= j < needs@.len() && (#[trigger] needs@[j]).account_id@ == rules@[i as int].slave_id@);
                }
            }
        }
        i = i + 1;
    }
    proof {
        assert forall|acc: Seq<char>| follows_enabled(rules@, acc) && holds_any(trades@, acc) implies exists|i: int| 0 <= i < needs@.len() && (#[trigger] needs@[i]).account_id@ == acc by {
            let k = choose|k: int| 0 <= k < rules@.len() && (#[trigger] rules@[k]).enabled && rules@[k].slave_id@ == acc;
            assert(rules@[k].enabled && holds_any(trades@, rules@[k].slave_id@));
        }
    }
    needs
}

/// Whether two lists of texts differ.
fn lists_differ(a: &Vec<String>, b: &Vec<String>) -> (r: bool)
    ensures
        r == (views(a@) != views(b@)),
{
    if a.len() != b.len() {
        proof {
            assert(views(a@).len() != views(b@).len());
        }
        return true;
    }
    let mut i: usize = 0;
    while i < a.len()
        invariant
            a@.len() == b@.len(),
            i <= a@.len(),
            forall|k: int| 0 <= k < i ==> (#[trigger] a@[k])@ == b@[k]@,
        decreases a@.len() - i,
    {
        if a[i] != b[i] {
            proof {
                assert(views(a@)[i as int] != views(b@)[i as int]);
            }
            return true;
        }
        i = i + 1;
    }
    assert(views(a@) =~= views(b@));
    false
}

/// Whether the subscription held for an account differs from what storing
/// the needed symbols would hold: the held list is not the canonical form
/// of `needed` (the form `set_subscription` stores). The order in which the
/// needed symbols arrive does not matter beyond what canonicalisation keeps.
pub fn subscription_differs(current: &Vec<String>, needed: &Vec<String>) -> (r: bool)
    ensures
        r == !is_canonical_form(views(current@), views(needed@)),
{
    let canon = canonical_of(needed);
    let differs = lists_differ(current, &canon);
    proof {
        if is_canonical_form(views(current@), views(needed@)) {
            lemma_stable_sorted_unique(
                views(current@),
                views(canon@),
                dedupe_trimmed(views(needed@)),
                |s: Seq<char>| symbol_key(s),
            );
        }
    }
    differs
}

/// Needing the same symbols in another order causes no new subscription:
/// when the held list is canonical, its symbols have pairwise different
/// sort keys, and the needed list holds exactly those symbols once each, the
/// held list is already the canonical form of the needed one.
pub proof fn lemma_subscription_order_free(held: Seq<Seq<char>>, earlier: Seq<Seq<char>>, needed: Seq<Seq<char>>)
    requires
        is_canonical_form(held, earlier),
        forall|i: int, j: int| #![trigger held[i], held[j]] 0 <= i < j < held.len() ==> symbol_key(held[i]) != symbol_key(held[j]),
        needed.len() == held.len(),
        needed.no_duplicates(),
        forall|s: Seq<char>| #[trigger] needed.contains(s) <==> held.contains(s),
    ensures
        is_canonical_form(held, needed),
{
    lemma_canonical_form(held, earlier);
    let n = held.len() as int;
    // index in `needed` of each held symbol
    let p = Seq::new(n as nat, |i: int| choose|w: int| 0 <= w < n && needed[w] == held[i]);
    assert forall|i: int| 0 <= i < n implies 0 <= #[trigger] p[i] < n && needed[p[i]] == held[i] by {
        assert(held.contains(held[i]));
        assert(needed.contains(held[i]));
    }
    assert forall|i: int, j: int| #![trigger p[i], p[j]] 0 <= i < j < n implies p[i] != p[j] by {
        assert(unicode_uppercase(held[i]) != unicode_uppercase(held[j]));
    }
    // the needed list is already deduplicated
    assert forall|i: int| 0 <= i < n implies (#[trigger] needed[i]).len() > 0 && trim(needed[i]) == needed[i] by {
        assert(needed.contains(needed[i]));
        let w = choose|w: int| 0 <= w < n && held[w] == needed[i];
    }
    assert forall|i: int, j: int| #![trigger needed[i], needed[j]] 0 <= i < j < n implies unicode_uppercase(needed[i]) != unicode_uppercase(needed[j]) by {
        assert(needed.contains(needed[i]) && needed.contains(needed[j]));
        let a = choose|w: int| 0 <= w < n && held[w] == needed[i];
        let b = choose|w: int| 0 <= w < n && held[w] == needed[j];
        assert(needed[i] != needed[j]);
        if a < b {
        } else if b < a {
        }
    }
    lemma_dedupe_of_canonical(needed);
    let key = |s: Seq<char>| symbol_key(s);
    assert forall|i: int| 0 <= i < n implies #[trigger] held[i] == needed[p[i]] by {}
    assert forall|i: int, j: int|
        #![trigger held[i], held[j]]
        0 <= i < j < n implies lex_le(key(held[i]), key(held[j])) && (key(held[i]) == key(held[j]) ==> p[i] < p[j]) by {}
    assert(stable_arrangement(p, held, needed, key));
}

} // verus!

verus! {

// ---- reconciliation after a restart ----

/// Whether an earlier pick already carries rule id `id`.
pub open spec fn picked_id<S>(rules: Seq<CopyRule<S>>, picks: Seq<int>, id: Seq<char>) -> bool {
    exists|k: int| 0 <= k < picks.len() && rules[#[trigger] picks[k]].id@ == id
}

/// The rules whose positions are re-synchronised in this pass, in rule
/// order: enabled, not yet synchronised (before or earlier in this pass
/// under the same id), with both their signal and their follower account
/// online.
pub open spec fn reconcile_picks<S>(rules: Seq<CopyRule<S>>, synced: Seq<Seq<char>>, online: Seq<Seq<char>>) -> Seq<int>
    decreases rules.len(),
{
    if rules.len() == 0 {
        Seq::empty()
    } else {
        let prev = reconcile_picks(rules.drop_last(), synced, online);
        let r = rules.last();
        if r.enabled && !synced.contains(r.id@) && !picked_id(rules, prev, r.id@) && online.contains(r.master_id@) && online.contains(r.slave_id@) {
            prev.push(rules.len() - 1)
        } else {
            prev
        }
    }
}

/// Reconciliation picks only enabled rules whose id is not yet
/// synchronised and whose signal and follower accounts are both online, and
/// never picks one id twice in a pass: once the picked ids are recorded as
/// synchronised, the rules behind them are not re-synchronised again.
pub proof fn lemma_reconcile_once<S>(rules: Seq<CopyRule<S>>, synced: Seq<Seq<char>>, online: Seq<Seq<char>>)
    ensures
        forall|k: int| 0 <= k < reconcile_picks(rules, synced, online).len() ==> {
            let i = #[trigger] reconcile_picks(rules, synced, online)[k];
            &&& 0 <= i < rules.len()
            &&& rules[i].enabled
            &&& !synced.contains(rules[i].id@)
            &&& online.contains(rules[i].master_id@)
            &&& online.contains(rules[i].slave_id@)
        },
        forall|a: int, b: int| #![trigger reconcile_picks(rules, synced, online)[a], reconcile_picks(rules, synced, online)[b]]
            0 <= a < b < reconcile_picks(rules, synced, online).len() ==>
                rules[reconcile_picks(rules, synced, online)[a]].id@ != rules[reconcile_picks(rules, synced, online)[b]].id@,
    decreases rules.len(),
{
    if rules.len() > 0 {
        let rest = rules.drop_last();
        lemma_reconcile_once(rest, synced, online);
        let prev = reconcile_picks(rest, synced, online);
        let cur = reconcile_picks(rules, synced, online);
        assert forall|k: int| 0 <= k < prev.len() implies #[trigger] rules[prev[k]] == rest[prev[k]] by {}
        assert forall|k: int| 0 <= k < cur.len() implies {
            let i = #[trigger] cur[k];
            &&& 0 <= i < rules.len()
            &&& rules[i].enabled
            &&& !synced.contains(rules[i].id@)
            &&& online.contains(rules[i].master_id@)
            &&& online.contains(rules[i].slave_id@)
        } by {
            if k < prev.len() {
                assert(cur[k] == prev[k]);
                assert(rules[prev[k]] == rest[prev[k]]);
            }
        }
        assert forall|a: int, b: int| #![trigger cur[a], cur[b]] 0 <= a < b < cur.len() implies rules[cur[a]].id@ != rules[cur[b]].id@ by {
            assert(cur[a] == prev[a]);
            assert(rules[prev[a]] == rest[prev[a]]);
            if b < prev.len() {
                assert(cur[b] == prev[b]);
                assert(rules[prev[b]] == rest[prev[b]]);
            } else {
                assert(cur[b] == rules.len() - 1);
                assert(!picked_id(rules, prev, rules.last().id@));
            }
        }
    }
}

/// Recording the picked ids as synchronised leaves nothing to pick among them.
pub proof fn lemma_reconcile_not_repeated<S>(rules: Seq<CopyRule<S>>, synced: Seq<Seq<char>>, online: Seq<Seq<char>>, later: Seq<Seq<char>>)
    requires
        forall|k: int| 0 <= k < reconcile_picks(rules, synced, online).len() ==> later.contains(rules[#[trigger] reconcile_picks(rules, synced, online)[k]].id@),
    ensures
        forall|k: int, q: int| 0 <= k < reconcile_picks(rules, later, online).len() && 0 <= q < reconcile_picks(rules, synced, online).len() ==>
            rules[#[trigger] reconcile_picks(rules, later, online)[k]].id@ != rules[#[trigger] reconcile_picks(rules, synced, online)[q]].id@,
{
    lemma_reconcile_once(rules, later, online);
    lemma_reconcile_once(rules, synced, online);
}

fn texts_contain(list: &Vec<String>, s: &String) -> (r: bool)
    ensures
        r == views(list@).contains(s@),
{
    let mut i: usize = 0;
    while i < list.len()
        invariant
            i <= list@.len(),
            forall|k: int| 0 <= k < i ==> (#[trigger] list@[k])@ != s@,
        decreases list@.len() - i,
    {
        if list[i] == *s {
            assert(views(list@)[i as int] == s@);
            return true;
        }
        i = i + 1;
    }
    false
}

/// The indices of the rules to re-synchronise now, given the ids of the
/// rules already synchronised and the ids of the accounts online.
pub fn reconcile_plan<S>(rules: &Vec<CopyRule<S>>, synced: &Vec<String>, online: &Vec<String>) -> (picks: Vec<usize>)
    ensures
        picks@.map_values(|x: usize| x as int) == reconcile_picks(rules@, views(synced@), views(online@)),
{
    let mut picks: Vec<usize> = Vec::new();
    let mut ids: Vec<String> = Vec::new();
    let mut i: usize = 0;
    proof {
        assert(rules@.take(0) =~= Seq::<CopyRule<S>>::empty());
        assert(picks@.map_values(|x: usize| x as int) =~= Seq::<int>::empty());
    }
    while i < rules.len()
        invariant
            i <= rules@.len(),
            picks@.map_values(|x: usize| x as int) == reconcile_picks(rules@.take(i as int), views(synced@), views(online@)),
            ids@.len() == picks@.len(),
            forall|k: int| 0 <= k < picks@.len() ==> (#[trigger] picks@[k]) < i && ids@[k]@ == rules@[picks@[k] as int].id@,
        decreases rules@.len() - i,
    {
        let ghost pre = rules@.take(i as int);
        let ghost nxt = rules@.take(i + 1);
        let ghost prev = reconcile_picks(pre, views(synced@), views(online@));
        proof {
            assert(nxt.drop_last() =~= pre);
            assert(nxt.last() == rules@[i as int]);
        }
        let r = &rules[i];
        let already = texts_contain(&ids, &r.id);
        proof {
            assert(already == picked_id(nxt, prev, r.id@)) by {
                if already {
                    let z = choose|z: int| 0 <= z < views(ids@).len() && views(ids@)[z] == r.id@;
                    assert(prev[z] == picks@[z] as int);
                    assert(nxt[prev[z]] == rules@[picks@[z] as int]);
                }
                if picked_id(nxt, prev, r.id@) {
                    let k = choose|k: int| 0 <= k < prev.len() && nxt[#[trigger] prev[k]].id@ == r.id@;
                    assert(prev[k] == picks@[k] as int);
                    assert(views(ids@)[k] == r.id@);
                }
            }
        }
        if r.enabled && !texts_contain(synced, &r.id) && !already && texts_contain(online, &r.master_id) && texts_contain(online, &r.slave_id) {
            picks.push(i);
            ids.push(r.id.clone());
            proof {
                assert(picks@.map_values(|x: usize| x as int) =~= prev.push(i as int));
            }
        }
        i = i + 1;
    }
    proof {
        assert(rules@.take(rules@.len() as int) =~= rules@);
    }
    picks
}

// ---- back-filling a follower position after a restart ----

/// Master position `m` could be the origin of the follower position under
/// rule `r`: it is open on the rule's signal account, on the same side, and
/// `pair_ok[r][m]` (the symbol translates to the follower's, the volumes
/// agree, and it has no follower yet).
pub open spec fn backfill_eligible<S>(rules: Seq<CopyRule<S>>, trades: Seq<TradeSummary>, pair_ok: Seq<Seq<bool>>, side: Side, r: int, m: int) -> bool {
    &&& trades[m].account_id@ == rules[r].master_id@
    &&& trades[m].open
    &&& trades[m].side == side
    &&& pair_ok[r][m]
}

/// The positions among the first `k` eligible under rule `r`, in order.
pub open spec fn eligible_upto<S>(rules: Seq<CopyRule<S>>, trades: Seq<TradeSummary>, pair_ok: Seq<Seq<bool>>, side: Side, r: int, k: int) -> Seq<int>
    decreases k,
{
    if k <= 0 {
        Seq::empty()
    } else {
        let prev = eligible_upto(rules, trades, pair_ok, side, r, k - 1);
        if backfill_eligible(rules, trades, pair_ok, side, r, k - 1) {
            prev.push(k - 1)
        } else {
            prev
        }
    }
}

/// The back-fill decision from rule `r` on: the first enabled rule followed
/// by `acc` with exactly one eligible master position gives `(rule,
/// position)`; a rule with two or more gives up altogether (ambiguous).
pub open spec fn backfill_from<S>(rules: Seq<CopyRule<S>>, trades: Seq<TradeSummary>, pair_ok: Seq<Seq<bool>>, acc: Seq<char>, side: Side, r: int) -> Option<(int, int)>
    decreases rules.len() - r,
{
    if r < 0 || r >= rules.len() {
        None
    } else if !(rules[r].enabled && rules[r].slave_id@ == acc) {
        backfill_from(rules, trades, pair_ok, acc, side, r + 1)
    } else {
        let e = eligible_upto(rules, trades, pair_ok, side, r, trades.len() as int);
        if e.len() >= 2 {
            None
        } else if e.len() == 1 {
            Some((r, e[0]))
        } else {
            backfill_from(rules, trades, pair_ok, acc, side, r + 1)
        }
    }
}

proof fn lemma_eligible_grows<S>(rules: Seq<CopyRule<S>>, trades: Seq<TradeSummary>, pair_ok: Seq<Seq<bool>>, side: Side, r: int, j: int, k: int)
    requires
        0 <= j <= k,
    ensures
        eligible_upto(rules, trades, pair_ok, side, r, j).len() <= eligible_upto(rules, trades, pair_ok, side, r, k).len(),
    decreases k - j,
{
    if j < k {
        lemma_eligible_grows(rules, trades, pair_ok, side, r, j, k - 1);
    }
}

proof fn lemma_eligible_members<S>(rules: Seq<CopyRule<S>>, trades: Seq<TradeSummary>, pair_ok: Seq<Seq<bool>>, side: Side, r: int, k: int)
    requires
        0 <= k,
    ensures
        forall|q: int| 0 <= q < eligible_upto(rules, trades, pair_ok, side, r, k).len() ==> {
            let x = #[trigger] eligible_upto(rules, trades, pair_ok, side, r, k)[q];
            0 <= x < k && backfill_eligible(rules, trades, pair_ok, side, r, x)
        },
        forall|x: int| 0 <= x < k && backfill_eligible(rules, trades, pair_ok, side, r, x) ==> #[trigger] eligible_upto(rules, trades, pair_ok, side, r, k).contains(x),
        forall|a: int, b: int| 0 <= a < b < eligible_upto(rules, trades, pair_ok, side, r, k).len() ==>
            #[trigger] eligible_upto(rules, trades, pair_ok, side, r, k)[a] < #[trigger] eligible_upto(rules, trades, pair_ok, side, r, k)[b],
    decreases k,
{
    if k > 0 {
        lemma_eligible_members(rules, trades, pair_ok, side, r, k - 1);
        if backfill_eligible(rules, trades, pair_ok, side, r, k - 1) {
            assert(eligible_upto(rules, trades, pair_ok, side, r, k) == eligible_upto(rules, trades, pair_ok, side, r, k - 1).push(k - 1));
        }
        let prev = eligible_upto(rules, trades, pair_ok, side, r, k - 1);
        let cur = eligible_upto(rules, trades, pair_ok, side, r, k);
        assert forall|x: int| 0 <= x < k && backfill_eligible(rules, trades, pair_ok, side, r, x) implies #[trigger] cur.contains(x) by {
            if x < k - 1 {
                assert(prev.contains(x));
                let q = choose|q: int| 0 <= q < prev.len() && prev[q] == x;
                if backfill_eligible(rules, trades, pair_ok, side, r, k - 1) {
                    assert(cur == prev.push(k - 1));
                } else {
                    assert(cur == prev);
                }
                assert(cur[q] == x);
            } else {
                assert(cur[prev.len() as int] == x);
            }
        }
    }
}

proof fn lemma_backfill_from_sound<S>(rules: Seq<CopyRule<S>>, trades: Seq<TradeSummary>, pair_ok: Seq<Seq<bool>>, acc: Seq<char>, side: Side, r0: int)
    requires
        0 <= r0,
    ensures
        backfill_from(rules, trades, pair_ok, acc, side, r0) matches Some((r, m)) ==> {
            &&& r0 <= r < rules.len()
            &&& rules[r].enabled
            &&& rules[r].slave_id@ == acc
            &&& 0 <= m < trades.len()
            &&& trades[m].open
            &&& trades[m].account_id@ == rules[r].master_id@
            &&& trades[m].side == side
            &&& pair_ok[r][m]
            &&& forall|x: int| 0 <= x < trades.len() && trades[x].open && #[trigger] trades[x].account_id@ == rules[r].master_id@
                && trades[x].side == side && pair_ok[r][x] ==> x == m
        },
        (forall|i: int| r0 <= i < rules.len() ==> !(#[trigger] rules[i].enabled && rules[i].slave_id@ == acc))
            ==> backfill_from(rules, trades, pair_ok, acc, side, r0) is None,
        backfill_from(rules, trades, pair_ok, acc, side, r0) matches Some((r, m)) ==>
            forall|i: int, x: int| r0 <= i < r && rules[i].enabled && rules[i].slave_id@ == acc && 0 <= x < trades.len()
                ==> !(#[trigger] backfill_eligible(rules, trades, pair_ok, side, i, x)),
        forall|r: int, m: int|
            r0 <= r < rules.len() && rules[r].enabled && rules[r].slave_id@ == acc && 0 <= m < trades.len()
            && #[trigger] backfill_eligible(rules, trades, pair_ok, side, r, m)
            && (forall|x: int| 0 <= x < trades.len() && #[trigger] backfill_eligible(rules, trades, pair_ok, side, r, x) ==> x == m)
            && (forall|i: int, x: int| r0 <= i < r && rules[i].enabled && rules[i].slave_id@ == acc && 0 <= x < trades.len()
                ==> !(#[trigger] backfill_eligible(rules, trades, pair_ok, side, i, x)))
            ==> backfill_from(rules, trades, pair_ok, acc, side, r0) == Some((r, m)),
    decreases rules.len() - r0,
{
    if r0 < rules.len() {
        lemma_backfill_from_sound(rules, trades, pair_ok, acc, side, r0 + 1);
        let res = backfill_from(rules, trades, pair_ok, acc, side, r0);
        let rest = backfill_from(rules, trades, pair_ok, acc, side, r0 + 1);
        if rules[r0].enabled && rules[r0].slave_id@ == acc {
            let k = trades.len() as int;
            lemma_eligible_members(rules, trades, pair_ok, side, r0, k);
            let e = eligible_upto(rules, trades, pair_ok, side, r0, k);
            if e.len() == 1 {
                let m = e[0];
                assert(0 <= m < k && backfill_eligible(rules, trades, pair_ok, side, r0, m));
                assert forall|x: int| 0 <= x < trades.len() && trades[x].open && #[trigger] trades[x].account_id@ == rules[r0].master_id@
                    && trades[x].side == side && pair_ok[r0][x] implies x == m by {
                    assert(backfill_eligible(rules, trades, pair_ok, side, r0, x));
                    assert(e.contains(x));
                }
                assert forall|r: int, mm: int|
                    r0 <= r < rules.len() && rules[r].enabled && rules[r].slave_id@ == acc && 0 <= mm < trades.len()
                    && #[trigger] backfill_eligible(rules, trades, pair_ok, side, r, mm)
                    && (forall|x: int| 0 <= x < trades.len() && #[trigger] backfill_eligible(rules, trades, pair_ok, side, r, x) ==> x == mm)
                    && (forall|i: int, x: int| r0 <= i < r && rules[i].enabled && rules[i].slave_id@ == acc && 0 <= x < trades.len()
                        ==> !(#[trigger] backfill_eligible(rules, trades, pair_ok, side, i, x)))
                    implies res == Some((r, mm)) by {
                    if r > r0 {
                        assert(!backfill_eligible(rules, trades, pair_ok, side, r0, m));
                    }
                }
            } else if e.len() == 0 {
                assert forall|x: int| 0 <= x < trades.len() implies !backfill_eligible(rules, trades, pair_ok, side, r0, x) by {
                    if backfill_eligible(rules, trades, pair_ok, side, r0, x) {
                        assert(e.contains(x));
                    }
                }
                assert(res == rest);
            } else {
                assert(e[0] < e[1]);
                assert forall|r: int, mm: int|
                    r0 <= r < rules.len() && rules[r].enabled && rules[r].slave_id@ == acc && 0 <= mm < trades.len()
                    && #[trigger] backfill_eligible(rules, trades, pair_ok, side, r, mm)
                    && (forall|x: int| 0 <= x < trades.len() && #[trigger] backfill_eligible(rules, trades, pair_ok, side, r, x) ==> x == mm)
                    && (forall|i: int, x: int| r0 <= i < r && rules[i].enabled && rules[i].slave_id@ == acc && 0 <= x < trades.len()
                        ==> !(#[trigger] backfill_eligible(rules, trades, pair_ok, side, i, x)))
                    implies res == Some((r, mm)) by {
                    assert(backfill_eligible(rules, trades, pair_ok, side, r0, e[0]));
                    assert(backfill_eligible(rules, trades, pair_ok, side, r0, e[1]));
                    if r == r0 {
                        assert(e[0] == mm);
                        assert(e[1] == mm);
                    }
                }
            }
        } else {
            assert(res == rest);
        }
    }
}

/// Back-filling links a follower position of account `acc` on `side` only
/// under an enabled rule that `acc` follows, and only to an open position of
/// that rule's signal account on the same side that passed the outside
/// checks and is the only such position; earlier enabled rules that `acc`
/// follows offered no such position at all; where `acc` follows no enabled
/// rule nothing is linked; and the first enabled followed rule with exactly
/// one such position, after rules that offered none, is linked to it.
pub proof fn lemma_backfill_links_followed_rule<S>(rules: Seq<CopyRule<S>>, trades: Seq<TradeSummary>, pair_ok: Seq<Seq<bool>>, acc: Seq<char>, side: Side)
    ensures
        backfill_from(rules, trades, pair_ok, acc, side, 0) matches Some((r, m)) ==> {
            &&& 0 <= r < rules.len()
            &&& rules[r].enabled
            &&& rules[r].slave_id@ == acc
            &&& 0 <= m < trades.len()
            &&& trades[m].open
            &&& trades[m].account_id@ == rules[r].master_id@
            &&& trades[m].side == side
            &&& pair_ok[r][m]
            &&& forall|x: int| 0 <= x < trades.len() && trades[x].open && #[trigger] trades[x].account_id@ == rules[r].master_id@
                && trades[x].side == side && pair_ok[r][x] ==> x == m
        },
        (forall|i: int| 0 <= i < rules.len() ==> !(#[trigger] rules[i].enabled && rules[i].slave_id@ == acc))
            ==> backfill_from(rules, trades, pair_ok, acc, side, 0) is None,
        backfill_from(rules, trades, pair_ok, acc, side, 0) matches Some((r, m)) ==>
            forall|i: int, x: int| 0 <= i < r && rules[i].enabled && rules[i].slave_id@ == acc && 0 <= x < trades.len()
                && trades[x].open && trades[x].account_id@ == rules[i].master_id@ && trades[x].side == side ==> !#[trigger] pair_ok[i][x],
        forall|r: int, m: int|
            0 <= r < rules.len() && rules[r].enabled && rules[r].slave_id@ == acc && 0 <= m < trades.len()
            && trades[m].open && trades[m].account_id@ == rules[r].master_id@ && trades[m].side == side && #[trigger] pair_ok[r][m]
            && (forall|x: int| 0 <= x < trades.len() && trades[x].open && trades[x].account_id@ == rules[r].master_id@
                && trades[x].side == side && #[trigger] pair_ok[r][x] ==> x == m)
            && (forall|i: int, x: int| 0 <= i < r && rules[i].enabled && rules[i].slave_id@ == acc && 0 <= x < trades.len()
                && trades[x].open && trades[x].account_id@ == rules[i].master_id@ && trades[x].side == side ==> !#[trigger] pair_ok[i][x])
            ==> backfill_from(rules, trades, pair_ok, acc, side, 0) == Some((r, m)),
{
    lemma_backfill_from_sound(rules, trades, pair_ok, acc, side, 0);
    assert forall|r: int, m: int|
        0 <= r < rules.len() && rules[r].enabled && rules[r].slave_id@ == acc && 0 <= m < trades.len()
        && trades[m].open && trades[m].account_id@ == rules[r].master_id@ && trades[m].side == side && #[trigger] pair_ok[r][m]
        && (forall|x: int| 0 <= x < trades.len() && trades[x].open && trades[x].account_id@ == rules[r].master_id@
            && trades[x].side == side && #[trigger] pair_ok[r][x] ==> x == m)
        && (forall|i: int, x: int| 0 <= i < r && rules[i].enabled && rules[i].slave_id@ == acc && 0 <= x < trades.len()
            && trades[x].open && trades[x].account_id@ == rules[i].master_id@ && trades[x].side == side ==> !#[trigger] pair_ok[i][x])
        implies backfill_from(rules, trades, pair_ok, acc, side, 0) == Some((r, m)) by {
        assert(backfill_eligible(rules, trades, pair_ok, side, r, m));
        assert forall|x: int| 0 <= x < trades.len() && #[trigger] backfill_eligible(rules, trades, pair_ok, side, r, x) implies x == m by {
            assert(pair_ok[r][x]);
        }
        assert forall|i: int, x: int| 0 <= i < r && rules[i].enabled && rules[i].slave_id@ == acc && 0 <= x < trades.len()
            implies !(#[trigger] backfill_eligible(rules, trades, pair_ok, side, i, x)) by {
            if backfill_eligible(rules, trades, pair_ok, side, i, x) {
                assert(pair_ok[i][x]);
            }
        }
    }
    if let Some((r, m)) = backfill_from(rules, trades, pair_ok, acc, side, 0) {
        assert forall|i: int, x: int| 0 <= i < r && rules[i].enabled && rules[i].slave_id@ == acc && 0 <= x < trades.len()
            && trades[x].open && trades[x].account_id@ == rules[i].master_id@ && trades[x].side == side implies !#[trigger] pair_ok[i][x] by {
            assert(!backfill_eligible(rules, trades, pair_ok, side, i, x));
        }
    }
}

/// The rows of a table of flags.
pub open spec fn bool_rows(t: Seq<Vec<bool>>) -> Seq<Seq<bool>> {
    t.map_values(|row: Vec<bool>| row@)
}

/// The back-fill decision for a follower position of account `acc` on
/// `side` that arrived with no origin: `Some((rule, master position))` to
/// link, or `None`. `pair_ok[r][m]` carries the checks made outside: the
/// symbol of `m` translated by rule `r` equals the follower's, the volumes
/// agree within tolerance, and `m` has no follower yet.
pub fn backfill_choice<S>(rules: &Vec<CopyRule<S>>, trades: &Vec<TradeSummary>, pair_ok: &Vec<Vec<bool>>, acc: &String, side: Side) -> (r: Option<(usize, usize)>)
    requires
        pair_ok@.len() == rules@.len(),
        forall|k: int| 0 <= k < pair_ok@.len() ==> (#[trigger] pair_ok@[k])@.len() == trades@.len(),
    ensures
        r == match backfill_from(rules@, trades@, bool_rows(pair_ok@), acc@, side, 0) {
            Some((a, b)) => Some((a as usize, b as usize)),
            None => None::<(usize, usize)>,
        },
{
    let ghost po = bool_rows(pair_ok@);
    let mut ri: usize = 0;
    while ri < rules.len()
        invariant
            ri <= rules@.len(),
            pair_ok@.len() == rules@.len(),
            forall|k: int| 0 <= k < pair_ok@.len() ==> (#[trigger] pair_ok@[k])@.len() == trades@.len(),
            po == bool_rows(pair_ok@),
            backfill_from(rules@, trades@, po, acc@, side, 0) == backfill_from(rules@, trades@, po, acc@, side, ri as int),
        decreases rules@.len() - ri,
    {
        let rule = &rules[ri];
        if rule.enabled && rule.slave_id == *acc {
            let row = &pair_ok[ri];
            assert(po[ri as int] == row@);
            let mut count: usize = 0;
            let mut matched: usize = 0;
            let mut m: usize = 0;
            while m < trades.len()
                invariant
                    m <= trades@.len(),
                    row@.len() == trades@.len(),
                    po[ri as int] == row@,
                    ri < rules@.len(),
                    rule == rules@[ri as int],
                    po == bool_rows(pair_ok@),
                    rules@[ri as int].enabled,
                    rules@[ri as int].slave_id@ == acc@,
                    backfill_from(rules@, trades@, po, acc@, side, 0) == backfill_from(rules@, trades@, po, acc@, side, ri as int),
                    count <= 1,
                    count == eligible_upto(rules@, trades@, po, side, ri as int, m as int).len(),
                    count == 1 ==> matched == eligible_upto(rules@, trades@, po, side, ri as int, m as int)[0],
                decreases trades@.len() - m,
            {
                let t = &trades[m];
                if t.account_id == rule.master_id && t.open && t.side == side && row[m] {
                    if count == 1 {
                        proof {
                            assert(backfill_eligible(rules@, trades@, po, side, ri as int, m as int));
                            assert(eligible_upto(rules@, trades@, po, side, ri as int, m + 1).len() == 2);
                            lemma_eligible_grows(rules@, trades@, po, side, ri as int, m + 1, trades@.len() as int);
                            assert(eligible_upto(rules@, trades@, po, side, ri as int, trades@.len() as int).len() >= 2);
                            assert(backfill_from(rules@, trades@, po, acc@, side, ri as int) is None);
                        }
                        return None;
                    }
                    count = count + 1;
                    matched = m;
                }
                m = m + 1;
            }
            if count == 1 {
                return Some((ri, matched));
            }
        }
        ri = ri + 1;
    }
    None
}

} // verus!

verus! {

/// Whether a newly opened follower position that no mapping claims should
/// be back-filled: no rule found for it, it is not a confirmed mirror, and
/// it carries no origin ticket.
pub fn opened_needs_backfill(rule_id: &String, is_mirror: bool, has_origin: bool) -> (r: bool)
    ensures
        r == (rule_id@.len() == 0 && !is_mirror && !has_origin),
{
    rule_id.unicode_len() == 0 && !is_mirror && !has_origin
}

/// Whether a newly opened position is fanned out to the followers: it is
/// not itself a mirror, and no follower mapping exists for it yet (a
/// pending order that was mirrored before it filled).
pub fn opened_dispatch(is_mirror: bool, already_mapped: bool) -> (r: bool)
    ensures
        r == (!is_mirror && !already_mapped),
{
    !is_mirror && !already_mapped
}

} // verus!

verus! {

// ---- which positions the floating-loss estimate counts ----

/// Journal entry `k` is an open position copied under rule `rule_id`.
pub open spec fn open_under(trades: Seq<TradeSummary>, rule_id: Seq<char>, k: int) -> bool {
    trades[k].open && trades[k].rule_id@ == rule_id
}

/// Entry `k` is the first open position under the rule for its
/// (account, symbol): quotes report the floating loss per symbol, so each
/// pair is counted once.
pub open spec fn counts_for_loss(trades: Seq<TradeSummary>, rule_id: Seq<char>, k: int) -> bool {
    &&& open_under(trades, rule_id, k)
    &&& forall|j: int| 0 <= j < k && open_under(trades, rule_id, j) ==> !(#[trigger] trades[j].account_id@ == trades[k].account_id@ && trades[j].symbol@ == trades[k].symbol@)
}

/// The counted entries among the first `n`, in journal order.
pub open spec fn loss_positions_upto(trades: Seq<TradeSummary>, rule_id: Seq<char>, n: int) -> Seq<int>
    decreases n,
{
    if n <= 0 {
        Seq::empty()
    } else {
        let prev = loss_positions_upto(trades, rule_id, n - 1);
        if counts_for_loss(trades, rule_id, n - 1) {
            prev.push(n - 1)
        } else {
            prev
        }
    }
}

/// Entries `a` and `b` hold the same symbol on the same account.
pub open spec fn same_pair(trades: Seq<TradeSummary>, a: int, b: int) -> bool {
    trades[a].account_id@ == trades[b].account_id@ && trades[a].symbol@ == trades[b].symbol@
}

proof fn lemma_loss_positions(trades: Seq<TradeSummary>, rule_id: Seq<char>, n: int)
    requires
        0 <= n <= trades.len(),
    ensures
        forall|q: int| 0 <= q < loss_positions_upto(trades, rule_id, n).len() ==> {
            let p = #[trigger] loss_positions_upto(trades, rule_id, n)[q];
            0 <= p < n && open_under(trades, rule_id, p)
        },
        forall|j: int| 0 <= j < n && open_under(trades, rule_id, j) ==> exists|q: int| 0 <= q < loss_positions_upto(trades, rule_id, n).len() && same_pair(trades, #[trigger] loss_positions_upto(trades, rule_id, n)[q], j),
    decreases n,
{
    if n > 0 {
        lemma_loss_positions(trades, rule_id, n - 1);
        let prev = loss_positions_upto(trades, rule_id, n - 1);
        let cur = loss_positions_upto(trades, rule_id, n);
        assert forall|j: int| 0 <= j < n && open_under(trades, rule_id, j) implies exists|q: int| 0 <= q < cur.len() && same_pair(trades, #[trigger] cur[q], j) by {
            if j < n - 1 {
                let q = choose|q: int| 0 <= q < prev.len() && same_pair(trades, #[trigger] prev[q], j);
                assert(cur[q] == prev[q]);
            } else if counts_for_loss(trades, rule_id, j) {
                assert(cur[prev.len() as int] == j);
            } else {
                let w = choose|w: int| 0 <= w < j && open_under(trades, rule_id, w) && #[trigger] trades[w].account_id@ == trades[j].account_id@ && trades[w].symbol@ == trades[j].symbol@;
                let q = choose|q: int| 0 <= q < prev.len() && same_pair(trades, #[trigger] prev[q], w);
                assert(cur[q] == prev[q]);
            }
        }
    }
}

proof fn lemma_loss_positions_first(trades: Seq<TradeSummary>, rule_id: Seq<char>, n: int)
    ensures
        forall|q: int| 0 <= q < loss_positions_upto(trades, rule_id, n).len() ==> counts_for_loss(trades, rule_id, #[trigger] loss_positions_upto(trades, rule_id, n)[q]),
        forall|a: int, b: int| 0 <= a < b < loss_positions_upto(trades, rule_id, n).len() ==>
            #[trigger] loss_positions_upto(trades, rule_id, n)[a] < #[trigger] loss_positions_upto(trades, rule_id, n)[b],
        forall|q: int| 0 <= q < loss_positions_upto(trades, rule_id, n).len() ==> #[trigger] loss_positions_upto(trades, rule_id, n)[q] < n,
    decreases n,
{
    if n > 0 {
        lemma_loss_positions_first(trades, rule_id, n - 1);
        let prev = loss_positions_upto(trades, rule_id, n - 1);
        let cur = loss_positions_upto(trades, rule_id, n);
        if counts_for_loss(trades, rule_id, n - 1) {
            assert(cur == prev.push(n - 1));
        } else {
            assert(cur == prev);
        }
    }
}

/// The floating-loss estimate of rule `rule_id` counts only open positions
/// tagged with that rule, each the earliest open one under the rule for its
/// (account, symbol), in journal order, and it covers every (account,
/// symbol) that has an open position under the rule.
pub proof fn lemma_floating_loss_counts(trades: Seq<TradeSummary>, rule_id: Seq<char>)
    ensures
        forall|q: int| 0 <= q < loss_positions_upto(trades, rule_id, trades.len() as int).len() ==> {
            let p = #[trigger] loss_positions_upto(trades, rule_id, trades.len() as int)[q];
            &&& 0 <= p < trades.len()
            &&& trades[p].open
            &&& trades[p].rule_id@ == rule_id
            &&& forall|j: int| 0 <= j < p && trades[j].open && trades[j].rule_id@ == rule_id ==>
                !(#[trigger] trades[j].account_id@ == trades[p].account_id@ && trades[j].symbol@ == trades[p].symbol@)
        },
        forall|a: int, b: int| 0 <= a < b < loss_positions_upto(trades, rule_id, trades.len() as int).len() ==>
            #[trigger] loss_positions_upto(trades, rule_id, trades.len() as int)[a] < #[trigger] loss_positions_upto(trades, rule_id, trades.len() as int)[b],
        forall|j: int| 0 <= j < trades.len() && #[trigger] trades[j].open && trades[j].rule_id@ == rule_id ==>
            exists|q: int| 0 <= q < loss_positions_upto(trades, rule_id, trades.len() as int).len() && {
                let p = #[trigger] loss_positions_upto(trades, rule_id, trades.len() as int)[q];
                trades[p].account_id@ == trades[j].account_id@ && trades[p].symbol@ == trades[j].symbol@
            },
{
    let n = trades.len() as int;
    lemma_loss_positions(trades, rule_id, n);
    lemma_loss_positions_first(trades, rule_id, n);
    let picks = loss_positions_upto(trades, rule_id, n);
    assert forall|j: int| 0 <= j < trades.len() && #[trigger] trades[j].open && trades[j].rule_id@ == rule_id implies
        exists|q: int| 0 <= q < picks.len() && {
            let p = #[trigger] picks[q];
            trades[p].account_id@ == trades[j].account_id@ && trades[p].symbol@ == trades[j].symbol@
        } by {
        assert(open_under(trades, rule_id, j));
        let q = choose|q: int| 0 <= q < picks.len() && same_pair(trades, #[trigger] picks[q], j);
        assert(same_pair(trades, picks[q], j));
    }
}

/// The journal entries whose (account, symbol) the floating-loss estimate
/// of rule `rule_id` counts: the first open position under the rule for
/// each pair, in journal order.
pub fn floating_loss_positions(trades: &Vec<TradeSummary>, rule_id: &String) -> (r: Vec<usize>)
    ensures
        r@.map_values(|x: usize| x as int) == loss_positions_upto(trades@, rule_id@, trades@.len() as int),
{
    let mut out: Vec<usize> = Vec::new();
    let mut k: usize = 0;
    assert(out@.map_values(|x: usize| x as int) =~= Seq::<int>::empty());
    while k < trades.len()
        invariant
            k <= trades@.len(),
            out@.map_values(|x: usize| x as int) == loss_positions_upto(trades@, rule_id@, k as int),
        decreases trades@.len() - k,
    {
        proof {
            lemma_loss_positions(trades@, rule_id@, k as int);
        }
        let ghost picks = loss_positions_upto(trades@, rule_id@, k as int);
        let t = &trades[k];
        if t.open && t.rule_id == *rule_id {
            let mut dup = false;
            let mut q: usize = 0;
            while q < out.len()
                invariant
                    q <= out@.len(),
                    out@.map_values(|x: usize| x as int) == picks,
                    forall|z: int| 0 <= z < picks.len() ==> 0 <= #[trigger] picks[z] < trades@.len(),
                    k < trades@.len(),
                    t.account_id@ == trades@[k as int].account_id@,
                    t.symbol@ == trades@[k as int].symbol@,
                    dup <==> exists|z: int| 0 <= z < q && same_pair(trades@, #[trigger] picks[z], k as int),
                decreases out@.len() - q,
            {
                let p = out[q];
                assert(picks[q as int] == p as int);
                if trades[p].account_id == t.account_id && trades[p].symbol == t.symbol {
                    dup = true;
                    assert(same_pair(trades@, picks[q as int], k as int));
                }
                q = q + 1;
            }
            proof {
                if dup {
                    let z = choose|z: int| 0 <= z < picks.len() && same_pair(trades@, #[trigger] picks[z], k as int);
                    let w = picks[z];
                    assert(0 <= w < k && open_under(trades@, rule_id@, w));
                    assert(trades@[w].account_id@ == trades@[k as int].account_id@ && trades@[w].symbol@ == trades@[k as int].symbol@);
                    assert(!counts_for_loss(trades@, rule_id@, k as int));
                } else {
                    assert forall|j: int| 0 <= j < k && open_under(trades@, rule_id@, j) implies !(#[trigger] trades@[j].account_id@ == trades@[k as int].account_id@ && trades@[j].symbol@ == trades@[k as int].symbol@) by {
                        let z = choose|z: int| 0 <= z < picks.len() && same_pair(trades@, #[trigger] picks[z], j);
                        if trades@[j].account_id@ == trades@[k as int].account_id@ && trades@[j].symbol@ == trades@[k as int].symbol@ {
                            assert(same_pair(trades@, picks[z], k as int));
                        }
                    }
                    assert(counts_for_loss(trades@, rule_id@, k as int));
                }
            }
            if !dup {
                out.push(k);
                proof {
                    assert(out@.map_values(|x: usize| x as int) =~= picks.push(k as int));
                }
            }
        }
        k = k + 1;
    }
    out
}

} // verus!

verus! {

// ---- the rule a newly opened position is tagged with ----

/// Whether the rule of a follower position must be looked up again: the
/// position was just confirmed as a mirror, which registers its mapping,
/// and no rule was found before that.
pub fn mirror_needs_relookup(found: &String, is_mirror: bool) -> (r: bool)
    ensures
        r == (is_mirror && found@.len() == 0),
{
    is_mirror && found.unicode_len() == 0
}

/// The rule found for a position: the first lookup, or the second one when
/// a second was needed and made.
pub open spec fn found_rule(first: Seq<char>, is_mirror: bool, second: Option<Seq<char>>) -> Seq<char> {
    if is_mirror && first.len() == 0 && second is Some {
        second->0
    } else {
        first
    }
}

/// The rule a newly opened position is tagged with: the rule id found by
/// back-filling when back-filling was due and linked it; else the rule found
/// for it, when one was; else the tag it arrived with.
pub open spec fn opened_tag(own: Seq<char>, found: Seq<char>, is_mirror: bool, has_origin: bool, backfilled: Option<Seq<char>>) -> Seq<char> {
    if found.len() == 0 && !is_mirror && !has_origin && backfilled is Some {
        backfilled->0
    } else if found.len() > 0 {
        found
    } else {
        own
    }
}

/// The rule found for a position after the optional second lookup.
pub fn settle_found_rule(first: String, is_mirror: bool, second: Option<String>) -> (r: String)
    ensures
        r@ == found_rule(first@, is_mirror, match second { Some(s) => Some(s@), None => None }),
{
    if is_mirror && first.unicode_len() == 0 {
        match second {
            Some(s) => s,
            None => first,
        }
    } else {
        first
    }
}

/// The rule tag of a newly opened position (see `opened_tag`); `backfilled`
/// is the rule id back-filling linked, if it ran and linked one.
pub fn opened_rule_tag(own: String, found: String, is_mirror: bool, has_origin: bool, backfilled: Option<String>) -> (tag: String)
    ensures
        tag@ == opened_tag(own@, found@, is_mirror, has_origin, match backfilled { Some(s) => Some(s@), None => None }),
{
    if found.unicode_len() == 0 && !is_mirror && !has_origin {
        if let Some(f) = backfilled {
            return f;
        }
    }
    if found.unicode_len() > 0 {
        found
    } else {
        own
    }
}

/// A position for which the ticket map already knows a rule is tagged with
/// that rule, whatever the mirror confirmation and back-filling give.
pub proof fn lemma_known_rule_tags_position(own: Seq<char>, first: Seq<char>, is_mirror: bool, second: Option<Seq<char>>, has_origin: bool, backfilled: Option<Seq<char>>)
    requires
        first.len() > 0,
    ensures
        opened_tag(own, found_rule(first, is_mirror, second), is_mirror, has_origin, backfilled) == first,
{
}

// ---- cTrader logins found on disk ----

/// Some account of `platform` has login `login`.
pub open spec fn has_login(accounts: Seq<crate::model::Account>, platform: crate::model::Platform, login: Seq<char>) -> bool {
    exists|k: int| 0 <= k < accounts.len() && (#[trigger] accounts[k]).platform == platform && accounts[k].login@ == login
}

/// The logins among the first `n` candidates that a discovery pass
/// registers, in order: non-empty, not the TradingView folder, with no
/// cTrader account yet, and not registered earlier in the pass.
pub open spec fn ctrader_picks(accounts: Seq<crate::model::Account>, candidates: Seq<Seq<char>>, tv_folder: Seq<char>, n: int) -> Seq<Seq<char>>
    decreases n,
{
    if n <= 0 {
        Seq::empty()
    } else {
        let prev = ctrader_picks(accounts, candidates, tv_folder, n - 1);
        let c = candidates[n - 1];
        if c.len() > 0 && c != tv_folder && !has_login(accounts, crate::model::Platform::CTrader, c) && !prev.contains(c) {
            prev.push(c)
        } else {
            prev
        }
    }
}

/// The logins a cTrader discovery pass registers, given the accounts held
/// and the candidate folder names (those that are directories with an event
/// stream), in the order found.
pub fn ctrader_logins_to_register(accounts: &Vec<crate::model::Account>, candidates: &Vec<String>, tv_folder: &String) -> (r: Vec<String>)
    ensures
        views(r@) == ctrader_picks(accounts@, views(candidates@), tv_folder@, candidates@.len() as int),
{
    let mut out: Vec<String> = Vec::new();
    let mut i: usize = 0;
    assert(views(out@) =~= Seq::<Seq<char>>::empty());
    while i < candidates.len()
        invariant
            i <= candidates@.len(),
            views(out@) == ctrader_picks(accounts@, views(candidates@), tv_folder@, i as int),
        decreases candidates@.len() - i,
    {
        let c = &candidates[i];
        assert(views(candidates@)[i as int] == c@);
        let mut known = false;
        let mut k: usize = 0;
        while k < accounts.len()
            invariant
                k <= accounts@.len(),
                known <==> exists|q: int| 0 <= q < k && (#[trigger] accounts@[q]).platform == crate::model::Platform::CTrader && accounts@[q].login@ == c@,
            decreases accounts@.len() - k,
        {
            if crate::accounts::account_matches(&accounts[k], crate::model::Platform::CTrader, c.as_str()) {
                known = true;
            }
            k = k + 1;
        }
        let repeated = texts_contain(&out, c);
        if c.unicode_len() > 0 && *c != *tv_folder && !known && !repeated {
            out.push(c.clone());
            assert(views(out@) =~= ctrader_picks(accounts@, views(candidates@), tv_folder@, i as int).push(c@));
        }
        i = i + 1;
    }
    out
}

/// No two cTrader accounts share a login.
pub open spec fn ctrader_logins_unique(accounts: Seq<crate::model::Account>) -> bool {
    forall|i: int, j: int|
        #![trigger accounts[i], accounts[j]]
        0 <= i < j < accounts.len() && accounts[i].platform == crate::model::Platform::CTrader
            && accounts[j].platform == crate::model::Platform::CTrader ==> accounts[i].login@ != accounts[j].login@
}

/// One cTrader discovery pass: appends a fresh idle cTrader account, under a
/// random id, for each login that `ctrader_logins_to_register` picks, and
/// returns how many were added. Accounts already held are left as they are;
/// no account is added for a login that already has a cTrader account, and
/// where cTrader logins were unique before they still are.
pub fn register_ctrader_accounts(accounts: &mut Vec<crate::model::Account>, candidates: &Vec<String>, tv_folder: &String) -> (added: usize)
    ensures
        added == ctrader_picks(old(accounts)@, views(candidates@), tv_folder@, candidates@.len() as int).len(),
        final(accounts)@.len() == old(accounts)@.len() + added,
        final(accounts)@.subrange(0, old(accounts)@.len() as int) == old(accounts)@,
        forall|k: int| 0 <= k < added ==> {
            let a = #[trigger] final(accounts)@[old(accounts)@.len() + k];
            let login = ctrader_picks(old(accounts)@, views(candidates@), tv_folder@, candidates@.len() as int)[k];
            &&& crate::accounts::is_uuid_v4_text(a.id@)
            &&& crate::accounts::fresh_account(a, a.id@, crate::model::Platform::CTrader, "cTrader "@ + login, login, ""@, crate::model::AccountRole::Idle)
        },
        forall|k: int| old(accounts)@.len() <= k < final(accounts)@.len() ==>
            !has_login(old(accounts)@, crate::model::Platform::CTrader, #[trigger] final(accounts)@[k].login@),
        ctrader_logins_unique(old(accounts)@) ==> ctrader_logins_unique(final(accounts)@),
{
    let ghost before = accounts@;
    let logins = ctrader_logins_to_register(accounts, candidates, tv_folder);
    let ghost picks = ctrader_picks(before, views(candidates@), tv_folder@, candidates@.len() as int);
    proof {
        lemma_ctrader_no_duplicates(before, views(candidates@), tv_folder@, candidates@.len() as int);
    }
    let mut i: usize = 0;
    while i < logins.len()
        invariant
            i <= logins@.len(),
            views(logins@) == picks,
            picks == ctrader_picks(before, views(candidates@), tv_folder@, candidates@.len() as int),
            accounts@.len() == before.len() + i,
            accounts@.subrange(0, before.len() as int) == before,
            forall|k: int| 0 <= k < i ==> {
                let a = #[trigger] accounts@[before.len() + k];
                &&& crate::accounts::is_uuid_v4_text(a.id@)
                &&& crate::accounts::fresh_account(a, a.id@, crate::model::Platform::CTrader, "cTrader "@ + picks[k], picks[k], ""@, crate::model::AccountRole::Idle)
            },
        decreases logins@.len() - i,
    {
        let a = crate::accounts::discover_ctrader_account(logins[i].as_str());
        proof {
            assert(views(logins@)[i as int] == logins@[i as int]@);
        }
        let ghost pre = accounts@;
        accounts.push(a);
        proof {
            assert(accounts@.subrange(0, before.len() as int) =~= pre.subrange(0, before.len() as int));
            assert forall|k: int| 0 <= k < i + 1 implies {
                let a = #[trigger] accounts@[before.len() + k];
                &&& crate::accounts::is_uuid_v4_text(a.id@)
                &&& crate::accounts::fresh_account(a, a.id@, crate::model::Platform::CTrader, "cTrader "@ + picks[k], picks[k], ""@, crate::model::AccountRole::Idle)
            } by {
                if k < i {
                    assert(accounts@[before.len() + k] == pre[before.len() + k]);
                }
            }
        }
        i = i + 1;
    }
    proof {
        let after = accounts@;
        let n = before.len() as int;
        assert forall|k: int| n <= k < after.len() implies !has_login(before, crate::model::Platform::CTrader, #[trigger] after[k].login@) by {
            assert(after[n + (k - n)].login@ == picks[k - n]);
        }
        if ctrader_logins_unique(before) {
            assert forall|i: int, j: int|
                #![trigger after[i], after[j]]
                0 <= i < j < after.len() && after[i].platform == crate::model::Platform::CTrader
                    && after[j].platform == crate::model::Platform::CTrader implies after[i].login@ != after[j].login@ by {
                if j < n {
                    assert(after[i] == after.subrange(0, n)[i]);
                    assert(after[j] == after.subrange(0, n)[j]);
                    assert(before[i] == after[i]);
                    assert(before[j] == after[j]);
                } else if i < n {
                    assert(after[i] == after.subrange(0, n)[i]);
                    assert(before[i] == after[i]);
                    assert(after[n + (j - n)].login@ == picks[j - n]);
                    if after[i].login@ == after[j].login@ {
                        assert(has_login(before, crate::model::Platform::CTrader, after[j].login@));
                    }
                } else {
                    assert(after[n + (i - n)].login@ == picks[i - n]);
                    assert(after[n + (j - n)].login@ == picks[j - n]);
                }
            }
        }
    }
    i
}

/// A discovery pass never registers a login that already has a cTrader
/// account, the TradingView folder or an empty name, and registers each
/// login at most once.
pub proof fn lemma_ctrader_no_duplicates(accounts: Seq<crate::model::Account>, candidates: Seq<Seq<char>>, tv_folder: Seq<char>, n: int)
    ensures
        forall|k: int| 0 <= k < ctrader_picks(accounts, candidates, tv_folder, n).len() ==> {
            let c = #[trigger] ctrader_picks(accounts, candidates, tv_folder, n)[k];
            &&& c.len() > 0
            &&& c != tv_folder
            &&& !has_login(accounts, crate::model::Platform::CTrader, c)
        },
        ctrader_picks(accounts, candidates, tv_folder, n).no_duplicates(),
    decreases n,
{
    if n > 0 {
        lemma_ctrader_no_duplicates(accounts, candidates, tv_folder, n - 1);
    }
}

} // verus!

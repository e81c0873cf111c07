use vstd::prelude::*;
use crate::model::CopyRule;

verus! {

/// Some rule in `rules` has id `id`.
pub open spec fn has_id<S>(rules: Seq<CopyRule<S>>, id: Seq<char>) -> bool {
    exists|i: int| 0 <= i < rules.len() && (#[trigger] rules[i]).id@ == id
}

/// `i` is the first position of a rule with id `id`.
pub open spec fn first_with_id<S>(rules: Seq<CopyRule<S>>, id: Seq<char>, i: int) -> bool {
    &&& 0 <= i < rules.len()
    &&& rules[i].id@ == id
    &&& forall|j: int| 0 <= j < i ==> (#[trigger] rules[j]).id@ != id
}

/// The first position of a rule with id `id` (meaningful when `has_id`).
pub open spec fn first_index<S>(rules: Seq<CopyRule<S>>, id: Seq<char>) -> int {
    choose|i: int| first_with_id(rules, id, i)
}

/// The rule with id `id`, the first one if several carry it.
pub open spec fn lookup<S>(rules: Seq<CopyRule<S>>, id: Seq<char>) -> Option<CopyRule<S>> {
    if has_id(rules, id) {
        Some(rules[first_index(rules, id)])
    } else {
        None
    }
}

/// The rule book after saving `rule`: it replaces the first rule with the
/// same id, or is appended when there is none.
pub open spec fn upserted<S>(rules: Seq<CopyRule<S>>, rule: CopyRule<S>) -> Seq<CopyRule<S>> {
    if has_id(rules, rule.id@) {
        rules.update(first_index(rules, rule.id@), rule)
    } else {
        rules.push(rule)
    }
}

/// The rule book after deleting id `id`: every rule with that id is gone,
/// the others stay in order.
pub open spec fn without_id<S>(rules: Seq<CopyRule<S>>, id: Seq<char>) -> Seq<CopyRule<S>> {
    rules.filter(other_than(id))
}

/// The test that keeps rules whose id is not `id`.
pub open spec fn other_than<S>(id: Seq<char>) -> spec_fn(CopyRule<S>) -> bool {
    |r: CopyRule<S>| r.id@ != id
}

/// No two rules share an id.
pub open spec fn ids_unique<S>(rules: Seq<CopyRule<S>>) -> bool {
    forall|i: int, j: int|
        #![trigger rules[i], rules[j]]
        0 <= i < rules.len() && 0 <= j < rules.len() && i != j ==> rules[i].id@ != rules[j].id@
}

pub proof fn lemma_first_index<S>(rules: Seq<CopyRule<S>>, id: Seq<char>)
    requires
        has_id(rules, id),
    ensures
        first_with_id(rules, id, first_index(rules, id)),
    decreases rules.len(),
{
    let k = choose|k: int| 0 <= k < rules.len() && (#[trigger] rules[k]).id@ == id;
    let t = rules.drop_last();
    if has_id(t, id) {
        lemma_first_index(t, id);
        let f = first_index(t, id);
        assert forall|j: int| 0 <= j < f implies (#[trigger] rules[j]).id@ != id by {
            assert(t[j] == rules[j]);
        }
        assert(t[f] == rules[f]);
        assert(first_with_id(rules, id, f));
    } else {
        if k < rules.len() - 1 {
            assert(t[k] == rules[k]);
        }
        assert forall|j: int| 0 <= j < rules.len() - 1 implies (#[trigger] rules[j]).id@ != id by {
            assert(t[j] == rules[j]);
        }
        assert(first_with_id(rules, id, rules.len() - 1));
    }
}

pub proof fn lemma_first_unique<S>(rules: Seq<CopyRule<S>>, id: Seq<char>, i: int)
    requires
        first_with_id(rules, id, i),
    ensures
        has_id(rules, id),
        first_index(rules, id) == i,
{
    assert(rules[i].id@ == id);
    lemma_first_index(rules, id);
    let f = first_index(rules, id);
    if f < i {
        assert(rules[f].id@ == id);
    } else if f > i {
        assert(rules[i].id@ != id);
    }
}

/// Position of the first rule with id `id`, if any.
pub fn rule_position<S>(rules: &Vec<CopyRule<S>>, id: &String) -> (r: Option<usize>)
    ensures
        match r {
            Some(i) => first_with_id(rules@, id@, i as int),
            None => !has_id(rules@, id@),
        },
{
    let mut i: usize = 0;
    while i < rules.len()
        invariant
            i <= rules@.len(),
            forall|j: int| 0 <= j < i ==> (#[trigger] rules@[j]).id@ != id@,
        decreases rules@.len() - i,
    {
        if rules[i].id == *id {
            return Some(i);
        }
        i = i + 1;
    }
    None
}

/// The rule with id `id` (the first, should several carry it).
pub fn find_rule<'a, S>(rules: &'a Vec<CopyRule<S>>, id: &String) -> (r: Option<&'a CopyRule<S>>)
    ensures
        match lookup(rules@, id@) {
            Some(x) => r matches Some(y) && *y == x,
            None => r is None,
        },
{
    match rule_position(rules, id) {
        Some(i) => {
            proof {
                lemma_first_unique(rules@, id@, i as int);
            }
            Some(&rules[i])
        },
        None => None,
    }
}

/// Saves `rule`: replaces the first rule with the same id, or appends it.
/// Returns the position it was saved at.
pub fn upsert_rule<S>(rules: &mut Vec<CopyRule<S>>, rule: CopyRule<S>) -> (at: usize)
    ensures
        final(rules)@ == upserted(old(rules)@, rule),
        at < final(rules)@.len(),
        final(rules)@[at as int] == rule,
{
    match rule_position(rules, &rule.id) {
        Some(i) => {
            proof {
                lemma_first_unique(old(rules)@, rule.id@, i as int);
            }
            rules.set(i, rule);
            i
        },
        None => {
            rules.push(rule);
            rules.len() - 1
        },
    }
}

/// Deletes every rule with id `id`; the others keep their order.
pub fn delete_rule<S>(rules: &mut Vec<CopyRule<S>>, id: &String)
    ensures
        final(rules)@ == without_id(old(rules)@, id@),
{
    let ghost orig = rules@;
    let ghost pred = other_than::<S>(id@);
    let mut rest: Vec<CopyRule<S>> = Vec::new();
    std::mem::swap(&mut rest, rules);
    let mut kept: Vec<CopyRule<S>> = Vec::new();
    let ghost mut done: int = 0;
    proof {
        reveal_with_fuel(Seq::<_>::filter, 1);
        assert(orig.take(0) =~= Seq::<CopyRule<S>>::empty());
        assert(rest@ =~= orig.skip(0));
    }
    while rest.len() > 0
        invariant
            0 <= done <= orig.len(),
            rest@ == orig.skip(done),
            pred == other_than::<S>(id@),
            kept@ == orig.take(done).filter(pred),
        decreases rest@.len(),
    {
        let r = rest.remove(0);
        proof {
            reveal_with_fuel(Seq::<_>::filter, 1);
            assert(r == orig[done]);
            assert(orig.take(done + 1).drop_last() =~= orig.take(done));
            assert(orig.take(done + 1).last() == orig[done]);
        }
        if r.id != *id {
            kept.push(r);
        }
        proof {
            done = done + 1;
            assert(rest@ =~= orig.skip(done));
        }
    }
    proof {
        assert(done == orig.len());
        assert(orig.take(done) =~= orig);
    }
    *rules = kept;
}

// ---- laws of the rule book ----

/// Reading a rule back after saving it gives the saved rule.
pub proof fn lemma_upsert_then_lookup<S>(rules: Seq<CopyRule<S>>, rule: CopyRule<S>)
    ensures
        lookup(upserted(rules, rule), rule.id@) == Some(rule),
{
    let u = upserted(rules, rule);
    if has_id(rules, rule.id@) {
        lemma_first_index(rules, rule.id@);
        let f = first_index(rules, rule.id@);
        assert(first_with_id(u, rule.id@, f));
        lemma_first_unique(u, rule.id@, f);
    } else {
        let n = rules.len() as int;
        assert(u[n] == rule);
        assert forall|j: int| 0 <= j < n implies (#[trigger] u[j]).id@ != rule.id@ by {
            assert(u[j] == rules[j]);
        }
        assert(first_with_id(u, rule.id@, n));
        lemma_first_unique(u, rule.id@, n);
    }
}

/// Saving a rule leaves the lookup of every other id as it was.
pub proof fn lemma_upsert_keeps_others<S>(rules: Seq<CopyRule<S>>, rule: CopyRule<S>, id: Seq<char>)
    requires
        id != rule.id@,
    ensures
        lookup(upserted(rules, rule), id) == lookup(rules, id),
{
    let u = upserted(rules, rule);
    if has_id(rules, id) {
        lemma_first_index(rules, id);
        let f = first_index(rules, id);
        if has_id(rules, rule.id@) {
            lemma_first_index(rules, rule.id@);
        }
        assert(u[f] == rules[f]);
        assert forall|j: int| 0 <= j < f implies (#[trigger] u[j]).id@ != id by {
            if has_id(rules, rule.id@) && j == first_index(rules, rule.id@) {
            } else {
                assert(u[j] == rules[j]);
            }
        }
        assert(first_with_id(u, id, f));
        lemma_first_unique(u, id, f);
    } else {
        if has_id(u, id) {
            let k = choose|k: int| 0 <= k < u.len() && (#[trigger] u[k]).id@ == id;
            if has_id(rules, rule.id@) {
                lemma_first_index(rules, rule.id@);
                if k != first_index(rules, rule.id@) {
                    assert(u[k] == rules[k]);
                }
            } else if k < rules.len() {
                assert(u[k] == rules[k]);
            }
            assert(false);
        }
    }
}

/// Saving a rule keeps ids unique.
pub proof fn lemma_upsert_keeps_ids_unique<S>(rules: Seq<CopyRule<S>>, rule: CopyRule<S>)
    requires
        ids_unique(rules),
    ensures
        ids_unique(upserted(rules, rule)),
        upserted(rules, rule).len() == if has_id(rules, rule.id@) {
            rules.len()
        } else {
            rules.len() + 1
        },
{
    let u = upserted(rules, rule);
    if has_id(rules, rule.id@) {
        lemma_first_index(rules, rule.id@);
        let f = first_index(rules, rule.id@);
        assert forall|i: int, j: int|
            #![trigger u[i], u[j]]
            0 <= i < u.len() && 0 <= j < u.len() && i != j implies u[i].id@ != u[j].id@ by {
            if i == f {
                assert(rules[f].id@ == rule.id@);
                assert(rules[j].id@ != rules[f].id@);
            } else if j == f {
                assert(rules[i].id@ != rules[f].id@);
            } else {
                assert(rules[i].id@ != rules[j].id@);
            }
        }
    } else {
        let n = rules.len() as int;
        assert forall|i: int, j: int|
            #![trigger u[i], u[j]]
            0 <= i < u.len() && 0 <= j < u.len() && i != j implies u[i].id@ != u[j].id@ by {
            if i == n {
                assert(u[j] == rules[j]);
            } else if j == n {
                assert(u[i] == rules[i]);
            } else {
                assert(rules[i].id@ != rules[j].id@);
            }
        }
    }
}

/// Saving the same rule twice is the same as saving it once.
pub proof fn lemma_upsert_idempotent<S>(rules: Seq<CopyRule<S>>, rule: CopyRule<S>)
    ensures
        upserted(upserted(rules, rule), rule) == upserted(rules, rule),
{
    let u = upserted(rules, rule);
    lemma_upsert_then_lookup(rules, rule);
    if has_id(rules, rule.id@) {
        lemma_first_index(rules, rule.id@);
        let f = first_index(rules, rule.id@);
        assert(first_with_id(u, rule.id@, f));
        lemma_first_unique(u, rule.id@, f);
        assert(u.update(f, rule) =~= u);
    } else {
        let n = rules.len() as int;
        assert forall|j: int| 0 <= j < n implies (#[trigger] u[j]).id@ != rule.id@ by {
            assert(u[j] == rules[j]);
        }
        assert(first_with_id(u, rule.id@, n));
        lemma_first_unique(u, rule.id@, n);
        assert(u.update(n, rule) =~= u);
    }
}

proof fn lemma_filter_all<S>(s: Seq<CopyRule<S>>, pred: spec_fn(CopyRule<S>) -> bool)
    requires
        forall|i: int| 0 <= i < s.len() ==> pred(#[trigger] s[i]),
    ensures
        s.filter(pred) == s,
    decreases s.len(),
{
    reveal_with_fuel(Seq::<_>::filter, 1);
    if s.len() > 0 {
        let t = s.drop_last();
        assert forall|i: int| 0 <= i < t.len() implies pred(#[trigger] t[i]) by {
            assert(t[i] == s[i]);
        }
        lemma_filter_all(t, pred);
        assert(pred(s[s.len() - 1]));
        assert(t.push(s.last()) =~= s);
    }
}

proof fn lemma_filter_none<S>(s: Seq<CopyRule<S>>, pred: spec_fn(CopyRule<S>) -> bool, x: CopyRule<S>)
    requires
        forall|i: int| 0 <= i < s.len() ==> pred(#[trigger] s[i]),
        !pred(x),
    ensures
        s.push(x).filter(pred) == s,
{
    reveal_with_fuel(Seq::<_>::filter, 1);
    lemma_filter_all(s, pred);
    assert(s.push(x).drop_last() =~= s);
}

/// Deleting a rule that was just added under a new id gives back the rule
/// book as it was.
pub proof fn lemma_delete_undoes_new_upsert<S>(rules: Seq<CopyRule<S>>, rule: CopyRule<S>)
    requires
        !has_id(rules, rule.id@),
    ensures
        without_id(upserted(rules, rule), rule.id@) == rules,
{
    let pred = other_than(rule.id@);
    assert forall|i: int| 0 <= i < rules.len() implies pred(#[trigger] rules[i]) by {}
    lemma_filter_none(rules, pred, rule);
}

/// After deleting an id, no rule carries it, and every other id is found
/// exactly when it was found before.
pub proof fn lemma_delete_then_lookup<S>(rules: Seq<CopyRule<S>>, id: Seq<char>, other: Seq<char>)
    requires
        other != id,
    ensures
        lookup(without_id(rules, id), id) is None,
        has_id(without_id(rules, id), other) == has_id(rules, other),
{
    let pred = other_than(id);
    let d = without_id(rules, id);
    if has_id(d, id) {
        let k = choose|k: int| 0 <= k < d.len() && (#[trigger] d[k]).id@ == id;
        rules.lemma_filter_pred(pred, k);
        assert(pred(d[k]));
    }
    if has_id(rules, other) {
        let k = choose|k: int| 0 <= k < rules.len() && (#[trigger] rules[k]).id@ == other;
        assert(pred(rules[k]));
        rules.lemma_filter_contains(pred, k);
        assert(d.contains(rules[k]));
        let q = choose|q: int| 0 <= q < d.len() && d[q] == rules[k];
        assert(d[q].id@ == other);
    }
    if has_id(d, other) {
        let k = choose|k: int| 0 <= k < d.len() && (#[trigger] d[k]).id@ == other;
        assert(d.contains(d[k]));
        rules.lemma_filter_contains_rev(pred, d[k]);
        let q = choose|q: int| 0 <= q < rules.len() && rules[q] == d[k];
        assert(rules[q].id@ == other);
    }
}

} // verus!

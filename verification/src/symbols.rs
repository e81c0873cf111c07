use vstd::prelude::*;
use crate::order::{lex_le, stable_sorted, stable_arrangement, views, sort_by_keys, lemma_arrangement_onto, lemma_stable_sort_of_sorted};
use crate::text::{trim, trim_str, str_equal, ascii_upper, ascii_upper_chars, lemma_trim_idempotent};

verus! {

/// The full Unicode upper-casing of a text, as `str::to_uppercase` computes
/// it from the Unicode case tables.
pub uninterp spec fn unicode_uppercase(s: Seq<char>) -> Seq<char>;

/// Whether every char of `s` is ASCII.
pub open spec fn all_ascii(s: Seq<char>) -> bool {
    forall|i: int| 0 <= i < s.len() ==> (#[trigger] s[i] as u32) < 128
}

/// `str::to_uppercase` (std). Its case tables take pages, so the contract
/// names the result: the upper-casing of the argument's chars, the same for
/// the same chars. On ASCII text it is the ASCII upper-casing (std points to
/// `to_uppercase` as the form of `to_ascii_uppercase` that also covers
/// non-ASCII chars); beyond ASCII nothing more is stated.
#[verifier::external_body]
fn to_uppercase(s: &str) -> (r: String)
    ensures
        r@ == unicode_uppercase(s@),
        all_ascii(s@) ==> r@ == ascii_upper(s@),
{
    s.to_uppercase()
}

/// Whether some text in `prev` upper-cases to the same text as `t`.
pub open spec fn seen_upper(prev: Seq<Seq<char>>, t: Seq<char>) -> bool {
    exists|k: int| 0 <= k < prev.len() && unicode_uppercase(#[trigger] prev[k]) == unicode_uppercase(t)
}

/// The symbols that survive canonicalisation, in input order: each trimmed,
/// blanks dropped, and of those that upper-case alike only the first kept.
pub open spec fn dedupe_trimmed(symbols: Seq<Seq<char>>) -> Seq<Seq<char>>
    decreases symbols.len(),
{
    if symbols.len() == 0 {
        Seq::empty()
    } else {
        let prev = dedupe_trimmed(symbols.drop_last());
        let t = trim(symbols.last());
        if t.len() == 0 || seen_upper(prev, t) {
            prev
        } else {
            prev.push(t)
        }
    }
}

/// The sort key of a symbol: its ASCII upper-casing.
pub open spec fn symbol_key(s: Seq<char>) -> Seq<char> {
    ascii_upper(s)
}

/// The canonical form of a symbol list: `dedupe_trimmed` of it, stably
/// sorted by ASCII upper-case.
pub open spec fn is_canonical_form(out: Seq<Seq<char>>, symbols: Seq<Seq<char>>) -> bool {
    stable_sorted(out, dedupe_trimmed(symbols), |s: Seq<char>| symbol_key(s))
}

fn dedupe_symbols(symbols: &Vec<String>) -> (kept: Vec<String>)
    ensures
        views(kept@) == dedupe_trimmed(views(symbols@)),
{
    let n = symbols.len();
    let mut kept: Vec<String> = Vec::new();
    let mut seen: Vec<String> = Vec::new();
    let mut i: usize = 0;
    proof {
        assert(views(symbols@).take(0) =~= Seq::<Seq<char>>::empty());
        assert(views(kept@) =~= Seq::<Seq<char>>::empty());
    }
    while i < n
        invariant
            n == symbols@.len(),
            i <= n,
            views(kept@) == dedupe_trimmed(views(symbols@).take(i as int)),
            seen@.len() == kept@.len(),
            forall|k: int| 0 <= k < seen@.len() ==> (#[trigger] seen@[k])@ == unicode_uppercase(
                kept@[k]@,
            ),
        decreases n - i,
    {
        let ghost prefix = views(symbols@).take(i as int);
        let ghost next = views(symbols@).take(i + 1);
        proof {
            assert(next.drop_last() =~= prefix);
            assert(next.last() == symbols@[i as int]@);
        }
        let t = trim_str(symbols[i].as_str());
        if t.unicode_len() > 0 {
            let up = to_uppercase(t);
            let mut found = false;
            let mut k: usize = 0;
            while k < seen.len()
                invariant
                    k <= seen@.len(),
                    found <==> exists|q: int| 0 <= q < k && (#[trigger] seen@[q])@ == up@,
                decreases seen@.len() - k,
            {
                if str_equal(seen[k].as_str(), up.as_str()) {
                    found = true;
                }
                k = k + 1;
            }
            proof {
                let prev = views(kept@);
                if found {
                    let q = choose|q: int| 0 <= q < seen@.len() && (#[trigger] seen@[q])@ == up@;
                    assert(unicode_uppercase(prev[q]) == unicode_uppercase(t@));
                    assert(seen_upper(prev, t@));
                } else {
                    if seen_upper(prev, t@) {
                        let q = choose|q: int|
                            0 <= q < prev.len() && unicode_uppercase(#[trigger] prev[q])
                                == unicode_uppercase(t@);
                        assert(seen@[q]@ == up@);
                        assert(false);
                    }
                }
            }
            if !found {
                let owned = String::from_str(t);
                kept.push(owned);
                seen.push(up);
                proof {
                    assert(views(kept@) =~= dedupe_trimmed(next));
                }
            }
        }
        i = i + 1;
    }
    proof {
        assert(views(symbols@).take(n as int) =~= views(symbols@));
    }
    kept
}

/// Canonical form of a symbol list, as used for subscriptions and for the
/// broker watch list: every entry trimmed, blank entries dropped, entries
/// that upper-case alike kept once (the first, in its own case), the rest
/// stably sorted by ASCII upper-case.
pub fn canonical_symbols(symbols: Vec<String>) -> (canon: Vec<String>)
    ensures
        is_canonical_form(views(canon@), views(symbols@)),
{
    canonical_of(&symbols)
}

/// `canonical_symbols` of a borrowed list.
pub(crate) fn canonical_of(symbols: &Vec<String>) -> (canon: Vec<String>)
    ensures
        is_canonical_form(views(canon@), views(symbols@)),
{
    let kept = dedupe_symbols(symbols);
    let mut keys: Vec<Vec<char>> = Vec::new();
    let mut i: usize = 0;
    while i < kept.len()
        invariant
            i <= kept@.len(),
            keys@.len() == i,
            forall|k: int| 0 <= k < i ==> (#[trigger] keys@[k])@ == symbol_key(kept@[k]@),
        decreases kept@.len() - i,
    {
        keys.push(ascii_upper_chars(kept[i].as_str()));
        i = i + 1;
    }
    let canon = sort_by_keys(&kept, &keys, Ghost(|s: Seq<char>| symbol_key(s)));
    canon
}

/// The upper-cased forms of `canon`, the keys under which quotes are held.
pub fn upper_keep_set(canon: &Vec<String>) -> (keep: Vec<String>)
    ensures
        keep@.len() == canon@.len(),
        forall|k: int| 0 <= k < keep@.len() ==> (#[trigger] keep@[k])@ == unicode_uppercase(
            canon@[k]@,
        ),
        forall|k: int| 0 <= k < keep@.len() && all_ascii(canon@[k]@) ==> (#[trigger] keep@[k])@ == ascii_upper(canon@[k]@),
{
    let mut keep: Vec<String> = Vec::new();
    let mut i: usize = 0;
    while i < canon.len()
        invariant
            i <= canon@.len(),
            keep@.len() == i,
            forall|k: int| 0 <= k < i ==> (#[trigger] keep@[k])@ == unicode_uppercase(canon@[k]@),
            forall|k: int| 0 <= k < i && all_ascii(canon@[k]@) ==> (#[trigger] keep@[k])@ == ascii_upper(canon@[k]@),
        decreases canon@.len() - i,
    {
        keep.push(to_uppercase(canon[i].as_str()));
        i = i + 1;
    }
    keep
}

/// Whether a cached quote keyed `(account, symbol)` survives a subscription
/// change of account `id` whose upper-cased symbols are `keep`.
pub fn quote_kept(account: &str, symbol: &str, id: &str, keep: &Vec<String>) -> (r: bool)
    ensures
        r == (account@ != id@ || exists|k: int| 0 <= k < keep@.len() && (#[trigger] keep@[k])@ == symbol@),
{
    if !str_equal(account, id) {
        return true;
    }
    let mut k: usize = 0;
    while k < keep.len()
        invariant
            k <= keep@.len(),
            forall|q: int| 0 <= q < k ==> (#[trigger] keep@[q])@ != symbol@,
        decreases keep@.len() - k,
    {
        if str_equal(keep[k].as_str(), symbol) {
            return true;
        }
        k = k + 1;
    }
    false
}

} // verus!

verus! {

proof fn lemma_dedupe_props(symbols: Seq<Seq<char>>)
    ensures
        forall|i: int| 0 <= i < dedupe_trimmed(symbols).len() ==> (#[trigger] dedupe_trimmed(symbols)[i]).len() > 0 && trim(dedupe_trimmed(symbols)[i]) == dedupe_trimmed(symbols)[i],
        forall|i: int, j: int| #![trigger dedupe_trimmed(symbols)[i], dedupe_trimmed(symbols)[j]] 0 <= i < j < dedupe_trimmed(symbols).len() ==> unicode_uppercase(dedupe_trimmed(symbols)[i]) != unicode_uppercase(dedupe_trimmed(symbols)[j]),
        forall|k: int| 0 <= k < symbols.len() && trim(#[trigger] symbols[k]).len() > 0 ==> seen_upper(dedupe_trimmed(symbols), trim(symbols[k])),
        forall|i: int| 0 <= i < dedupe_trimmed(symbols).len() ==> exists|k: int| 0 <= k < symbols.len() && #[trigger] dedupe_trimmed(symbols)[i] == trim(symbols[k]),
    decreases symbols.len(),
{
    if symbols.len() > 0 {
        let rest = symbols.drop_last();
        lemma_dedupe_props(rest);
        let prev = dedupe_trimmed(rest);
        let d = dedupe_trimmed(symbols);
        let t = trim(symbols.last());
        lemma_trim_idempotent(symbols.last());
        assert forall|k: int| 0 <= k < symbols.len() && trim(#[trigger] symbols[k]).len() > 0 implies seen_upper(d, trim(symbols[k])) by {
            if k < rest.len() {
                assert(rest[k] == symbols[k]);
                assert(seen_upper(prev, trim(rest[k])));
                let q = choose|q: int| 0 <= q < prev.len() && unicode_uppercase(#[trigger] prev[q]) == unicode_uppercase(trim(rest[k]));
                assert(d[q] == prev[q]);
            } else {
                if !(t.len() == 0 || seen_upper(prev, t)) {
                    assert(d[prev.len() as int] == t);
                } else {
                    let q = choose|q: int| 0 <= q < prev.len() && unicode_uppercase(#[trigger] prev[q]) == unicode_uppercase(t);
                    assert(d[q] == prev[q]);
                }
            }
        }
        assert forall|i: int| 0 <= i < d.len() implies exists|k: int| 0 <= k < symbols.len() && #[trigger] d[i] == trim(symbols[k]) by {
            if i < prev.len() {
                assert(d[i] == prev[i]);
                let k = choose|k: int| 0 <= k < rest.len() && #[trigger] prev[i] == trim(rest[k]);
                assert(rest[k] == symbols[k]);
            } else {
                assert(d[i] == trim(symbols[symbols.len() - 1]));
            }
        }
        assert forall|i: int, j: int| #![trigger d[i], d[j]] 0 <= i < j < d.len() implies unicode_uppercase(d[i]) != unicode_uppercase(d[j]) by {
            if j < prev.len() {
                assert(d[i] == prev[i] && d[j] == prev[j]);
            } else {
                assert(d[i] == prev[i]);
                assert(d[j] == t);
            }
        }
    }
}

/// What the canonical form of a symbol list guarantees: every entry is
/// trimmed and non-blank and comes from the input; no two entries upper-case
/// alike; entries ascend in ASCII upper-case order; and every non-blank
/// input symbol is represented by an entry that upper-cases like it.
pub proof fn lemma_canonical_form(out: Seq<Seq<char>>, symbols: Seq<Seq<char>>)
    requires
        is_canonical_form(out, symbols),
    ensures
        forall|i: int| 0 <= i < out.len() ==> (#[trigger] out[i]).len() > 0 && trim(out[i]) == out[i],
        forall|i: int| 0 <= i < out.len() ==> exists|k: int| 0 <= k < symbols.len() && #[trigger] out[i] == trim(symbols[k]),
        forall|i: int, j: int| #![trigger out[i], out[j]] 0 <= i < j < out.len() ==> unicode_uppercase(out[i]) != unicode_uppercase(out[j]) && lex_le(symbol_key(out[i]), symbol_key(out[j])),
        forall|k: int| 0 <= k < symbols.len() && trim(#[trigger] symbols[k]).len() > 0 ==> exists|i: int| 0 <= i < out.len() && unicode_uppercase(#[trigger] out[i]) == unicode_uppercase(trim(symbols[k])),
{
    let d = dedupe_trimmed(symbols);
    lemma_dedupe_props(symbols);
    let key = |s: Seq<char>| symbol_key(s);
    let p = choose|p: Seq<int>| #[trigger] stable_arrangement(p, out, d, key);
    assert forall|i: int| 0 <= i < out.len() implies (#[trigger] out[i]).len() > 0 && trim(out[i]) == out[i] by {
        assert(out[i] == d[p[i]]);
    }
    assert forall|i: int| 0 <= i < out.len() implies exists|k: int| 0 <= k < symbols.len() && #[trigger] out[i] == trim(symbols[k]) by {
        assert(out[i] == d[p[i]]);
        let k = choose|k: int| 0 <= k < symbols.len() && #[trigger] d[p[i]] == trim(symbols[k]);
    }
    assert forall|i: int, j: int| #![trigger out[i], out[j]] 0 <= i < j < out.len() implies unicode_uppercase(out[i]) != unicode_uppercase(out[j]) && lex_le(symbol_key(out[i]), symbol_key(out[j])) by {
        assert(out[i] == d[p[i]]);
        assert(out[j] == d[p[j]]);
        assert(p[i] != p[j]);
        assert(key(out[i]) == symbol_key(out[i]));
        if p[i] < p[j] {
            assert(unicode_uppercase(d[p[i]]) != unicode_uppercase(d[p[j]]));
        } else {
            assert(unicode_uppercase(d[p[j]]) != unicode_uppercase(d[p[i]]));
        }
    }
    assert forall|k: int| 0 <= k < symbols.len() && trim(#[trigger] symbols[k]).len() > 0 implies exists|i: int| 0 <= i < out.len() && unicode_uppercase(#[trigger] out[i]) == unicode_uppercase(trim(symbols[k])) by {
        assert(seen_upper(d, trim(symbols[k])));
        let q = choose|q: int| 0 <= q < d.len() && unicode_uppercase(#[trigger] d[q]) == unicode_uppercase(trim(symbols[k]));
        lemma_arrangement_onto(p, d.len() as int, q);
        let w = choose|w: int| 0 <= w < p.len() && p[w] == q;
        assert(out[w] == d[q]);
    }
}

} // verus!

verus! {

pub proof fn lemma_dedupe_of_canonical(s: Seq<Seq<char>>)
    requires
        forall|i: int| 0 <= i < s.len() ==> (#[trigger] s[i]).len() > 0 && trim(s[i]) == s[i],
        forall|i: int, j: int| #![trigger s[i], s[j]] 0 <= i < j < s.len() ==> unicode_uppercase(s[i]) != unicode_uppercase(s[j]),
    ensures
        dedupe_trimmed(s) == s,
    decreases s.len(),
{
    if s.len() > 0 {
        let rest = s.drop_last();
        assert forall|i: int| 0 <= i < rest.len() implies (#[trigger] rest[i]).len() > 0 && trim(rest[i]) == rest[i] by {
            assert(rest[i] == s[i]);
        }
        assert forall|i: int, j: int| #![trigger rest[i], rest[j]] 0 <= i < j < rest.len() implies unicode_uppercase(rest[i]) != unicode_uppercase(rest[j]) by {
            assert(rest[i] == s[i] && rest[j] == s[j]);
        }
        lemma_dedupe_of_canonical(rest);
        let last = s.last();
        assert(trim(last) == last);
        if seen_upper(rest, last) {
            let q = choose|q: int| 0 <= q < rest.len() && unicode_uppercase(#[trigger] rest[q]) == unicode_uppercase(last);
            assert(rest[q] == s[q]);
            assert(unicode_uppercase(s[q]) != unicode_uppercase(s[s.len() - 1]));
        }
        assert(rest.push(last) =~= s);
    }
}

/// Canonicalising a canonical symbol list changes nothing: a subscription
/// set re-applied as it was stored stays the same.
pub proof fn lemma_canonical_idempotent(once: Seq<Seq<char>>, twice: Seq<Seq<char>>, symbols: Seq<Seq<char>>)
    requires
        is_canonical_form(once, symbols),
        is_canonical_form(twice, once),
    ensures
        twice == once,
{
    lemma_canonical_form(once, symbols);
    lemma_dedupe_of_canonical(once);
    let key = |s: Seq<char>| symbol_key(s);
    let p = choose|p: Seq<int>| #[trigger] stable_arrangement(p, twice, once, key);
    assert forall|i: int, j: int| #![trigger once[i], once[j]] 0 <= i < j < once.len() implies lex_le(key(once[i]), key(once[j])) by {
        assert(lex_le(symbol_key(once[i]), symbol_key(once[j])));
    }
    lemma_stable_sort_of_sorted(p, twice, once, key);
}

} // verus!

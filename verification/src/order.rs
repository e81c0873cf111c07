use vstd::prelude::*;

verus! {

/// Lexicographic order of texts by code point, which is the order `Ord for
/// str` gives (UTF-8 byte order agrees with code point order).
pub open spec fn lex_le(a: Seq<char>, b: Seq<char>) -> bool
    decreases a.len(),
{
    if a.len() == 0 {
        true
    } else if b.len() == 0 {
        false
    } else if (a[0] as u32) < (b[0] as u32) {
        true
    } else if (a[0] as u32) > (b[0] as u32) {
        false
    } else {
        lex_le(a.drop_first(), b.drop_first())
    }
}

pub proof fn lemma_lex_refl(a: Seq<char>)
    ensures
        lex_le(a, a),
    decreases a.len(),
{
    if a.len() > 0 {
        lemma_lex_refl(a.drop_first());
    }
}

pub proof fn lemma_lex_total(a: Seq<char>, b: Seq<char>)
    ensures
        lex_le(a, b) || lex_le(b, a),
    decreases a.len(),
{
    if a.len() > 0 && b.len() > 0 && (a[0] as u32) == (b[0] as u32) {
        lemma_lex_total(a.drop_first(), b.drop_first());
    }
}

pub proof fn lemma_lex_trans(a: Seq<char>, b: Seq<char>, c: Seq<char>)
    requires
        lex_le(a, b),
        lex_le(b, c),
    ensures
        lex_le(a, c),
    decreases a.len(),
{
    if a.len() > 0 && b.len() > 0 && c.len() > 0 {
        if (a[0] as u32) == (b[0] as u32) && (b[0] as u32) == (c[0] as u32) {
            lemma_lex_trans(a.drop_first(), b.drop_first(), c.drop_first());
        }
    }
}

/// `lex_le`, computed.
pub fn lex_le_exec(a: &Vec<char>, b: &Vec<char>) -> (r: bool)
    ensures
        r == lex_le(a@, b@),
{
    let n = a.len();
    let m = b.len();
    let mut i: usize = 0;
    assert(a@.subrange(0, n as int) =~= a@);
    assert(b@.subrange(0, m as int) =~= b@);
    while i < n && i < m && (a[i] as u32) == (b[i] as u32)
        invariant
            n == a@.len(),
            m == b@.len(),
            i <= n,
            i <= m,
            lex_le(a@, b@) == lex_le(a@.subrange(i as int, n as int), b@.subrange(i as int, m as int)),
        decreases n - i,
    {
        proof {
            let sa = a@.subrange(i as int, n as int);
            let sb = b@.subrange(i as int, m as int);
            assert(sa.drop_first() =~= a@.subrange(i + 1, n as int));
            assert(sb.drop_first() =~= b@.subrange(i + 1, m as int));
            assert(sa[0] == a@[i as int]);
            assert(sb[0] == b@[i as int]);
        }
        i = i + 1;
    }
    if i == n {
        true
    } else if i == m {
        false
    } else {
        proof {
            let sa = a@.subrange(i as int, n as int);
            let sb = b@.subrange(i as int, m as int);
            assert(sa[0] == a@[i as int]);
            assert(sb[0] == b@[i as int]);
        }
        (a[i] as u32) < (b[i] as u32)
    }
}

} // verus!

verus! {

/// The chars of each text in `v`.
pub open spec fn views(v: Seq<String>) -> Seq<Seq<char>> {
    v.map_values(|s: String| s@)
}

/// `out` is `inp` rearranged by the index map `p` into non-decreasing order
/// of `key`, items of equal key keeping their order in `inp`: what a stable
/// sort by that key returns.
pub open spec fn stable_arrangement(
    p: Seq<int>,
    out: Seq<Seq<char>>,
    inp: Seq<Seq<char>>,
    key: spec_fn(Seq<char>) -> Seq<char>,
) -> bool {
    &&& p.len() == inp.len()
    &&& out.len() == inp.len()
    &&& forall|i: int| 0 <= i < p.len() ==> 0 <= #[trigger] p[i] < inp.len()
    &&& forall|i: int, j: int| #![trigger p[i], p[j]] 0 <= i < j < p.len() ==> p[i] != p[j]
    &&& forall|i: int| 0 <= i < out.len() ==> #[trigger] out[i] == inp[p[i]]
    &&& forall|i: int, j: int|
        #![trigger out[i], out[j]]
        0 <= i < j < out.len() ==> lex_le(key(out[i]), key(out[j]))
    &&& forall|i: int, j: int|
        #![trigger out[i], out[j]]
        0 <= i < j < out.len() && key(out[i]) == key(out[j]) ==> p[i] < p[j]
}

/// `out` is the stable sort of `inp` by `key`.
pub open spec fn stable_sorted(
    out: Seq<Seq<char>>,
    inp: Seq<Seq<char>>,
    key: spec_fn(Seq<char>) -> Seq<char>,
) -> bool {
    exists|p: Seq<int>| stable_arrangement(p, out, inp, key)
}

/// Insertion sort of `items` by precomputed keys; stable.
pub(crate) fn sort_by_keys(
    items: &Vec<String>,
    keys: &Vec<Vec<char>>,
    Ghost(key): Ghost<spec_fn(Seq<char>) -> Seq<char>>,
) -> (out: Vec<String>)
    requires
        keys@.len() == items@.len(),
        forall|i: int| 0 <= i < items@.len() ==> (#[trigger] keys@[i])@ == key(items@[i]@),
    ensures
        stable_sorted(views(out@), views(items@), key),
{
    let n = items.len();
    let mut out: Vec<String> = Vec::new();
    let mut okeys: Vec<Vec<char>> = Vec::new();
    let ghost mut p: Seq<int> = Seq::empty();
    let mut i: usize = 0;
    proof {
        assert(views(out@) =~= Seq::<Seq<char>>::empty());
        assert(views(items@).take(0) =~= Seq::<Seq<char>>::empty());
    }
    while i < n
        invariant
            n == items@.len(),
            keys@.len() == items@.len(),
            forall|k: int| 0 <= k < items@.len() ==> (#[trigger] keys@[k])@ == key(items@[k]@),
            i <= n,
            okeys@.len() == out@.len(),
            forall|k: int| 0 <= k < out@.len() ==> (#[trigger] okeys@[k])@ == key(out@[k]@),
            stable_arrangement(p, views(out@), views(items@).take(i as int), key),
        decreases n - i,
    {
        let ghost old_out = views(out@);
        let ghost old_p = p;
        let ghost inp_i = views(items@).take(i as int);
        let ghost inp_next = views(items@).take(i + 1);
        let kx = &keys[i];
        let mut pos: usize = 0;
        while pos < out.len() && lex_le_exec(&okeys[pos], kx)
            invariant
                okeys@.len() == out@.len(),
                pos <= out@.len(),
                forall|j: int| 0 <= j < pos ==> lex_le((#[trigger] okeys@[j])@, kx@),
            decreases out@.len() - pos,
        {
            pos = pos + 1;
        }
        let item = items[i].clone();
        let kc = keys[i].clone();
        proof {
            assert(kc@ == kx@);
        }
        let ghost x = item@;
        out.insert(pos, item);
        okeys.insert(pos, kc);
        proof {
            p = old_p.insert(pos as int, i as int);
            let nout = views(out@);
            assert(nout =~= old_out.insert(pos as int, x));
            assert(x == views(items@)[i as int]);
            assert(key(x) == kx@);
            assert forall|k: int| 0 <= k < out@.len() implies (#[trigger] okeys@[k])@ == key(
                out@[k]@,
            ) by {
                if k < pos {
                } else if k == pos {
                } else {
                }
            }
            // index map stays in range and injective
            assert forall|a: int| 0 <= a < p.len() implies 0 <= #[trigger] p[a]
                < inp_next.len() by {
                if a < pos {
                    assert(p[a] == old_p[a]);
                } else if a > pos {
                    assert(p[a] == old_p[a - 1]);
                }
            }
            assert forall|a: int, b: int| #![trigger p[a], p[b]] 0 <= a < b < p.len() implies p[a]
                != p[b] by {
                if a != pos && b != pos {
                    let oa = if a < pos { a } else { a - 1 };
                    let ob = if b < pos { b } else { b - 1 };
                    assert(p[a] == old_p[oa]);
                    assert(p[b] == old_p[ob]);
                    assert(old_p[oa] != old_p[ob]);
                } else if a == pos {
                    assert(p[b] == old_p[b - 1]);
                } else {
                    assert(p[a] == old_p[a]);
                }
            }
            assert forall|a: int| 0 <= a < nout.len() implies #[trigger] nout[a] == inp_next[p[a]] by {
                if a < pos {
                    assert(p[a] == old_p[a]);
                    assert(old_out[a] == inp_i[old_p[a]]);
                } else if a > pos {
                    assert(p[a] == old_p[a - 1]);
                    assert(old_out[a - 1] == inp_i[old_p[a - 1]]);
                }
            }
            assert forall|a: int, b: int|
                #![trigger nout[a], nout[b]]
                0 <= a < b < nout.len() implies lex_le(key(nout[a]), key(nout[b])) && (key(nout[a])
                == key(nout[b]) ==> p[a] < p[b]) by {
                if a != pos && b != pos {
                    let oa = if a < pos { a } else { a - 1 };
                    let ob = if b < pos { b } else { b - 1 };
                    assert(nout[a] == old_out[oa]);
                    assert(nout[b] == old_out[ob]);
                    assert(p[a] == old_p[oa]);
                    assert(p[b] == old_p[ob]);
                } else if b == pos {
                    assert(nout[a] == old_out[a]);
                    assert(okeys@[a]@ == key(old_out[a]));
                    assert(lex_le(okeys@[a]@, kx@));
                    assert(p[a] == old_p[a]);
                } else {
                    // a == pos < b: the item now at b was at b - 1 >= pos
                    let ob = b - 1;
                    assert(nout[b] == old_out[ob]);
                    assert(okeys@[pos as int + 1]@ == key(old_out[pos as int]));
                    assert(!lex_le(key(old_out[pos as int]), kx@));
                    if ob > pos {
                        assert(lex_le(key(old_out[pos as int]), key(old_out[ob])));
                    } else {
                        lemma_lex_refl(key(old_out[ob]));
                    }
                    lemma_lex_total(key(old_out[pos as int]), kx@);
                    lemma_lex_trans(kx@, key(old_out[pos as int]), key(old_out[ob]));
                    if key(nout[a]) == key(nout[b]) {
                        assert(false);
                    }
                }
            }
            assert(stable_arrangement(p, views(out@), inp_next, key));
        }
        i = i + 1;
    }
    proof {
        assert(views(items@).take(n as int) =~= views(items@));
    }
    out
}

/// An injective map of `0..n` into `0..n` reaches every index.
pub proof fn lemma_arrangement_onto(p: Seq<int>, n: int, z: int)
    requires
        p.len() == n,
        forall|i: int| 0 <= i < p.len() ==> 0 <= #[trigger] p[i] < n,
        forall|i: int, j: int| #![trigger p[i], p[j]] 0 <= i < j < p.len() ==> p[i] != p[j],
        0 <= z < n,
    ensures
        exists|w: int| 0 <= w < p.len() && p[w] == z,
{
    let s = p.to_set();
    let r = Set::new(|k: int| 0 <= k < n);
    p.unique_seq_to_set();
    assert(p.no_duplicates()) by {
        assert forall|i: int, j: int| 0 <= i < p.len() && 0 <= j < p.len() && i != j implies p[i] != p[j] by {
            if i < j {
                assert(p[i] != p[j]);
            } else {
                assert(p[j] != p[i]);
            }
        }
    }
    assert(s.len() == n);
    assert(s.subset_of(r));
    vstd::set_lib::lemma_int_range(0, n);
    assert(r =~= vstd::set_lib::set_int_range(0, n));
    vstd::set_lib::lemma_subset_equality(s, r);
    assert(r.contains(z));
    assert(s.contains(z));
}

} // verus!

verus! {

proof fn lemma_char_code_injective(x: char, y: char)
    requires
        (x as u32) == (y as u32),
    ensures
        x == y,
{
}

pub proof fn lemma_lex_antisym(a: Seq<char>, b: Seq<char>)
    requires
        lex_le(a, b),
        lex_le(b, a),
    ensures
        a == b,
    decreases a.len(),
{
    if a.len() > 0 && b.len() > 0 {
        assert((a[0] as u32) == (b[0] as u32));
        lemma_char_code_injective(a[0], b[0]);
        lemma_lex_antisym(a.drop_first(), b.drop_first());
        assert(a =~= seq![a[0]] + a.drop_first());
        assert(b =~= seq![b[0]] + b.drop_first());
    } else {
        assert(a.len() == 0 && b.len() == 0);
        assert(a =~= b);
    }
}

/// Stably sorting a list that is already in key order changes nothing.
pub proof fn lemma_stable_sort_of_sorted(p: Seq<int>, out: Seq<Seq<char>>, inp: Seq<Seq<char>>, key: spec_fn(Seq<char>) -> Seq<char>)
    requires
        stable_arrangement(p, out, inp, key),
        forall|i: int, j: int| #![trigger inp[i], inp[j]] 0 <= i < j < inp.len() ==> lex_le(key(inp[i]), key(inp[j])),
    ensures
        out == inp,
{
    let n = inp.len() as int;
    assert forall|a: int, b: int| 0 <= a < b < n implies #[trigger] p[a] < #[trigger] p[b] by {
        assert(out[a] == inp[p[a]]);
        assert(out[b] == inp[p[b]]);
        assert(p[a] != p[b]);
        if key(out[a]) != key(out[b]) && p[a] > p[b] {
            assert(lex_le(key(inp[p[b]]), key(inp[p[a]])));
            assert(lex_le(key(out[a]), key(out[b])));
            lemma_lex_antisym(key(out[a]), key(out[b]));
        }
    }
    assert forall|i: int| 0 <= i < n implies #[trigger] p[i] == i by {
        lemma_increasing_is_identity(p, n, i);
    }
    assert forall|i: int| 0 <= i < n implies #[trigger] out[i] == inp[i] by {
        assert(out[i] == inp[p[i]]);
    }
    assert(out =~= inp);
}

proof fn lemma_increasing_lower(p: Seq<int>, n: int, i: int)
    requires
        p.len() == n,
        forall|k: int| 0 <= k < p.len() ==> 0 <= #[trigger] p[k] < n,
        forall|a: int, b: int| 0 <= a < b < n ==> #[trigger] p[a] < #[trigger] p[b],
        0 <= i < n,
    ensures
        p[i] >= i,
    decreases i,
{
    if i > 0 {
        lemma_increasing_lower(p, n, i - 1);
        assert(p[i - 1] < p[i]);
    }
}

proof fn lemma_increasing_upper(p: Seq<int>, n: int, i: int)
    requires
        p.len() == n,
        forall|k: int| 0 <= k < p.len() ==> 0 <= #[trigger] p[k] < n,
        forall|a: int, b: int| 0 <= a < b < n ==> #[trigger] p[a] < #[trigger] p[b],
        0 <= i < n,
    ensures
        p[i] <= i,
    decreases n - i,
{
    if i < n - 1 {
        lemma_increasing_upper(p, n, i + 1);
        assert(p[i] < p[i + 1]);
    }
}

proof fn lemma_increasing_is_identity(p: Seq<int>, n: int, i: int)
    requires
        p.len() == n,
        forall|k: int| 0 <= k < p.len() ==> 0 <= #[trigger] p[k] < n,
        forall|a: int, b: int| 0 <= a < b < n ==> #[trigger] p[a] < #[trigger] p[b],
        0 <= i < n,
    ensures
        p[i] == i,
{
    lemma_increasing_lower(p, n, i);
    lemma_increasing_upper(p, n, i);
}

} // verus!

verus! {

/// A stable sort has one result: two stable sorts of the same list by the
/// same key are equal.
pub proof fn lemma_stable_sorted_unique(out1: Seq<Seq<char>>, out2: Seq<Seq<char>>, inp: Seq<Seq<char>>, key: spec_fn(Seq<char>) -> Seq<char>)
    requires
        stable_sorted(out1, inp, key),
        stable_sorted(out2, inp, key),
    ensures
        out1 == out2,
{
    let p1 = choose|p: Seq<int>| #[trigger] stable_arrangement(p, out1, inp, key);
    let p2 = choose|p: Seq<int>| #[trigger] stable_arrangement(p, out2, inp, key);
    let n = inp.len() as int;
    // position in out1 of each input index
    let q = Seq::new(n as nat, |i: int| choose|w: int| 0 <= w < n && p1[w] == p2[i]);
    assert forall|i: int| 0 <= i < n implies 0 <= #[trigger] q[i] < n && p1[q[i]] == p2[i] && out2[i] == out1[q[i]] by {
        assert(0 <= p2[i] < n);
        lemma_arrangement_onto(p1, n, p2[i]);
        assert(out2[i] == inp[p2[i]]);
        assert(out1[q[i]] == inp[p1[q[i]]]);
    }
    assert forall|i: int, j: int| #![trigger q[i], q[j]] 0 <= i < j < n implies q[i] != q[j] by {
        assert(p1[q[i]] == p2[i] && p1[q[j]] == p2[j]);
        assert(p2[i] != p2[j]);
    }
    assert forall|i: int, j: int|
        #![trigger out2[i], out2[j]]
        0 <= i < j < n && key(out2[i]) == key(out2[j]) implies q[i] < q[j] by {
        assert(p2[i] < p2[j]);
        assert(q[i] != q[j]);
        if q[j] < q[i] {
            assert(out1[q[j]] == out2[j] && out1[q[i]] == out2[i]);
            assert(key(out1[q[j]]) == key(out1[q[i]]));
            assert(p1[q[j]] < p1[q[i]]);
        }
    }
    assert(stable_arrangement(q, out2, out1, key));
    assert forall|i: int, j: int| #![trigger out1[i], out1[j]] 0 <= i < j < out1.len() implies lex_le(key(out1[i]), key(out1[j])) by {}
    lemma_stable_sort_of_sorted(q, out2, out1, key);
}

} // verus!

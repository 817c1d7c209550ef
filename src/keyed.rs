//! The list operations with the comparison forms given: each name comes with
//! its key, so the results are fixed for given names and keys.
use vstd::prelude::*;
use crate::listing::texts;
use crate::needed::{SimString, shown, key, sorted_by_key, holds_key, insert_sorted, remove_key,
    need_fold, got_fold, keys_sorted, position_of_key};
use crate::text::{lex_lt, lemma_lex_irreflexive, lemma_lex_transitive};

verus! {

/// Names paired with their keys.
pub open spec fn pairs(names: Seq<Seq<char>>, keys: Seq<Seq<char>>) -> Seq<(Seq<char>, Seq<char>)> {
    Seq::new(names.len(), |i: int| (names[i], keys[i]))
}

/// Each name with its comparison form.
pub open spec fn with_keys(l: Seq<Seq<char>>) -> Seq<(Seq<char>, Seq<char>)> {
    Seq::new(l.len(), |i: int| (l[i], key(l[i])))
}

/// Some entry has key `k`.
pub open spec fn k_holds(p: Seq<(Seq<char>, Seq<char>)>, k: Seq<char>) -> bool {
    exists|i: int| 0 <= i < p.len() && p[i].1 == k
}

/// `p` with `x` put in its place in the order of keys.
pub open spec fn k_insert(p: Seq<(Seq<char>, Seq<char>)>, x: (Seq<char>, Seq<char>)) -> Seq<
    (Seq<char>, Seq<char>),
>
    decreases p.len(),
{
    if p.len() == 0 {
        seq![x]
    } else if lex_lt(x.1, p[0].1) {
        seq![x] + p
    } else {
        seq![p[0]] + k_insert(p.drop_first(), x)
    }
}

/// `p` without its entries of key `k`.
pub open spec fn k_remove(p: Seq<(Seq<char>, Seq<char>)>, k: Seq<char>) -> Seq<(Seq<char>, Seq<char>)>
    decreases p.len(),
{
    if p.len() == 0 {
        p
    } else if p[0].1 == k {
        k_remove(p.drop_first(), k)
    } else {
        seq![p[0]] + k_remove(p.drop_first(), k)
    }
}

/// Adding the entries `toks` in turn: the new list, and the names whose key
/// was already there.
pub open spec fn k_need_fold(p: Seq<(Seq<char>, Seq<char>)>, toks: Seq<(Seq<char>, Seq<char>)>) -> (
    Seq<(Seq<char>, Seq<char>)>,
    Seq<Seq<char>>,
)
    decreases toks.len(),
{
    if toks.len() == 0 {
        (p, Seq::empty())
    } else {
        let prev = k_need_fold(p, toks.drop_last());
        let t = toks.last();
        if k_holds(prev.0, t.1) {
            (prev.0, prev.1.push(t.0))
        } else {
            (k_insert(prev.0, t), prev.1)
        }
    }
}

/// Removing the entries `toks` in turn: the new list, and the names whose
/// key was not there.
pub open spec fn k_got_fold(p: Seq<(Seq<char>, Seq<char>)>, toks: Seq<(Seq<char>, Seq<char>)>) -> (
    Seq<(Seq<char>, Seq<char>)>,
    Seq<Seq<char>>,
)
    decreases toks.len(),
{
    if toks.len() == 0 {
        (p, Seq::empty())
    } else {
        let prev = k_got_fold(p, toks.drop_last());
        let t = toks.last();
        if k_holds(prev.0, t.1) {
            (k_remove(prev.0, t.1), prev.1)
        } else {
            (prev.0, prev.1.push(t.0))
        }
    }
}

proof fn lemma_with_keys_insert(l: Seq<Seq<char>>, x: Seq<char>)
    ensures
        with_keys(insert_sorted(l, x)) == k_insert(with_keys(l), (x, key(x))),
    decreases l.len(),
{
    let w = with_keys(l);
    if l.len() == 0 {
        assert(with_keys(seq![x]) =~= seq![(x, key(x))]);
    } else if lex_lt(key(x), key(l[0])) {
        assert(with_keys(seq![x] + l) =~= seq![(x, key(x))] + w);
    } else {
        lemma_with_keys_insert(l.drop_first(), x);
        assert(w.drop_first() =~= with_keys(l.drop_first()));
        assert(with_keys(seq![l[0]] + insert_sorted(l.drop_first(), x)) =~= seq![w[0]]
            + with_keys(insert_sorted(l.drop_first(), x)));
    }
}

proof fn lemma_with_keys_remove(l: Seq<Seq<char>>, k: Seq<char>)
    ensures
        with_keys(remove_key(l, k)) == k_remove(with_keys(l), k),
    decreases l.len(),
{
    let w = with_keys(l);
    if l.len() == 0 {
        assert(with_keys(remove_key(l, k)) =~= w);
    } else {
        lemma_with_keys_remove(l.drop_first(), k);
        assert(w.drop_first() =~= with_keys(l.drop_first()));
        if key(l[0]) != k {
            assert(with_keys(seq![l[0]] + remove_key(l.drop_first(), k)) =~= seq![w[0]]
                + with_keys(remove_key(l.drop_first(), k)));
        }
    }
}

proof fn lemma_with_keys_holds(l: Seq<Seq<char>>, k: Seq<char>)
    ensures
        holds_key(l, k) == k_holds(with_keys(l), k),
{
    let w = with_keys(l);
    if holds_key(l, k) {
        let i = choose|i: int| 0 <= i < l.len() && key(l[i]) == k;
        assert(w[i].1 == k);
    }
    if k_holds(w, k) {
        let i = choose|i: int| 0 <= i < w.len() && w[i].1 == k;
        assert(key(l[i]) == k);
    }
}

/// The name-level folds are the keyed folds on the names paired with their
/// comparison forms.
pub proof fn lemma_need_fold_keyed(l: Seq<Seq<char>>, toks: Seq<Seq<char>>)
    ensures
        with_keys(need_fold(l, toks).0) == k_need_fold(with_keys(l), with_keys(toks)).0,
        need_fold(l, toks).1 == k_need_fold(with_keys(l), with_keys(toks)).1,
    decreases toks.len(),
{
    if toks.len() > 0 {
        lemma_need_fold_keyed(l, toks.drop_last());
        assert(with_keys(toks).drop_last() =~= with_keys(toks.drop_last()));
        let prev = need_fold(l, toks.drop_last());
        lemma_with_keys_holds(prev.0, key(toks.last()));
        lemma_with_keys_insert(prev.0, toks.last());
    }
}

/// The name-level removal fold is the keyed one on the names paired with
/// their comparison forms.
pub proof fn lemma_got_fold_keyed(l: Seq<Seq<char>>, toks: Seq<Seq<char>>)
    ensures
        with_keys(got_fold(l, toks).0) == k_got_fold(with_keys(l), with_keys(toks)).0,
        got_fold(l, toks).1 == k_got_fold(with_keys(l), with_keys(toks)).1,
    decreases toks.len(),
{
    if toks.len() > 0 {
        lemma_got_fold_keyed(l, toks.drop_last());
        assert(with_keys(toks).drop_last() =~= with_keys(toks.drop_last()));
        let prev = got_fold(l, toks.drop_last());
        lemma_with_keys_holds(prev.0, key(toks.last()));
        lemma_with_keys_remove(prev.0, key(toks.last()));
    }
}

/// The entries are in strictly increasing order of key.
pub open spec fn k_sorted(p: Seq<(Seq<char>, Seq<char>)>) -> bool {
    forall|i: int, j: int| 0 <= i < j < p.len() ==> lex_lt(p[i].1, p[j].1)
}

proof fn lemma_k_insert_at(p: Seq<(Seq<char>, Seq<char>)>, x: (Seq<char>, Seq<char>), q: int)
    requires
        k_sorted(p),
        0 <= q <= p.len(),
        forall|i: int| 0 <= i < q ==> lex_lt((#[trigger] p[i]).1, x.1),
        q < p.len() ==> lex_lt(x.1, p[q].1),
    ensures
        k_insert(p, x) == p.insert(q, x),
        k_sorted(p.insert(q, x)),
    decreases q,
{
    let m = p.insert(q, x);
    if q == 0 {
        if p.len() > 0 {
            assert(m =~= seq![x] + p);
        } else {
            assert(m =~= seq![x]);
        }
    } else {
        let t = p.drop_first();
        lemma_lex_irreflexive(x.1);
        if lex_lt(x.1, p[0].1) {
            lemma_lex_transitive(x.1, p[0].1, x.1);
        }
        assert forall|i: int| 0 <= i < q - 1 implies lex_lt((#[trigger] t[i]).1, x.1) by {
            assert(t[i] == p[i + 1]);
        }
        lemma_k_insert_at(t, x, q - 1);
        assert(m =~= seq![p[0]] + t.insert(q - 1, x));
    }
    assert forall|i: int, j: int| 0 <= i < j < m.len() implies lex_lt(m[i].1, m[j].1) by {
        if j < q {
            assert(m[i] == p[i] && m[j] == p[j]);
        } else if j == q {
            assert(m[i] == p[i]);
        } else if i > q {
            assert(m[i] == p[i - 1] && m[j] == p[j - 1]);
        } else if i == q {
            assert(m[j] == p[j - 1]);
            if j - 1 > q {
                lemma_lex_transitive(x.1, p[q].1, p[j - 1].1);
            }
        } else {
            assert(m[i] == p[i] && m[j] == p[j - 1]);
            lemma_lex_transitive(p[i].1, x.1, p[q].1);
            if j - 1 > q {
                lemma_lex_transitive(p[i].1, p[q].1, p[j - 1].1);
            }
        }
    }
}

proof fn lemma_k_remove_absent(p: Seq<(Seq<char>, Seq<char>)>, k: Seq<char>)
    requires
        !k_holds(p, k),
    ensures
        k_remove(p, k) == p,
    decreases p.len(),
{
    if p.len() > 0 {
        let t = p.drop_first();
        assert forall|i: int| 0 <= i < t.len() implies (#[trigger] t[i]).1 != k by {
            assert(t[i] == p[i + 1]);
        }
        lemma_k_remove_absent(t, k);
        assert(p =~= seq![p[0]] + t);
    }
}

proof fn lemma_k_remove_at(p: Seq<(Seq<char>, Seq<char>)>, q: int)
    requires
        k_sorted(p),
        0 <= q < p.len(),
    ensures
        k_remove(p, p[q].1) == p.remove(q),
        k_sorted(p.remove(q)),
    decreases q,
{
    let k = p[q].1;
    let t = p.drop_first();
    assert(k_sorted(t)) by {
        assert forall|i: int, j: int| 0 <= i < j < t.len() implies lex_lt(t[i].1, t[j].1) by {
            assert(t[i] == p[i + 1] && t[j] == p[j + 1]);
        }
    }
    lemma_lex_irreflexive(k);
    if q == 0 {
        assert forall|i: int| 0 <= i < t.len() implies (#[trigger] t[i]).1 != k by {
            assert(t[i] == p[i + 1]);
        }
        lemma_k_remove_absent(t, k);
        assert(p.remove(0) =~= t);
    } else {
        assert(t[q - 1] == p[q]);
        lemma_k_remove_at(t, q - 1);
        assert(p.remove(q) =~= seq![p[0]] + t.remove(q - 1));
    }
    let m = p.remove(q);
    assert forall|i: int, j: int| 0 <= i < j < m.len() implies lex_lt(m[i].1, m[j].1) by {
        if j < q {
            assert(m[i] == p[i] && m[j] == p[j]);
        } else if i >= q {
            assert(m[i] == p[i + 1] && m[j] == p[j + 1]);
        } else {
            assert(m[i] == p[i] && m[j] == p[j + 1]);
        }
    }
}

/// Adds each name of `toks`, whose keys are `tok_keys`, to the list `names`
/// with keys `keys` where its key is not there yet; answers with the names
/// whose key was.
pub fn need_keyed(
    names: &mut Vec<SimString>,
    keys: &mut Vec<String>,
    toks: &Vec<SimString>,
    tok_keys: &Vec<String>,
) -> (already: Vec<SimString>)
    requires
        old(names)@.len() == old(keys)@.len(),
        toks@.len() == tok_keys@.len(),
        k_sorted(pairs(shown(old(names)@), texts(old(keys)@))),
    ensures
        final(names)@.len() == final(keys)@.len(),
        k_sorted(pairs(shown(final(names)@), texts(final(keys)@))),
        pairs(shown(final(names)@), texts(final(keys)@)) == k_need_fold(
            pairs(shown(old(names)@), texts(old(keys)@)),
            pairs(shown(toks@), texts(tok_keys@)),
        ).0,
        shown(already@) == k_need_fold(
            pairs(shown(old(names)@), texts(old(keys)@)),
            pairs(shown(toks@), texts(tok_keys@)),
        ).1,
{
    let ghost start = pairs(shown(names@), texts(keys@));
    let ghost tp = pairs(shown(toks@), texts(tok_keys@));
    let mut already: Vec<SimString> = Vec::new();
    let mut j: usize = 0;
    assert(tp.take(0) =~= Seq::<(Seq<char>, Seq<char>)>::empty());
    while j < toks.len()
        invariant
            tp == pairs(shown(toks@), texts(tok_keys@)),
            toks@.len() == tok_keys@.len(),
            j <= toks@.len(),
            names@.len() == keys@.len(),
            k_sorted(pairs(shown(names@), texts(keys@))),
            (pairs(shown(names@), texts(keys@)), shown(already@)) == k_need_fold(
                start,
                tp.take(j as int),
            ),
        decreases toks@.len() - j,
    {
        let ghost cur = pairs(shown(names@), texts(keys@));
        assert forall|a: int, b: int| 0 <= a < b < texts(keys@).len() implies lex_lt(
            texts(keys@)[a],
            texts(keys@)[b],
        ) by {
            assert(cur[a].1 == texts(keys@)[a] && cur[b].1 == texts(keys@)[b]);
        }
        let (found, q) = position_of_key(keys, &tok_keys[j]);
        assert(tp.take(j + 1).drop_last() =~= tp.take(j as int));
        assert(tp.take(j + 1).last() == tp[j as int]);
        assert(tp[j as int] == (toks@[j as int].orig@, tok_keys@[j as int]@));
        if found {
            assert(cur[q as int].1 == tok_keys@[j as int]@);
            already.push(SimString::new(toks[j].orig.clone()));
            assert(shown(already@) =~= k_need_fold(start, tp.take(j as int)).1.push(
                tp[j as int].0,
            ));
        } else {
            proof {
                assert(!k_holds(cur, tok_keys@[j as int]@)) by {
                    if k_holds(cur, tok_keys@[j as int]@) {
                        let i = choose|i: int| 0 <= i < cur.len() && cur[i].1 == tok_keys@[j as int]@;
                        assert(texts(keys@)[i] == tok_keys@[j as int]@);
                    }
                }
                assert forall|i: int| 0 <= i < q implies lex_lt((#[trigger] cur[i]).1, tp[j as int].1) by {
                    assert(cur[i].1 == keys@[i]@);
                }
                lemma_k_insert_at(cur, tp[j as int], q as int);
            }
            names.insert(q, SimString::new(toks[j].orig.clone()));
            keys.insert(q, tok_keys[j].clone());
            assert(pairs(shown(names@), texts(keys@)) =~= cur.insert(q as int, tp[j as int]));
        }
        j = j + 1;
    }
    assert(tp.take(j as int) =~= tp);
    already
}

/// Removes from the list `names` with keys `keys` each name of `toks`, whose
/// keys are `tok_keys`, where its key is there; answers with the names whose
/// key was not.
pub fn got_keyed(
    names: &mut Vec<SimString>,
    keys: &mut Vec<String>,
    toks: &Vec<SimString>,
    tok_keys: &Vec<String>,
) -> (not_found: Vec<SimString>)
    requires
        old(names)@.len() == old(keys)@.len(),
        toks@.len() == tok_keys@.len(),
        k_sorted(pairs(shown(old(names)@), texts(old(keys)@))),
    ensures
        final(names)@.len() == final(keys)@.len(),
        k_sorted(pairs(shown(final(names)@), texts(final(keys)@))),
        pairs(shown(final(names)@), texts(final(keys)@)) == k_got_fold(
            pairs(shown(old(names)@), texts(old(keys)@)),
            pairs(shown(toks@), texts(tok_keys@)),
        ).0,
        shown(not_found@) == k_got_fold(
            pairs(shown(old(names)@), texts(old(keys)@)),
            pairs(shown(toks@), texts(tok_keys@)),
        ).1,
{
    let ghost start = pairs(shown(names@), texts(keys@));
    let ghost tp = pairs(shown(toks@), texts(tok_keys@));
    let mut not_found: Vec<SimString> = Vec::new();
    let mut j: usize = 0;
    assert(tp.take(0) =~= Seq::<(Seq<char>, Seq<char>)>::empty());
    while j < toks.len()
        invariant
            tp == pairs(shown(toks@), texts(tok_keys@)),
            toks@.len() == tok_keys@.len(),
            j <= toks@.len(),
            names@.len() == keys@.len(),
            k_sorted(pairs(shown(names@), texts(keys@))),
            (pairs(shown(names@), texts(keys@)), shown(not_found@)) == k_got_fold(
                start,
                tp.take(j as int),
            ),
        decreases toks@.len() - j,
    {
        let ghost cur = pairs(shown(names@), texts(keys@));
        assert forall|a: int, b: int| 0 <= a < b < texts(keys@).len() implies lex_lt(
            texts(keys@)[a],
            texts(keys@)[b],
        ) by {
            assert(cur[a].1 == texts(keys@)[a] && cur[b].1 == texts(keys@)[b]);
        }
        let (found, q) = position_of_key(keys, &tok_keys[j]);
        assert(tp.take(j + 1).drop_last() =~= tp.take(j as int));
        assert(tp.take(j + 1).last() == tp[j as int]);
        assert(tp[j as int] == (toks@[j as int].orig@, tok_keys@[j as int]@));
        if found {
            proof {
                assert(cur[q as int].1 == tok_keys@[j as int]@);
                lemma_k_remove_at(cur, q as int);
            }
            names.remove(q);
            keys.remove(q);
            assert(pairs(shown(names@), texts(keys@)) =~= cur.remove(q as int));
        } else {
            assert(!k_holds(cur, tok_keys@[j as int]@)) by {
                if k_holds(cur, tok_keys@[j as int]@) {
                    let i = choose|i: int| 0 <= i < cur.len() && cur[i].1 == tok_keys@[j as int]@;
                    assert(texts(keys@)[i] == tok_keys@[j as int]@);
                }
            }
            not_found.push(SimString::new(toks[j].orig.clone()));
            assert(shown(not_found@) =~= k_got_fold(start, tp.take(j as int)).1.push(
                tp[j as int].0,
            ));
        }
        j = j + 1;
    }
    assert(tp.take(j as int) =~= tp);
    not_found
}

/// The comparison form of each item.
pub(crate) fn keys_of(list: &Vec<SimString>) -> (r: Vec<String>)
    ensures
        r@.len() == list@.len(),
        pairs(shown(list@), texts(r@)) == with_keys(shown(list@)),
{
    let mut r: Vec<String> = Vec::new();
    let mut i: usize = 0;
    while i < list.len()
        invariant
            i <= list@.len(),
            r@.len() == i,
            forall|j: int| 0 <= j < i ==> #[trigger] r@[j]@ == key(list@[j].orig@),
        decreases list@.len() - i,
    {
        r.push(list[i].key());
        i = i + 1;
    }
    assert(pairs(shown(list@), texts(r@)) =~= with_keys(shown(list@)));
    r
}

/// Entries that are names paired with their comparison forms give back the
/// names.
pub proof fn lemma_pairs_names(n: Seq<Seq<char>>, ks: Seq<Seq<char>>, x: Seq<Seq<char>>)
    requires
        n.len() == ks.len(),
        pairs(n, ks) == with_keys(x),
    ensures
        n == x,
{
    assert(pairs(n, ks).len() == n.len());
    assert(with_keys(x).len() == x.len());
    assert forall|i: int| 0 <= i < n.len() implies n[i] == x[i] by {
        assert(pairs(n, ks)[i] == (n[i], ks[i]));
        assert(with_keys(x)[i] == (x[i], key(x[i])));
        assert(pairs(n, ks)[i].0 == with_keys(x)[i].0);
    }
    assert(n =~= x);
}

/// A list is sorted exactly when its entries with keys are.
pub proof fn lemma_sorted_keyed(x: Seq<Seq<char>>)
    ensures
        sorted_by_key(x) == k_sorted(with_keys(x)),
{
    let w = with_keys(x);
    if sorted_by_key(x) {
        assert forall|i: int, j: int| 0 <= i < j < w.len() implies lex_lt(w[i].1, w[j].1) by {
            assert(w[i].1 == key(x[i]) && w[j].1 == key(x[j]));
        }
    }
    if k_sorted(w) {
        assert forall|i: int, j: int| 0 <= i < j < x.len() implies lex_lt(key(x[i]), key(x[j])) by {
            assert(w[i].1 == key(x[i]) && w[j].1 == key(x[j]));
        }
    }
}

proof fn lemma_with_keys_injective(a: Seq<Seq<char>>, b: Seq<Seq<char>>)
    requires
        with_keys(a) == with_keys(b),
    ensures
        a == b,
{
    assert(with_keys(a).len() == a.len() && with_keys(b).len() == b.len());
    assert forall|i: int| 0 <= i < a.len() implies a[i] == b[i] by {
        assert(with_keys(a)[i].0 == a[i] && with_keys(b)[i].0 == b[i]);
    }
    assert(a =~= b);
}

/// Putting a name into a sorted list where all before it are smaller and
/// the next is larger keeps the list sorted, and is what `insert_sorted`
/// does.
pub proof fn lemma_insert_at(l: Seq<Seq<char>>, x: Seq<char>, p: int)
    requires
        sorted_by_key(l),
        0 <= p <= l.len(),
        forall|i: int| 0 <= i < p ==> lex_lt(key(#[trigger] l[i]), key(x)),
        p < l.len() ==> lex_lt(key(x), key(l[p])),
    ensures
        insert_sorted(l, x) == l.insert(p, x),
        sorted_by_key(l.insert(p, x)),
{
    let w = with_keys(l);
    let e = (x, key(x));
    lemma_sorted_keyed(l);
    assert forall|i: int| 0 <= i < p implies lex_lt((#[trigger] w[i]).1, e.1) by {
        assert(w[i].1 == key(l[i]));
    }
    lemma_k_insert_at(w, e, p);
    lemma_with_keys_insert(l, x);
    assert(with_keys(l.insert(p, x)) =~= w.insert(p, e));
    lemma_with_keys_injective(insert_sorted(l, x), l.insert(p, x));
    lemma_sorted_keyed(l.insert(p, x));
}

/// Removing the name at index `p` of a sorted list keeps it sorted, and is
/// what `remove_key` does with its comparison form.
pub proof fn lemma_remove_at(l: Seq<Seq<char>>, p: int)
    requires
        sorted_by_key(l),
        0 <= p < l.len(),
    ensures
        remove_key(l, key(l[p])) == l.remove(p),
        sorted_by_key(l.remove(p)),
{
    let w = with_keys(l);
    lemma_sorted_keyed(l);
    lemma_k_remove_at(w, p);
    assert(w[p].1 == key(l[p]));
    lemma_with_keys_remove(l, key(l[p]));
    assert(with_keys(l.remove(p)) =~= w.remove(p));
    lemma_with_keys_injective(remove_key(l, key(l[p])), l.remove(p));
    lemma_sorted_keyed(l.remove(p));
}

} // verus!

//! Properties of the needed-list that relate several operations.
use vstd::prelude::*;
use crate::needed::{key, sorted_by_key, holds_key, insert_sorted, remove_key, tokens,
    need_fold, got_fold, list_text};
use crate::keyed::{lemma_insert_at, lemma_remove_at};
use crate::needed::{restored, comma_parts, items_of};
use crate::codec::{json_of_strings, strings_of_json, plain_list, snapshot_text, lemma_frame_body};
use crate::text::{lex_lt, lemma_lex_irreflexive, lemma_lex_total, white_space, trim_start, trim_end,
    trimmed};

verus! {

/// The place at which a name absent from a sorted list goes.
proof fn lemma_insert_point(l: Seq<Seq<char>>, x: Seq<char>) -> (p: int)
    requires
        sorted_by_key(l),
        !holds_key(l, key(x)),
    ensures
        0 <= p <= l.len(),
        forall|i: int| 0 <= i < p ==> lex_lt(key(#[trigger] l[i]), key(x)),
        p < l.len() ==> lex_lt(key(x), key(l[p])),
    decreases l.len(),
{
    if l.len() == 0 || lex_lt(key(x), key(l[0])) {
        0
    } else {
        let t = l.drop_first();
        assert(key(l[0]) != key(x));
        lemma_lex_total(key(x), key(l[0]));
        assert(sorted_by_key(t)) by {
            assert forall|i: int, j: int| 0 <= i < j < t.len() implies lex_lt(key(t[i]), key(t[j])) by {
                assert(t[i] == l[i + 1] && t[j] == l[j + 1]);
            }
        }
        assert(!holds_key(t, key(x))) by {
            if holds_key(t, key(x)) {
                let i = choose|i: int| 0 <= i < t.len() && key(t[i]) == key(x);
                assert(l[i + 1] == t[i]);
            }
        }
        let q = lemma_insert_point(t, x);
        assert forall|i: int| 0 <= i < q + 1 implies lex_lt(key(#[trigger] l[i]), key(x)) by {
            if i > 0 {
                assert(l[i] == t[i - 1]);
            }
        }
        q + 1
    }
}

/// After adding a single name to a sorted list, the list stays sorted and
/// holds the name.
proof fn lemma_add_one(l: Seq<Seq<char>>, x: Seq<char>)
    requires
        sorted_by_key(l),
    ensures
        sorted_by_key(need_fold(l, seq![x]).0),
        holds_key(need_fold(l, seq![x]).0, key(x)),
        need_fold(l, seq![x]).1 == (if holds_key(l, key(x)) {
            seq![x]
        } else {
            Seq::empty()
        }),
{
    let toks = seq![x];
    assert(toks.drop_last() =~= Seq::<Seq<char>>::empty());
    assert(toks.last() == x);
    assert(need_fold(l, toks.drop_last()) == (l, Seq::<Seq<char>>::empty()));
    if !holds_key(l, key(x)) {
        let p = lemma_insert_point(l, x);
        lemma_insert_at(l, x, p);
        assert(l.insert(p, x)[p] == x);
        assert(key(l.insert(p, x)[p]) == key(x));
    } else {
        assert(Seq::<Seq<char>>::empty().push(x) =~= seq![x]);
    }
}

/// Adding the same single name twice: the second add changes nothing and
/// reports the name as already on the list, and the name is then on the list
/// exactly once.
pub proof fn lemma_add_twice(l: Seq<Seq<char>>, args: Seq<char>, x: Seq<char>)
    requires
        sorted_by_key(l),
        tokens(args) == seq![x],
    ensures
        need_fold(need_fold(l, tokens(args)).0, tokens(args)).0 == need_fold(l, tokens(args)).0,
        need_fold(need_fold(l, tokens(args)).0, tokens(args)).1 == seq![x],
        holds_key(need_fold(l, tokens(args)).0, key(x)),
        forall|i: int, j: int|
            0 <= i < need_fold(l, tokens(args)).0.len() && 0 <= j < need_fold(
                l,
                tokens(args),
            ).0.len() && key(need_fold(l, tokens(args)).0[i]) == key(x) && key(
                need_fold(l, tokens(args)).0[j],
            ) == key(x) ==> i == j,
{
    let first = need_fold(l, seq![x]).0;
    lemma_add_one(l, x);
    lemma_add_one(first, x);
    let toks = seq![x];
    assert(toks.drop_last() =~= Seq::<Seq<char>>::empty());
    assert(need_fold(first, toks.drop_last()) == (first, Seq::<Seq<char>>::empty()));
    assert forall|i: int, j: int|
        0 <= i < first.len() && 0 <= j < first.len() && key(first[i]) == key(x) && key(first[j])
            == key(x) implies i == j by {
        lemma_lex_irreflexive(key(x));
    }
}

/// Adding a name that is not on the list and then removing a name of the
/// same comparison form (the same name in any casing) gives back the list.
pub proof fn lemma_add_then_remove(
    l: Seq<Seq<char>>,
    add_args: Seq<char>,
    x: Seq<char>,
    remove_args: Seq<char>,
    y: Seq<char>,
)
    requires
        sorted_by_key(l),
        tokens(add_args) == seq![x],
        tokens(remove_args) == seq![y],
        key(x) == key(y),
        !holds_key(l, key(x)),
    ensures
        got_fold(need_fold(l, tokens(add_args)).0, tokens(remove_args)).0 == l,
        got_fold(need_fold(l, tokens(add_args)).0, tokens(remove_args)).1 == Seq::<
            Seq<char>,
        >::empty(),
{
    let p = lemma_insert_point(l, x);
    lemma_insert_at(l, x, p);
    let tx = seq![x];
    let ty = seq![y];
    assert(tx.drop_last() =~= Seq::<Seq<char>>::empty());
    assert(ty.drop_last() =~= Seq::<Seq<char>>::empty());
    assert(need_fold(l, tx.drop_last()) == (l, Seq::<Seq<char>>::empty()));
    let m = l.insert(p, x);
    assert(need_fold(l, tx).0 == m);
    assert(m[p] == x);
    assert(key(m[p]) == key(y));
    assert(got_fold(m, ty.drop_last()) == (m, Seq::<Seq<char>>::empty()));
    lemma_remove_at(m, p);
    assert(m.remove(p) =~= l);
}

/// A sorted list is the only sorted arrangement of its items.
pub proof fn lemma_sorted_unique(a: Seq<Seq<char>>, b: Seq<Seq<char>>)
    requires
        sorted_by_key(a),
        sorted_by_key(b),
        forall|s: Seq<char>| a.contains(s) <==> b.contains(s),
    ensures
        a == b,
    decreases a.len(),
{
    if a.len() == 0 {
        if b.len() > 0 {
            assert(b.contains(b[0]));
        }
        assert(a =~= b);
    } else {
        assert(a.contains(a[0]));
        let j = choose|j: int| 0 <= j < b.len() && b[j] == a[0];
        assert(b.contains(b[0]));
        let i = choose|i: int| 0 <= i < a.len() && a[i] == b[0];
        lemma_lex_irreflexive(key(a[0]));
        if i > 0 && j > 0 {
            crate::text::lemma_lex_transitive(key(a[0]), key(a[i]), key(a[0]));
        }
        assert(a[0] == b[0]);
        let ta = a.drop_first();
        let tb = b.drop_first();
        assert(sorted_by_key(ta)) by {
            assert forall|p: int, q: int| 0 <= p < q < ta.len() implies lex_lt(key(ta[p]), key(ta[q])) by {
                assert(ta[p] == a[p + 1] && ta[q] == a[q + 1]);
            }
        }
        assert(sorted_by_key(tb)) by {
            assert forall|p: int, q: int| 0 <= p < q < tb.len() implies lex_lt(key(tb[p]), key(tb[q])) by {
                assert(tb[p] == b[p + 1] && tb[q] == b[q + 1]);
            }
        }
        assert forall|s: Seq<char>| ta.contains(s) <==> tb.contains(s) by {
            if ta.contains(s) {
                let p = choose|p: int| 0 <= p < ta.len() && ta[p] == s;
                assert(a[p + 1] == s);
                assert(a.contains(s));
                let q = choose|q: int| 0 <= q < b.len() && b[q] == s;
                if q == 0 {
                    assert(key(a[0]) == key(a[p + 1]));
                }
                assert(tb[q - 1] == s);
            }
            if tb.contains(s) {
                let p = choose|p: int| 0 <= p < tb.len() && tb[p] == s;
                assert(b[p + 1] == s);
                assert(b.contains(s));
                let q = choose|q: int| 0 <= q < a.len() && a[q] == s;
                if q == 0 {
                    assert(key(b[0]) == key(b[p + 1]));
                }
                assert(ta[q - 1] == s);
            }
        }
        lemma_sorted_unique(ta, tb);
        assert(a =~= seq![a[0]] + ta);
        assert(b =~= seq![b[0]] + tb);
    }
}

/// The numbered listing depends only on which items are on the list: two
/// lists holding the same items render alike, whatever happened before.
pub proof fn lemma_render_deterministic(a: Seq<Seq<char>>, b: Seq<Seq<char>>)
    requires
        sorted_by_key(a),
        sorted_by_key(b),
        forall|s: Seq<char>| a.contains(s) <==> b.contains(s),
    ensures
        list_text(a) == list_text(b),
{
    lemma_sorted_unique(a, b);
}

/// Adding the items of a sorted list in turn to an empty list rebuilds it.
pub proof fn lemma_rebuild(l: Seq<Seq<char>>)
    requires
        sorted_by_key(l),
    ensures
        need_fold(Seq::empty(), l).0 == l,
    decreases l.len(),
{
    if l.len() > 0 {
        let t = l.drop_last();
        let x = l.last();
        assert(sorted_by_key(t)) by {
            assert forall|i: int, j: int| 0 <= i < j < t.len() implies lex_lt(key(t[i]), key(t[j])) by {
                assert(t[i] == l[i] && t[j] == l[j]);
            }
        }
        lemma_rebuild(t);
        assert forall|i: int| 0 <= i < t.len() implies lex_lt(key(#[trigger] t[i]), key(x)) by {
            assert(t[i] == l[i]);
        }
        assert(!holds_key(t, key(x))) by {
            lemma_lex_irreflexive(key(x));
        }
        lemma_insert_at(t, x, t.len() as int);
        assert(t.insert(t.len() as int, x) =~= l);
    } else {
        assert(l =~= Seq::<Seq<char>>::empty());
    }
}

/// Writing the snapshot of a sorted list and restoring it gives back the
/// list, casing included.
pub proof fn lemma_restore_snapshot(l: Seq<Seq<char>>, body: Seq<char>)
    requires
        sorted_by_key(l),
        body == json_of_strings(l),
        strings_of_json(body) == Some(l),
        plain_list(body),
    ensures
        restored(snapshot_text(l)) == l,
{
    lemma_frame_body(body);
    lemma_rebuild(l);
}

proof fn lemma_parts_nonempty(s: Seq<char>)
    ensures
        comma_parts(s).len() >= 1,
    decreases s.len(),
{
    if s.len() > 0 {
        lemma_parts_nonempty(s.drop_last());
    }
}

proof fn lemma_parts_concat(p: Seq<char>, s: Seq<char>)
    ensures
        comma_parts(p + seq![','] + s) == comma_parts(p) + comma_parts(s),
    decreases s.len(),
{
    let u = p + seq![','] + s;
    if s.len() == 0 {
        assert(u.drop_last() =~= p);
        assert(comma_parts(p) + comma_parts(s) =~= comma_parts(p).push(Seq::empty()));
    } else {
        let t = s.drop_last();
        assert(u.drop_last() =~= p + seq![','] + t);
        lemma_parts_concat(p, t);
        lemma_parts_nonempty(t);
        let a = comma_parts(p);
        let b = comma_parts(t);
        if s.last() == ',' {
            assert((a + b).push(Seq::empty()) =~= a + b.push(Seq::empty()));
        } else {
            assert((a + b).update((a + b).len() - 1, (a + b).last().push(s.last())) =~= a
                + b.update(b.len() - 1, b.last().push(s.last())));
        }
    }
}

proof fn lemma_items_concat(a: Seq<Seq<char>>, b: Seq<Seq<char>>)
    ensures
        items_of(a + b) == items_of(a) + items_of(b),
    decreases b.len(),
{
    if b.len() == 0 {
        assert(a + b =~= a);
        assert(items_of(a) + items_of(b) =~= items_of(a));
    } else {
        assert((a + b).drop_last() =~= a + b.drop_last());
        lemma_items_concat(a, b.drop_last());
        let x = items_of(a);
        let y = items_of(b.drop_last());
        let t = trimmed(b.last());
        if t.len() > 0 {
            assert((x + y).push(t) =~= x + y.push(t));
        }
    }
}

proof fn lemma_blank_part(b: Seq<char>)
    requires
        forall|i: int| 0 <= i < b.len() ==> white_space(#[trigger] b[i]),
    ensures
        comma_parts(b) == seq![b],
        trim_start(b).len() == 0,
    decreases b.len(),
{
    if b.len() == 0 {
        assert(b =~= Seq::<char>::empty());
        assert(comma_parts(b) =~= seq![b]);
    } else {
        let t = b.drop_last();
        assert forall|i: int| 0 <= i < t.len() implies white_space(#[trigger] t[i]) by {
            assert(t[i] == b[i]);
        }
        lemma_blank_part(t);
        assert(white_space(b[b.len() - 1]));
        assert(b.last() != ',');
        assert(t.push(b.last()) =~= b);
        assert(b.drop_last() == t);
        let p = comma_parts(t);
        assert(p == seq![t]);
        assert(p.update(p.len() - 1, p.last().push(b.last())) =~= seq![b]);
        let d = b.drop_first();
        assert forall|i: int| 0 <= i < d.len() implies white_space(#[trigger] d[i]) by {
            assert(d[i] == b[i + 1]);
        }
        lemma_blank_part(d);
        assert(white_space(b[0]));
    }
}

/// A blank name before a comma (white space only, maybe none) changes
/// nothing: the names read from `b,s` are those read from `s`, so adding or
/// removing them has the same result and answer.
pub proof fn lemma_blank_token(b: Seq<char>, s: Seq<char>)
    requires
        forall|i: int| 0 <= i < b.len() ==> white_space(#[trigger] b[i]),
    ensures
        tokens(b + seq![','] + s) == tokens(s),
{
    lemma_parts_concat(b, s);
    lemma_blank_part(b);
    lemma_items_concat(seq![b], comma_parts(s));
    assert(seq![b].drop_last() =~= Seq::<Seq<char>>::empty());
    assert(trim_start(b) =~= Seq::<char>::empty());
    assert(trim_end(Seq::<char>::empty()) == Seq::<char>::empty());
    assert(trimmed(b).len() == 0);
    assert(seq![b].last() == b);
    assert(items_of(Seq::<Seq<char>>::empty()) == Seq::<Seq<char>>::empty());
    assert(items_of(seq![b]) =~= Seq::<Seq<char>>::empty());
    assert(Seq::<Seq<char>>::empty() + items_of(comma_parts(s)) =~= items_of(comma_parts(s)));
}

} // verus!

//! The needed-list of one conversation: items compared without regard to
//! case, kept in case-insensitive order, shown in the casing first typed.
use vstd::prelude::*;
use crate::keyed::{keys_of, need_keyed, got_keyed, pairs, with_keys, lemma_need_fold_keyed, lemma_got_fold_keyed,
    lemma_pairs_names, lemma_sorted_keyed};
use crate::listing::{LangIter, joined, listed, int_text, texts, usize_text};
use crate::codec::{strings_of_json, encode_strings, decode_strings, frame, frame_body, frame_body_of,
    is_plain_list, plain_list, snapshot_text, lemma_frame_body};
use crate::text::{lex_lt, lex_less, lower_of, lowercase, trim, trimmed, lemma_lex_irreflexive,
    lemma_lex_transitive, lemma_lex_total};

verus! {

/// The form under which two item names are compared.
pub open spec fn key(s: Seq<char>) -> Seq<char> {
    lower_of(s)
}

/// A string that compares without regard to case, and keeps the casing it
/// was typed in for display.
#[derive(Debug, Clone)]
pub struct SimString {
    pub orig: String,
}

impl SimString {
    /// Wraps a string as typed.
    pub fn new(s: String) -> (r: SimString)
        ensures
            r.orig == s,
    {
        SimString { orig: s }
    }

    /// The comparison form of this string.
    pub fn key(&self) -> (r: String)
        ensures
            r@ == key(self.orig@),
    {
        lowercase(self.orig.as_str())
    }

    /// Orders two strings by their comparison forms.
    pub fn compare(&self, other: &SimString) -> (r: std::cmp::Ordering)
        ensures
            (r == std::cmp::Ordering::Less) == lex_lt(key(self.orig@), key(other.orig@)),
            (r == std::cmp::Ordering::Equal) == (key(self.orig@) == key(other.orig@)),
            (r == std::cmp::Ordering::Greater) == lex_lt(key(other.orig@), key(self.orig@)),
    {
        let a = self.key();
        let b = other.key();
        proof {
            lemma_lex_irreflexive(a@);
            if lex_lt(a@, b@) && lex_lt(b@, a@) {
                lemma_lex_transitive(a@, b@, a@);
            }
            if a@ != b@ {
                lemma_lex_total(a@, b@);
            }
        }
        if a == b {
            std::cmp::Ordering::Equal
        } else if lex_less(a.as_str(), b.as_str()) {
            std::cmp::Ordering::Less
        } else {
            std::cmp::Ordering::Greater
        }
    }
}

impl From<String> for SimString {
    fn from(s: String) -> (r: SimString) {
        SimString::new(s)
    }
}

impl vstd::std_specs::convert::FromSpecImpl<String> for SimString {
    open spec fn obeys_from_spec() -> bool {
        true
    }

    open spec fn from_spec(s: String) -> SimString {
        SimString { orig: s }
    }
}

/// The displayed texts of a sequence of items.
pub open spec fn shown(v: Seq<SimString>) -> Seq<Seq<char>> {
    v.map_values(|x: SimString| x.orig@)
}

/// The items are in strictly increasing order of comparison form, so no two
/// of them are the same item.
pub open spec fn sorted_by_key(l: Seq<Seq<char>>) -> bool {
    forall|i: int, j: int| 0 <= i < j < l.len() ==> lex_lt(key(l[i]), key(l[j]))
}

/// Some item of `l` has comparison form `k`.
pub open spec fn holds_key(l: Seq<Seq<char>>, k: Seq<char>) -> bool {
    exists|i: int| 0 <= i < l.len() && key(l[i]) == k
}

/// `l` with `x` put in its place in the order.
pub open spec fn insert_sorted(l: Seq<Seq<char>>, x: Seq<char>) -> Seq<Seq<char>>
    decreases l.len(),
{
    if l.len() == 0 {
        seq![x]
    } else if lex_lt(key(x), key(l[0])) {
        seq![x] + l
    } else {
        seq![l[0]] + insert_sorted(l.drop_first(), x)
    }
}

/// `l` without its items of comparison form `k`.
pub open spec fn remove_key(l: Seq<Seq<char>>, k: Seq<char>) -> Seq<Seq<char>>
    decreases l.len(),
{
    if l.len() == 0 {
        l
    } else if key(l[0]) == k {
        remove_key(l.drop_first(), k)
    } else {
        seq![l[0]] + remove_key(l.drop_first(), k)
    }
}

/// The keys are in strictly increasing order.
pub open spec fn keys_sorted(keys: Seq<Seq<char>>) -> bool {
    forall|i: int, j: int| 0 <= i < j < keys.len() ==> lex_lt(keys[i], keys[j])
}

/// Where key `k` stands among keys in increasing order: whether it is there
/// and its index, else the index at which it would be inserted.
pub fn position_of_key(keys: &Vec<String>, k: &String) -> (r: (bool, usize))
    requires
        keys_sorted(texts(keys@)),
    ensures
        r.0 == texts(keys@).contains(k@),
        r.0 ==> r.1 < keys@.len() && keys@[r.1 as int]@ == k@,
        !r.0 ==> r.1 <= keys@.len() && (forall|i: int|
            0 <= i < r.1 ==> lex_lt(#[trigger] keys@[i]@, k@)) && (r.1 < keys@.len() ==> lex_lt(
            k@,
            keys@[r.1 as int]@,
        )),
{
    let ghost t = texts(keys@);
    let n = keys.len();
    let mut i: usize = 0;
    while i < n
        invariant
            n == keys@.len(),
            t == texts(keys@),
            keys_sorted(t),
            i <= n,
            forall|j: int| 0 <= j < i ==> lex_lt(#[trigger] keys@[j]@, k@),
        decreases n - i,
    {
        let ki = &keys[i];
        assert(t[i as int] == ki@);
        if *ki == *k {
            assert(t.contains(k@));
            return (true, i);
        }
        if lex_less(k.as_str(), ki.as_str()) {
            proof {
                assert forall|j: int| 0 <= j < t.len() implies #[trigger] t[j] != k@ by {
                    assert(t[j] == keys@[j]@);
                    lemma_lex_irreflexive(k@);
                    if j > i {
                        lemma_lex_transitive(k@, t[i as int], t[j]);
                    }
                }
            }
            return (false, i);
        }
        proof {
            lemma_lex_total(k@, ki@);
        }
        i = i + 1;
    }
    proof {
        assert forall|j: int| 0 <= j < t.len() implies #[trigger] t[j] != k@ by {
            assert(t[j] == keys@[j]@);
            lemma_lex_irreflexive(k@);
        }
    }
    (false, n)
}

/// The comma-separated parts of a text, empty ones included.
pub open spec fn comma_parts(s: Seq<char>) -> Seq<Seq<char>>
    decreases s.len(),
{
    if s.len() == 0 {
        seq![Seq::empty()]
    } else {
        let p = comma_parts(s.drop_last());
        if s.last() == ',' {
            p.push(Seq::empty())
        } else {
            p.update(p.len() - 1, p.last().push(s.last()))
        }
    }
}

/// The parts, trimmed, with those left empty dropped.
pub open spec fn items_of(parts: Seq<Seq<char>>) -> Seq<Seq<char>>
    decreases parts.len(),
{
    if parts.len() == 0 {
        Seq::empty()
    } else {
        let r = items_of(parts.drop_last());
        let t = trimmed(parts.last());
        if t.len() > 0 {
            r.push(t)
        } else {
            r
        }
    }
}

/// The item names in a command argument: split at commas, trimmed, with
/// empty names dropped.
pub open spec fn tokens(s: Seq<char>) -> Seq<Seq<char>> {
    items_of(comma_parts(s))
}


/// The item names in `args`: split at commas, trimmed, with empty names
/// dropped.
pub fn split(args: String) -> (r: Vec<SimString>)
    ensures
        shown(r@) == tokens(args@),
{
    let s = args.as_str();
    let n = s.unicode_len();
    let mut out: Vec<SimString> = Vec::new();
    let ghost mut done: Seq<Seq<char>> = Seq::empty();
    let mut st: usize = 0;
    let mut i: usize = 0;
    assert(s@.take(0) =~= Seq::<char>::empty());
    assert(s@.subrange(0, 0) =~= Seq::<char>::empty());
    assert(comma_parts(s@.take(0)) =~= done.push(s@.subrange(0, 0)));
    while i < n
        invariant
            n == s@.len(),
            st <= i <= n,
            comma_parts(s@.take(i as int)) == done.push(s@.subrange(st as int, i as int)),
            shown(out@) == items_of(done),
        decreases n - i,
    {
        let c = s.get_char(i);
        assert(s@.take(i + 1).drop_last() =~= s@.take(i as int));
        assert(s@.take(i + 1).last() == c);
        if c == ',' {
            let part = trim(s.substring_char(st, i));
            let ghost old_done = done;
            proof {
                done = done.push(s@.subrange(st as int, i as int));
                assert(done.drop_last() =~= old_done);
            }
            if part.unicode_len() > 0 {
                out.push(SimString::new(part));
                assert(shown(out@) =~= items_of(done));
            }
            st = i + 1;
            assert(s@.subrange(st as int, i + 1) =~= Seq::<char>::empty());
        } else {
            assert(s@.subrange(st as int, i as int).push(c) =~= s@.subrange(st as int, i + 1));
            assert(comma_parts(s@.take(i + 1)) =~= done.push(s@.subrange(st as int, i + 1)));
        }
        i = i + 1;
    }
    let part = trim(s.substring_char(st, n));
    assert(s@.take(n as int) =~= s@);
    let ghost parts = done.push(s@.subrange(st as int, n as int));
    assert(parts.drop_last() =~= done);
    if part.unicode_len() > 0 {
        out.push(SimString::new(part));
        assert(shown(out@) =~= items_of(parts));
    }
    out
}


/// Each item between single quotes.
pub open spec fn quoted(items: Seq<Seq<char>>) -> Seq<Seq<char>> {
    items.map_values(|s: Seq<char>| "'"@ + s + "'"@)
}

/// A sentence naming `items`, ended by `tail`; nothing when there are none.
pub open spec fn report(items: Seq<Seq<char>>, tail: Seq<char>) -> Seq<char> {
    if items.len() == 0 {
        Seq::empty()
    } else {
        listed(quoted(items), ", "@, " and "@) + tail
    }
}

/// The lines of a numbered listing, counted from one.
pub open spec fn numbered(l: Seq<Seq<char>>) -> Seq<Seq<char>> {
    Seq::new(l.len(), |i: int| int_text(i + 1) + ". "@ + l[i])
}

/// A numbered listing of the items, one per line.
pub open spec fn list_text(l: Seq<Seq<char>>) -> Seq<char> {
    joined(numbered(l), "\n"@)
}

/// The answer to an add: the names that were already there, then the list.
pub open spec fn need_message(already: Seq<Seq<char>>, l: Seq<Seq<char>>) -> Seq<char> {
    report(already, " already on the list!\n"@) + "We need:\n"@ + list_text(l)
}

/// The answer to a removal: the names that were not there, then what is
/// still needed, or that nothing is.
pub open spec fn got_message(missing: Seq<Seq<char>>, l: Seq<Seq<char>>) -> Seq<char> {
    report(missing, " not on the list!\n"@) + if l.len() == 0 {
        "We have everything we need :-)"@
    } else {
        "We still need:\n"@ + list_text(l)
    }
}

/// Adding the names `toks` in turn to `l`: the new list, and the names that
/// were already on it (each judged against the list as it stood then).
pub open spec fn need_fold(l: Seq<Seq<char>>, toks: Seq<Seq<char>>) -> (Seq<Seq<char>>, Seq<Seq<char>>)
    decreases toks.len(),
{
    if toks.len() == 0 {
        (l, Seq::empty())
    } else {
        let prev = need_fold(l, toks.drop_last());
        let t = toks.last();
        if holds_key(prev.0, key(t)) {
            (prev.0, prev.1.push(t))
        } else {
            (insert_sorted(prev.0, t), prev.1)
        }
    }
}

/// Removing the names `toks` in turn from `l`: the new list, and the names
/// that were not on it.
pub open spec fn got_fold(l: Seq<Seq<char>>, toks: Seq<Seq<char>>) -> (Seq<Seq<char>>, Seq<Seq<char>>)
    decreases toks.len(),
{
    if toks.len() == 0 {
        (l, Seq::empty())
    } else {
        let prev = got_fold(l, toks.drop_last());
        let t = toks.last();
        if holds_key(prev.0, key(t)) {
            (remove_key(prev.0, key(t)), prev.1)
        } else {
            (prev.0, prev.1.push(t))
        }
    }
}

/// Each name between single quotes.
fn quote_all(names: &Vec<SimString>) -> (r: Vec<String>)
    ensures
        texts(r@) == quoted(shown(names@)),
{
    let mut r: Vec<String> = Vec::new();
    let mut i: usize = 0;
    while i < names.len()
        invariant
            i <= names@.len(),
            texts(r@) == quoted(shown(names@)).take(i as int),
        decreases names@.len() - i,
    {
        let mut q = String::from_str("'");
        q.append(names[i].orig.as_str());
        q.append("'");
        let ghost prev = texts(r@);
        let ghost qs = quoted(shown(names@));
        assert(shown(names@)[i as int] == names@[i as int].orig@);
        assert(qs[i as int] == q@);
        r.push(q);
        assert(texts(r@) =~= prev.push(qs[i as int]));
        assert(qs.take(i + 1) =~= qs.take(i as int).push(qs[i as int]));
        i = i + 1;
    }
    assert(quoted(shown(names@)).take(i as int) =~= quoted(shown(names@)));
    r
}

/// The sentence naming `names`, ended by `tail`, or nothing.
pub fn report_line(names: &Vec<SimString>, tail: &str) -> (r: String)
    ensures
        r@ == report(shown(names@), tail@),
{
    if names.len() == 0 {
        String::new()
    } else {
        let q = quote_all(names);
        let mut out = q.listify(", ", " and ");
        out.append(tail);
        out
    }
}

/// The list of needed items of one conversation.
pub struct Needed {
    pub list: Vec<SimString>,
}

impl View for Needed {
    type V = Seq<Seq<char>>;

    open spec fn view(&self) -> Seq<Seq<char>> {
        shown(self.list@)
    }
}

impl Default for Needed {
    fn default() -> (r: Needed)
        ensures
            r@ == Seq::<Seq<char>>::empty(),
            r.wf(),
    {
        Needed::new()
    }
}

impl Needed {
    /// The items are in order and no two are the same item.
    pub open spec fn wf(&self) -> bool {
        sorted_by_key(self@)
    }

    /// An empty list.
    pub fn new() -> (r: Needed)
        ensures
            r@ == Seq::<Seq<char>>::empty(),
            r.wf(),
    {
        let r = Needed { list: Vec::new() };
        assert(r@ =~= Seq::<Seq<char>>::empty());
        r
    }

    /// Adds each item named in `args` that is not yet on the list, and answers
    /// with the names that were, followed by the whole list.
    pub fn handle_need(&mut self, args: String) -> (r: String)
        requires
            old(self).wf(),
        ensures
            final(self).wf(),
            final(self)@ == need_fold(old(self)@, tokens(args@)).0,
            r@ == need_message(need_fold(old(self)@, tokens(args@)).1, final(self)@),
    {
        let ghost start = self@;
        let toks = split(args);
        let tok_keys = keys_of(&toks);
        let mut keys = keys_of(&self.list);
        proof {
            lemma_sorted_keyed(start);
        }
        let already = need_keyed(&mut self.list, &mut keys, &toks, &tok_keys);
        proof {
            lemma_need_fold_keyed(start, shown(toks@));
            lemma_pairs_names(self@, texts(keys@), need_fold(start, shown(toks@)).0);
            lemma_sorted_keyed(self@);
        }
        let mut out = report_line(&already, " already on the list!\n");
        out.append("We need:\n");
        let listing = self.str_list();
        out.append(listing.as_str());
        out
    }

    /// Removes each item named in `args` that is on the list, and answers with
    /// the names that were not, followed by what is still needed.
    pub fn handle_got(&mut self, args: String) -> (r: String)
        requires
            old(self).wf(),
        ensures
            final(self).wf(),
            final(self)@ == got_fold(old(self)@, tokens(args@)).0,
            r@ == got_message(got_fold(old(self)@, tokens(args@)).1, final(self)@),
    {
        let ghost start = self@;
        let toks = split(args);
        let tok_keys = keys_of(&toks);
        let mut keys = keys_of(&self.list);
        proof {
            lemma_sorted_keyed(start);
        }
        let not_found = got_keyed(&mut self.list, &mut keys, &toks, &tok_keys);
        proof {
            lemma_got_fold_keyed(start, shown(toks@));
            lemma_pairs_names(self@, texts(keys@), got_fold(start, shown(toks@)).0);
            lemma_sorted_keyed(self@);
        }
        let mut out = report_line(&not_found, " not on the list!\n");
        if self.list.len() == 0 {
            out.append("We have everything we need :-)");
        } else {
            out.append("We still need:\n");
            let listing = self.str_list();
            out.append(listing.as_str());
        }
        out
    }

    /// The items, numbered from one, one per line, in order.
    pub fn str_list(&self) -> (r: String)
        ensures
            r@ == list_text(self@),
    {
        let mut lines: Vec<String> = Vec::new();
        let mut i: usize = 0;
        while i < self.list.len()
            invariant
                i <= self.list@.len(),
                texts(lines@) == numbered(self@).take(i as int),
            decreases self.list@.len() - i,
        {
            let mut line = usize_text(i + 1);
            line.append(". ");
            line.append(self.list[i].orig.as_str());
            let ghost prev = texts(lines@);
            let ghost nb = numbered(self@);
            assert(self@[i as int] == self.list@[i as int].orig@);
            assert(nb[i as int] == line@);
            lines.push(line);
            assert(texts(lines@) =~= prev.push(nb[i as int]));
            assert(nb.take(i + 1) =~= nb.take(i as int).push(nb[i as int]));
            i = i + 1;
        }
        assert(numbered(self@).take(i as int) =~= numbered(self@));
        crate::listing::join_with(&lines, "\n")
    }
}


/// The names a snapshot text holds: it has the snapshot frame, its list
/// text is a plain array of strings, and that text decodes.
pub open spec fn snapshot_names(text: Seq<char>) -> Option<Seq<Seq<char>>> {
    match frame_body(text) {
        Some(m) => if plain_list(m) {
            strings_of_json(m)
        } else {
            None
        },
        None => None,
    }
}

/// The list that a snapshot text restores: the names it holds added in turn
/// to an empty list, or an empty list where the text holds none.
pub open spec fn restored(text: Seq<char>) -> Seq<Seq<char>> {
    match snapshot_names(text) {
        Some(v) => need_fold(Seq::empty(), v).0,
        None => Seq::empty(),
    }
}

impl Needed {
    /// The displayed names of the items, in order.
    pub fn names(&self) -> (r: Vec<String>)
        ensures
            texts(r@) == self@,
    {
        let mut r: Vec<String> = Vec::new();
        let mut i: usize = 0;
        while i < self.list.len()
            invariant
                i <= self.list@.len(),
                texts(r@) == self@.take(i as int),
            decreases self.list@.len() - i,
        {
            let ghost prev = texts(r@);
            r.push(self.list[i].orig.clone());
            assert(texts(r@) =~= prev.push(self@[i as int]));
            assert(self@.take(i + 1) =~= self@.take(i as int).push(self@[i as int]));
            i = i + 1;
        }
        assert(self@.take(i as int) =~= self@);
        r
    }

    /// The snapshot text of this list; restoring it gives the list back.
    pub fn snapshot(&self) -> (r: String)
        ensures
            r@ == snapshot_text(self@),
            self.wf() ==> restored(r@) == self@,
    {
        let names = self.names();
        match encode_strings(&names) {
            Some(body) => {
                proof {
                    lemma_frame_body(body@);
                    if self.wf() {
                        crate::laws::lemma_rebuild(self@);
                    }
                }
                frame(body.as_str())
            },
            None => {
                assert(false);
                String::new()
            },
        }
    }

    /// The list that a snapshot text holds, or nothing where the text is no
    /// snapshot.
    pub fn try_restore(text: &str) -> (r: Option<Needed>)
        ensures
            r is Some <==> snapshot_names(text@) is Some,
            r matches Some(n) ==> n.wf() && n@ == restored(text@),
    {
        let body = match frame_body_of(text) {
            Some(b) => b,
            None => return None,
        };
        if !is_plain_list(body.as_str()) {
            return None;
        }
        match decode_strings(body.as_str()) {
            None => None,
            Some(v) => {
                let mut toks: Vec<SimString> = Vec::new();
                let mut j: usize = 0;
                while j < v.len()
                    invariant
                        j <= v@.len(),
                        shown(toks@) == texts(v@).take(j as int),
                    decreases v@.len() - j,
                {
                    let ghost prev = shown(toks@);
                    toks.push(SimString::new(v[j].clone()));
                    assert(shown(toks@) =~= prev.push(texts(v@)[j as int]));
                    assert(texts(v@).take(j + 1) =~= texts(v@).take(j as int).push(
                        texts(v@)[j as int],
                    ));
                    j = j + 1;
                }
                assert(texts(v@).take(j as int) =~= texts(v@));
                let tok_keys = keys_of(&toks);
                let mut r = Needed::new();
                let mut keys: Vec<String> = Vec::new();
                let ghost start = r@;
                proof {
                    assert(pairs(shown(r.list@), texts(keys@)) =~= with_keys(start));
                    lemma_sorted_keyed(start);
                }
                let _ = need_keyed(&mut r.list, &mut keys, &toks, &tok_keys);
                proof {
                    lemma_need_fold_keyed(start, shown(toks@));
                    lemma_pairs_names(r@, texts(keys@), need_fold(start, shown(toks@)).0);
                    lemma_sorted_keyed(r@);
                }
                Some(r)
            },
        }
    }

    /// The list that a snapshot text holds; an empty list where the text is
    /// no snapshot.
    pub fn restore(text: &str) -> (r: Needed)
        ensures
            r.wf(),
            r@ == restored(text@),
    {
        match Needed::try_restore(text) {
            Some(n) => n,
            None => Needed::new(),
        }
    }
}

} // verus!

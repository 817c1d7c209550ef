//! Snapshot text of a needed-list: `{"needed":{"list":[...]}}`, the JSON
//! array holding the item names.
use vstd::prelude::*;
use crate::listing::texts;

verus! {

/// The JSON text that `rustc_serialize::json::encode` writes for a list of
/// strings.
pub uninterp spec fn json_of_strings(items: Seq<Seq<char>>) -> Seq<char>;

/// The list of strings that `rustc_serialize::json::decode` reads from a
/// text, or `None` where the text is no JSON array of strings.
pub uninterp spec fn strings_of_json(text: Seq<char>) -> Option<Seq<Seq<char>>>;

/// The state after reading `s` from the start, outside or inside string
/// literals: bracket depth, inside a string, after a backslash in a string,
/// and whether the depth stayed within zero and one all along.
pub open spec fn scan(s: Seq<char>) -> (int, bool, bool, bool)
    decreases s.len(),
{
    if s.len() == 0 {
        (0, false, false, true)
    } else {
        let p = scan(s.drop_last());
        let c = s.last();
        if p.1 {
            if p.2 {
                (p.0, true, false, p.3)
            } else if c == '\\' {
                (p.0, true, true, p.3)
            } else if c == '"' {
                (p.0, false, false, p.3)
            } else {
                (p.0, true, false, p.3)
            }
        } else if c == '"' {
            (p.0, true, false, p.3)
        } else if c == '[' || c == '{' {
            (p.0 + 1, false, false, p.3 && p.0 + 1 <= 1)
        } else if c == ']' || c == '}' {
            (p.0 - 1, false, false, p.3 && p.0 - 1 >= 0)
        } else {
            (p.0, false, false, p.3)
        }
    }
}

/// Brackets outside string literals never nest: the text is at most one
/// array or object deep.
pub open spec fn shallow(s: Seq<char>) -> bool {
    scan(s).3
}

/// A character that may stand outside string literals in a JSON array of
/// strings.
pub open spec fn list_mark(c: char) -> bool {
    c == '"' || c == '[' || c == ']' || c == ',' || json_ws(c)
}

/// Outside string literals the text holds only quotes, brackets, commas and
/// white space.
pub open spec fn marks_only(s: Seq<char>) -> bool
    decreases s.len(),
{
    if s.len() == 0 {
        true
    } else {
        marks_only(s.drop_last()) && (scan(s.drop_last()).1 || list_mark(s.last()))
    }
}

/// The text may be an array of strings, at most one level deep: outside
/// string literals there are only brackets, commas and white space, and the
/// brackets do not nest.
pub open spec fn plain_list(s: Seq<char>) -> bool {
    shallow(s) && marks_only(s)
}

/// Relies on `rustc_serialize::json::encode` for `Vec<String>`: it cannot
/// fail (its only errors are a map key that is no string and a failing
/// writer, and it writes into a `String`). The text is one array of string
/// literals, written with the escapes of `escape_str`, so outside literals it
/// holds only the brackets and commas; `json::decode` reads it back as the
/// same strings.
#[verifier::external_body]
pub(crate) fn encode_strings(items: &Vec<String>) -> (r: Option<String>)
    ensures
        r is Some,
        r matches Some(t) ==> t@ == json_of_strings(texts(items@)),
        r matches Some(t) ==> strings_of_json(t@) == Some(texts(items@)),
        r matches Some(t) ==> plain_list(t@),
{
    rustc_serialize::json::encode(items).ok()
}

/// Relies on `rustc_serialize::json::decode` into `Vec<String>`. Its builder
/// recurses once per nested array or object, and its number and object-key
/// readers can panic on long exponents and keys; so the text is held to one
/// level, and to no numbers, literals or objects.
#[verifier::external_body]
pub(crate) fn decode_strings(text: &str) -> (r: Option<Vec<String>>)
    requires
        plain_list(text@),
    ensures
        match r {
            Some(v) => strings_of_json(text@) == Some(texts(v@)),
            None => strings_of_json(text@) is None,
        },
{
    rustc_serialize::json::decode::<Vec<String>>(text).ok()
}

proof fn lemma_scan_prefix(s: Seq<char>, i: int)
    requires
        0 <= i <= s.len(),
        scan(s).3,
    ensures
        scan(s.take(i)).3,
    decreases s.len() - i,
{
    if i == s.len() {
        assert(s.take(i) =~= s);
    } else {
        lemma_scan_prefix(s, i + 1);
        assert(s.take(i + 1).drop_last() =~= s.take(i));
    }
}

proof fn lemma_marks_prefix(s: Seq<char>, i: int)
    requires
        0 <= i <= s.len(),
        marks_only(s),
    ensures
        marks_only(s.take(i)),
    decreases s.len() - i,
{
    if i == s.len() {
        assert(s.take(i) =~= s);
    } else {
        lemma_marks_prefix(s, i + 1);
        assert(s.take(i + 1).drop_last() =~= s.take(i));
    }
}

/// Whether `text` may be an array of strings at most one level deep: outside
/// string literals only brackets, commas and white space, with no nesting.
pub fn is_plain_list(text: &str) -> (r: bool)
    ensures
        r == plain_list(text@),
{
    let n = text.unicode_len();
    let mut i: usize = 0;
    let mut depth: u8 = 0;
    let mut in_str = false;
    let mut esc = false;
    assert(text@.take(0) =~= Seq::<char>::empty());
    while i < n
        invariant
            n == text@.len(),
            i <= n,
            depth <= 1,
            scan(text@.take(i as int)) == (depth as int, in_str, esc, true),
            marks_only(text@.take(i as int)),
        decreases n - i,
    {
        let c = text.get_char(i);
        assert(text@.take(i + 1).drop_last() =~= text@.take(i as int));
        assert(text@.take(i + 1).last() == c);
        if !in_str && !(c == '"' || c == '[' || c == ']' || c == ',' || is_json_ws(c)) {
            proof {
                if marks_only(text@) {
                    lemma_marks_prefix(text@, i + 1);
                }
            }
            return false;
        }
        if in_str {
            if esc {
                esc = false;
            } else if c == '\\' {
                esc = true;
            } else if c == '"' {
                in_str = false;
            }
        } else if c == '"' {
            in_str = true;
        } else if c == '[' || c == '{' {
            if depth == 1 {
                proof {
                    if scan(text@).3 {
                        lemma_scan_prefix(text@, i + 1);
                    }
                }
                return false;
            }
            depth = 1;
        } else if c == ']' || c == '}' {
            if depth == 0 {
                proof {
                    if scan(text@).3 {
                        lemma_scan_prefix(text@, i + 1);
                    }
                }
                return false;
            }
            depth = 0;
        }
        i = i + 1;
    }
    assert(text@.take(n as int) =~= text@);
    true
}

/// White space between JSON tokens.
pub open spec fn json_ws(c: char) -> bool {
    c == ' ' || c == '\n' || c == '\t' || c == '\r'
}

/// The first index from `i` on that holds no white space.
pub open spec fn ws_from(s: Seq<char>, i: int) -> int
    decreases s.len() - i,
{
    if 0 <= i < s.len() && json_ws(s[i]) {
        ws_from(s, i + 1)
    } else {
        i
    }
}

/// The end of `lit` where it follows index `i` after white space.
pub open spec fn token_end(s: Seq<char>, i: int, lit: Seq<char>) -> Option<int> {
    let j = ws_from(s, i);
    if j + lit.len() <= s.len() && s.subrange(j, j + lit.len()) == lit {
        Some(j + lit.len())
    } else {
        None
    }
}

/// The index before `e`, past white space going back, not below `lo`.
pub open spec fn ws_back(s: Seq<char>, lo: int, e: int) -> int
    decreases e - lo,
{
    if lo < e && json_ws(s[e - 1]) {
        ws_back(s, lo, e - 1)
    } else {
        e
    }
}

/// The index of a `}` that ends the text before `e`, white space after it
/// aside, above `lo`.
pub open spec fn close_at(s: Seq<char>, lo: int, e: int) -> Option<int> {
    let k = ws_back(s, lo, e);
    if lo < k && s[k - 1] == '}' {
        Some(k - 1)
    } else {
        None
    }
}

/// Where the list text starts: after `{"needed":{"list":`.
pub open spec fn body_start(s: Seq<char>) -> Option<int> {
    match token_end(s, 0, "{"@) {
        None => None,
        Some(a) => match token_end(s, a, "\"needed\""@) {
            None => None,
            Some(b) => match token_end(s, b, ":"@) {
                None => None,
                Some(c) => match token_end(s, c, "{"@) {
                    None => None,
                    Some(d) => match token_end(s, d, "\"list\""@) {
                        None => None,
                        Some(e) => token_end(s, e, ":"@),
                    },
                },
            },
        },
    }
}

/// The list text inside a snapshot `{"needed":{"list": ... }}`, where the
/// text has that frame.
pub open spec fn frame_body(s: Seq<char>) -> Option<Seq<char>> {
    match body_start(s) {
        None => None,
        Some(a) => match close_at(s, a, s.len() as int) {
            None => None,
            Some(b) => match close_at(s, a, b) {
                None => None,
                Some(c) => Some(s.subrange(a, c)),
            },
        },
    }
}

/// The snapshot text of a list of names.
pub open spec fn snapshot_text(items: Seq<Seq<char>>) -> Seq<char> {
    "{\"needed\":{\"list\":"@ + json_of_strings(items) + "}}"@
}

fn is_json_ws(c: char) -> (r: bool)
    ensures
        r == json_ws(c),
{
    c == ' ' || c == '\n' || c == '\t' || c == '\r'
}

fn skip_ws(s: &str, n: usize, i: usize) -> (j: usize)
    requires
        n == s@.len(),
        i <= n,
    ensures
        j as int == ws_from(s@, i as int),
        j <= n,
{
    let mut j = i;
    while j < n && is_json_ws(s.get_char(j))
        invariant
            n == s@.len(),
            i <= j <= n,
            ws_from(s@, j as int) == ws_from(s@, i as int),
        decreases n - j,
    {
        j = j + 1;
    }
    j
}

fn token(s: &str, n: usize, i: usize, lit: &str) -> (r: Option<usize>)
    requires
        n == s@.len(),
        i <= n,
    ensures
        match r {
            Some(e) => token_end(s@, i as int, lit@) == Some(e as int) && e <= n,
            None => token_end(s@, i as int, lit@) is None,
        },
{
    let j = skip_ws(s, n, i);
    let m = lit.unicode_len();
    if m > n - j {
        return None;
    }
    let mut k: usize = 0;
    while k < m
        invariant
            n == s@.len(),
            m == lit@.len(),
            j as int == ws_from(s@, i as int),
            j + m <= n,
            k <= m,
            s@.subrange(j as int, j + k) =~= lit@.take(k as int),
        decreases m - k,
    {
        let sc = s.get_char(j + k);
        let lc = lit.get_char(k);
        if sc != lc {
            assert(s@.subrange(j as int, j + m)[k as int] == sc);
            assert(s@.subrange(j as int, j + m) != lit@);
            return None;
        }
        assert(s@.subrange(j as int, j + k + 1) =~= lit@.take(k + 1));
        k = k + 1;
    }
    assert(lit@.take(m as int) =~= lit@);
    Some(j + m)
}

fn close(s: &str, lo: usize, e: usize) -> (r: Option<usize>)
    requires
        lo <= e <= s@.len(),
    ensures
        match r {
            Some(k) => close_at(s@, lo as int, e as int) == Some(k as int) && lo <= k < e,
            None => close_at(s@, lo as int, e as int) is None,
        },
{
    let mut k = e;
    while lo < k && is_json_ws(s.get_char(k - 1))
        invariant
            lo <= k <= e <= s@.len(),
            ws_back(s@, lo as int, k as int) == ws_back(s@, lo as int, e as int),
        decreases k,
    {
        k = k - 1;
    }
    if lo < k && s.get_char(k - 1) == '}' {
        Some(k - 1)
    } else {
        None
    }
}

/// The list text inside a snapshot, where the text has the snapshot frame.
pub fn frame_body_of(text: &str) -> (r: Option<String>)
    ensures
        match r {
            Some(m) => frame_body(text@) == Some(m@),
            None => frame_body(text@) is None,
        },
{
    let n = text.unicode_len();
    let a = match token(text, n, 0, "{") { Some(x) => x, None => return None };
    let b = match token(text, n, a, "\"needed\"") { Some(x) => x, None => return None };
    let c = match token(text, n, b, ":") { Some(x) => x, None => return None };
    let d = match token(text, n, c, "{") { Some(x) => x, None => return None };
    let e = match token(text, n, d, "\"list\"") { Some(x) => x, None => return None };
    let f = match token(text, n, e, ":") { Some(x) => x, None => return None };
    let g = match close(text, f, n) { Some(x) => x, None => return None };
    let h = match close(text, f, g) { Some(x) => x, None => return None };
    Some(String::from_str(text.substring_char(f, h)))
}

/// The snapshot text that holds the list text `body`.
pub fn frame(body: &str) -> (r: String)
    ensures
        r@ == "{\"needed\":{\"list\":"@ + body@ + "}}"@,
{
    let mut r = String::from_str("{\"needed\":{\"list\":");
    r.append(body);
    r.append("}}");
    r
}

/// A snapshot text frames the list text that was put into it.
pub proof fn lemma_frame_body(body: Seq<char>)
    ensures
        frame_body("{\"needed\":{\"list\":"@ + body + "}}"@) == Some(body),
{
    let pre = "{\"needed\":{\"list\":"@;
    let post = "}}"@;
    let s = pre + body + post;
    reveal_strlit("{\"needed\":{\"list\":");
    reveal_strlit("}}");
    reveal_strlit("{");
    reveal_strlit("\"needed\"");
    reveal_strlit(":");
    reveal_strlit("\"list\"");
    assert(pre.len() == 18);
    assert forall|i: int| 0 <= i < 18 implies s[i] == pre[i] by {}
    assert(s[0] == '{');
    assert(ws_from(s, 0) == 0);
    assert(s.subrange(0, 1) =~= "{"@);
    assert(s[1] == '"');
    assert(ws_from(s, 1) == 1);
    assert(s.subrange(1, 9) =~= "\"needed\""@);
    assert(s[9] == ':');
    assert(ws_from(s, 9) == 9);
    assert(s.subrange(9, 10) =~= ":"@);
    assert(s[10] == '{');
    assert(ws_from(s, 10) == 10);
    assert(s.subrange(10, 11) =~= "{"@);
    assert(s[11] == '"');
    assert(ws_from(s, 11) == 11);
    assert(s.subrange(11, 17) =~= "\"list\""@);
    assert(s[17] == ':');
    assert(ws_from(s, 17) == 17);
    assert(s.subrange(17, 18) =~= ":"@);
    assert(body_start(s) == Some(18int));
    let n = s.len() as int;
    assert(s[n - 1] == '}');
    assert(s[n - 2] == '}');
    assert(ws_back(s, 18, n) == n);
    assert(ws_back(s, 18, n - 1) == n - 1);
    assert(s.subrange(18, n - 2) =~= body);
}

} // verus!

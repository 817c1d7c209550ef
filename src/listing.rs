use vstd::prelude::*;

verus! {

/// The text of each string in a sequence.
pub open spec fn texts(v: Seq<String>) -> Seq<Seq<char>> {
    v.map_values(|s: String| s@)
}

/// The items one after the other, with `sep` between neighbours.
pub open spec fn joined(items: Seq<Seq<char>>, sep: Seq<char>) -> Seq<char>
    decreases items.len(),
{
    if items.len() == 0 {
        Seq::empty()
    } else if items.len() == 1 {
        items[0]
    } else {
        joined(items.drop_last(), sep) + sep + items.last()
    }
}

/// The items as an enumeration in prose: `sep` between neighbours, but
/// `last_sep` before the final item (`a, b and c`).
pub open spec fn listed(items: Seq<Seq<char>>, sep: Seq<char>, last_sep: Seq<char>) -> Seq<char> {
    if items.len() < 2 {
        joined(items, sep)
    } else {
        joined(items.drop_last(), sep) + last_sep + items.last()
    }
}

/// The character of a decimal digit.
pub open spec fn digit_char(d: int) -> char {
    if d == 0 {
        '0'
    } else if d == 1 {
        '1'
    } else if d == 2 {
        '2'
    } else if d == 3 {
        '3'
    } else if d == 4 {
        '4'
    } else if d == 5 {
        '5'
    } else if d == 6 {
        '6'
    } else if d == 7 {
        '7'
    } else if d == 8 {
        '8'
    } else {
        '9'
    }
}

/// The decimal digits of a natural number, without leading zeros.
pub open spec fn nat_text(n: nat) -> Seq<char>
    decreases n,
{
    if n < 10 {
        seq![digit_char(n as int)]
    } else {
        nat_text(n / 10) + seq![digit_char((n % 10) as int)]
    }
}

/// The decimal text of an integer, with a leading `-` when it is negative.
pub open spec fn int_text(n: int) -> Seq<char> {
    if n < 0 {
        seq!['-'] + nat_text((-n) as nat)
    } else {
        nat_text(n as nat)
    }
}

/// The text of one decimal digit.
fn digit_text(d: u64) -> (r: &'static str)
    requires
        d < 10,
    ensures
        r@ == seq![digit_char(d as int)],
{
    proof {
        reveal_strlit("0");
        reveal_strlit("1");
        reveal_strlit("2");
        reveal_strlit("3");
        reveal_strlit("4");
        reveal_strlit("5");
        reveal_strlit("6");
        reveal_strlit("7");
        reveal_strlit("8");
        reveal_strlit("9");
    }
    if d == 0 {
        "0"
    } else if d == 1 {
        "1"
    } else if d == 2 {
        "2"
    } else if d == 3 {
        "3"
    } else if d == 4 {
        "4"
    } else if d == 5 {
        "5"
    } else if d == 6 {
        "6"
    } else if d == 7 {
        "7"
    } else if d == 8 {
        "8"
    } else {
        "9"
    }
}

/// The decimal digits of `n`.
pub fn nat_string(n: u64) -> (r: String)
    ensures
        r@ == nat_text(n as nat),
    decreases n,
{
    if n < 10 {
        String::from_str(digit_text(n))
    } else {
        let mut r = nat_string(n / 10);
        r.append(digit_text(n % 10));
        r
    }
}

/// The decimal text of `n`.
pub fn usize_text(n: usize) -> (r: String)
    ensures
        r@ == int_text(n as int),
{
    nat_string(n as u64)
}

/// The decimal text of `n`, with `-` before a negative number.
pub fn i64_text(n: i64) -> (r: String)
    ensures
        r@ == int_text(n as int),
{
    if n < 0 {
        let m = (0i128 - n as i128) as u64;
        let mut r = String::from_str("-");
        let digits = nat_string(m);
        r.append(digits.as_str());
        proof {
            reveal_strlit("-");
        }
        r
    } else {
        nat_string(n as u64)
    }
}

/// Relies on `itertools::join`: each item's text, with `sep` between
/// neighbours.
#[verifier::external_body]
pub(crate) fn join_with(items: &Vec<String>, sep: &str) -> (r: String)
    ensures
        r@ == joined(texts(items@), sep@),
{
    itertools::join(items.iter(), sep)
}

/// Lists of items that can be written as an enumeration in prose.
pub trait LangIter {
    /// The texts of the items, in order.
    spec fn item_texts(&self) -> Seq<Seq<char>>;

    /// The items separated by `sep`, with `last_sep` before the last one.
    fn listify(&self, sep: &str, last_sep: &str) -> (r: String)
        ensures
            r@ == listed(self.item_texts(), sep@, last_sep@),
    ;
}

impl LangIter for Vec<String> {
    open spec fn item_texts(&self) -> Seq<Seq<char>> {
        texts(self@)
    }

    fn listify(&self, sep: &str, last_sep: &str) -> (r: String) {
        let n = self.len();
        let ghost t = texts(self@);
        if n == 0 {
            return String::new();
        }
        let mut out = self[0].clone();
        assert(t.take(1).drop_last() =~= Seq::<Seq<char>>::empty());
        let mut i: usize = 1;
        while i < n - 1
            invariant
                n == self@.len(),
                t == texts(self@),
                1 <= i <= n,
                n >= 2 ==> i < n,
                out@ == joined(t.take(i as int), sep@),
            decreases n - i,
        {
            out.append(sep);
            out.append(self[i].as_str());
            assert(t.take(i + 1).drop_last() =~= t.take(i as int));
            i = i + 1;
        }
        if n >= 2 {
            out.append(last_sep);
            out.append(self[n - 1].as_str());
            assert(i == n - 1);
            assert(t.drop_last() =~= t.take(i as int));
        } else {
            assert(t =~= t.take(1));
        }
        out
    }
}

} // verus!

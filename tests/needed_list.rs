use martini::codec::{frame, frame_body_of, is_plain_list};
use martini::keyed::{got_keyed, need_keyed};
use martini::needed::{report_line, split, Needed, SimString};
use std::cmp::Ordering;

fn names(n: &Needed) -> Vec<String> {
    n.list.iter().map(|s| s.orig.clone()).collect()
}

#[test]
fn add_twice_reports_already_there() {
    let mut n = Needed::new();
    let first = n.handle_need("Milk".to_string());
    assert_eq!(first, "We need:\n1. Milk");
    let second = n.handle_need("Milk".to_string());
    assert_eq!(second, "'Milk' already on the list!\nWe need:\n1. Milk");
    assert_eq!(names(&n), vec!["Milk".to_string()]);
}

#[test]
fn add_then_remove_restores_list() {
    let mut n = Needed::new();
    n.handle_need("Eggs, Apples".to_string());
    let before = names(&n);
    n.handle_need("Cheese".to_string());
    assert_eq!(names(&n).len(), 3);
    n.handle_got("Cheese".to_string());
    assert_eq!(names(&n), before);
}

#[test]
fn remove_ignores_case() {
    let mut n = Needed::new();
    n.handle_need("Beer".to_string());
    let msg = n.handle_got("beer".to_string());
    assert_eq!(msg, "We have everything we need :-)");
    assert!(n.list.is_empty());
}

#[test]
fn rendering_is_repeatable() {
    let mut n = Needed::new();
    n.handle_need("pears, Apples, bananas".to_string());
    let a = n.str_list();
    let b = n.str_list();
    assert_eq!(a, b);
    assert_eq!(a, "1. Apples\n2. bananas\n3. pears");
}

#[test]
fn empty_tokens_are_dropped() {
    let mut a = Needed::new();
    let mut b = Needed::new();
    let ra = a.handle_need(",  ,Milk".to_string());
    let rb = b.handle_need("Milk".to_string());
    assert_eq!(ra, rb);
    assert_eq!(names(&a), names(&b));
}

#[test]
fn empty_argument_shows_list() {
    let mut n = Needed::new();
    assert_eq!(n.handle_need("".to_string()), "We need:\n");
    n.handle_need("Tea".to_string());
    assert_eq!(n.handle_need(" , ,".to_string()), "We need:\n1. Tea");
}

#[test]
fn end_to_end_add_and_remove() {
    let mut n = Needed::new();
    let r1 = n.handle_need("Milk, Bread, milk".to_string());
    assert_eq!(r1, "'milk' already on the list!\nWe need:\n1. Bread\n2. Milk");
    let r2 = n.handle_got("bread".to_string());
    assert_eq!(r2, "We still need:\n1. Milk");
}

#[test]
fn first_casing_is_kept() {
    let mut n = Needed::new();
    n.handle_need("soap".to_string());
    let r = n.handle_need("SOAP".to_string());
    assert_eq!(r, "'SOAP' already on the list!\nWe need:\n1. soap");
}

#[test]
fn several_already_there_listed_in_prose() {
    let mut n = Needed::new();
    n.handle_need("a, b, c".to_string());
    let r = n.handle_need("A, b, C".to_string());
    assert_eq!(r, "'A', 'b' and 'C' already on the list!\nWe need:\n1. a\n2. b\n3. c");
}

#[test]
fn missing_items_reported() {
    let mut n = Needed::new();
    n.handle_need("Rice, Salt".to_string());
    let r = n.handle_got("salt, Pepper, Oil".to_string());
    assert_eq!(r, "'Pepper' and 'Oil' not on the list!\nWe still need:\n1. Rice");
}

#[test]
fn missing_item_with_empty_list() {
    let mut n = Needed::new();
    let r = n.handle_got("Jam".to_string());
    assert_eq!(r, "'Jam' not on the list!\nWe have everything we need :-)");
}

#[test]
fn same_item_twice_in_one_add() {
    let mut n = Needed::new();
    let r = n.handle_need("Oats, oats, OATS".to_string());
    assert_eq!(r, "'oats' and 'OATS' already on the list!\nWe need:\n1. Oats");
}

#[test]
fn numbering_goes_past_nine() {
    let mut n = Needed::new();
    n.handle_need("a1, a2, a3, a4, a5, a6, a7, a8, a9, b1, b2".to_string());
    let text = n.str_list();
    assert!(text.ends_with("\n10. b1\n11. b2"));
    assert!(text.starts_with("1. a1\n2. a2\n"));
}

#[test]
fn split_trims_and_drops_empty() {
    let parts: Vec<String> = split(" Milk ,, Bread\t,  ,".to_string())
        .into_iter()
        .map(|s| s.orig)
        .collect();
    assert_eq!(parts, vec!["Milk".to_string(), "Bread".to_string()]);
    assert!(split("".to_string()).is_empty());
}

#[test]
fn sim_string_compares_without_case() {
    let a = SimString::new("Beer".to_string());
    let b = SimString::new("beer".to_string());
    let c = SimString::new("apple".to_string());
    assert_eq!(a.compare(&b), Ordering::Equal);
    assert_eq!(c.compare(&a), Ordering::Less);
    assert_eq!(a.compare(&c), Ordering::Greater);
    assert_eq!(a.key(), "beer");
    let d: SimString = SimString::from("Tea".to_string());
    assert_eq!(d.orig, "Tea");
}

#[test]
fn snapshot_and_restore() {
    let mut n = Needed::new();
    n.handle_need("Bread, eggs".to_string());
    let text = n.snapshot();
    assert_eq!(text, "{\"needed\":{\"list\":[\"Bread\",\"eggs\"]}}");
    let back = Needed::restore(&text);
    assert_eq!(names(&back), vec!["Bread".to_string(), "eggs".to_string()]);
}

#[test]
fn restore_rejects_garbage() {
    assert!(Needed::restore("not json").list.is_empty());
    assert!(Needed::restore("{\"a\": 1}").list.is_empty());
    assert!(Needed::restore("[\"a\"]").list.is_empty());
    assert!(Needed::try_restore("{\"needed\":{\"list\":[[\"a\"]]}}").is_none());
    assert!(Needed::try_restore("{\"needed\":{\"list\":[\"a\"]}").is_none());
}

#[test]
fn restore_survives_deep_nesting() {
    let mut text = String::from("{\"needed\":{\"list\":");
    for _ in 0..200000 {
        text.push('[');
    }
    text.push_str("}}");
    assert!(Needed::try_restore(&text).is_none());
}

#[test]
fn restore_rejects_numbers_and_objects() {
    let mut long_key = String::from("{\"needed\":{\"list\":{\"");
    for _ in 0..32768 {
        long_key.push('\u{e9}');
    }
    long_key.push_str("a\": 0}}}");
    assert!(Needed::try_restore(&long_key).is_none());
    assert!(Needed::try_restore("{\"needed\":{\"list\":[1e99999999999999999999]}}").is_none());
}

#[test]
fn restore_reads_pretty_snapshot() {
    let text = "{\n  \"needed\": {\n    \"list\": [\n      \"Bread\",\n      \"eggs\"\n    ]\n  }\n}\n";
    let back = Needed::restore(text);
    assert_eq!(names(&back), vec!["Bread".to_string(), "eggs".to_string()]);
}

#[test]
fn snapshot_escapes_quotes() {
    let mut n = Needed::new();
    n.handle_need("say \"hi\", a\\b, [x]".to_string());
    let text = n.snapshot();
    let back = Needed::restore(&text);
    assert_eq!(names(&back), names(&n));
    assert_eq!(names(&back).len(), 3);
}

#[test]
fn restore_sorts_and_drops_duplicates() {
    let back = Needed::restore("{\"needed\":{\"list\":[\"pear\", \"Apple\", \"PEAR\"]}}");
    assert_eq!(names(&back), vec!["Apple".to_string(), "pear".to_string()]);
}

#[test]
fn white_space_matches_std() {
    for u in 0u32..=0x10FFFF {
        if let Some(c) = char::from_u32(u) {
            assert_eq!(martini::text::is_space(c), c.is_whitespace(), "code point {:x}", u);
        }
    }
}

#[test]
fn key_positions() {
    let keys = vec!["apple".to_string(), "milk".to_string(), "tea".to_string()];
    assert_eq!(martini::needed::position_of_key(&keys, &"milk".to_string()), (true, 1));
    assert_eq!(martini::needed::position_of_key(&keys, &"bread".to_string()), (false, 1));
    assert_eq!(martini::needed::position_of_key(&keys, &"zoo".to_string()), (false, 3));
    assert_eq!(martini::needed::position_of_key(&keys, &"".to_string()), (false, 0));
}

#[test]
fn frame_reading() {
    assert_eq!(frame("[]"), "{\"needed\":{\"list\":[]}}");
    assert_eq!(frame_body_of(" { \"needed\" : { \"list\" : [\"a\"] } } \n"), Some(" [\"a\"] ".to_string()));
    assert_eq!(frame_body_of("{\"list\":[]}"), None);
    assert!(is_plain_list("[\"[[\", \"\\\"[\"]"));
    assert!(is_plain_list(" [ \"a{1e9}\" ,\n\"b\" ] "));
    assert!(!is_plain_list("[[]]"));
    assert!(!is_plain_list("]"));
    assert!(!is_plain_list("[1]"));
    assert!(!is_plain_list("[true]"));
    assert!(!is_plain_list("{\"a\": \"b\"}"));
}

fn sims(v: &[&str]) -> Vec<SimString> {
    v.iter().map(|s| SimString::new(s.to_string())).collect()
}

fn strs(v: &[&str]) -> Vec<String> {
    v.iter().map(|s| s.to_string()).collect()
}

#[test]
fn keyed_add_and_remove() {
    let mut names = sims(&["Bread"]);
    let mut keys = strs(&["b"]);
    let already = need_keyed(&mut names, &mut keys, &sims(&["Milk", "Apple", "MILK"]), &strs(&["m", "a", "m"]));
    let shown: Vec<String> = names.iter().map(|s| s.orig.clone()).collect();
    assert_eq!(shown, strs(&["Apple", "Bread", "Milk"]));
    assert_eq!(keys, strs(&["a", "b", "m"]));
    assert_eq!(already.iter().map(|s| s.orig.clone()).collect::<Vec<_>>(), strs(&["MILK"]));
    let missing = got_keyed(&mut names, &mut keys, &sims(&["bread", "Tea"]), &strs(&["b", "t"]));
    assert_eq!(names.iter().map(|s| s.orig.clone()).collect::<Vec<_>>(), strs(&["Apple", "Milk"]));
    assert_eq!(keys, strs(&["a", "m"]));
    assert_eq!(missing.iter().map(|s| s.orig.clone()).collect::<Vec<_>>(), strs(&["Tea"]));
}

#[test]
fn report_lines() {
    assert_eq!(report_line(&sims(&[]), " x\n"), "");
    assert_eq!(report_line(&sims(&["a", "b"]), " not on the list!\n"), "'a' and 'b' not on the list!\n");
}

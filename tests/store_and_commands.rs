use martini::bot::{parse_command, BotBuilder};
use martini::listing::LangIter;
use martini::log::{is_logged, log_line, LogLevel};
use martini::store::{snapshot_path, Command, FlatShare, FlatStore};

#[test]
fn persistence_round_trip() {
    let mut first = FlatStore::new();
    first.hydrate(42, None);
    first.need(42, "Bread, eggs".to_string());
    let snap = first.snapshot(42);
    assert!(snap.is_some());
    let mut second = FlatStore::new();
    assert!(!second.contains(42));
    assert!(second.hydrate(42, snap));
    assert_eq!(
        second.names(42),
        Some(vec!["Bread".to_string(), "eggs".to_string()])
    );
    let r = second.got(42, "BREAD".to_string());
    assert_eq!(r, "We still need:\n1. eggs");
}

#[test]
fn hydration_miss_gives_empty_list() {
    let mut s = FlatStore::new();
    assert!(!s.hydrate(7, None));
    assert_eq!(s.names(7), Some(vec![]));
    let mut t = FlatStore::new();
    assert!(!t.hydrate(8, Some("{broken".to_string())));
    assert_eq!(t.names(8), Some(vec![]));
}

#[test]
fn end_to_end_conversation() {
    let mut s = FlatStore::new();
    let cmd = parse_command("/need Milk, Bread, milk");
    assert!(s.needs_hydration(1, &cmd));
    s.hydrate(1, None);
    assert!(!s.needs_hydration(1, &cmd));
    let r1 = s.apply(1, cmd);
    assert_eq!(
        r1,
        Some("'milk' already on the list!\nWe need:\n1. Bread\n2. Milk".to_string())
    );
    let r2 = s.apply(1, parse_command("/got bread"));
    assert_eq!(r2, Some("We still need:\n1. Milk".to_string()));
}

#[test]
fn conversations_are_separate() {
    let mut s = FlatStore::new();
    s.hydrate(1, None);
    s.hydrate(2, None);
    s.need(1, "Milk".to_string());
    assert_eq!(s.names(2), Some(vec![]));
    assert_eq!(s.names(3), None);
    assert!(s.snapshot(3).is_none());
}

#[test]
fn commands_are_read() {
    assert_eq!(parse_command("/need Milk"), Command::Need(" Milk".to_string()));
    assert_eq!(parse_command("/got a, b"), Command::Got(" a, b".to_string()));
    assert_eq!(parse_command("/need"), Command::Need("".to_string()));
    assert_eq!(parse_command("/help me"), Command::Unknown("/help".to_string()));
    assert_eq!(parse_command("/needs x"), Command::Unknown("/needs".to_string()));
    assert_eq!(parse_command("hello /need"), Command::Text);
    assert_eq!(parse_command("/ need"), Command::Text);
}

#[test]
fn other_messages_change_nothing() {
    let mut s = FlatStore::new();
    s.hydrate(5, None);
    assert_eq!(s.apply(5, parse_command("just chatting")), None);
    assert_eq!(s.apply(5, parse_command("/start")), None);
    assert_eq!(s.names(5), Some(vec![]));
}

#[test]
fn snapshot_file_names() {
    assert_eq!(snapshot_path("data/", 42), "data/42.json");
    assert_eq!(snapshot_path("d/", -1001), "d/-1001.json");
    assert_eq!(snapshot_path("", 0), "0.json");
}

#[test]
fn flat_share_starts_empty() {
    let f = FlatShare::new();
    assert!(f.needed.list.is_empty());
}

#[test]
fn listify_forms() {
    let none: Vec<String> = vec![];
    assert_eq!(none.listify(", ", " and "), "");
    let one = vec!["a".to_string()];
    assert_eq!(one.listify(", ", " and "), "a");
    let two = vec!["a".to_string(), "b".to_string()];
    assert_eq!(two.listify(", ", " and "), "a and b");
    let three = vec!["a".to_string(), "b".to_string(), "c".to_string()];
    assert_eq!(three.listify(", ", " and "), "a, b and c");
}

#[test]
fn log_levels() {
    assert_eq!(LogLevel::Debug.prefix(), "DEBUG");
    assert_eq!(LogLevel::Info.prefix(), "INFO ");
    assert_eq!(LogLevel::Warning.prefix(), "WARN ");
    assert_eq!(LogLevel::Error.prefix(), "ERROR");
    assert_eq!(LogLevel::Warning.as_num(), 20);
    assert!(LogLevel::Debug < LogLevel::Info);
    assert!(LogLevel::Error > LogLevel::Warning);
    assert!(is_logged(LogLevel::Warning, LogLevel::Info));
    assert!(!is_logged(LogLevel::Debug, LogLevel::Info));
    assert!(is_logged(LogLevel::Info, LogLevel::Info));
    assert_eq!(log_line(LogLevel::Info, "hi"), "[INFO ] hi\n");
}

#[test]
fn builder_settings() {
    let b = BotBuilder::new("SECRET-REDACTED".to_string());
    assert_eq!(b.data_dir(), "data/");
    assert_eq!(b.loglevel(), LogLevel::Info);
    assert_eq!(b.logfile(), None);
    let b = b
        .with_logfile("log.txt".to_string())
        .with_loglevel(LogLevel::Debug)
        .with_data_dir("flats/".to_string());
    assert_eq!(b.logfile(), Some("log.txt".to_string()));
    assert_eq!(b.loglevel(), LogLevel::Debug);
    assert_eq!(b.data_dir(), "flats/");
    assert_eq!(b.token(), "SECRET-REDACTED");
}

#[test]
fn decimal_texts() {
    assert_eq!(martini::listing::usize_text(0), "0");
    assert_eq!(martini::listing::usize_text(1234567890), "1234567890");
    assert_eq!(martini::listing::i64_text(-42), "-42");
    assert_eq!(martini::listing::i64_text(i64::MIN), i64::MIN.to_string());
    assert_eq!(martini::listing::i64_text(i64::MAX), i64::MAX.to_string());
    assert_eq!(martini::listing::nat_string(u64::MAX), u64::MAX.to_string());
}

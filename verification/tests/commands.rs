use muus_watcher::commands::{apply_command, parse_command, Command, Reply};
use muus_watcher::store::QueryStore;

#[test]
fn known_command_words_parse() {
    assert!(matches!(parse_command("/help"), Command::Help));
    assert!(matches!(parse_command("/start"), Command::Start));
    assert!(matches!(parse_command("/list"), Command::List));
    assert!(matches!(parse_command("/clear"), Command::Clear));
    assert!(matches!(parse_command("/stop"), Command::Stop));
}

#[test]
fn add_joins_words_with_plus() {
    match parse_command("  /add analog rytm mk2 ") {
        Command::Add(text) => assert_eq!(text, "analog+rytm+mk2"),
        other => panic!("expected an add command, got {:?}", other),
    }
}

#[test]
fn add_without_words_carries_empty_text() {
    match parse_command("/add") {
        Command::Add(text) => assert_eq!(text, ""),
        other => panic!("expected an add command, got {:?}", other),
    }
}

#[test]
fn remove_parses_decimal_ids() {
    match parse_command("/remove 0 12 7") {
        Command::Remove(ids) => assert_eq!(ids, vec![0, 12, 7]),
        other => panic!("expected a remove command, got {:?}", other),
    }
}

#[test]
fn remove_with_garbage_is_unknown() {
    assert!(matches!(parse_command("/remove one"), Command::Unknown));
    assert!(matches!(
        // one digit past u64::MAX
        parse_command("/remove 18446744073709551616"),
        Command::Unknown
    ));
    match parse_command("/remove 18446744073709551615") {
        Command::Remove(ids) => assert_eq!(ids, vec![u64::MAX]),
        other => panic!("expected a remove command, got {:?}", other),
    }
}

#[test]
fn unknown_text_is_unknown() {
    assert!(matches!(parse_command(""), Command::Unknown));
    assert!(matches!(parse_command("   \t "), Command::Unknown));
    assert!(matches!(parse_command("hello there"), Command::Unknown));
    assert!(matches!(parse_command("/halp"), Command::Unknown));
}

#[test]
fn start_registers_once() {
    let mut store = QueryStore::new();
    let r = apply_command(&mut store, 1, "s1", Command::Start);
    assert!(matches!(r, Reply::Welcome));
    let r = apply_command(&mut store, 1, "s1", Command::Start);
    assert!(matches!(r, Reply::AlreadyRegistered));
}

#[test]
fn commands_before_registration_need_an_account() {
    let mut store = QueryStore::new();
    let r = apply_command(&mut store, 1, "s1", Command::Add("x".to_string()));
    assert!(matches!(r, Reply::NeedAccount));
    let r = apply_command(&mut store, 1, "s1", Command::List);
    assert!(matches!(r, Reply::NeedAccount));
    let r = apply_command(&mut store, 1, "s1", Command::Clear);
    assert!(matches!(r, Reply::NeedAccount));
    let r = apply_command(&mut store, 1, "s1", Command::Stop);
    assert!(matches!(r, Reply::NoAccount));
}

#[test]
fn add_list_remove_round_trip() {
    let mut store = QueryStore::new();
    apply_command(&mut store, 1, "s1", Command::Start);
    match apply_command(&mut store, 1, "s1", Command::Add("elektron".to_string())) {
        Reply::QueryAdded { id, text } => {
            assert_eq!(id, 0);
            assert_eq!(text, "elektron");
        },
        other => panic!("expected a stored query, got {:?}", other),
    }
    match apply_command(&mut store, 1, "s1", Command::List) {
        Reply::Queries { queries } => {
            assert_eq!(queries.len(), 1);
            assert_eq!(queries[0].id, 0);
            assert_eq!(queries[0].text, "elektron");
        },
        other => panic!("expected the query list, got {:?}", other),
    }
    match apply_command(&mut store, 1, "s1", Command::Remove(vec![0, 9])) {
        Reply::Removals { outcomes } => {
            assert_eq!(outcomes.len(), 2);
            assert_eq!(outcomes[0].id, 0);
            assert_eq!(outcomes[0].removed.as_ref().unwrap().text, "elektron");
            assert_eq!(outcomes[1].id, 9);
            assert!(outcomes[1].removed.is_none());
        },
        other => panic!("expected removal outcomes, got {:?}", other),
    }
}

#[test]
fn empty_and_duplicate_adds_are_reported() {
    let mut store = QueryStore::new();
    apply_command(&mut store, 1, "s1", Command::Start);
    let r = apply_command(&mut store, 1, "s1", Command::Add("".to_string()));
    assert!(matches!(r, Reply::EmptyQueryRejected));
    apply_command(&mut store, 1, "s1", Command::Add("moog".to_string()));
    match apply_command(&mut store, 1, "s1", Command::Add("moog".to_string())) {
        Reply::DuplicateQuery { text } => assert_eq!(text, "moog"),
        other => panic!("expected a duplicate report, got {:?}", other),
    }
}

#[test]
fn unknown_command_changes_nothing() {
    let mut store = QueryStore::new();
    apply_command(&mut store, 1, "s1", Command::Start);
    apply_command(&mut store, 1, "s1", Command::Add("moog".to_string()));
    let r = apply_command(&mut store, 1, "s1", Command::Unknown);
    assert!(matches!(r, Reply::UnknownCommand));
    match apply_command(&mut store, 1, "s1", Command::List) {
        Reply::Queries { queries } => assert_eq!(queries.len(), 1),
        other => panic!("expected the query list, got {:?}", other),
    }
}

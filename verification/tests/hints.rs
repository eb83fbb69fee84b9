use toi_server::hints::{diy_hints, hint, CommandHint};

#[test]
fn hint_table_contents() {
    let hints = diy_hints();
    assert_eq!(hints.len(), 8);
    assert_eq!(hints[0].display(), "exit");
    assert_eq!(hints[0].complete_up_to, 4);
    assert_eq!(hints[2].display(), "SHOW DATABASES;");
    assert_eq!(hints[2].complete_up_to, 15);
    assert_eq!(hints[3].display(), "SHOW DATABASE database;");
    assert_eq!(hints[3].complete_up_to, 14);
}

#[test]
fn new_and_suffix() {
    let h = CommandHint::new("SHOW TABLE database.table;", "SHOW TABLE ");
    assert_eq!(h.display(), "SHOW TABLE database.table;");
    assert_eq!(h.complete_up_to, 11);

    let s = h.suffix(5);
    assert_eq!(s.display(), "TABLE database.table;");
    assert_eq!(s.complete_up_to, 6);

    // Stripping more than the completion length saturates at zero.
    let s = h.suffix(12);
    assert_eq!(s.display(), "atabase.table;");
    assert_eq!(s.complete_up_to, 0);
}

#[test]
fn completion_is_the_leading_part() {
    let h = CommandHint::new("SHOW FROM database.table;", "SHOW FROM ");
    assert_eq!(h.completion(), Some("SHOW FROM ".to_string()));

    let none = CommandHint::new("exit", "");
    assert_eq!(none.completion(), None);
}

#[test]
fn hint_picks_first_match_and_strips_the_line() {
    let hints = diy_hints();

    // Cursor at the end of a matching line: the rest of the first matching
    // hint comes back.
    let h = hint(&hints, "SHOW D", 6).expect("a hint matches");
    assert_eq!(h.display(), "ATABASES;");
    assert_eq!(h.complete_up_to, 9);

    let h = hint(&hints, "e", 1).expect("a hint matches");
    assert_eq!(h.display(), "xit");
    assert_eq!(h.complete_up_to, 3);

    // No hint for an empty line, a cursor inside the line, or an unknown
    // command.
    assert!(hint(&hints, "", 0).is_none());
    assert!(hint(&hints, "SHOW", 2).is_none());
    assert!(hint(&hints, "xyz", 3).is_none());
}

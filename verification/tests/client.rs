use toi_server::client::{classify_line, ReplAction};

#[test]
fn history_commands_in_any_case() {
    assert!(matches!(classify_line("clear history"), ReplAction::ClearHistory));
    assert!(matches!(classify_line("clear_history"), ReplAction::ClearHistory));
    assert!(matches!(classify_line("ClEaR HiStOrY"), ReplAction::ClearHistory));
    assert!(matches!(classify_line("CLEAR_HISTORY"), ReplAction::ClearHistory));
}

#[test]
fn guards_come_before_sending() {
    assert!(matches!(classify_line(""), ReplAction::Skip));
    assert!(matches!(classify_line("héllo"), ReplAction::NotAscii));
}

#[test]
fn leaving_commands_are_exact() {
    assert!(matches!(classify_line("stop"), ReplAction::Stop));
    assert!(matches!(classify_line("exit"), ReplAction::Exit));
    // Only the exact words leave; anything else travels as a query.
    assert!(matches!(classify_line("exit "), ReplAction::Query));
    assert!(matches!(classify_line("EXIT"), ReplAction::Query));
    assert!(matches!(classify_line("stop it"), ReplAction::Query));
}

#[test]
fn everything_else_is_a_query() {
    assert!(matches!(classify_line("SHOW DATABASES;"), ReplAction::Query));
    assert!(matches!(classify_line("ping"), ReplAction::Query));
}

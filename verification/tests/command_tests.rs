//! Commands, tokenization and the snapshot history.

use ced::command::{Command, CommandHistory, CommandType};
use ced::error::CedError;
use ced::utils::{is_valid_csv, tokens_with_quote};
use ced::virtual_data::VirtualData;

fn table(src: &str) -> VirtualData {
    VirtualData::from_string(src, true, None, false).unwrap()
}

#[test]
fn command_words_name_their_commands() {
    assert!(matches!(CommandType::from_str("undo"), CommandType::Undo));
    assert!(matches!(CommandType::from_str("u"), CommandType::Undo));
    assert!(matches!(CommandType::from_str("REDO"), CommandType::Redo));
    assert!(matches!(CommandType::from_str(" pr "), CommandType::PrintRow));
    assert!(matches!(CommandType::from_str("add-row"), CommandType::AddRow));
    assert!(matches!(CommandType::from_str("quit"), CommandType::Exit));
    assert!(matches!(CommandType::from_str("move"), CommandType::MoveRow));
    assert!(matches!(CommandType::from_str("import-raw"), CommandType::ImportRaw));
    assert!(matches!(CommandType::from_str("gibberish"), CommandType::NoCommand));
}

#[test]
fn mutating_commands_are_history_tracked() {
    assert!(CommandType::AddRow.is_history_tracked());
    assert!(CommandType::DeleteColumn.is_history_tracked());
    assert!(CommandType::MoveRow.is_history_tracked());
    assert!(CommandType::RenameColumn.is_history_tracked());
    assert!(CommandType::Limit.is_history_tracked());
    assert!(CommandType::Schema.is_history_tracked());
    assert!(CommandType::Create.is_history_tracked());
    assert!(!CommandType::Print.is_history_tracked());
    assert!(!CommandType::Import.is_history_tracked());
    assert!(!CommandType::Export.is_history_tracked());
    assert!(!CommandType::Undo.is_history_tracked());
    assert!(!CommandType::Redo.is_history_tracked());
    assert!(!CommandType::Version.is_history_tracked());
    assert!(!CommandType::History.is_history_tracked());
}

#[test]
fn command_from_str_splits_words_and_quotes() {
    let c = Command::from_str("add-row 1 'a b'").unwrap();
    assert!(matches!(c.command_type, CommandType::AddRow));
    assert_eq!(c.arguments, vec!["1".to_string(), "a b".to_string()]);

    let c = Command::from_str("print").unwrap();
    assert!(matches!(c.command_type, CommandType::Print));
    assert!(c.arguments.is_empty());

    assert!(matches!(Command::from_str("   "), Err(CedError::CommandError)));
}

#[test]
fn tokens_with_quote_honours_quotes_and_escapes() {
    assert_eq!(tokens_with_quote("a b c"), vec!["a", "b", "c"]);
    assert_eq!(tokens_with_quote("a 'b c' d"), vec!["a", "b c", "d"]);
    assert_eq!(tokens_with_quote("  spaced   words "), vec!["spaced", "words"]);
    assert_eq!(tokens_with_quote(""), Vec::<String>::new());
    assert_eq!(tokens_with_quote(r"a\\b"), vec![r"a\b"]);
    // a lone backslash opens a quoted region, so the escaped quote keeps
    // the following space inside one token
    assert_eq!(tokens_with_quote(r"don\'t stop"), vec!["don't stop"]);
}

#[test]
fn csv_validity_checks_quoting() {
    assert!(is_valid_csv("plain"));
    assert!(!is_valid_csv("a,b"));
    assert!(is_valid_csv("\"a,b\""));
    assert!(is_valid_csv("say \"\"hi\"\" now"));
    assert!(!is_valid_csv("\"unclosed"));
    assert!(is_valid_csv(""));
}

#[test]
fn history_undo_restores_the_snapshot_before_the_edit() {
    let mut h = CommandHistory::new(16);
    let t1 = table("a\n1");
    let t2 = table("a\n2");
    h.take_snapshot(&t1, CommandType::EditCell);
    // live table is now t2; undo must give back t1
    let undone = h.undo(&t2).unwrap();
    assert_eq!(undone.to_string(), "a\n1");
    // another undo has nothing left
    assert!(h.undo(&t1).is_none());
}

#[test]
fn history_redo_returns_to_the_newest_state() {
    let mut h = CommandHistory::new(16);
    let t1 = table("a\n1");
    let t2 = table("a\n2");
    let t3 = table("a\n3");
    h.take_snapshot(&t1, CommandType::EditCell);
    h.take_snapshot(&t2, CommandType::EditCell);
    // live is t3
    let back = h.undo(&t3).unwrap();
    assert_eq!(back.to_string(), "a\n2");
    let back2 = h.undo(&t2).unwrap();
    assert_eq!(back2.to_string(), "a\n1");
    let fwd = h.redo().unwrap();
    assert_eq!(fwd.to_string(), "a\n2");
    let fwd2 = h.redo().unwrap();
    assert_eq!(fwd2.to_string(), "a\n3");
    assert!(h.redo().is_none());
}

#[test]
fn history_branch_discard_forecloses_redo() {
    let mut h = CommandHistory::new(16);
    let t1 = table("a\n1");
    let t2 = table("a\n2");
    let t3 = table("a\n3");
    let t4 = table("a\n4");
    h.take_snapshot(&t1, CommandType::EditCell);
    h.take_snapshot(&t2, CommandType::EditCell);
    h.take_snapshot(&t3, CommandType::EditCell);
    // live t4; undo once (live becomes t3)
    let undone = h.undo(&t4).unwrap();
    assert_eq!(undone.to_string(), "a\n3");
    // a new edit is made from t3
    h.take_snapshot(&t3, CommandType::EditCell);
    // the abandoned branch (t4) is unreachable
    assert!(h.redo().is_none());
}

#[test]
fn history_capacity_two_keeps_the_newest_two() {
    let mut h = CommandHistory::new(2);
    let t1 = table("a\n1");
    let t2 = table("a\n2");
    let t3 = table("a\n3");
    let t4 = table("a\n4");
    h.take_snapshot(&t1, CommandType::EditCell);
    h.take_snapshot(&t2, CommandType::EditCell);
    h.take_snapshot(&t3, CommandType::EditCell);
    // exactly two snapshots are retrievable; the oldest (t1) was evicted
    let u1 = h.undo(&t4).unwrap();
    assert_eq!(u1.to_string(), "a\n3");
    let u2 = h.undo(&t3).unwrap();
    assert_eq!(u2.to_string(), "a\n2");
    assert!(h.undo(&t2).is_none());
}

#[test]
fn history_records_the_commands() {
    let mut h = CommandHistory::new(4);
    let t = table("a\n1");
    assert!(h.is_empty());
    h.take_snapshot(&t, CommandType::AddRow);
    h.take_snapshot(&t, CommandType::MoveColumn);
    assert!(!h.is_empty());
    assert!(h.is_newest());
    let cmds = h.command_list();
    assert!(matches!(cmds[0], CommandType::AddRow));
    assert!(matches!(cmds[1], CommandType::MoveColumn));
    let _ = h.undo(&t).unwrap();
    assert!(!h.is_newest());
}

#[test]
fn snapshots_are_deep_copies() {
    let mut h = CommandHistory::new(4);
    let mut t = table("a\n1");
    h.take_snapshot(&t, CommandType::EditCell);
    // mutate the live table after the snapshot
    t.set_data_from_string(0, 0, "changed").unwrap();
    let undone = h.undo(&t).unwrap();
    assert_eq!(undone.to_string(), "a\n1");
}

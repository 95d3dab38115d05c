//! The page-keyed processor.

use ced::error::CedError;
use ced::value::{Value, ValueLimiter, ValueType};
use ced::Processor;

fn proc_with(page: &str, data: &str) -> Processor {
    let mut p = Processor::new();
    p.add_page(page, data, true, None, false).unwrap();
    p
}

#[test]
fn add_page_sets_the_cursor() {
    let p = proc_with("main", "a,b\n1,2");
    assert_eq!(p.get_cursor().unwrap(), "main");
    assert!(p.contains_page("main"));
    assert!(!p.contains_page("other"));
    assert_eq!(p.get_page_as_string("main").unwrap(), "a,b\n1,2");
}

#[test]
fn add_page_rejects_duplicates_and_bad_data() {
    let mut p = proc_with("main", "a\n1");
    assert!(matches!(
        p.add_page("main", "x\n1", true, None, false),
        Err(CedError::InvalidPageOperation)
    ));
    assert!(matches!(
        p.add_page("second", "a,a\n1,2", true, None, false),
        Err(CedError::DuplicateOrInvalidColumnName)
    ));
}

#[test]
fn cursor_moves_only_to_existing_pages() {
    let mut p = proc_with("main", "a\n1");
    p.add_page("second", "b\n2", true, None, false).unwrap();
    assert_eq!(p.get_cursor().unwrap(), "second");
    assert!(p.change_cursor("main"));
    assert_eq!(p.get_cursor().unwrap(), "main");
    assert!(!p.change_cursor("missing"));
    assert_eq!(p.get_cursor().unwrap(), "main");
}

#[test]
fn remove_page_drops_it() {
    let mut p = proc_with("main", "a\n1");
    assert!(p.remove_page("main"));
    assert!(!p.remove_page("main"));
    assert!(!p.contains_page("main"));
}

#[test]
fn counts_and_last_indices() {
    let p = proc_with("main", "a,b\n1,2\n3,4\n5,6");
    assert_eq!(p.get_row_count("main").unwrap(), 3);
    assert_eq!(p.get_column_count("main").unwrap(), 2);
    assert_eq!(p.last_row_index("main").unwrap(), 2);
    assert_eq!(p.last_column_index("main").unwrap(), 1);
    assert!(matches!(
        p.get_row_count("missing"),
        Err(CedError::InvalidPageOperation)
    ));
}

#[test]
fn page_edits_flow_through() {
    let mut p = proc_with("main", "a,b\n1,2");
    p.edit_cell("main", 0, 1, "two").unwrap();
    p.add_row(
        "main",
        1,
        Some(&vec![Value::Text("x".to_string()), Value::Text("y".to_string())]),
    )
    .unwrap();
    p.move_row("main", 1, 0).unwrap();
    assert_eq!(p.get_page_as_string("main").unwrap(), "a,b\nx,y\n1,two");
    assert!(p.remove_row("main", 0).unwrap());
    assert!(!p.remove_row("main", 5).unwrap());
    assert_eq!(p.get_page_as_string("main").unwrap(), "a,b\n1,two");
}

#[test]
fn page_column_operations_flow_through() {
    let mut p = proc_with("main", "a,b\n1,2");
    p.add_column("main", 2, "c", ValueType::Text, None, None).unwrap();
    p.edit_column("main", "c", "z").unwrap();
    p.rename_column("main", "c", "last").unwrap();
    p.move_column("main", 2, 0).unwrap();
    assert_eq!(p.get_page_as_string("main").unwrap(), "last,a,b\nz,1,2");
    p.remove_column("main", 0).unwrap();
    assert_eq!(p.get_page_as_string("main").unwrap(), "a,b\n1,2");
}

#[test]
fn page_limiters_and_schema_flow_through() {
    let mut p = proc_with("main", "a,b\n1,x");
    let lim = ValueLimiter::from_line(&vec![
        "number".to_string(),
        "0".to_string(),
        "".to_string(),
        "".to_string(),
    ])
    .unwrap();
    p.set_limiter("main", "a", &lim, true).unwrap();
    assert!(matches!(
        p.set_limiter("main", "b", &lim, true),
        Err(CedError::ConstraintViolation)
    ));
    p.apply_schema_line("main", "b,text,d,,", false).unwrap();
    assert_eq!(
        p.export_schema("main").unwrap(),
        "column,type,default,variant,pattern\na,Number,0,,\nb,Text,d,,\n"
    );
    let cell = p.get_cell("main", 0, 0).unwrap().unwrap();
    assert_eq!(cell.to_string(), "1");
    assert!(p.get_cell("main", 9, 0).unwrap().is_none());
}

#[test]
fn string_rows_flow_through() {
    let mut p = proc_with("main", "a,b\n1,2");
    p.add_row_from_strings("main", 1, &vec!["x".to_string(), "y".to_string()])
        .unwrap();
    p.set_row_from_string("main", 0, &vec!["p".to_string(), "q".to_string()])
        .unwrap();
    assert_eq!(p.get_page_as_string("main").unwrap(), "a,b\np,q\nx,y");
    // a text value never qualifies a number-typed column
    let lim = ValueLimiter::from_line(&vec![
        "number".to_string(),
        "0".to_string(),
        "".to_string(),
        "".to_string(),
    ])
    .unwrap();
    p.set_limiter("main", "a", &lim, false).unwrap();
    assert!(matches!(
        p.add_row_from_strings("main", 0, &vec!["1".to_string(), "2".to_string()]),
        Err(CedError::ConstraintViolation)
    ));
}

#[test]
fn page_tables_can_be_snapshotted_and_restored() {
    let mut p = proc_with("main", "a\n1");
    let snap = p.duplicate_page("main").unwrap();
    p.edit_cell("main", 0, 0, "2").unwrap();
    assert_eq!(p.get_page_as_string("main").unwrap(), "a\n2");
    p.replace_page("main", snap).unwrap();
    assert_eq!(p.get_page_as_string("main").unwrap(), "a\n1");
    let col = p.get_column("main", 0).unwrap().unwrap();
    assert_eq!(col.get_name(), "a");
    assert!(p.get_column("main", 5).unwrap().is_none());
}

#[test]
fn whole_row_edits_flow_through() {
    let mut p = proc_with("main", "a,b\n1,2");
    p.set_row(
        "main",
        0,
        vec![Value::Text("p".to_string()), Value::Text("q".to_string())],
    )
    .unwrap();
    p.edit_row("main", 0, &vec![None, Some(Value::Text("r".to_string()))])
        .unwrap();
    assert_eq!(p.get_page_as_string("main").unwrap(), "a,b\np,r");
}

//! The tabular container: structure, mutation, serialization.

use ced::error::CedError;
use ced::value::{Value, ValueLimiter, ValueType};
use ced::virtual_data::{Row, VirtualData};

fn table(src: &str) -> VirtualData {
    VirtualData::from_string(src, true, None, false).unwrap()
}

fn limiter(ty: &str, default: &str, variants: &str, pattern: &str) -> ValueLimiter {
    ValueLimiter::from_line(&vec![
        ty.to_string(),
        default.to_string(),
        variants.to_string(),
        pattern.to_string(),
    ])
    .unwrap()
}

#[test]
fn from_string_reads_header_and_rows() {
    let t = table("a,b\n1,2\n3,4");
    assert_eq!(t.get_column_count(), 2);
    assert_eq!(t.get_row_count(), 2);
    assert_eq!(t.get_cell(0, 0).unwrap().to_string(), "1");
    assert_eq!(t.get_cell(1, 1).unwrap().to_string(), "4");
    assert!(t.get_cell(2, 0).is_none());
    assert!(t.get_cell(0, 2).is_none());
}

#[test]
fn to_string_then_from_string_round_trips() {
    let t = table("name,age\nalice,30\nbob,25");
    let s = t.to_string();
    assert_eq!(s, "name,age\nalice,30\nbob,25");
    let t2 = VirtualData::from_string(&s, true, None, false).unwrap();
    assert_eq!(t2.to_string(), s);
    assert_eq!(t2.get_row_count(), 2);
    assert_eq!(t2.get_cell(1, 0).unwrap().to_string(), "bob");
}

#[test]
fn empty_input_is_an_empty_table() {
    let t = VirtualData::from_string("", true, None, false).unwrap();
    assert_eq!(t.get_column_count(), 0);
    assert_eq!(t.get_row_count(), 0);
}

#[test]
fn headerless_import_generates_names() {
    let t = VirtualData::from_string("1,2,3\n4,5,6", false, None, false).unwrap();
    assert_eq!(t.get_column_count(), 3);
    assert_eq!(t.get_row_count(), 2);
    assert_eq!(t.to_string(), "a,b,c\n1,2,3\n4,5,6");
}

#[test]
fn headerless_names_wrap_past_the_alphabet() {
    let cells: Vec<String> = (0..28).map(|i| i.to_string()).collect();
    let line = cells.join(",");
    let t = VirtualData::from_string(&line, false, None, false).unwrap();
    assert_eq!(t.get_column_count(), 28);
    let cols = t.get_columns();
    assert_eq!(cols[0].get_name(), "a");
    assert_eq!(cols[25].get_name(), "z");
    assert_eq!(cols[26].get_name(), "aa");
    assert_eq!(cols[27].get_name(), "bb");
}

#[test]
fn export_schema_joins_variants_with_spaces() {
    let mut t = table("a\nx");
    let lim = limiter("text", "x", "x y z", "");
    t.set_limiter(0, &lim, true).unwrap();
    assert_eq!(
        t.export_schema(),
        "column,type,default,variant,pattern\na,Text,x,x y z,\n"
    );
}

#[test]
fn strict_mode_rejects_blank_lines() {
    let r = VirtualData::from_string("a,b\n1,2\n\n3,4", true, None, false);
    assert!(matches!(r, Err(CedError::RowLengthMismatch)));
}

#[test]
fn lenient_mode_skips_blank_lines() {
    let t = VirtualData::from_string("a,b\n1,2\n\n3,4\n", true, None, true).unwrap();
    assert_eq!(t.get_row_count(), 2);
    assert_eq!(t.to_string(), "a,b\n1,2\n3,4");
}

#[test]
fn import_rejects_ragged_rows() {
    let r = VirtualData::from_string("a,b\n1,2,3", true, None, false);
    assert!(matches!(r, Err(CedError::RowLengthMismatch)));
}

#[test]
fn import_rejects_duplicate_or_integer_headers() {
    assert!(matches!(
        VirtualData::from_string("a,a\n1,2", true, None, false),
        Err(CedError::DuplicateOrInvalidColumnName)
    ));
    assert!(matches!(
        VirtualData::from_string("a,7\n1,2", true, None, false),
        Err(CedError::DuplicateOrInvalidColumnName)
    ));
}

#[test]
fn move_row_rotates_forward_and_back() {
    // rows A,B,C,D in one column
    let mut t = table("h\nA\nB\nC\nD");
    t.move_row(2, 0).unwrap();
    assert_eq!(t.to_string(), "h\nC\nA\nB\nD");

    let mut t2 = table("h\nA\nB\nC\nD");
    t2.move_row(0, 2).unwrap();
    assert_eq!(t2.to_string(), "h\nB\nC\nA\nD");
}

#[test]
fn move_row_checks_bounds() {
    let mut t = table("h\nA\nB");
    assert!(matches!(t.move_row(2, 0), Err(CedError::OutOfRange)));
    assert!(matches!(t.move_row(0, 5), Err(CedError::OutOfRange)));
    t.move_row(1, 1).unwrap();
    assert_eq!(t.to_string(), "h\nA\nB");
}

#[test]
fn move_column_rotates_cells_with_names() {
    let mut t = table("a,b,c\n1,2,3");
    t.move_column(2, 0).unwrap();
    assert_eq!(t.to_string(), "c,a,b\n3,1,2");
}

#[test]
fn insert_column_backfills_rows() {
    let mut t = table("a\n1\n2");
    t.insert_column(1, "b", ValueType::Number, None).unwrap();
    assert_eq!(t.to_string(), "a,b\n1,0\n2,0");
    t.insert_column_with_type(0, "c", ValueType::Text, None, Some(Value::Text("x".to_string())))
        .unwrap();
    assert_eq!(t.to_string(), "c,a,b\nx,1,0\nx,2,0");
}

#[test]
fn integer_named_column_is_rejected_even_on_an_empty_table() {
    let mut t = VirtualData::new();
    let r = t.insert_column(0, "3", ValueType::Text, None);
    assert!(matches!(r, Err(CedError::DuplicateOrInvalidColumnName)));
    let r = t.insert_column(0, "-12", ValueType::Text, None);
    assert!(matches!(r, Err(CedError::DuplicateOrInvalidColumnName)));
    assert_eq!(t.get_column_count(), 0);
}

#[test]
fn duplicate_column_name_is_rejected() {
    let mut t = table("a\n1");
    let r = t.insert_column(0, "a", ValueType::Text, None);
    assert!(matches!(r, Err(CedError::DuplicateOrInvalidColumnName)));
}

#[test]
fn delete_column_cascades_and_drops_last_rows() {
    let mut t = table("a,b\n1,2\n3,4");
    t.delete_column(0).unwrap();
    assert_eq!(t.to_string(), "b\n2\n4");
    t.delete_column(0).unwrap();
    assert_eq!(t.get_column_count(), 0);
    assert_eq!(t.get_row_count(), 0);
    assert!(matches!(t.delete_column(0), Err(CedError::OutOfRange)));
}

#[test]
fn rename_column_propagates_and_guards_names() {
    let mut t = table("a,b\n1,2");
    t.rename_column("a", "first").unwrap();
    assert_eq!(t.to_string(), "first,b\n1,2");
    assert!(matches!(
        t.rename_column("first", "b"),
        Err(CedError::DuplicateOrInvalidColumnName)
    ));
    assert!(matches!(
        t.rename_column("first", "12"),
        Err(CedError::DuplicateOrInvalidColumnName)
    ));
    assert!(matches!(
        t.rename_column("missing", "x"),
        Err(CedError::UnknownColumn)
    ));
    // positional addressing also renames
    t.rename_column("1", "second").unwrap();
    assert_eq!(t.to_string(), "first,second\n1,2");
}

#[test]
fn insert_row_with_defaults_and_values() {
    let mut t = table("a,b\n1,2");
    t.insert_row(1, None).unwrap();
    assert_eq!(t.to_string(), "a,b\n1,2\n,");
    let vals = vec![Value::Text("x".to_string()), Value::Text("y".to_string())];
    t.insert_row(0, Some(&vals)).unwrap();
    assert_eq!(t.to_string(), "a,b\nx,y\n1,2\n,");
}

#[test]
fn insert_row_checks_length_and_bounds() {
    let mut t = table("a,b\n1,2");
    let short = vec![Value::Text("x".to_string())];
    assert!(matches!(
        t.insert_row(0, Some(&short)),
        Err(CedError::RowLengthMismatch)
    ));
    assert!(matches!(t.insert_row(5, None), Err(CedError::OutOfRange)));
}

#[test]
fn delete_row_returns_the_row_or_nothing() {
    let mut t = table("a\n1\n2");
    let r = t.delete_row(0).unwrap();
    assert_eq!(r.get_value("a").unwrap().to_string(), "1");
    assert!(t.delete_row(5).is_none());
    assert_eq!(t.get_row_count(), 1);
}

#[test]
fn set_row_is_atomic_under_a_violating_last_value() {
    let mut t = table("a,b\nold1,old2");
    // limit the last column to the variants yes/no, coercing the old cell
    let lim = limiter("text", "yes", "yes no", "");
    t.set_limiter(1, &lim, false).unwrap();
    t.set_data(0, 1, Value::Text("no".to_string())).unwrap();
    let vals = vec![
        Value::Text("new1".to_string()),
        Value::Text("not-allowed".to_string()),
    ];
    let r = t.set_row(0, vals);
    assert!(matches!(r, Err(CedError::ConstraintViolation)));
    // nothing changed, not even the qualifying first cell
    assert_eq!(t.get_cell(0, 0).unwrap().to_string(), "old1");
    assert_eq!(t.get_cell(0, 1).unwrap().to_string(), "no");

    let ok = vec![Value::Text("new1".to_string()), Value::Text("no".to_string())];
    t.set_row(0, ok).unwrap();
    assert_eq!(t.to_string(), "a,b\nnew1,no");
}

#[test]
fn edit_row_is_atomic_and_keeps_unset_cells() {
    let mut t = table("a,b\nold1,old2");
    let lim = limiter("text", "yes", "yes no", "");
    t.set_limiter(1, &lim, false).unwrap();
    // the coercing application replaced old2 with the default
    assert_eq!(t.to_string(), "a,b\nold1,yes");
    let bad = vec![
        Some(Value::Text("new1".to_string())),
        Some(Value::Text("maybe".to_string())),
    ];
    assert!(matches!(t.edit_row(0, &bad), Err(CedError::ConstraintViolation)));
    assert_eq!(t.to_string(), "a,b\nold1,yes");

    let partial = vec![Some(Value::Text("new1".to_string())), None];
    t.edit_row(0, &partial).unwrap();
    assert_eq!(t.to_string(), "a,b\nnew1,yes");
}

#[test]
fn set_data_qualifies_and_bounds_checks() {
    let mut t = table("a\nx");
    assert!(matches!(
        t.set_data(1, 0, Value::Text("y".to_string())),
        Err(CedError::OutOfRange)
    ));
    assert!(matches!(
        t.set_data(0, 0, Value::Number(1)),
        Err(CedError::ConstraintViolation)
    ));
    t.set_data(0, 0, Value::Text("y".to_string())).unwrap();
    assert_eq!(t.to_string(), "a\ny");
}

#[test]
fn set_data_from_string_parses_against_the_column_type() {
    let mut t = table("a\nx");
    let lim = limiter("number", "0", "", "");
    t.set_limiter(0, &lim, false).unwrap();
    assert!(matches!(
        t.set_data_from_string(0, 0, "not-a-number"),
        Err(CedError::TypeMismatch)
    ));
    t.set_data_from_string(0, 0, "42").unwrap();
    assert_eq!(t.get_cell(0, 0).unwrap().to_string(), "42");
    assert!(matches!(t.get_cell(0, 0).unwrap().get_type(), ValueType::Number));
}

#[test]
fn set_column_writes_every_row() {
    let mut t = table("a,b\n1,2\n3,4");
    t.set_column("b", Value::Text("z".to_string())).unwrap();
    assert_eq!(t.to_string(), "a,b\n1,z\n3,z");
    assert!(matches!(
        t.set_column("missing", Value::Text("z".to_string())),
        Err(CedError::UnknownColumn)
    ));
}

#[test]
fn set_limiter_strict_rejects_and_changes_nothing() {
    let mut t = table("a\nx\ny");
    let lim = limiter("text", "x", "x", "");
    let r = t.set_limiter(0, &lim, true);
    assert!(matches!(r, Err(CedError::ConstraintViolation)));
    assert_eq!(t.to_string(), "a\nx\ny");
}

#[test]
fn set_limiter_coerces_disqualified_cells_to_the_default() {
    let mut t = table("a\nx\ny");
    let lim = limiter("text", "x", "x", "");
    t.set_limiter(0, &lim, false).unwrap();
    assert_eq!(t.to_string(), "a\nx\nx");
}

#[test]
fn set_limiter_converts_numeral_text_to_numbers() {
    let mut t = table("a\n12\n7");
    let lim = limiter("number", "0", "", "");
    t.set_limiter(0, &lim, true).unwrap();
    assert!(matches!(t.get_cell(0, 0).unwrap().get_type(), ValueType::Number));
    assert_eq!(t.to_string(), "a\n12\n7");
}

#[test]
fn default_values_follow_default_then_variant_then_zero() {
    // explicit default
    let mut t = table("a\n1");
    let lim = limiter("text", "x", "x y", "");
    t.set_limiter(0, &lim, false).unwrap();
    t.insert_row(1, None).unwrap();
    assert_eq!(t.get_cell(1, 0).unwrap().to_string(), "x");

    // zero values for plain types
    let mut t2 = VirtualData::new();
    t2.insert_column(0, "n", ValueType::Number, None).unwrap();
    t2.insert_column(1, "s", ValueType::Text, None).unwrap();
    t2.insert_row(0, None).unwrap();
    assert_eq!(t2.get_cell(0, 0).unwrap().to_string(), "0");
    assert_eq!(t2.get_cell(0, 1).unwrap().to_string(), "");
}

#[test]
fn try_get_column_index_resolves_names_and_positions() {
    let t = table("a,b\n1,2");
    assert_eq!(t.try_get_column_index("a"), Some(0));
    assert_eq!(t.try_get_column_index("b"), Some(1));
    assert_eq!(t.try_get_column_index("0"), Some(0));
    assert_eq!(t.try_get_column_index("1"), Some(1));
    assert_eq!(t.try_get_column_index("2"), None);
    assert_eq!(t.try_get_column_index("missing"), None);
}

#[test]
fn export_schema_lists_every_column() {
    let mut t = table("a,b\n1,2");
    let lim = limiter("text", "1", "", "^[0-9]+$");
    t.set_limiter(0, &lim, true).unwrap();
    assert_eq!(
        t.export_schema(),
        "column,type,default,variant,pattern\na,Text,1,,^[0-9]+$\nb,Text,,,\n"
    );
}

#[test]
fn apply_schema_line_limits_the_named_column() {
    let mut t = table("a,b\n1,x");
    t.apply_schema_line("a,number,0,,", true).unwrap();
    assert!(matches!(t.get_cell(0, 0).unwrap().get_type(), ValueType::Number));
    assert!(matches!(
        t.apply_schema_line("missing,text,,,", true),
        Err(CedError::UnknownColumn)
    ));
    assert!(matches!(
        t.apply_schema_line("b,number,0,,", true),
        Err(CedError::ConstraintViolation)
    ));
    // coercing mode cleans the column up instead
    t.apply_schema_line("b,number,0,,", false).unwrap();
    assert_eq!(t.get_cell(0, 1).unwrap().to_string(), "0");
}

#[test]
fn row_keys_follow_every_structural_change() {
    let mut t = table("a,b\n1,2");
    t.insert_column(1, "mid", ValueType::Text, None).unwrap();
    t.rename_column("a", "first").unwrap();
    t.delete_column(2).unwrap();
    // every row still answers exactly to the current column names
    let r = t.delete_row(0).unwrap();
    assert!(r.get_value("first").is_some());
    assert!(r.get_value("mid").is_some());
    assert!(r.get_value("a").is_none());
    assert!(r.get_value("b").is_none());
}

#[test]
fn rows_project_into_column_order() {
    let t = table("a,b\n1,2");
    let columns = t.get_columns().clone();
    let values = t.get_row_values(0).unwrap();
    assert_eq!(values.len(), 2);
    assert_eq!(values[0].to_string(), "1");
    assert_eq!(values[1].to_string(), "2");
    assert!(t.get_row_values(1).is_none());

    let mut t2 = table("a,b\n1,2");
    let row = t2.delete_row(0).unwrap();
    let projected = row.to_vector(&columns).unwrap();
    assert_eq!(projected[0].to_string(), "1");
    assert_eq!(projected[1].to_string(), "2");
}

#[test]
fn rows_answer_by_key() {
    let mut r = Row::new();
    r.insert_value("k", Value::Text("v".to_string()));
    assert_eq!(r.get_value("k").unwrap().to_string(), "v");
    r.update_value("k", Value::Text("w".to_string()));
    assert_eq!(r.get_value("k").unwrap().to_string(), "w");
    r.insert_value("k", Value::Text("again".to_string()));
    assert_eq!(r.get_value("k").unwrap().to_string(), "again");
    r.rename_column("k", "k2");
    assert!(r.get_value("k").is_none());
    assert_eq!(r.get_value("k2").unwrap().to_string(), "again");
    r.remove_value("k2");
    assert!(r.get_value("k2").is_none());
}

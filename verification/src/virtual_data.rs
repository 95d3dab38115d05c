//! The in-memory tabular container: ordered columns, ordered rows, typed
//! cells, constraint-checked mutation and delimited-text serialization.
//!
//! Rows are kept as ordered lists of `(column name, value)` cells, always in
//! the same order as the column list; every structural operation maintains
//! that alignment, which [`table_wf`] states.

use vstd::prelude::*;

use crate::error::{CedError, CedResult};
use crate::num::{is_integer_text, is_usize_text, usize_text_value};
use crate::text::{join_seq, join_strings, split_seq};
use crate::value::{
    spec_parse_value, spec_qualify, value_text, value_type_of, values_model, LimiterModel, Value,
    ValueLimiter, ValueModel, ValueType,
};

verus! {

/// First line of an exported schema: the meaning of each schema column.
pub const SCHEMA_HEADER: &'static str = "column,type,default,variant,pattern";

// ---------------------------------------------------------------------------
// Models
// ---------------------------------------------------------------------------
/// The mathematical content of a [`Column`].
#[verifier::ext_equal]
pub struct ColumnModel {
    pub name: Seq<char>,
    pub column_type: ValueType,
    pub limiter: LimiterModel,
}

/// The mathematical content of a [`Row`]: ordered `(key, value)` cells.
pub type RowModel = Seq<(Seq<char>, ValueModel)>;

/// The mathematical content of a [`VirtualData`] table.
#[verifier::ext_equal]
pub struct TableModel {
    pub columns: Seq<ColumnModel>,
    pub rows: Seq<RowModel>,
}

/// The column names, in column order.
pub open spec fn col_names(cols: Seq<ColumnModel>) -> Seq<Seq<char>> {
    cols.map_values(|c: ColumnModel| c.name)
}

/// The keys of a row, in cell order.
pub open spec fn row_keys(r: RowModel) -> Seq<Seq<char>> {
    r.map_values(|c: (Seq<char>, ValueModel)| c.0)
}

/// The values of a row, in cell order.
pub open spec fn row_values(r: RowModel) -> Seq<ValueModel> {
    r.map_values(|c: (Seq<char>, ValueModel)| c.1)
}

/// Table well-formedness: every row's keys are exactly the column names in
/// column order; column names are unique; and no column name parses as an
/// integer (integer tokens are reserved for positional addressing).
pub open spec fn table_wf(t: TableModel) -> bool {
    &&& forall|i: int| 0 <= i < t.rows.len() ==> row_keys(#[trigger] t.rows[i]) == col_names(
        t.columns,
    )
    &&& forall|i: int, j: int|
        0 <= i < j < t.columns.len() ==> (#[trigger] t.columns[i].name) != (
        #[trigger] t.columns[j].name)
    &&& forall|i: int| 0 <= i < t.columns.len() ==> !is_integer_text(
        (#[trigger] t.columns[i]).name,
    )
}

/// Index of the first column with the given name, or -1.
pub open spec fn col_find(cols: Seq<ColumnModel>, name: Seq<char>) -> int
    decreases cols.len(),
{
    if cols.len() == 0 {
        -1
    } else if cols[0].name == name {
        0
    } else {
        let r = col_find(cols.skip(1), name);
        if r == -1 {
            -1
        } else {
            r + 1
        }
    }
}

/// What [`col_find`] returns: the first column with that name, or -1.
pub proof fn lemma_col_find(cols: Seq<ColumnModel>, name: Seq<char>)
    ensures
        col_find(cols, name) == -1 ==> forall|j: int|
            0 <= j < cols.len() ==> (#[trigger] cols[j]).name != name,
        col_find(cols, name) != -1 ==> 0 <= col_find(cols, name) < cols.len(),
        col_find(cols, name) != -1 ==> cols[col_find(cols, name)].name == name,
        col_find(cols, name) != -1 ==> forall|j: int|
            0 <= j < col_find(cols, name) ==> (#[trigger] cols[j]).name != name,
    decreases cols.len(),
{
    if cols.len() == 0 {
    } else if cols[0].name == name {
    } else {
        lemma_col_find(cols.skip(1), name);
        let r = col_find(cols.skip(1), name);
        assert(forall|j: int| 1 <= j < cols.len() ==> cols[j] == cols.skip(1)[j - 1]);
    }
}

/// The value a column fills absent cells with: its explicit default if set,
/// else its first variant if any, else the zero value of its type.
pub open spec fn spec_default_value(col: ColumnModel) -> ValueModel {
    if col.limiter.default is Some {
        col.limiter.default.unwrap()
    } else if col.limiter.variant is Some && col.limiter.variant.unwrap().len() > 0 {
        col.limiter.variant.unwrap()[0]
    } else if col.column_type == ValueType::Number {
        ValueModel::Number(0)
    } else {
        ValueModel::Text(Seq::empty())
    }
}

/// A row pairing each column with the given value.
pub open spec fn spec_make_row(cols: Seq<ColumnModel>, vals: Seq<ValueModel>) -> RowModel {
    Seq::new(cols.len(), |i: int| (cols[i].name, vals[i]))
}

/// A row of every column's default value.
pub open spec fn spec_default_row(cols: Seq<ColumnModel>) -> RowModel {
    Seq::new(cols.len(), |i: int| (cols[i].name, spec_default_value(cols[i])))
}

/// Positional move as the table performs it: the element at `src` is taken
/// out and re-inserted at `dst`; everything in between shifts by one.
pub open spec fn spec_move<A>(s: Seq<A>, src: int, dst: int) -> Seq<A> {
    s.remove(src).insert(dst, s[src])
}

/// Where the element at position `k` of a moved sequence came from: the one
/// at `dst` is the moved element, the ones between `src` and `dst` shifted
/// by exactly one place, all others stayed.
pub open spec fn move_source_index(src: int, dst: int, k: int) -> int {
    if k == dst {
        src
    } else if src <= dst {
        if src <= k < dst {
            k + 1
        } else {
            k
        }
    } else {
        if dst < k <= src {
            k - 1
        } else {
            k
        }
    }
}

/// A positional move is a rotation: the moved element lands at `dst`, the
/// elements between the two positions shift by exactly one, and everything
/// else keeps its place ([`move_source_index`] names the mapping).
pub proof fn lemma_move_index<A>(s: Seq<A>, src: int, dst: int)
    requires
        0 <= src < s.len(),
        0 <= dst < s.len(),
    ensures
        spec_move(s, src, dst).len() == s.len(),
        forall|k: int|
            0 <= k < s.len() ==> spec_move(s, src, dst)[k] == s[move_source_index(src, dst, k)],
{
    let m = spec_move(s, src, dst);
    let rem = s.remove(src);
    assert forall|k: int| 0 <= k < s.len() implies m[k] == s[move_source_index(src, dst, k)] by {
        if k < dst {
            assert(m[k] == rem[k]);
        } else if k == dst {
            assert(m[k] == s[src]);
        } else {
            assert(m[k] == rem[k - 1]);
        }
    }
}

/// Every supplied value qualifies under its column's limiter.
pub open spec fn spec_all_qualify(cols: Seq<ColumnModel>, vals: Seq<ValueModel>) -> bool {
    forall|i: int| 0 <= i < cols.len() ==> spec_qualify((#[trigger] cols[i]).limiter, vals[i])
}

/// Every `Some` entry qualifies under its column's limiter.
pub open spec fn spec_all_qualify_opt(cols: Seq<ColumnModel>, vals: Seq<Option<Value>>) -> bool {
    forall|i: int|
        0 <= i < cols.len() ==> (match vals[i] {
            Some(v) => spec_qualify((#[trigger] cols[i]).limiter, v@),
            None => true,
        })
}

/// The column a freshly inserted column description denotes: without an
/// explicit limiter it gets an unrestricted limiter of its own type.
pub open spec fn spec_new_column(
    name: Seq<char>,
    column_type: ValueType,
    limiter: Option<ValueLimiter>,
) -> ColumnModel {
    ColumnModel {
        name,
        column_type,
        limiter: match limiter {
            Some(lim) => lim@,
            None => LimiterModel {
                value_type: column_type,
                default: None,
                variant: None,
                pattern: None,
            },
        },
    }
}

/// What a new column back-fills existing rows with: the placeholder if one
/// is given, else the column's default value.
pub open spec fn spec_fill_value(col: ColumnModel, placeholder: Option<Value>) -> ValueModel {
    match placeholder {
        Some(p) => p@,
        None => spec_default_value(col),
    }
}

/// Conversion of a value toward a target type, as limiter application
/// attempts it: numbers stringify to text; integer-shaped text (or empty
/// text, which counts as zero) parses to a number; like types pass through;
/// anything else does not convert.
pub open spec fn spec_convert(v: ValueModel, t: ValueType) -> Option<ValueModel> {
    match v {
        ValueModel::Number(n) => if t == ValueType::Text {
            Some(ValueModel::Text(crate::num::int_chars(n)))
        } else {
            Some(v)
        },
        ValueModel::Text(s) => if t == ValueType::Number {
            if s.len() == 0 {
                Some(ValueModel::Number(0))
            } else if is_integer_text(s) {
                Some(ValueModel::Number(crate::num::int_text_value(s)))
            } else {
                None
            }
        } else {
            Some(v)
        },
    }
}

/// The value a limiter is tested against: the converted value when the
/// conversion succeeds, else the value as it stands.
pub open spec fn spec_limit_candidate(v: ValueModel, lim: LimiterModel) -> ValueModel {
    match spec_convert(v, lim.value_type) {
        Some(c) => c,
        None => v,
    }
}

/// Whether a cell survives a limiter application: its (possibly converted)
/// value qualifies.
pub open spec fn spec_limit_ok(v: ValueModel, lim: LimiterModel) -> bool {
    spec_qualify(lim, spec_limit_candidate(v, lim))
}

/// The value a disqualified cell is coerced to: the limiter's default, or
/// the zero value of the limiter's type.
pub open spec fn spec_limiter_fallback(lim: LimiterModel) -> ValueModel {
    match lim.default {
        Some(d) => d,
        None => if lim.value_type == ValueType::Number {
            ValueModel::Number(0)
        } else {
            ValueModel::Text(Seq::empty())
        },
    }
}

/// A cell after a limiter is applied in coercing mode: the (converted)
/// value if it qualifies, else the limiter's fallback.
pub open spec fn spec_limit_cell(v: ValueModel, lim: LimiterModel) -> ValueModel {
    if spec_limit_ok(v, lim) {
        spec_limit_candidate(v, lim)
    } else {
        spec_limiter_fallback(lim)
    }
}

/// Every cell of the column survives the limiter application.
pub open spec fn spec_all_limit_ok(rows: Seq<RowModel>, y: int, lim: LimiterModel) -> bool {
    forall|i: int| 0 <= i < rows.len() ==> spec_limit_ok((#[trigger] rows[i])[y].1, lim)
}

/// Inserting a fresh, non-integer-named column at one index into the
/// columns and into every row keeps a table well-formed.
pub proof fn lemma_wf_insert_column(
    t0: TableModel,
    t1: TableModel,
    idx: int,
    c: ColumnModel,
    fill: ValueModel,
)
    requires
        table_wf(t0),
        0 <= idx <= t0.columns.len(),
        col_find(t0.columns, c.name) == -1,
        !is_integer_text(c.name),
        t1.columns == t0.columns.insert(idx, c),
        t1.rows == Seq::new(t0.rows.len(), |i: int| t0.rows[i].insert(idx, (c.name, fill))),
    ensures
        table_wf(t1),
{
    lemma_col_find(t0.columns, c.name);
    t0.columns.insert_ensures(idx, c);
    assert forall|w: int| 0 <= w < t1.columns.len() implies #[trigger] t1.columns[w] == (if w < idx {
        t0.columns[w]
    } else if w == idx {
        c
    } else {
        t0.columns[w - 1]
    }) by {
        if w < idx {
            assert(t0.columns.insert(idx, c)[w] == t0.columns[w]);
        } else if w > idx {
            assert(t0.columns.insert(idx, c)[w] == t0.columns.subrange(
                idx,
                t0.columns.len() as int,
            )[w - idx - 1]);
        }
    }
    assert forall|i: int| 0 <= i < t1.rows.len() implies row_keys(#[trigger] t1.rows[i])
        == col_names(t1.columns) by {
        assert(row_keys(t0.rows[i]) == col_names(t0.columns));
        assert(row_keys(t0.rows[i]).len() == t0.rows[i].len());
        assert(col_names(t0.columns).len() == t0.columns.len());
        t0.rows[i].insert_ensures(idx, (c.name, fill));
        assert(t1.rows[i] == t0.rows[i].insert(idx, (c.name, fill)));
        assert(row_keys(t1.rows[i]) =~= col_names(t1.columns)) by {
            assert forall|w: int| 0 <= w < t1.columns.len() implies row_keys(t1.rows[i])[w]
                == col_names(t1.columns)[w] by {
                if w < idx {
                    assert(t1.rows[i][w] == t0.rows[i][w]);
                    assert(row_keys(t0.rows[i])[w] == col_names(t0.columns)[w]);
                } else if w == idx {
                    assert(t1.rows[i][w] == (c.name, fill));
                } else {
                    assert(t0.rows[i].insert(idx, (c.name, fill))[w] == t0.rows[i].subrange(
                        idx,
                        t0.rows[i].len() as int,
                    )[w - idx - 1]);
                    assert(t1.rows[i][w] == t0.rows[i][w - 1]);
                    assert(row_keys(t0.rows[i])[w - 1] == col_names(t0.columns)[w - 1]);
                }
            }
        }
    }
}

/// Renaming one column to a fresh, non-integer name, in the column list and
/// in every row's cell, keeps a table well-formed.
pub proof fn lemma_wf_rename_column(t0: TableModel, t1: TableModel, idx: int, nn: Seq<char>)
    requires
        table_wf(t0),
        0 <= idx < t0.columns.len(),
        col_find(t0.columns, nn) == -1,
        !is_integer_text(nn),
        t1.columns == t0.columns.update(idx, (ColumnModel { name: nn, ..t0.columns[idx] })),
        t1.rows == Seq::new(
            t0.rows.len(),
            |i: int| t0.rows[i].update(idx, (nn, t0.rows[i][idx].1)),
        ),
    ensures
        table_wf(t1),
{
    lemma_col_find(t0.columns, nn);
    assert forall|i: int| 0 <= i < t1.rows.len() implies row_keys(#[trigger] t1.rows[i])
        == col_names(t1.columns) by {
        assert(row_keys(t0.rows[i]) == col_names(t0.columns));
        assert(row_keys(t0.rows[i]).len() == t0.rows[i].len());
        assert(col_names(t0.columns).len() == t0.columns.len());
        assert(row_keys(t1.rows[i]) =~= col_names(t1.columns)) by {
            assert forall|w: int| 0 <= w < t1.columns.len() implies row_keys(t1.rows[i])[w]
                == col_names(t1.columns)[w] by {
                if w != idx {
                    assert(t1.rows[i][w] == t0.rows[i][w]);
                    assert(t1.columns[w] == t0.columns[w]);
                    assert(row_keys(t0.rows[i])[w] == col_names(t0.columns)[w]);
                }
            }
        }
    }
}

/// Moving one column, in the column list and in every row, keeps a table
/// well-formed: the move applies the same index rotation to both.
pub proof fn lemma_wf_move_column(t0: TableModel, t1: TableModel, src: int, dst: int)
    requires
        table_wf(t0),
        0 <= src < t0.columns.len(),
        0 <= dst < t0.columns.len(),
        t1.columns == spec_move(t0.columns, src, dst),
        t1.rows == Seq::new(t0.rows.len(), |i: int| spec_move(t0.rows[i], src, dst)),
    ensures
        table_wf(t1),
{
    lemma_move_index(t0.columns, src, dst);
    assert forall|k1: int, k2: int|
        0 <= k1 < t0.columns.len() && 0 <= k2 < t0.columns.len() && k1 != k2 implies
        move_source_index(src, dst, k1) != move_source_index(src, dst, k2) by {}
    assert forall|i: int| 0 <= i < t1.rows.len() implies row_keys(#[trigger] t1.rows[i])
        == col_names(t1.columns) by {
        assert(row_keys(t0.rows[i]) == col_names(t0.columns));
        assert(row_keys(t0.rows[i]).len() == t0.rows[i].len());
        assert(col_names(t0.columns).len() == t0.columns.len());
        lemma_move_index(t0.rows[i], src, dst);
        assert(row_keys(t1.rows[i]) =~= col_names(t1.columns)) by {
            assert forall|w: int| 0 <= w < t1.columns.len() implies row_keys(t1.rows[i])[w]
                == col_names(t1.columns)[w] by {
                let o = move_source_index(src, dst, w);
                assert(t1.rows[i][w] == t0.rows[i][o]);
                assert(t1.columns[w] == t0.columns[o]);
                assert(row_keys(t0.rows[i])[o] == col_names(t0.columns)[o]);
            }
        }
    }
    assert forall|i: int, j: int|
        0 <= i < j < t1.columns.len() implies (#[trigger] t1.columns[i].name) != (
        #[trigger] t1.columns[j].name) by {
        let oi = move_source_index(src, dst, i);
        let oj = move_source_index(src, dst, j);
        assert(t1.columns[i] == t0.columns[oi]);
        assert(t1.columns[j] == t0.columns[oj]);
        if oi < oj {
        } else {
        }
    }
    assert forall|i: int| 0 <= i < t1.columns.len() implies !is_integer_text(
        (#[trigger] t1.columns[i]).name,
    ) by {
        assert(t1.columns[i] == t0.columns[move_source_index(src, dst, i)]);
    }
}

/// A row after a per-cell optional overwrite: `Some` entries replace their
/// cell's value, `None` entries leave it unchanged.
pub open spec fn spec_edit_row(
    row: RowModel,
    cols: Seq<ColumnModel>,
    vals: Seq<Option<Value>>,
) -> RowModel {
    Seq::new(
        cols.len(),
        |i: int|
            (
                cols[i].name,
                match vals[i] {
                    Some(v) => v@,
                    None => row[i].1,
                },
            ),
    )
}

// ---------------------------------------------------------------------------
// Column
// ---------------------------------------------------------------------------
/// A named, typed field definition carrying a value limiter.
#[derive(Clone, Debug)]
pub struct Column {
    pub name: String,
    pub column_type: ValueType,
    pub limiter: ValueLimiter,
}

impl View for Column {
    type V = ColumnModel;

    open spec fn view(&self) -> ColumnModel {
        ColumnModel { name: self.name@, column_type: self.column_type, limiter: self.limiter@ }
    }
}

/// A sequence of columns, abstracted to their models.
pub open spec fn columns_model(s: Seq<Column>) -> Seq<ColumnModel> {
    s.map_values(|c: Column| c@)
}

impl Column {
    /// Create a column.  Without an explicit limiter the column gets an
    /// unrestricted limiter of its own type.
    pub fn new(name: &str, column_type: ValueType, limiter: Option<ValueLimiter>) -> (r: Column)
        ensures
            r@.name == name@,
            r@.column_type == column_type,
            (match limiter {
                Some(lim) => r@.limiter == lim@,
                None => r@.limiter == (LimiterModel {
                    value_type: column_type,
                    default: None,
                    variant: None,
                    pattern: None,
                }),
            }),
    {
        let limiter = match limiter {
            Some(lim) => lim,
            None => {
                let mut lim = ValueLimiter::default();
                lim.set_type(column_type);
                lim
            },
        };
        Column { name: name.to_owned(), column_type, limiter }
    }

    /// The column's name.
    pub fn get_name(&self) -> (r: &str)
        ensures
            r@ == self@.name,
    {
        self.name.as_str()
    }

    /// The column's declared type.
    pub fn get_column_type(&self) -> (r: &ValueType)
        ensures
            *r == self@.column_type,
    {
        &self.column_type
    }

    /// Rename the column, returning the previous name so the table can
    /// propagate the change to every row.
    pub fn rename(&mut self, new_name: &str) -> (r: String)
        ensures
            r@ == old(self)@.name,
            final(self)@ == (ColumnModel { name: new_name@, ..old(self)@ }),
    {
        let mut name = new_name.to_owned();
        core::mem::swap(&mut self.name, &mut name);
        name
    }

    /// Replace the limiter; the column takes the limiter's type.  Existing
    /// cell values are not re-validated here (the table-level operation
    /// does that).
    pub fn set_limiter(&mut self, limiter: ValueLimiter)
        ensures
            final(self)@ == (ColumnModel {
                column_type: limiter@.value_type,
                limiter: limiter@,
                ..old(self)@
            }),
    {
        self.column_type = limiter.get_type();
        self.limiter = limiter;
    }

    /// The value this column fills absent cells with: the limiter's default
    /// if set, else the first variant if any, else the type's zero value.
    pub fn get_default_value(&self) -> (r: Value)
        ensures
            r@ == spec_default_value(self@),
    {
        if let Some(def) = self.limiter.get_default() {
            return def.duplicate();
        }
        if let Some(vs) = self.limiter.get_variant() {
            if vs.len() != 0 {
                proof {
                    assert(self@.limiter.variant.unwrap()[0] == vs@[0]@);
                }
                return vs[0].duplicate();
            }
        }
        match self.column_type {
            ValueType::Number => Value::Number(0),
            ValueType::Text => Value::Text(String::new()),
        }
    }

    /// An equal copy of this column.
    pub fn duplicate(&self) -> (r: Column)
        ensures
            r@ == self@,
    {
        Column {
            name: self.name.clone(),
            column_type: self.column_type,
            limiter: self.limiter.duplicate(),
        }
    }
}

// ---------------------------------------------------------------------------
// Row
// ---------------------------------------------------------------------------
/// One record: ordered `(column name, value)` cells.
#[derive(Clone, Debug)]
pub struct Row {
    cells: Vec<(String, Value)>,
}

impl View for Row {
    type V = RowModel;

    closed spec fn view(&self) -> RowModel {
        self.cells@.map_values(|c: (String, Value)| (c.0@, c.1@))
    }
}

/// Index of the first cell with the given key, or -1.
pub open spec fn row_find(r: RowModel, key: Seq<char>) -> int
    decreases r.len(),
{
    if r.len() == 0 {
        -1
    } else if r[0].0 == key {
        0
    } else {
        let i = row_find(r.skip(1), key);
        if i == -1 {
            -1
        } else {
            i + 1
        }
    }
}

/// What [`row_find`] returns: the first cell with that key, or -1.
pub proof fn lemma_row_find(r: RowModel, key: Seq<char>)
    ensures
        row_find(r, key) == -1 ==> forall|j: int|
            0 <= j < r.len() ==> (#[trigger] r[j]).0 != key,
        row_find(r, key) != -1 ==> 0 <= row_find(r, key) < r.len(),
        row_find(r, key) != -1 ==> r[row_find(r, key)].0 == key,
        row_find(r, key) != -1 ==> forall|j: int|
            0 <= j < row_find(r, key) ==> (#[trigger] r[j]).0 != key,
    decreases r.len(),
{
    if r.len() == 0 {
    } else if r[0].0 == key {
    } else {
        lemma_row_find(r.skip(1), key);
        assert(forall|j: int| 1 <= j < r.len() ==> r[j] == r.skip(1)[j - 1]);
    }
}

/// What inserting a keyed value does: replace the value of the first cell
/// with that key, or append a new cell at the end.
pub open spec fn spec_row_insert(r: RowModel, key: Seq<char>, v: ValueModel) -> RowModel {
    if row_find(r, key) >= 0 {
        r.update(row_find(r, key), (key, v))
    } else {
        r.push((key, v))
    }
}

impl Row {
    /// An empty record.
    pub fn new() -> (r: Row)
        ensures
            r@ == Seq::<(Seq<char>, ValueModel)>::empty(),
    {
        let r = Row { cells: Vec::new() };
        proof {
            assert(r@ =~= Seq::<(Seq<char>, ValueModel)>::empty());
        }
        r
    }

    /// Index of the first cell with the given key, if any.
    fn position_of(&self, key: &str) -> (r: Option<usize>)
        ensures
            (r is Some) == (row_find(self@, key@) >= 0),
            r is Some ==> r.unwrap() as int == row_find(self@, key@),
            r is Some ==> (r.unwrap() as int) < self.cells@.len() && self.cells@.len()
                == self@.len(),
    {
        proof {
            lemma_row_find(self@, key@);
        }
        let mut i: usize = 0;
        while i < self.cells.len()
            invariant
                i <= self.cells@.len(),
                self@.len() == self.cells@.len(),
                forall|j: int| 0 <= j < i ==> (#[trigger] self@[j]).0 != key@,
            decreases self.cells@.len() - i,
        {
            if crate::text::str_eq(self.cells[i].0.as_str(), key) {
                proof {
                    assert(self@[i as int].0 == key@);
                    lemma_row_find(self@, key@);
                    let f = row_find(self@, key@);
                    assert(f != -1);
                    assert(f >= i ==> f == i);
                }
                return Some(i);
            }
            i = i + 1;
        }
        proof {
            lemma_row_find(self@, key@);
            let f = row_find(self@, key@);
            if f != -1 {
                assert(self@[f].0 == key@);
            }
        }
        None
    }

    /// Insert a keyed value: replace the value under an existing key, or
    /// append a new cell.
    pub fn insert_value(&mut self, key: &str, value: Value)
        ensures
            final(self)@ == spec_row_insert(old(self)@, key@, value@),
    {
        match self.position_of(key) {
            Some(i) => {
                self.cells[i] = (key.to_owned(), value);
                proof {
                    assert(final(self)@ =~= spec_row_insert(old(self)@, key@, value@)) by {
                        lemma_row_find(old(self)@, key@);
                        assert(old(self)@[row_find(old(self)@, key@)].0 == key@);
                    }
                }
            },
            None => {
                self.cells.push((key.to_owned(), value));
                proof {
                    assert(final(self)@ =~= spec_row_insert(old(self)@, key@, value@));
                }
            },
        }
    }

    /// The value under a key, if the key is present.
    pub fn get_value(&self, key: &str) -> (r: Option<&Value>)
        ensures
            (r is Some) == (row_find(self@, key@) >= 0),
            r is Some ==> r.unwrap()@ == self@[row_find(self@, key@)].1,
    {
        match self.position_of(key) {
            Some(i) => {
                proof {
                    assert(self@[i as int].1 == self.cells@[i as int].1@);
                }
                Some(&self.cells[i].1)
            },
            None => None,
        }
    }

    /// Overwrite the value under an existing key.  Callers must insert a key
    /// before they update it.
    pub fn update_value(&mut self, key: &str, value: Value)
        requires
            row_find(old(self)@, key@) >= 0,
        ensures
            final(self)@ == old(self)@.update(
                row_find(old(self)@, key@),
                (key@, value@),
            ),
    {
        let i = self.position_of(key).unwrap();
        self.cells[i] = (key.to_owned(), value);
        proof {
            lemma_row_find(old(self)@, key@);
            assert(final(self)@ =~= old(self)@.update(row_find(old(self)@, key@), (key@, value@)));
        }
    }

    /// Remove the cell under a key, if present.
    pub fn remove_value(&mut self, key: &str)
        ensures
            row_find(old(self)@, key@) >= 0 ==> final(self)@ == old(self)@.remove(
                row_find(old(self)@, key@),
            ),
            row_find(old(self)@, key@) == -1 ==> final(self)@ == old(self)@,
    {
        match self.position_of(key) {
            Some(i) => {
                self.cells.remove(i);
                proof {
                    assert(final(self)@ =~= old(self)@.remove(row_find(old(self)@, key@)));
                }
            },
            None => {},
        }
    }

    /// Re-key the cell under `name` to `new_name`, in place, keeping its
    /// value and its position.
    pub fn rename_column(&mut self, name: &str, new_name: &str)
        ensures
            row_find(old(self)@, name@) >= 0 ==> final(self)@ == old(self)@.update(
                row_find(old(self)@, name@),
                (new_name@, old(self)@[row_find(old(self)@, name@)].1),
            ),
            row_find(old(self)@, name@) == -1 ==> final(self)@ == old(self)@,
    {
        match self.position_of(name) {
            Some(i) => {
                let v = self.cells[i].1.duplicate();
                self.cells[i] = (new_name.to_owned(), v);
                proof {
                    lemma_row_find(old(self)@, name@);
                    assert(final(self)@ =~= old(self)@.update(
                        row_find(old(self)@, name@),
                        (new_name@, old(self)@[row_find(old(self)@, name@)].1),
                    ));
                }
            },
            None => {},
        }
    }

    /// The values of this row in the order of the given columns, or `None`
    /// if some column's key is absent.
    pub fn to_vector(&self, columns: &Vec<Column>) -> (r: Option<Vec<Value>>)
        ensures
            (r is Some) == (forall|i: int|
                0 <= i < columns@.len() ==> row_find(self@, (#[trigger] columns@[i])@.name) >= 0),
            r is Some ==> values_model(r.unwrap()@) == Seq::new(
                columns@.len() as nat,
                |i: int| self@[row_find(self@, columns@[i]@.name)].1,
            ),
    {
        let mut out: Vec<Value> = Vec::new();
        let mut i: usize = 0;
        while i < columns.len()
            invariant
                i <= columns@.len(),
                out@.len() == i,
                forall|j: int| 0 <= j < i ==> row_find(self@, (#[trigger] columns@[j])@.name) >= 0,
                forall|j: int|
                    0 <= j < i ==> (#[trigger] out@[j])@ == self@[row_find(
                        self@,
                        columns@[j]@.name,
                    )].1,
            decreases columns@.len() - i,
        {
            match self.get_value(columns[i].name.as_str()) {
                Some(v) => {
                    out.push(v.duplicate());
                },
                None => {
                    return None;
                },
            }
            i = i + 1;
        }
        proof {
            assert(values_model(out@) =~= Seq::new(
                columns@.len() as nat,
                |i: int| self@[row_find(self@, columns@[i]@.name)].1,
            ));
        }
        Some(out)
    }

    /// Number of cells.
    fn cell_count(&self) -> (r: usize)
        ensures
            r == self@.len(),
    {
        self.cells.len()
    }

    /// Overwrite the cell at a position.
    fn set_at(&mut self, i: usize, key: String, value: Value)
        requires
            i < old(self)@.len(),
        ensures
            final(self)@ == old(self)@.update(i as int, (key@, value@)),
    {
        self.cells[i] = (key, value);
        proof {
            assert(final(self)@ =~= old(self)@.update(i as int, (key@, value@)));
        }
    }

    /// Insert a cell at a position.
    fn insert_at(&mut self, i: usize, key: String, value: Value)
        requires
            i <= old(self)@.len(),
        ensures
            final(self)@ == old(self)@.insert(i as int, (key@, value@)),
    {
        self.cells.insert(i, (key, value));
        proof {
            assert(final(self)@ =~= old(self)@.insert(i as int, (key@, value@)));
        }
    }

    /// Remove the cell at a position.
    fn remove_at(&mut self, i: usize)
        requires
            i < old(self)@.len(),
        ensures
            final(self)@ == old(self)@.remove(i as int),
    {
        self.cells.remove(i);
        proof {
            assert(final(self)@ =~= old(self)@.remove(i as int));
        }
    }

    /// Move the cell at `src` to `dst`, shifting the cells in between.
    fn move_at(&mut self, src: usize, dst: usize)
        requires
            src < old(self)@.len(),
            dst < old(self)@.len(),
        ensures
            final(self)@ == spec_move(old(self)@, src as int, dst as int),
    {
        let cell = self.cells.remove(src);
        self.cells.insert(dst, cell);
    }

    /// The value of the cell at a position.
    fn value_at(&self, i: usize) -> (r: &Value)
        requires
            i < self@.len(),
        ensures
            r@ == self@[i as int].1,
    {
        proof {
            assert(self@[i as int].1 == self.cells@[i as int].1@);
        }
        &self.cells[i].1
    }

    /// An equal copy of this row.
    pub fn duplicate(&self) -> (r: Row)
        ensures
            r@ == self@,
    {
        let mut cells: Vec<(String, Value)> = Vec::new();
        let mut i: usize = 0;
        while i < self.cells.len()
            invariant
                i <= self.cells@.len(),
                cells@.len() == i,
                self@.len() == self.cells@.len(),
                forall|j: int|
                    0 <= j < i ==> ((#[trigger] cells@[j]).0@, cells@[j].1@) == self@[j],
            decreases self.cells@.len() - i,
        {
            let k = self.cells[i].0.clone();
            let v = self.cells[i].1.duplicate();
            cells.push((k, v));
            i = i + 1;
        }
        let r = Row { cells };
        proof {
            assert(r@ =~= self@);
        }
        r
    }
}

// ---------------------------------------------------------------------------
// Serialization specs
// ---------------------------------------------------------------------------
/// The cell texts of a row, in cell order.
pub open spec fn spec_row_texts(r: RowModel) -> Seq<Seq<char>> {
    row_values(r).map_values(|v: ValueModel| value_text(v))
}

/// The lines of a serialized table: the joined column names, then one
/// joined line per row.
pub open spec fn spec_table_lines(t: TableModel) -> Seq<Seq<char>> {
    seq![join_seq(col_names(t.columns), ',')] + t.rows.map_values(
        |r: RowModel| join_seq(spec_row_texts(r), ','),
    )
}

/// A serialized table: its lines joined by newlines, with no trailing
/// newline.
pub open spec fn spec_table_string(t: TableModel) -> Seq<char> {
    join_seq(spec_table_lines(t), '\n')
}

/// The texts of a limiter's variants, or nothing when no variants are set.
pub open spec fn spec_variant_texts(lim: LimiterModel) -> Seq<Seq<char>> {
    match lim.variant {
        Some(vs) => vs.map_values(|v: ValueModel| value_text(v)),
        None => Seq::empty(),
    }
}

/// The five schema fields of a column: name, type, default, variants
/// (space-joined), pattern.
pub open spec fn spec_schema_fields(c: ColumnModel) -> Seq<Seq<char>> {
    seq![
        c.name,
        c.limiter.value_type.spec_text(),
        (match c.limiter.default {
            Some(d) => value_text(d),
            None => Seq::empty(),
        }),
        join_seq(spec_variant_texts(c.limiter), ' '),
        (match c.limiter.pattern {
            Some(p) => p,
            None => Seq::empty(),
        }),
    ]
}

/// One schema line: the comma-joined schema fields of a column.
pub open spec fn spec_schema_line(c: ColumnModel) -> Seq<char> {
    join_seq(spec_schema_fields(c), ',')
}

/// A serialized schema: the header line and one line per column, joined by
/// newlines and terminated by one.
pub open spec fn spec_schema_string(t: TableModel) -> Seq<char> {
    join_seq(
        seq![SCHEMA_HEADER@] + t.columns.map_values(|c: ColumnModel| spec_schema_line(c)),
        '\n',
    ) + seq!['\n']
}

// ---------------------------------------------------------------------------
// Reader specs
// ---------------------------------------------------------------------------
/// The lines that remain when blank ones are dropped.
pub open spec fn spec_nonempty_lines(lines: Seq<Seq<char>>) -> Seq<Seq<char>> {
    lines.filter(|l: Seq<char>| l.len() > 0)
}

/// Dropping blank lines goes line by line.
pub proof fn lemma_nonempty_lines_push(lines: Seq<Seq<char>>, l: Seq<char>)
    ensures
        l.len() > 0 ==> spec_nonempty_lines(lines.push(l)) == spec_nonempty_lines(lines).push(l),
        l.len() == 0 ==> spec_nonempty_lines(lines.push(l)) == spec_nonempty_lines(lines),
{
    assert(lines.push(l).drop_last() =~= lines);
    assert(lines.push(l).last() == l);
    reveal(Seq::filter);
}

/// The generated letter for a column position, `a` through `z`.
pub open spec fn spec_alpha_letter(d: int) -> char {
    if d == 0 {
        'a'
    } else if d == 1 {
        'b'
    } else if d == 2 {
        'c'
    } else if d == 3 {
        'd'
    } else if d == 4 {
        'e'
    } else if d == 5 {
        'f'
    } else if d == 6 {
        'g'
    } else if d == 7 {
        'h'
    } else if d == 8 {
        'i'
    } else if d == 9 {
        'j'
    } else if d == 10 {
        'k'
    } else if d == 11 {
        'l'
    } else if d == 12 {
        'm'
    } else if d == 13 {
        'n'
    } else if d == 14 {
        'o'
    } else if d == 15 {
        'p'
    } else if d == 16 {
        'q'
    } else if d == 17 {
        'r'
    } else if d == 18 {
        's'
    } else if d == 19 {
        't'
    } else if d == 20 {
        'u'
    } else if d == 21 {
        'v'
    } else if d == 22 {
        'w'
    } else if d == 23 {
        'x'
    } else if d == 24 {
        'y'
    } else {
        'z'
    }
}

/// A character repeated a number of times.
pub open spec fn spec_repeat_char(c: char, k: int) -> Seq<char>
    decreases k,
{
    if k <= 0 {
        Seq::empty()
    } else {
        spec_repeat_char(c, k - 1).push(c)
    }
}

/// Shape of a repeated character: the given length, every position the
/// same character.
pub proof fn lemma_repeat_char(c: char, k: int)
    requires
        k >= 0,
    ensures
        spec_repeat_char(c, k).len() == k,
        forall|i: int| 0 <= i < k ==> spec_repeat_char(c, k)[i] == c,
    decreases k,
{
    if k > 0 {
        lemma_repeat_char(c, k - 1);
    }
}

/// The generated name of a headerless column: its letter, repeated once
/// more for every full round through the alphabet.
pub open spec fn spec_alpha_name(i: int) -> Seq<char> {
    spec_repeat_char(spec_alpha_letter(i % 26), i / 26 + 1)
}

/// The generated names of `n` headerless columns.
pub open spec fn spec_alphabet_names(n: int) -> Seq<Seq<char>> {
    Seq::new(if n >= 0 {
        n as nat
    } else {
        0
    }, |i: int| spec_alpha_name(i))
}

/// A usable header: names are pairwise distinct and none parses as an
/// integer.
pub open spec fn spec_header_ok(names: Seq<Seq<char>>) -> bool {
    &&& forall|i: int, j: int|
        0 <= i < j < names.len() ==> (#[trigger] names[i]) != (#[trigger] names[j])
    &&& forall|i: int| 0 <= i < names.len() ==> !is_integer_text(#[trigger] names[i])
}

/// Generated headerless names always form a usable header.
pub proof fn lemma_alphabet_header_ok(n: int)
    requires
        n >= 0,
    ensures
        spec_header_ok(spec_alphabet_names(n)),
{
    let names = spec_alphabet_names(n);
    assert forall|i: int| 0 <= i < n implies !is_integer_text(#[trigger] names[i]) by {
        let c = spec_alpha_letter(i % 26);
        vstd::arithmetic::div_mod::lemma_fundamental_div_mod(i, 26);
        lemma_repeat_char(c, i / 26 + 1);
        assert(names[i][0] == c);
        assert(c != '+' && c != '-' && !crate::num::is_digit(c));
        if is_integer_text(names[i]) {
            if names[i][0] == '+' || names[i][0] == '-' {
            } else {
                assert(crate::num::all_digits(names[i]));
                assert(crate::num::is_digit(names[i][0]));
            }
        }
    }
    assert forall|i: int, j: int| 0 <= i < j < n implies (#[trigger] names[i]) != (
    #[trigger] names[j]) by {
        vstd::arithmetic::div_mod::lemma_fundamental_div_mod(i, 26);
        vstd::arithmetic::div_mod::lemma_fundamental_div_mod(j, 26);
        lemma_repeat_char(spec_alpha_letter(i % 26), i / 26 + 1);
        lemma_repeat_char(spec_alpha_letter(j % 26), j / 26 + 1);
        if i % 26 == j % 26 {
            assert(i / 26 != j / 26);
            assert(names[i].len() != names[j].len());
        } else {
            assert(spec_alpha_letter(i % 26) != spec_alpha_letter(j % 26));
            assert(names[i][0] != names[j][0]);
        }
    }
}

/// The columns a parsed header denotes: text columns with unrestricted
/// limiters.
pub open spec fn spec_text_columns(names: Seq<Seq<char>>) -> Seq<ColumnModel> {
    names.map_values(
        |n: Seq<char>|
            ColumnModel {
                name: n,
                column_type: ValueType::Text,
                limiter: crate::value::spec_default_limiter(),
            },
    )
}

/// A parsed data row: each cell text as a text value under its column.
pub open spec fn spec_text_row(cols: Seq<ColumnModel>, cells: Seq<Seq<char>>) -> RowModel {
    Seq::new(cols.len(), |i: int| (cols[i].name, ValueModel::Text(cells[i])))
}

/// What parsing a sequence of non-dropped lines yields.  The first line
/// names the columns when a header is read, else names are generated and
/// the first line is data.  A header with duplicate or integer-shaped names
/// is rejected, as is any data line whose cell count differs from the
/// column count; all cells are read as text values.
/// The column names a line sequence denotes: the first line's cells when a
/// header is read, else generated names, one per cell of the first line.
pub open spec fn spec_parse_names(lines: Seq<Seq<char>>, has_header: bool) -> Seq<Seq<char>> {
    if has_header {
        split_seq(lines[0], ',')
    } else {
        spec_alphabet_names(split_seq(lines[0], ',').len() as int)
    }
}

/// The lines that carry data: all of them, or all but the header.
pub open spec fn spec_data_lines(lines: Seq<Seq<char>>, has_header: bool) -> Seq<Seq<char>> {
    if has_header {
        lines.skip(1)
    } else {
        lines
    }
}

pub open spec fn spec_parse_lines(lines: Seq<Seq<char>>, has_header: bool) -> Result<
    TableModel,
    CedError,
> {
    if lines.len() == 0 {
        Ok(TableModel { columns: Seq::empty(), rows: Seq::empty() })
    } else if !spec_header_ok(spec_parse_names(lines, has_header)) {
        Err(CedError::DuplicateOrInvalidColumnName)
    } else if exists|i: int|
        0 <= i < spec_data_lines(lines, has_header).len() && split_seq(
            #[trigger] spec_data_lines(lines, has_header)[i],
            ',',
        ).len() != spec_parse_names(lines, has_header).len() {
        Err(CedError::RowLengthMismatch)
    } else {
        Ok(
            TableModel {
                columns: spec_text_columns(spec_parse_names(lines, has_header)),
                rows: spec_data_lines(lines, has_header).map_values(
                    |l: Seq<char>|
                        spec_text_row(
                            spec_text_columns(spec_parse_names(lines, has_header)),
                            split_seq(l, ','),
                        ),
                ),
            },
        )
    }
}

/// What parsing delimited text yields.  Empty input is an empty table.
/// Otherwise the text splits into lines; in strict mode a blank line is an
/// error, in lenient mode blank lines are dropped; the lines that remain
/// are read by [`spec_parse_lines`].
pub open spec fn spec_parse_table(
    s: Seq<char>,
    has_header: bool,
    delim: char,
    ignore_empty: bool,
) -> Result<TableModel, CedError> {
    if s.len() == 0 {
        Ok(TableModel { columns: Seq::empty(), rows: Seq::empty() })
    } else {
        let all = split_seq(s, delim);
        if !ignore_empty && (exists|i: int|
            0 <= i < all.len() && (#[trigger] all[i]).len() == 0) {
            Err(CedError::RowLengthMismatch)
        } else {
            spec_parse_lines(
                if ignore_empty {
                    spec_nonempty_lines(all)
                } else {
                    all
                },
                has_header,
            )
        }
    }
}

/// The letter for a generated column name, as a one-character string.
fn alpha_letter_str(d: usize) -> (r: &'static str)
    requires
        d < 26,
    ensures
        r@ =~= seq![spec_alpha_letter(d as int)],
{
    proof {
        reveal_strlit("a");
        reveal_strlit("b");
        reveal_strlit("c");
        reveal_strlit("d");
        reveal_strlit("e");
        reveal_strlit("f");
        reveal_strlit("g");
        reveal_strlit("h");
        reveal_strlit("i");
        reveal_strlit("j");
        reveal_strlit("k");
        reveal_strlit("l");
        reveal_strlit("m");
        reveal_strlit("n");
        reveal_strlit("o");
        reveal_strlit("p");
        reveal_strlit("q");
        reveal_strlit("r");
        reveal_strlit("s");
        reveal_strlit("t");
        reveal_strlit("u");
        reveal_strlit("v");
        reveal_strlit("w");
        reveal_strlit("x");
        reveal_strlit("y");
        reveal_strlit("z");
    }
    match d {
        0 => "a",
        1 => "b",
        2 => "c",
        3 => "d",
        4 => "e",
        5 => "f",
        6 => "g",
        7 => "h",
        8 => "i",
        9 => "j",
        10 => "k",
        11 => "l",
        12 => "m",
        13 => "n",
        14 => "o",
        15 => "p",
        16 => "q",
        17 => "r",
        18 => "s",
        19 => "t",
        20 => "u",
        21 => "v",
        22 => "w",
        23 => "x",
        24 => "y",
        _ => "z",
    }
}

/// The generated name of a headerless column.
fn alpha_name(i: usize) -> (r: String)
    ensures
        r@ == spec_alpha_name(i as int),
{
    let letter = alpha_letter_str(i % 26);
    let reps = i / 26 + 1;
    proof {
        assert((i % 26) as int == (i as int) % 26);
        assert((i / 26) as int == (i as int) / 26);
    }
    let mut out = String::new();
    let mut k: usize = 0;
    while k < reps
        invariant
            k <= reps,
            letter@ == seq![spec_alpha_letter((i as int) % 26)],
            out@ == spec_repeat_char(spec_alpha_letter((i as int) % 26), k as int),
        decreases reps - k,
    {
        out.append(letter);
        k = k + 1;
        proof {
            assert(out@ =~= spec_repeat_char(spec_alpha_letter((i as int) % 26), k as int));
        }
    }
    proof {
        assert(reps as int == (i as int) / 26 + 1);
    }
    out
}

/// Round trip: a table built from a header and data rows with no
/// constraints — text columns with unrestricted limiters, every cell a text
/// value free of commas and newlines, and nothing that would serialize to a
/// blank line — is reproduced exactly by parsing its own serialization,
/// with the same column names and order and the same row values and order.
pub proof fn lemma_to_string_round_trip(t: TableModel)
    requires
        table_wf(t),
        t.columns.len() > 0,
        forall|i: int|
            0 <= i < t.columns.len() ==> (#[trigger] t.columns[i]).column_type == ValueType::Text
                && t.columns[i].limiter == crate::value::spec_default_limiter(),
        forall|i: int|
            0 <= i < t.columns.len() ==> !(#[trigger] t.columns[i]).name.contains(',') && !t.columns[i].name.contains('\n'),
        forall|i: int, j: int|
            0 <= i < t.rows.len() && 0 <= j < t.columns.len() ==> value_type_of(
                (#[trigger] t.rows[i][j]).1,
            ) == ValueType::Text && !value_text(t.rows[i][j].1).contains(',') && !value_text(
                t.rows[i][j].1,
            ).contains('\n'),
        t.columns.len() == 1 ==> t.columns[0].name.len() > 0,
        t.columns.len() == 1 ==> forall|i: int|
            0 <= i < t.rows.len() ==> value_text((#[trigger] t.rows[i])[0].1).len() > 0,
    ensures
        spec_parse_table(spec_table_string(t), true, '\n', false) == Ok::<TableModel, CedError>(t),
{
    let names = col_names(t.columns);
    let lines = spec_table_lines(t);
    let s = spec_table_string(t);
    let n = t.columns.len() as int;
    assert(names.len() == n);
    assert(forall|i: int| 0 <= i < n ==> names[i] == t.columns[i].name);

    // each row's texts, and their lengths
    assert forall|i: int| 0 <= i < t.rows.len() implies spec_row_texts(#[trigger] t.rows[i]).len()
        == n && (forall|j: int|
        0 <= j < n ==> spec_row_texts(t.rows[i])[j] == value_text(t.rows[i][j].1)) by {
        assert(row_keys(t.rows[i]).len() == t.rows[i].len());
        assert(col_names(t.columns).len() == t.columns.len());
        assert(row_values(t.rows[i]).len() == t.rows[i].len());
        assert forall|j: int| 0 <= j < n implies spec_row_texts(t.rows[i])[j] == value_text(
            t.rows[i][j].1,
        ) by {
            assert(row_values(t.rows[i])[j] == t.rows[i][j].1);
        }
    }

    // lines: the header, then one line per row
    assert(lines.len() == t.rows.len() + 1);
    assert(lines[0] == join_seq(names, ','));
    assert forall|i: int| 0 <= i < t.rows.len() implies lines[i + 1] == join_seq(
        spec_row_texts(#[trigger] t.rows[i]),
        ',',
    ) by {
        assert(lines[i + 1] == t.rows.map_values(
            |r: RowModel| join_seq(spec_row_texts(r), ','),
        )[i]);
    }

    // no line contains a newline
    assert forall|i: int| 0 <= i < lines.len() implies !(#[trigger] lines[i]).contains('\n') by {
        if i == 0 {
            crate::text::lemma_join_free_of(names, ',', '\n');
        } else {
            let texts = spec_row_texts(t.rows[i - 1]);
            assert(forall|j: int| 0 <= j < texts.len() ==> !(#[trigger] texts[j]).contains('\n'));
            crate::text::lemma_join_free_of(texts, ',', '\n');
        }
    }

    // no line is blank
    assert forall|i: int| 0 <= i < lines.len() implies (#[trigger] lines[i]).len() > 0 by {
        if i == 0 {
            if n == 1 {
                assert(lines[0] == names[0]);
            } else {
                assert(lines[0] == names[0] + seq![','] + join_seq(names.skip(1), ','));
            }
        } else {
            let texts = spec_row_texts(t.rows[i - 1]);
            if n == 1 {
                assert(lines[i] == texts[0]);
                assert(texts[0] == value_text(t.rows[i - 1][0].1));
            } else {
                assert(lines[i] == texts[0] + seq![','] + join_seq(texts.skip(1), ','));
            }
        }
    }

    // the serialized text splits back into the lines
    crate::text::lemma_split_join(lines, '\n');
    assert(split_seq(s, '\n') =~~= lines);
    assert(s.len() > 0) by {
        if lines.len() == 1 {
            assert(s == lines[0]);
        } else {
            assert(s == lines[0] + seq!['\n'] + join_seq(lines.skip(1), '\n'));
        }
    }

    // strict parsing keeps every line
    let all = split_seq(s, '\n');
    assert(all == lines);
    assert(!(exists|i: int| 0 <= i < all.len() && (#[trigger] all[i]).len() == 0));
    assert(spec_parse_table(s, true, '\n', false) == spec_parse_lines(lines, true));

    // the header line splits back into the names
    assert(forall|i: int| 0 <= i < names.len() ==> !(#[trigger] names[i]).contains(','));
    crate::text::lemma_split_join(names, ',');
    assert(spec_parse_names(lines, true) == split_seq(lines[0], ','));
    assert(split_seq(lines[0], ',') =~~= names);
    assert(spec_header_ok(spec_parse_names(lines, true))) by {
        assert(forall|i: int, j: int|
            0 <= i < j < names.len() ==> (#[trigger] names[i]) != (#[trigger] names[j]));
        assert(forall|i: int| 0 <= i < names.len() ==> !is_integer_text(#[trigger] names[i]));
    }

    // the data lines split back into each row's texts
    let data_lines = spec_data_lines(lines, true);
    assert(data_lines =~~= t.rows.map_values(|r: RowModel| join_seq(spec_row_texts(r), ',')));
    assert forall|i: int| 0 <= i < data_lines.len() implies split_seq(
        #[trigger] data_lines[i],
        ',',
    ) =~~= spec_row_texts(t.rows[i]) by {
        let texts = spec_row_texts(t.rows[i]);
        assert(data_lines[i] == join_seq(texts, ','));
        assert(forall|j: int| 0 <= j < texts.len() ==> !(#[trigger] texts[j]).contains(','));
        crate::text::lemma_split_join(texts, ',');
    }
    assert(!(exists|i: int|
        0 <= i < data_lines.len() && split_seq(#[trigger] data_lines[i], ',').len()
            != spec_parse_names(lines, true).len()));

    // the parsed table is the original
    let parsed = spec_parse_lines(lines, true);
    assert(parsed is Ok);
    let pt = parsed->Ok_0;
    assert(pt.columns =~~= t.columns) by {
        assert(pt.columns.len() == names.len());
        assert forall|i: int| 0 <= i < names.len() implies pt.columns[i] =~~= t.columns[i] by {
            assert(pt.columns[i] == spec_text_columns(spec_parse_names(lines, true))[i]);
            assert(spec_parse_names(lines, true)[i] == names[i]);
        }
    }
    assert(pt.rows =~~= t.rows) by {
        assert(pt.rows.len() == t.rows.len());
        assert forall|i: int| 0 <= i < t.rows.len() implies pt.rows[i] =~~= t.rows[i] by {
            assert(pt.rows[i] == spec_text_row(
                spec_text_columns(spec_parse_names(lines, true)),
                split_seq(data_lines[i], ','),
            ));
            assert(row_keys(t.rows[i]).len() == t.rows[i].len());
            assert(col_names(t.columns).len() == t.columns.len());
            assert forall|j: int| 0 <= j < n implies pt.rows[i][j] =~~= t.rows[i][j] by {
                assert(split_seq(data_lines[i], ',')[j] == spec_row_texts(t.rows[i])[j]);
                assert(spec_row_texts(t.rows[i])[j] == value_text(t.rows[i][j].1));
                assert(t.rows[i][j].1 is Text) by {
                    assert(value_type_of(t.rows[i][j].1) == ValueType::Text);
                }
                assert(ValueModel::Text(value_text(t.rows[i][j].1)) == t.rows[i][j].1);
                assert(pt.rows[i][j].0 == t.columns[j].name);
                assert(row_keys(t.rows[i])[j] == col_names(t.columns)[j]);
                assert(t.rows[i][j].0 == t.columns[j].name);
            }
        }
    }
    assert(pt =~~= t);
}

/// Row invariant: in a well-formed table, every row's key set is exactly
/// the set of current column names — structural operations keep the two in
/// lock-step (each operation's contract preserves [`table_wf`], of which
/// this is the set-level consequence).
pub proof fn lemma_row_key_sets(t: TableModel, i: int)
    requires
        table_wf(t),
        0 <= i < t.rows.len(),
    ensures
        row_keys(t.rows[i]).to_set() == col_names(t.columns).to_set(),
{
    assert(row_keys(t.rows[i]) == col_names(t.columns));
}

/// A table after a limiter is applied to one column: the column takes the
/// limiter's type and the limiter, and every cell of the column is
/// re-validated as [`spec_limit_cell`] says.
pub open spec fn spec_set_limiter_table(t: TableModel, y: int, lim: LimiterModel) -> TableModel {
    TableModel {
        columns: t.columns.update(
            y,
            (ColumnModel { column_type: lim.value_type, limiter: lim, ..t.columns[y] }),
        ),
        rows: Seq::new(
            t.rows.len(),
            |i: int| t.rows[i].update(y, (t.rows[i][y].0, spec_limit_cell(t.rows[i][y].1, lim))),
        ),
    }
}

/// What applying one schema line, `name,type,default,variants,pattern`,
/// yields: the described limiter (or its construction error), applied to
/// the column the name resolves to (`UnknownColumn` if none), re-validating
/// existing cells — under `panic` a cell that fails qualification aborts
/// with `ConstraintViolation`.
pub open spec fn spec_apply_schema_line(t: TableModel, line: Seq<char>, panic: bool) -> Result<
    TableModel,
    CedError,
> {
    let cells = split_seq(line, ',');
    match crate::value::spec_from_line(cells.skip(1)) {
        Err(e) => Err(e),
        Ok(lim) => match spec_try_column_index(t, cells[0]) {
            Option::None => Err(CedError::UnknownColumn),
            Option::Some(y) => if panic && !spec_all_limit_ok(t.rows, y, lim) {
                Err(CedError::ConstraintViolation)
            } else {
                Ok(spec_set_limiter_table(t, y, lim))
            },
        },
    }
}

/// An equal copy of a character vector.
fn dup_chars(v: &Vec<char>) -> (r: Vec<char>)
    ensures
        r@ == v@,
{
    let mut out: Vec<char> = Vec::new();
    let mut i: usize = 0;
    while i < v.len()
        invariant
            i <= v@.len(),
            out@ == v@.take(i as int),
        decreases v@.len() - i,
    {
        out.push(v[i]);
        i = i + 1;
        proof {
            assert(out@ =~= v@.take(i as int));
        }
    }
    proof {
        assert(v@.take(v@.len() as int) =~= v@);
    }
    out
}

/// Convert a value toward a target type, exactly as [`spec_convert`] says.
fn convert_value(v: &Value, t: ValueType) -> (r: Option<Value>)
    ensures
        (r is Some) == (spec_convert(v@, t) is Some),
        r is Some ==> r.unwrap()@ == spec_convert(v@, t).unwrap(),
{
    match (v, t) {
        (Value::Number(n), ValueType::Text) => Some(
            Value::Text(crate::num::isize_to_string(*n)),
        ),
        (Value::Text(s), ValueType::Number) => {
            if s.as_str().is_empty() {
                Some(Value::Number(0))
            } else {
                match crate::num::parse_isize(s.as_str()) {
                    Some(n) => Some(Value::Number(n)),
                    None => None,
                }
            }
        },
        _ => Some(v.duplicate()),
    }
}

// ---------------------------------------------------------------------------
// VirtualData
// ---------------------------------------------------------------------------
/// A sequence of rows, abstracted to their models.
pub open spec fn rows_model(s: Seq<Row>) -> Seq<RowModel> {
    s.map_values(|r: Row| r@)
}

/// The tabular container: ordered columns and ordered rows.
#[derive(Clone, Debug)]
pub struct VirtualData {
    columns: Vec<Column>,
    rows: Vec<Row>,
}

impl View for VirtualData {
    type V = TableModel;

    closed spec fn view(&self) -> TableModel {
        TableModel { columns: columns_model(self.columns@), rows: rows_model(self.rows@) }
    }
}

/// A table after one cell is overwritten, the keys untouched.
pub open spec fn spec_set_cell(t: TableModel, x: int, y: int, v: ValueModel) -> TableModel {
    TableModel {
        rows: t.rows.update(x, t.rows[x].update(y, (t.rows[x][y].0, v))),
        ..t
    }
}

/// Resolution of a column token: an integer token addresses by position
/// (bounds-checked); any other token is looked up as a name.
pub open spec fn spec_try_column_index(t: TableModel, src: Seq<char>) -> Option<int> {
    if is_usize_text(src) {
        if usize_text_value(src) < t.columns.len() {
            Some(usize_text_value(src))
        } else {
            None
        }
    } else {
        if col_find(t.columns, src) >= 0 {
            Some(col_find(t.columns, src))
        } else {
            None
        }
    }
}

impl VirtualData {
    /// An empty table.
    pub fn new() -> (r: VirtualData)
        ensures
            r@.columns =~= Seq::<ColumnModel>::empty(),
            r@.rows =~= Seq::<RowModel>::empty(),
            table_wf(r@),
    {
        let r = VirtualData { columns: Vec::new(), rows: Vec::new() };
        proof {
            assert(r@.columns =~= Seq::<ColumnModel>::empty());
            assert(r@.rows =~= Seq::<RowModel>::empty());
        }
        r
    }

    /// Number of rows.
    pub fn get_row_count(&self) -> (r: usize)
        ensures
            r == self@.rows.len(),
    {
        self.rows.len()
    }

    /// Number of columns.
    pub fn get_column_count(&self) -> (r: usize)
        ensures
            r == self@.columns.len(),
    {
        self.columns.len()
    }

    /// Drop all columns and rows.
    pub fn drop_data(&mut self)
        ensures
            final(self)@.columns =~= Seq::<ColumnModel>::empty(),
            final(self)@.rows =~= Seq::<RowModel>::empty(),
            table_wf(final(self)@),
    {
        self.columns.clear();
        self.rows.clear();
        proof {
            assert(final(self)@.columns =~= Seq::<ColumnModel>::empty());
            assert(final(self)@.rows =~= Seq::<RowModel>::empty());
        }
    }

    /// The column at an index, if the index is in range.
    pub fn get_column(&self, index: usize) -> (r: Option<&Column>)
        ensures
            (r is Some) == (index < self@.columns.len()),
            r is Some ==> r.unwrap()@ == self@.columns[index as int],
    {
        if index < self.columns.len() {
            proof {
                assert(self@.columns[index as int] == self.columns@[index as int]@);
            }
            Some(&self.columns[index])
        } else {
            None
        }
    }

    /// Index of the first column with the given name, if any.
    fn find_column_index(&self, name: &str) -> (r: Option<usize>)
        ensures
            (r is Some) == (col_find(self@.columns, name@) >= 0),
            r is Some ==> r.unwrap() as int == col_find(self@.columns, name@),
            r is Some ==> (r.unwrap() as int) < self@.columns.len(),
    {
        proof {
            lemma_col_find(self@.columns, name@);
        }
        let mut i: usize = 0;
        while i < self.columns.len()
            invariant
                i <= self.columns@.len(),
                self@.columns.len() == self.columns@.len(),
                forall|j: int| 0 <= j < i ==> (#[trigger] self@.columns[j]).name != name@,
            decreases self.columns@.len() - i,
        {
            if crate::text::str_eq(self.columns[i].name.as_str(), name) {
                proof {
                    assert(self@.columns[i as int].name == name@);
                    lemma_col_find(self@.columns, name@);
                    let f = col_find(self@.columns, name@);
                    assert(f != -1);
                    assert(f >= i ==> f == i);
                }
                return Some(i);
            }
            i = i + 1;
        }
        proof {
            lemma_col_find(self@.columns, name@);
            let f = col_find(self@.columns, name@);
            if f != -1 {
                assert(self@.columns[f].name == name@);
            }
        }
        None
    }

    /// Resolve a column token: an integer token is a bounds-checked
    /// positional index, any other token is a column name.
    pub fn try_get_column_index(&self, src: &str) -> (r: Option<usize>)
        ensures
            (r is Some) == (spec_try_column_index(self@, src@) is Some),
            r is Some ==> r.unwrap() as int == spec_try_column_index(self@, src@).unwrap(),
            r is Some ==> (r.unwrap() as int) < self@.columns.len(),
    {
        match crate::num::parse_usize(src) {
            Some(index) => {
                if index < self.columns.len() {
                    Some(index)
                } else {
                    None
                }
            },
            None => self.find_column_index(src),
        }
    }

    /// The cell at a coordinate, if it is within bounds.
    pub fn get_cell(&self, x: usize, y: usize) -> (r: Option<&Value>)
        requires
            table_wf(self@),
        ensures
            (r is Some) == (x < self@.rows.len() && y < self@.columns.len()),
            r is Some ==> r.unwrap()@ == self@.rows[x as int][y as int].1,
    {
        if x < self.rows.len() && y < self.columns.len() {
            proof {
                assert(self@.rows[x as int] == self.rows@[x as int]@);
                assert(row_keys(self@.rows[x as int]).len() == col_names(self@.columns).len());
            }
            Some(self.rows[x].value_at(y))
        } else {
            None
        }
    }

    /// Write a value to a cell.  Fails with `OutOfRange` on a bad
    /// coordinate and `ConstraintViolation` when the value does not qualify
    /// under the column's limiter; on failure nothing changes.
    pub fn set_data(&mut self, x: usize, y: usize, value: Value) -> (r: CedResult<()>)
        requires
            table_wf(old(self)@),
        ensures
            table_wf(final(self)@),
            (r is Ok) == (x < old(self)@.rows.len() && y < old(self)@.columns.len()
                && spec_qualify(old(self)@.columns[y as int].limiter, value@)),
            r is Ok ==> final(self)@ == spec_set_cell(old(self)@, x as int, y as int, value@),
            r is Err ==> final(self)@ == old(self)@,
            r is Err ==> if !(x < old(self)@.rows.len() && y < old(self)@.columns.len()) {
                r->Err_0 is OutOfRange
            } else {
                r->Err_0 is ConstraintViolation
            },
    {
        if !(x < self.rows.len() && y < self.columns.len()) {
            return Err(CedError::OutOfRange);
        }
        if !self.columns[y].limiter.qualify(&value) {
            proof {
                assert(self@.columns[y as int].limiter == self.columns@[y as int]@.limiter);
            }
            return Err(CedError::ConstraintViolation);
        }
        let key = self.columns[y].name.clone();
        proof {
            let rm = self@.rows[x as int];
            assert(rm == self.rows@[x as int]@);
            assert(row_keys(rm) == col_names(self@.columns));
            assert(row_keys(rm).len() == rm.len());
            assert(col_names(self@.columns).len() == self@.columns.len());
            assert(rm.len() == self@.columns.len());
            assert(rm[y as int].0 == row_keys(rm)[y as int]);
            assert(row_keys(rm)[y as int] == col_names(self@.columns)[y as int]);
            assert(col_names(self@.columns)[y as int] == self@.columns[y as int].name);
            assert(key@ == rm[y as int].0);
        }
        let row = &mut self.rows[x];
        row.set_at(y, key, value);
        proof {
            let t0 = old(self)@;
            let t1 = final(self)@;
            assert(t1.rows =~= t0.rows.update(
                x as int,
                t0.rows[x as int].update(y as int, (t0.rows[x as int][y as int].0, value@)),
            ));
            assert(t1.columns =~= t0.columns);
            assert(t1 =~= spec_set_cell(t0, x as int, y as int, value@));
            assert(table_wf(t1)) by {
                assert forall|i: int| 0 <= i < t1.rows.len() implies row_keys(
                    #[trigger] t1.rows[i],
                ) == col_names(t1.columns) by {
                    if i == x as int {
                        assert(row_keys(t1.rows[i]) =~= row_keys(t0.rows[i]));
                    }
                }
            }
        }
        Ok(())
    }

    /// Write a cell from text: the text is parsed against the column's
    /// declared type (`TypeMismatch` if it cannot be), then written as
    /// [`Self::set_data`] would.
    pub fn set_data_from_string(&mut self, x: usize, y: usize, value: &str) -> (r: CedResult<()>)
        requires
            table_wf(old(self)@),
        ensures
            table_wf(final(self)@),
            (r is Ok) == (x < old(self)@.rows.len() && y < old(self)@.columns.len()
                && spec_parse_value(value@, old(self)@.columns[y as int].column_type) is Some
                && spec_qualify(
                old(self)@.columns[y as int].limiter,
                spec_parse_value(value@, old(self)@.columns[y as int].column_type).unwrap(),
            )),
            r is Ok ==> final(self)@ == spec_set_cell(
                old(self)@,
                x as int,
                y as int,
                spec_parse_value(value@, old(self)@.columns[y as int].column_type).unwrap(),
            ),
            r is Err ==> final(self)@ == old(self)@,
            r is Err ==> if !(x < old(self)@.rows.len() && y < old(self)@.columns.len()) {
                r->Err_0 is OutOfRange
            } else if spec_parse_value(
                value@,
                old(self)@.columns[y as int].column_type,
            ) is None {
                r->Err_0 is TypeMismatch
            } else {
                r->Err_0 is ConstraintViolation
            },
    {
        if !(x < self.rows.len() && y < self.columns.len()) {
            return Err(CedError::OutOfRange);
        }
        proof {
            assert(self@.columns[y as int] == self.columns@[y as int]@);
        }
        let parsed = Value::from_str(value, self.columns[y].column_type);
        match parsed {
            Ok(v) => self.set_data(x, y, v),
            Err(_) => Err(CedError::TypeMismatch),
        }
    }

    /// Insert a row at an index, shifting later rows down.  With supplied
    /// values the row length must equal the column count and every value
    /// must qualify under its column's limiter; the whole row is rejected
    /// on the first disqualifying value.  Without supplied values every
    /// cell takes its column's default.
    pub fn insert_row(&mut self, row: usize, source: Option<&Vec<Value>>) -> (r: CedResult<()>)
        requires
            table_wf(old(self)@),
        ensures
            table_wf(final(self)@),
            (r is Ok) == (row <= old(self)@.rows.len() && (match source {
                Some(vals) => vals@.len() == old(self)@.columns.len() && spec_all_qualify(
                    old(self)@.columns,
                    values_model(vals@),
                ),
                None => true,
            })),
            r is Ok ==> final(self)@.columns == old(self)@.columns && final(self)@.rows == old(
                self,
            )@.rows.insert(
                row as int,
                (match source {
                    Some(vals) => spec_make_row(old(self)@.columns, values_model(vals@)),
                    None => spec_default_row(old(self)@.columns),
                }),
            ),
            r is Err ==> final(self)@ == old(self)@,
            r is Err ==> if row > old(self)@.rows.len() {
                r->Err_0 is OutOfRange
            } else if (match source {
                Some(vals) => vals@.len() != old(self)@.columns.len(),
                None => false,
            }) {
                r->Err_0 is RowLengthMismatch
            } else {
                r->Err_0 is ConstraintViolation
            },
    {
        if row > self.rows.len() {
            return Err(CedError::OutOfRange);
        }
        let new_row = match source {
            Some(vals) => {
                if vals.len() != self.columns.len() {
                    return Err(CedError::RowLengthMismatch);
                }
                let mut i: usize = 0;
                while i < vals.len()
                    invariant
                        source == Some(vals),
                        *self == *old(self),
                        table_wf(self@),
                        row <= self.rows@.len(),
                        self@.rows.len() == self.rows@.len(),
                        vals@.len() == self.columns@.len(),
                        self@.columns.len() == self.columns@.len(),
                        i <= vals@.len(),
                        forall|j: int|
                            0 <= j < i ==> spec_qualify(
                                (#[trigger] self@.columns[j]).limiter,
                                values_model(vals@)[j],
                            ),
                    decreases vals@.len() - i,
                {
                    if !self.columns[i].limiter.qualify(&vals[i]) {
                        proof {
                            assert(self@.columns[i as int].limiter == self.columns@[i as
                                int]@.limiter);
                            assert(values_model(vals@)[i as int] == vals@[i as int]@);
                            assert(!spec_all_qualify(self@.columns, values_model(vals@)));
                        }
                        return Err(CedError::ConstraintViolation);
                    }
                    i = i + 1;
                }
                let mut nr = Row::new();
                let mut k: usize = 0;
                while k < vals.len()
                    invariant
                        source == Some(vals),
                        vals@.len() == self.columns@.len(),
                        self@.columns.len() == self.columns@.len(),
                        k <= vals@.len(),
                        nr@.len() == k,
                        forall|j: int|
                            0 <= j < k ==> (#[trigger] nr@[j]) == (
                            self@.columns[j].name,
                            vals@[j]@,
                            ),
                    decreases vals@.len() - k,
                {
                    proof {
                        assert(self@.columns[k as int].name == self.columns@[k as int]@.name);
                    }
                    let key = self.columns[k].name.clone();
                    let count = nr.cell_count();
                    nr.insert_at(count, key, vals[k].duplicate());
                    k = k + 1;
                }
                proof {
                    assert(nr@ =~= spec_make_row(self@.columns, values_model(vals@)));
                }
                nr
            },
            None => {
                let mut nr = Row::new();
                let mut k: usize = 0;
                while k < self.columns.len()
                    invariant
                        self@.columns.len() == self.columns@.len(),
                        k <= self.columns@.len(),
                        nr@.len() == k,
                        forall|j: int|
                            0 <= j < k ==> (#[trigger] nr@[j]) == (
                            self@.columns[j].name,
                            spec_default_value(self@.columns[j]),
                            ),
                    decreases self.columns@.len() - k,
                {
                    proof {
                        assert(self@.columns[k as int] == self.columns@[k as int]@);
                    }
                    let key = self.columns[k].name.clone();
                    let v = self.columns[k].get_default_value();
                    let count = nr.cell_count();
                    nr.insert_at(count, key, v);
                    k = k + 1;
                }
                proof {
                    assert(nr@ =~= spec_default_row(self@.columns));
                }
                nr
            },
        };
        let ghost nrm = new_row@;
        self.rows.insert(row, new_row);
        proof {
            let t0 = old(self)@;
            let t1 = final(self)@;
            assert(t1.columns =~= t0.columns);
            assert(t1.rows =~= t0.rows.insert(row as int, nrm));
            assert(row_keys(nrm) =~= col_names(t0.columns));
            assert forall|i: int| 0 <= i < t1.rows.len() implies row_keys(#[trigger] t1.rows[i])
                == col_names(t1.columns) by {
                if i < row {
                    assert(t1.rows[i] == t0.rows[i]);
                } else if i == row {
                    assert(t1.rows[i] == nrm);
                } else {
                    assert(t1.rows[i] == t0.rows[i - 1]);
                }
            }
        }
        Ok(())
    }

    /// Remove and return the row at an index; `None`, with no change, if
    /// the index is out of bounds.
    pub fn delete_row(&mut self, row: usize) -> (r: Option<Row>)
        requires
            table_wf(old(self)@),
        ensures
            table_wf(final(self)@),
            (r is Some) == (row < old(self)@.rows.len()),
            r is Some ==> r.unwrap()@ == old(self)@.rows[row as int] && final(self)@.columns
                == old(self)@.columns && final(self)@.rows == old(self)@.rows.remove(row as int),
            r is None ==> final(self)@ == old(self)@,
    {
        if row < self.rows.len() {
            let removed = self.rows.remove(row);
            proof {
                assert(final(self)@.columns =~= old(self)@.columns);
                assert(final(self)@.rows =~= old(self)@.rows.remove(row as int));
                assert forall|i: int| 0 <= i < final(self)@.rows.len() implies row_keys(
                    #[trigger] final(self)@.rows[i],
                ) == col_names(final(self)@.columns) by {
                    if i < row {
                        assert(final(self)@.rows[i] == old(self)@.rows[i]);
                    } else {
                        assert(final(self)@.rows[i] == old(self)@.rows[i + 1]);
                    }
                }
            }
            Some(removed)
        } else {
            None
        }
    }

    /// Move the row at `src` to index `target`: the row is taken out and
    /// re-inserted, so every row between the two positions shifts by
    /// exactly one place and all other rows keep their positions.
    pub fn move_row(&mut self, src: usize, target: usize) -> (r: CedResult<()>)
        requires
            table_wf(old(self)@),
        ensures
            table_wf(final(self)@),
            (r is Ok) == (src < old(self)@.rows.len() && target < old(self)@.rows.len()),
            r is Ok ==> final(self)@.columns == old(self)@.columns && final(self)@.rows
                == spec_move(old(self)@.rows, src as int, target as int),
            r is Err ==> final(self)@ == old(self)@ && (r->Err_0 is OutOfRange),
    {
        let row_count = self.rows.len();
        if src >= row_count || target >= row_count {
            return Err(CedError::OutOfRange);
        }
        let moved = self.rows.remove(src);
        self.rows.insert(target, moved);
        proof {
            let t0 = old(self)@;
            let t1 = final(self)@;
            assert(t1.columns =~= t0.columns);
            assert(t1.rows =~= spec_move(t0.rows, src as int, target as int));
            lemma_move_index(t0.rows, src as int, target as int);
            assert forall|i: int| 0 <= i < t1.rows.len() implies row_keys(#[trigger] t1.rows[i])
                == col_names(t1.columns) by {
                assert(t1.rows[i] == t0.rows[move_source_index(src as int, target as int, i)]);
            }
        }
        Ok(())
    }

    /// Overwrite an existing row with values in column order.  The length
    /// and every value's qualification are checked before anything is
    /// written: either the whole row updates or none of it does.
    pub fn set_row(&mut self, row_number: usize, values: Vec<Value>) -> (r: CedResult<()>)
        requires
            table_wf(old(self)@),
        ensures
            table_wf(final(self)@),
            (r is Ok) == (values@.len() == old(self)@.columns.len() && row_number < old(
                self,
            )@.rows.len() && spec_all_qualify(old(self)@.columns, values_model(values@))),
            r is Ok ==> final(self)@.columns == old(self)@.columns && final(self)@.rows == old(
                self,
            )@.rows.update(
                row_number as int,
                spec_make_row(old(self)@.columns, values_model(values@)),
            ),
            r is Err ==> final(self)@ == old(self)@,
            r is Err ==> if values@.len() != old(self)@.columns.len() {
                r->Err_0 is RowLengthMismatch
            } else if row_number >= old(self)@.rows.len() {
                r->Err_0 is OutOfRange
            } else {
                r->Err_0 is ConstraintViolation
            },
    {
        if values.len() != self.columns.len() {
            return Err(CedError::RowLengthMismatch);
        }
        if row_number >= self.rows.len() {
            return Err(CedError::OutOfRange);
        }
        let mut i: usize = 0;
        while i < values.len()
            invariant
                *self == *old(self),
                table_wf(self@),
                row_number < self.rows@.len(),
                self@.rows.len() == self.rows@.len(),
                values@.len() == self.columns@.len(),
                self@.columns.len() == self.columns@.len(),
                i <= values@.len(),
                forall|j: int|
                    0 <= j < i ==> spec_qualify(
                        (#[trigger] self@.columns[j]).limiter,
                        values_model(values@)[j],
                    ),
            decreases values@.len() - i,
        {
            if !self.columns[i].limiter.qualify(&values[i]) {
                proof {
                    assert(self@.columns[i as int].limiter == self.columns@[i as int]@.limiter);
                    assert(values_model(values@)[i as int] == values@[i as int]@);
                    assert(!spec_all_qualify(self@.columns, values_model(values@)));
                }
                return Err(CedError::ConstraintViolation);
            }
            i = i + 1;
        }
        let mut nr = Row::new();
        let mut k: usize = 0;
        while k < values.len()
            invariant
                values@.len() == self.columns@.len(),
                self@.columns.len() == self.columns@.len(),
                k <= values@.len(),
                nr@.len() == k,
                forall|j: int|
                    0 <= j < k ==> (#[trigger] nr@[j]) == (self@.columns[j].name, values@[j]@),
            decreases values@.len() - k,
        {
            proof {
                assert(self@.columns[k as int].name == self.columns@[k as int]@.name);
            }
            let key = self.columns[k].name.clone();
            let count = nr.cell_count();
            nr.insert_at(count, key, values[k].duplicate());
            k = k + 1;
        }
        proof {
            assert(nr@ =~= spec_make_row(self@.columns, values_model(values@)));
        }
        self.rows[row_number] = nr;
        proof {
            let t0 = old(self)@;
            let t1 = final(self)@;
            assert(t1.columns =~= t0.columns);
            assert(t1.rows =~= t0.rows.update(
                row_number as int,
                spec_make_row(t0.columns, values_model(values@)),
            ));
            assert forall|i2: int| 0 <= i2 < t1.rows.len() implies row_keys(
                #[trigger] t1.rows[i2],
            ) == col_names(t1.columns) by {
                if i2 == row_number {
                    assert(row_keys(t1.rows[i2]) =~= col_names(t1.columns));
                } else {
                    assert(t1.rows[i2] == t0.rows[i2]);
                }
            }
        }
        Ok(())
    }

    /// Overwrite chosen cells of an existing row: `None` entries leave
    /// their cell unchanged.  Validation of every supplied value happens
    /// before any write; either all supplied cells update or none do.
    pub fn edit_row(&mut self, row_index: usize, values: &Vec<Option<Value>>) -> (r: CedResult<
        (),
    >)
        requires
            table_wf(old(self)@),
        ensures
            table_wf(final(self)@),
            (r is Ok) == (values@.len() == old(self)@.columns.len() && row_index < old(
                self,
            )@.rows.len() && spec_all_qualify_opt(old(self)@.columns, values@)),
            r is Ok ==> final(self)@.columns == old(self)@.columns && final(self)@.rows == old(
                self,
            )@.rows.update(
                row_index as int,
                spec_edit_row(old(self)@.rows[row_index as int], old(self)@.columns, values@),
            ),
            r is Err ==> final(self)@ == old(self)@,
            r is Err ==> if values@.len() != old(self)@.columns.len() {
                r->Err_0 is RowLengthMismatch
            } else if row_index >= old(self)@.rows.len() {
                r->Err_0 is OutOfRange
            } else {
                r->Err_0 is ConstraintViolation
            },
    {
        if values.len() != self.columns.len() {
            return Err(CedError::RowLengthMismatch);
        }
        if row_index >= self.rows.len() {
            return Err(CedError::OutOfRange);
        }
        let mut i: usize = 0;
        while i < values.len()
            invariant
                *self == *old(self),
                table_wf(self@),
                row_index < self.rows@.len(),
                self@.rows.len() == self.rows@.len(),
                values@.len() == self.columns@.len(),
                self@.columns.len() == self.columns@.len(),
                i <= values@.len(),
                forall|j: int|
                    0 <= j < i ==> (match values@[j] {
                        Some(v) => spec_qualify((#[trigger] self@.columns[j]).limiter, v@),
                        None => true,
                    }),
            decreases values@.len() - i,
        {
            let qualified = match &values[i] {
                Some(v) => self.columns[i].limiter.qualify(v),
                None => true,
            };
            if !qualified {
                proof {
                    assert(self@.columns[i as int].limiter == self.columns@[i as int]@.limiter);
                    assert(!spec_all_qualify_opt(self@.columns, values@));
                }
                return Err(CedError::ConstraintViolation);
            }
            i = i + 1;
        }
        proof {
            assert(self@.rows[row_index as int] == self.rows@[row_index as int]@);
            assert(row_keys(self@.rows[row_index as int]) == col_names(self@.columns));
            assert(row_keys(self@.rows[row_index as int]).len() == self@.rows[row_index
                as int].len());
            assert(col_names(self@.columns).len() == self@.columns.len());
        }
        let mut nr = Row::new();
        let mut k: usize = 0;
        while k < values.len()
            invariant
                values@.len() == self.columns@.len(),
                self@.columns.len() == self.columns@.len(),
                row_index < self.rows@.len(),
                self@.rows.len() == self.rows@.len(),
                self@.rows[row_index as int].len() == self@.columns.len(),
                k <= values@.len(),
                nr@.len() == k,
                forall|j: int|
                    0 <= j < k ==> (#[trigger] nr@[j]) == (
                    self@.columns[j].name,
                    (match values@[j] {
                        Some(v) => v@,
                        None => self@.rows[row_index as int][j].1,
                    }),
                    ),
            decreases values@.len() - k,
        {
            proof {
                assert(self@.columns[k as int].name == self.columns@[k as int]@.name);
                assert(self@.rows[row_index as int] == self.rows@[row_index as int]@);
            }
            let key = self.columns[k].name.clone();
            let v = match &values[k] {
                Some(v) => v.duplicate(),
                None => self.rows[row_index].value_at(k).duplicate(),
            };
            let count = nr.cell_count();
            nr.insert_at(count, key, v);
            k = k + 1;
        }
        proof {
            assert(nr@ =~= spec_edit_row(self@.rows[row_index as int], self@.columns, values@));
        }
        self.rows[row_index] = nr;
        proof {
            let t0 = old(self)@;
            let t1 = final(self)@;
            assert(t1.columns =~= t0.columns);
            assert(t1.rows =~= t0.rows.update(
                row_index as int,
                spec_edit_row(t0.rows[row_index as int], t0.columns, values@),
            ));
            assert forall|i2: int| 0 <= i2 < t1.rows.len() implies row_keys(
                #[trigger] t1.rows[i2],
            ) == col_names(t1.columns) by {
                if i2 == row_index {
                    assert(row_keys(t1.rows[i2]) =~= col_names(t1.columns));
                } else {
                    assert(t1.rows[i2] == t0.rows[i2]);
                }
            }
        }
        Ok(())
    }

    /// Insert a column at an index, shifting later columns right, and
    /// back-fill every existing row with the placeholder if given, else the
    /// column's default value.  Fails with `OutOfRange` past the end, with
    /// `DuplicateOrInvalidColumnName` when the name already exists or
    /// itself parses as an integer, and with `ConstraintViolation` when a
    /// placeholder does not qualify under the new column's limiter.
    pub fn insert_column_with_type(
        &mut self,
        column_index: usize,
        column_name: &str,
        column_type: ValueType,
        limiter: Option<ValueLimiter>,
        placeholder: Option<Value>,
    ) -> (r: CedResult<()>)
        requires
            table_wf(old(self)@),
        ensures
            table_wf(final(self)@),
            (r is Ok) == (column_index <= old(self)@.columns.len() && col_find(
                old(self)@.columns,
                column_name@,
            ) == -1 && !is_integer_text(column_name@) && (match placeholder {
                Some(p) => spec_qualify(
                    spec_new_column(column_name@, column_type, limiter).limiter,
                    p@,
                ),
                None => true,
            })),
            r is Ok ==> final(self)@.columns == old(self)@.columns.insert(
                column_index as int,
                spec_new_column(column_name@, column_type, limiter),
            ) && final(self)@.rows == Seq::new(
                old(self)@.rows.len(),
                |i: int|
                    old(self)@.rows[i].insert(
                        column_index as int,
                        (
                            column_name@,
                            spec_fill_value(
                                spec_new_column(column_name@, column_type, limiter),
                                placeholder,
                            ),
                        ),
                    ),
            ),
            r is Err ==> final(self)@ == old(self)@,
            r is Err ==> if column_index > old(self)@.columns.len() {
                r->Err_0 is OutOfRange
            } else if col_find(old(self)@.columns, column_name@) >= 0 || is_integer_text(
                column_name@,
            ) {
                r->Err_0 is DuplicateOrInvalidColumnName
            } else {
                r->Err_0 is ConstraintViolation
            },
    {
        if column_index > self.columns.len() {
            return Err(CedError::OutOfRange);
        }
        if self.find_column_index(column_name).is_some() {
            return Err(CedError::DuplicateOrInvalidColumnName);
        }
        if crate::num::parse_isize(column_name).is_some() {
            return Err(CedError::DuplicateOrInvalidColumnName);
        }
        proof {
            lemma_col_find(old(self)@.columns, column_name@);
            assert(col_find(old(self)@.columns, column_name@) == -1);
        }
        let new_column = Column::new(column_name, column_type, limiter);
        let ghost ncm = spec_new_column(column_name@, column_type, limiter);
        proof {
            assert(new_column@ =~= ncm);
        }
        let fill = match placeholder {
            Some(p) => {
                if !new_column.limiter.qualify(&p) {
                    return Err(CedError::ConstraintViolation);
                }
                p
            },
            None => new_column.get_default_value(),
        };
        let ghost fillm = fill@;
        proof {
            assert(fillm == spec_fill_value(ncm, placeholder));
        }
        let mut newrows: Vec<Row> = Vec::new();
        let mut k: usize = 0;
        while k < self.rows.len()
            invariant
                *self == *old(self),
                table_wf(self@),
                column_index <= self@.columns.len(),
                self@.rows.len() == self.rows@.len(),
                k <= self.rows@.len(),
                fill@ == fillm,
                newrows@.len() == k,
                forall|j: int|
                    0 <= j < k ==> (#[trigger] newrows@[j])@ == self@.rows[j].insert(
                        column_index as int,
                        (column_name@, fillm),
                    ),
            decreases self.rows@.len() - k,
        {
            proof {
                assert(self@.rows[k as int] == self.rows@[k as int]@);
                assert(row_keys(self@.rows[k as int]) == col_names(self@.columns));
                assert(row_keys(self@.rows[k as int]).len() == self@.rows[k as int].len());
                assert(col_names(self@.columns).len() == self@.columns.len());
            }
            let mut nr = self.rows[k].duplicate();
            nr.insert_at(column_index, column_name.to_owned(), fill.duplicate());
            newrows.push(nr);
            k = k + 1;
        }
        self.rows = newrows;
        self.columns.insert(column_index, new_column);
        proof {
            let t0 = old(self)@;
            let t1 = final(self)@;
            assert(t1.columns =~= t0.columns.insert(column_index as int, ncm));
            assert(t1.rows =~= Seq::new(
                t0.rows.len(),
                |i: int|
                    t0.rows[i].insert(column_index as int, (column_name@, fillm)),
            ));
            lemma_wf_insert_column(t0, t1, column_index as int, ncm, fillm);
        }
        Ok(())
    }

    /// Insert a column without a back-fill placeholder: existing rows take
    /// the column's default value.
    pub fn insert_column(
        &mut self,
        column: usize,
        column_name: &str,
        column_type: ValueType,
        limiter: Option<ValueLimiter>,
    ) -> (r: CedResult<()>)
        requires
            table_wf(old(self)@),
        ensures
            table_wf(final(self)@),
            (r is Ok) == (column <= old(self)@.columns.len() && col_find(
                old(self)@.columns,
                column_name@,
            ) == -1 && !is_integer_text(column_name@)),
            r is Ok ==> final(self)@.columns == old(self)@.columns.insert(
                column as int,
                spec_new_column(column_name@, column_type, limiter),
            ) && final(self)@.rows == Seq::new(
                old(self)@.rows.len(),
                |i: int|
                    old(self)@.rows[i].insert(
                        column as int,
                        (
                            column_name@,
                            spec_default_value(spec_new_column(column_name@, column_type, limiter)),
                        ),
                    ),
            ),
            r is Err ==> final(self)@ == old(self)@,
            r is Err ==> if column > old(self)@.columns.len() {
                r->Err_0 is OutOfRange
            } else {
                r->Err_0 is DuplicateOrInvalidColumnName
            },
    {
        let r = self.insert_column_with_type(column, column_name, column_type, limiter, None);
        proof {
            lemma_col_find(old(self)@.columns, column_name@);
            if r is Err && column <= old(self)@.columns.len() {
                assert(col_find(old(self)@.columns, column_name@) >= 0 || is_integer_text(
                    column_name@,
                ));
            }
        }
        r
    }

    /// Remove the column at an index, and its cell from every row.  A table
    /// left without columns also drops all its rows.
    pub fn delete_column(&mut self, column: usize) -> (r: CedResult<()>)
        requires
            table_wf(old(self)@),
        ensures
            table_wf(final(self)@),
            (r is Ok) == (column < old(self)@.columns.len()),
            r is Ok ==> final(self)@.columns == old(self)@.columns.remove(column as int),
            r is Ok ==> final(self)@.rows == (if old(self)@.columns.len() == 1 {
                Seq::<RowModel>::empty()
            } else {
                Seq::new(old(self)@.rows.len(), |i: int| old(self)@.rows[i].remove(column as int))
            }),
            r is Err ==> final(self)@ == old(self)@ && (r->Err_0 is OutOfRange),
    {
        if column >= self.columns.len() {
            return Err(CedError::OutOfRange);
        }
        let mut newrows: Vec<Row> = Vec::new();
        let mut k: usize = 0;
        while k < self.rows.len()
            invariant
                *self == *old(self),
                table_wf(self@),
                column < self@.columns.len(),
                self@.rows.len() == self.rows@.len(),
                k <= self.rows@.len(),
                newrows@.len() == k,
                forall|j: int|
                    0 <= j < k ==> (#[trigger] newrows@[j])@ == self@.rows[j].remove(
                        column as int,
                    ),
            decreases self.rows@.len() - k,
        {
            proof {
                assert(self@.rows[k as int] == self.rows@[k as int]@);
                assert(row_keys(self@.rows[k as int]) == col_names(self@.columns));
                assert(row_keys(self@.rows[k as int]).len() == self@.rows[k as int].len());
                assert(col_names(self@.columns).len() == self@.columns.len());
            }
            let mut nr = self.rows[k].duplicate();
            nr.remove_at(column);
            newrows.push(nr);
            k = k + 1;
        }
        self.rows = newrows;
        self.columns.remove(column);
        if self.columns.len() == 0 {
            self.rows.clear();
        }
        proof {
            let t0 = old(self)@;
            let t1 = final(self)@;
            assert(t1.columns =~= t0.columns.remove(column as int));
            if t0.columns.len() == 1 {
                assert(t1.rows =~= Seq::<RowModel>::empty());
            } else {
                assert(t1.rows =~= Seq::new(
                    t0.rows.len(),
                    |i: int| t0.rows[i].remove(column as int),
                ));
            }
            assert(table_wf(t1)) by {
                assert forall|i: int| 0 <= i < t1.rows.len() implies row_keys(
                    #[trigger] t1.rows[i],
                ) == col_names(t1.columns) by {
                    assert(row_keys(t0.rows[i]) == col_names(t0.columns));
                    assert(row_keys(t0.rows[i]).len() == t0.rows[i].len());
                    assert(col_names(t0.columns).len() == t0.columns.len());
                    assert(row_keys(t1.rows[i]) =~= col_names(t1.columns)) by {
                        assert forall|w: int| 0 <= w < t1.columns.len() implies row_keys(
                            t1.rows[i],
                        )[w] == col_names(t1.columns)[w] by {
                            if w < column {
                                assert(t1.rows[i][w] == t0.rows[i][w]);
                                assert(t1.columns[w] == t0.columns[w]);
                                assert(row_keys(t0.rows[i])[w] == col_names(t0.columns)[w]);
                            } else {
                                assert(t1.rows[i][w] == t0.rows[i][w + 1]);
                                assert(t1.columns[w] == t0.columns[w + 1]);
                                assert(row_keys(t0.rows[i])[w + 1] == col_names(
                                    t0.columns,
                                )[w + 1]);
                            }
                        }
                    }
                }
                assert forall|i: int, j: int|
                    0 <= i < j < t1.columns.len() implies (#[trigger] t1.columns[i].name) != (
                    #[trigger] t1.columns[j].name) by {
                    let i0 = if i < column {
                        i
                    } else {
                        i + 1
                    };
                    let j0 = if j < column {
                        j
                    } else {
                        j + 1
                    };
                    assert(t1.columns[i] == t0.columns[i0]);
                    assert(t1.columns[j] == t0.columns[j0]);
                }
                assert forall|i: int| 0 <= i < t1.columns.len() implies !is_integer_text(
                    (#[trigger] t1.columns[i]).name,
                ) by {
                    let i0 = if i < column {
                        i
                    } else {
                        i + 1
                    };
                    assert(t1.columns[i] == t0.columns[i0]);
                }
            }
        }
        Ok(())
    }

    /// Rename the column a token resolves to, and propagate the new key to
    /// every row.  Fails with `UnknownColumn` on an unresolvable token and
    /// with `DuplicateOrInvalidColumnName` when the new name already exists
    /// or itself parses as an integer.
    pub fn rename_column(&mut self, column: &str, new_name: &str) -> (r: CedResult<()>)
        requires
            table_wf(old(self)@),
        ensures
            table_wf(final(self)@),
            (r is Ok) == (spec_try_column_index(old(self)@, column@) is Some && col_find(
                old(self)@.columns,
                new_name@,
            ) == -1 && !is_integer_text(new_name@)),
            r is Ok ==> ({
                let y = spec_try_column_index(old(self)@, column@).unwrap();
                final(self)@.columns == old(self)@.columns.update(
                    y,
                    (ColumnModel { name: new_name@, ..old(self)@.columns[y] }),
                ) && final(self)@.rows == Seq::new(
                    old(self)@.rows.len(),
                    |i: int| old(self)@.rows[i].update(y, (new_name@, old(self)@.rows[i][y].1)),
                )
            }),
            r is Err ==> final(self)@ == old(self)@,
            r is Err ==> if spec_try_column_index(old(self)@, column@) is None {
                r->Err_0 is UnknownColumn
            } else {
                r->Err_0 is DuplicateOrInvalidColumnName
            },
    {
        let idx = match self.try_get_column_index(column) {
            Some(i) => i,
            None => {
                return Err(CedError::UnknownColumn);
            },
        };
        if self.find_column_index(new_name).is_some() {
            return Err(CedError::DuplicateOrInvalidColumnName);
        }
        if crate::num::parse_isize(new_name).is_some() {
            return Err(CedError::DuplicateOrInvalidColumnName);
        }
        proof {
            lemma_col_find(old(self)@.columns, new_name@);
            assert(col_find(old(self)@.columns, new_name@) == -1);
        }
        let mut newrows: Vec<Row> = Vec::new();
        let mut k: usize = 0;
        while k < self.rows.len()
            invariant
                *self == *old(self),
                table_wf(self@),
                idx < self@.columns.len(),
                self@.rows.len() == self.rows@.len(),
                k <= self.rows@.len(),
                newrows@.len() == k,
                forall|j: int|
                    0 <= j < k ==> (#[trigger] newrows@[j])@ == self@.rows[j].update(
                        idx as int,
                        (new_name@, self@.rows[j][idx as int].1),
                    ),
            decreases self.rows@.len() - k,
        {
            proof {
                assert(self@.rows[k as int] == self.rows@[k as int]@);
                assert(row_keys(self@.rows[k as int]) == col_names(self@.columns));
                assert(row_keys(self@.rows[k as int]).len() == self@.rows[k as int].len());
                assert(col_names(self@.columns).len() == self@.columns.len());
            }
            let v = self.rows[k].value_at(idx).duplicate();
            let mut nr = self.rows[k].duplicate();
            nr.set_at(idx, new_name.to_owned(), v);
            newrows.push(nr);
            k = k + 1;
        }
        self.rows = newrows;
        let col = &mut self.columns[idx];
        let ghost oldcol = col@;
        col.rename(new_name);
        proof {
            let t0 = old(self)@;
            let t1 = final(self)@;
            let y = idx as int;
            assert(oldcol == t0.columns[y]);
            assert(t1.columns =~= t0.columns.update(
                y,
                (ColumnModel { name: new_name@, ..t0.columns[y] }),
            ));
            assert(t1.rows =~= Seq::new(
                t0.rows.len(),
                |i: int| t0.rows[i].update(y, (new_name@, t0.rows[i][y].1)),
            ));
            lemma_wf_rename_column(t0, t1, y, new_name@);
        }
        Ok(())
    }

    /// Move the column at `src` to index `target`, in the column list and
    /// in every row: a rotation, exactly as [`Self::move_row`] performs on
    /// rows.
    pub fn move_column(&mut self, src: usize, target: usize) -> (r: CedResult<()>)
        requires
            table_wf(old(self)@),
        ensures
            table_wf(final(self)@),
            (r is Ok) == (src < old(self)@.columns.len() && target < old(self)@.columns.len()),
            r is Ok ==> final(self)@.columns == spec_move(
                old(self)@.columns,
                src as int,
                target as int,
            ) && final(self)@.rows == Seq::new(
                old(self)@.rows.len(),
                |i: int| spec_move(old(self)@.rows[i], src as int, target as int),
            ),
            r is Err ==> final(self)@ == old(self)@ && (r->Err_0 is OutOfRange),
    {
        let column_count = self.columns.len();
        if src >= column_count || target >= column_count {
            return Err(CedError::OutOfRange);
        }
        let mut newrows: Vec<Row> = Vec::new();
        let mut k: usize = 0;
        while k < self.rows.len()
            invariant
                *self == *old(self),
                table_wf(self@),
                src < self@.columns.len(),
                target < self@.columns.len(),
                self@.rows.len() == self.rows@.len(),
                k <= self.rows@.len(),
                newrows@.len() == k,
                forall|j: int|
                    0 <= j < k ==> (#[trigger] newrows@[j])@ == spec_move(
                        self@.rows[j],
                        src as int,
                        target as int,
                    ),
            decreases self.rows@.len() - k,
        {
            proof {
                assert(self@.rows[k as int] == self.rows@[k as int]@);
                assert(row_keys(self@.rows[k as int]) == col_names(self@.columns));
                assert(row_keys(self@.rows[k as int]).len() == self@.rows[k as int].len());
                assert(col_names(self@.columns).len() == self@.columns.len());
            }
            let mut nr = self.rows[k].duplicate();
            nr.move_at(src, target);
            newrows.push(nr);
            k = k + 1;
        }
        self.rows = newrows;
        let moved = self.columns.remove(src);
        self.columns.insert(target, moved);
        proof {
            let t0 = old(self)@;
            let t1 = final(self)@;
            assert(t1.columns =~= spec_move(t0.columns, src as int, target as int));
            assert(t1.rows =~= Seq::new(
                t0.rows.len(),
                |i: int| spec_move(t0.rows[i], src as int, target as int),
            ));
            lemma_wf_move_column(t0, t1, src as int, target as int);
        }
        Ok(())
    }

    /// Overwrite every row's cell in the column a token resolves to.  Fails
    /// with `UnknownColumn` on an unresolvable token and with
    /// `ConstraintViolation` when the value does not qualify under the
    /// column's limiter.
    pub fn set_column(&mut self, column: &str, value: Value) -> (r: CedResult<()>)
        requires
            table_wf(old(self)@),
        ensures
            table_wf(final(self)@),
            (r is Ok) == (spec_try_column_index(old(self)@, column@) is Some && spec_qualify(
                old(self)@.columns[spec_try_column_index(old(self)@, column@).unwrap_or(0)].limiter,
                value@,
            )),
            r is Ok ==> ({
                let y = spec_try_column_index(old(self)@, column@).unwrap();
                final(self)@.columns == old(self)@.columns && final(self)@.rows == Seq::new(
                    old(self)@.rows.len(),
                    |i: int| old(self)@.rows[i].update(y, (old(self)@.rows[i][y].0, value@)),
                )
            }),
            r is Err ==> final(self)@ == old(self)@,
            r is Err ==> if spec_try_column_index(old(self)@, column@) is None {
                r->Err_0 is UnknownColumn
            } else {
                r->Err_0 is ConstraintViolation
            },
    {
        let idx = match self.try_get_column_index(column) {
            Some(i) => i,
            None => {
                return Err(CedError::UnknownColumn);
            },
        };
        if !self.columns[idx].limiter.qualify(&value) {
            proof {
                assert(self@.columns[idx as int].limiter == self.columns@[idx as int]@.limiter);
            }
            return Err(CedError::ConstraintViolation);
        }
        proof {
            assert(self@.columns[idx as int].limiter == self.columns@[idx as int]@.limiter);
        }
        let mut newrows: Vec<Row> = Vec::new();
        let mut k: usize = 0;
        while k < self.rows.len()
            invariant
                *self == *old(self),
                table_wf(self@),
                idx < self@.columns.len(),
                self@.rows.len() == self.rows@.len(),
                k <= self.rows@.len(),
                newrows@.len() == k,
                forall|j: int|
                    0 <= j < k ==> (#[trigger] newrows@[j])@ == self@.rows[j].update(
                        idx as int,
                        (self@.rows[j][idx as int].0, value@),
                    ),
            decreases self.rows@.len() - k,
        {
            proof {
                assert(self@.rows[k as int] == self.rows@[k as int]@);
                assert(row_keys(self@.rows[k as int]) == col_names(self@.columns));
                assert(row_keys(self@.rows[k as int]).len() == self@.rows[k as int].len());
                assert(col_names(self@.columns).len() == self@.columns.len());
                assert(self@.rows[k as int][idx as int].0 == row_keys(self@.rows[k as int])[idx
                    as int]);
                assert(col_names(self@.columns)[idx as int] == self@.columns[idx as int].name);
            }
            let key = self.columns[idx].name.clone();
            let mut nr = self.rows[k].duplicate();
            nr.set_at(idx, key, value.duplicate());
            newrows.push(nr);
            k = k + 1;
        }
        self.rows = newrows;
        proof {
            let t0 = old(self)@;
            let t1 = final(self)@;
            let y = idx as int;
            assert(t1.columns =~= t0.columns);
            assert(t1.rows =~= Seq::new(
                t0.rows.len(),
                |i: int| t0.rows[i].update(y, (t0.rows[i][y].0, value@)),
            ));
            assert forall|i: int| 0 <= i < t1.rows.len() implies row_keys(#[trigger] t1.rows[i])
                == col_names(t1.columns) by {
                assert(row_keys(t0.rows[i]) == col_names(t0.columns));
                assert(row_keys(t0.rows[i]).len() == t0.rows[i].len());
                assert(row_keys(t1.rows[i]) =~= row_keys(t0.rows[i]));
            }
        }
        Ok(())
    }

    /// Apply a limiter to a column, re-validating every existing cell.
    /// Cells convert toward the limiter's type where text and numerals
    /// allow it.  Under `panic` a cell that still fails qualification
    /// aborts the whole operation with `ConstraintViolation` and no change;
    /// otherwise such cells are coerced to the limiter's default.
    pub fn set_limiter(&mut self, column: usize, limiter: &ValueLimiter, panic: bool) -> (r:
        CedResult<()>)
        requires
            table_wf(old(self)@),
        ensures
            table_wf(final(self)@),
            (r is Ok) == (column < old(self)@.columns.len() && (!panic || spec_all_limit_ok(
                old(self)@.rows,
                column as int,
                limiter@,
            ))),
            r is Ok ==> final(self)@.columns == old(self)@.columns.update(
                column as int,
                (ColumnModel {
                    column_type: limiter@.value_type,
                    limiter: limiter@,
                    ..old(self)@.columns[column as int]
                }),
            ) && final(self)@.rows == Seq::new(
                old(self)@.rows.len(),
                |i: int|
                    old(self)@.rows[i].update(
                        column as int,
                        (
                            old(self)@.rows[i][column as int].0,
                            spec_limit_cell(old(self)@.rows[i][column as int].1, limiter@),
                        ),
                    ),
            ),
            r is Err ==> final(self)@ == old(self)@,
            r is Err ==> if column >= old(self)@.columns.len() {
                r->Err_0 is OutOfRange
            } else {
                r->Err_0 is ConstraintViolation
            },
    {
        if column >= self.columns.len() {
            return Err(CedError::OutOfRange);
        }
        let mut newrows: Vec<Row> = Vec::new();
        let mut k: usize = 0;
        while k < self.rows.len()
            invariant
                *self == *old(self),
                table_wf(self@),
                column < self@.columns.len(),
                self@.rows.len() == self.rows@.len(),
                k <= self.rows@.len(),
                newrows@.len() == k,
                panic ==> forall|j: int|
                    0 <= j < k ==> spec_limit_ok(
                        (#[trigger] self@.rows[j])[column as int].1,
                        limiter@,
                    ),
                forall|j: int|
                    0 <= j < k ==> (#[trigger] newrows@[j])@ == self@.rows[j].update(
                        column as int,
                        (
                            self@.rows[j][column as int].0,
                            spec_limit_cell(self@.rows[j][column as int].1, limiter@),
                        ),
                    ),
            decreases self.rows@.len() - k,
        {
            proof {
                assert(self@.rows[k as int] == self.rows@[k as int]@);
                assert(row_keys(self@.rows[k as int]) == col_names(self@.columns));
                assert(row_keys(self@.rows[k as int]).len() == self@.rows[k as int].len());
                assert(col_names(self@.columns).len() == self@.columns.len());
                assert(self@.rows[k as int][column as int].0 == row_keys(
                    self@.rows[k as int],
                )[column as int]);
                assert(col_names(self@.columns)[column as int] == self@.columns[column
                    as int].name);
            }
            let cur = self.rows[k].value_at(column).duplicate();
            let candidate = match convert_value(&cur, limiter.get_type()) {
                Some(c) => c,
                None => cur,
            };
            let newval = if limiter.qualify(&candidate) {
                candidate
            } else if panic {
                proof {
                    assert(!spec_limit_ok(self@.rows[k as int][column as int].1, limiter@));
                    assert(!spec_all_limit_ok(self@.rows, column as int, limiter@));
                }
                return Err(CedError::ConstraintViolation);
            } else {
                match limiter.get_default() {
                    Some(d) => d.duplicate(),
                    None => {
                        match limiter.get_type() {
                            ValueType::Number => Value::Number(0),
                            ValueType::Text => Value::Text(String::new()),
                        }
                    },
                }
            };
            let key = self.columns[column].name.clone();
            let mut nr = self.rows[k].duplicate();
            nr.set_at(column, key, newval);
            newrows.push(nr);
            k = k + 1;
        }
        self.rows = newrows;
        let col = &mut self.columns[column];
        col.set_limiter(limiter.duplicate());
        proof {
            let t0 = old(self)@;
            let t1 = final(self)@;
            let y = column as int;
            assert(t1.columns =~= t0.columns.update(
                y,
                (ColumnModel {
                    column_type: limiter@.value_type,
                    limiter: limiter@,
                    ..t0.columns[y]
                }),
            ));
            assert(t1.rows =~= Seq::new(
                t0.rows.len(),
                |i: int|
                    t0.rows[i].update(
                        y,
                        (t0.rows[i][y].0, spec_limit_cell(t0.rows[i][y].1, limiter@)),
                    ),
            ));
            assert(table_wf(t1)) by {
                assert forall|i: int| 0 <= i < t1.rows.len() implies row_keys(
                    #[trigger] t1.rows[i],
                ) == col_names(t1.columns) by {
                    assert(row_keys(t0.rows[i]) == col_names(t0.columns));
                    assert(row_keys(t0.rows[i]).len() == t0.rows[i].len());
                    assert(col_names(t0.columns).len() == t0.columns.len());
                    assert(row_keys(t1.rows[i]) =~= col_names(t1.columns)) by {
                        assert forall|w: int| 0 <= w < t1.columns.len() implies row_keys(
                            t1.rows[i],
                        )[w] == col_names(t1.columns)[w] by {
                            assert(row_keys(t0.rows[i])[w] == col_names(t0.columns)[w]);
                            if w != y {
                                assert(t1.rows[i][w] == t0.rows[i][w]);
                                assert(t1.columns[w] == t0.columns[w]);
                            } else {
                                assert(t1.rows[i][w].0 == t0.rows[i][w].0);
                                assert(t1.columns[w].name == t0.columns[w].name);
                            }
                        }
                    }
                }
                assert forall|i: int, j: int|
                    0 <= i < j < t1.columns.len() implies (#[trigger] t1.columns[i].name) != (
                    #[trigger] t1.columns[j].name) by {
                    assert(t1.columns[i].name == t0.columns[i].name);
                    assert(t1.columns[j].name == t0.columns[j].name);
                }
                assert forall|i: int| 0 <= i < t1.columns.len() implies !is_integer_text(
                    (#[trigger] t1.columns[i]).name,
                ) by {
                    assert(t1.columns[i].name == t0.columns[i].name);
                }
            }
        }
        Ok(())
    }

    /// The columns, for read-only inspection.
    pub fn get_columns(&self) -> (r: &Vec<Column>)
        ensures
            columns_model(r@) == self@.columns,
    {
        &self.columns
    }

    /// The values of one row in column order, or `None` if the index is out
    /// of bounds.
    pub fn get_row_values(&self, row: usize) -> (r: Option<Vec<Value>>)
        requires
            table_wf(self@),
        ensures
            (r is Some) == (row < self@.rows.len()),
            r is Some ==> values_model(r.unwrap()@) == row_values(self@.rows[row as int]),
    {
        if row >= self.rows.len() {
            return None;
        }
        proof {
            assert(self@.rows[row as int] == self.rows@[row as int]@);
            assert(row_keys(self@.rows[row as int]).len() == self@.rows[row as int].len());
            assert(col_names(self@.columns).len() == self@.columns.len());
        }
        let mut out: Vec<Value> = Vec::new();
        let mut i: usize = 0;
        let n = self.columns.len();
        while i < n
            invariant
                table_wf(self@),
                row < self@.rows.len(),
                row < self.rows@.len(),
                self@.rows.len() == self.rows@.len(),
                n == self@.columns.len(),
                self@.rows[row as int].len() == n,
                i <= n,
                out@.len() == i,
                forall|j: int|
                    0 <= j < i ==> (#[trigger] out@[j])@ == self@.rows[row as int][j].1,
            decreases n - i,
        {
            proof {
                assert(self@.rows[row as int] == self.rows@[row as int]@);
            }
            let v = self.rows[row].value_at(i).duplicate();
            out.push(v);
            i = i + 1;
        }
        proof {
            assert(values_model(out@) =~= row_values(self@.rows[row as int]));
        }
        Some(out)
    }

    /// Serialize to delimited text: the comma-joined column names, then one
    /// comma-joined line per row, joined by newlines with no trailing
    /// newline.
    pub fn to_string(&self) -> (r: String)
        requires
            table_wf(self@),
        ensures
            r@ == spec_table_string(self@),
    {
        let mut lines: Vec<String> = Vec::new();
        let mut names: Vec<String> = Vec::new();
        let mut i: usize = 0;
        while i < self.columns.len()
            invariant
                i <= self.columns@.len(),
                self@.columns.len() == self.columns@.len(),
                names@.len() == i,
                forall|j: int| 0 <= j < i ==> (#[trigger] names@[j])@ == self@.columns[j].name,
            decreases self.columns@.len() - i,
        {
            proof {
                assert(self@.columns[i as int].name == self.columns@[i as int]@.name);
            }
            names.push(self.columns[i].name.clone());
            i = i + 1;
        }
        proof {
            assert(names.deep_view() =~= col_names(self@.columns));
            reveal_strlit(",");
            assert(","@[0] == ',');
        }
        lines.push(join_strings(&names, ","));
        let mut k: usize = 0;
        while k < self.rows.len()
            invariant
                table_wf(self@),
                k <= self.rows@.len(),
                self@.rows.len() == self.rows@.len(),
                lines@.len() == k + 1,
                lines@[0]@ == join_seq(col_names(self@.columns), ','),
                forall|j: int|
                    0 <= j < k ==> (#[trigger] lines@[j + 1])@ == join_seq(
                        spec_row_texts(self@.rows[j]),
                        ',',
                    ),
            decreases self.rows@.len() - k,
        {
            proof {
                assert(self@.rows[k as int] == self.rows@[k as int]@);
                assert(row_keys(self@.rows[k as int]).len() == self@.rows[k as int].len());
                assert(col_names(self@.columns).len() == self@.columns.len());
            }
            let mut cells: Vec<String> = Vec::new();
            let mut c: usize = 0;
            let n = self.columns.len();
            while c < n
                invariant
                    table_wf(self@),
                    k < self@.rows.len(),
                    k < self.rows@.len(),
                    self@.rows.len() == self.rows@.len(),
                    n == self@.columns.len(),
                    self@.rows[k as int].len() == n,
                    c <= n,
                    cells@.len() == c,
                    forall|j: int|
                        0 <= j < c ==> (#[trigger] cells@[j])@ == value_text(
                            self@.rows[k as int][j].1,
                        ),
                decreases n - c,
            {
                proof {
                    assert(self@.rows[k as int] == self.rows@[k as int]@);
                }
                let v = self.rows[k].value_at(c);
                cells.push(v.to_string());
                c = c + 1;
            }
            proof {
                assert(cells.deep_view() =~= spec_row_texts(self@.rows[k as int]));
                reveal_strlit(",");
            }
            lines.push(join_strings(&cells, ","));
            k = k + 1;
            proof {
                assert forall|j: int| 0 <= j < k implies (#[trigger] lines@[j + 1])@ == join_seq(
                    spec_row_texts(self@.rows[j]),
                    ',',
                ) by {}
            }
        }
        proof {
            reveal_strlit("\n");
            assert("\n"@[0] == '\n');
            let target = spec_table_lines(self@);
            assert(lines.deep_view().len() == target.len());
            assert forall|w: int| 0 <= w < target.len() implies lines.deep_view()[w]
                == target[w] by {
                assert(lines.deep_view()[w] == lines@[w]@);
                if w > 0 {
                    assert(lines@[(w - 1) + 1]@ == join_seq(
                        spec_row_texts(self@.rows[w - 1]),
                        ',',
                    ));
                    assert(target[w] == self@.rows.map_values(
                        |r: RowModel| join_seq(spec_row_texts(r), ','),
                    )[w - 1]);
                }
            }
            assert(lines.deep_view() =~= spec_table_lines(self@));
        }
        join_strings(&lines, "\n")
    }

    /// Serialize every column's limiter as delimited text: the schema
    /// header line, then one `name,type,default,variants,pattern` line per
    /// column, each line newline-terminated.
    pub fn export_schema(&self) -> (r: String)
        ensures
            r@ == spec_schema_string(self@),
    {
        let mut lines: Vec<String> = Vec::new();
        lines.push(SCHEMA_HEADER.to_owned());
        let mut i: usize = 0;
        while i < self.columns.len()
            invariant
                i <= self.columns@.len(),
                self@.columns.len() == self.columns@.len(),
                lines@.len() == i + 1,
                lines@[0]@ == SCHEMA_HEADER@,
                forall|j: int|
                    0 <= j < i ==> (#[trigger] lines@[j + 1])@ == spec_schema_line(
                        self@.columns[j],
                    ),
            decreases self.columns@.len() - i,
        {
            proof {
                assert(self@.columns[i as int] == self.columns@[i as int]@);
            }
            let col = &self.columns[i];
            let mut fields: Vec<String> = Vec::new();
            fields.push(col.name.clone());
            fields.push(col.limiter.get_type().to_text());
            fields.push(
                match col.limiter.get_default() {
                    Some(d) => d.to_string(),
                    None => String::new(),
                },
            );
            let mut variant_texts: Vec<String> = Vec::new();
            match col.limiter.get_variant() {
                Some(vs) => {
                    let mut w: usize = 0;
                    while w < vs.len()
                        invariant
                            w <= vs@.len(),
                            col@.limiter.variant == Some(values_model(vs@)),
                            variant_texts@.len() == w,
                            forall|j: int|
                                0 <= j < w ==> (#[trigger] variant_texts@[j])@ == value_text(
                                    values_model(vs@)[j],
                                ),
                        decreases vs@.len() - w,
                    {
                        proof {
                            assert(values_model(vs@)[w as int] == vs@[w as int]@);
                        }
                        variant_texts.push(vs[w].to_string());
                        w = w + 1;
                    }
                },
                None => {},
            }
            proof {
                reveal_strlit(" ");
                assert(" "@[0] == ' ');
                assert(variant_texts.deep_view() =~= spec_variant_texts(col@.limiter));
            }
            fields.push(join_strings(&variant_texts, " "));
            fields.push(
                match col.limiter.get_pattern() {
                    Some(p) => p.clone(),
                    None => String::new(),
                },
            );
            proof {
                reveal_strlit(",");
                assert(","@[0] == ',');
                assert(fields.deep_view() =~= spec_schema_fields(col@));
            }
            lines.push(join_strings(&fields, ","));
            i = i + 1;
            proof {
                assert forall|j: int| 0 <= j < i implies (#[trigger] lines@[j + 1])@
                    == spec_schema_line(self@.columns[j]) by {}
            }
        }
        proof {
            reveal_strlit("\n");
            assert("\n"@[0] == '\n');
            let target = seq![SCHEMA_HEADER@] + self@.columns.map_values(
                |c: ColumnModel| spec_schema_line(c),
            );
            assert(lines.deep_view().len() == target.len());
            assert forall|w: int| 0 <= w < target.len() implies lines.deep_view()[w]
                == target[w] by {
                assert(lines.deep_view()[w] == lines@[w]@);
                if w > 0 {
                    assert(lines@[(w - 1) + 1]@ == spec_schema_line(self@.columns[w - 1]));
                    assert(target[w] == self@.columns.map_values(
                        |c: ColumnModel| spec_schema_line(c),
                    )[w - 1]);
                }
            }
            assert(lines.deep_view() =~= target);
        }
        let mut out = join_strings(&lines, "\n");
        out.append("\n");
        proof {
            assert(out@ =~= spec_schema_string(self@));
        }
        out
    }

    /// Parse delimited text into a table, as [`spec_parse_table`] says:
    /// lines split on the line delimiter (newline unless another is
    /// given), cells split on commas, all cells read as text.  In strict
    /// mode a blank line is a `RowLengthMismatch` error; in lenient mode
    /// blank lines are skipped.  With `has_header` the first line names
    /// the columns (rejected as `DuplicateOrInvalidColumnName` when names
    /// repeat or parse as integers); without it, names are generated.
    pub fn from_string(
        data: &str,
        has_header: bool,
        line_delim: Option<char>,
        ignore_empty_row: bool,
    ) -> (r: CedResult<VirtualData>)
        ensures
            ({
                let d = (match line_delim {
                    Some(c) => c,
                    None => '\n',
                });
                let spec_r = spec_parse_table(data@, has_header, d, ignore_empty_row);
                &&& (r is Ok) == (spec_r is Ok)
                &&& (r is Ok ==> r->Ok_0@ == spec_r->Ok_0 && table_wf(r->Ok_0@))
                &&& (r is Err ==> r->Err_0 == spec_r->Err_0)
            }),
    {
        let delim = match line_delim {
            Some(c) => c,
            None => '\n',
        };
        if data.is_empty() {
            let t = VirtualData::new();
            proof {
                assert(t@ =~= (TableModel {
                    columns: Seq::<ColumnModel>::empty(),
                    rows: Seq::<RowModel>::empty(),
                }));
            }
            return Ok(t);
        }
        let chars = crate::text::str_to_chars(data);
        let all: Vec<Vec<char>> = crate::text::split_chars(&chars, delim);
        let ghost allm = all.deep_view();
        proof {
            assert(allm == split_seq(data@, delim));
        }
        let mut lines: Vec<Vec<char>> = Vec::new();
        if ignore_empty_row {
            let mut i: usize = 0;
            proof {
                assert(allm.take(0) =~= Seq::<Seq<char>>::empty());
                reveal(Seq::filter);
                assert(lines.deep_view() =~= spec_nonempty_lines(allm.take(0)));
            }
            while i < all.len()
                invariant
                    i <= all@.len(),
                    all.deep_view() == allm,
                    all@.len() == allm.len(),
                    lines.deep_view() == spec_nonempty_lines(allm.take(i as int)),
                decreases all@.len() - i,
            {
                proof {
                    lemma_nonempty_lines_push(allm.take(i as int), allm[i as int]);
                    assert(allm.take(i as int).push(allm[i as int]) =~= allm.take(i as int + 1));
                    assert(all.deep_view()[i as int] == all@[i as int]@);
                }
                if all[i].len() > 0 {
                    let copy = dup_chars(&all[i]);
                    lines.push(copy);
                    proof {
                        assert(lines.deep_view() =~= spec_nonempty_lines(allm.take(i as int + 1)));
                    }
                }
                i = i + 1;
            }
            proof {
                assert(allm.take(allm.len() as int) =~= allm);
            }
        } else {
            let mut has_blank = false;
            let mut i: usize = 0;
            while i < all.len()
                invariant
                    i <= all@.len(),
                    all.deep_view() == allm,
                    all@.len() == allm.len(),
                    has_blank == (exists|j: int|
                        0 <= j < i && (#[trigger] allm[j]).len() == 0),
                decreases all@.len() - i,
            {
                proof {
                    assert(all.deep_view()[i as int] == all@[i as int]@);
                }
                if all[i].len() == 0 {
                    proof {
                        assert(allm[i as int].len() == 0);
                    }
                    has_blank = true;
                }
                i = i + 1;
            }
            if has_blank {
                return Err(CedError::RowLengthMismatch);
            }
            lines = all;
        }
        let ghost linesm = lines.deep_view();
        proof {
            if ignore_empty_row {
                assert(linesm == spec_nonempty_lines(allm));
            } else {
                assert(linesm == allm);
            }
        }
        if lines.len() == 0 {
            let t = VirtualData::new();
            proof {
                assert(t@ =~= (TableModel {
                    columns: Seq::<ColumnModel>::empty(),
                    rows: Seq::<RowModel>::empty(),
                }));
            }
            return Ok(t);
        }
        proof {
            assert(lines.deep_view()[0] == lines@[0]@);
        }
        let first_cells = crate::text::split_chars(&lines[0], ',');
        let ghost firstm = split_seq(linesm[0], ',');
        proof {
            assert(first_cells.deep_view() == firstm);
            assert(first_cells@.len() == firstm.len());
        }
        let mut names: Vec<String> = Vec::new();
        if has_header {
            let mut i: usize = 0;
            while i < first_cells.len()
                invariant
                    i <= first_cells@.len(),
                    first_cells.deep_view() == firstm,
                    first_cells@.len() == firstm.len(),
                    names@.len() == i,
                    forall|j: int| 0 <= j < i ==> (#[trigger] names@[j])@ == firstm[j],
                decreases first_cells@.len() - i,
            {
                proof {
                    assert(first_cells.deep_view()[i as int] == first_cells@[i as int]@);
                }
                names.push(crate::text::chars_to_string(&first_cells[i]));
                i = i + 1;
            }
            let mut bad_name = false;
            let mut a: usize = 0;
            while a < names.len()
                invariant
                    names@.len() == firstm.len(),
                    forall|j: int| 0 <= j < names@.len() ==> (#[trigger] names@[j])@ == firstm[j],
                    a <= names@.len(),
                    bad_name == (exists|j: int|
                        0 <= j < a && is_integer_text(#[trigger] firstm[j])),
                decreases names@.len() - a,
            {
                if crate::num::parse_isize(names[a].as_str()).is_some() {
                    proof {
                        assert(is_integer_text(firstm[a as int]));
                    }
                    bad_name = true;
                }
                a = a + 1;
            }
            if bad_name {
                return Err(CedError::DuplicateOrInvalidColumnName);
            }
            let mut dup = false;
            let mut x: usize = 0;
            while x < names.len()
                invariant
                    names@.len() == firstm.len(),
                    forall|j: int| 0 <= j < names@.len() ==> (#[trigger] names@[j])@ == firstm[j],
                    x <= names@.len(),
                    dup == (exists|p: int, q: int|
                        0 <= p < q < names@.len() && p < x && (#[trigger] firstm[p]) == (
                        #[trigger] firstm[q])),
                decreases names@.len() - x,
            {
                let mut y: usize = x + 1;
                while y < names.len()
                    invariant
                        names@.len() == firstm.len(),
                        forall|j: int|
                            0 <= j < names@.len() ==> (#[trigger] names@[j])@ == firstm[j],
                        x < names@.len(),
                        x + 1 <= y,
                        y <= names@.len(),
                        dup == ((exists|p: int, q: int|
                            0 <= p < q < names@.len() && p < x && (#[trigger] firstm[p]) == (
                            #[trigger] firstm[q])) || (exists|q: int|
                            x < q < y && firstm[x as int] == (#[trigger] firstm[q]))),
                    decreases names@.len() - y,
                {
                    if crate::text::str_eq(names[x].as_str(), names[y].as_str()) {
                        proof {
                            assert(firstm[x as int] == firstm[y as int]);
                        }
                        dup = true;
                    }
                    y = y + 1;
                }
                x = x + 1;
            }
            if dup {
                return Err(CedError::DuplicateOrInvalidColumnName);
            }
            proof {
                assert(spec_header_ok(firstm));
            }
        } else {
            let mut i: usize = 0;
            while i < first_cells.len()
                invariant
                    i <= first_cells@.len(),
                    names@.len() == i,
                    forall|j: int| 0 <= j < i ==> (#[trigger] names@[j])@ == spec_alpha_name(j),
                decreases first_cells@.len() - i,
            {
                names.push(alpha_name(i));
                i = i + 1;
            }
            proof {
                lemma_alphabet_header_ok(firstm.len() as int);
                assert forall|j: int| 0 <= j < names@.len() implies (#[trigger] names@[j])@
                    == spec_alphabet_names(firstm.len() as int)[j] by {}
            }
        }
        let ghost namesm = if has_header {
            firstm
        } else {
            spec_alphabet_names(firstm.len() as int)
        };
        proof {
            assert(names@.len() == namesm.len());
            assert(forall|j: int| 0 <= j < names@.len() ==> (#[trigger] names@[j])@ == namesm[j]);
            assert(spec_header_ok(namesm));
        }
        let mut columns: Vec<Column> = Vec::new();
        let mut c: usize = 0;
        while c < names.len()
            invariant
                c <= names@.len(),
                names@.len() == namesm.len(),
                forall|j: int| 0 <= j < names@.len() ==> (#[trigger] names@[j])@ == namesm[j],
                columns@.len() == c,
                forall|j: int|
                    0 <= j < c ==> (#[trigger] columns@[j])@ == spec_text_columns(namesm)[j],
            decreases names@.len() - c,
        {
            let col = Column::new(names[c].as_str(), ValueType::Text, None);
            proof {
                assert(col@ =~= spec_text_columns(namesm)[c as int]);
            }
            columns.push(col);
            c = c + 1;
        }
        let ghost colsm = spec_text_columns(namesm);
        let start: usize = if has_header {
            1
        } else {
            0
        };
        let ghost datam = if has_header {
            linesm.skip(1)
        } else {
            linesm
        };
        proof {
            assert(!has_header ==> linesm.skip(0) =~= linesm);
            assert(datam.len() == linesm.len() - start);
        }
        let mut rows: Vec<Row> = Vec::new();
        let mut bad_row = false;
        let mut k: usize = start;
        while k < lines.len()
            invariant
                start <= k <= lines@.len(),
                start == if has_header { 1int } else { 0int },
                lines.deep_view() == linesm,
                lines@.len() == linesm.len(),
                names@.len() == namesm.len(),
                forall|j: int| 0 <= j < names@.len() ==> (#[trigger] names@[j])@ == namesm[j],
                colsm == spec_text_columns(namesm),
                datam == (if has_header {
                    linesm.skip(1)
                } else {
                    linesm
                }),
                datam.len() == linesm.len() - start,
                bad_row == (exists|j: int|
                    0 <= j < k - start && split_seq(#[trigger] datam[j], ',').len()
                        != namesm.len()),
                !bad_row ==> rows@.len() == k - start,
                !bad_row ==> forall|j: int|
                    0 <= j < k - start ==> (#[trigger] rows@[j])@ == spec_text_row(
                        colsm,
                        split_seq(datam[j], ','),
                    ),
            decreases lines@.len() - k,
        {
            proof {
                assert(lines.deep_view()[k as int] == lines@[k as int]@);
                assert(datam[k - start] == linesm[k as int]);
            }
            let cells = crate::text::split_chars(&lines[k], ',');
            proof {
                assert(cells.deep_view() == split_seq(linesm[k as int], ','));
                assert(cells@.len() == split_seq(linesm[k as int], ',').len());
            }
            if cells.len() != names.len() {
                proof {
                    assert(split_seq(datam[k - start], ',').len() != namesm.len());
                }
                bad_row = true;
                k = k + 1;
                continue ;
            }
            if bad_row {
                k = k + 1;
                continue ;
            }
            let mut rw = Row::new();
            let mut w: usize = 0;
            while w < cells.len()
                invariant
                    w <= cells@.len(),
                    cells@.len() == names@.len(),
                    names@.len() == namesm.len(),
                    forall|j: int| 0 <= j < names@.len() ==> (#[trigger] names@[j])@ == namesm[j],
                    cells.deep_view() == split_seq(linesm[k as int], ','),
                    k < linesm.len(),
                    lines.deep_view() == linesm,
                    rw@.len() == w,
                    forall|j: int|
                        0 <= j < w ==> (#[trigger] rw@[j]) == (
                        namesm[j],
                        ValueModel::Text(split_seq(linesm[k as int], ',')[j]),
                        ),
                decreases cells@.len() - w,
            {
                proof {
                    assert(cells.deep_view()[w as int] == cells@[w as int]@);
                }
                let count = rw.cell_count();
                rw.insert_at(
                    count,
                    names[w].clone(),
                    Value::Text(crate::text::chars_to_string(&cells[w])),
                );
                w = w + 1;
            }
            proof {
                assert(rw@ =~= spec_text_row(colsm, split_seq(datam[k - start], ',')));
            }
            rows.push(rw);
            k = k + 1;
        }
        if bad_row {
            proof {
                let d2 = (match line_delim {
                    Some(c) => c,
                    None => '\n',
                });
                assert(d2 == delim);
                let allx = split_seq(data@, delim);
                assert(allx == allm);
                let linesx = if ignore_empty_row {
                    spec_nonempty_lines(allx)
                } else {
                    allx
                };
                assert(linesx == linesm);
                assert(linesm.len() == lines@.len());
                assert(linesx.len() > 0);
                let firstx = split_seq(linesx[0], ',');
                assert(firstx == firstm);
                let namesx = if has_header {
                    firstx
                } else {
                    spec_alphabet_names(firstx.len() as int)
                };
                assert(namesx == namesm);
                assert(spec_header_ok(namesx));
                let datax = if has_header {
                    linesx.skip(1)
                } else {
                    linesx
                };
                assert(datax == datam);
                assert(k == lines@.len());
                assert(exists|i: int|
                    0 <= i < datax.len() && split_seq(#[trigger] datax[i], ',').len()
                        != namesx.len());
                assert(spec_parse_table(data@, has_header, d2, ignore_empty_row)
                    == spec_parse_lines(linesm, has_header));
                assert(spec_parse_lines(linesm, has_header) == Err::<TableModel, CedError>(
                    CedError::RowLengthMismatch,
                )) by {
                    assert(linesm.len() != 0);
                    assert(spec_parse_names(linesm, has_header) == namesm);
                    assert(spec_header_ok(spec_parse_names(linesm, has_header)));
                    assert(spec_data_lines(linesm, has_header) == datam);
                    let wi = choose|i: int|
                        0 <= i < datax.len() && split_seq(#[trigger] datax[i], ',').len()
                            != namesx.len();
                    assert(spec_data_lines(linesm, has_header)[wi] == datax[wi]);
                    assert(0 <= wi < spec_data_lines(linesm, has_header).len() && split_seq(
                        spec_data_lines(linesm, has_header)[wi],
                        ',',
                    ).len() != spec_parse_names(linesm, has_header).len());
                    assert(exists|i: int|
                        0 <= i < spec_data_lines(linesm, has_header).len() && split_seq(
                            #[trigger] spec_data_lines(linesm, has_header)[i],
                            ',',
                        ).len() != spec_parse_names(linesm, has_header).len());
                }
            }
            return Err(CedError::RowLengthMismatch);
        }
        let t = VirtualData { columns, rows };
        proof {
            let spec_t = (TableModel {
                columns: colsm,
                rows: datam.map_values(
                    |l: Seq<char>| spec_text_row(colsm, split_seq(l, ',')),
                ),
            });
            assert(columns_model(t.columns@) =~= colsm);
            assert forall|j: int| 0 <= j < datam.len() implies rows_model(t.rows@)[j]
                == spec_t.rows[j] by {
                assert(rows_model(t.rows@)[j] == t.rows@[j]@);
            }
            assert(rows_model(t.rows@) =~= spec_t.rows);
            assert(t@ =~= spec_t);
            assert(table_wf(t@)) by {
                assert forall|i2: int| 0 <= i2 < t@.rows.len() implies row_keys(
                    #[trigger] t@.rows[i2],
                ) == col_names(t@.columns) by {
                    assert(t@.rows[i2] == spec_text_row(colsm, split_seq(datam[i2], ',')));
                    assert(row_keys(t@.rows[i2]) =~= col_names(colsm));
                }
                assert forall|i2: int, j2: int|
                    0 <= i2 < j2 < t@.columns.len() implies (#[trigger] t@.columns[i2].name) != (
                    #[trigger] t@.columns[j2].name) by {
                    assert(t@.columns[i2].name == namesm[i2]);
                    assert(t@.columns[j2].name == namesm[j2]);
                }
                assert forall|i2: int| 0 <= i2 < t@.columns.len() implies !is_integer_text(
                    (#[trigger] t@.columns[i2]).name,
                ) by {
                    assert(t@.columns[i2].name == namesm[i2]);
                }
            }
        }
        Ok(t)
    }

    /// Apply one schema line, `name,type,default,variants,pattern`, exactly
    /// as [`spec_apply_schema_line`] says: the named (or positionally
    /// addressed) column takes the described limiter, and existing cells
    /// are re-validated as in [`Self::set_limiter`].
    pub fn apply_schema_line(&mut self, line: &str, panic: bool) -> (r: CedResult<()>)
        requires
            table_wf(old(self)@),
        ensures
            table_wf(final(self)@),
            (r is Ok) == (spec_apply_schema_line(old(self)@, line@, panic) is Ok),
            r is Ok ==> final(self)@ == spec_apply_schema_line(old(self)@, line@, panic)->Ok_0,
            r is Err ==> final(self)@ == old(self)@ && r->Err_0 == spec_apply_schema_line(
                old(self)@,
                line@,
                panic,
            )->Err_0,
    {
        let cells = crate::text::split_chars(&crate::text::str_to_chars(line), ',');
        let ghost cellsm = split_seq(line@, ',');
        proof {
            assert(cells.deep_view() == cellsm);
            assert(cells@.len() == cellsm.len());
        }
        let mut args: Vec<String> = Vec::new();
        let mut i: usize = 1;
        while i < cells.len()
            invariant
                1 <= i <= cells@.len(),
                cells.deep_view() == cellsm,
                cells@.len() == cellsm.len(),
                args@.len() == i - 1,
                forall|j: int| 0 <= j < i - 1 ==> (#[trigger] args@[j])@ == cellsm[j + 1],
            decreases cells@.len() - i,
        {
            proof {
                assert(cells.deep_view()[i as int] == cells@[i as int]@);
            }
            args.push(crate::text::chars_to_string(&cells[i]));
            i = i + 1;
        }
        proof {
            assert forall|j: int| 0 <= j < args@.len() implies args.deep_view()[j]
                == cellsm.skip(1)[j] by {
                assert(args.deep_view()[j] == args@[j]@);
            }
            assert(args.deep_view() =~= cellsm.skip(1));
        }
        let limiter = match ValueLimiter::from_line(&args) {
            Ok(l) => l,
            Err(e) => {
                return Err(e);
            },
        };
        proof {
            assert(cells.deep_view()[0] == cells@[0]@);
        }
        let name = crate::text::chars_to_string(&cells[0]);
        let y = match self.try_get_column_index(name.as_str()) {
            Some(y) => y,
            None => {
                return Err(CedError::UnknownColumn);
            },
        };
        match self.set_limiter(y, &limiter, panic) {
            Ok(_) => {
                proof {
                    assert(final(self)@ =~~= spec_apply_schema_line(
                        old(self)@,
                        line@,
                        panic,
                    )->Ok_0);
                }
                Ok(())
            },
            Err(_) => Err(CedError::ConstraintViolation),
        }
    }

    /// An equal deep copy of this table; snapshots in the history are taken
    /// through this.
    pub fn duplicate(&self) -> (r: VirtualData)
        ensures
            r@ == self@,
    {
        let mut columns: Vec<Column> = Vec::new();
        let mut i: usize = 0;
        while i < self.columns.len()
            invariant
                i <= self.columns@.len(),
                columns@.len() == i,
                forall|j: int| 0 <= j < i ==> (#[trigger] columns@[j])@ == self.columns@[j]@,
            decreases self.columns@.len() - i,
        {
            columns.push(self.columns[i].duplicate());
            i = i + 1;
        }
        let mut rows: Vec<Row> = Vec::new();
        let mut k: usize = 0;
        while k < self.rows.len()
            invariant
                k <= self.rows@.len(),
                rows@.len() == k,
                forall|j: int| 0 <= j < k ==> (#[trigger] rows@[j])@ == self.rows@[j]@,
            decreases self.rows@.len() - k,
        {
            rows.push(self.rows[k].duplicate());
            k = k + 1;
        }
        let r = VirtualData { columns, rows };
        proof {
            assert(columns_model(r.columns@) =~= columns_model(self.columns@));
            assert(rows_model(r.rows@) =~= rows_model(self.rows@));
            assert(r@ =~= self@);
        }
        r
    }
}

} // verus!

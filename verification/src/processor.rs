//! The page-keyed front of the tabular model: several named tables held at
//! once, a cursor naming the current one, and every table operation
//! addressed by page name.

use vstd::prelude::*;

use crate::error::{CedError, CedResult};
use crate::num::is_integer_text;
use crate::value::{
    spec_parse_value, spec_qualify, values_model, Value, ValueLimiter, ValueModel, ValueType,
};
use crate::virtual_data::{
    col_find, spec_all_limit_ok, spec_all_qualify, spec_all_qualify_opt, spec_apply_schema_line,
    spec_default_row, spec_edit_row, spec_fill_value, spec_make_row, spec_move, spec_new_column,
    spec_parse_table, spec_schema_string, spec_set_cell, spec_set_limiter_table,
    spec_table_string, spec_try_column_index, table_wf, ColumnModel, RowModel, TableModel,
    VirtualData,
};

verus! {

/// The mathematical content of a [`Processor`]: named pages and a cursor.
#[verifier::ext_equal]
pub struct ProcessorModel {
    pub pages: Seq<(Seq<char>, TableModel)>,
    pub cursor: Option<Seq<char>>,
}

/// Index of the first page with the given name, or -1.
pub open spec fn page_find(pages: Seq<(Seq<char>, TableModel)>, name: Seq<char>) -> int
    decreases pages.len(),
{
    if pages.len() == 0 {
        -1
    } else if pages[0].0 == name {
        0
    } else {
        let r = page_find(pages.skip(1), name);
        if r == -1 {
            -1
        } else {
            r + 1
        }
    }
}

/// What [`page_find`] returns: the first page with that name, or -1.
pub proof fn lemma_page_find(pages: Seq<(Seq<char>, TableModel)>, name: Seq<char>)
    ensures
        page_find(pages, name) == -1 ==> forall|j: int|
            0 <= j < pages.len() ==> (#[trigger] pages[j]).0 != name,
        page_find(pages, name) != -1 ==> 0 <= page_find(pages, name) < pages.len(),
        page_find(pages, name) != -1 ==> pages[page_find(pages, name)].0 == name,
        page_find(pages, name) != -1 ==> forall|j: int|
            0 <= j < page_find(pages, name) ==> (#[trigger] pages[j]).0 != name,
    decreases pages.len(),
{
    if pages.len() == 0 {
    } else if pages[0].0 == name {
    } else {
        lemma_page_find(pages.skip(1), name);
        assert(forall|j: int| 1 <= j < pages.len() ==> pages[j] == pages.skip(1)[j - 1]);
    }
}

/// Processor well-formedness: page names are unique and every page's table
/// is well-formed.
pub open spec fn processor_wf(p: ProcessorModel) -> bool {
    &&& forall|i: int, j: int|
        0 <= i < j < p.pages.len() ==> (#[trigger] p.pages[i]).0 != (#[trigger] p.pages[j]).0
    &&& forall|i: int| 0 <= i < p.pages.len() ==> table_wf((#[trigger] p.pages[i]).1)
}

/// A processor with one page's table replaced.
pub open spec fn spec_page_replace(p: ProcessorModel, f: int, t: TableModel) -> ProcessorModel {
    ProcessorModel { pages: p.pages.update(f, (p.pages[f].0, t)), ..p }
}

/// The csv processor: named pages of tabular data and a cursor.
pub struct Processor {
    pages: Vec<(String, VirtualData)>,
    cursor: Option<String>,
}

impl View for Processor {
    type V = ProcessorModel;

    closed spec fn view(&self) -> ProcessorModel {
        ProcessorModel {
            pages: self.pages@.map_values(|p: (String, VirtualData)| (p.0@, p.1@)),
            cursor: match self.cursor {
                Some(ref c) => Some(c@),
                None => None,
            },
        }
    }
}

impl Processor {
    /// A processor with no pages.
    pub fn new() -> (r: Processor)
        ensures
            r@ == (ProcessorModel { pages: Seq::empty(), cursor: None }),
            processor_wf(r@),
    {
        let r = Processor { pages: Vec::new(), cursor: None };
        proof {
            assert(r@.pages =~= Seq::<(Seq<char>, TableModel)>::empty());
            assert(r@ =~= (ProcessorModel { pages: Seq::empty(), cursor: None }));
        }
        r
    }

    /// Index of the page a name denotes, if any.
    fn page_index(&self, page: &str) -> (r: Option<usize>)
        ensures
            (r is Some) == (page_find(self@.pages, page@) >= 0),
            r is Some ==> r.unwrap() as int == page_find(self@.pages, page@),
            r is Some ==> (r.unwrap() as int) < self@.pages.len(),
    {
        proof {
            lemma_page_find(self@.pages, page@);
        }
        let mut i: usize = 0;
        while i < self.pages.len()
            invariant
                i <= self.pages@.len(),
                self@.pages.len() == self.pages@.len(),
                forall|j: int| 0 <= j < i ==> (#[trigger] self@.pages[j]).0 != page@,
            decreases self.pages@.len() - i,
        {
            if crate::text::str_eq(self.pages[i].0.as_str(), page) {
                proof {
                    assert(self@.pages[i as int].0 == page@);
                    lemma_page_find(self@.pages, page@);
                    let f = page_find(self@.pages, page@);
                    assert(f != -1);
                    if f < i {
                        assert(self@.pages[f].0 == page@);
                    }
                    lemma_page_find_first(self@.pages, page@, i as int);
                }
                return Some(i);
            }
            i = i + 1;
        }
        proof {
            lemma_page_find(self@.pages, page@);
            let f = page_find(self@.pages, page@);
            if f != -1 {
                assert(self@.pages[f].0 == page@);
            }
        }
        None
    }

    /// Whether a page with this name is held.
    pub fn contains_page(&self, page: &str) -> (r: bool)
        ensures
            r == (page_find(self@.pages, page@) >= 0),
    {
        self.page_index(page).is_some()
    }

    /// Point the cursor at a page; reports whether the page exists.
    pub fn change_cursor(&mut self, page_name: &str) -> (r: bool)
        ensures
            r == (page_find(old(self)@.pages, page_name@) >= 0),
            r ==> final(self)@ == (ProcessorModel { cursor: Some(page_name@), ..old(self)@ }),
            !r ==> final(self)@ == old(self)@,
    {
        if self.page_index(page_name).is_some() {
            self.cursor = Some(page_name.to_owned());
            proof {
                assert(final(self)@ =~= (ProcessorModel {
                    cursor: Some(page_name@),
                    ..old(self)@
                }));
            }
            true
        } else {
            false
        }
    }

    /// The name of the current page, if one is set.
    pub fn get_cursor(&self) -> (r: Option<String>)
        ensures
            (r is Some) == (self@.cursor is Some),
            r is Some ==> r.unwrap()@ == self@.cursor.unwrap(),
    {
        match &self.cursor {
            Some(c) => Some(c.clone()),
            None => None,
        }
    }

    /// Add a page parsed from delimited text (see
    /// [`VirtualData::from_string`]) and point the cursor at it.  A name
    /// already in use is an `InvalidPageOperation`.
    pub fn add_page(
        &mut self,
        page: &str,
        data: &str,
        has_header: bool,
        line_ending: Option<char>,
        ignore_empty_row: bool,
    ) -> (r: CedResult<()>)
        requires
            processor_wf(old(self)@),
        ensures
            processor_wf(final(self)@),
            ({
                let d = (match line_ending {
                    Some(c) => c,
                    None => '\n',
                });
                let parsed = spec_parse_table(data@, has_header, d, ignore_empty_row);
                &&& (r is Ok) == (page_find(old(self)@.pages, page@) == -1 && parsed is Ok)
                &&& (r is Ok ==> final(self)@ == (ProcessorModel {
                    pages: old(self)@.pages.push((page@, parsed->Ok_0)),
                    cursor: Some(page@),
                }))
                &&& (r is Err ==> final(self)@ == old(self)@)
                &&& (r is Err ==> if page_find(old(self)@.pages, page@) >= 0 {
                    r->Err_0 is InvalidPageOperation
                } else {
                    r->Err_0 == parsed->Err_0
                })
            }),
    {
        if self.page_index(page).is_some() {
            return Err(CedError::InvalidPageOperation);
        }
        let table = match VirtualData::from_string(data, has_header, line_ending, ignore_empty_row)
            {
            Ok(t) => t,
            Err(e) => {
                return Err(e);
            },
        };
        let ghost tm = table@;
        self.pages.push((page.to_owned(), table));
        self.cursor = Some(page.to_owned());
        proof {
            assert(final(self)@.pages =~= old(self)@.pages.push((page@, tm)));
            assert(final(self)@ =~= (ProcessorModel {
                pages: old(self)@.pages.push((page@, tm)),
                cursor: Some(page@),
            }));
            lemma_page_find(old(self)@.pages, page@);
            assert(processor_wf(final(self)@)) by {
                assert forall|i: int, j: int|
                    0 <= i < j < final(self)@.pages.len() implies (
                #[trigger] final(self)@.pages[i]).0 != (#[trigger] final(self)@.pages[j]).0 by {
                    if j == final(self)@.pages.len() - 1 {
                        assert(final(self)@.pages[i] == old(self)@.pages[i]);
                    } else {
                        assert(final(self)@.pages[i] == old(self)@.pages[i]);
                        assert(final(self)@.pages[j] == old(self)@.pages[j]);
                    }
                }
            }
        }
        Ok(())
    }

    /// Drop a page; reports whether it existed.
    pub fn remove_page(&mut self, page: &str) -> (r: bool)
        requires
            processor_wf(old(self)@),
        ensures
            processor_wf(final(self)@),
            r == (page_find(old(self)@.pages, page@) >= 0),
            r ==> final(self)@ == (ProcessorModel {
                pages: old(self)@.pages.remove(page_find(old(self)@.pages, page@)),
                ..old(self)@
            }),
            !r ==> final(self)@ == old(self)@,
    {
        match self.page_index(page) {
            Some(i) => {
                self.pages.remove(i);
                proof {
                    let f = page_find(old(self)@.pages, page@);
                    assert(final(self)@.pages =~= old(self)@.pages.remove(f));
                    assert(final(self)@ =~= (ProcessorModel {
                        pages: old(self)@.pages.remove(f),
                        ..old(self)@
                    }));
                    assert forall|a: int, b: int|
                        0 <= a < b < final(self)@.pages.len() implies (
                    #[trigger] final(self)@.pages[a]).0 != (#[trigger] final(self)@.pages[b]).0 by {
                        let a0 = if a < f {
                            a
                        } else {
                            a + 1
                        };
                        let b0 = if b < f {
                            b
                        } else {
                            b + 1
                        };
                        assert(final(self)@.pages[a] == old(self)@.pages[a0]);
                        assert(final(self)@.pages[b] == old(self)@.pages[b0]);
                    }
                    assert forall|a: int| 0 <= a < final(self)@.pages.len() implies table_wf(
                        (#[trigger] final(self)@.pages[a]).1,
                    ) by {
                        let a0 = if a < f {
                            a
                        } else {
                            a + 1
                        };
                        assert(final(self)@.pages[a] == old(self)@.pages[a0]);
                    }
                }
                true
            },
            None => false,
        }
    }

    /// The number of rows of a page.
    pub fn get_row_count(&self, page: &str) -> (r: CedResult<usize>)
        ensures
            (r is Ok) == (page_find(self@.pages, page@) >= 0),
            r is Ok ==> r->Ok_0 as int == self@.pages[page_find(self@.pages, page@)].1.rows.len(),
            r is Err ==> r->Err_0 is InvalidPageOperation,
    {
        match self.page_index(page) {
            Some(i) => {
                proof {
                    assert(self@.pages[i as int].1 == self.pages@[i as int].1@);
                }
                Ok(self.pages[i].1.get_row_count())
            },
            None => Err(CedError::InvalidPageOperation),
        }
    }

    /// The number of columns of a page.
    pub fn get_column_count(&self, page: &str) -> (r: CedResult<usize>)
        ensures
            (r is Ok) == (page_find(self@.pages, page@) >= 0),
            r is Ok ==> r->Ok_0 as int == self@.pages[page_find(
                self@.pages,
                page@,
            )].1.columns.len(),
            r is Err ==> r->Err_0 is InvalidPageOperation,
    {
        match self.page_index(page) {
            Some(i) => {
                proof {
                    assert(self@.pages[i as int].1 == self.pages@[i as int].1@);
                }
                Ok(self.pages[i].1.get_column_count())
            },
            None => Err(CedError::InvalidPageOperation),
        }
    }

    /// The index of the last row (zero on an empty page).
    pub fn last_row_index(&self, page: &str) -> (r: CedResult<usize>)
        ensures
            (r is Ok) == (page_find(self@.pages, page@) >= 0),
            r is Ok ==> ({
                let n = self@.pages[page_find(self@.pages, page@)].1.rows.len();
                r->Ok_0 as int == if n > 0 {
                    n - 1
                } else {
                    0int
                }
            }),
            r is Err ==> r->Err_0 is InvalidPageOperation,
    {
        let n = self.get_row_count(page)?;
        if n > 0 {
            Ok(n - 1)
        } else {
            Ok(0)
        }
    }

    /// The index of the last column (zero on an empty page).
    pub fn last_column_index(&self, page: &str) -> (r: CedResult<usize>)
        ensures
            (r is Ok) == (page_find(self@.pages, page@) >= 0),
            r is Ok ==> ({
                let n = self@.pages[page_find(self@.pages, page@)].1.columns.len();
                r->Ok_0 as int == if n > 0 {
                    n - 1
                } else {
                    0int
                }
            }),
            r is Err ==> r->Err_0 is InvalidPageOperation,
    {
        let n = self.get_column_count(page)?;
        if n > 0 {
            Ok(n - 1)
        } else {
            Ok(0)
        }
    }

    /// A page serialized to delimited text.
    pub fn get_page_as_string(&self, page: &str) -> (r: CedResult<String>)
        requires
            processor_wf(self@),
        ensures
            (r is Ok) == (page_find(self@.pages, page@) >= 0),
            r is Ok ==> r->Ok_0@ == spec_table_string(
                self@.pages[page_find(self@.pages, page@)].1,
            ),
            r is Err ==> r->Err_0 is InvalidPageOperation,
    {
        match self.page_index(page) {
            Some(i) => {
                proof {
                    assert(self@.pages[i as int].1 == self.pages@[i as int].1@);
                }
                Ok(self.pages[i].1.to_string())
            },
            None => Err(CedError::InvalidPageOperation),
        }
    }

    /// A page's limiters serialized as schema text.
    pub fn export_schema(&self, page: &str) -> (r: CedResult<String>)
        ensures
            (r is Ok) == (page_find(self@.pages, page@) >= 0),
            r is Ok ==> r->Ok_0@ == spec_schema_string(
                self@.pages[page_find(self@.pages, page@)].1,
            ),
            r is Err ==> r->Err_0 is InvalidPageOperation,
    {
        match self.page_index(page) {
            Some(i) => {
                proof {
                    assert(self@.pages[i as int].1 == self.pages@[i as int].1@);
                }
                Ok(self.pages[i].1.export_schema())
            },
            None => Err(CedError::InvalidPageOperation),
        }
    }

    /// Insert a row of text values into a page: each string becomes a text
    /// value, then the row is inserted as [`VirtualData::insert_row`] does.
    pub fn add_row_from_strings(&mut self, page: &str, row_number: usize, src: &Vec<String>) -> (r:
        CedResult<()>)
        requires
            processor_wf(old(self)@),
        ensures
            processor_wf(final(self)@),
            ({
                let f = page_find(old(self)@.pages, page@);
                let vals = src.deep_view().map_values(|s: Seq<char>| ValueModel::Text(s));
                &&& (f == -1 ==> r is Err && (r->Err_0 is InvalidPageOperation) && final(self)@
                    == old(self)@)
                &&& (f >= 0 ==> ({
                    let t0 = old(self)@.pages[f].1;
                    &&& (r is Ok) == (row_number <= t0.rows.len() && vals.len()
                        == t0.columns.len() && spec_all_qualify(t0.columns, vals))
                    &&& (r is Ok ==> final(self)@ == spec_page_replace(
                        old(self)@,
                        f,
                        (TableModel {
                            rows: t0.rows.insert(
                                row_number as int,
                                spec_make_row(t0.columns, vals),
                            ),
                            ..t0
                        }),
                    ))
                    &&& (r is Err ==> final(self)@ == old(self)@)
                }))
            }),
    {
        let mut values: Vec<Value> = Vec::new();
        let mut i: usize = 0;
        while i < src.len()
            invariant
                i <= src@.len(),
                values@.len() == i,
                forall|j: int|
                    0 <= j < i ==> (#[trigger] values@[j])@ == ValueModel::Text(src@[j]@),
            decreases src@.len() - i,
        {
            values.push(Value::Text(src[i].clone()));
            i = i + 1;
        }
        proof {
            assert forall|j: int| 0 <= j < src@.len() implies values_model(values@)[j]
                == src.deep_view().map_values(|s: Seq<char>| ValueModel::Text(s))[j] by {
                assert(values_model(values@)[j] == values@[j]@);
                assert(src.deep_view()[j] == src@[j]@);
            }
            assert(values_model(values@) =~= src.deep_view().map_values(
                |s: Seq<char>| ValueModel::Text(s),
            ));
        }
        self.add_row(page, row_number, Some(&values))
    }

    /// Overwrite a row of a page with text values: each string becomes a
    /// text value, then the row is written as [`VirtualData::set_row`] does.
    pub fn set_row_from_string(&mut self, page: &str, row_number: usize, src: &Vec<String>) -> (r:
        CedResult<()>)
        requires
            processor_wf(old(self)@),
        ensures
            processor_wf(final(self)@),
            ({
                let f = page_find(old(self)@.pages, page@);
                let vals = src.deep_view().map_values(|s: Seq<char>| ValueModel::Text(s));
                &&& (f == -1 ==> r is Err && (r->Err_0 is InvalidPageOperation) && final(self)@
                    == old(self)@)
                &&& (f >= 0 ==> ({
                    let t0 = old(self)@.pages[f].1;
                    &&& (r is Ok) == (vals.len() == t0.columns.len() && row_number < t0.rows.len()
                        && spec_all_qualify(t0.columns, vals))
                    &&& (r is Ok ==> final(self)@ == spec_page_replace(
                        old(self)@,
                        f,
                        (TableModel {
                            rows: t0.rows.update(
                                row_number as int,
                                spec_make_row(t0.columns, vals),
                            ),
                            ..t0
                        }),
                    ))
                    &&& (r is Err ==> final(self)@ == old(self)@)
                }))
            }),
    {
        let mut values: Vec<Value> = Vec::new();
        let mut i: usize = 0;
        while i < src.len()
            invariant
                i <= src@.len(),
                values@.len() == i,
                forall|j: int|
                    0 <= j < i ==> (#[trigger] values@[j])@ == ValueModel::Text(src@[j]@),
            decreases src@.len() - i,
        {
            values.push(Value::Text(src[i].clone()));
            i = i + 1;
        }
        proof {
            assert forall|j: int| 0 <= j < src@.len() implies values_model(values@)[j]
                == src.deep_view().map_values(|s: Seq<char>| ValueModel::Text(s))[j] by {
                assert(values_model(values@)[j] == values@[j]@);
                assert(src.deep_view()[j] == src@[j]@);
            }
            assert(values_model(values@) =~= src.deep_view().map_values(
                |s: Seq<char>| ValueModel::Text(s),
            ));
        }
        self.set_row(page, row_number, values)
    }

    /// An equal deep copy of a page's table, for snapshotting.
    pub fn duplicate_page(&self, page: &str) -> (r: CedResult<VirtualData>)
        ensures
            (r is Ok) == (page_find(self@.pages, page@) >= 0),
            r is Ok ==> r->Ok_0@ == self@.pages[page_find(self@.pages, page@)].1,
            r is Err ==> r->Err_0 is InvalidPageOperation,
    {
        match self.page_index(page) {
            Some(i) => {
                proof {
                    assert(self@.pages[i as int].1 == self.pages@[i as int].1@);
                }
                Ok(self.pages[i].1.duplicate())
            },
            None => Err(CedError::InvalidPageOperation),
        }
    }

    /// Replace a page's table wholesale, as undo and redo restoration do.
    pub fn replace_page(&mut self, page: &str, data: VirtualData) -> (r: CedResult<()>)
        requires
            processor_wf(old(self)@),
            table_wf(data@),
        ensures
            processor_wf(final(self)@),
            (r is Ok) == (page_find(old(self)@.pages, page@) >= 0),
            r is Ok ==> final(self)@ == spec_page_replace(
                old(self)@,
                page_find(old(self)@.pages, page@),
                data@,
            ),
            r is Err ==> final(self)@ == old(self)@ && (r->Err_0 is InvalidPageOperation),
    {
        let idx = match self.page_index(page) {
            Some(i) => i,
            None => {
                return Err(CedError::InvalidPageOperation);
            },
        };
        let ghost dm = data@;
        let slot = &mut self.pages[idx].1;
        *slot = data;
        proof {
            let f = idx as int;
            assert(final(self)@.pages =~= old(self)@.pages.update(
                f,
                (old(self)@.pages[f].0, dm),
            ));
            assert(final(self)@ =~= spec_page_replace(old(self)@, f, dm));
            assert forall|a: int| 0 <= a < final(self)@.pages.len() implies table_wf(
                (#[trigger] final(self)@.pages[a]).1,
            ) by {
                if a != f {
                    assert(final(self)@.pages[a] == old(self)@.pages[a]);
                }
            }
            assert forall|a: int, b: int|
                0 <= a < b < final(self)@.pages.len() implies (
            #[trigger] final(self)@.pages[a]).0 != (#[trigger] final(self)@.pages[b]).0 by {
                assert(final(self)@.pages[a].0 == old(self)@.pages[a].0);
                assert(final(self)@.pages[b].0 == old(self)@.pages[b].0);
            }
        }
        Ok(())
    }

    /// A copy of one column of a page, if the index is in bounds.
    pub fn get_column(&self, page: &str, column_index: usize) -> (r: CedResult<
        Option<crate::virtual_data::Column>,
    >)
        ensures
            (r is Ok) == (page_find(self@.pages, page@) >= 0),
            r is Ok ==> ({
                let t = self@.pages[page_find(self@.pages, page@)].1;
                &&& (r->Ok_0 is Some) == (column_index < t.columns.len())
                &&& (r->Ok_0 is Some ==> r->Ok_0.unwrap()@ == t.columns[column_index as int])
            }),
            r is Err ==> r->Err_0 is InvalidPageOperation,
    {
        match self.page_index(page) {
            Some(i) => {
                proof {
                    assert(self@.pages[i as int].1 == self.pages@[i as int].1@);
                }
                match self.pages[i].1.get_column(column_index) {
                    Some(c) => Ok(Some(c.duplicate())),
                    None => Ok(Option::None),
                }
            },
            None => Err(CedError::InvalidPageOperation),
        }
    }

    /// A copy of one cell of a page, if the coordinate is in bounds.
    pub fn get_cell(&self, page: &str, row: usize, column: usize) -> (r: CedResult<Option<Value>>)
        requires
            processor_wf(self@),
        ensures
            (r is Ok) == (page_find(self@.pages, page@) >= 0),
            r is Ok ==> ({
                let t = self@.pages[page_find(self@.pages, page@)].1;
                &&& (r->Ok_0 is Some) == (row < t.rows.len() && column < t.columns.len())
                &&& (r->Ok_0 is Some ==> r->Ok_0.unwrap()@ == t.rows[row as int][column as int].1)
            }),
            r is Err ==> r->Err_0 is InvalidPageOperation,
    {
        match self.page_index(page) {
            Some(i) => {
                proof {
                    assert(self@.pages[i as int].1 == self.pages@[i as int].1@);
                }
                match self.pages[i].1.get_cell(row, column) {
                    Some(v) => Ok(Some(v.duplicate())),
                    None => Ok(Option::None),
                }
            },
            None => Err(CedError::InvalidPageOperation),
        }
    }
}

impl Processor {
    /// Move a row of a page, as [`VirtualData::move_row`] does.
    pub fn move_row(&mut self, page: &str, src: usize, target: usize) -> (r: CedResult<()>)
        requires
            processor_wf(old(self)@),
        ensures
            processor_wf(final(self)@),
            ({
                let f = page_find(old(self)@.pages, page@);
                &&& (f == -1 ==> r is Err && (r->Err_0 is InvalidPageOperation) && final(self)@
                    == old(self)@)
                &&& (f >= 0 ==> ({
                    let t0 = old(self)@.pages[f].1;
                    &&& (r is Ok) == (src < t0.rows.len() && target < t0.rows.len())
                    &&& (r is Ok ==> final(self)@ == spec_page_replace(
                        old(self)@,
                        f,
                        (TableModel {
                            rows: crate::virtual_data::spec_move(t0.rows, src as int, target as int),
                            ..t0
                        }),
                    ))
                    &&& (r is Err ==> final(self)@ == old(self)@ && (r->Err_0 is OutOfRange))
                }))
            }),
    {
        let idx = match self.page_index(page) {
            Some(i) => i,
            None => {
                return Err(CedError::InvalidPageOperation);
            },
        };
        proof {
            assert(old(self)@.pages[idx as int].1 == self.pages@[idx as int].1@);
            assert(table_wf(old(self)@.pages[idx as int].1));
        }
        let t = &mut self.pages[idx].1;
        let r = t.move_row(src, target);
        proof {
            let f = idx as int;
            assert(final(self)@.pages =~= old(self)@.pages.update(
                f,
                (old(self)@.pages[f].0, final(self)@.pages[f].1),
            ));
            if r is Ok {
                assert(final(self)@ =~= spec_page_replace(
                    old(self)@,
                    f,
                    (TableModel {
                        rows: crate::virtual_data::spec_move(
                            old(self)@.pages[f].1.rows,
                            src as int,
                            target as int,
                        ),
                        ..old(self)@.pages[f].1
                    }),
                ));
            } else {
                assert(final(self)@ =~= old(self)@);
            }
            assert(processor_wf(final(self)@)) by {
                assert forall|a: int| 0 <= a < final(self)@.pages.len() implies table_wf(
                    (#[trigger] final(self)@.pages[a]).1,
                ) by {
                    if a != f {
                        assert(final(self)@.pages[a] == old(self)@.pages[a]);
                    }
                }
                assert forall|a: int, b: int|
                    0 <= a < b < final(self)@.pages.len() implies (
                #[trigger] final(self)@.pages[a]).0 != (#[trigger] final(self)@.pages[b]).0 by {
                    assert(final(self)@.pages[a].0 == old(self)@.pages[a].0);
                    assert(final(self)@.pages[b].0 == old(self)@.pages[b].0);
                }
            }
        }
        r
    }
}

impl Processor {
    /// Move a column of a page, as [`VirtualData::move_column`] does: the
    /// same rotation applies to the column list and to every row.
    pub fn move_column(&mut self, page: &str, src: usize, target: usize) -> (r: CedResult<()>)
        requires
            processor_wf(old(self)@),
        ensures
            processor_wf(final(self)@),
            ({
                let f = page_find(old(self)@.pages, page@);
                &&& (f == -1 ==> r is Err && (r->Err_0 is InvalidPageOperation) && final(self)@
                    == old(self)@)
                &&& (f >= 0 ==> ({
                    let t0 = old(self)@.pages[f].1;
                    &&& (r is Ok) == (src < t0.columns.len() && target < t0.columns.len())
                    &&& (r is Ok ==> final(self)@ == spec_page_replace(
                        old(self)@,
                        f,
                        (TableModel {
                            columns: spec_move(t0.columns, src as int, target as int),
                            rows: Seq::new(
                                t0.rows.len(),
                                |i: int| spec_move(t0.rows[i], src as int, target as int),
                            ),
                        }),
                    ))
                    &&& (r is Err ==> final(self)@ == old(self)@ && (r->Err_0 is OutOfRange))
                }))
            }),
    {
        let idx = match self.page_index(page) {
            Some(i) => i,
            None => {
                return Err(CedError::InvalidPageOperation);
            },
        };
        proof {
            assert(old(self)@.pages[idx as int].1 == self.pages@[idx as int].1@);
            assert(table_wf(old(self)@.pages[idx as int].1));
        }

        let t = &mut self.pages[idx].1;
        let r = t.move_column(src, target);
        proof {
            let f = idx as int;
            assert(final(self)@.pages =~= old(self)@.pages.update(
                f,
                (old(self)@.pages[f].0, final(self)@.pages[f].1),
            ));
            if r is Ok {
                assert(final(self)@ =~= spec_page_replace(old(self)@, f, final(self)@.pages[f].1));
            } else {
                assert(final(self)@ =~= old(self)@);
            }
            assert(processor_wf(final(self)@)) by {
                assert forall|a: int| 0 <= a < final(self)@.pages.len() implies table_wf(
                    (#[trigger] final(self)@.pages[a]).1,
                ) by {
                    if a != f {
                        assert(final(self)@.pages[a] == old(self)@.pages[a]);
                    }
                }
                assert forall|a: int, b: int|
                    0 <= a < b < final(self)@.pages.len() implies (
                #[trigger] final(self)@.pages[a]).0 != (#[trigger] final(self)@.pages[b]).0 by {
                    assert(final(self)@.pages[a].0 == old(self)@.pages[a].0);
                    assert(final(self)@.pages[b].0 == old(self)@.pages[b].0);
                }
            }
        }
        r
    }

    /// Remove a row of a page; reports whether the index was in bounds, as
    /// [`VirtualData::delete_row`] does.
    pub fn remove_row(&mut self, page: &str, row_number: usize) -> (r: CedResult<bool>)
        requires
            processor_wf(old(self)@),
        ensures
            processor_wf(final(self)@),
            ({
                let f = page_find(old(self)@.pages, page@);
                &&& (f == -1 ==> r is Err && (r->Err_0 is InvalidPageOperation) && final(self)@
                    == old(self)@)
                &&& (f >= 0 ==> ({
                    let t0 = old(self)@.pages[f].1;
                    &&& (r is Ok)
                    &&& (r->Ok_0 == (row_number < t0.rows.len()))
                    &&& (r->Ok_0 ==> final(self)@ == spec_page_replace(
                        old(self)@,
                        f,
                        (TableModel { rows: t0.rows.remove(row_number as int), ..t0 }),
                    ))
                    &&& (!r->Ok_0 ==> final(self)@ == old(self)@)
                }))
            }),
    {
        let idx = match self.page_index(page) {
            Some(i) => i,
            None => {
                return Err(CedError::InvalidPageOperation);
            },
        };
        proof {
            assert(old(self)@.pages[idx as int].1 == self.pages@[idx as int].1@);
            assert(table_wf(old(self)@.pages[idx as int].1));
        }

        let t = &mut self.pages[idx].1;
        let r = t.delete_row(row_number);
        proof {
            let f = idx as int;
            assert(final(self)@.pages =~= old(self)@.pages.update(
                f,
                (old(self)@.pages[f].0, final(self)@.pages[f].1),
            ));
            if true {
                assert(final(self)@ =~= spec_page_replace(old(self)@, f, final(self)@.pages[f].1));
            } else {
                assert(final(self)@ =~= old(self)@);
            }
            assert(processor_wf(final(self)@)) by {
                assert forall|a: int| 0 <= a < final(self)@.pages.len() implies table_wf(
                    (#[trigger] final(self)@.pages[a]).1,
                ) by {
                    if a != f {
                        assert(final(self)@.pages[a] == old(self)@.pages[a]);
                    }
                }
                assert forall|a: int, b: int|
                    0 <= a < b < final(self)@.pages.len() implies (
                #[trigger] final(self)@.pages[a]).0 != (#[trigger] final(self)@.pages[b]).0 by {
                    assert(final(self)@.pages[a].0 == old(self)@.pages[a].0);
                    assert(final(self)@.pages[b].0 == old(self)@.pages[b].0);
                }
            }
        }
        match r {
            Some(_) => Ok(true),
            None => Ok(false),
        }
    }

    /// Remove a column of a page, as [`VirtualData::delete_column`] does.
    pub fn remove_column(&mut self, page: &str, column_number: usize) -> (r: CedResult<()>)
        requires
            processor_wf(old(self)@),
        ensures
            processor_wf(final(self)@),
            ({
                let f = page_find(old(self)@.pages, page@);
                &&& (f == -1 ==> r is Err && (r->Err_0 is InvalidPageOperation) && final(self)@
                    == old(self)@)
                &&& (f >= 0 ==> ({
                    let t0 = old(self)@.pages[f].1;
                    &&& (r is Ok) == (column_number < t0.columns.len())
                    &&& (r is Ok ==> final(self)@ == spec_page_replace(
                        old(self)@,
                        f,
                        (TableModel {
                            columns: t0.columns.remove(column_number as int),
                            rows: (if t0.columns.len() == 1 {
                                Seq::<RowModel>::empty()
                            } else {
                                Seq::new(
                                    t0.rows.len(),
                                    |i: int| t0.rows[i].remove(column_number as int),
                                )
                            }),
                        }),
                    ))
                    &&& (r is Err ==> final(self)@ == old(self)@ && (r->Err_0 is OutOfRange))
                }))
            }),
    {
        let idx = match self.page_index(page) {
            Some(i) => i,
            None => {
                return Err(CedError::InvalidPageOperation);
            },
        };
        proof {
            assert(old(self)@.pages[idx as int].1 == self.pages@[idx as int].1@);
            assert(table_wf(old(self)@.pages[idx as int].1));
        }

        let t = &mut self.pages[idx].1;
        let r = t.delete_column(column_number);
        proof {
            let f = idx as int;
            assert(final(self)@.pages =~= old(self)@.pages.update(
                f,
                (old(self)@.pages[f].0, final(self)@.pages[f].1),
            ));
            if r is Ok {
                assert(final(self)@ =~= spec_page_replace(old(self)@, f, final(self)@.pages[f].1));
            } else {
                assert(final(self)@ =~= old(self)@);
            }
            assert(processor_wf(final(self)@)) by {
                assert forall|a: int| 0 <= a < final(self)@.pages.len() implies table_wf(
                    (#[trigger] final(self)@.pages[a]).1,
                ) by {
                    if a != f {
                        assert(final(self)@.pages[a] == old(self)@.pages[a]);
                    }
                }
                assert forall|a: int, b: int|
                    0 <= a < b < final(self)@.pages.len() implies (
                #[trigger] final(self)@.pages[a]).0 != (#[trigger] final(self)@.pages[b]).0 by {
                    assert(final(self)@.pages[a].0 == old(self)@.pages[a].0);
                    assert(final(self)@.pages[b].0 == old(self)@.pages[b].0);
                }
            }
        }
        r
    }

    /// Rename the column a token resolves to on a page, as
    /// [`VirtualData::rename_column`] does.
    pub fn rename_column(&mut self, page: &str, column: &str, new_name: &str) -> (r: CedResult<()>)
        requires
            processor_wf(old(self)@),
        ensures
            processor_wf(final(self)@),
            ({
                let f = page_find(old(self)@.pages, page@);
                &&& (f == -1 ==> r is Err && (r->Err_0 is InvalidPageOperation) && final(self)@
                    == old(self)@)
                &&& (f >= 0 ==> ({
                    let t0 = old(self)@.pages[f].1;
                    &&& (r is Ok) == (spec_try_column_index(t0, column@) is Some && col_find(
                        t0.columns,
                        new_name@,
                    ) == -1 && !is_integer_text(new_name@))
                    &&& (r is Ok ==> ({
                        let y = spec_try_column_index(t0, column@).unwrap();
                        final(self)@ == spec_page_replace(
                            old(self)@,
                            f,
                            (TableModel {
                                columns: t0.columns.update(
                                    y,
                                    (ColumnModel { name: new_name@, ..t0.columns[y] }),
                                ),
                                rows: Seq::new(
                                    t0.rows.len(),
                                    |i: int| t0.rows[i].update(y, (new_name@, t0.rows[i][y].1)),
                                ),
                            }),
                        )
                    }))
                    &&& (r is Err ==> final(self)@ == old(self)@)
                    &&& (r is Err ==> if spec_try_column_index(t0, column@) is None {
                        r->Err_0 is UnknownColumn
                    } else {
                        r->Err_0 is DuplicateOrInvalidColumnName
                    })
                }))
            }),
    {
        let idx = match self.page_index(page) {
            Some(i) => i,
            None => {
                return Err(CedError::InvalidPageOperation);
            },
        };
        proof {
            assert(old(self)@.pages[idx as int].1 == self.pages@[idx as int].1@);
            assert(table_wf(old(self)@.pages[idx as int].1));
        }

        let t = &mut self.pages[idx].1;
        let r = t.rename_column(column, new_name);
        proof {
            let f = idx as int;
            assert(final(self)@.pages =~= old(self)@.pages.update(
                f,
                (old(self)@.pages[f].0, final(self)@.pages[f].1),
            ));
            if r is Ok {
                assert(final(self)@ =~= spec_page_replace(old(self)@, f, final(self)@.pages[f].1));
            } else {
                assert(final(self)@ =~= old(self)@);
            }
            assert(processor_wf(final(self)@)) by {
                assert forall|a: int| 0 <= a < final(self)@.pages.len() implies table_wf(
                    (#[trigger] final(self)@.pages[a]).1,
                ) by {
                    if a != f {
                        assert(final(self)@.pages[a] == old(self)@.pages[a]);
                    }
                }
                assert forall|a: int, b: int|
                    0 <= a < b < final(self)@.pages.len() implies (
                #[trigger] final(self)@.pages[a]).0 != (#[trigger] final(self)@.pages[b]).0 by {
                    assert(final(self)@.pages[a].0 == old(self)@.pages[a].0);
                    assert(final(self)@.pages[b].0 == old(self)@.pages[b].0);
                }
            }
        }
        r
    }

    /// Write a cell of a page from text, as
    /// [`VirtualData::set_data_from_string`] does.
    pub fn edit_cell(&mut self, page: &str, x: usize, y: usize, input: &str) -> (r: CedResult<()>)
        requires
            processor_wf(old(self)@),
        ensures
            processor_wf(final(self)@),
            ({
                let f = page_find(old(self)@.pages, page@);
                &&& (f == -1 ==> r is Err && (r->Err_0 is InvalidPageOperation) && final(self)@
                    == old(self)@)
                &&& (f >= 0 ==> ({
                    let t0 = old(self)@.pages[f].1;
                    &&& (r is Ok) == (x < t0.rows.len() && y < t0.columns.len()
                        && spec_parse_value(input@, t0.columns[y as int].column_type) is Some
                        && spec_qualify(
                        t0.columns[y as int].limiter,
                        spec_parse_value(input@, t0.columns[y as int].column_type).unwrap(),
                    ))
                    &&& (r is Ok ==> final(self)@ == spec_page_replace(
                        old(self)@,
                        f,
                        spec_set_cell(
                            t0,
                            x as int,
                            y as int,
                            spec_parse_value(input@, t0.columns[y as int].column_type).unwrap(),
                        ),
                    ))
                    &&& (r is Err ==> final(self)@ == old(self)@)
                    &&& (r is Err ==> if !(x < t0.rows.len() && y < t0.columns.len()) {
                        r->Err_0 is OutOfRange
                    } else if spec_parse_value(input@, t0.columns[y as int].column_type) is None {
                        r->Err_0 is TypeMismatch
                    } else {
                        r->Err_0 is ConstraintViolation
                    })
                }))
            }),
    {
        let idx = match self.page_index(page) {
            Some(i) => i,
            None => {
                return Err(CedError::InvalidPageOperation);
            },
        };
        proof {
            assert(old(self)@.pages[idx as int].1 == self.pages@[idx as int].1@);
            assert(table_wf(old(self)@.pages[idx as int].1));
        }

        let t = &mut self.pages[idx].1;
        let r = t.set_data_from_string(x, y, input);
        proof {
            let f = idx as int;
            assert(final(self)@.pages =~= old(self)@.pages.update(
                f,
                (old(self)@.pages[f].0, final(self)@.pages[f].1),
            ));
            if r is Ok {
                assert(final(self)@ =~= spec_page_replace(old(self)@, f, final(self)@.pages[f].1));
            } else {
                assert(final(self)@ =~= old(self)@);
            }
            assert(processor_wf(final(self)@)) by {
                assert forall|a: int| 0 <= a < final(self)@.pages.len() implies table_wf(
                    (#[trigger] final(self)@.pages[a]).1,
                ) by {
                    if a != f {
                        assert(final(self)@.pages[a] == old(self)@.pages[a]);
                    }
                }
                assert forall|a: int, b: int|
                    0 <= a < b < final(self)@.pages.len() implies (
                #[trigger] final(self)@.pages[a]).0 != (#[trigger] final(self)@.pages[b]).0 by {
                    assert(final(self)@.pages[a].0 == old(self)@.pages[a].0);
                    assert(final(self)@.pages[b].0 == old(self)@.pages[b].0);
                }
            }
        }
        r
    }

    /// Overwrite every cell of the column a token resolves to with one text
    /// value, as [`VirtualData::set_column`] does.
    pub fn edit_column(&mut self, page: &str, column: &str, input: &str) -> (r: CedResult<()>)
        requires
            processor_wf(old(self)@),
        ensures
            processor_wf(final(self)@),
            ({
                let f = page_find(old(self)@.pages, page@);
                &&& (f == -1 ==> r is Err && (r->Err_0 is InvalidPageOperation) && final(self)@
                    == old(self)@)
                &&& (f >= 0 ==> ({
                    let t0 = old(self)@.pages[f].1;
                    &&& (r is Ok) == (spec_try_column_index(t0, column@) is Some && spec_qualify(
                        t0.columns[spec_try_column_index(t0, column@).unwrap_or(0)].limiter,
                        ValueModel::Text(input@),
                    ))
                    &&& (r is Ok ==> ({
                        let y = spec_try_column_index(t0, column@).unwrap();
                        final(self)@ == spec_page_replace(
                            old(self)@,
                            f,
                            (TableModel {
                                columns: t0.columns,
                                rows: Seq::new(
                                    t0.rows.len(),
                                    |i: int|
                                        t0.rows[i].update(
                                            y,
                                            (t0.rows[i][y].0, ValueModel::Text(input@)),
                                        ),
                                ),
                            }),
                        )
                    }))
                    &&& (r is Err ==> final(self)@ == old(self)@)
                    &&& (r is Err ==> if spec_try_column_index(t0, column@) is None {
                        r->Err_0 is UnknownColumn
                    } else {
                        r->Err_0 is ConstraintViolation
                    })
                }))
            }),
    {
        let idx = match self.page_index(page) {
            Some(i) => i,
            None => {
                return Err(CedError::InvalidPageOperation);
            },
        };
        proof {
            assert(old(self)@.pages[idx as int].1 == self.pages@[idx as int].1@);
            assert(table_wf(old(self)@.pages[idx as int].1));
        }
        let value = Value::Text(input.to_owned());
        let t = &mut self.pages[idx].1;
        let r = t.set_column(column, value);
        proof {
            let f = idx as int;
            assert(final(self)@.pages =~= old(self)@.pages.update(
                f,
                (old(self)@.pages[f].0, final(self)@.pages[f].1),
            ));
            if r is Ok {
                assert(final(self)@ =~= spec_page_replace(old(self)@, f, final(self)@.pages[f].1));
            } else {
                assert(final(self)@ =~= old(self)@);
            }
            assert(processor_wf(final(self)@)) by {
                assert forall|a: int| 0 <= a < final(self)@.pages.len() implies table_wf(
                    (#[trigger] final(self)@.pages[a]).1,
                ) by {
                    if a != f {
                        assert(final(self)@.pages[a] == old(self)@.pages[a]);
                    }
                }
                assert forall|a: int, b: int|
                    0 <= a < b < final(self)@.pages.len() implies (
                #[trigger] final(self)@.pages[a]).0 != (#[trigger] final(self)@.pages[b]).0 by {
                    assert(final(self)@.pages[a].0 == old(self)@.pages[a].0);
                    assert(final(self)@.pages[b].0 == old(self)@.pages[b].0);
                }
            }
        }
        r
    }

    /// Overwrite a whole row of a page, as [`VirtualData::set_row`] does:
    /// all checks happen before any write.
    pub fn set_row(&mut self, page: &str, row_number: usize, input: Vec<Value>) -> (r: CedResult<()>)
        requires
            processor_wf(old(self)@),
        ensures
            processor_wf(final(self)@),
            ({
                let f = page_find(old(self)@.pages, page@);
                &&& (f == -1 ==> r is Err && (r->Err_0 is InvalidPageOperation) && final(self)@
                    == old(self)@)
                &&& (f >= 0 ==> ({
                    let t0 = old(self)@.pages[f].1;
                    &&& (r is Ok) == (input@.len() == t0.columns.len() && row_number
                        < t0.rows.len() && spec_all_qualify(t0.columns, values_model(input@)))
                    &&& (r is Ok ==> final(self)@ == spec_page_replace(
                        old(self)@,
                        f,
                        (TableModel {
                            rows: t0.rows.update(
                                row_number as int,
                                spec_make_row(t0.columns, values_model(input@)),
                            ),
                            ..t0
                        }),
                    ))
                    &&& (r is Err ==> final(self)@ == old(self)@)
                    &&& (r is Err ==> if input@.len() != t0.columns.len() {
                        r->Err_0 is RowLengthMismatch
                    } else if row_number >= t0.rows.len() {
                        r->Err_0 is OutOfRange
                    } else {
                        r->Err_0 is ConstraintViolation
                    })
                }))
            }),
    {
        let idx = match self.page_index(page) {
            Some(i) => i,
            None => {
                return Err(CedError::InvalidPageOperation);
            },
        };
        proof {
            assert(old(self)@.pages[idx as int].1 == self.pages@[idx as int].1@);
            assert(table_wf(old(self)@.pages[idx as int].1));
        }

        let t = &mut self.pages[idx].1;
        let r = t.set_row(row_number, input);
        proof {
            let f = idx as int;
            assert(final(self)@.pages =~= old(self)@.pages.update(
                f,
                (old(self)@.pages[f].0, final(self)@.pages[f].1),
            ));
            if r is Ok {
                assert(final(self)@ =~= spec_page_replace(old(self)@, f, final(self)@.pages[f].1));
            } else {
                assert(final(self)@ =~= old(self)@);
            }
            assert(processor_wf(final(self)@)) by {
                assert forall|a: int| 0 <= a < final(self)@.pages.len() implies table_wf(
                    (#[trigger] final(self)@.pages[a]).1,
                ) by {
                    if a != f {
                        assert(final(self)@.pages[a] == old(self)@.pages[a]);
                    }
                }
                assert forall|a: int, b: int|
                    0 <= a < b < final(self)@.pages.len() implies (
                #[trigger] final(self)@.pages[a]).0 != (#[trigger] final(self)@.pages[b]).0 by {
                    assert(final(self)@.pages[a].0 == old(self)@.pages[a].0);
                    assert(final(self)@.pages[b].0 == old(self)@.pages[b].0);
                }
            }
        }
        r
    }

    /// Overwrite chosen cells of a row of a page, as
    /// [`VirtualData::edit_row`] does: `None` entries leave their cell
    /// unchanged, and all checks happen before any write.
    pub fn edit_row(&mut self, page: &str, row_number: usize, input: &Vec<Option<Value>>) -> (r: CedResult<()>)
        requires
            processor_wf(old(self)@),
        ensures
            processor_wf(final(self)@),
            ({
                let f = page_find(old(self)@.pages, page@);
                &&& (f == -1 ==> r is Err && (r->Err_0 is InvalidPageOperation) && final(self)@
                    == old(self)@)
                &&& (f >= 0 ==> ({
                    let t0 = old(self)@.pages[f].1;
                    &&& (r is Ok) == (input@.len() == t0.columns.len() && row_number
                        < t0.rows.len() && spec_all_qualify_opt(t0.columns, input@))
                    &&& (r is Ok ==> final(self)@ == spec_page_replace(
                        old(self)@,
                        f,
                        (TableModel {
                            rows: t0.rows.update(
                                row_number as int,
                                spec_edit_row(t0.rows[row_number as int], t0.columns, input@),
                            ),
                            ..t0
                        }),
                    ))
                    &&& (r is Err ==> final(self)@ == old(self)@)
                    &&& (r is Err ==> if input@.len() != t0.columns.len() {
                        r->Err_0 is RowLengthMismatch
                    } else if row_number >= t0.rows.len() {
                        r->Err_0 is OutOfRange
                    } else {
                        r->Err_0 is ConstraintViolation
                    })
                }))
            }),
    {
        let idx = match self.page_index(page) {
            Some(i) => i,
            None => {
                return Err(CedError::InvalidPageOperation);
            },
        };
        proof {
            assert(old(self)@.pages[idx as int].1 == self.pages@[idx as int].1@);
            assert(table_wf(old(self)@.pages[idx as int].1));
        }

        let t = &mut self.pages[idx].1;
        let r = t.edit_row(row_number, input);
        proof {
            let f = idx as int;
            assert(final(self)@.pages =~= old(self)@.pages.update(
                f,
                (old(self)@.pages[f].0, final(self)@.pages[f].1),
            ));
            if r is Ok {
                assert(final(self)@ =~= spec_page_replace(old(self)@, f, final(self)@.pages[f].1));
            } else {
                assert(final(self)@ =~= old(self)@);
            }
            assert(processor_wf(final(self)@)) by {
                assert forall|a: int| 0 <= a < final(self)@.pages.len() implies table_wf(
                    (#[trigger] final(self)@.pages[a]).1,
                ) by {
                    if a != f {
                        assert(final(self)@.pages[a] == old(self)@.pages[a]);
                    }
                }
                assert forall|a: int, b: int|
                    0 <= a < b < final(self)@.pages.len() implies (
                #[trigger] final(self)@.pages[a]).0 != (#[trigger] final(self)@.pages[b]).0 by {
                    assert(final(self)@.pages[a].0 == old(self)@.pages[a].0);
                    assert(final(self)@.pages[b].0 == old(self)@.pages[b].0);
                }
            }
        }
        r
    }

    /// Insert a row into a page, as [`VirtualData::insert_row`] does.
    pub fn add_row(&mut self, page: &str, row_number: usize, values: Option<&Vec<Value>>) -> (r: CedResult<()>)
        requires
            processor_wf(old(self)@),
        ensures
            processor_wf(final(self)@),
            ({
                let f = page_find(old(self)@.pages, page@);
                &&& (f == -1 ==> r is Err && (r->Err_0 is InvalidPageOperation) && final(self)@
                    == old(self)@)
                &&& (f >= 0 ==> ({
                    let t0 = old(self)@.pages[f].1;
                    &&& (r is Ok) == (row_number <= t0.rows.len() && (match values {
                        Some(vals) => vals@.len() == t0.columns.len() && spec_all_qualify(
                            t0.columns,
                            values_model(vals@),
                        ),
                        None => true,
                    }))
                    &&& (r is Ok ==> final(self)@ == spec_page_replace(
                        old(self)@,
                        f,
                        (TableModel {
                            rows: t0.rows.insert(
                                row_number as int,
                                (match values {
                                    Some(vals) => spec_make_row(t0.columns, values_model(vals@)),
                                    None => spec_default_row(t0.columns),
                                }),
                            ),
                            ..t0
                        }),
                    ))
                    &&& (r is Err ==> final(self)@ == old(self)@)
                    &&& (r is Err ==> if row_number > t0.rows.len() {
                        r->Err_0 is OutOfRange
                    } else if (match values {
                        Some(vals) => vals@.len() != t0.columns.len(),
                        None => false,
                    }) {
                        r->Err_0 is RowLengthMismatch
                    } else {
                        r->Err_0 is ConstraintViolation
                    })
                }))
            }),
    {
        let idx = match self.page_index(page) {
            Some(i) => i,
            None => {
                return Err(CedError::InvalidPageOperation);
            },
        };
        proof {
            assert(old(self)@.pages[idx as int].1 == self.pages@[idx as int].1@);
            assert(table_wf(old(self)@.pages[idx as int].1));
        }

        let t = &mut self.pages[idx].1;
        let r = t.insert_row(row_number, values);
        proof {
            let f = idx as int;
            assert(final(self)@.pages =~= old(self)@.pages.update(
                f,
                (old(self)@.pages[f].0, final(self)@.pages[f].1),
            ));
            if r is Ok {
                assert(final(self)@ =~= spec_page_replace(old(self)@, f, final(self)@.pages[f].1));
            } else {
                assert(final(self)@ =~= old(self)@);
            }
            assert(processor_wf(final(self)@)) by {
                assert forall|a: int| 0 <= a < final(self)@.pages.len() implies table_wf(
                    (#[trigger] final(self)@.pages[a]).1,
                ) by {
                    if a != f {
                        assert(final(self)@.pages[a] == old(self)@.pages[a]);
                    }
                }
                assert forall|a: int, b: int|
                    0 <= a < b < final(self)@.pages.len() implies (
                #[trigger] final(self)@.pages[a]).0 != (#[trigger] final(self)@.pages[b]).0 by {
                    assert(final(self)@.pages[a].0 == old(self)@.pages[a].0);
                    assert(final(self)@.pages[b].0 == old(self)@.pages[b].0);
                }
            }
        }
        r
    }

    /// Insert a column into a page, as
    /// [`VirtualData::insert_column_with_type`] does.
    pub fn add_column(&mut self, page: &str,
        column_number: usize,
        column_name: &str,
        column_type: ValueType,
        limiter: Option<ValueLimiter>,
        placeholder: Option<Value>) -> (r: CedResult<()>)
        requires
            processor_wf(old(self)@),
        ensures
            processor_wf(final(self)@),
            ({
                let f = page_find(old(self)@.pages, page@);
                &&& (f == -1 ==> r is Err && (r->Err_0 is InvalidPageOperation) && final(self)@
                    == old(self)@)
                &&& (f >= 0 ==> ({
                    let t0 = old(self)@.pages[f].1;
                    &&& (r is Ok) == (column_number <= t0.columns.len() && col_find(
                        t0.columns,
                        column_name@,
                    ) == -1 && !is_integer_text(column_name@) && (match placeholder {
                        Some(p) => spec_qualify(
                            spec_new_column(column_name@, column_type, limiter).limiter,
                            p@,
                        ),
                        None => true,
                    }))
                    &&& (r is Ok ==> final(self)@ == spec_page_replace(
                        old(self)@,
                        f,
                        (TableModel {
                            columns: t0.columns.insert(
                                column_number as int,
                                spec_new_column(column_name@, column_type, limiter),
                            ),
                            rows: Seq::new(
                                t0.rows.len(),
                                |i: int|
                                    t0.rows[i].insert(
                                        column_number as int,
                                        (
                                            column_name@,
                                            spec_fill_value(
                                                spec_new_column(
                                                    column_name@,
                                                    column_type,
                                                    limiter,
                                                ),
                                                placeholder,
                                            ),
                                        ),
                                    ),
                            ),
                        }),
                    ))
                    &&& (r is Err ==> final(self)@ == old(self)@)
                    &&& (r is Err ==> if column_number > t0.columns.len() {
                        r->Err_0 is OutOfRange
                    } else if col_find(t0.columns, column_name@) >= 0 || is_integer_text(
                        column_name@,
                    ) {
                        r->Err_0 is DuplicateOrInvalidColumnName
                    } else {
                        r->Err_0 is ConstraintViolation
                    })
                }))
            }),
    {
        let idx = match self.page_index(page) {
            Some(i) => i,
            None => {
                return Err(CedError::InvalidPageOperation);
            },
        };
        proof {
            assert(old(self)@.pages[idx as int].1 == self.pages@[idx as int].1@);
            assert(table_wf(old(self)@.pages[idx as int].1));
        }

        let t = &mut self.pages[idx].1;
        let r = t.insert_column_with_type(column_number, column_name, column_type, limiter, placeholder);
        proof {
            let f = idx as int;
            assert(final(self)@.pages =~= old(self)@.pages.update(
                f,
                (old(self)@.pages[f].0, final(self)@.pages[f].1),
            ));
            if r is Ok {
                assert(final(self)@ =~= spec_page_replace(old(self)@, f, final(self)@.pages[f].1));
            } else {
                assert(final(self)@ =~= old(self)@);
            }
            assert(processor_wf(final(self)@)) by {
                assert forall|a: int| 0 <= a < final(self)@.pages.len() implies table_wf(
                    (#[trigger] final(self)@.pages[a]).1,
                ) by {
                    if a != f {
                        assert(final(self)@.pages[a] == old(self)@.pages[a]);
                    }
                }
                assert forall|a: int, b: int|
                    0 <= a < b < final(self)@.pages.len() implies (
                #[trigger] final(self)@.pages[a]).0 != (#[trigger] final(self)@.pages[b]).0 by {
                    assert(final(self)@.pages[a].0 == old(self)@.pages[a].0);
                    assert(final(self)@.pages[b].0 == old(self)@.pages[b].0);
                }
            }
        }
        r
    }

    /// Apply a limiter to the column a token resolves to on a page, as
    /// [`VirtualData::set_limiter`] does.
    pub fn set_limiter(&mut self, page: &str, column: &str, limiter: &ValueLimiter, panic: bool) -> (r: CedResult<()>)
        requires
            processor_wf(old(self)@),
        ensures
            processor_wf(final(self)@),
            ({
                let f = page_find(old(self)@.pages, page@);
                &&& (f == -1 ==> r is Err && (r->Err_0 is InvalidPageOperation) && final(self)@
                    == old(self)@)
                &&& (f >= 0 ==> ({
                    let t0 = old(self)@.pages[f].1;
                    &&& (r is Ok) == (spec_try_column_index(t0, column@) is Some && (!panic
                        || spec_all_limit_ok(
                        t0.rows,
                        spec_try_column_index(t0, column@).unwrap_or(0),
                        limiter@,
                    )))
                    &&& (r is Ok ==> final(self)@ == spec_page_replace(
                        old(self)@,
                        f,
                        spec_set_limiter_table(
                            t0,
                            spec_try_column_index(t0, column@).unwrap_or(0),
                            limiter@,
                        ),
                    ))
                    &&& (r is Err ==> final(self)@ == old(self)@)
                    &&& (r is Err ==> if spec_try_column_index(t0, column@) is None {
                        r->Err_0 is UnknownColumn
                    } else {
                        r->Err_0 is ConstraintViolation
                    })
                }))
            }),
    {
        let idx = match self.page_index(page) {
            Some(i) => i,
            None => {
                return Err(CedError::InvalidPageOperation);
            },
        };
        proof {
            assert(old(self)@.pages[idx as int].1 == self.pages@[idx as int].1@);
            assert(table_wf(old(self)@.pages[idx as int].1));
        }

        let t = &mut self.pages[idx].1;
        let r = (match t.try_get_column_index(column) {
            Some(y) => t.set_limiter(y, limiter, panic),
            None => Err(CedError::UnknownColumn),
        });
        proof {
            let f = idx as int;
            assert(final(self)@.pages =~= old(self)@.pages.update(
                f,
                (old(self)@.pages[f].0, final(self)@.pages[f].1),
            ));
            if r is Ok {
                assert(final(self)@ =~= spec_page_replace(old(self)@, f, final(self)@.pages[f].1));
            } else {
                assert(final(self)@ =~= old(self)@);
            }
            assert(processor_wf(final(self)@)) by {
                assert forall|a: int| 0 <= a < final(self)@.pages.len() implies table_wf(
                    (#[trigger] final(self)@.pages[a]).1,
                ) by {
                    if a != f {
                        assert(final(self)@.pages[a] == old(self)@.pages[a]);
                    }
                }
                assert forall|a: int, b: int|
                    0 <= a < b < final(self)@.pages.len() implies (
                #[trigger] final(self)@.pages[a]).0 != (#[trigger] final(self)@.pages[b]).0 by {
                    assert(final(self)@.pages[a].0 == old(self)@.pages[a].0);
                    assert(final(self)@.pages[b].0 == old(self)@.pages[b].0);
                }
            }
        }
        r
    }

    /// Apply one schema line to a page, as
    /// [`VirtualData::apply_schema_line`] does.
    pub fn apply_schema_line(&mut self, page: &str, line: &str, panic: bool) -> (r: CedResult<()>)
        requires
            processor_wf(old(self)@),
        ensures
            processor_wf(final(self)@),
            ({
                let f = page_find(old(self)@.pages, page@);
                &&& (f == -1 ==> r is Err && (r->Err_0 is InvalidPageOperation) && final(self)@
                    == old(self)@)
                &&& (f >= 0 ==> ({
                    let t0 = old(self)@.pages[f].1;
                    &&& (r is Ok) == (spec_apply_schema_line(t0, line@, panic) is Ok)
                    &&& (r is Ok ==> final(self)@ == spec_page_replace(
                        old(self)@,
                        f,
                        spec_apply_schema_line(t0, line@, panic)->Ok_0,
                    ))
                    &&& (r is Err ==> final(self)@ == old(self)@ && r->Err_0
                        == spec_apply_schema_line(t0, line@, panic)->Err_0)
                }))
            }),
    {
        let idx = match self.page_index(page) {
            Some(i) => i,
            None => {
                return Err(CedError::InvalidPageOperation);
            },
        };
        proof {
            assert(old(self)@.pages[idx as int].1 == self.pages@[idx as int].1@);
            assert(table_wf(old(self)@.pages[idx as int].1));
        }

        let t = &mut self.pages[idx].1;
        let r = t.apply_schema_line(line, panic);
        proof {
            let f = idx as int;
            assert(final(self)@.pages =~= old(self)@.pages.update(
                f,
                (old(self)@.pages[f].0, final(self)@.pages[f].1),
            ));
            if r is Ok {
                assert(final(self)@ =~= spec_page_replace(old(self)@, f, final(self)@.pages[f].1));
            } else {
                assert(final(self)@ =~= old(self)@);
            }
            assert(processor_wf(final(self)@)) by {
                assert forall|a: int| 0 <= a < final(self)@.pages.len() implies table_wf(
                    (#[trigger] final(self)@.pages[a]).1,
                ) by {
                    if a != f {
                        assert(final(self)@.pages[a] == old(self)@.pages[a]);
                    }
                }
                assert forall|a: int, b: int|
                    0 <= a < b < final(self)@.pages.len() implies (
                #[trigger] final(self)@.pages[a]).0 != (#[trigger] final(self)@.pages[b]).0 by {
                    assert(final(self)@.pages[a].0 == old(self)@.pages[a].0);
                    assert(final(self)@.pages[b].0 == old(self)@.pages[b].0);
                }
            }
        }
        r
    }
}

/// Helper fact: a found match at `i` with no earlier match pins the find.
proof fn lemma_page_find_first(pages: Seq<(Seq<char>, TableModel)>, name: Seq<char>, i: int)
    requires
        0 <= i < pages.len(),
        pages[i].0 == name,
        forall|j: int| 0 <= j < i ==> (#[trigger] pages[j]).0 != name,
    ensures
        page_find(pages, name) == i,
    decreases pages.len(),
{
    lemma_page_find(pages, name);
    let f = page_find(pages, name);
    assert(f != -1) by {
        if f == -1 {
            assert(pages[i].0 != name);
        }
    }
    if f < i {
        assert(pages[f].0 != name);
    }
    if f > i {
        assert(pages[i].0 != name);
    }
}

} // verus!

//! The textual command vocabulary and the snapshot-based undo/redo history.
//!
//! [`CommandType`] names every command the editor understands and carries
//! the mutating/non-mutating classification that decides which commands are
//! recorded in the history.  [`CommandHistory`] is a bounded stack of full
//! table snapshots with a cursor: new snapshots discard any undone branch,
//! and the oldest snapshot is evicted once the capacity is reached.

use vstd::prelude::*;

use crate::error::{CedError, CedResult};
use crate::text::{lower_seq, trim_seq, lower_chars, trim_chars, str_to_chars, chars_eq_str};
use crate::utils::{spec_tokens_with_quote, tokens_with_quote};
use crate::virtual_data::{TableModel, VirtualData};

verus! {

/// Types of command.
#[derive(Clone, Copy, PartialEq, Eq, Structural, Debug)]
pub enum CommandType {
    Version,
    Help,
    Undo,
    Redo,
    Create,
    Write,
    Import,
    ImportRaw,
    Export,
    AddRow,
    AddColumn,
    DeleteRow,
    DeleteColumn,
    EditCell,
    EditColumn,
    RenameColumn,
    EditRow,
    EditRowMultiple,
    MoveRow,
    MoveColumn,
    Exit,
    Execute,
    Print,
    PrintCell,
    PrintRow,
    PrintColumn,
    Limit,
    LimitPreset,
    Schema,
    SchemaInit,
    SchemaExport,
    History,
    NoCommand,
}

impl CommandType {
    /// The command each (lower-cased, trimmed) word names; unknown words
    /// name no command.
    pub open spec fn spec_from(s: Seq<char>) -> CommandType {
        if s == "version"@ || s == "v"@ {
            CommandType::Version
        } else if s == "help"@ || s == "h"@ {
            CommandType::Help
        } else if s == "import"@ || s == "i"@ {
            CommandType::Import
        } else if s == "import-raw"@ || s == "ir"@ {
            CommandType::ImportRaw
        } else if s == "export"@ || s == "x"@ {
            CommandType::Export
        } else if s == "execute"@ || s == "ex"@ {
            CommandType::Execute
        } else if s == "create"@ || s == "c"@ {
            CommandType::Create
        } else if s == "write"@ || s == "w"@ {
            CommandType::Write
        } else if s == "print"@ || s == "p"@ {
            CommandType::Print
        } else if s == "print-cell"@ || s == "pc"@ {
            CommandType::PrintCell
        } else if s == "print-row"@ || s == "pr"@ {
            CommandType::PrintRow
        } else if s == "print-column"@ || s == "pl"@ {
            CommandType::PrintColumn
        } else if s == "add-row"@ || s == "ar"@ {
            CommandType::AddRow
        } else if s == "exit"@ || s == "quit"@ || s == "q"@ {
            CommandType::Exit
        } else if s == "add-column"@ || s == "ac"@ {
            CommandType::AddColumn
        } else if s == "delete-row"@ || s == "dr"@ {
            CommandType::DeleteRow
        } else if s == "delete-column"@ || s == "dc"@ {
            CommandType::DeleteColumn
        } else if s == "edit"@ || s == "edit-cell"@ || s == "e"@ {
            CommandType::EditCell
        } else if s == "edit-row"@ || s == "er"@ {
            CommandType::EditRow
        } else if s == "edit-row-multiple"@ || s == "erm"@ {
            CommandType::EditRowMultiple
        } else if s == "edit-column"@ || s == "ec"@ {
            CommandType::EditColumn
        } else if s == "rename-column"@ || s == "rc"@ {
            CommandType::RenameColumn
        } else if s == "move-row"@ || s == "move"@ || s == "m"@ {
            CommandType::MoveRow
        } else if s == "move-column"@ || s == "mc"@ {
            CommandType::MoveColumn
        } else if s == "limit"@ || s == "l"@ {
            CommandType::Limit
        } else if s == "limit-preset"@ || s == "lp"@ {
            CommandType::LimitPreset
        } else if s == "undo"@ || s == "u"@ {
            CommandType::Undo
        } else if s == "redo"@ || s == "r"@ {
            CommandType::Redo
        } else if s == "schema"@ || s == "s"@ {
            CommandType::Schema
        } else if s == "schema-init"@ || s == "si"@ {
            CommandType::SchemaInit
        } else if s == "schema-export"@ || s == "se"@ {
            CommandType::SchemaExport
        } else if s == "history"@ || s == "y"@ {
            CommandType::History
        } else {
            CommandType::NoCommand
        }
    }

    /// Read a command from a word, ignoring letter case and surrounding
    /// whitespace.
    pub fn from_str(src: &str) -> (r: CommandType)
        ensures
            r == CommandType::spec_from(lower_seq(trim_seq(src@))),
    {
        let w = lower_chars(&trim_chars(&str_to_chars(src)));
        if chars_eq_str(&w, "version") || chars_eq_str(&w, "v") {
            CommandType::Version
        } else if chars_eq_str(&w, "help") || chars_eq_str(&w, "h") {
            CommandType::Help
        } else if chars_eq_str(&w, "import") || chars_eq_str(&w, "i") {
            CommandType::Import
        } else if chars_eq_str(&w, "import-raw") || chars_eq_str(&w, "ir") {
            CommandType::ImportRaw
        } else if chars_eq_str(&w, "export") || chars_eq_str(&w, "x") {
            CommandType::Export
        } else if chars_eq_str(&w, "execute") || chars_eq_str(&w, "ex") {
            CommandType::Execute
        } else if chars_eq_str(&w, "create") || chars_eq_str(&w, "c") {
            CommandType::Create
        } else if chars_eq_str(&w, "write") || chars_eq_str(&w, "w") {
            CommandType::Write
        } else if chars_eq_str(&w, "print") || chars_eq_str(&w, "p") {
            CommandType::Print
        } else if chars_eq_str(&w, "print-cell") || chars_eq_str(&w, "pc") {
            CommandType::PrintCell
        } else if chars_eq_str(&w, "print-row") || chars_eq_str(&w, "pr") {
            CommandType::PrintRow
        } else if chars_eq_str(&w, "print-column") || chars_eq_str(&w, "pl") {
            CommandType::PrintColumn
        } else if chars_eq_str(&w, "add-row") || chars_eq_str(&w, "ar") {
            CommandType::AddRow
        } else if chars_eq_str(&w, "exit") || chars_eq_str(&w, "quit") || chars_eq_str(&w, "q") {
            CommandType::Exit
        } else if chars_eq_str(&w, "add-column") || chars_eq_str(&w, "ac") {
            CommandType::AddColumn
        } else if chars_eq_str(&w, "delete-row") || chars_eq_str(&w, "dr") {
            CommandType::DeleteRow
        } else if chars_eq_str(&w, "delete-column") || chars_eq_str(&w, "dc") {
            CommandType::DeleteColumn
        } else if chars_eq_str(&w, "edit") || chars_eq_str(&w, "edit-cell") || chars_eq_str(
            &w,
            "e",
        ) {
            CommandType::EditCell
        } else if chars_eq_str(&w, "edit-row") || chars_eq_str(&w, "er") {
            CommandType::EditRow
        } else if chars_eq_str(&w, "edit-row-multiple") || chars_eq_str(&w, "erm") {
            CommandType::EditRowMultiple
        } else if chars_eq_str(&w, "edit-column") || chars_eq_str(&w, "ec") {
            CommandType::EditColumn
        } else if chars_eq_str(&w, "rename-column") || chars_eq_str(&w, "rc") {
            CommandType::RenameColumn
        } else if chars_eq_str(&w, "move-row") || chars_eq_str(&w, "move") || chars_eq_str(
            &w,
            "m",
        ) {
            CommandType::MoveRow
        } else if chars_eq_str(&w, "move-column") || chars_eq_str(&w, "mc") {
            CommandType::MoveColumn
        } else if chars_eq_str(&w, "limit") || chars_eq_str(&w, "l") {
            CommandType::Limit
        } else if chars_eq_str(&w, "limit-preset") || chars_eq_str(&w, "lp") {
            CommandType::LimitPreset
        } else if chars_eq_str(&w, "undo") || chars_eq_str(&w, "u") {
            CommandType::Undo
        } else if chars_eq_str(&w, "redo") || chars_eq_str(&w, "r") {
            CommandType::Redo
        } else if chars_eq_str(&w, "schema") || chars_eq_str(&w, "s") {
            CommandType::Schema
        } else if chars_eq_str(&w, "schema-init") || chars_eq_str(&w, "si") {
            CommandType::SchemaInit
        } else if chars_eq_str(&w, "schema-export") || chars_eq_str(&w, "se") {
            CommandType::SchemaExport
        } else if chars_eq_str(&w, "history") || chars_eq_str(&w, "y") {
            CommandType::History
        } else {
            CommandType::NoCommand
        }
    }

    /// Whether this command mutates table state and therefore takes a
    /// snapshot before it runs: row/column structural edits, cell, row and
    /// column content edits, moves, renames and limiter changes do; print,
    /// export, import, schema display, version/help and undo/redo
    /// themselves do not.
    pub open spec fn spec_history_tracked(self) -> bool {
        match self {
            CommandType::Create => true,
            CommandType::AddRow => true,
            CommandType::AddColumn => true,
            CommandType::DeleteRow => true,
            CommandType::DeleteColumn => true,
            CommandType::EditCell => true,
            CommandType::EditColumn => true,
            CommandType::RenameColumn => true,
            CommandType::EditRow => true,
            CommandType::EditRowMultiple => true,
            CommandType::MoveRow => true,
            CommandType::MoveColumn => true,
            CommandType::Limit => true,
            CommandType::LimitPreset => true,
            CommandType::Schema => true,
            _ => false,
        }
    }

    /// The mutating/non-mutating classification, as an explicit property of
    /// each command.
    pub fn is_history_tracked(&self) -> (r: bool)
        ensures
            r == self.spec_history_tracked(),
    {
        match self {
            CommandType::Create => true,
            CommandType::AddRow => true,
            CommandType::AddColumn => true,
            CommandType::DeleteRow => true,
            CommandType::DeleteColumn => true,
            CommandType::EditCell => true,
            CommandType::EditColumn => true,
            CommandType::RenameColumn => true,
            CommandType::EditRow => true,
            CommandType::EditRowMultiple => true,
            CommandType::MoveRow => true,
            CommandType::MoveColumn => true,
            CommandType::Limit => true,
            CommandType::LimitPreset => true,
            CommandType::Schema => true,
            _ => false,
        }
    }
}

/// A command together with its textual arguments.
#[derive(Debug)]
pub struct Command {
    pub command_type: CommandType,
    pub arguments: Vec<String>,
}

impl Default for Command {
    /// The default command prints the current table.
    fn default() -> (r: Command)
        ensures
            r.command_type == CommandType::Print,
            r.arguments@.len() == 0,
    {
        Command { command_type: CommandType::Print, arguments: Vec::new() }
    }
}

impl Command {
    /// Read a command line: the first quote-aware token names the command,
    /// the rest are its arguments.  An input without tokens is a
    /// `CommandError`.
    pub fn from_str(src: &str) -> (r: CedResult<Command>)
        ensures
            (r is Ok) == (spec_tokens_with_quote(src@).len() > 0),
            r is Ok ==> ({
                let toks = spec_tokens_with_quote(src@);
                r->Ok_0.command_type == CommandType::spec_from(lower_seq(trim_seq(toks[0])))
                    && r->Ok_0.arguments.deep_view() == toks.skip(1)
            }),
            r is Err ==> r->Err_0 is CommandError,
    {
        let tokens = tokens_with_quote(src);
        if tokens.len() == 0 {
            return Err(CedError::CommandError);
        }
        let command_type = CommandType::from_str(tokens[0].as_str());
        proof {
            assert(tokens.deep_view()[0] == tokens@[0]@);
        }
        let mut arguments: Vec<String> = Vec::new();
        let mut i: usize = 1;
        while i < tokens.len()
            invariant
                1 <= i <= tokens@.len(),
                arguments@.len() == i - 1,
                forall|j: int|
                    0 <= j < i - 1 ==> (#[trigger] arguments@[j])@ == tokens@[j + 1]@,
            decreases tokens@.len() - i,
        {
            arguments.push(tokens[i].clone());
            i = i + 1;
        }
        proof {
            assert forall|j: int| 0 <= j < arguments@.len() implies arguments.deep_view()[j]
                == tokens.deep_view().skip(1)[j] by {
                assert(arguments.deep_view()[j] == arguments@[j]@);
                assert(tokens.deep_view().skip(1)[j] == tokens@[j + 1]@);
            }
            assert(arguments.deep_view() =~= tokens.deep_view().skip(1));
        }
        Ok(Command { command_type, arguments })
    }
}

// ---------------------------------------------------------------------------
// History
// ---------------------------------------------------------------------------
/// One history entry: a full table snapshot and the command that made it.
pub struct HistoryRecord {
    pub data: VirtualData,
    pub command: CommandType,
}

impl View for HistoryRecord {
    type V = (TableModel, CommandType);

    open spec fn view(&self) -> (TableModel, CommandType) {
        (self.data@, self.command)
    }
}

impl HistoryRecord {
    /// Pair a snapshot with the command that triggered it.
    pub fn new(data: VirtualData, command: CommandType) -> (r: HistoryRecord)
        ensures
            r@ == (data@, command),
    {
        HistoryRecord { data, command }
    }
}

/// The mathematical content of a [`CommandHistory`].
#[verifier::ext_equal]
pub struct HistoryModel {
    /// The stored snapshots, oldest first.
    pub snapshots: Seq<(TableModel, CommandType)>,
    /// The current point in time: the number of snapshots not undone.
    pub cursor: int,
    /// The largest number of snapshots kept.
    pub capacity: int,
    /// The newest live state, backed up when the first undo leaves the tip.
    pub backup: Option<TableModel>,
}

/// History well-formedness: the cursor stays within the stack, the stack
/// within its capacity, and away from the tip a backup of the newest state
/// exists for redo.
pub open spec fn history_wf(h: HistoryModel) -> bool {
    &&& 0 <= h.cursor <= h.snapshots.len()
    &&& h.snapshots.len() <= h.capacity
    &&& h.cursor < h.snapshots.len() ==> h.backup is Some
}

/// What taking a snapshot does: snapshots beyond the cursor (an undone
/// branch) are discarded together with the backup, the new snapshot is
/// pushed, and when the stack would exceed its capacity the oldest entry is
/// evicted instead of advancing the cursor.
pub open spec fn spec_take_snapshot(
    h: HistoryModel,
    d: TableModel,
    c: CommandType,
) -> HistoryModel {
    let kept = h.snapshots.take(h.cursor);
    let b = if h.cursor < h.snapshots.len() {
        None
    } else {
        h.backup
    };
    if h.cursor + 1 > h.capacity {
        HistoryModel {
            snapshots: kept.push((d, c)).skip(1),
            cursor: h.cursor,
            capacity: h.capacity,
            backup: b,
        }
    } else {
        HistoryModel {
            snapshots: kept.push((d, c)),
            cursor: h.cursor + 1,
            capacity: h.capacity,
            backup: b,
        }
    }
}

/// What undo does: nothing at the beginning of time; otherwise the cursor
/// steps back and the snapshot now at the cursor is returned, backing up
/// the live state when the cursor leaves the tip.
pub open spec fn spec_undo(h: HistoryModel, current: TableModel) -> (HistoryModel, Option<
    TableModel,
>) {
    if h.cursor == 0 {
        (h, None)
    } else {
        (
            HistoryModel {
                cursor: h.cursor - 1,
                backup: if h.cursor == h.snapshots.len() {
                    Some(current)
                } else {
                    h.backup
                },
                ..h
            },
            Some(h.snapshots[h.cursor - 1].0),
        )
    }
}

/// What redo does: nothing at the tip; otherwise the cursor advances and
/// the state it now denotes is returned — the next snapshot, or the backed
/// up newest state when the cursor reaches the tip again.
pub open spec fn spec_redo(h: HistoryModel) -> (HistoryModel, Option<TableModel>) {
    if h.cursor >= h.snapshots.len() {
        (h, None)
    } else if h.cursor == h.snapshots.len() - 1 {
        (HistoryModel { cursor: h.cursor + 1, ..h }, Some(h.backup.unwrap()))
    } else {
        (HistoryModel { cursor: h.cursor + 1, ..h }, Some(h.snapshots[h.cursor + 1].0))
    }
}

/// A bounded stack of full table snapshots with undo/redo cursors.
pub struct CommandHistory {
    memento_history: Vec<HistoryRecord>,
    index: usize,
    history_capacity: usize,
    newest_snapshot: Option<VirtualData>,
}

impl View for CommandHistory {
    type V = HistoryModel;

    closed spec fn view(&self) -> HistoryModel {
        HistoryModel {
            snapshots: self.memento_history@.map_values(|r: HistoryRecord| r@),
            cursor: self.index as int,
            capacity: self.history_capacity as int,
            backup: match self.newest_snapshot {
                Some(ref d) => Some(d@),
                None => None,
            },
        }
    }
}

impl CommandHistory {
    /// An empty history with the given snapshot capacity.
    pub fn new(capacity: usize) -> (r: CommandHistory)
        ensures
            r@ == (HistoryModel {
                snapshots: Seq::empty(),
                cursor: 0,
                capacity: capacity as int,
                backup: None,
            }),
            history_wf(r@),
    {
        let r = CommandHistory {
            memento_history: Vec::new(),
            index: 0,
            history_capacity: capacity,
            newest_snapshot: None,
        };
        proof {
            assert(r@.snapshots =~= Seq::<(TableModel, CommandType)>::empty());
            assert(r@ =~= (HistoryModel {
                snapshots: Seq::empty(),
                cursor: 0,
                capacity: capacity as int,
                backup: None,
            }));
        }
        r
    }

    /// Whether no snapshot is stored.
    pub fn is_empty(&self) -> (r: bool)
        ensures
            r == (self@.snapshots.len() == 0),
    {
        self.memento_history.len() == 0
    }

    /// Whether no undo is outstanding: the cursor is at the tip.
    pub fn is_newest(&self) -> (r: bool)
        ensures
            r == (self@.cursor >= self@.snapshots.len()),
    {
        self.index >= self.memento_history.len()
    }

    /// The commands of the stored snapshots, oldest first.
    pub fn command_list(&self) -> (r: Vec<CommandType>)
        ensures
            r@.len() == self@.snapshots.len(),
            forall|i: int| 0 <= i < r@.len() ==> r@[i] == self@.snapshots[i].1,
    {
        let mut out: Vec<CommandType> = Vec::new();
        let mut i: usize = 0;
        while i < self.memento_history.len()
            invariant
                i <= self.memento_history@.len(),
                self@.snapshots.len() == self.memento_history@.len(),
                out@.len() == i,
                forall|j: int| 0 <= j < i ==> out@[j] == self@.snapshots[j].1,
            decreases self.memento_history@.len() - i,
        {
            proof {
                assert(self@.snapshots[i as int] == self.memento_history@[i as int]@);
            }
            out.push(self.memento_history[i].command);
            i = i + 1;
        }
        out
    }

    /// Record a snapshot of the current table before a mutating command,
    /// exactly as [`spec_take_snapshot`] says.
    pub fn take_snapshot(&mut self, data: &VirtualData, command: CommandType)
        requires
            history_wf(old(self)@),
        ensures
            history_wf(final(self)@),
            final(self)@ == spec_take_snapshot(old(self)@, data@, command),
    {
        if self.index < self.memento_history.len() {
            self.memento_history.truncate(self.index);
            self.newest_snapshot = None;
            proof {
                assert(self@.snapshots =~= old(self)@.snapshots.take(old(self)@.cursor));
            }
        } else {
            proof {
                assert(self@.snapshots =~= old(self)@.snapshots.take(old(self)@.cursor));
            }
        }
        self.memento_history.push(HistoryRecord::new(data.duplicate(), command));
        if self.memento_history.len() > self.history_capacity {
            self.memento_history.remove(0);
            proof {
                assert(final(self)@.snapshots =~= old(self)@.snapshots.take(
                    old(self)@.cursor,
                ).push((data@, command)).skip(1));
                assert(final(self)@ =~= spec_take_snapshot(old(self)@, data@, command));
            }
        } else {
            self.index = self.index + 1;
            proof {
                assert(final(self)@.snapshots =~= old(self)@.snapshots.take(
                    old(self)@.cursor,
                ).push((data@, command)));
                assert(final(self)@ =~= spec_take_snapshot(old(self)@, data@, command));
            }
        }
    }

    /// Step back one command, exactly as [`spec_undo`] says: the returned
    /// table is the state just before the undone command, and the caller's
    /// live table (passed in as `current`) is backed up for redo when the
    /// cursor leaves the tip.
    pub fn undo(&mut self, current: &VirtualData) -> (r: Option<VirtualData>)
        requires
            history_wf(old(self)@),
        ensures
            history_wf(final(self)@),
            final(self)@ == spec_undo(old(self)@, current@).0,
            (r is Some) == (spec_undo(old(self)@, current@).1 is Some),
            r is Some ==> r.unwrap()@ == spec_undo(old(self)@, current@).1.unwrap(),
    {
        if self.index == 0 {
            return Option::None;
        }
        if self.index == self.memento_history.len() {
            self.newest_snapshot = Some(current.duplicate());
        }
        self.index = self.index - 1;
        proof {
            assert(self@.snapshots[self.index as int] == self.memento_history@[self.index
                as int]@);
            assert(final(self)@ =~= spec_undo(old(self)@, current@).0);
        }
        Some(self.memento_history[self.index].data.duplicate())
    }

    /// Step forward one undone command, exactly as [`spec_redo`] says.
    pub fn redo(&mut self) -> (r: Option<VirtualData>)
        requires
            history_wf(old(self)@),
        ensures
            history_wf(final(self)@),
            final(self)@ == spec_redo(old(self)@).0,
            (r is Some) == (spec_redo(old(self)@).1 is Some),
            r is Some ==> r.unwrap()@ == spec_redo(old(self)@).1.unwrap(),
    {
        if self.index >= self.memento_history.len() {
            return Option::None;
        }
        self.index = self.index + 1;
        if self.index == self.memento_history.len() {
            let backup = match &self.newest_snapshot {
                Some(d) => d.duplicate(),
                None => {
                    // away from the tip a backup always exists (history_wf)
                    proof {
                        assert(false);
                    }
                    VirtualData::new()
                },
            };
            proof {
                assert(final(self)@ =~= spec_redo(old(self)@).0);
            }
            Some(backup)
        } else {
            proof {
                assert(self@.snapshots[self.index as int] == self.memento_history@[self.index
                    as int]@);
                assert(final(self)@ =~= spec_redo(old(self)@).0);
            }
            Some(self.memento_history[self.index].data.duplicate())
        }
    }
}

// ---------------------------------------------------------------------------
// History laws
// ---------------------------------------------------------------------------
/// Branch discard: whatever was undone, taking a new snapshot forecloses
/// redo — after any snapshot the cursor is at the tip, so redo returns
/// nothing.  In particular, after undoing one of several edits and making a
/// new edit, the undone edit is unreachable.
pub proof fn lemma_snapshot_forecloses_redo(h: HistoryModel, d: TableModel, c: CommandType)
    requires
        history_wf(h),
    ensures
        spec_take_snapshot(h, d, c).cursor == spec_take_snapshot(h, d, c).snapshots.len(),
        spec_redo(spec_take_snapshot(h, d, c)).1 is None,
{
}

/// Branch discard, spelled with the undo in front: an undo followed by a
/// new snapshot leaves nothing to redo.
pub proof fn lemma_undo_snapshot_redo(
    h: HistoryModel,
    current: TableModel,
    d: TableModel,
    c: CommandType,
)
    requires
        history_wf(h),
        h.cursor > 0,
    ensures
        spec_redo(spec_take_snapshot(spec_undo(h, current).0, d, c)).1 is None,
{
    let h1 = spec_undo(h, current).0;
    assert(history_wf(h1));
    lemma_snapshot_forecloses_redo(h1, d, c);
}

/// Bounded capacity: a snapshot taken at the tip of a full history evicts
/// the oldest snapshot and keeps the count at the capacity; the number of
/// undo steps available equals that count.
pub proof fn lemma_capacity_evicts(h: HistoryModel, d: TableModel, c: CommandType)
    requires
        history_wf(h),
        h.cursor == h.snapshots.len(),
        h.snapshots.len() == h.capacity,
        h.capacity > 0,
    ensures
        spec_take_snapshot(h, d, c).snapshots.len() == h.capacity,
        spec_take_snapshot(h, d, c).snapshots =~= h.snapshots.skip(1).push((d, c)),
        spec_take_snapshot(h, d, c).cursor == h.capacity,
{
    let h2 = spec_take_snapshot(h, d, c);
    assert(h.snapshots.take(h.cursor) =~= h.snapshots);
    assert(h2.snapshots =~= h.snapshots.push((d, c)).skip(1));
    assert(h.snapshots.push((d, c)).skip(1) =~= h.snapshots.skip(1).push((d, c)));
}

/// Below capacity, a snapshot taken at the tip keeps every stored snapshot
/// and appends the new one.
pub proof fn lemma_snapshot_appends(h: HistoryModel, d: TableModel, c: CommandType)
    requires
        history_wf(h),
        h.cursor == h.snapshots.len(),
        h.snapshots.len() < h.capacity,
    ensures
        spec_take_snapshot(h, d, c).snapshots =~= h.snapshots.push((d, c)),
        spec_take_snapshot(h, d, c).cursor == h.cursor + 1,
{
    assert(h.snapshots.take(h.cursor) =~= h.snapshots);
}

} // verus!

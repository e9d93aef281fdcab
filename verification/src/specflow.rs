//! The spec board: islands (feature containers) holding rows of the
//! spec | task | eval grid, and wires between islands. The board keeps its
//! records in memory; the caller persists them.

use vstd::prelude::*;
use crate::text::{clone_strings, contains_str, str_eq, views};
use crate::run_state::{clone_opt, opt_view};

verus! {

/// Progress of the task column of a board row.
#[derive(Debug, Clone, Copy, PartialEq, Eq, Structural)]
pub enum TaskStatus {
    Todo,
    Doing,
    Done,
    Blocked,
    Deleted,
}

impl TaskStatus {
    /// The name under which the value is stored.
    pub open spec fn name(self) -> Seq<char> {
        match self {
            TaskStatus::Todo => "todo"@,
            TaskStatus::Doing => "doing"@,
            TaskStatus::Done => "done"@,
            TaskStatus::Blocked => "blocked"@,
            TaskStatus::Deleted => "deleted"@,
        }
    }

    /// The value stored under the name `s`; any other name reads as `Todo`.
    pub open spec fn parse(s: Seq<char>) -> TaskStatus {
        if s == "doing"@ {
            TaskStatus::Doing
        } else if s == "done"@ {
            TaskStatus::Done
        } else if s == "blocked"@ {
            TaskStatus::Blocked
        } else if s == "deleted"@ {
            TaskStatus::Deleted
        } else {
            TaskStatus::Todo
        }
    }

    pub fn as_str(&self) -> (r: &'static str)
        ensures
            r@ == self.name(),
    {
        match self {
            TaskStatus::Todo => "todo",
            TaskStatus::Doing => "doing",
            TaskStatus::Done => "done",
            TaskStatus::Blocked => "blocked",
            TaskStatus::Deleted => "deleted",
        }
    }

    pub fn from_str(s: &str) -> (r: TaskStatus)
        ensures
            r == TaskStatus::parse(s@),
    {
        if str_eq(s, "doing") {
            TaskStatus::Doing
        } else if str_eq(s, "done") {
            TaskStatus::Done
        } else if str_eq(s, "blocked") {
            TaskStatus::Blocked
        } else if str_eq(s, "deleted") {
            TaskStatus::Deleted
        } else {
            TaskStatus::Todo
        }
    }
}

/// Reading back the stored name of any `TaskStatus` gives the same value.
pub proof fn lemma_task_status_name_round_trip(x: TaskStatus)
    ensures
        TaskStatus::parse(x.name()) == x,
{
    reveal_strlit("todo");
    reveal_strlit("doing");
    reveal_strlit("done");
    reveal_strlit("blocked");
    reveal_strlit("deleted");
    assert("todo"@ =~= seq!['t', 'o', 'd', 'o']);
    assert("doing"@ =~= seq!['d', 'o', 'i', 'n', 'g']);
    assert("done"@ =~= seq!['d', 'o', 'n', 'e']);
    assert("blocked"@ =~= seq!['b', 'l', 'o', 'c', 'k', 'e', 'd']);
    assert("deleted"@ =~= seq!['d', 'e', 'l', 'e', 't', 'e', 'd']);
}

/// Review state of the spec column of a board row.
#[derive(Debug, Clone, Copy, PartialEq, Eq, Structural)]
pub enum SpecStatus {
    Draft,
    Approved,
}

impl SpecStatus {
    /// The name under which the value is stored.
    pub open spec fn name(self) -> Seq<char> {
        match self {
            SpecStatus::Draft => "draft"@,
            SpecStatus::Approved => "approved"@,
        }
    }

    /// The value stored under the name `s`; any other name reads as `Draft`.
    pub open spec fn parse(s: Seq<char>) -> SpecStatus {
        if s == "approved"@ {
            SpecStatus::Approved
        } else {
            SpecStatus::Draft
        }
    }

    pub fn as_str(&self) -> (r: &'static str)
        ensures
            r@ == self.name(),
    {
        match self {
            SpecStatus::Draft => "draft",
            SpecStatus::Approved => "approved",
        }
    }

    pub fn from_str(s: &str) -> (r: SpecStatus)
        ensures
            r == SpecStatus::parse(s@),
    {
        if str_eq(s, "approved") {
            SpecStatus::Approved
        } else {
            SpecStatus::Draft
        }
    }
}

/// Reading back the stored name of any `SpecStatus` gives the same value.
pub proof fn lemma_spec_status_name_round_trip(x: SpecStatus)
    ensures
        SpecStatus::parse(x.name()) == x,
{
    reveal_strlit("draft");
    reveal_strlit("approved");
    assert("draft"@ =~= seq!['d', 'r', 'a', 'f', 't']);
    assert("approved"@ =~= seq!['a', 'p', 'p', 'r', 'o', 'v', 'e', 'd']);
}

/// Outcome of the eval column of a board row.
#[derive(Debug, Clone, Copy, PartialEq, Eq, Structural)]
pub enum RowEvalStatus {
    Pending,
    Pass,
    Fail,
}

impl RowEvalStatus {
    /// The name under which the value is stored.
    pub open spec fn name(self) -> Seq<char> {
        match self {
            RowEvalStatus::Pending => "pending"@,
            RowEvalStatus::Pass => "pass"@,
            RowEvalStatus::Fail => "fail"@,
        }
    }

    /// The value stored under the name `s`; any other name reads as `Pending`.
    pub open spec fn parse(s: Seq<char>) -> RowEvalStatus {
        if s == "pass"@ {
            RowEvalStatus::Pass
        } else if s == "fail"@ {
            RowEvalStatus::Fail
        } else {
            RowEvalStatus::Pending
        }
    }

    pub fn as_str(&self) -> (r: &'static str)
        ensures
            r@ == self.name(),
    {
        match self {
            RowEvalStatus::Pending => "pending",
            RowEvalStatus::Pass => "pass",
            RowEvalStatus::Fail => "fail",
        }
    }

    pub fn from_str(s: &str) -> (r: RowEvalStatus)
        ensures
            r == RowEvalStatus::parse(s@),
    {
        if str_eq(s, "pass") {
            RowEvalStatus::Pass
        } else if str_eq(s, "fail") {
            RowEvalStatus::Fail
        } else {
            RowEvalStatus::Pending
        }
    }
}

/// Reading back the stored name of any `RowEvalStatus` gives the same value.
pub proof fn lemma_row_eval_status_name_round_trip(x: RowEvalStatus)
    ensures
        RowEvalStatus::parse(x.name()) == x,
{
    reveal_strlit("pending");
    reveal_strlit("pass");
    reveal_strlit("fail");
    assert("pending"@ =~= seq!['p', 'e', 'n', 'd', 'i', 'n', 'g']);
    assert("pass"@ =~= seq!['p', 'a', 's', 's']);
    assert("fail"@ =~= seq!['f', 'a', 'i', 'l']);
}

/// A row of an island's spec | task | eval grid.
#[derive(Debug)]
pub struct Row {
    pub id: String,
    pub island_id: String,
    pub position: i32,
    pub spec_content: Option<String>,
    pub spec_status: SpecStatus,
    pub task_title: Option<String>,
    pub task_description: Option<String>,
    pub task_status: TaskStatus,
    pub task_worker: Option<String>,
    /// Ids of the rows whose tasks this row's task waits for.
    pub task_blocked_by: Vec<String>,
    pub eval_criterion: Option<String>,
    pub eval_status: RowEvalStatus,
    pub eval_result: Option<String>,
    pub dispatched: bool,
    pub run_name: Option<String>,
    pub created_at: String,
    pub updated_at: String,
}

/// The contents of a row.
pub struct RowView {
    pub id: Seq<char>,
    pub island_id: Seq<char>,
    pub position: i32,
    pub spec_content: Option<Seq<char>>,
    pub spec_status: SpecStatus,
    pub task_title: Option<Seq<char>>,
    pub task_description: Option<Seq<char>>,
    pub task_status: TaskStatus,
    pub task_worker: Option<Seq<char>>,
    pub task_blocked_by: Seq<Seq<char>>,
    pub eval_criterion: Option<Seq<char>>,
    pub eval_status: RowEvalStatus,
    pub eval_result: Option<Seq<char>>,
    pub dispatched: bool,
    pub run_name: Option<Seq<char>>,
    pub created_at: Seq<char>,
    pub updated_at: Seq<char>,
}

impl View for Row {
    type V = RowView;

    open spec fn view(&self) -> RowView {
        RowView {
            id: self.id@,
            island_id: self.island_id@,
            position: self.position,
            spec_content: opt_view(self.spec_content),
            spec_status: self.spec_status,
            task_title: opt_view(self.task_title),
            task_description: opt_view(self.task_description),
            task_status: self.task_status,
            task_worker: opt_view(self.task_worker),
            task_blocked_by: views(self.task_blocked_by@),
            eval_criterion: opt_view(self.eval_criterion),
            eval_status: self.eval_status,
            eval_result: opt_view(self.eval_result),
            dispatched: self.dispatched,
            run_name: opt_view(self.run_name),
            created_at: self.created_at@,
            updated_at: self.updated_at@,
        }
    }
}

impl Clone for Row {
    fn clone(&self) -> (r: Self)
        ensures
            r@ == self@,
    {
        Row {
            id: self.id.clone(),
            island_id: self.island_id.clone(),
            position: self.position,
            spec_content: clone_opt(&self.spec_content),
            spec_status: self.spec_status,
            task_title: clone_opt(&self.task_title),
            task_description: clone_opt(&self.task_description),
            task_status: self.task_status,
            task_worker: clone_opt(&self.task_worker),
            task_blocked_by: clone_strings(self.task_blocked_by.as_slice()),
            eval_criterion: clone_opt(&self.eval_criterion),
            eval_status: self.eval_status,
            eval_result: clone_opt(&self.eval_result),
            dispatched: self.dispatched,
            run_name: clone_opt(&self.run_name),
            created_at: self.created_at.clone(),
            updated_at: self.updated_at.clone(),
        }
    }
}

/// The contents of a sequence of rows.
pub open spec fn row_views(rows: Seq<Row>) -> Seq<RowView> {
    rows.map_values(|r: Row| r@)
}

/// Where an island sits on the canvas: its `x` and `y` and its `width`, each
/// the bit pattern of the `f64` the canvas uses (`f64::to_bits`). The board
/// stores them as given and orders islands by them; it does no arithmetic on
/// them.
#[derive(Debug, Clone, Copy, PartialEq, Eq, Structural)]
pub struct Placement {
    pub x: u64,
    pub y: u64,
    pub width: u64,
}

/// The parts of a placement that an update replaces: each that is `Some`.
#[derive(Debug, Clone, Copy, PartialEq, Eq, Structural)]
pub struct PlacementUpdate {
    pub x: Option<u64>,
    pub y: Option<u64>,
    pub width: Option<u64>,
}

/// A feature container on the board. Its grid rows are filled in when the
/// island is read; the board keeps the rows apart.
#[derive(Debug)]
pub struct Island {
    pub id: String,
    pub name: String,
    pub placement: Placement,
    pub collapsed: bool,
    pub summary: Option<String>,
    pub rows: Vec<Row>,
    pub created_at: String,
    pub updated_at: String,
}

/// The contents of an island.
pub struct IslandView {
    pub id: Seq<char>,
    pub name: Seq<char>,
    pub placement: Placement,
    pub collapsed: bool,
    pub summary: Option<Seq<char>>,
    pub rows: Seq<RowView>,
    pub created_at: Seq<char>,
    pub updated_at: Seq<char>,
}

impl View for Island {
    type V = IslandView;

    open spec fn view(&self) -> IslandView {
        IslandView {
            id: self.id@,
            name: self.name@,
            placement: self.placement,
            collapsed: self.collapsed,
            summary: opt_view(self.summary),
            rows: row_views(self.rows@),
            created_at: self.created_at@,
            updated_at: self.updated_at@,
        }
    }
}

/// The status an island shows for its rows: `draft` while no row was
/// dispatched, `partial` while only some were, `done` once all were and all
/// their tasks are done, `dispatched` otherwise.
pub open spec fn island_status(rows: Seq<RowView>) -> Seq<char> {
    if forall|i: int| 0 <= i < rows.len() ==> !(#[trigger] rows[i]).dispatched {
        "draft"@
    } else if exists|i: int| 0 <= i < rows.len() && !(#[trigger] rows[i]).dispatched {
        "partial"@
    } else if forall|i: int| 0 <= i < rows.len() ==> (#[trigger] rows[i]).task_status == TaskStatus::Done {
        "done"@
    } else {
        "dispatched"@
    }
}

impl Island {
    /// The island's status, computed from its rows.
    pub fn computed_status(&self) -> (r: &'static str)
        ensures
            r@ == island_status(self@.rows),
    {
        let mut any_dispatched = false;
        let mut all_dispatched = true;
        let mut all_done = true;
        let mut i: usize = 0;
        while i < self.rows.len()
            invariant
                i <= self.rows.len(),
                any_dispatched == exists|j: int| 0 <= j < i && (#[trigger] self@.rows[j]).dispatched,
                all_dispatched == forall|j: int| 0 <= j < i ==> (#[trigger] self@.rows[j]).dispatched,
                all_done == forall|j: int| 0 <= j < i && (#[trigger] self@.rows[j]).dispatched
                    ==> self@.rows[j].task_status == TaskStatus::Done,
            decreases self.rows.len() - i,
        {
            assert(self@.rows[i as int] == self.rows@[i as int]@);
            if self.rows[i].dispatched {
                any_dispatched = true;
                if self.rows[i].task_status != TaskStatus::Done {
                    all_done = false;
                }
            } else {
                all_dispatched = false;
            }
            i = i + 1;
        }
        assert(self@.rows.len() == self.rows.len());
        if !any_dispatched {
            "draft"
        } else if !all_dispatched {
            "partial"
        } else if all_done {
            "done"
        } else {
            "dispatched"
        }
    }
}

/// An island shows `done` only when it has rows, every row is dispatched
/// and every row's task is done; with every row dispatched, one task that is
/// not done makes it show `dispatched`, and all tasks done make it show
/// `done`. With no row dispatched it shows `draft`, with some but not all
/// `partial`.
pub proof fn lemma_island_done_needs_every_task(rows: Seq<RowView>)
    ensures
        island_status(rows) == "done"@ ==> rows.len() > 0 && forall|i: int| 0 <= i < rows.len()
            ==> (#[trigger] rows[i]).dispatched && rows[i].task_status == TaskStatus::Done,
        rows.len() > 0 && (forall|i: int| 0 <= i < rows.len() ==> (#[trigger] rows[i]).dispatched)
            && (exists|i: int| 0 <= i < rows.len() && (#[trigger] rows[i]).task_status != TaskStatus::Done)
            ==> island_status(rows) == "dispatched"@,
        rows.len() > 0 && (forall|i: int| 0 <= i < rows.len()
            ==> (#[trigger] rows[i]).dispatched && rows[i].task_status == TaskStatus::Done)
            ==> island_status(rows) == "done"@,
        (forall|i: int| 0 <= i < rows.len() ==> !(#[trigger] rows[i]).dispatched) ==> island_status(rows) == "draft"@,
        (exists|i: int| 0 <= i < rows.len() && (#[trigger] rows[i]).dispatched)
            && (exists|i: int| 0 <= i < rows.len() && !(#[trigger] rows[i]).dispatched)
            ==> island_status(rows) == "partial"@,
{
    reveal_strlit("done");
    reveal_strlit("dispatched");
    reveal_strlit("draft");
    reveal_strlit("partial");
    assert("done"@ != "dispatched"@ && "done"@ != "draft"@ && "done"@ != "partial"@) by {
        assert("done"@.len() != "dispatched"@.len());
        assert("done"@[1] != "draft"@[1]);
        assert("done"@.len() != "partial"@.len());
    }
    if rows.len() > 0 && (forall|i: int| 0 <= i < rows.len() ==> (#[trigger] rows[i]).dispatched) {
        assert(rows[0].dispatched);
    }
    if island_status(rows) == "done"@ {
        if rows.len() == 0 {
            assert(island_status(rows) == "draft"@);
        }
        assert forall|i: int| 0 <= i < rows.len() implies (#[trigger] rows[i]).dispatched by {
            if !rows[i].dispatched {
                if forall|q: int| 0 <= q < rows.len() ==> !(#[trigger] rows[q]).dispatched {
                    assert(island_status(rows) == "draft"@);
                } else {
                    assert(island_status(rows) == "partial"@);
                }
            }
        }
        assert forall|i: int| 0 <= i < rows.len() implies (#[trigger] rows[i]).task_status == TaskStatus::Done by {
            if rows[i].task_status != TaskStatus::Done {
                assert(rows.len() > 0);
                assert(rows[0].dispatched);
                assert(!(forall|q: int| 0 <= q < rows.len() ==> !(#[trigger] rows[q]).dispatched));
                assert(!(exists|q: int| 0 <= q < rows.len() && !(#[trigger] rows[q]).dispatched));
                assert(!(forall|q: int| 0 <= q < rows.len() ==> (#[trigger] rows[q]).task_status == TaskStatus::Done));
                assert(island_status(rows) == "dispatched"@);
            }
        }
    }
}

/// A dependency wire from one island to another.
#[derive(Debug)]
pub struct Wire {
    pub id: String,
    pub from_island_id: String,
    pub to_island_id: String,
    pub created_at: String,
}

/// The contents of a wire.
pub struct WireView {
    pub id: Seq<char>,
    pub from_island_id: Seq<char>,
    pub to_island_id: Seq<char>,
    pub created_at: Seq<char>,
}

impl View for Wire {
    type V = WireView;

    open spec fn view(&self) -> WireView {
        WireView {
            id: self.id@,
            from_island_id: self.from_island_id@,
            to_island_id: self.to_island_id@,
            created_at: self.created_at@,
        }
    }
}

impl Clone for Wire {
    fn clone(&self) -> (r: Self)
        ensures
            r@ == self@,
    {
        Wire {
            id: self.id.clone(),
            from_island_id: self.from_island_id.clone(),
            to_island_id: self.to_island_id.clone(),
            created_at: self.created_at.clone(),
        }
    }
}

/// A request to add a row to an island, at `position` or after the last row.
#[derive(Debug)]
pub struct CreateRowRequest {
    pub island_id: String,
    pub position: Option<i32>,
}

/// A request to change a row: each field that is `Some` replaces the row's.
#[derive(Debug)]
pub struct UpdateRowRequest {
    pub spec_content: Option<String>,
    pub spec_status: Option<SpecStatus>,
    pub task_title: Option<String>,
    pub task_description: Option<String>,
    pub task_status: Option<TaskStatus>,
    pub task_worker: Option<String>,
    pub task_blocked_by: Option<Vec<String>>,
    pub eval_criterion: Option<String>,
    pub eval_status: Option<RowEvalStatus>,
    pub eval_result: Option<String>,
}

impl Default for UpdateRowRequest {
    fn default() -> (r: Self)
        ensures
            r.spec_content is None && r.spec_status is None && r.task_title is None
                && r.task_description is None && r.task_status is None && r.task_worker is None
                && r.task_blocked_by is None && r.eval_criterion is None && r.eval_status is None
                && r.eval_result is None,
    {
        UpdateRowRequest {
            spec_content: None,
            spec_status: None,
            task_title: None,
            task_description: None,
            task_status: None,
            task_worker: None,
            task_blocked_by: None,
            eval_criterion: None,
            eval_status: None,
            eval_result: None,
        }
    }
}

/// The outcome of dispatching board rows to a run.
#[derive(Debug)]
pub enum DispatchResult {
    Success { run_name: String },
    Warning { message: String, row_ids: Vec<String> },
}

/// A task handed to a new run, taken from a board row.
#[derive(Debug)]
pub struct InitialTask {
    pub title: String,
    pub description: Option<String>,
    pub source_island: String,
    pub source_row_id: String,
    pub blocked_by: Vec<String>,
}

/// Why a board operation failed.
#[derive(Debug)]
pub enum SpecFlowError {
    /// A store constraint refused the change; the text names it.
    Database(String),
    IslandNotFound(String),
    RowNotFound(String),
    WireNotFound(String),
}

/// Whether a row with id `id` is among `rs`.
pub open spec fn has_row(rs: Seq<RowView>, id: Seq<char>) -> bool {
    exists|i: int| 0 <= i < rs.len() && (#[trigger] rs[i]).id == id
}

/// The position of the row `id` among `rs`.
pub open spec fn row_index(rs: Seq<RowView>, id: Seq<char>) -> int {
    choose|i: int| 0 <= i < rs.len() && (#[trigger] rs[i]).id == id
}

/// Whether an island with id `id` is among `is`.
pub open spec fn has_island(is: Seq<IslandView>, id: Seq<char>) -> bool {
    exists|i: int| 0 <= i < is.len() && (#[trigger] is[i]).id == id
}

/// The position of the island `id` among `is`.
pub open spec fn island_index(is: Seq<IslandView>, id: Seq<char>) -> int {
    choose|i: int| 0 <= i < is.len() && (#[trigger] is[i]).id == id
}

/// Whether a wire with id `id` is among `ws`.
pub open spec fn has_wire(ws: Seq<WireView>, id: Seq<char>) -> bool {
    exists|i: int| 0 <= i < ws.len() && (#[trigger] ws[i]).id == id
}

/// The position of the wire `id` among `ws`.
pub open spec fn wire_index(ws: Seq<WireView>, id: Seq<char>) -> int {
    choose|i: int| 0 <= i < ws.len() && (#[trigger] ws[i]).id == id
}

/// Whether a wire already runs from `from` to `to`.
pub open spec fn has_link(ws: Seq<WireView>, from: Seq<char>, to: Seq<char>) -> bool {
    exists|i: int| 0 <= i < ws.len() && (#[trigger] ws[i]).from_island_id == from && ws[i].to_island_id == to
}

/// Whether a row belongs to the island `id`.
pub open spec fn in_island(id: Seq<char>) -> spec_fn(RowView) -> bool {
    |r: RowView| r.island_id == id
}

/// The rows of the island `id`, in board order.
pub open spec fn island_rows(rs: Seq<RowView>, id: Seq<char>) -> Seq<RowView> {
    rs.filter(in_island(id))
}

/// Rows in ascending order of position.
pub open spec fn by_position(rs: Seq<RowView>) -> bool {
    forall|i: int, j: int| 0 <= i <= j < rs.len() ==> (#[trigger] rs[i]).position <= (#[trigger] rs[j]).position
}

/// The rows of the island `id` as a read returns them: all of them, each
/// once, in ascending order of position.
pub open spec fn listed_rows(rs: Seq<RowView>, id: Seq<char>, out: Seq<RowView>) -> bool {
    &&& by_position(out)
    &&& out.to_multiset() == island_rows(rs, id).to_multiset()
}

/// The spec board of one project: its islands, their grid rows and the wires
/// between islands. Islands are kept without their rows.
#[derive(Debug)]
pub struct SpecBoard {
    pub project_id: i64,
    pub islands: Vec<Island>,
    pub rows: Vec<Row>,
    pub wires: Vec<Wire>,
}

/// The contents of a board.
pub struct BoardView {
    pub project_id: i64,
    pub islands: Seq<IslandView>,
    pub rows: Seq<RowView>,
    pub wires: Seq<WireView>,
}

impl View for SpecBoard {
    type V = BoardView;

    open spec fn view(&self) -> BoardView {
        BoardView {
            project_id: self.project_id,
            islands: self.islands@.map_values(|i: Island| i@),
            rows: row_views(self.rows@),
            wires: self.wires@.map_values(|w: Wire| w@),
        }
    }
}

/// The board's records are consistent, as the store's keys ensure: ids are
/// unique, every row belongs to an island, every wire joins two islands, no
/// two wires join the same pair, and stored islands carry no rows.
pub open spec fn board_wf(b: BoardView) -> bool {
    &&& forall|i: int, j: int| 0 <= i < j < b.islands.len() ==> (#[trigger] b.islands[i]).id != (#[trigger] b.islands[j]).id
    &&& forall|i: int, j: int| 0 <= i < j < b.rows.len() ==> (#[trigger] b.rows[i]).id != (#[trigger] b.rows[j]).id
    &&& forall|i: int, j: int| 0 <= i < j < b.wires.len() ==> (#[trigger] b.wires[i]).id != (#[trigger] b.wires[j]).id
    &&& forall|i: int, j: int| 0 <= i < j < b.wires.len() ==>
        !((#[trigger] b.wires[i]).from_island_id == (#[trigger] b.wires[j]).from_island_id
            && b.wires[i].to_island_id == b.wires[j].to_island_id)
    &&& forall|i: int| 0 <= i < b.rows.len() ==> has_island(b.islands, (#[trigger] b.rows[i]).island_id)
    &&& forall|i: int| 0 <= i < b.wires.len() ==> has_island(b.islands, (#[trigger] b.wires[i]).from_island_id)
        && has_island(b.islands, b.wires[i].to_island_id)
    &&& forall|i: int| 0 <= i < b.islands.len() ==> (#[trigger] b.islands[i]).rows.len() == 0
}

/// The island `id` as a new record: expanded, with no summary and no rows.
pub open spec fn new_island(id: Seq<char>, name: Seq<char>, placement: Placement, now: Seq<char>) -> IslandView {
    IslandView {
        id,
        name,
        placement,
        collapsed: false,
        summary: None,
        rows: Seq::empty(),
        created_at: now,
        updated_at: now,
    }
}

/// The island record `stored` as a read returns it, with the rows `rows`.
pub open spec fn with_rows(stored: IslandView, rows: Seq<RowView>) -> IslandView {
    IslandView { rows, ..stored }
}

/// The text of the store's refusal of a second island with an existing id.
pub open spec fn island_key_taken() -> Seq<char> {
    "UNIQUE constraint failed: board_islands.id"@
}

impl SpecBoard {
    /// The board's records are consistent.
    pub open spec fn wf(&self) -> bool {
        board_wf(self@)
    }

    /// An empty board for the project `project_id`.
    pub fn new(project_id: i64) -> (b: SpecBoard)
        ensures
            b.wf(),
            b@.project_id == project_id,
            b@.islands.len() == 0,
            b@.rows.len() == 0,
            b@.wires.len() == 0,
    {
        SpecBoard { project_id, islands: Vec::new(), rows: Vec::new(), wires: Vec::new() }
    }

    /// The project the board belongs to.
    pub fn project_id(&self) -> (r: i64)
        ensures
            r == self.project_id,
    {
        self.project_id
    }

    /// The position of the island `id`, if there is one.
    pub fn find_island(&self, id: &str) -> (r: Option<usize>)
        ensures
            match r {
                Some(i) => i < self@.islands.len() && self@.islands[i as int].id == id@,
                None => !has_island(self@.islands, id@),
            },
    {
        let mut i: usize = 0;
        while i < self.islands.len()
            invariant
                i <= self.islands.len(),
                forall|j: int| 0 <= j < i ==> (#[trigger] self@.islands[j]).id != id@,
            decreases self.islands.len() - i,
        {
            assert(self@.islands[i as int] == self.islands@[i as int]@);
            if str_eq(self.islands[i].id.as_str(), id) {
                return Some(i);
            }
            i = i + 1;
        }
        None
    }

    /// The position of the row `id`, if there is one.
    pub fn find_row(&self, id: &str) -> (r: Option<usize>)
        ensures
            match r {
                Some(i) => i < self@.rows.len() && self@.rows[i as int].id == id@,
                None => !has_row(self@.rows, id@),
            },
    {
        let mut i: usize = 0;
        while i < self.rows.len()
            invariant
                i <= self.rows.len(),
                forall|j: int| 0 <= j < i ==> (#[trigger] self@.rows[j]).id != id@,
            decreases self.rows.len() - i,
        {
            assert(self@.rows[i as int] == self.rows@[i as int]@);
            if str_eq(self.rows[i].id.as_str(), id) {
                return Some(i);
            }
            i = i + 1;
        }
        None
    }

    /// The position of the wire `id`, if there is one.
    pub fn find_wire(&self, id: &str) -> (r: Option<usize>)
        ensures
            match r {
                Some(i) => i < self@.wires.len() && self@.wires[i as int].id == id@,
                None => !has_wire(self@.wires, id@),
            },
    {
        let mut i: usize = 0;
        while i < self.wires.len()
            invariant
                i <= self.wires.len(),
                forall|j: int| 0 <= j < i ==> (#[trigger] self@.wires[j]).id != id@,
            decreases self.wires.len() - i,
        {
            assert(self@.wires[i as int] == self.wires@[i as int]@);
            if str_eq(self.wires[i].id.as_str(), id) {
                return Some(i);
            }
            i = i + 1;
        }
        None
    }

    /// The rows of the island `island_id`, in ascending order of position.
    pub fn rows_for_island(&self, island_id: &str) -> (out: Vec<Row>)
        ensures
            listed_rows(self@.rows, island_id@, row_views(out@)),
    {
        let ghost id = island_id@;
        let ghost rs = self@.rows;
        let mut out: Vec<Row> = Vec::new();
        let mut i: usize = 0;
        proof {
            assert(row_views(out@) =~= Seq::<RowView>::empty());
            assert(rs.take(0) =~= Seq::<RowView>::empty());
            reveal(Seq::filter);
            assert(island_rows(rs.take(0), id) =~= Seq::<RowView>::empty());
        }
        while i < self.rows.len()
            invariant
                i <= self.rows.len(),
                id == island_id@,
                rs == self@.rows,
                rs.len() == self.rows.len(),
                by_position(row_views(out@)),
                row_views(out@).to_multiset() == island_rows(rs.take(i as int), id).to_multiset(),
            decreases self.rows.len() - i,
        {
            assert(rs[i as int] == self.rows@[i as int]@);
            assert(rs.take(i as int + 1) =~= rs.take(i as int).push(rs[i as int]));
            proof { rs.take(i as int).lemma_filter_push(rs[i as int], in_island(id)); }
            if str_eq(self.rows[i].island_id.as_str(), island_id) {
                let x = self.rows[i].clone();
                let pos = x.position;
                let mut k: usize = 0;
                while k < out.len() && out[k].position <= pos
                    invariant
                        k <= out.len(),
                        forall|j: int| 0 <= j < k ==> (#[trigger] row_views(out@)[j]).position <= pos,
                    decreases out.len() - k,
                {
                    assert(row_views(out@)[k as int] == out@[k as int]@);
                    k = k + 1;
                }
                let ghost before = out@;
                out.insert(k, x);
                proof {
                    assert(row_views(out@) =~= row_views(before).insert(k as int, x@));
                    vstd::seq_lib::to_multiset_insert(row_views(before), k as int, x@);
                    vstd::seq_lib::to_multiset_build(island_rows(rs.take(i as int), id), rs[i as int]);
                    let vs = row_views(out@);
                    let bs = row_views(before);
                    assert(k < before.len() ==> bs[k as int].position > pos);
                    assert forall|a: int, c: int| 0 <= a <= c < vs.len() implies (#[trigger] vs[a]).position <= (#[trigger] vs[c]).position by {
                        if a < k && c < k {
                            assert(vs[a] == bs[a] && vs[c] == bs[c]);
                        } else if a < k && c == k {
                            assert(vs[a] == bs[a]);
                        } else if a < k {
                            assert(vs[a] == bs[a] && vs[c] == bs[c - 1]);
                        } else if a == k && c == k {
                        } else if a == k {
                            assert(vs[c] == bs[c - 1]);
                            assert(bs[k as int].position <= bs[c - 1].position);
                        } else {
                            assert(vs[a] == bs[a - 1] && vs[c] == bs[c - 1]);
                        }
                    }
                }
            }
            i = i + 1;
        }
        assert(rs.take(self.rows.len() as int) =~= rs);
        out
    }
}

/// With unique ids, the island at position `i` is the one `island_index` finds.
pub proof fn lemma_island_index(is: Seq<IslandView>, i: int)
    requires
        forall|a: int, c: int| 0 <= a < c < is.len() ==> (#[trigger] is[a]).id != (#[trigger] is[c]).id,
        0 <= i < is.len(),
    ensures
        has_island(is, is[i].id),
        island_index(is, is[i].id) == i,
{
    assert(has_island(is, is[i].id));
    let k = island_index(is, is[i].id);
    assert(is[k].id == is[i].id);
    if k < i {
        assert(is[k].id != is[i].id);
    } else if i < k {
        assert(is[i].id != is[k].id);
    }
}

/// With unique ids, the row at position `i` is the one `row_index` finds.
pub proof fn lemma_row_index(rs: Seq<RowView>, i: int)
    requires
        forall|a: int, c: int| 0 <= a < c < rs.len() ==> (#[trigger] rs[a]).id != (#[trigger] rs[c]).id,
        0 <= i < rs.len(),
    ensures
        has_row(rs, rs[i].id),
        row_index(rs, rs[i].id) == i,
{
    assert(has_row(rs, rs[i].id));
    let k = row_index(rs, rs[i].id);
    assert(rs[k].id == rs[i].id);
    if k < i {
        assert(rs[k].id != rs[i].id);
    } else if i < k {
        assert(rs[i].id != rs[k].id);
    }
}

/// With unique ids, the wire at position `i` is the one `wire_index` finds.
pub proof fn lemma_wire_index(ws: Seq<WireView>, i: int)
    requires
        forall|a: int, c: int| 0 <= a < c < ws.len() ==> (#[trigger] ws[a]).id != (#[trigger] ws[c]).id,
        0 <= i < ws.len(),
    ensures
        has_wire(ws, ws[i].id),
        wire_index(ws, ws[i].id) == i,
{
    assert(has_wire(ws, ws[i].id));
    let k = wire_index(ws, ws[i].id);
    assert(ws[k].id == ws[i].id);
    if k < i {
        assert(ws[k].id != ws[i].id);
    } else if i < k {
        assert(ws[i].id != ws[k].id);
    }
}

/// The island record `stored` as a read of the board `b` returns it.
pub open spec fn read_island(b: BoardView, stored: IslandView, out: IslandView) -> bool {
    &&& out == with_rows(stored, out.rows)
    &&& listed_rows(b.rows, stored.id, out.rows)
}

/// A copy of an island's record, without rows.
fn island_record(isl: &Island) -> (r: Island)
    ensures
        r@ == with_rows(isl@, Seq::empty()),
{
    let r = Island {
        id: isl.id.clone(),
        name: isl.name.clone(),
        placement: isl.placement,
        collapsed: isl.collapsed,
        summary: clone_opt(&isl.summary),
        rows: Vec::new(),
        created_at: isl.created_at.clone(),
        updated_at: isl.updated_at.clone(),
    };
    assert(r@.rows =~= Seq::<RowView>::empty());
    r
}

/// Where an `f64` whose bit pattern is `bits` stands in the order of the
/// numbers: values with the sign bit set below the others, the larger their
/// magnitude the lower, and the others in the order of their size.
pub open spec fn coordinate_key(bits: u64) -> int {
    if bits >= 0x8000_0000_0000_0000u64 {
        u64::MAX - bits
    } else {
        bits + 0x8000_0000_0000_0000u64
    }
}

/// Whether placement `a` comes before `b` on the canvas: higher up, or as
/// high and further left.
pub open spec fn place_before(a: Placement, b: Placement) -> bool {
    coordinate_key(a.y) < coordinate_key(b.y) || (coordinate_key(a.y) == coordinate_key(b.y)
        && coordinate_key(a.x) < coordinate_key(b.x))
}

/// Islands in order of place: none comes before an earlier one.
pub open spec fn by_place(is: Seq<IslandView>) -> bool {
    forall|a: int, c: int| 0 <= a <= c < is.len() ==> !place_before((#[trigger] is[c]).placement, (#[trigger] is[a]).placement)
}

/// Where the coordinate `bits` stands in the order of the numbers.
fn coordinate_order(bits: u64) -> (r: u64)
    ensures
        r == coordinate_key(bits),
{
    if bits >= 0x8000_0000_0000_0000u64 {
        u64::MAX - bits
    } else {
        bits + 0x8000_0000_0000_0000u64
    }
}

/// Whether placement `a` comes before `b` on the canvas.
fn island_precedes(a: &Placement, b: &Placement) -> (r: bool)
    ensures
        r == place_before(*a, *b),
{
    let ay = coordinate_order(a.y);
    let by = coordinate_order(b.y);
    ay < by || (ay == by && coordinate_order(a.x) < coordinate_order(b.x))
}

impl SpecBoard {
    /// The island `id` with its rows in ascending order of position.
    pub fn get_island(&self, id: &str) -> (r: Result<Island, SpecFlowError>)
        requires
            self.wf(),
        ensures
            r is Ok <==> has_island(self@.islands, id@),
            match r {
                Ok(isl) => read_island(self@, self@.islands[island_index(self@.islands, id@)], isl@),
                Err(e) => e matches SpecFlowError::IslandNotFound(m) && m@ == id@,
            },
    {
        match self.find_island(id) {
            None => Err(SpecFlowError::IslandNotFound(id.to_owned())),
            Some(i) => {
                proof {
                    lemma_island_index(self@.islands, i as int);
                }
                assert(self@.islands[i as int] == self.islands@[i as int]@);
                let mut isl = island_record(&self.islands[i]);
                let rows = self.rows_for_island(id);
                isl.rows = rows;
                Ok(isl)
            }
        }
    }

    /// Every island with its rows, in order of place on the canvas: by `y`,
    /// then by `x`.
    pub fn list_islands(&self) -> (r: Vec<Island>)
        requires
            self.wf(),
        ensures
            r@.len() == self@.islands.len(),
            exists|order: Seq<IslandView>| #![trigger order.to_multiset()]
                order.to_multiset() == self@.islands.to_multiset() && by_place(order)
                    && order.len() == r@.len()
                    && forall|i: int| 0 <= i < r@.len() ==> read_island(self@, order[i], (#[trigger] r@[i])@),
    {
        let ghost b = self@;
        let ghost all = self@.islands;
        let mut out: Vec<Island> = Vec::new();
        let ghost mut stored: Seq<IslandView> = Seq::empty();
        let mut i: usize = 0;
        assert(all.take(0) =~= Seq::<IslandView>::empty());
        while i < self.islands.len()
            invariant
                i <= self.islands.len(),
                b == self@,
                all == self@.islands,
                all.len() == self.islands.len(),
                out@.len() == stored.len(),
                out@.len() == i,
                stored.to_multiset() == all.take(i as int).to_multiset(),
                by_place(stored),
                forall|j: int| 0 <= j < out@.len() ==> read_island(b, stored[j], (#[trigger] out@[j])@),
            decreases self.islands.len() - i,
        {
            assert(all[i as int] == self.islands@[i as int]@);
            let mut isl = island_record(&self.islands[i]);
            let rows = self.rows_for_island(self.islands[i].id.as_str());
            isl.rows = rows;
            let ghost xv = all[i as int];
            assert(read_island(b, xv, isl@));
            let mut k: usize = 0;
            while k < out.len() && !island_precedes(&isl.placement, &out[k].placement)
                invariant
                    k <= out.len(),
                    out@.len() == stored.len(),
                    isl@.placement == xv.placement,
                    forall|j: int| 0 <= j < out@.len() ==> read_island(b, stored[j], (#[trigger] out@[j])@),
                    forall|j: int| 0 <= j < k ==> !place_before(xv.placement, (#[trigger] stored[j]).placement),
                decreases out.len() - k,
            {
                assert(read_island(b, stored[k as int], out@[k as int]@));
                k = k + 1;
            }
            proof {
                if k < out.len() {
                    assert(read_island(b, stored[k as int], out@[k as int]@));
                    assert(place_before(xv.placement, stored[k as int].placement));
                }
            }
            let ghost before = stored;
            out.insert(k, isl);
            proof {
                stored = before.insert(k as int, xv);
                vstd::seq_lib::to_multiset_insert(before, k as int, xv);
                assert(all.take(i as int + 1) =~= all.take(i as int).push(xv));
                vstd::seq_lib::to_multiset_build(all.take(i as int), xv);
                assert forall|j: int| 0 <= j < out@.len() implies read_island(b, stored[j], (#[trigger] out@[j])@) by {
                    if j > k {
                        assert(stored[j] == before[j - 1]);
                    } else if j < k {
                        assert(stored[j] == before[j]);
                    }
                }
                assert forall|a: int, c: int| 0 <= a <= c < stored.len() implies
                    !place_before((#[trigger] stored[c]).placement, (#[trigger] stored[a]).placement) by {
                    if a < k && c < k {
                        assert(stored[a] == before[a] && stored[c] == before[c]);
                    } else if a < k && c == k {
                        assert(stored[a] == before[a]);
                    } else if a < k {
                        assert(stored[a] == before[a] && stored[c] == before[c - 1]);
                    } else if a == k && c > k {
                        assert(stored[c] == before[c - 1]);
                        assert(!place_before(before[c - 1].placement, before[k as int].placement));
                    } else if a > k {
                        assert(stored[a] == before[a - 1] && stored[c] == before[c - 1]);
                    }
                }
            }
            i = i + 1;
        }
        assert(all.take(all.len() as int) =~= all);
        out
    }

    /// Adds the island `id` named `name`, created at `now`, and returns it.
    /// An id already on the board is refused as the store's key refuses it.
    pub fn create_island(&mut self, id: String, name: String, placement: Placement, now: String) -> (r: Result<Island, SpecFlowError>)
        requires
            old(self).wf(),
        ensures
            final(self).wf(),
            has_island(old(self)@.islands, id@) ==> {
                &&& r matches Err(SpecFlowError::Database(m)) && m@ == island_key_taken()
                &&& final(self)@ == old(self)@
            },
            !has_island(old(self)@.islands, id@) ==> {
                &&& r matches Ok(isl) && isl@ == new_island(id@, name@, placement, now@)
                &&& final(self)@.islands == old(self)@.islands.push(new_island(id@, name@, placement, now@))
                &&& final(self)@.rows == old(self)@.rows
                &&& final(self)@.wires == old(self)@.wires
                &&& final(self)@.project_id == old(self)@.project_id
            },
    {
        if self.find_island(id.as_str()).is_some() {
            proof {
                reveal_strlit("UNIQUE constraint failed: board_islands.id");
            }
            return Err(SpecFlowError::Database("UNIQUE constraint failed: board_islands.id".to_owned()));
        }
        let ghost old_b = self@;
        let ghost now_v = now@;
        let isl = Island {
            id: id.clone(),
            name: name.clone(),
            placement,
            collapsed: false,
            summary: None,
            rows: Vec::new(),
            created_at: now.clone(),
            updated_at: now,
        };
        assert(isl@.rows =~= Seq::<RowView>::empty());
        assert(isl@ == new_island(id@, name@, placement, now_v));
        let out = island_record(&isl);
        self.islands.push(isl);
        proof {
            let b = self@;
            assert(b.islands =~= old_b.islands.push(new_island(id@, name@, placement, now_v)));
            assert(b.rows == old_b.rows);
            assert(b.wires == old_b.wires);
            assert forall|x: Seq<char>| has_island(old_b.islands, x) implies has_island(b.islands, x) by {
                let k = choose|k: int| 0 <= k < old_b.islands.len() && (#[trigger] old_b.islands[k]).id == x;
                assert(b.islands[k].id == x);
            }
            assert forall|a: int, c: int| 0 <= a < c < b.islands.len() implies (#[trigger] b.islands[a]).id != (#[trigger] b.islands[c]).id by {
                if c == old_b.islands.len() {
                    assert(old_b.islands[a].id == b.islands[a].id);
                }
            }
            assert forall|a: int| 0 <= a < b.rows.len() implies has_island(b.islands, (#[trigger] b.rows[a]).island_id) by {
                assert(has_island(old_b.islands, old_b.rows[a].island_id));
            }
            assert forall|a: int| 0 <= a < b.wires.len() implies has_island(b.islands, (#[trigger] b.wires[a]).from_island_id)
                && has_island(b.islands, b.wires[a].to_island_id) by {
                assert(has_island(old_b.islands, old_b.wires[a].from_island_id));
                assert(has_island(old_b.islands, old_b.wires[a].to_island_id));
            }
        }
        Ok(out)
    }
}

/// The highest position among the rows of island `id` in `rs`, if the
/// island has any.
pub open spec fn max_position(rs: Seq<RowView>, id: Seq<char>) -> Option<int>
    decreases rs.len(),
{
    if rs.len() == 0 {
        None
    } else {
        let m = max_position(rs.drop_last(), id);
        if rs.last().island_id == id {
            match m {
                Some(x) => if rs.last().position > x { Some(rs.last().position as int) } else { Some(x) },
                None => Some(rs.last().position as int),
            }
        } else {
            m
        }
    }
}

/// Where a new row of island `id` goes: the requested position, else one past
/// the island's highest position, else 0 for an island without rows.
pub open spec fn new_row_position(rs: Seq<RowView>, id: Seq<char>, requested: Option<i32>) -> int {
    match requested {
        Some(p) => p as int,
        None => match max_position(rs, id) {
            Some(m) => m + 1,
            None => 0,
        },
    }
}

/// A new row: empty columns, draft spec, task to do, eval pending, not
/// dispatched.
pub open spec fn new_row(id: Seq<char>, island_id: Seq<char>, position: i32, now: Seq<char>) -> RowView {
    RowView {
        id,
        island_id,
        position,
        spec_content: None,
        spec_status: SpecStatus::Draft,
        task_title: None,
        task_description: None,
        task_status: TaskStatus::Todo,
        task_worker: None,
        task_blocked_by: Seq::empty(),
        eval_criterion: None,
        eval_status: RowEvalStatus::Pending,
        eval_result: None,
        dispatched: false,
        run_name: None,
        created_at: now,
        updated_at: now,
    }
}

/// The text of the store's refusal of a second row with an existing id.
pub open spec fn row_key_taken() -> Seq<char> {
    "UNIQUE constraint failed: board_rows.id"@
}

/// An optional text that replaces `current` when it is given.
pub open spec fn replace_text(given: Option<String>, current: Option<Seq<char>>) -> Option<Seq<char>> {
    match given {
        Some(s) => Some(s@),
        None => current,
    }
}

/// An optional value that replaces `current` when it is given.
pub open spec fn replace_value<T>(given: Option<T>, current: T) -> T {
    match given {
        Some(v) => v,
        None => current,
    }
}

/// The row `r` after the request `req`, made at `now`.
pub open spec fn updated_row(r: RowView, req: UpdateRowRequest, now: Seq<char>) -> RowView {
    RowView {
        spec_content: replace_text(req.spec_content, r.spec_content),
        spec_status: replace_value(req.spec_status, r.spec_status),
        task_title: replace_text(req.task_title, r.task_title),
        task_description: replace_text(req.task_description, r.task_description),
        task_status: replace_value(req.task_status, r.task_status),
        task_worker: replace_text(req.task_worker, r.task_worker),
        task_blocked_by: match req.task_blocked_by {
            Some(v) => views(v@),
            None => r.task_blocked_by,
        },
        eval_criterion: replace_text(req.eval_criterion, r.eval_criterion),
        eval_status: replace_value(req.eval_status, r.eval_status),
        eval_result: replace_text(req.eval_result, r.eval_result),
        updated_at: now,
        ..r
    }
}

/// The row `r` after it was dispatched to the run `run_name` at `now`.
pub open spec fn dispatched_row(r: RowView, run_name: Seq<char>, now: Seq<char>) -> RowView {
    RowView { dispatched: true, run_name: Some(run_name), updated_at: now, ..r }
}

/// The row `r` after a run reported its task's status and worker at `now`.
pub open spec fn synced_row(r: RowView, status: TaskStatus, worker: Option<Seq<char>>, now: Seq<char>) -> RowView {
    RowView { task_status: status, task_worker: worker, updated_at: now, ..r }
}

/// A copy of an optional text given by reference.
fn copy_text(given: &Option<String>, current: &Option<String>) -> (r: Option<String>)
    ensures
        opt_view(r) == replace_text(*given, opt_view(*current)),
{
    match given {
        Some(s) => Some(s.clone()),
        None => clone_opt(current),
    }
}

/// Replacing one row by another with the same id and island keeps the board
/// consistent.
pub proof fn lemma_replace_row(b: BoardView, k: int, r: RowView)
    requires
        board_wf(b),
        0 <= k < b.rows.len(),
        r.id == b.rows[k].id,
        r.island_id == b.rows[k].island_id,
    ensures
        board_wf(BoardView { rows: b.rows.update(k, r), ..b }),
{
    let nb = BoardView { rows: b.rows.update(k, r), ..b };
    assert forall|a: int, c: int| 0 <= a < c < nb.rows.len() implies (#[trigger] nb.rows[a]).id != (#[trigger] nb.rows[c]).id by {
        assert(b.rows[a].id != b.rows[c].id);
    }
    assert forall|a: int| 0 <= a < nb.rows.len() implies has_island(nb.islands, (#[trigger] nb.rows[a]).island_id) by {
        assert(has_island(b.islands, b.rows[a].island_id));
    }
}

impl SpecBoard {
    /// The row `id`.
    pub fn get_row(&self, id: &str) -> (r: Result<Row, SpecFlowError>)
        requires
            self.wf(),
        ensures
            r is Ok <==> has_row(self@.rows, id@),
            match r {
                Ok(row) => row@ == self@.rows[row_index(self@.rows, id@)],
                Err(e) => e matches SpecFlowError::RowNotFound(m) && m@ == id@,
            },
    {
        match self.find_row(id) {
            None => Err(SpecFlowError::RowNotFound(id.to_owned())),
            Some(i) => {
                proof {
                    lemma_row_index(self@.rows, i as int);
                }
                assert(self@.rows[i as int] == self.rows@[i as int]@);
                Ok(self.rows[i].clone())
            }
        }
    }

    /// The highest position among the rows of the island `island_id`, or -1
    /// when it has none.
    pub fn last_position(&self, island_id: &str) -> (r: i64)
        ensures
            r == match max_position(self@.rows, island_id@) {
                Some(m) => m,
                None => -1,
            },
    {
        let ghost rs = self@.rows;
        let mut m: i64 = -1;
        let mut seen = false;
        let mut i: usize = 0;
        assert(rs.take(0) =~= Seq::<RowView>::empty());
        while i < self.rows.len()
            invariant
                i <= self.rows.len(),
                rs == self@.rows,
                rs.len() == self.rows.len(),
                seen == max_position(rs.take(i as int), island_id@) is Some,
                m == match max_position(rs.take(i as int), island_id@) {
                    Some(x) => x,
                    None => -1,
                },
                i32::MIN <= m <= i32::MAX,
            decreases self.rows.len() - i,
        {
            assert(rs[i as int] == self.rows@[i as int]@);
            assert(rs.take(i as int + 1).drop_last() =~= rs.take(i as int));
            assert(rs.take(i as int + 1).last() == rs[i as int]);
            if str_eq(self.rows[i].island_id.as_str(), island_id) && (!seen || self.rows[i].position as i64 > m) {
                m = self.rows[i].position as i64;
                seen = true;
            }
            i = i + 1;
        }
        assert(rs.take(self.rows.len() as int) =~= rs);
        m
    }

    /// Adds the row `id` to an island, created at `now`, and returns it. The
    /// island must exist; the row goes to the requested position, else one
    /// past the island's last row.
    pub fn create_row(&mut self, req: &CreateRowRequest, id: String, now: String) -> (r: Result<Row, SpecFlowError>)
        requires
            old(self).wf(),
            req.position is None ==> match max_position(old(self)@.rows, req.island_id@) {
                Some(m) => m < i32::MAX,
                None => true,
            },
        ensures
            final(self).wf(),
            !has_island(old(self)@.islands, req.island_id@) ==> {
                &&& r matches Err(SpecFlowError::IslandNotFound(m)) && m@ == req.island_id@
                &&& final(self)@ == old(self)@
            },
            has_island(old(self)@.islands, req.island_id@) && has_row(old(self)@.rows, id@) ==> {
                &&& r matches Err(SpecFlowError::Database(m)) && m@ == row_key_taken()
                &&& final(self)@ == old(self)@
            },
            has_island(old(self)@.islands, req.island_id@) && !has_row(old(self)@.rows, id@) ==> {
                let row = new_row(id@, req.island_id@,
                    new_row_position(old(self)@.rows, req.island_id@, req.position) as i32, now@);
                &&& r matches Ok(x) && x@ == row
                &&& final(self)@.rows == old(self)@.rows.push(row)
                &&& final(self)@.islands == old(self)@.islands
                &&& final(self)@.wires == old(self)@.wires
                &&& final(self)@.project_id == old(self)@.project_id
            },
    {
        if self.find_island(req.island_id.as_str()).is_none() {
            return Err(SpecFlowError::IslandNotFound(req.island_id.clone()));
        }
        if self.find_row(id.as_str()).is_some() {
            proof {
                reveal_strlit("UNIQUE constraint failed: board_rows.id");
            }
            return Err(SpecFlowError::Database("UNIQUE constraint failed: board_rows.id".to_owned()));
        }
        let position: i32 = match req.position {
            Some(p) => p,
            None => {
                let m = self.last_position(req.island_id.as_str());
                (m + 1) as i32
            },
        };
        let ghost old_b = self@;
        let ghost now_v = now@;
        let row = Row {
            id: id.clone(),
            island_id: req.island_id.clone(),
            position,
            spec_content: None,
            spec_status: SpecStatus::Draft,
            task_title: None,
            task_description: None,
            task_status: TaskStatus::Todo,
            task_worker: None,
            task_blocked_by: Vec::new(),
            eval_criterion: None,
            eval_status: RowEvalStatus::Pending,
            eval_result: None,
            dispatched: false,
            run_name: None,
            created_at: now.clone(),
            updated_at: now,
        };
        assert(row@.task_blocked_by =~= Seq::<Seq<char>>::empty());
        assert(row@ == new_row(id@, req.island_id@, position, now_v));
        let out = row.clone();
        self.rows.push(row);
        proof {
            let b = self@;
            assert(b.rows =~= old_b.rows.push(new_row(id@, req.island_id@, position, now_v)));
            assert(b.islands == old_b.islands);
            assert(b.wires == old_b.wires);
            assert forall|a: int, c: int| 0 <= a < c < b.rows.len() implies (#[trigger] b.rows[a]).id != (#[trigger] b.rows[c]).id by {
                if c == old_b.rows.len() {
                    assert(old_b.rows[a].id == b.rows[a].id);
                }
            }
            assert forall|a: int| 0 <= a < b.rows.len() implies has_island(b.islands, (#[trigger] b.rows[a]).island_id) by {
                if a < old_b.rows.len() {
                    assert(has_island(old_b.islands, old_b.rows[a].island_id));
                }
            }
        }
        Ok(out)
    }

    /// Changes the row `id` as `req` asks, at `now`, and returns it.
    pub fn update_row(&mut self, id: &str, req: &UpdateRowRequest, now: String) -> (r: Result<Row, SpecFlowError>)
        requires
            old(self).wf(),
        ensures
            final(self).wf(),
            !has_row(old(self)@.rows, id@) ==> {
                &&& r matches Err(SpecFlowError::RowNotFound(m)) && m@ == id@
                &&& final(self)@ == old(self)@
            },
            has_row(old(self)@.rows, id@) ==> {
                let k = row_index(old(self)@.rows, id@);
                let row = updated_row(old(self)@.rows[k], *req, now@);
                &&& r matches Ok(x) && x@ == row
                &&& final(self)@.rows == old(self)@.rows.update(k, row)
                &&& final(self)@.islands == old(self)@.islands
                &&& final(self)@.wires == old(self)@.wires
                &&& final(self)@.project_id == old(self)@.project_id
            },
    {
        let k = match self.find_row(id) {
            None => return Err(SpecFlowError::RowNotFound(id.to_owned())),
            Some(k) => k,
        };
        proof {
            lemma_row_index(self@.rows, k as int);
        }
        let ghost old_b = self@;
        let ghost now_v = now@;
        assert(old_b.rows[k as int] == self.rows@[k as int]@);
        let cur = self.rows[k].clone();
        let row = Row {
            id: cur.id,
            island_id: cur.island_id,
            position: cur.position,
            spec_content: copy_text(&req.spec_content, &cur.spec_content),
            spec_status: match req.spec_status {
                Some(v) => v,
                None => cur.spec_status,
            },
            task_title: copy_text(&req.task_title, &cur.task_title),
            task_description: copy_text(&req.task_description, &cur.task_description),
            task_status: match req.task_status {
                Some(v) => v,
                None => cur.task_status,
            },
            task_worker: copy_text(&req.task_worker, &cur.task_worker),
            task_blocked_by: match &req.task_blocked_by {
                Some(v) => clone_strings(v.as_slice()),
                None => cur.task_blocked_by,
            },
            eval_criterion: copy_text(&req.eval_criterion, &cur.eval_criterion),
            eval_status: match req.eval_status {
                Some(v) => v,
                None => cur.eval_status,
            },
            eval_result: copy_text(&req.eval_result, &cur.eval_result),
            dispatched: cur.dispatched,
            run_name: cur.run_name,
            created_at: cur.created_at,
            updated_at: now,
        };
        assert(row@ == updated_row(old_b.rows[k as int], *req, now_v));
        let out = row.clone();
        self.rows.set(k, row);
        proof {
            assert(self@.rows =~= old_b.rows.update(k as int, updated_row(old_b.rows[k as int], *req, now_v)));
            lemma_replace_row(old_b, k as int, updated_row(old_b.rows[k as int], *req, now_v));
            assert(self@ == BoardView { rows: old_b.rows.update(k as int, updated_row(old_b.rows[k as int], *req, now_v)), ..old_b });
        }
        Ok(out)
    }

    /// Removes the row `id`.
    pub fn delete_row(&mut self, id: &str) -> (r: Result<(), SpecFlowError>)
        requires
            old(self).wf(),
        ensures
            final(self).wf(),
            !has_row(old(self)@.rows, id@) ==> {
                &&& r matches Err(SpecFlowError::RowNotFound(m)) && m@ == id@
                &&& final(self)@ == old(self)@
            },
            has_row(old(self)@.rows, id@) ==> {
                &&& r is Ok
                &&& final(self)@.rows == old(self)@.rows.remove(row_index(old(self)@.rows, id@))
                &&& final(self)@.islands == old(self)@.islands
                &&& final(self)@.wires == old(self)@.wires
                &&& final(self)@.project_id == old(self)@.project_id
            },
    {
        let k = match self.find_row(id) {
            None => return Err(SpecFlowError::RowNotFound(id.to_owned())),
            Some(k) => k,
        };
        proof {
            lemma_row_index(self@.rows, k as int);
        }
        let ghost old_b = self@;
        let _ = self.rows.remove(k);
        proof {
            let b = self@;
            assert(b.rows =~= old_b.rows.remove(k as int));
            assert forall|a: int, c: int| 0 <= a < c < b.rows.len() implies (#[trigger] b.rows[a]).id != (#[trigger] b.rows[c]).id by {
                let a0 = if a < k { a } else { a + 1 };
                let c0 = if c < k { c } else { c + 1 };
                assert(b.rows[a] == old_b.rows[a0] && b.rows[c] == old_b.rows[c0]);
                assert(old_b.rows[a0].id != old_b.rows[c0].id);
            }
            assert forall|a: int| 0 <= a < b.rows.len() implies has_island(b.islands, (#[trigger] b.rows[a]).island_id) by {
                let a0 = if a < k { a } else { a + 1 };
                assert(b.rows[a] == old_b.rows[a0]);
                assert(has_island(old_b.islands, old_b.rows[a0].island_id));
            }
            assert(b.islands == old_b.islands);
            assert(b.wires == old_b.wires);
        }
        Ok(())
    }

    /// Records that the row `row_id` was dispatched to the run `run_name` at
    /// `now`. An unknown row changes nothing.
    pub fn set_row_dispatched(&mut self, row_id: &str, run_name: &str, now: String) -> (r: Result<(), SpecFlowError>)
        requires
            old(self).wf(),
        ensures
            final(self).wf(),
            r is Ok,
            !has_row(old(self)@.rows, row_id@) ==> final(self)@ == old(self)@,
            has_row(old(self)@.rows, row_id@) ==> {
                let k = row_index(old(self)@.rows, row_id@);
                final(self)@ == BoardView {
                    rows: old(self)@.rows.update(k, dispatched_row(old(self)@.rows[k], run_name@, now@)),
                    ..old(self)@
                }
            },
    {
        if let Some(k) = self.find_row(row_id) {
            proof {
                lemma_row_index(self@.rows, k as int);
            }
            let ghost old_b = self@;
            let ghost now_v = now@;
            assert(old_b.rows[k as int] == self.rows@[k as int]@);
            self.rows[k].dispatched = true;
            self.rows[k].run_name = Some(run_name.to_owned());
            self.rows[k].updated_at = now;
            proof {
                let nr = dispatched_row(old_b.rows[k as int], run_name@, now_v);
                assert(self.rows@[k as int]@ == nr);
                assert(self@.rows =~= old_b.rows.update(k as int, nr));
                lemma_replace_row(old_b, k as int, nr);
            }
        }
        Ok(())
    }

    /// Records the task status and worker that a run reported for the row
    /// `row_id`, at `now`. An unknown row changes nothing.
    pub fn update_row_task_status(&mut self, row_id: &str, status: TaskStatus, worker: Option<String>, now: String) -> (r: Result<(), SpecFlowError>)
        requires
            old(self).wf(),
        ensures
            final(self).wf(),
            r is Ok,
            !has_row(old(self)@.rows, row_id@) ==> final(self)@ == old(self)@,
            has_row(old(self)@.rows, row_id@) ==> {
                let k = row_index(old(self)@.rows, row_id@);
                final(self)@ == BoardView {
                    rows: old(self)@.rows.update(k, synced_row(old(self)@.rows[k], status, opt_view(worker), now@)),
                    ..old(self)@
                }
            },
    {
        if let Some(k) = self.find_row(row_id) {
            proof {
                lemma_row_index(self@.rows, k as int);
            }
            let ghost old_b = self@;
            let ghost now_v = now@;
            let ghost w = opt_view(worker);
            assert(old_b.rows[k as int] == self.rows@[k as int]@);
            self.rows[k].task_status = status;
            self.rows[k].task_worker = worker;
            self.rows[k].updated_at = now;
            proof {
                let nr = synced_row(old_b.rows[k as int], status, w, now_v);
                assert(self.rows@[k as int]@ == nr);
                assert(self@.rows =~= old_b.rows.update(k as int, nr));
                lemma_replace_row(old_b, k as int, nr);
            }
        }
        Ok(())
    }
}

/// Whether a row lies outside the island `id`.
pub open spec fn outside_island(id: Seq<char>) -> spec_fn(RowView) -> bool {
    |r: RowView| r.island_id != id
}

/// Whether a wire touches neither end at the island `id`.
pub open spec fn detached_from(id: Seq<char>) -> spec_fn(WireView) -> bool {
    |w: WireView| w.from_island_id != id && w.to_island_id != id
}

/// The island record `isl` after the given fields replaced its own, at `now`.
pub open spec fn updated_island(
    isl: IslandView,
    name: Option<String>,
    placement: PlacementUpdate,
    collapsed: Option<bool>,
    summary: Option<String>,
    now: Seq<char>,
) -> IslandView {
    IslandView {
        name: match name {
            Some(n) => n@,
            None => isl.name,
        },
        placement: Placement {
            x: replace_value(placement.x, isl.placement.x),
            y: replace_value(placement.y, isl.placement.y),
            width: replace_value(placement.width, isl.placement.width),
        },
        collapsed: replace_value(collapsed, isl.collapsed),
        summary: replace_text(summary, isl.summary),
        updated_at: now,
        ..isl
    }
}

/// The last position of `x` in `ids`, or -1.
pub open spec fn last_index(ids: Seq<Seq<char>>, x: Seq<char>) -> int
    decreases ids.len(),
{
    if ids.len() == 0 {
        -1
    } else if ids.last() == x {
        ids.len() - 1
    } else {
        last_index(ids.drop_last(), x)
    }
}

/// The row `r` after the island `island_id` was reordered as `ids` lists its
/// rows, at `now`: a listed row of that island takes the (last) place at which
/// it is listed; other rows keep theirs.
pub open spec fn reordered(r: RowView, island_id: Seq<char>, ids: Seq<Seq<char>>, now: Seq<char>) -> RowView {
    if r.island_id == island_id && last_index(ids, r.id) >= 0 {
        RowView { position: last_index(ids, r.id) as i32, updated_at: now, ..r }
    } else {
        r
    }
}

/// Whether a row was dispatched and is named in `ids`.
pub open spec fn dispatched_among(ids: Seq<Seq<char>>) -> spec_fn(RowView) -> bool {
    |r: RowView| r.dispatched && ids.contains(r.id)
}

/// The id of a row.
pub open spec fn row_id(r: RowView) -> Seq<char> {
    r.id
}

/// `last_index` finds `x` exactly when `ids` holds it.
pub proof fn lemma_last_index(ids: Seq<Seq<char>>, x: Seq<char>)
    ensures
        -1 <= last_index(ids, x) < ids.len(),
        last_index(ids, x) >= 0 ==> ids[last_index(ids, x)] == x,
        last_index(ids, x) >= 0 <==> ids.contains(x),
    decreases ids.len(),
{
    if ids.len() > 0 {
        lemma_last_index(ids.drop_last(), x);
        if ids.last() != x {
            if ids.contains(x) {
                let k = choose|k: int| 0 <= k < ids.len() && ids[k] == x;
                assert(ids.drop_last()[k] == x);
            }
            if ids.drop_last().contains(x) {
                let k = choose|k: int| 0 <= k < ids.drop_last().len() && ids.drop_last()[k] == x;
                assert(ids[k] == x);
            }
        } else {
            assert(ids[ids.len() - 1] == x);
        }
    }
}

impl SpecBoard {
    /// Removes the island `id` together with its rows and the wires that
    /// touch it.
    pub fn delete_island(&mut self, id: &str) -> (r: Result<(), SpecFlowError>)
        requires
            old(self).wf(),
        ensures
            final(self).wf(),
            !has_island(old(self)@.islands, id@) ==> {
                &&& r matches Err(SpecFlowError::IslandNotFound(m)) && m@ == id@
                &&& final(self)@ == old(self)@
            },
            has_island(old(self)@.islands, id@) ==> {
                &&& r is Ok
                &&& final(self)@.islands == old(self)@.islands.remove(island_index(old(self)@.islands, id@))
                &&& final(self)@.rows == old(self)@.rows.filter(outside_island(id@))
                &&& final(self)@.wires == old(self)@.wires.filter(detached_from(id@))
                &&& final(self)@.project_id == old(self)@.project_id
            },
    {
        let k = match self.find_island(id) {
            None => return Err(SpecFlowError::IslandNotFound(id.to_owned())),
            Some(k) => k,
        };
        proof {
            lemma_island_index(self@.islands, k as int);
        }
        let ghost ob = self@;
        let ghost idv = id@;
        let mut rows: Vec<Row> = Vec::new();
        let mut i: usize = 0;
        proof {
            assert(ob.rows.take(0) =~= Seq::<RowView>::empty());
            reveal(Seq::filter);
            assert(ob.rows.take(0).filter(outside_island(idv)) =~= Seq::<RowView>::empty());
            assert(row_views(rows@) =~= Seq::<RowView>::empty());
        }
        while i < self.rows.len()
            invariant
                i <= self.rows.len(),
                ob == old(self)@,
                self@ == ob,
                idv == id@,
                ob.rows.len() == self.rows.len(),
                row_views(rows@) == ob.rows.take(i as int).filter(outside_island(idv)),
                forall|a: int| 0 <= a < rows@.len() ==> exists|j: int| 0 <= j < i && (#[trigger] row_views(rows@)[a]) == ob.rows[j],
                forall|a: int| 0 <= a < rows@.len() ==> (#[trigger] row_views(rows@)[a]).island_id != idv,
                board_wf(ob),
                forall|a: int, c: int| 0 <= a < c < rows@.len() ==> (#[trigger] row_views(rows@)[a]).id != (#[trigger] row_views(rows@)[c]).id,
            decreases self.rows.len() - i,
        {
            assert(ob.rows[i as int] == self.rows@[i as int]@);
            assert(ob.rows.take(i as int + 1) =~= ob.rows.take(i as int).push(ob.rows[i as int]));
            proof {
                ob.rows.take(i as int).lemma_filter_push(ob.rows[i as int], outside_island(idv));
            }
            if !str_eq(self.rows[i].island_id.as_str(), id) {
                let ghost before = rows@;
                rows.push(self.rows[i].clone());
                proof {
                    assert(row_views(rows@) =~= row_views(before).push(ob.rows[i as int]));
                    assert forall|a: int| 0 <= a < rows@.len() implies exists|j: int| 0 <= j < i + 1 && (#[trigger] row_views(rows@)[a]) == ob.rows[j] by {
                        if a < before.len() {
                            assert(row_views(rows@)[a] == row_views(before)[a]);
                        } else {
                            assert(row_views(rows@)[a] == ob.rows[i as int]);
                        }
                    }
                    assert forall|a: int| 0 <= a < rows@.len() implies (#[trigger] row_views(rows@)[a]).island_id != idv by {
                        if a < before.len() {
                            assert(row_views(rows@)[a] == row_views(before)[a]);
                        }
                    }
                    assert forall|a: int, c: int| 0 <= a < c < rows@.len() implies (#[trigger] row_views(rows@)[a]).id != (#[trigger] row_views(rows@)[c]).id by {
                        assert(row_views(rows@)[a] == row_views(before)[a]);
                        if c == before.len() {
                            let j = choose|j: int| 0 <= j < i && row_views(before)[a] == ob.rows[j];
                            assert(ob.rows[j].id != ob.rows[i as int].id);
                        } else {
                            assert(row_views(rows@)[c] == row_views(before)[c]);
                        }
                    }
                }
            }
            i = i + 1;
        }
        assert(ob.rows.take(ob.rows.len() as int) =~= ob.rows);
        let mut wires: Vec<Wire> = Vec::new();
        let mut w: usize = 0;
        proof {
            assert(ob.wires.take(0) =~= Seq::<WireView>::empty());
            reveal(Seq::filter);
            assert(ob.wires.take(0).filter(detached_from(idv)) =~= Seq::<WireView>::empty());
            assert(wires@.map_values(|x: Wire| x@) =~= Seq::<WireView>::empty());
        }
        while w < self.wires.len()
            invariant
                w <= self.wires.len(),
                ob == old(self)@,
                self@ == ob,
                idv == id@,
                ob.wires.len() == self.wires.len(),
                wires@.map_values(|x: Wire| x@) == ob.wires.take(w as int).filter(detached_from(idv)),
                forall|a: int| 0 <= a < wires@.len() ==> exists|j: int| 0 <= j < w && (#[trigger] wires@[a])@ == ob.wires[j],
                forall|a: int| 0 <= a < wires@.len() ==> (#[trigger] wires@[a])@.from_island_id != idv
                    && wires@[a]@.to_island_id != idv,
                board_wf(ob),
                forall|a: int, c: int| 0 <= a < c < wires@.len() ==> (#[trigger] wires@[a])@.id != (#[trigger] wires@[c])@.id
                    && !(wires@[a]@.from_island_id == wires@[c]@.from_island_id
                        && wires@[a]@.to_island_id == wires@[c]@.to_island_id),
            decreases self.wires.len() - w,
        {
            assert(ob.wires[w as int] == self.wires@[w as int]@);
            assert(ob.wires.take(w as int + 1) =~= ob.wires.take(w as int).push(ob.wires[w as int]));
            proof {
                ob.wires.take(w as int).lemma_filter_push(ob.wires[w as int], detached_from(idv));
            }
            if !str_eq(self.wires[w].from_island_id.as_str(), id) && !str_eq(self.wires[w].to_island_id.as_str(), id) {
                let ghost before = wires@;
                wires.push(self.wires[w].clone());
                proof {
                    assert(wires@.map_values(|x: Wire| x@) =~= before.map_values(|x: Wire| x@).push(ob.wires[w as int]));
                    assert forall|a: int| 0 <= a < wires@.len() implies exists|j: int| 0 <= j < w + 1 && (#[trigger] wires@[a])@ == ob.wires[j] by {
                        if a < before.len() {
                            assert(wires@[a] == before[a]);
                        } else {
                            assert(wires@[a]@ == ob.wires[w as int]);
                        }
                    }
                    assert forall|a: int| 0 <= a < wires@.len() implies (#[trigger] wires@[a])@.from_island_id != idv
                        && wires@[a]@.to_island_id != idv by {
                        if a < before.len() {
                            assert(wires@[a] == before[a]);
                        }
                    }
                    assert forall|a: int, c: int| 0 <= a < c < wires@.len() implies (#[trigger] wires@[a])@.id != (#[trigger] wires@[c])@.id
                        && !(wires@[a]@.from_island_id == wires@[c]@.from_island_id
                            && wires@[a]@.to_island_id == wires@[c]@.to_island_id) by {
                        assert(wires@[a] == before[a]);
                        if c == before.len() {
                            let j = choose|j: int| 0 <= j < w && before[a]@ == ob.wires[j];
                            assert(ob.wires[j].id != ob.wires[w as int].id);
                        } else {
                            assert(wires@[c] == before[c]);
                        }
                    }
                }
            }
            w = w + 1;
        }
        assert(ob.wires.take(ob.wires.len() as int) =~= ob.wires);
        let _ = self.islands.remove(k);
        self.rows = rows;
        self.wires = wires;
        proof {
            let b = self@;
            assert(b.islands =~= ob.islands.remove(k as int));
            assert forall|x: Seq<char>| x != idv && has_island(ob.islands, x) implies has_island(b.islands, x) by {
                let j = choose|j: int| 0 <= j < ob.islands.len() && (#[trigger] ob.islands[j]).id == x;
                assert(j != k);
                let j2 = if j < k { j } else { j - 1 };
                assert(b.islands[j2] == ob.islands[j]);
            }
            assert forall|a: int, c: int| 0 <= a < c < b.islands.len() implies (#[trigger] b.islands[a]).id != (#[trigger] b.islands[c]).id by {
                let a0 = if a < k { a } else { a + 1 };
                let c0 = if c < k { c } else { c + 1 };
                assert(b.islands[a] == ob.islands[a0] && b.islands[c] == ob.islands[c0]);
            }
            assert forall|a: int| 0 <= a < b.islands.len() implies (#[trigger] b.islands[a]).rows.len() == 0 by {
                let a0 = if a < k { a } else { a + 1 };
                assert(b.islands[a] == ob.islands[a0]);
            }
            assert forall|a: int, c: int| 0 <= a < c < b.rows.len() implies (#[trigger] b.rows[a]).id != (#[trigger] b.rows[c]).id by {
                assert(b.rows[a] == row_views(self.rows@)[a]);
                assert(b.rows[c] == row_views(self.rows@)[c]);
            }
            assert forall|a: int| 0 <= a < b.rows.len() implies has_island(b.islands, (#[trigger] b.rows[a]).island_id) by {
                assert(b.rows[a] == row_views(self.rows@)[a]);
                let ja = choose|j: int| 0 <= j < ob.rows.len() && row_views(self.rows@)[a] == ob.rows[j];
                assert(has_island(ob.islands, ob.rows[ja].island_id));
            }
            assert forall|a: int, c: int| 0 <= a < c < b.wires.len() implies (#[trigger] b.wires[a]).id != (#[trigger] b.wires[c]).id by {
                assert(b.wires[a] == self.wires@[a]@);
                assert(b.wires[c] == self.wires@[c]@);
            }
            assert forall|a: int, c: int| 0 <= a < c < b.wires.len() implies
                !((#[trigger] b.wires[a]).from_island_id == (#[trigger] b.wires[c]).from_island_id
                    && b.wires[a].to_island_id == b.wires[c].to_island_id) by {
                assert(b.wires[a] == self.wires@[a]@);
                assert(b.wires[c] == self.wires@[c]@);
            }
            assert forall|a: int| 0 <= a < b.wires.len() implies has_island(b.islands, (#[trigger] b.wires[a]).from_island_id)
                && has_island(b.islands, b.wires[a].to_island_id) by {
                assert(b.wires[a] == self.wires@[a]@);
                let ja = choose|j: int| 0 <= j < ob.wires.len() && self.wires@[a]@ == ob.wires[j];
                assert(has_island(ob.islands, ob.wires[ja].from_island_id));
                assert(has_island(ob.islands, ob.wires[ja].to_island_id));
            }
        }
        Ok(())
    }
}

impl SpecBoard {
    /// Replaces the given fields of the island `id`, at `now`, and returns the
    /// island with its rows.
    pub fn update_island(
        &mut self,
        id: &str,
        name: Option<String>,
        placement: PlacementUpdate,
        collapsed: Option<bool>,
        summary: Option<String>,
        now: String,
    ) -> (r: Result<Island, SpecFlowError>)
        requires
            old(self).wf(),
        ensures
            final(self).wf(),
            !has_island(old(self)@.islands, id@) ==> {
                &&& r matches Err(SpecFlowError::IslandNotFound(m)) && m@ == id@
                &&& final(self)@ == old(self)@
            },
            has_island(old(self)@.islands, id@) ==> {
                let k = island_index(old(self)@.islands, id@);
                let isl = updated_island(old(self)@.islands[k], name, placement, collapsed, summary, now@);
                &&& final(self)@ == BoardView { islands: old(self)@.islands.update(k, isl), ..old(self)@ }
                &&& r matches Ok(x) && read_island(final(self)@, isl, x@)
            },
    {
        let k = match self.find_island(id) {
            None => return Err(SpecFlowError::IslandNotFound(id.to_owned())),
            Some(k) => k,
        };
        proof {
            lemma_island_index(self@.islands, k as int);
        }
        let ghost ob = self@;
        let ghost nv = now@;
        assert(ob.islands[k as int] == self.islands@[k as int]@);
        let ghost target = updated_island(ob.islands[k as int], name, placement, collapsed, summary, nv);
        if let Some(n) = name {
            self.islands[k].name = n;
        }
        if let Some(x) = placement.x {
            self.islands[k].placement.x = x;
        }
        if let Some(y) = placement.y {
            self.islands[k].placement.y = y;
        }
        if let Some(w) = placement.width {
            self.islands[k].placement.width = w;
        }
        if let Some(c) = collapsed {
            self.islands[k].collapsed = c;
        }
        if let Some(s) = summary {
            self.islands[k].summary = Some(s);
        }
        self.islands[k].updated_at = now;
        proof {
            assert(self.islands@[k as int]@ == target);
            assert(self@.islands =~= ob.islands.update(k as int, target));
            let b = self@;
            assert(b.rows == ob.rows);
            assert(b.wires == ob.wires);
            assert forall|x: Seq<char>| has_island(ob.islands, x) implies has_island(b.islands, x) by {
                let j = choose|j: int| 0 <= j < ob.islands.len() && (#[trigger] ob.islands[j]).id == x;
                assert(b.islands[j].id == x);
            }
            assert forall|a: int, c: int| 0 <= a < c < b.islands.len() implies (#[trigger] b.islands[a]).id != (#[trigger] b.islands[c]).id by {
                assert(ob.islands[a].id != ob.islands[c].id);
            }
            assert forall|a: int| 0 <= a < b.rows.len() implies has_island(b.islands, (#[trigger] b.rows[a]).island_id) by {
                assert(has_island(ob.islands, ob.rows[a].island_id));
            }
            assert forall|a: int| 0 <= a < b.wires.len() implies has_island(b.islands, (#[trigger] b.wires[a]).from_island_id)
                && has_island(b.islands, b.wires[a].to_island_id) by {
                assert(has_island(ob.islands, ob.wires[a].from_island_id));
                assert(has_island(ob.islands, ob.wires[a].to_island_id));
            }
            assert forall|a: int| 0 <= a < b.islands.len() implies (#[trigger] b.islands[a]).rows.len() == 0 by {
                assert(ob.islands[a].rows.len() == 0);
            }
            lemma_island_index(b.islands, k as int);
        }
        let out = self.get_island(id);
        out
    }

    /// Gives the rows of the island `island_id` the places at which `row_ids`
    /// lists them, at `now`.
    pub fn reorder_rows(&mut self, island_id: &str, row_ids: &[String], now: String) -> (r: Result<(), SpecFlowError>)
        requires
            old(self).wf(),
        ensures
            final(self).wf(),
            r is Ok,
            final(self)@.islands == old(self)@.islands,
            final(self)@.wires == old(self)@.wires,
            final(self)@.project_id == old(self)@.project_id,
            final(self)@.rows.len() == old(self)@.rows.len(),
            forall|i: int| 0 <= i < old(self)@.rows.len() ==> (#[trigger] final(self)@.rows[i])
                == reordered(old(self)@.rows[i], island_id@, row_ids@.map_values(|s: String| s@), now@),
    {
        let ghost ob = self@;
        let ghost ids = row_ids@.map_values(|s: String| s@);
        let ghost nv = now@;
        let mut p: usize = 0;
        assert(ids.take(0) =~= Seq::<Seq<char>>::empty());
        while p < row_ids.len()
            invariant
                p <= row_ids.len(),
                ob == old(self)@,
                board_wf(ob),
                ids == row_ids@.map_values(|s: String| s@),
                nv == now@,
                self@.islands == ob.islands,
                self@.wires == ob.wires,
                self@.project_id == ob.project_id,
                self@.rows.len() == ob.rows.len(),
                forall|i: int| 0 <= i < ob.rows.len() ==> (#[trigger] self@.rows[i])
                    == reordered(ob.rows[i], island_id@, ids.take(p as int), nv),
            decreases row_ids.len() - p,
        {
            let ghost cur = self@;
            assert(ids.take(p as int + 1).drop_last() =~= ids.take(p as int));
            assert(ids.take(p as int + 1).last() == row_ids@[p as int]@);
            assert forall|i: int| 0 <= i < ob.rows.len() implies (#[trigger] cur.rows[i]).id == ob.rows[i].id
                && cur.rows[i].island_id == ob.rows[i].island_id by {
                assert(cur.rows[i] == reordered(ob.rows[i], island_id@, ids.take(p as int), nv));
            }
            match self.find_row(row_ids[p].as_str()) {
                Some(k) => {
                    assert(cur.rows[k as int] == self.rows@[k as int]@);
                    if str_eq(self.rows[k].island_id.as_str(), island_id) {
                        self.rows[k].position = p as i32;
                        self.rows[k].updated_at = now.clone();
                        proof {
                            assert forall|i: int| 0 <= i < ob.rows.len() implies (#[trigger] self@.rows[i])
                                == reordered(ob.rows[i], island_id@, ids.take(p as int + 1), nv) by {
                                if i == k {
                                    assert(self@.rows[i] == self.rows@[i]@);
                                } else {
                                    assert(self@.rows[i] == cur.rows[i]);
                                    assert(ob.rows[i].id != ob.rows[k as int].id) by {
                                        if i < k {
                                            assert(ob.rows[i].id != ob.rows[k as int].id);
                                        } else {
                                            assert(ob.rows[k as int].id != ob.rows[i].id);
                                        }
                                    }
                                }
                            }
                        }
                    } else {
                        proof {
                            assert forall|i: int| 0 <= i < ob.rows.len() implies (#[trigger] self@.rows[i])
                                == reordered(ob.rows[i], island_id@, ids.take(p as int + 1), nv) by {
                                if i != k {
                                    assert(ob.rows[i].id != ob.rows[k as int].id) by {
                                        if i < k {
                                            assert(ob.rows[i].id != ob.rows[k as int].id);
                                        } else {
                                            assert(ob.rows[k as int].id != ob.rows[i].id);
                                        }
                                    }
                                }
                            }
                        }
                    }
                },
                None => {
                    proof {
                        assert forall|i: int| 0 <= i < ob.rows.len() implies (#[trigger] self@.rows[i])
                            == reordered(ob.rows[i], island_id@, ids.take(p as int + 1), nv) by {
                            assert(cur.rows[i].id != row_ids@[p as int]@);
                        }
                    }
                },
            }
            p = p + 1;
        }
        assert(ids.take(row_ids.len() as int) =~= ids);
        proof {
            let b = self@;
            assert forall|i: int| 0 <= i < ob.rows.len() implies (#[trigger] b.rows[i]).id == ob.rows[i].id
                && b.rows[i].island_id == ob.rows[i].island_id by {
                assert(b.rows[i] == reordered(ob.rows[i], island_id@, ids, nv));
            }
            assert forall|a: int, c: int| 0 <= a < c < b.rows.len() implies (#[trigger] b.rows[a]).id != (#[trigger] b.rows[c]).id by {
                assert(ob.rows[a].id != ob.rows[c].id);
            }
            assert forall|a: int| 0 <= a < b.rows.len() implies has_island(b.islands, (#[trigger] b.rows[a]).island_id) by {
                assert(has_island(ob.islands, ob.rows[a].island_id));
            }
        }
        Ok(())
    }

    /// The ids of the rows named in `row_ids` that were already dispatched,
    /// in board order.
    pub fn check_already_dispatched(&self, row_ids: &[String]) -> (r: Result<Vec<String>, SpecFlowError>)
        ensures
            r matches Ok(v) && views(v@) == self@.rows.filter(
                dispatched_among(row_ids@.map_values(|s: String| s@))).map_values(|x: RowView| row_id(x)),
    {
        let ghost ids = row_ids@.map_values(|s: String| s@);
        let ghost rs = self@.rows;
        let mut out: Vec<String> = Vec::new();
        let mut i: usize = 0;
        proof {
            assert(rs.take(0) =~= Seq::<RowView>::empty());
            reveal(Seq::filter);
            assert(rs.take(0).filter(dispatched_among(ids)) =~= Seq::<RowView>::empty());
            assert(views(out@) =~= Seq::<Seq<char>>::empty());
        }
        while i < self.rows.len()
            invariant
                i <= self.rows.len(),
                rs == self@.rows,
                rs.len() == self.rows.len(),
                ids == row_ids@.map_values(|s: String| s@),
                views(out@) == rs.take(i as int).filter(dispatched_among(ids)).map_values(|x: RowView| row_id(x)),
            decreases self.rows.len() - i,
        {
            assert(rs[i as int] == self.rows@[i as int]@);
            assert(rs.take(i as int + 1) =~= rs.take(i as int).push(rs[i as int]));
            proof {
                rs.take(i as int).lemma_filter_push(rs[i as int], dispatched_among(ids));
            }
            let mut named = false;
            let mut j: usize = 0;
            while j < row_ids.len()
                invariant
                    j <= row_ids.len(),
                    i < self.rows.len(),
                    ids == row_ids@.map_values(|s: String| s@),
                    named == exists|q: int| 0 <= q < j && ids[q] == self.rows@[i as int]@.id,
                decreases row_ids.len() - j,
            {
                assert(ids[j as int] == row_ids@[j as int]@);
                if str_eq(row_ids[j].as_str(), self.rows[i].id.as_str()) {
                    named = true;
                }
                j = j + 1;
            }
            assert(named == ids.contains(rs[i as int].id));
            if self.rows[i].dispatched && named {
                let ghost before = out@;
                out.push(self.rows[i].id.clone());
                proof {
                    let f = rs.take(i as int).filter(dispatched_among(ids));
                    assert(views(out@) =~= views(before).push(rs[i as int].id));
                    assert(f.push(rs[i as int]).map_values(|x: RowView| row_id(x))
                        =~= f.map_values(|x: RowView| row_id(x)).push(rs[i as int].id));
                }
            }
            i = i + 1;
        }
        assert(rs.take(self.rows.len() as int) =~= rs);
        Ok(out)
    }
}

/// Each row of `out` is the board row of its id in `rs`.
pub open spec fn board_copies(rs: Seq<RowView>, out: Seq<RowView>) -> bool {
    forall|j: int| 0 <= j < out.len() ==> has_row(rs, (#[trigger] out[j]).id)
        && rs[row_index(rs, out[j].id)] == out[j]
}

/// Every row named in `roots` that the board `rs` holds is in `out`.
pub open spec fn covers_roots(rs: Seq<RowView>, roots: Seq<Seq<char>>, out: Seq<RowView>) -> bool {
    forall|q: int| 0 <= q < roots.len() && has_row(rs, #[trigger] roots[q]) ==> has_row(out, roots[q])
}

/// Every dependency of a row of `out` that the board `rs` holds is in `out`.
pub open spec fn covers_deps(rs: Seq<RowView>, out: Seq<RowView>) -> bool {
    forall|j: int, d: int| 0 <= j < out.len() && 0 <= d < out[j].task_blocked_by.len()
        && has_row(rs, #[trigger] out[j].task_blocked_by[d]) ==> has_row(out, out[j].task_blocked_by[d])
}

/// Every row of `out` is named in `roots` or a dependency of a row before it.
pub open spec fn reached_in_order(roots: Seq<Seq<char>>, out: Seq<RowView>) -> bool {
    forall|j: int| 0 <= j < out.len() ==> roots.contains((#[trigger] out[j]).id)
        || exists|k: int| 0 <= k < j && out[k].task_blocked_by.contains(out[j].id)
}

/// The rows reached from the rows named in `roots` by following the rows'
/// dependencies, as read from the board rows `rs`: each reached row once, as
/// the board holds it; every named row and every dependency of a reached row
/// that the board holds is reached; and every reached row is named or a
/// dependency of a row reached before it.
pub open spec fn deps_closure(rs: Seq<RowView>, roots: Seq<Seq<char>>, out: Seq<RowView>) -> bool {
    &&& board_copies(rs, out)
    &&& unique_rows(out)
    &&& covers_roots(rs, roots, out)
    &&& covers_deps(rs, out)
    &&& reached_in_order(roots, out)
}

/// A sequence of distinct indices below `n` has at most `n` entries.
pub proof fn lemma_distinct_indices(idx: Seq<int>, n: int)
    requires
        n >= 0,
        idx.no_duplicates(),
        forall|i: int| 0 <= i < idx.len() ==> 0 <= #[trigger] idx[i] < n,
    ensures
        idx.len() <= n,
{
    idx.unique_seq_to_set();
    vstd::set_lib::lemma_int_range(0, n);
    assert(idx.to_set().subset_of(vstd::set_lib::set_int_range(0, n)));
    vstd::set_lib::lemma_len_subset(idx.to_set(), vstd::set_lib::set_int_range(0, n));
}

/// No two rows of `rs` share an id.
pub open spec fn unique_rows(rs: Seq<RowView>) -> bool {
    forall|a: int, c: int| 0 <= a < c < rs.len() ==> (#[trigger] rs[a]).id != (#[trigger] rs[c]).id
}

/// The rows reached so far are board rows, each once, at the distinct board
/// positions `idx`.
#[verifier::opaque]
pub open spec fn walk_rows(rs: Seq<RowView>, out: Seq<RowView>, idx: Seq<int>) -> bool {
    &&& out.len() <= rs.len()
    &&& idx.len() == out.len()
    &&& forall|j: int| 0 <= j < idx.len() ==> 0 <= #[trigger] idx[j] < rs.len() && rs[idx[j]] == out[j]
    &&& unique_rows(out)
}

/// The names taken up so far: those of the reached rows, and any other name
/// taken up is not a board row's.
#[verifier::opaque]
pub open spec fn walk_seen(rs: Seq<RowView>, out: Seq<RowView>, v: Seq<Seq<char>>) -> bool {
    &&& forall|j: int| 0 <= j < out.len() ==> v.contains(#[trigger] out[j].id)
    &&& forall|x: Seq<char>| #![trigger v.contains(x)] v.contains(x) && has_row(rs, x) ==> has_row(out, x)
}

/// Every named row and every dependency of a reached row was taken up or is
/// still queued.
#[verifier::opaque]
pub open spec fn walk_cover(roots: Seq<Seq<char>>, out: Seq<RowView>, v: Seq<Seq<char>>, t: Seq<Seq<char>>) -> bool {
    &&& forall|q: int| 0 <= q < roots.len() ==> v.contains(#[trigger] roots[q]) || t.contains(roots[q])
    &&& forall|j: int, d: int| 0 <= j < out.len() && 0 <= d < out[j].task_blocked_by.len() ==>
        v.contains(#[trigger] out[j].task_blocked_by[d]) || t.contains(out[j].task_blocked_by[d])
}

/// Whether `x` is named or a dependency of one of the first `n` reached rows.
pub open spec fn reached_why(roots: Seq<Seq<char>>, out: Seq<RowView>, n: int, x: Seq<char>) -> bool {
    roots.contains(x) || exists|k: int| 0 <= k < n && (#[trigger] out[k]).task_blocked_by.contains(x)
}

/// Every queued name and every reached row is named or a dependency of a row
/// reached before.
#[verifier::opaque]
pub open spec fn walk_why(roots: Seq<Seq<char>>, out: Seq<RowView>, t: Seq<Seq<char>>) -> bool {
    &&& forall|p: int| 0 <= p < t.len() ==> reached_why(roots, out, out.len() as int, #[trigger] t[p])
    &&& forall|j: int| 0 <= j < out.len() ==> reached_why(roots, out, j, (#[trigger] out[j]).id)
}

/// Where a walk along the dependencies stands: `out` holds the rows reached
/// so far (at positions `idx` of `rs`), `v` the names taken up, `t` the
/// names still to take up.
pub open spec fn walk_state(
    rs: Seq<RowView>,
    roots: Seq<Seq<char>>,
    out: Seq<RowView>,
    v: Seq<Seq<char>>,
    t: Seq<Seq<char>>,
    idx: Seq<int>,
) -> bool {
    &&& walk_rows(rs, out, idx)
    &&& walk_seen(rs, out, v)
    &&& walk_cover(roots, out, v, t)
    &&& walk_why(roots, out, t)
}

/// Every name of `a` is a name of `b`.
pub open spec fn names_within(a: Seq<Seq<char>>, b: Seq<Seq<char>>) -> bool {
    forall|y: Seq<char>| #![trigger a.contains(y)] a.contains(y) ==> b.contains(y)
}

/// Pushing a name keeps the names already there.
pub proof fn lemma_push_names(a: Seq<Seq<char>>, x: Seq<char>)
    ensures
        names_within(a, a.push(x)),
        a.push(x).contains(x),
{
    assert forall|y: Seq<char>| a.contains(y) implies a.push(x).contains(y) by {
        let p = choose|p: int| 0 <= p < a.len() && a[p] == y;
        assert(a.push(x)[p] == y);
    }
    assert(a.push(x)[a.len() as int] == x);
}

/// The names of a queue are its last name and the names before it.
pub proof fn lemma_pop_names(t: Seq<Seq<char>>)
    requires
        t.len() > 0,
    ensures
        forall|y: Seq<char>| #![trigger t.contains(y)] t.contains(y) ==> y == t.last() || t.drop_last().contains(y),
        names_within(t.drop_last(), t),
{
    assert forall|y: Seq<char>| #![trigger t.contains(y)] t.contains(y) implies y == t.last() || t.drop_last().contains(y) by {
        let p = choose|p: int| 0 <= p < t.len() && t[p] == y;
        if p < t.len() - 1 {
            assert(t.drop_last()[p] == y);
        }
    }
    assert forall|y: Seq<char>| t.drop_last().contains(y) implies t.contains(y) by {
        let p = choose|p: int| 0 <= p < t.drop_last().len() && t.drop_last()[p] == y;
        assert(t[p] == y);
    }
}

/// The walk starts with every named row still to take up.
pub proof fn lemma_walk_start(rs: Seq<RowView>, roots: Seq<Seq<char>>)
    ensures
        walk_state(rs, roots, Seq::empty(), Seq::empty(), roots, Seq::empty()),
{
    reveal(walk_rows);
    reveal(walk_seen);
    reveal(walk_cover);
    reveal(walk_why);
    let e = Seq::<RowView>::empty();
    assert forall|q: int| 0 <= q < roots.len() implies Seq::<Seq<char>>::empty().contains(#[trigger] roots[q])
        || roots.contains(roots[q]) by {
        assert(roots[q] == roots[q]);
    }
    assert forall|p: int| 0 <= p < roots.len() implies reached_why(roots, e, 0, #[trigger] roots[p]) by {
        assert(roots.contains(roots[p]));
    }
}

/// Taking up a name already taken up changes nothing else.
pub proof fn lemma_walk_skip(
    rs: Seq<RowView>,
    roots: Seq<Seq<char>>,
    out: Seq<RowView>,
    v: Seq<Seq<char>>,
    t: Seq<Seq<char>>,
    idx: Seq<int>,
)
    requires
        walk_state(rs, roots, out, v, t, idx),
        t.len() > 0,
        v.contains(t.last()),
    ensures
        walk_state(rs, roots, out, v, t.drop_last(), idx),
{
    lemma_pop_names(t);
    let t1 = t.drop_last();
    assert(walk_cover(roots, out, v, t1)) by {
        reveal(walk_cover);
    }
    assert(walk_why(roots, out, t1)) by {
        reveal(walk_why);
        assert forall|p: int| 0 <= p < t1.len() implies reached_why(roots, out, out.len() as int, #[trigger] t1[p]) by {
            assert(t1[p] == t[p]);
        }
    }
}

/// Taking up a name the board does not hold only records it.
pub proof fn lemma_walk_missing(
    rs: Seq<RowView>,
    roots: Seq<Seq<char>>,
    out: Seq<RowView>,
    v: Seq<Seq<char>>,
    t: Seq<Seq<char>>,
    idx: Seq<int>,
)
    requires
        walk_state(rs, roots, out, v, t, idx),
        t.len() > 0,
        !has_row(rs, t.last()),
    ensures
        walk_state(rs, roots, out, v.push(t.last()), t.drop_last(), idx),
{
    let x = t.last();
    let t1 = t.drop_last();
    let v1 = v.push(x);
    lemma_pop_names(t);
    lemma_push_names(v, x);
    assert(walk_seen(rs, out, v1)) by {
        reveal(walk_seen);
        assert forall|y: Seq<char>| #![trigger v1.contains(y)] v1.contains(y) && has_row(rs, y) implies has_row(out, y) by {
            let p = choose|p: int| 0 <= p < v1.len() && v1[p] == y;
            if p < v.len() {
                assert(v[p] == y);
                assert(v.contains(y));
            }
        }
    }
    assert(walk_cover(roots, out, v1, t1)) by {
        reveal(walk_cover);
    }
    assert(walk_why(roots, out, t1)) by {
        reveal(walk_why);
        assert forall|p: int| 0 <= p < t1.len() implies reached_why(roots, out, out.len() as int, #[trigger] t1[p]) by {
            assert(t1[p] == t[p]);
        }
    }
}

/// Taking up the name of the board row at position `k` keeps the reached
/// rows distinct board rows.
pub proof fn lemma_visit_rows(
    rs: Seq<RowView>,
    out: Seq<RowView>,
    v: Seq<Seq<char>>,
    idx: Seq<int>,
    k: int,
)
    requires
        walk_rows(rs, out, idx),
        walk_seen(rs, out, v),
        unique_rows(rs),
        0 <= k < rs.len(),
        !v.contains(rs[k].id),
    ensures
        walk_rows(rs, out.push(rs[k]), idx.push(k)),
{
    reveal(walk_rows);
    reveal(walk_seen);
    let out1 = out.push(rs[k]);
    let idx1 = idx.push(k);
    assert forall|j: int| 0 <= j < out.len() implies (#[trigger] out[j]).id != rs[k].id by {
        assert(v.contains(out[j].id));
    }
    assert(!idx.contains(k)) by {
        if idx.contains(k) {
            let j = choose|j: int| 0 <= j < idx.len() && idx[j] == k;
            assert(rs[idx[j]] == out[j]);
        }
    }
    assert(idx1.no_duplicates()) by {
        assert forall|a: int, c: int| 0 <= a < idx1.len() && 0 <= c < idx1.len() && a != c implies idx1[a] != idx1[c] by {
            if a < idx.len() && c < idx.len() {
                assert(rs[idx[a]] == out[a] && rs[idx[c]] == out[c]);
                if a < c {
                    assert(out[a].id != out[c].id);
                } else {
                    assert(out[c].id != out[a].id);
                }
            } else if a < idx.len() {
                assert(idx[a] != k);
            } else if c < idx.len() {
                assert(idx[c] != k);
            }
        }
    }
    assert forall|j: int| 0 <= j < idx1.len() implies 0 <= #[trigger] idx1[j] < rs.len() && rs[idx1[j]] == out1[j] by {
        if j < out.len() {
            assert(out1[j] == out[j]);
            assert(idx1[j] == idx[j]);
        }
    }
    lemma_distinct_indices(idx1, rs.len() as int);
    assert forall|a: int, c: int| 0 <= a < c < out1.len() implies (#[trigger] out1[a]).id != (#[trigger] out1[c]).id by {
        assert(out1[a] == out[a]);
        if c < out.len() {
            assert(out1[c] == out[c]);
        }
    }
}

/// Taking up the name of the board row at position `k` records it among the
/// names taken up.
pub proof fn lemma_visit_seen(
    rs: Seq<RowView>,
    out: Seq<RowView>,
    v: Seq<Seq<char>>,
    k: int,
)
    requires
        walk_seen(rs, out, v),
        0 <= k < rs.len(),
    ensures
        walk_seen(rs, out.push(rs[k]), v.push(rs[k].id)),
{
    reveal(walk_seen);
    let x = rs[k].id;
    let out1 = out.push(rs[k]);
    let v1 = v.push(x);
    lemma_push_names(v, x);
    assert forall|j: int| 0 <= j < out1.len() implies v1.contains(#[trigger] out1[j].id) by {
        if j < out.len() {
            assert(out1[j] == out[j]);
            assert(v.contains(out[j].id));
        }
    }
    assert forall|y: Seq<char>| #![trigger v1.contains(y)] v1.contains(y) && has_row(rs, y) implies has_row(out1, y) by {
        let p = choose|p: int| 0 <= p < v1.len() && v1[p] == y;
        if p < v.len() {
            assert(v[p] == y);
            assert(v.contains(y));
            let j = choose|j: int| 0 <= j < out.len() && (#[trigger] out[j]).id == y;
            assert(out1[j] == out[j]);
        } else {
            assert(out1[out.len() as int].id == y);
        }
    }
}

/// Taking up a name and queueing the row's dependencies keeps every named
/// row and every dependency covered.
pub proof fn lemma_visit_cover(
    roots: Seq<Seq<char>>,
    out: Seq<RowView>,
    v: Seq<Seq<char>>,
    t: Seq<Seq<char>>,
    r: RowView,
    t1: Seq<Seq<char>>,
)
    requires
        walk_cover(roots, out, v, t),
        t.len() > 0,
        r.id == t.last(),
        names_within(t.drop_last(), t1),
        forall|d: int| 0 <= d < r.task_blocked_by.len() ==> v.push(t.last()).contains(#[trigger] r.task_blocked_by[d])
            || t1.contains(r.task_blocked_by[d]),
    ensures
        walk_cover(roots, out.push(r), v.push(t.last()), t1),
{
    reveal(walk_cover);
    let x = t.last();
    let out1 = out.push(r);
    let v1 = v.push(x);
    lemma_pop_names(t);
    lemma_push_names(v, x);
    assert forall|q: int| 0 <= q < roots.len() implies v1.contains(#[trigger] roots[q]) || t1.contains(roots[q]) by {
        if !v.contains(roots[q]) && roots[q] != x {
            assert(t.contains(roots[q]));
            assert(t.drop_last().contains(roots[q]));
        }
    }
    assert forall|j: int, d: int| 0 <= j < out1.len() && 0 <= d < out1[j].task_blocked_by.len() implies
        v1.contains(#[trigger] out1[j].task_blocked_by[d]) || t1.contains(out1[j].task_blocked_by[d]) by {
        if j < out.len() {
            assert(out1[j] == out[j]);
            let y = out[j].task_blocked_by[d];
            if !v.contains(y) && y != x {
                assert(t.contains(y));
                assert(t.drop_last().contains(y));
            }
        }
    }
}

/// Taking up a name and queueing the row's dependencies keeps every queued
/// name and every reached row justified.
pub proof fn lemma_visit_why(
    roots: Seq<Seq<char>>,
    out: Seq<RowView>,
    t: Seq<Seq<char>>,
    r: RowView,
    t1: Seq<Seq<char>>,
)
    requires
        walk_why(roots, out, t),
        t.len() > 0,
        r.id == t.last(),
        t1.len() >= t.len() - 1,
        t1.take(t.len() - 1) == t.drop_last(),
        forall|p: int| t.len() - 1 <= p < t1.len() ==> r.task_blocked_by.contains(#[trigger] t1[p]),
    ensures
        walk_why(roots, out.push(r), t1),
{
    reveal(walk_why);
    let out1 = out.push(r);
    let n = out.len() as int;
    assert forall|p: int| 0 <= p < t1.len() implies reached_why(roots, out1, out1.len() as int, #[trigger] t1[p]) by {
        if p < t.len() - 1 {
            assert(t1.take(t.len() - 1)[p] == t1[p]);
            assert(t1[p] == t[p]);
            assert(reached_why(roots, out, n, t[p]));
            if !roots.contains(t[p]) {
                let kk = choose|kk: int| 0 <= kk < n && (#[trigger] out[kk]).task_blocked_by.contains(t[p]);
                assert(out1[kk] == out[kk]);
            }
        } else {
            assert(out1[n] == r);
        }
    }
    assert(t[t.len() - 1] == r.id);
    assert(reached_why(roots, out, n, t[t.len() - 1]));
    assert forall|j: int| 0 <= j < out1.len() implies reached_why(roots, out1, j, (#[trigger] out1[j]).id) by {
        if j < n {
            assert(out1[j] == out[j]);
            assert(reached_why(roots, out, j, out[j].id));
            if !roots.contains(out[j].id) {
                let kk = choose|kk: int| 0 <= kk < j && (#[trigger] out[kk]).task_blocked_by.contains(out[j].id);
                assert(out1[kk] == out[kk]);
            }
        } else {
            if !roots.contains(r.id) {
                let kk = choose|kk: int| 0 <= kk < n && (#[trigger] out[kk]).task_blocked_by.contains(t[t.len() - 1]);
                assert(out1[kk] == out[kk]);
            }
        }
    }
}

/// The rows a walk reached are board rows, each once.
pub proof fn lemma_end_rows(rs: Seq<RowView>, out: Seq<RowView>, idx: Seq<int>)
    requires
        walk_rows(rs, out, idx),
        unique_rows(rs),
    ensures
        board_copies(rs, out),
        unique_rows(out),
{
    reveal(walk_rows);
    assert forall|j: int| 0 <= j < out.len() implies has_row(rs, (#[trigger] out[j]).id)
        && rs[row_index(rs, out[j].id)] == out[j] by {
        let k = idx[j];
        assert(rs[k] == out[j]);
        lemma_row_index(rs, k);
    }
}

/// A walk with nothing queued reached every named row and every dependency
/// that the board holds.
pub proof fn lemma_end_cover(rs: Seq<RowView>, roots: Seq<Seq<char>>, out: Seq<RowView>, v: Seq<Seq<char>>)
    requires
        walk_seen(rs, out, v),
        walk_cover(roots, out, v, Seq::empty()),
    ensures
        covers_roots(rs, roots, out),
        covers_deps(rs, out),
{
    reveal(walk_cover);
    reveal(walk_seen);
    let e = Seq::<Seq<char>>::empty();
    assert forall|q: int| 0 <= q < roots.len() && has_row(rs, #[trigger] roots[q]) implies has_row(out, roots[q]) by {
        assert(v.contains(roots[q]) || e.contains(roots[q]));
    }
    assert forall|j: int, d: int| 0 <= j < out.len() && 0 <= d < out[j].task_blocked_by.len()
        && has_row(rs, #[trigger] out[j].task_blocked_by[d]) implies has_row(out, out[j].task_blocked_by[d]) by {
        assert(v.contains(out[j].task_blocked_by[d]) || e.contains(out[j].task_blocked_by[d]));
    }
}

/// Every row a walk reached is named or a dependency of a row reached before.
pub proof fn lemma_end_why(roots: Seq<Seq<char>>, out: Seq<RowView>)
    requires
        walk_why(roots, out, Seq::empty()),
    ensures
        reached_in_order(roots, out),
{
    reveal(walk_why);
    assert forall|j: int| 0 <= j < out.len() implies roots.contains((#[trigger] out[j]).id)
        || exists|k: int| 0 <= k < j && out[k].task_blocked_by.contains(out[j].id) by {
        assert(reached_why(roots, out, j, out[j].id));
    }
}

/// A walk with nothing left to take up has reached exactly the closure.
pub proof fn lemma_walk_end(
    rs: Seq<RowView>,
    roots: Seq<Seq<char>>,
    out: Seq<RowView>,
    v: Seq<Seq<char>>,
    idx: Seq<int>,
)
    requires
        walk_state(rs, roots, out, v, Seq::empty(), idx),
        unique_rows(rs),
    ensures
        deps_closure(rs, roots, out),
{
    lemma_end_rows(rs, out, idx);
    lemma_end_cover(rs, roots, out, v);
    lemma_end_why(roots, out);
}

/// The result length bound that the walk keeps.
pub proof fn lemma_walk_bound(rs: Seq<RowView>, out: Seq<RowView>, idx: Seq<int>)
    requires
        walk_rows(rs, out, idx),
    ensures
        out.len() <= rs.len(),
{
    reveal(walk_rows);
}

impl SpecBoard {
    /// The rows named in `row_ids` together with all the rows they depend
    /// on, directly or through other rows. Names of rows the board does not
    /// hold are passed over.
    pub fn get_rows_with_deps(&self, row_ids: &[String]) -> (r: Result<Vec<Row>, SpecFlowError>)
        requires
            self.wf(),
        ensures
            r matches Ok(v) && deps_closure(self@.rows, row_ids@.map_values(|s: String| s@), row_views(v@)),
    {
        let ghost rs = self@.rows;
        let ghost roots = row_ids@.map_values(|s: String| s@);
        let mut result: Vec<Row> = Vec::new();
        let mut visited: Vec<String> = Vec::new();
        let mut to_visit: Vec<String> = clone_strings(row_ids);
        let ghost mut idx: Seq<int> = Seq::empty();
        proof {
            assert(views(to_visit@) == roots);
            assert(row_views(result@) =~= Seq::<RowView>::empty());
            assert(views(visited@) =~= Seq::<Seq<char>>::empty());
            lemma_walk_start(rs, roots);
        }
        while to_visit.len() > 0
            invariant
                rs == self@.rows,
                rs.len() == self.rows.len(),
                unique_rows(rs),
                roots == row_ids@.map_values(|s: String| s@),
                walk_state(rs, roots, row_views(result@), views(visited@), views(to_visit@), idx),
                result@.len() <= rs.len(),
            decreases rs.len() - result@.len(), to_visit@.len(),
        {
            let ghost t0 = views(to_visit@);
            let ghost v0 = views(visited@);
            let ghost out0 = row_views(result@);
            let row_id = match to_visit.pop() {
                Some(x) => x,
                None => String::new(),
            };
            assert(views(to_visit@) =~= t0.drop_last());
            assert(row_id@ == t0.last());
            if contains_str(&visited, row_id.as_str()) {
                proof {
                    lemma_walk_skip(rs, roots, out0, v0, t0, idx);
                }
                continue;
            }
            visited.push(row_id.clone());
            assert(views(visited@) =~= v0.push(row_id@));
            match self.find_row(row_id.as_str()) {
                None => {
                    proof {
                        lemma_walk_missing(rs, roots, out0, v0, t0, idx);
                    }
                },
                Some(k) => {
                    assert(rs[k as int] == self.rows@[k as int]@);
                    let row = self.rows[k].clone();
                    let ghost tb = views(to_visit@);
                    let ghost v1 = views(visited@);
                    let mut e: usize = 0;
                    while e < row.task_blocked_by.len()
                        invariant
                            e <= row.task_blocked_by.len(),
                            row@ == rs[k as int],
                            v1 == views(visited@),
                            views(to_visit@).len() >= tb.len(),
                            views(to_visit@).take(tb.len() as int) == tb,
                            forall|p: int| tb.len() <= p < views(to_visit@).len() ==>
                                row@.task_blocked_by.contains(#[trigger] views(to_visit@)[p]),
                            forall|d: int| 0 <= d < e ==> v1.contains(#[trigger] row@.task_blocked_by[d])
                                || views(to_visit@).contains(row@.task_blocked_by[d]),
                        decreases row.task_blocked_by.len() - e,
                    {
                        let ghost tc = views(to_visit@);
                        assert(row@.task_blocked_by[e as int] == row.task_blocked_by@[e as int]@);
                        if !contains_str(&visited, row.task_blocked_by[e].as_str()) {
                            to_visit.push(row.task_blocked_by[e].clone());
                            proof {
                                let tn = views(to_visit@);
                                assert(tn =~= tc.push(row@.task_blocked_by[e as int]));
                                assert(tn.take(tb.len() as int) =~= tc.take(tb.len() as int));
                                assert(tn[tc.len() as int] == row@.task_blocked_by[e as int]);
                                assert forall|d: int| 0 <= d < e + 1 implies v1.contains(#[trigger] row@.task_blocked_by[d])
                                    || tn.contains(row@.task_blocked_by[d]) by {
                                    if d < e && !v1.contains(row@.task_blocked_by[d]) {
                                        let p = choose|p: int| 0 <= p < tc.len() && tc[p] == row@.task_blocked_by[d];
                                        assert(tn[p] == tc[p]);
                                    }
                                }
                                assert forall|p: int| tb.len() <= p < tn.len() implies
                                    row@.task_blocked_by.contains(#[trigger] tn[p]) by {
                                    if p < tc.len() {
                                        assert(tn[p] == tc[p]);
                                    } else {
                                        assert(row@.task_blocked_by[e as int] == tn[p]);
                                    }
                                }
                            }
                        }
                        e = e + 1;
                    }
                    let ghost newr = row@;
                    proof {
                        let t1 = views(to_visit@);
                        assert(rs[k as int].id == t0.last());
                        assert(v1 == v0.push(t0.last()));
                        assert(names_within(t0.drop_last(), t1)) by {
                            assert forall|y: Seq<char>| #![trigger t0.drop_last().contains(y)] t0.drop_last().contains(y) implies t1.contains(y) by {
                                let p = choose|p: int| 0 <= p < tb.len() && tb[p] == y;
                                assert(t1.take(tb.len() as int)[p] == y);
                                assert(t1[p] == y);
                            }
                        }
                        lemma_visit_rows(rs, out0, v0, idx, k as int);
                        lemma_visit_seen(rs, out0, v0, k as int);
                        lemma_visit_cover(roots, out0, v0, t0, rs[k as int], t1);
                        lemma_visit_why(roots, out0, t0, rs[k as int], t1);
                        idx = idx.push(k as int);
                    }
                    result.push(row);
                    proof {
                        assert(row_views(result@) =~= out0.push(rs[k as int]));
                        lemma_walk_bound(rs, row_views(result@), idx);
                    }
                },
            }
        }
        proof {
            assert(views(to_visit@) =~= Seq::<Seq<char>>::empty());
            lemma_walk_end(rs, roots, row_views(result@), views(visited@), idx);
        }
        Ok(result)
    }
}
/// The text of the store's refusal of a second wire with an existing id.
pub open spec fn wire_key_taken() -> Seq<char> {
    "UNIQUE constraint failed: board_wires.id"@
}

/// The text of the store's refusal of a second wire between the same islands.
pub open spec fn wire_link_taken() -> Seq<char> {
    "UNIQUE constraint failed: board_wires.from_island_id, board_wires.to_island_id"@
}

/// The text of the store's refusal of a wire to an island it does not hold.
pub open spec fn missing_island_refused() -> Seq<char> {
    "FOREIGN KEY constraint failed"@
}

/// A new wire.
pub open spec fn new_wire(id: Seq<char>, from: Seq<char>, to: Seq<char>, now: Seq<char>) -> WireView {
    WireView { id, from_island_id: from, to_island_id: to, created_at: now }
}

impl SpecBoard {
    /// Whether a wire already runs from `from` to `to`.
    fn find_link(&self, from: &str, to: &str) -> (r: bool)
        ensures
            r == has_link(self@.wires, from@, to@),
    {
        let mut i: usize = 0;
        while i < self.wires.len()
            invariant
                i <= self.wires.len(),
                forall|j: int| 0 <= j < i ==> !((#[trigger] self@.wires[j]).from_island_id == from@
                    && self@.wires[j].to_island_id == to@),
            decreases self.wires.len() - i,
        {
            assert(self@.wires[i as int] == self.wires@[i as int]@);
            if str_eq(self.wires[i].from_island_id.as_str(), from) && str_eq(self.wires[i].to_island_id.as_str(), to) {
                return true;
            }
            i = i + 1;
        }
        false
    }

    /// Adds the wire `id` from the island `from_island_id` to the island
    /// `to_island_id`, created at `now`, and returns it. The store refuses a
    /// second wire with the same id, a second wire between the same islands,
    /// and a wire to an island it does not hold, in that order.
    pub fn create_wire(&mut self, from_island_id: &str, to_island_id: &str, id: String, now: String) -> (r: Result<Wire, SpecFlowError>)
        requires
            old(self).wf(),
        ensures
            final(self).wf(),
            has_wire(old(self)@.wires, id@) ==> {
                &&& r matches Err(SpecFlowError::Database(m)) && m@ == wire_key_taken()
                &&& final(self)@ == old(self)@
            },
            !has_wire(old(self)@.wires, id@) && has_link(old(self)@.wires, from_island_id@, to_island_id@) ==> {
                &&& r matches Err(SpecFlowError::Database(m)) && m@ == wire_link_taken()
                &&& final(self)@ == old(self)@
            },
            !has_wire(old(self)@.wires, id@) && !has_link(old(self)@.wires, from_island_id@, to_island_id@)
                && !(has_island(old(self)@.islands, from_island_id@) && has_island(old(self)@.islands, to_island_id@)) ==> {
                &&& r matches Err(SpecFlowError::Database(m)) && m@ == missing_island_refused()
                &&& final(self)@ == old(self)@
            },
            !has_wire(old(self)@.wires, id@) && !has_link(old(self)@.wires, from_island_id@, to_island_id@)
                && has_island(old(self)@.islands, from_island_id@) && has_island(old(self)@.islands, to_island_id@) ==> {
                let w = new_wire(id@, from_island_id@, to_island_id@, now@);
                &&& r matches Ok(x) && x@ == w
                &&& final(self)@ == BoardView { wires: old(self)@.wires.push(w), ..old(self)@ }
            },
    {
        if self.find_wire(id.as_str()).is_some() {
            proof {
                reveal_strlit("UNIQUE constraint failed: board_wires.id");
            }
            return Err(SpecFlowError::Database("UNIQUE constraint failed: board_wires.id".to_owned()));
        }
        if self.find_link(from_island_id, to_island_id) {
            proof {
                reveal_strlit("UNIQUE constraint failed: board_wires.from_island_id, board_wires.to_island_id");
            }
            return Err(SpecFlowError::Database(
                "UNIQUE constraint failed: board_wires.from_island_id, board_wires.to_island_id".to_owned(),
            ));
        }
        if self.find_island(from_island_id).is_none() || self.find_island(to_island_id).is_none() {
            proof {
                reveal_strlit("FOREIGN KEY constraint failed");
            }
            return Err(SpecFlowError::Database("FOREIGN KEY constraint failed".to_owned()));
        }
        let ghost ob = self@;
        let w = Wire {
            id,
            from_island_id: from_island_id.to_owned(),
            to_island_id: to_island_id.to_owned(),
            created_at: now,
        };
        let out = w.clone();
        self.wires.push(w);
        proof {
            let b = self@;
            assert(b.wires =~= ob.wires.push(out@));
            assert(b.islands == ob.islands);
            assert(b.rows == ob.rows);
            let n = ob.wires.len() as int;
            assert forall|a: int, c: int| 0 <= a < c < b.wires.len() implies (#[trigger] b.wires[a]).id != (#[trigger] b.wires[c]).id by {
                assert(b.wires[a] == ob.wires[a]);
                if c < n {
                    assert(b.wires[c] == ob.wires[c]);
                }
            }
            assert forall|a: int, c: int| 0 <= a < c < b.wires.len() implies
                !((#[trigger] b.wires[a]).from_island_id == (#[trigger] b.wires[c]).from_island_id
                    && b.wires[a].to_island_id == b.wires[c].to_island_id) by {
                assert(b.wires[a] == ob.wires[a]);
                if c < n {
                    assert(b.wires[c] == ob.wires[c]);
                }
            }
            assert forall|a: int| 0 <= a < b.wires.len() implies has_island(b.islands, (#[trigger] b.wires[a]).from_island_id)
                && has_island(b.islands, b.wires[a].to_island_id) by {
                if a < n {
                    assert(b.wires[a] == ob.wires[a]);
                }
            }
        }
        Ok(out)
    }

    /// The wire `id`.
    pub fn get_wire(&self, id: &str) -> (r: Result<Wire, SpecFlowError>)
        requires
            self.wf(),
        ensures
            r is Ok <==> has_wire(self@.wires, id@),
            match r {
                Ok(w) => w@ == self@.wires[wire_index(self@.wires, id@)],
                Err(e) => e matches SpecFlowError::WireNotFound(m) && m@ == id@,
            },
    {
        match self.find_wire(id) {
            None => Err(SpecFlowError::WireNotFound(id.to_owned())),
            Some(i) => {
                proof {
                    lemma_wire_index(self@.wires, i as int);
                }
                assert(self@.wires[i as int] == self.wires@[i as int]@);
                Ok(self.wires[i].clone())
            },
        }
    }

    /// Every wire, in board order.
    pub fn list_wires(&self) -> (r: Result<Vec<Wire>, SpecFlowError>)
        ensures
            r matches Ok(v) && v@.map_values(|w: Wire| w@) == self@.wires,
    {
        let mut out: Vec<Wire> = Vec::new();
        let mut i: usize = 0;
        while i < self.wires.len()
            invariant
                i <= self.wires.len(),
                out@.map_values(|w: Wire| w@) == self@.wires.take(i as int),
            decreases self.wires.len() - i,
        {
            let ghost before = out@;
            let c = self.wires[i].clone();
            out.push(c);
            proof {
                assert(self@.wires[i as int] == self.wires@[i as int]@);
                assert(out@.map_values(|w: Wire| w@) =~= before.map_values(|w: Wire| w@).push(self@.wires[i as int]));
                assert(self@.wires.take(i as int + 1) =~= self@.wires.take(i as int).push(self@.wires[i as int]));
            }
            i = i + 1;
        }
        assert(self@.wires.take(self.wires.len() as int) =~= self@.wires);
        Ok(out)
    }

    /// Removes the wire `id`.
    pub fn delete_wire(&mut self, id: &str) -> (r: Result<(), SpecFlowError>)
        requires
            old(self).wf(),
        ensures
            final(self).wf(),
            !has_wire(old(self)@.wires, id@) ==> {
                &&& r matches Err(SpecFlowError::WireNotFound(m)) && m@ == id@
                &&& final(self)@ == old(self)@
            },
            has_wire(old(self)@.wires, id@) ==> {
                &&& r is Ok
                &&& final(self)@ == BoardView {
                    wires: old(self)@.wires.remove(wire_index(old(self)@.wires, id@)),
                    ..old(self)@
                }
            },
    {
        let k = match self.find_wire(id) {
            None => return Err(SpecFlowError::WireNotFound(id.to_owned())),
            Some(k) => k,
        };
        proof {
            lemma_wire_index(self@.wires, k as int);
        }
        let ghost ob = self@;
        let _ = self.wires.remove(k);
        proof {
            let b = self@;
            assert(b.wires =~= ob.wires.remove(k as int));
            assert(b.islands == ob.islands);
            assert(b.rows == ob.rows);
            assert forall|a: int, c: int| 0 <= a < c < b.wires.len() implies (#[trigger] b.wires[a]).id != (#[trigger] b.wires[c]).id by {
                let a0 = if a < k { a } else { a + 1 };
                let c0 = if c < k { c } else { c + 1 };
                assert(b.wires[a] == ob.wires[a0] && b.wires[c] == ob.wires[c0]);
                assert(ob.wires[a0].id != ob.wires[c0].id);
            }
            assert forall|a: int, c: int| 0 <= a < c < b.wires.len() implies
                !((#[trigger] b.wires[a]).from_island_id == (#[trigger] b.wires[c]).from_island_id
                    && b.wires[a].to_island_id == b.wires[c].to_island_id) by {
                let a0 = if a < k { a } else { a + 1 };
                let c0 = if c < k { c } else { c + 1 };
                assert(b.wires[a] == ob.wires[a0] && b.wires[c] == ob.wires[c0]);
                assert(!(ob.wires[a0].from_island_id == ob.wires[c0].from_island_id
                    && ob.wires[a0].to_island_id == ob.wires[c0].to_island_id));
            }
            assert forall|a: int| 0 <= a < b.wires.len() implies has_island(b.islands, (#[trigger] b.wires[a]).from_island_id)
                && has_island(b.islands, b.wires[a].to_island_id) by {
                let a0 = if a < k { a } else { a + 1 };
                assert(b.wires[a] == ob.wires[a0]);
            }
        }
        Ok(())
    }
}

/// A row added to the board is read back as it was added.
pub proof fn lemma_created_row_is_read(b: BoardView, r: RowView)
    requires
        board_wf(b),
        !has_row(b.rows, r.id),
    ensures
        has_row(b.rows.push(r), r.id),
        b.rows.push(r)[row_index(b.rows.push(r), r.id)] == r,
{
    let rs = b.rows.push(r);
    assert forall|a: int, c: int| 0 <= a < c < rs.len() implies (#[trigger] rs[a]).id != (#[trigger] rs[c]).id by {
        if c == b.rows.len() {
            assert(rs[a] == b.rows[a]);
        } else {
            assert(rs[a] == b.rows[a] && rs[c] == b.rows[c]);
        }
    }
    lemma_row_index(rs, b.rows.len() as int);
}

/// A row changed in place is read back as changed.
pub proof fn lemma_updated_row_is_read(b: BoardView, id: Seq<char>, req: UpdateRowRequest, now: Seq<char>)
    requires
        board_wf(b),
        has_row(b.rows, id),
    ensures
        ({
            let k = row_index(b.rows, id);
            let rs = b.rows.update(k, updated_row(b.rows[k], req, now));
            has_row(rs, id) && rs[row_index(rs, id)] == updated_row(b.rows[k], req, now)
        }),
{
    let k = row_index(b.rows, id);
    let rs = b.rows.update(k, updated_row(b.rows[k], req, now));
    assert forall|a: int, c: int| 0 <= a < c < rs.len() implies (#[trigger] rs[a]).id != (#[trigger] rs[c]).id by {
        assert(b.rows[a].id != b.rows[c].id);
    }
    lemma_row_index(rs, k);
}

/// A deleted row is no longer on the board.
pub proof fn lemma_deleted_row_is_gone(b: BoardView, id: Seq<char>)
    requires
        board_wf(b),
        has_row(b.rows, id),
    ensures
        !has_row(b.rows.remove(row_index(b.rows, id)), id),
{
    let k = row_index(b.rows, id);
    let rs = b.rows.remove(k);
    if has_row(rs, id) {
        let j = choose|j: int| 0 <= j < rs.len() && (#[trigger] rs[j]).id == id;
        let j0 = if j < k { j } else { j + 1 };
        assert(rs[j] == b.rows[j0]);
        if j0 < k {
            assert(b.rows[j0].id != b.rows[k].id);
        } else {
            assert(b.rows[k].id != b.rows[j0].id);
        }
    }
}

/// Deleting an island leaves no row of it and no wire to or from it.
pub proof fn lemma_island_delete_leaves_nothing(b: BoardView, id: Seq<char>)
    ensures
        forall|i: int| 0 <= i < b.rows.filter(outside_island(id)).len()
            ==> (#[trigger] b.rows.filter(outside_island(id))[i]).island_id != id,
        forall|i: int| 0 <= i < b.wires.filter(detached_from(id)).len()
            ==> (#[trigger] b.wires.filter(detached_from(id))[i]).from_island_id != id
                && b.wires.filter(detached_from(id))[i].to_island_id != id,
{
    let rs = b.rows.filter(outside_island(id));
    let ws = b.wires.filter(detached_from(id));
    broadcast use vstd::seq_lib::group_filter_ensures;
    assert forall|i: int| 0 <= i < rs.len() implies (#[trigger] rs[i]).island_id != id by {
        assert(outside_island(id)(rs[i]));
    }
    assert forall|i: int| 0 <= i < ws.len() implies (#[trigger] ws[i]).from_island_id != id && ws[i].to_island_id != id by {
        assert(detached_from(id)(ws[i]));
    }
}

/// Rows read back for an island are exactly the island's rows, whatever
/// their order on the board: reading twice gives the same multiset.
pub proof fn lemma_island_read_is_a_permutation(rs: Seq<RowView>, id: Seq<char>, a: Seq<RowView>, c: Seq<RowView>)
    requires
        listed_rows(rs, id, a),
        listed_rows(rs, id, c),
    ensures
        a.to_multiset() == c.to_multiset(),
        a.len() == c.len(),
{
    a.to_multiset_ensures();
    c.to_multiset_ensures();
}

} // verus!

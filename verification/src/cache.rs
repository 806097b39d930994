//! The cached rows: what each change does to them, and the passes that rebuild
//! them from the sources.

use vstd::prelude::*;

use crate::source::{text_of, MemoryFile, MemoryView, Node, NodeView};
use crate::store::{
    clear_statement, delete_all, insert_node, insert_statement, opening_steps, prune_project,
    prune_statement, strings_of, upsert_node, upsert_statement, OpeningStep, Row, RowView,
    Statement, StatementView, SCHEMA_VERSION,
};
use crate::tree::{
    first_where, first_where_is_least, is_tree, no_fault_iff_tree, tree_fault, TreeError, TreeFault,
};

verus! {

/// The cached rows, by id.
pub type Rows = Map<Seq<char>, RowView>;

/// One change to the cache.
#[derive(Debug, PartialEq)]
pub enum Change {
    /// Adds a row whose id is new; fails on a taken id.
    Insert { row: Row },
    /// Adds a row, or replaces the one with its id.
    Upsert { row: Row },
    /// Removes the project's rows whose id is not live.
    Prune { project: String, live: Vec<String> },
    /// Removes every row.
    Clear,
}

/// What a [`Change`] holds.
pub enum ChangeView {
    Insert { row: RowView },
    Upsert { row: RowView },
    Prune { project: Seq<char>, live: Seq<Seq<char>> },
    Clear,
}

impl View for Change {
    type V = ChangeView;

    open spec fn view(&self) -> ChangeView {
        match *self {
            Change::Insert { row } => ChangeView::Insert { row: row@ },
            Change::Upsert { row } => ChangeView::Upsert { row: row@ },
            Change::Prune { project, live } => ChangeView::Prune {
                project: project@,
                live: strings_of(live@),
            },
            Change::Clear => ChangeView::Clear,
        }
    }
}

/// The changes' contents, in order.
pub open spec fn change_views(changes: Seq<Change>) -> Seq<ChangeView> {
    Seq::new(changes.len(), |i: int| changes[i]@)
}

/// The statement that makes the change.
pub open spec fn statement_of(change: ChangeView) -> StatementView {
    match change {
        ChangeView::Insert { row } => insert_statement(row),
        ChangeView::Upsert { row } => upsert_statement(row),
        ChangeView::Prune { project, live } => prune_statement(project, live),
        ChangeView::Clear => clear_statement(),
    }
}

/// The rows that pruning a project down to its live ids leaves.
pub open spec fn pruned(rows: Rows, project: Seq<char>, live: Seq<Seq<char>>) -> Rows {
    Map::new(
        |id: Seq<char>|
            rows.contains_key(id) && (rows[id].project != project || live.contains(id)),
        |id: Seq<char>| rows[id],
    )
}

/// The rows after a change. An insertion under a taken id fails, and the rows
/// stay as they are.
pub open spec fn apply(rows: Rows, change: ChangeView) -> Rows {
    match change {
        ChangeView::Insert { row } => if rows.contains_key(row.id) {
            rows
        } else {
            rows.insert(row.id, row)
        },
        ChangeView::Upsert { row } => rows.insert(row.id, row),
        ChangeView::Prune { project, live } => pruned(rows, project, live),
        ChangeView::Clear => Map::empty(),
    }
}

/// The rows after a sequence of changes.
pub open spec fn apply_all(rows: Rows, changes: Seq<ChangeView>) -> Rows
    decreases changes.len(),
{
    if changes.len() == 0 {
        rows
    } else {
        apply(apply_all(rows, changes.drop_last()), changes.last())
    }
}

/// A cache database: its table of rows, where there is one, and the version it
/// is stamped with.
pub struct Database {
    pub table: Option<Rows>,
    pub version: i64,
}

impl Database {
    /// The rows that the database holds.
    pub open spec fn rows(self) -> Rows {
        match self.table {
            Some(rows) => rows,
            None => Map::empty(),
        }
    }
}

/// The database after a step of opening it.
pub open spec fn after_step(db: Database, step: OpeningStep) -> Database {
    match step {
        OpeningStep::Reset => Database { table: None, version: db.version },
        OpeningStep::Schema => Database { table: Some(db.rows()), version: db.version },
        OpeningStep::Stamp => Database { table: db.table, version: SCHEMA_VERSION },
        OpeningStep::Logging => db,
    }
}

/// The database after a sequence of steps.
pub open spec fn after_steps(db: Database, steps: Seq<OpeningStep>) -> Database
    decreases steps.len(),
{
    if steps.len() == 0 {
        db
    } else {
        after_step(after_steps(db, steps.drop_last()), steps.last())
    }
}

/// The database after it was opened.
pub open spec fn opened(db: Database) -> Database {
    after_steps(db, opening_steps(db.version))
}

/// Opening brings any database to the current version with a table in place.
/// On any drift, older or newer, the table is empty then; without drift no row
/// is lost.
pub proof fn opening_resets_on_drift_alone(db: Database)
    ensures
        opened(db).version == SCHEMA_VERSION,
        opened(db).table is Some,
        opened(db).rows() == if db.version == SCHEMA_VERSION {
            db.rows()
        } else {
            Map::empty()
        },
{
    reveal_with_fuel(after_steps, 5);
    let steps = opening_steps(db.version);
    if db.version == SCHEMA_VERSION {
        assert(steps.drop_last() =~= seq![OpeningStep::Schema]);
        assert(seq![OpeningStep::Schema].drop_last() =~= Seq::<OpeningStep>::empty());
    } else {
        let three = seq![OpeningStep::Reset, OpeningStep::Schema, OpeningStep::Stamp];
        let two = seq![OpeningStep::Reset, OpeningStep::Schema];
        assert(steps.drop_last() =~= three);
        assert(three.drop_last() =~= two);
        assert(two.drop_last() =~= seq![OpeningStep::Reset]);
        assert(seq![OpeningStep::Reset].drop_last() =~= Seq::<OpeningStep>::empty());
    }
}

/// Opening a database again changes nothing.
pub proof fn opening_again_changes_nothing(db: Database)
    ensures
        opened(opened(db)) == opened(db),
{
    opening_resets_on_drift_alone(db);
    opening_resets_on_drift_alone(opened(db));
}

/// The row that stands for a project's node.
pub open spec fn row_of(project: Seq<char>, node: NodeView) -> RowView {
    RowView { id: node.id, project, label: node.label, content: node.content, parent: node.parent }
}

/// The ids of a list of nodes.
pub open spec fn ids_of(nodes: Seq<NodeView>) -> Seq<Seq<char>> {
    Seq::new(nodes.len(), |i: int| nodes[i].id)
}

/// The upserts of a project's first `count` nodes.
pub open spec fn upserts(mem: MemoryView, count: nat) -> Seq<ChangeView> {
    Seq::new(count, |i: int| ChangeView::Upsert { row: row_of(mem.project, mem.nodes[i]) })
}

/// The changes that bring the cache in line with one source: every node is
/// upserted, then what is no longer in the source is pruned.
pub open spec fn source_changes(mem: MemoryView) -> Seq<ChangeView> {
    upserts(mem, mem.nodes.len()).push(
        ChangeView::Prune { project: mem.project, live: ids_of(mem.nodes) },
    )
}

/// The changes that bring the cache in line with the sources, one after the
/// other.
pub open spec fn all_changes(mems: Seq<MemoryView>) -> Seq<ChangeView>
    decreases mems.len(),
{
    if mems.len() == 0 {
        Seq::empty()
    } else {
        all_changes(mems.drop_last()) + source_changes(mems.last())
    }
}

/// How many nodes the sources hold.
pub open spec fn total_nodes(mems: Seq<MemoryView>) -> nat
    decreases mems.len(),
{
    if mems.len() == 0 {
        0
    } else {
        total_nodes(mems.drop_last()) + mems.last().nodes.len()
    }
}

/// What was read of each source; nothing where it could not be read.
pub open spec fn source_views(sources: Seq<Option<MemoryFile>>) -> Seq<Option<MemoryView>> {
    Seq::new(
        sources.len(),
        |i: int|
            match sources[i] {
                Some(mem) => Some(mem@),
                None => None,
            },
    )
}

/// The memories of sources that were all read.
pub open spec fn memories(sources: Seq<Option<MemoryView>>) -> Seq<MemoryView> {
    Seq::new(sources.len(), |i: int| sources[i]->Some_0)
}

/// A source that no pass goes over: it could not be read, or is not a tree.
pub open spec fn is_unfit(source: Option<MemoryView>) -> bool {
    match source {
        Some(mem) => !is_tree(mem.nodes),
        None => true,
    }
}

/// What stops a pass.
pub enum PassFault {
    /// The source at this index could not be read.
    Unread { index: int },
    /// The source at this index is not a tree.
    Invalid { index: int, fault: TreeFault },
}

/// What stops a pass over the sources: the first one that is unfit.
pub open spec fn pass_fault(sources: Seq<Option<MemoryView>>) -> Option<PassFault> {
    match first_where(sources.len(), |i: int| is_unfit(sources[i])) {
        Some(index) => match sources[index] {
            Some(mem) => Some(
                PassFault::Invalid { index, fault: tree_fault(mem.nodes)->Some_0 },
            ),
            None => Some(PassFault::Unread { index }),
        },
        None => None,
    }
}

/// A planned pass over the sources.
#[derive(Debug, PartialEq)]
pub struct Pass {
    /// The changes, to be made in one transaction.
    pub changes: Vec<Change>,
    /// How many projects the pass goes over.
    pub projects: usize,
    /// How many nodes it materializes.
    pub nodes: usize,
}

/// Why a pass cannot be planned.
#[derive(Debug, PartialEq)]
pub enum PassError {
    Unread { index: usize },
    Invalid { index: usize, error: TreeError },
}

impl View for PassError {
    type V = PassFault;

    open spec fn view(&self) -> PassFault {
        match *self {
            PassError::Unread { index } => PassFault::Unread { index: index as int },
            PassError::Invalid { index, error } => PassFault::Invalid {
                index: index as int,
                fault: error@,
            },
        }
    }
}

fn as_slice_of(text: &Option<String>) -> (slice: Option<&str>)
    ensures
        crate::store::str_of(slice) == text_of(*text),
{
    match text {
        Some(t) => Some(t.as_str()),
        None => None,
    }
}

impl Change {
    /// The statement that makes the change.
    pub fn statement(&self) -> (statement: Statement)
        ensures
            statement@ == statement_of(self@),
    {
        match self {
            Change::Insert { row } => insert_node(
                row.project.as_str(),
                row.id.as_str(),
                row.label.as_str(),
                row.content.as_str(),
                as_slice_of(&row.parent),
            ),
            Change::Upsert { row } => upsert_node(
                row.project.as_str(),
                row.id.as_str(),
                row.label.as_str(),
                row.content.as_str(),
                as_slice_of(&row.parent),
            ),
            Change::Prune { project, live } => prune_project(project.as_str(), live),
            Change::Clear => delete_all(),
        }
    }
}

impl Row {
    /// The row that stands for a project's node.
    pub fn of_node(project: &str, node: &Node) -> (row: Self)
        ensures
            row@ == row_of(project@, node@),
            row.id@ == node.id@,
            row.project@ == project@,
            row.label@ == node.label@,
            row.content@ == node.content@,
            match node.parent {
                Some(parent) => row.parent is Some && row.parent->Some_0@ == parent@,
                None => row.parent is None,
            },
    {
        Row {
            id: node.id.clone(),
            project: project.to_owned(),
            label: node.label.clone(),
            content: node.content.clone(),
            parent: match &node.parent {
                Some(p) => Some(p.clone()),
                None => None,
            },
        }
    }
}

/// Appends the changes that bring the cache in line with one source.
fn plan_source(mem: &MemoryFile, changes: &mut Vec<Change>)
    ensures
        change_views(final(changes)@) == change_views(old(changes)@) + source_changes(mem@),
{
    let ghost before = change_views(changes@);
    let mut live: Vec<String> = Vec::new();
    let mut i: usize = 0;
    while i < mem.nodes.len()
        invariant
            i <= mem.nodes@.len(),
            strings_of(live@) == ids_of(mem@.nodes).take(i as int),
            change_views(changes@) == before + upserts(mem@, i as nat),
        decreases mem.nodes@.len() - i,
    {
        let node: &Node = &mem.nodes[i];
        let ghost was = changes@;
        let ghost was_live = live@;
        live.push(node.id.clone());
        changes.push(Change::Upsert { row: Row::of_node(mem.project.as_str(), node) });
        assert(strings_of(live@) =~= strings_of(was_live).push(node@.id));
        assert(strings_of(live@) =~= ids_of(mem@.nodes).take(i + 1));
        assert(change_views(changes@) =~= change_views(was).push(
            ChangeView::Upsert { row: row_of(mem@.project, mem@.nodes[i as int]) },
        ));
        assert(upserts(mem@, (i + 1) as nat) =~= upserts(mem@, i as nat).push(
            ChangeView::Upsert { row: row_of(mem@.project, mem@.nodes[i as int]) },
        ));
        i = i + 1;
    }
    let ghost was = changes@;
    assert(strings_of(live@) =~= ids_of(mem@.nodes));
    changes.push(Change::Prune { project: mem.project.clone(), live });
    assert(change_views(changes@) =~= change_views(was).push(
        ChangeView::Prune { project: mem@.project, live: ids_of(mem@.nodes) },
    ));
    assert(change_views(changes@) =~= before + source_changes(mem@));
}

proof fn change_count(mems: Seq<MemoryView>)
    ensures
        all_changes(mems).len() == total_nodes(mems) + mems.len(),
    decreases mems.len(),
{
    if mems.len() > 0 {
        change_count(mems.drop_last());
    }
}

/// Plans the pass that materializes every source: upserts and pruning, source
/// by source. It stops at the first source that could not be read or is not a
/// tree, and then changes nothing.
pub fn materialize_all(sources: &Vec<Option<MemoryFile>>) -> (pass: Result<Pass, PassError>)
    ensures
        match pass {
            Ok(p) => {
                let mems = memories(source_views(sources@));
                &&& pass_fault(source_views(sources@)) is None
                &&& change_views(p.changes@) == all_changes(mems)
                &&& p.projects == mems.len()
                &&& p.nodes == total_nodes(mems)
            },
            Err(e) => pass_fault(source_views(sources@)) == Some(e@),
        },
        match pass {
            Ok(p) => {
                &&& p.projects == sources@.len()
                &&& p.changes@.len() == p.nodes + p.projects
                &&& forall|i: int|
                    0 <= i < sources@.len() ==> (#[trigger] sources@[i]) is Some && is_tree(
                        sources@[i]->Some_0@.nodes,
                    )
            },
            Err(PassError::Unread { index }) => {
                &&& index < sources@.len()
                &&& sources@[index as int] is None
                &&& forall|i: int|
                    0 <= i < index ==> (#[trigger] sources@[i]) is Some && is_tree(
                        sources@[i]->Some_0@.nodes,
                    )
            },
            Err(PassError::Invalid { index, error }) => {
                &&& index < sources@.len()
                &&& sources@[index as int] is Some
                &&& !is_tree(sources@[index as int]->Some_0@.nodes)
                &&& tree_fault(sources@[index as int]->Some_0@.nodes) == Some(error@)
                &&& forall|i: int|
                    0 <= i < index ==> (#[trigger] sources@[i]) is Some && is_tree(
                        sources@[i]->Some_0@.nodes,
                    )
            },
        },
{
    let ghost views = source_views(sources@);
    let ghost mems = memories(views);
    let ghost unfit = |i: int| is_unfit(views[i]);
    let mut changes: Vec<Change> = Vec::new();
    assert(change_views(changes@) =~= all_changes(mems.take(0)));
    let mut projects: usize = 0;
    let mut nodes: usize = 0;
    while projects < sources.len()
        invariant
            projects <= sources@.len(),
            views == source_views(sources@),
            mems == memories(views),
            unfit == (|i: int| is_unfit(views[i])),
            forall|i: int| 0 <= i < projects ==> !#[trigger] unfit(i),
            forall|i: int|
                0 <= i < projects ==> (#[trigger] sources@[i]) is Some && is_tree(
                    sources@[i]->Some_0@.nodes,
                ),
            changes@.len() == nodes + projects,
            change_views(changes@) == all_changes(mems.take(projects as int)),
            nodes == total_nodes(mems.take(projects as int)),
        decreases sources@.len() - projects,
    {
        proof {
            first_where_is_least(views.len(), unfit);
        }
        match &sources[projects] {
            Some(mem) => {
                assert(views[projects as int] == Some(mem@));
                proof {
                    no_fault_iff_tree(mem@.nodes);
                }
                match mem.check_invariants() {
                    Ok(()) => {
                        let ghost done = mems.take(projects as int);
                        let ghost next = mems.take(projects + 1);
                        plan_source(mem, &mut changes);
                        proof {
                            assert(next.drop_last() =~= done);
                            assert(next.last() == mem@);
                            assert(!unfit(projects as int));
                            change_count(next);
                        }
                        let planned: usize = changes.len();
                        assert(planned == change_views(changes@).len());
                        nodes = nodes + mem.nodes.len();
                    },
                    Err(error) => {
                        assert(unfit(projects as int));
                        return Err(PassError::Invalid { index: projects, error });
                    },
                }
            },
            None => {
                assert(unfit(projects as int));
                return Err(PassError::Unread { index: projects });
            },
        }
        projects = projects + 1;
    }
    proof {
        first_where_is_least(views.len(), unfit);
        assert(mems.take(projects as int) =~= mems);
    }
    Ok(Pass { changes, projects, nodes })
}

/// Counts the rows that a pass has pruned so far, after one more change that
/// touched this many rows. Nothing where the count does not fit.
pub fn count_pruned(so_far: usize, change: &Change, touched: usize) -> (total: Option<usize>)
    ensures
        total == match *change {
            Change::Prune { .. } => if so_far + touched <= usize::MAX {
                Some((so_far + touched) as usize)
            } else {
                None
            },
            _ => Some(so_far),
        },
{
    match change {
        Change::Prune { .. } => so_far.checked_add(touched),
        _ => Some(so_far),
    }
}

/// Plans the full rebuild: the cache is emptied first.
pub fn build_all(sources: &Vec<Option<MemoryFile>>) -> (pass: Result<Pass, PassError>)
    ensures
        match pass {
            Ok(p) => {
                let mems = memories(source_views(sources@));
                &&& pass_fault(source_views(sources@)) is None
                &&& change_views(p.changes@) == seq![ChangeView::Clear] + all_changes(mems)
                &&& p.projects == mems.len()
                &&& p.nodes == total_nodes(mems)
            },
            Err(e) => pass_fault(source_views(sources@)) == Some(e@),
        },
        match pass {
            Ok(p) => {
                &&& p.projects == sources@.len()
                &&& p.changes@.len() == p.nodes + p.projects + 1
                &&& forall|i: int|
                    0 <= i < sources@.len() ==> (#[trigger] sources@[i]) is Some && is_tree(
                        sources@[i]->Some_0@.nodes,
                    )
            },
            Err(PassError::Unread { index }) => {
                &&& index < sources@.len()
                &&& sources@[index as int] is None
                &&& forall|i: int|
                    0 <= i < index ==> (#[trigger] sources@[i]) is Some && is_tree(
                        sources@[i]->Some_0@.nodes,
                    )
            },
            Err(PassError::Invalid { index, error }) => {
                &&& index < sources@.len()
                &&& sources@[index as int] is Some
                &&& !is_tree(sources@[index as int]->Some_0@.nodes)
                &&& tree_fault(sources@[index as int]->Some_0@.nodes) == Some(error@)
                &&& forall|i: int|
                    0 <= i < index ==> (#[trigger] sources@[i]) is Some && is_tree(
                        sources@[i]->Some_0@.nodes,
                    )
            },
        },
        pass matches Ok(p) ==> p.changes@[0] is Clear,
{
    match materialize_all(sources) {
        Ok(mut pass) => {
            let ghost planned = pass.changes@;
            let mut changes: Vec<Change> = Vec::new();
            changes.push(Change::Clear);
            changes.append(&mut pass.changes);
            assert(change_views(changes@) =~= seq![ChangeView::Clear] + change_views(planned));
            Ok(Pass { changes, projects: pass.projects, nodes: pass.nodes })
        },
        Err(e) => Err(e),
    }
}

/// The views of changes have every field, in order.
pub proof fn change_views_are_faithful(change: Change, changes: Seq<Change>)
    ensures
        match change {
            Change::Insert { row } => change@ == (ChangeView::Insert { row: row@ }),
            Change::Upsert { row } => change@ == (ChangeView::Upsert { row: row@ }),
            Change::Prune { project, live } => {
                &&& change@ matches ChangeView::Prune { project: p, live: l }
                &&& p == project@
                &&& l.len() == live@.len()
                &&& forall|i: int| 0 <= i < live@.len() ==> #[trigger] l[i] == live@[i]@
            },
            Change::Clear => change@ == ChangeView::Clear,
        },
        change_views(changes).len() == changes.len(),
        forall|i: int|
            0 <= i < changes.len() ==> #[trigger] change_views(changes)[i] == changes[i]@,
{
}

/// Each change is made by the statement for it.
pub proof fn changes_are_made_by_their_statements(
    row: RowView,
    project: Seq<char>,
    live: Seq<Seq<char>>,
)
    ensures
        statement_of(ChangeView::Insert { row }) == insert_statement(row),
        statement_of(ChangeView::Upsert { row }) == upsert_statement(row),
        statement_of(ChangeView::Prune { project, live }) == prune_statement(project, live),
        statement_of(ChangeView::Clear) == clear_statement(),
{
}

/// A row stands for its node: it has the node's id, label, content and parent,
/// and the project.
pub proof fn row_stands_for_its_node(project: Seq<char>, node: NodeView)
    ensures
        row_of(project, node).id == node.id,
        row_of(project, node).project == project,
        row_of(project, node).label == node.label,
        row_of(project, node).content == node.content,
        row_of(project, node).parent == node.parent,
{
}

/// An upsert leaves its row under its id, and every other row as it was.
pub proof fn upserting_replaces_one_row(rows: Rows, row: RowView, id: Seq<char>)
    ensures
        apply(rows, ChangeView::Upsert { row }).contains_key(row.id),
        apply(rows, ChangeView::Upsert { row })[row.id] == row,
        id != row.id ==> (apply(rows, ChangeView::Upsert { row }).contains_key(id)
            <==> rows.contains_key(id)),
        id != row.id && rows.contains_key(id) ==> apply(rows, ChangeView::Upsert { row })[id]
            == rows[id],
{
}

/// An insertion leaves its row under its id where that was free, and every row
/// that was there as it was.
pub proof fn inserting_adds_one_row(rows: Rows, row: RowView, id: Seq<char>)
    ensures
        apply(rows, ChangeView::Insert { row }).contains_key(row.id),
        !rows.contains_key(row.id) ==> apply(rows, ChangeView::Insert { row })[row.id] == row,
        id != row.id ==> (apply(rows, ChangeView::Insert { row }).contains_key(id)
            <==> rows.contains_key(id)),
        rows.contains_key(id) ==> apply(rows, ChangeView::Insert { row })[id] == rows[id],
{
}

/// A pruning removes exactly the project's rows whose id is not live, and
/// leaves the others as they were.
pub proof fn pruning_removes_dead_rows_alone(
    rows: Rows,
    project: Seq<char>,
    live: Seq<Seq<char>>,
    id: Seq<char>,
)
    ensures
        apply(rows, ChangeView::Prune { project, live }).contains_key(id) <==> (rows.contains_key(
            id,
        ) && (rows[id].project != project || exists|i: int|
            0 <= i < live.len() && #[trigger] live[i] == id)),
        apply(rows, ChangeView::Prune { project, live }).contains_key(id) ==> apply(
            rows,
            ChangeView::Prune { project, live },
        )[id] == rows[id],
{
    if live.contains(id) {
        let i = choose|i: int| 0 <= i < live.len() && live[i] == id;
        assert(live[i] == id);
    }
}

/// A clearing leaves no row.
pub proof fn clearing_leaves_no_row(rows: Rows, id: Seq<char>)
    ensures
        !apply(rows, ChangeView::Clear).contains_key(id),
{
}

/// Changes are made one after the other, each on what the ones before it left.
pub proof fn changes_are_made_in_order(
    rows: Rows,
    changes: Seq<ChangeView>,
    next: ChangeView,
)
    ensures
        apply_all(rows, Seq::empty()) == rows,
        apply_all(rows, changes.push(next)) == apply(apply_all(rows, changes), next),
{
    assert(changes.push(next).drop_last() =~= changes);
}

/// The changes for a source are an upsert of every node, in order, and then the
/// pruning of its project down to the ids of all of them.
pub proof fn source_is_upserted_whole_then_pruned(mem: MemoryView)
    ensures
        source_changes(mem).len() == mem.nodes.len() + 1,
        forall|i: int|
            0 <= i < mem.nodes.len() ==> #[trigger] source_changes(mem)[i] == (
            ChangeView::Upsert {
                row: RowView {
                    id: mem.nodes[i].id,
                    project: mem.project,
                    label: mem.nodes[i].label,
                    content: mem.nodes[i].content,
                    parent: mem.nodes[i].parent,
                },
            }),
        source_changes(mem)[mem.nodes.len() as int] matches ChangeView::Prune { project, live }
            && project == mem.project && live.len() == mem.nodes.len() && forall|i: int|
            0 <= i < mem.nodes.len() ==> #[trigger] live[i] == mem.nodes[i].id,
{
}

/// A pass goes over the sources one after the other, leaves none out, and
/// counts the nodes of all of them.
pub proof fn pass_goes_over_every_source(mems: Seq<MemoryView>, next: MemoryView)
    ensures
        all_changes(Seq::empty()).len() == 0,
        all_changes(mems.push(next)) == all_changes(mems) + source_changes(next),
        total_nodes(Seq::empty()) == 0,
        total_nodes(mems.push(next)) == total_nodes(mems) + next.nodes.len(),
        all_changes(mems).len() == total_nodes(mems) + mems.len(),
{
    assert(mems.push(next).drop_last() =~= mems);
    change_count(mems);
}

/// Every node of every source is upserted in a pass.
pub proof fn every_node_is_upserted(mems: Seq<MemoryView>, i: int, k: int) -> (at: int)
    requires
        0 <= i < mems.len(),
        0 <= k < mems[i].nodes.len(),
    ensures
        0 <= at < all_changes(mems).len(),
        all_changes(mems)[at] matches ChangeView::Upsert { row } && row.id == mems[i].nodes[k].id
            && row.project == mems[i].project && row.label == mems[i].nodes[k].label
            && row.content == mems[i].nodes[k].content && row.parent == mems[i].nodes[k].parent,
    decreases mems.len(),
{
    let init = mems.drop_last();
    let last = mems.last();
    source_is_upserted_whole_then_pruned(last);
    if i < init.len() {
        let at = every_node_is_upserted(init, i, k);
        assert(all_changes(mems)[at] == all_changes(init)[at]);
        at
    } else {
        let at = all_changes(init).len() as int + k;
        assert(all_changes(mems)[at] == source_changes(last)[k]);
        at
    }
}

/// Every source is taken as it was read.
pub proof fn sources_are_taken_as_read(sources: Seq<Option<MemoryFile>>, i: int)
    requires
        0 <= i < sources.len(),
    ensures
        source_views(sources).len() == sources.len(),
        match sources[i] {
            Some(mem) => source_views(sources)[i] == Some(mem@),
            None => source_views(sources)[i] is None,
        },
        memories(source_views(sources)).len() == sources.len(),
        sources[i] matches Some(mem) ==> memories(source_views(sources))[i] == mem@,
{
}

/// A pass is stopped exactly where a source was not read or is not a tree, and
/// by the first such source.
pub proof fn pass_is_stopped_by_the_first_unfit_source(sources: Seq<Option<MemoryView>>)
    ensures
        match pass_fault(sources) {
            Some(PassFault::Unread { index }) => {
                &&& 0 <= index < sources.len()
                &&& sources[index] is None
                &&& forall|i: int|
                    0 <= i < index ==> (#[trigger] sources[i]) is Some && is_tree(
                        sources[i]->Some_0.nodes,
                    )
            },
            Some(PassFault::Invalid { index, fault }) => {
                &&& 0 <= index < sources.len()
                &&& sources[index] is Some
                &&& !is_tree(sources[index]->Some_0.nodes)
                &&& tree_fault(sources[index]->Some_0.nodes) == Some(fault)
                &&& forall|i: int|
                    0 <= i < index ==> (#[trigger] sources[i]) is Some && is_tree(
                        sources[i]->Some_0.nodes,
                    )
            },
            None => forall|i: int|
                0 <= i < sources.len() ==> (#[trigger] sources[i]) is Some && is_tree(
                    sources[i]->Some_0.nodes,
                ),
        },
{
    let unfit = |i: int| is_unfit(sources[i]);
    first_where_is_least(sources.len(), unfit);
    match first_where(sources.len(), unfit) {
        Some(index) => {
            assert(unfit(index));
            if let Some(mem) = sources[index] {
                no_fault_iff_tree(mem.nodes);
            }
            assert forall|i: int| 0 <= i < index implies (#[trigger] sources[i]) is Some && is_tree(
                sources[i]->Some_0.nodes,
            ) by {
                assert(!unfit(i));
            }
        },
        None => {
            assert forall|i: int| 0 <= i < sources.len() implies (#[trigger] sources[i]) is Some
                && is_tree(sources[i]->Some_0.nodes) by {
                assert(!unfit(i));
            }
        },
    }
}

} // verus!

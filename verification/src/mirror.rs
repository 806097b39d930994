//! How the cache relates to the sources: what a pass, a rebuild and an `add`
//! leave in it, and what a query then finds.

use vstd::prelude::*;

use crate::cache::{
    all_changes, apply, apply_all, ids_of, pruned, row_of, source_changes, upserts, ChangeView,
    Rows,
};
use crate::query::{
    children_come_with_their_node, fetched, fetched_rows_are_exact, finds, ids_ascend, leads_up,
    lies_under, named_node_is_fetched, QueryView,
};
use crate::source::{holds_id, MemoryView, NodeView};
use crate::store::{
    prune_statement, pruning_spares_every_live_row, satisfies_pruning, RowView,
};
use crate::tree::{ids_distinct, is_climb, is_tree, reaches_root, root_of, tree_has_one_root};

verus! {

/// The rows of the project are exactly those that stand for the source's
/// nodes.
pub open spec fn mirrors(rows: Rows, mem: MemoryView) -> bool {
    &&& forall|i: int|
        0 <= i < mem.nodes.len() ==> {
            &&& rows.contains_key(#[trigger] mem.nodes[i].id)
            &&& rows[mem.nodes[i].id] == row_of(mem.project, mem.nodes[i])
        }
    &&& forall|id: Seq<char>| #[trigger]
        rows.contains_key(id) && rows[id].project == mem.project ==> holds_id(mem, id)
}

/// The rows of one project.
pub open spec fn in_project(rows: Rows, project: Seq<char>) -> Rows {
    Map::new(
        |id: Seq<char>| rows.contains_key(id) && rows[id].project == project,
        |id: Seq<char>| rows[id],
    )
}

/// The rows after a pass over the sources.
pub open spec fn reconciled(rows: Rows, mems: Seq<MemoryView>) -> Rows {
    apply_all(rows, all_changes(mems))
}

/// In each memory the ids are distinct, as they are in a tree.
pub open spec fn all_distinct(mems: Seq<MemoryView>) -> bool {
    forall|i: int| 0 <= i < mems.len() ==> ids_distinct(#[trigger] mems[i].nodes)
}

/// One of the memories is the project's.
pub open spec fn has_project(mems: Seq<MemoryView>, project: Seq<char>) -> bool {
    exists|i: int| 0 <= i < mems.len() && #[trigger] mems[i].project == project
}

/// One of the memories holds the id.
pub open spec fn any_holds_id(mems: Seq<MemoryView>, id: Seq<char>) -> bool {
    exists|i: int| 0 <= i < mems.len() && holds_id(#[trigger] mems[i], id)
}

pub(crate) proof fn apply_all_concat(rows: Rows, first: Seq<ChangeView>, then: Seq<ChangeView>)
    ensures
        apply_all(rows, first + then) == apply_all(apply_all(rows, first), then),
    decreases then.len(),
{
    if then.len() == 0 {
        assert(first + then =~= first);
    } else {
        assert((first + then).drop_last() =~= first + then.drop_last());
        apply_all_concat(rows, first, then.drop_last());
    }
}

pub(crate) proof fn upserts_effect(rows: Rows, mem: MemoryView, count: nat)
    requires
        ids_distinct(mem.nodes),
        count <= mem.nodes.len(),
    ensures
        ({
            let after = apply_all(rows, upserts(mem, count));
            &&& forall|i: int|
                0 <= i < count ==> {
                    &&& after.contains_key(#[trigger] mem.nodes[i].id)
                    &&& after[mem.nodes[i].id] == row_of(mem.project, mem.nodes[i])
                }
            &&& forall|id: Seq<char>| #[trigger]
                after.contains_key(id) <==> rows.contains_key(id) || exists|i: int|
                    0 <= i < count && #[trigger] mem.nodes[i].id == id
            &&& forall|id: Seq<char>|
                rows.contains_key(id) && (forall|i: int|
                    0 <= i < count ==> #[trigger] mem.nodes[i].id != id) ==> #[trigger] after[id]
                    == rows[id]
        }),
    decreases count,
{
    if count > 0 {
        let init = (count - 1) as nat;
        upserts_effect(rows, mem, init);
        assert(upserts(mem, count).drop_last() =~= upserts(mem, init));
        let before = apply_all(rows, upserts(mem, init));
        let node = mem.nodes[count - 1];
        let after = apply_all(rows, upserts(mem, count));
        assert(after == before.insert(node.id, row_of(mem.project, node)));
        assert forall|i: int| 0 <= i < count implies {
            &&& after.contains_key(#[trigger] mem.nodes[i].id)
            &&& after[mem.nodes[i].id] == row_of(mem.project, mem.nodes[i])
        } by {
            if i < init {
                assert(mem.nodes[i].id != node.id);
            }
        }
        assert forall|id: Seq<char>| #[trigger] after.contains_key(id) implies rows.contains_key(id)
            || exists|i: int| 0 <= i < count && #[trigger] mem.nodes[i].id == id by {
            if id == node.id {
                assert(mem.nodes[count - 1].id == id);
            } else {
                assert(before.contains_key(id));
            }
        }
        assert forall|id: Seq<char>|
            (rows.contains_key(id) || exists|i: int|
                0 <= i < count && #[trigger] mem.nodes[i].id == id) implies #[trigger] after.contains_key(
        id) by {
            if rows.contains_key(id) {
                assert(before.contains_key(id));
            }
        }
        assert forall|id: Seq<char>|
            rows.contains_key(id) && (forall|i: int|
                0 <= i < count ==> #[trigger] mem.nodes[i].id != id) implies #[trigger] after[id]
            == rows[id] by {
            assert(mem.nodes[count - 1].id != id);
            assert(before[id] == rows[id]);
        }
    }
}

pub(crate) proof fn live_ids_are_held(mem: MemoryView, id: Seq<char>)
    ensures
        ids_of(mem.nodes).contains(id) <==> holds_id(mem, id),
{
    let live = ids_of(mem.nodes);
    if live.contains(id) {
        let i = choose|i: int| 0 <= i < live.len() && live[i] == id;
        assert(mem.nodes[i].id == id);
    }
    if holds_id(mem, id) {
        let i = choose|i: int| 0 <= i < mem.nodes.len() && #[trigger] mem.nodes[i].id == id;
        assert(live[i] == id);
    }
}

/// Going over a source leaves exactly its nodes in its project; a row with an
/// id that the source does not hold stays if it is another project's.
pub proof fn pass_over_one_source(rows: Rows, mem: MemoryView)
    requires
        ids_distinct(mem.nodes),
    ensures
        mirrors(apply_all(rows, source_changes(mem)), mem),
        forall|id: Seq<char>|
            !holds_id(mem, id) ==> (#[trigger] apply_all(rows, source_changes(mem)).contains_key(id)
                <==> rows.contains_key(id) && rows[id].project != mem.project),
        forall|id: Seq<char>|
            !holds_id(mem, id) && #[trigger] apply_all(rows, source_changes(mem)).contains_key(id)
                ==> apply_all(rows, source_changes(mem))[id] == rows[id],
{
    let n = mem.nodes.len();
    let live = ids_of(mem.nodes);
    assert(source_changes(mem).drop_last() =~= upserts(mem, n));
    upserts_effect(rows, mem, n);
    let filled = apply_all(rows, upserts(mem, n));
    let after = apply_all(rows, source_changes(mem));
    assert(after == pruned(filled, mem.project, live));
    assert forall|id: Seq<char>| live.contains(id) <==> holds_id(mem, id) by {
        live_ids_are_held(mem, id);
    }
    assert forall|i: int| 0 <= i < n implies {
        &&& after.contains_key(#[trigger] mem.nodes[i].id)
        &&& after[mem.nodes[i].id] == row_of(mem.project, mem.nodes[i])
    } by {
        let id = mem.nodes[i].id;
        assert(holds_id(mem, id));
        assert(live.contains(id));
        assert(filled.contains_key(id));
    }
    assert forall|id: Seq<char>| !holds_id(mem, id) implies (#[trigger] after.contains_key(id)
        <==> rows.contains_key(id) && rows[id].project != mem.project) by {
        assert(filled.contains_key(id) <==> rows.contains_key(id));
        if rows.contains_key(id) {
            assert(filled[id] == rows[id]);
        }
    }
    assert forall|id: Seq<char>| !holds_id(mem, id) && #[trigger] after.contains_key(id) implies after[id]
        == rows[id] by {
        assert(filled.contains_key(id));
        assert(filled[id] == rows[id]);
    }
    assert forall|id: Seq<char>| #[trigger]
        after.contains_key(id) && after[id].project == mem.project implies holds_id(mem, id) by {
        if !holds_id(mem, id) {
            assert(filled.contains_key(id));
        }
    }
}

proof fn pass_ends_with_last_source(rows: Rows, mems: Seq<MemoryView>)
    requires
        mems.len() > 0,
    ensures
        reconciled(rows, mems) == apply_all(
            reconciled(rows, mems.drop_last()),
            source_changes(mems.last()),
        ),
{
    apply_all_concat(rows, all_changes(mems.drop_last()), source_changes(mems.last()));
}

/// After a pass, the cache mirrors a source, whatever it held before, unless a
/// later source is of the same project or holds one of its ids.
pub proof fn pass_mirrors_source(rows: Rows, mems: Seq<MemoryView>, i: int)
    requires
        all_distinct(mems),
        0 <= i < mems.len(),
        forall|j: int| i < j < mems.len() ==> #[trigger] mems[j].project != mems[i].project,
        forall|j: int, id: Seq<char>|
            i < j < mems.len() && holds_id(mems[i], id) ==> !#[trigger] holds_id(mems[j], id),
    ensures
        mirrors(reconciled(rows, mems), mems[i]),
    decreases mems.len(),
{
    let last = mems.last();
    let init = mems.drop_last();
    let before = reconciled(rows, init);
    let after = reconciled(rows, mems);
    pass_ends_with_last_source(rows, mems);
    assert(ids_distinct(mems[mems.len() - 1].nodes));
    pass_over_one_source(before, last);
    if i < mems.len() - 1 {
        let mem = mems[i];
        assert(init[i] == mem);
        assert forall|j: int| 0 <= j < init.len() implies ids_distinct(
            #[trigger] init[j].nodes,
        ) by {
            assert(ids_distinct(mems[j].nodes));
        }
        assert forall|j: int| i < j < init.len() implies #[trigger] init[j].project
            != init[i].project by {
            assert(mems[j].project != mem.project);
        }
        assert forall|j: int, id: Seq<char>|
            i < j < init.len() && holds_id(init[i], id) implies !#[trigger] holds_id(
            init[j],
            id,
        ) by {
            assert(!holds_id(mems[j], id));
        }
        pass_mirrors_source(rows, init, i);
        let l = mems.len() - 1;
        assert(mems[l].project != mem.project);
        assert forall|k: int| 0 <= k < mem.nodes.len() implies {
            &&& after.contains_key(#[trigger] mem.nodes[k].id)
            &&& after[mem.nodes[k].id] == row_of(mem.project, mem.nodes[k])
        } by {
            let id = mem.nodes[k].id;
            assert(holds_id(mem, id));
            assert(!holds_id(mems[l], id));
            assert(before.contains_key(id));
            assert(after.contains_key(id));
        }
        assert forall|id: Seq<char>| #[trigger]
            after.contains_key(id) && after[id].project == mem.project implies holds_id(
            mem,
            id,
        ) by {
            if holds_id(last, id) {
                let k = choose|k: int|
                    0 <= k < last.nodes.len() && #[trigger] last.nodes[k].id == id;
                assert(after[last.nodes[k].id] == row_of(last.project, last.nodes[k]));
            }
            assert(before.contains_key(id));
        }
    }
}

/// Two rows of mirrors of the same source are equal.
proof fn mirrors_agree(a: Rows, b: Rows, mem: MemoryView)
    requires
        mirrors(a, mem),
        mirrors(b, mem),
    ensures
        in_project(a, mem.project) == in_project(b, mem.project),
{
    assert forall|id: Seq<char>| holds_id(mem, id) implies {
        &&& a.contains_key(id)
        &&& b.contains_key(id)
        &&& a[id] == b[id]
        &&& a[id].project == mem.project
    } by {
        let k = choose|k: int| 0 <= k < mem.nodes.len() && #[trigger] mem.nodes[k].id == id;
        assert(a[mem.nodes[k].id] == row_of(mem.project, mem.nodes[k]));
        assert(b[mem.nodes[k].id] == row_of(mem.project, mem.nodes[k]));
    }
    assert(in_project(a, mem.project) =~= in_project(b, mem.project));
}

/// What a pass leaves of a registered project does not depend on what the
/// cache held before.
pub proof fn pass_forgets_registered_projects(
    a: Rows,
    b: Rows,
    mems: Seq<MemoryView>,
    project: Seq<char>,
)
    requires
        all_distinct(mems),
        has_project(mems, project),
    ensures
        in_project(reconciled(a, mems), project) == in_project(reconciled(b, mems), project),
    decreases mems.len(),
{
    let last = mems.last();
    let init = mems.drop_last();
    pass_ends_with_last_source(a, mems);
    pass_ends_with_last_source(b, mems);
    assert(ids_distinct(mems[mems.len() - 1].nodes));
    let a0 = reconciled(a, init);
    let b0 = reconciled(b, init);
    let a1 = reconciled(a, mems);
    let b1 = reconciled(b, mems);
    pass_over_one_source(a0, last);
    pass_over_one_source(b0, last);
    if last.project == project {
        mirrors_agree(a1, b1, last);
    } else {
        let i = choose|i: int| 0 <= i < mems.len() && #[trigger] mems[i].project == project;
        assert(init[i].project == project);
        assert forall|j: int| 0 <= j < init.len() implies ids_distinct(
            #[trigger] init[j].nodes,
        ) by {
            assert(ids_distinct(mems[j].nodes));
        }
        pass_forgets_registered_projects(a, b, init, project);
        let a_was = in_project(a0, project);
        let b_was = in_project(b0, project);
        assert forall|id: Seq<char>| holds_id(last, id) implies {
            &&& !in_project(a1, project).contains_key(id)
            &&& !in_project(b1, project).contains_key(id)
        } by {
            let k = choose|k: int| 0 <= k < last.nodes.len() && #[trigger] last.nodes[k].id == id;
            assert(a1[last.nodes[k].id] == row_of(last.project, last.nodes[k]));
            assert(b1[last.nodes[k].id] == row_of(last.project, last.nodes[k]));
        }
        assert forall|id: Seq<char>| !holds_id(last, id) implies {
            &&& in_project(a1, project).contains_key(id) <==> a_was.contains_key(id)
            &&& in_project(b1, project).contains_key(id) <==> b_was.contains_key(id)
            &&& a_was.contains_key(id) ==> a1[id] == a_was[id]
            &&& b_was.contains_key(id) ==> b1[id] == b_was[id]
        } by {
            assert(a1.contains_key(id) <==> a0.contains_key(id) && a0[id].project != last.project);
            assert(b1.contains_key(id) <==> b0.contains_key(id) && b0[id].project != last.project);
        }
        assert(in_project(a1, project) =~= in_project(b1, project));
    }
}

/// A full rebuild leaves what a pass over an empty cache leaves: nothing of the
/// cache was precious.
pub proof fn build_starts_from_nothing(rows: Rows, mems: Seq<MemoryView>)
    ensures
        apply_all(rows, seq![ChangeView::Clear] + all_changes(mems)) == reconciled(
            Map::empty(),
            mems,
        ),
{
    apply_all_concat(rows, seq![ChangeView::Clear], all_changes(mems));
    assert(seq![ChangeView::Clear].drop_last() =~= Seq::<ChangeView>::empty());
    assert(apply_all(rows, Seq::<ChangeView>::empty()) == rows);
    assert(apply_all(rows, seq![ChangeView::Clear]) == Map::<Seq<char>, RowView>::empty());
}

/// The incremental pass and the full rebuild agree on every registered
/// project.
pub proof fn reconcile_agrees_with_build(rows: Rows, mems: Seq<MemoryView>, project: Seq<char>)
    requires
        all_distinct(mems),
        has_project(mems, project),
    ensures
        in_project(apply_all(rows, all_changes(mems)), project) == in_project(
            apply_all(rows, seq![ChangeView::Clear] + all_changes(mems)),
            project,
        ),
{
    build_starts_from_nothing(rows, mems);
    pass_forgets_registered_projects(rows, Map::empty(), mems, project);
}

/// After a full rebuild every row is of a registered project.
pub proof fn build_holds_registered_projects_alone(mems: Seq<MemoryView>, id: Seq<char>)
    requires
        all_distinct(mems),
        reconciled(Map::empty(), mems).contains_key(id),
    ensures
        has_project(mems, reconciled(Map::empty(), mems)[id].project),
        any_holds_id(mems, id),
{
    let project = reconciled(Map::empty(), mems)[id].project;
    if !has_project(mems, project) {
        pass_keeps_unregistered_rows(Map::empty(), mems, project, id);
    } else {
        rows_of_registered_projects_are_live(Map::empty(), mems, id);
    }
}

/// After a pass, the id of every row of a registered project is in a source.
pub proof fn rows_of_registered_projects_are_live(
    rows: Rows,
    mems: Seq<MemoryView>,
    id: Seq<char>,
)
    requires
        all_distinct(mems),
        reconciled(rows, mems).contains_key(id),
        has_project(mems, reconciled(rows, mems)[id].project),
    ensures
        any_holds_id(mems, id),
    decreases mems.len(),
{
    let last = mems.last();
    let init = mems.drop_last();
    let l = mems.len() - 1;
    pass_ends_with_last_source(rows, mems);
    assert(ids_distinct(mems[l].nodes));
    let before = reconciled(rows, init);
    let after = reconciled(rows, mems);
    pass_over_one_source(before, last);
    if holds_id(last, id) {
        assert(holds_id(mems[l], id));
    } else {
        let project = after[id].project;
        let i = choose|i: int| 0 <= i < mems.len() && #[trigger] mems[i].project == project;
        assert(after[id] == before[id]);
        assert(init[i].project == project);
        assert forall|j: int| 0 <= j < init.len() implies ids_distinct(
            #[trigger] init[j].nodes,
        ) by {
            assert(ids_distinct(mems[j].nodes));
        }
        rows_of_registered_projects_are_live(rows, init, id);
        let k = choose|k: int| 0 <= k < init.len() && holds_id(#[trigger] init[k], id);
        assert(holds_id(mems[k], id));
    }
}

pub(crate) proof fn any_holds_id_splits(mems: Seq<MemoryView>, id: Seq<char>)
    requires
        mems.len() > 0,
    ensures
        any_holds_id(mems, id) <==> any_holds_id(mems.drop_last(), id) || holds_id(
            mems.last(),
            id,
        ),
{
    let init = mems.drop_last();
    let l = mems.len() - 1;
    if any_holds_id(mems, id) {
        let k = choose|k: int| 0 <= k < mems.len() && holds_id(#[trigger] mems[k], id);
        if k < l {
            assert(holds_id(init[k], id));
        }
    }
    if any_holds_id(init, id) {
        let k = choose|k: int| 0 <= k < init.len() && holds_id(#[trigger] init[k], id);
        assert(holds_id(mems[k], id));
    }
    if holds_id(mems.last(), id) {
        assert(holds_id(mems[l], id));
    }
}

/// A pass keeps a row of an unregistered project exactly when no source holds
/// its id, and writes no such row.
pub proof fn pass_keeps_unregistered_rows(
    rows: Rows,
    mems: Seq<MemoryView>,
    project: Seq<char>,
    id: Seq<char>,
)
    requires
        all_distinct(mems),
        !has_project(mems, project),
    ensures
        in_project(reconciled(rows, mems), project).contains_key(id) <==> in_project(
            rows,
            project,
        ).contains_key(id) && !any_holds_id(mems, id),
        in_project(reconciled(rows, mems), project).contains_key(id) ==> reconciled(rows, mems)[id]
            == rows[id],
    decreases mems.len(),
{
    if mems.len() > 0 {
        let last = mems.last();
        let init = mems.drop_last();
        let l = mems.len() - 1;
        pass_ends_with_last_source(rows, mems);
        assert(ids_distinct(mems[l].nodes));
        assert(mems[l].project != project);
        let before = reconciled(rows, init);
        let after = reconciled(rows, mems);
        pass_over_one_source(before, last);
        assert forall|j: int| 0 <= j < init.len() implies ids_distinct(
            #[trigger] init[j].nodes,
        ) by {
            assert(ids_distinct(mems[j].nodes));
        }
        assert(!has_project(init, project)) by {
            assert forall|j: int| 0 <= j < init.len() implies #[trigger] init[j].project
                != project by {
                assert(mems[j].project != project);
            }
        }
        pass_keeps_unregistered_rows(rows, init, project, id);
        any_holds_id_splits(mems, id);
        if holds_id(last, id) {
            let k = choose|k: int| 0 <= k < last.nodes.len() && #[trigger] last.nodes[k].id == id;
            assert(after[last.nodes[k].id] == row_of(last.project, last.nodes[k]));
        } else {
            assert(after.contains_key(id) <==> before.contains_key(id) && before[id].project
                != last.project);
        }
    }
}

/// A second pass over the same sources changes nothing.
pub proof fn pass_is_idempotent(rows: Rows, mems: Seq<MemoryView>)
    requires
        all_distinct(mems),
    ensures
        reconciled(reconciled(rows, mems), mems) == reconciled(rows, mems),
{
    let once = reconciled(rows, mems);
    let twice = reconciled(once, mems);
    assert forall|project: Seq<char>, id: Seq<char>|
        #![trigger in_project(twice, project), in_project(once, project).contains_key(id)]
        {
            &&& in_project(twice, project).contains_key(id) <==> in_project(
                once,
                project,
            ).contains_key(id)
            &&& in_project(once, project).contains_key(id) ==> twice[id] == once[id]
        } by {
        if has_project(mems, project) {
            pass_forgets_registered_projects(once, rows, mems, project);
            if in_project(once, project).contains_key(id) {
                assert(in_project(twice, project)[id] == in_project(once, project)[id]);
            }
        } else {
            pass_keeps_unregistered_rows(rows, mems, project, id);
            pass_keeps_unregistered_rows(once, mems, project, id);
        }
    }
    assert forall|id: Seq<char>| twice.contains_key(id) <==> once.contains_key(id) by {
        if twice.contains_key(id) {
            assert(in_project(twice, twice[id].project).contains_key(id));
            assert(in_project(once, twice[id].project).contains_key(id));
        }
        if once.contains_key(id) {
            assert(in_project(once, once[id].project).contains_key(id));
            assert(in_project(twice, once[id].project).contains_key(id));
        }
    }
    assert forall|id: Seq<char>| once.contains_key(id) implies twice[id] == once[id] by {
        let project = once[id].project;
        assert(in_project(once, project).contains_key(id));
        assert(in_project(twice, project).contains_key(id));
    }
    assert(twice =~= once);
}

/// Going over a source that the cache already mirrors changes nothing.
pub proof fn mirrored_source_changes_nothing(rows: Rows, mem: MemoryView)
    requires
        ids_distinct(mem.nodes),
        mirrors(rows, mem),
    ensures
        apply_all(rows, source_changes(mem)) == rows,
{
    let after = apply_all(rows, source_changes(mem));
    pass_over_one_source(rows, mem);
    assert forall|id: Seq<char>| {
        &&& after.contains_key(id) <==> rows.contains_key(id)
        &&& rows.contains_key(id) ==> #[trigger] after[id] == rows[id]
    } by {
        if holds_id(mem, id) {
            let k = choose|k: int| 0 <= k < mem.nodes.len() && #[trigger] mem.nodes[k].id == id;
            assert(after[mem.nodes[k].id] == row_of(mem.project, mem.nodes[k]));
            assert(rows[mem.nodes[k].id] == row_of(mem.project, mem.nodes[k]));
        } else {
            assert(after.contains_key(id) <==> rows.contains_key(id) && rows[id].project
                != mem.project);
        }
    }
    assert(after =~= rows);
}

/// Inserting the row of an appended node keeps the cache in line with the
/// source: adding is the ingest, and no pass is needed after it.
pub proof fn adding_keeps_the_mirror(rows: Rows, mem: MemoryView, node: NodeView)
    requires
        mirrors(rows, mem),
        !rows.contains_key(node.id),
    ensures
        mirrors(
            apply(rows, ChangeView::Insert { row: row_of(mem.project, node) }),
            MemoryView { project: mem.project, nodes: mem.nodes.push(node) },
        ),
{
    let after = apply(rows, ChangeView::Insert { row: row_of(mem.project, node) });
    let grown = MemoryView { project: mem.project, nodes: mem.nodes.push(node) };
    assert forall|i: int| 0 <= i < grown.nodes.len() implies {
        &&& after.contains_key(#[trigger] grown.nodes[i].id)
        &&& after[grown.nodes[i].id] == row_of(grown.project, grown.nodes[i])
    } by {
        if i < mem.nodes.len() {
            assert(rows.contains_key(mem.nodes[i].id));
        }
    }
    assert forall|id: Seq<char>| #[trigger]
        after.contains_key(id) && after[id].project == grown.project implies holds_id(
        grown,
        id,
    ) by {
        if id == node.id {
            assert(grown.nodes[mem.nodes.len() as int].id == id);
        } else {
            assert(rows.contains_key(id));
            let k = choose|k: int| 0 <= k < mem.nodes.len() && #[trigger] mem.nodes[k].id == id;
            assert(grown.nodes[k].id == id);
        }
    }
}

/// Pruning removes rows of its own project alone, and of those exactly the
/// ones whose id is not live.
pub proof fn pruning_is_a_set_difference(
    rows: Rows,
    project: Seq<char>,
    live: Seq<Seq<char>>,
    id: Seq<char>,
)
    requires
        rows.contains_key(id),
    ensures
        pruned(rows, project, live).contains_key(id) <==> !(rows[id].project == project
            && !live.contains(id)),
        pruned(rows, project, live).contains_key(id) ==> pruned(rows, project, live)[id]
            == rows[id],
{
}

/// Every row is kept under its own id.
pub open spec fn is_keyed(rows: Rows) -> bool {
    forall|id: Seq<char>| #[trigger] rows.contains_key(id) ==> rows[id].id == id
}

/// Changes keep every row under its own id.
pub proof fn changes_keep_rows_keyed(rows: Rows, changes: Seq<ChangeView>)
    requires
        is_keyed(rows),
    ensures
        is_keyed(apply_all(rows, changes)),
    decreases changes.len(),
{
    if changes.len() > 0 {
        changes_keep_rows_keyed(rows, changes.drop_last());
        let before = apply_all(rows, changes.drop_last());
        let after = apply_all(rows, changes);
        assert forall|id: Seq<char>| #[trigger] after.contains_key(id) implies after[id].id
            == id by {
            if before.contains_key(id) {
                assert(before[id].id == id);
            }
        }
    }
}

/// An insertion never overwrites a row, of whatever project: every row that is
/// there stays, and under a taken id nothing changes at all.
pub proof fn insertion_never_overwrites(rows: Rows, row: RowView, id: Seq<char>)
    requires
        rows.contains_key(id),
    ensures
        apply(rows, ChangeView::Insert { row }).contains_key(id),
        apply(rows, ChangeView::Insert { row })[id] == rows[id],
        row.id == id ==> apply(rows, ChangeView::Insert { row }) == rows,
{
}

/// A pass holds no insertion, so no taken id can make it fail.
pub proof fn pass_inserts_nothing(mems: Seq<MemoryView>, k: int)
    requires
        0 <= k < all_changes(mems).len(),
    ensures
        !(all_changes(mems)[k] is Insert),
    decreases mems.len(),
{
    let before = all_changes(mems.drop_last());
    if k < before.len() {
        pass_inserts_nothing(mems.drop_last(), k);
    } else {
        assert(all_changes(mems)[k] == source_changes(mems.last())[k - before.len()]);
    }
}

/// A query by id names the row with that id and no other.
pub proof fn id_finds_its_row_alone(rows: Rows, id: Seq<char>, other: Seq<char>)
    requires
        is_keyed(rows),
        rows.contains_key(other),
    ensures
        finds(QueryView::ById { id }, rows[other]) <==> other == id,
{
}

/// The list holds exactly the project's rows, in ascending order of their ids.
pub open spec fn is_listing(rows: Rows, project: Seq<char>, list: Seq<RowView>) -> bool {
    &&& ids_ascend(list)
    &&& forall|i: int|
        0 <= i < list.len() ==> {
            &&& (#[trigger] list[i]).project == project
            &&& rows.contains_key(list[i].id)
            &&& rows[list[i].id] == list[i]
        }
    &&& forall|id: Seq<char>| #[trigger]
        rows.contains_key(id) && rows[id].project == project ==> list.contains(rows[id])
}

/// A node that was added is fetched by its id and by its label, without a pass
/// in between.
pub proof fn added_node_is_found(
    rows: Rows,
    project: Seq<char>,
    node: NodeView,
    list: Seq<RowView>,
)
    requires
        !rows.contains_key(node.id),
        is_listing(
            apply(rows, ChangeView::Insert { row: row_of(project, node) }),
            project,
            list,
        ),
    ensures
        fetched(list, project, QueryView::ById { id: node.id }).contains(row_of(project, node)),
        fetched(list, project, QueryView::ByLabel { label: node.label }).contains(
            row_of(project, node),
        ),
{
    let row = row_of(project, node);
    let after = apply(rows, ChangeView::Insert { row });
    assert(after.contains_key(node.id) && after[node.id] == row);
    let i = choose|i: int| 0 <= i < list.len() && list[i] == row;
    let by_id = QueryView::ById { id: node.id };
    let by_label = QueryView::ByLabel { label: node.label };
    named_node_is_fetched(list, project, by_id, i);
    named_node_is_fetched(list, project, by_label, i);
    fetched_rows_are_exact(list, project, by_id, row);
    fetched_rows_are_exact(list, project, by_label, row);
}

/// A rationale that was attached to a node is fetched with that node, without a
/// pass in between.
pub proof fn attached_rationale_is_fetched_with_its_node(
    rows: Rows,
    project: Seq<char>,
    node: NodeView,
    parent: Seq<char>,
    query: QueryView,
    list: Seq<RowView>,
)
    requires
        is_keyed(rows),
        !rows.contains_key(node.id),
        node.parent == Some(parent),
        rows.contains_key(parent),
        rows[parent].project == project,
        finds(query, rows[parent]),
        is_listing(
            apply(rows, ChangeView::Insert { row: row_of(project, node) }),
            project,
            list,
        ),
    ensures
        fetched(list, project, query).contains(rows[parent]),
        fetched(list, project, query).contains(row_of(project, node)),
{
    let row = row_of(project, node);
    let after = apply(rows, ChangeView::Insert { row });
    assert(after.contains_key(node.id) && after[node.id] == row);
    assert(after.contains_key(parent) && after[parent] == rows[parent]);
    let up = choose|i: int| 0 <= i < list.len() && list[i] == rows[parent];
    let i = choose|i: int| 0 <= i < list.len() && list[i] == row;
    named_node_is_fetched(list, project, query, up);
    children_come_with_their_node(list, project, query, up, i);
    fetched_rows_are_exact(list, project, query, rows[parent]);
    fetched_rows_are_exact(list, project, query, row);
}

/// What a query fetches does not depend on the order of the rows, and more rows
/// never take anything away.
proof fn fetching_grows_with_the_rows(
    a: Seq<RowView>,
    b: Seq<RowView>,
    project: Seq<char>,
    query: QueryView,
    row: RowView,
)
    requires
        forall|i: int| 0 <= i < a.len() ==> b.contains(#[trigger] a[i]),
        fetched(a, project, query).contains(row),
    ensures
        fetched(b, project, query).contains(row),
{
    fetched_rows_are_exact(a, project, query, row);
    let i = choose|i: int|
        0 <= i < a.len() && #[trigger] lies_under(a, project, i, query) && a[i] == row;
    let path = choose|path: Seq<int>| #[trigger]
        leads_up(a, project, path, query) && path[0] == i;
    let moved = Seq::new(path.len(), |k: int| b.index_of(a[path[k]]));
    assert forall|k: int| 0 <= k < moved.len() implies 0 <= #[trigger] moved[k] < b.len()
        && b[moved[k]] == a[path[k]] && b[moved[k]].project == project by {
        assert(0 <= path[k] < a.len());
        assert(b.contains(a[path[k]]));
    }
    assert forall|k: int, m: int| 0 <= k && m == k + 1 && m < moved.len() implies b[
    #[trigger] moved[k]].parent == Some(b[#[trigger] moved[m]].id) by {
        assert(a[path[k]].parent == Some(a[path[m]].id));
    }
    assert(b[moved.last()] == a[path.last()]) by {
        assert(moved.last() == moved[moved.len() - 1]);
        assert(path.last() == path[path.len() - 1]);
    }
    assert(leads_up(b, project, moved, query));
    assert(lies_under(b, project, moved[0], query));
    assert(path[0] == i && b[moved[0]] == row);
    fetched_rows_are_exact(b, project, query, row);
}

/// The rows that stand for a source's nodes, in the order of the source.
pub open spec fn source_rows(mem: MemoryView) -> Seq<RowView> {
    Seq::new(mem.nodes.len(), |i: int| row_of(mem.project, mem.nodes[i]))
}

/// Where the cache mirrors a source, a query fetches exactly the nodes that it
/// would fetch from the source itself.
pub proof fn mirrored_answers_are_the_sources(
    rows: Rows,
    mem: MemoryView,
    list: Seq<RowView>,
    query: QueryView,
    row: RowView,
)
    requires
        mirrors(rows, mem),
        is_listing(rows, mem.project, list),
    ensures
        fetched(list, mem.project, query).contains(row) <==> fetched(
            source_rows(mem),
            mem.project,
            query,
        ).contains(row),
{
    let source = source_rows(mem);
    assert forall|i: int| 0 <= i < list.len() implies source.contains(#[trigger] list[i]) by {
        let id = list[i].id;
        assert(rows.contains_key(id));
        let k = choose|k: int| 0 <= k < mem.nodes.len() && #[trigger] mem.nodes[k].id == id;
        assert(rows[mem.nodes[k].id] == row_of(mem.project, mem.nodes[k]));
        assert(source[k] == list[i]);
    }
    assert forall|i: int| 0 <= i < source.len() implies list.contains(#[trigger] source[i]) by {
        assert(rows.contains_key(mem.nodes[i].id));
        assert(rows[mem.nodes[i].id] == row_of(mem.project, mem.nodes[i]));
    }
    if fetched(list, mem.project, query).contains(row) {
        fetching_grows_with_the_rows(list, source, mem.project, query, row);
    }
    if fetched(source, mem.project, query).contains(row) {
        fetching_grows_with_the_rows(source, list, mem.project, query, row);
    }
}

/// A query for the root of a tree fetches every node of it.
pub proof fn root_fetches_the_whole_tree(mem: MemoryView, i: int)
    requires
        is_tree(mem.nodes),
        0 <= i < mem.nodes.len(),
    ensures
        root_of(mem.nodes) matches Some(root) && lies_under(
            source_rows(mem),
            mem.project,
            i,
            QueryView::ById { id: root },
        ),
{
    tree_has_one_root(mem.nodes);
    let root = root_of(mem.nodes)->Some_0;
    let rows = source_rows(mem);
    let query = QueryView::ById { id: root };
    assert(reaches_root(mem.nodes, i));
    let path = choose|path: Seq<int>| #[trigger] is_climb(mem.nodes, path) && path[0] == i;
    assert(path.last() == path[path.len() - 1]);
    assert(mem.nodes[path.last()].parent is None);
    assert forall|k: int, m: int| 0 <= k && m == k + 1 && m < path.len() implies rows[
    #[trigger] path[k]].parent == Some(rows[#[trigger] path[m]].id) by {
        assert(mem.nodes[path[k]].parent == Some(mem.nodes[path[m]].id));
    }
    assert(finds(query, rows[path.last()]));
    assert(leads_up(rows, mem.project, path, query));
}

/// The cache mirrors a source exactly when every node has its row, with all its
/// fields, and every row of the project is a node's.
pub proof fn mirroring_is_exact(rows: Rows, mem: MemoryView)
    ensures
        mirrors(rows, mem) <==> {
            &&& forall|i: int|
                0 <= i < mem.nodes.len() ==> {
                    &&& rows.contains_key(#[trigger] mem.nodes[i].id)
                    &&& rows[mem.nodes[i].id].id == mem.nodes[i].id
                    &&& rows[mem.nodes[i].id].project == mem.project
                    &&& rows[mem.nodes[i].id].label == mem.nodes[i].label
                    &&& rows[mem.nodes[i].id].content == mem.nodes[i].content
                    &&& rows[mem.nodes[i].id].parent == mem.nodes[i].parent
                }
            &&& forall|id: Seq<char>| #[trigger]
                rows.contains_key(id) && rows[id].project == mem.project ==> exists|i: int|
                    0 <= i < mem.nodes.len() && #[trigger] mem.nodes[i].id == id
        },
{
    assert forall|i: int|
        0 <= i < mem.nodes.len() implies (rows[#[trigger] mem.nodes[i].id] == row_of(
        mem.project,
        mem.nodes[i],
    ) <==> {
        &&& rows[mem.nodes[i].id].id == mem.nodes[i].id
        &&& rows[mem.nodes[i].id].project == mem.project
        &&& rows[mem.nodes[i].id].label == mem.nodes[i].label
        &&& rows[mem.nodes[i].id].content == mem.nodes[i].content
        &&& rows[mem.nodes[i].id].parent == mem.nodes[i].parent
    }) by {}
}

/// The changes for a source leave every node of it in the cache, with all its
/// fields, and no other row of its project.
pub proof fn source_is_in_the_cache_after_its_changes(rows: Rows, mem: MemoryView)
    requires
        forall|i: int, j: int|
            0 <= i < j < mem.nodes.len() ==> mem.nodes[i].id != mem.nodes[j].id,
    ensures
        ({
            let after = apply_all(rows, source_changes(mem));
            &&& forall|i: int|
                0 <= i < mem.nodes.len() ==> {
                    &&& after.contains_key(#[trigger] mem.nodes[i].id)
                    &&& after[mem.nodes[i].id].id == mem.nodes[i].id
                    &&& after[mem.nodes[i].id].project == mem.project
                    &&& after[mem.nodes[i].id].label == mem.nodes[i].label
                    &&& after[mem.nodes[i].id].content == mem.nodes[i].content
                    &&& after[mem.nodes[i].id].parent == mem.nodes[i].parent
                }
            &&& forall|id: Seq<char>| #[trigger]
                after.contains_key(id) && after[id].project == mem.project ==> exists|i: int|
                    0 <= i < mem.nodes.len() && #[trigger] mem.nodes[i].id == id
        }),
{
    pass_over_one_source(rows, mem);
    mirroring_is_exact(apply_all(rows, source_changes(mem)), mem);
}

/// A pruning keeps exactly the rows that its statement does not delete.
pub proof fn pruning_does_what_its_statement_says(
    rows: Rows,
    project: Seq<char>,
    live: Seq<Seq<char>>,
    id: Seq<char>,
)
    requires
        is_keyed(rows),
        rows.contains_key(id),
    ensures
        apply(rows, ChangeView::Prune { project, live }).contains_key(id) <==> !satisfies_pruning(
            prune_statement(project, live).params,
            rows[id],
        ),
{
    pruning_spares_every_live_row(project, live, rows[id]);
    if live.contains(id) {
        let i = choose|i: int| 0 <= i < live.len() && live[i] == id;
        assert(live[i] == rows[id].id);
    }
}

/// The pruning of a source deletes none of the rows of its nodes.
pub proof fn pruning_a_source_spares_its_nodes(mem: MemoryView, i: int)
    requires
        0 <= i < mem.nodes.len(),
    ensures
        source_changes(mem)[mem.nodes.len() as int] matches ChangeView::Prune { project, live }
            && !satisfies_pruning(
            prune_statement(project, live).params,
            row_of(mem.project, mem.nodes[i]),
        ),
{
    let live = ids_of(mem.nodes);
    pruning_spares_every_live_row(mem.project, live, row_of(mem.project, mem.nodes[i]));
    assert(live[i] == mem.nodes[i].id);
}

/// The rows of a project are exactly those that have it as their project.
pub proof fn rows_of_a_project_are_its_own(rows: Rows, project: Seq<char>, id: Seq<char>)
    ensures
        in_project(rows, project).contains_key(id) <==> rows.contains_key(id) && rows[id].project
            == project,
        in_project(rows, project).contains_key(id) ==> in_project(rows, project)[id] == rows[id],
{
}

} // verus!

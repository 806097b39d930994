//! How many rows a pass prunes.

use vstd::prelude::*;

use crate::cache::{
    all_changes, apply_all, ids_of, pruned, source_changes, upserts, ChangeView, Rows,
};
use crate::mirror::{
    all_distinct, any_holds_id, any_holds_id_splits, apply_all_concat, has_project, in_project,
    live_ids_are_held, pass_keeps_unregistered_rows, reconciled, upserts_effect,
};
use crate::source::{holds_id, MemoryView};
use crate::tree::ids_distinct;

verus! {

/// The ids of the project's rows that are not live.
pub open spec fn prunable(
    rows: Rows,
    project: Seq<char>,
    live: Seq<Seq<char>>,
) -> Set<Seq<char>> {
    Set::new(
        |id: Seq<char>|
            rows.contains_key(id) && rows[id].project == project && !live.contains(id),
    )
}

/// How many rows a change prunes.
pub open spec fn pruned_by(rows: Rows, change: ChangeView) -> nat {
    match change {
        ChangeView::Prune { project, live } => prunable(rows, project, live).len(),
        _ => 0,
    }
}

/// How many rows a sequence of changes prunes.
pub open spec fn pruned_by_all(rows: Rows, changes: Seq<ChangeView>) -> nat
    decreases changes.len(),
{
    if changes.len() == 0 {
        0
    } else {
        pruned_by_all(rows, changes.drop_last()) + pruned_by(
            apply_all(rows, changes.drop_last()),
            changes.last(),
        )
    }
}

/// No two memories are of the same project.
pub open spec fn projects_distinct(mems: Seq<MemoryView>) -> bool {
    forall|i: int, j: int| 0 <= i < j < mems.len() ==> mems[i].project != mems[j].project
}

/// The row's project is registered, and neither that project's source nor one
/// before it holds the id.
pub open spec fn is_stale(rows: Rows, mems: Seq<MemoryView>, id: Seq<char>) -> bool {
    &&& rows.contains_key(id)
    &&& exists|i: int|
        {
            &&& 0 <= i < mems.len()
            &&& #[trigger] mems[i].project == rows[id].project
            &&& !any_holds_id(mems.take(i + 1), id)
        }
}

/// The ids of the stale rows.
pub open spec fn stale(rows: Rows, mems: Seq<MemoryView>) -> Set<Seq<char>> {
    Set::new(|id: Seq<char>| is_stale(rows, mems, id))
}

/// The row's project is registered, and its source no longer holds the id.
pub open spec fn is_orphan(rows: Rows, mems: Seq<MemoryView>, id: Seq<char>) -> bool {
    &&& rows.contains_key(id)
    &&& exists|i: int|
        {
            &&& 0 <= i < mems.len()
            &&& #[trigger] mems[i].project == rows[id].project
            &&& !holds_id(mems[i], id)
        }
}

/// The ids of the orphaned rows.
pub open spec fn orphans(rows: Rows, mems: Seq<MemoryView>) -> Set<Seq<char>> {
    Set::new(|id: Seq<char>| is_orphan(rows, mems, id))
}

/// No source holds the id of a row that is of another registered project.
pub open spec fn ids_stay_in_their_project(rows: Rows, mems: Seq<MemoryView>) -> bool {
    forall|id: Seq<char>, j: int|
        0 <= j < mems.len() && rows.contains_key(id) && has_project(mems, rows[id].project)
            && #[trigger] holds_id(mems[j], id) ==> mems[j].project == rows[id].project
}

/// Pruning removes as many rows as it counts.
pub proof fn pruning_removes_what_it_counts(rows: Rows, project: Seq<char>, live: Seq<Seq<char>>)
    requires
        rows.dom().finite(),
    ensures
        pruned(rows, project, live).dom() == rows.dom().difference(prunable(rows, project, live)),
        pruned(rows, project, live).len() + prunable(rows, project, live).len() == rows.len(),
{
    let gone = prunable(rows, project, live);
    let kept = pruned(rows, project, live).dom();
    assert(kept =~= rows.dom().difference(gone));
    assert(gone.subset_of(rows.dom()));
    vstd::set_lib::lemma_set_subset_finite(rows.dom(), gone);
    vstd::set_lib::lemma_set_disjoint_lens(kept, gone);
    assert(kept + gone =~= rows.dom());
}

proof fn pruned_by_all_concat(rows: Rows, first: Seq<ChangeView>, then: Seq<ChangeView>)
    ensures
        pruned_by_all(rows, first + then) == pruned_by_all(rows, first) + pruned_by_all(
            apply_all(rows, first),
            then,
        ),
    decreases then.len(),
{
    if then.len() == 0 {
        assert(first + then =~= first);
    } else {
        assert((first + then).drop_last() =~= first + then.drop_last());
        pruned_by_all_concat(rows, first, then.drop_last());
        apply_all_concat(rows, first, then.drop_last());
    }
}

proof fn upserts_prune_nothing(rows: Rows, mem: MemoryView, count: nat)
    ensures
        pruned_by_all(rows, upserts(mem, count)) == 0,
    decreases count,
{
    if count > 0 {
        assert(upserts(mem, count).drop_last() =~= upserts(mem, (count - 1) as nat));
        upserts_prune_nothing(rows, mem, (count - 1) as nat);
    }
}

/// The rows of the project that no memory holds.
spec fn unheld(rows: Rows, mems: Seq<MemoryView>, project: Seq<char>) -> Set<Seq<char>> {
    Set::new(
        |id: Seq<char>|
            rows.contains_key(id) && rows[id].project == project && !any_holds_id(mems, id),
    )
}

proof fn last_source_prunes(rows: Rows, mems: Seq<MemoryView>)
    requires
        all_distinct(mems),
        projects_distinct(mems),
        mems.len() > 0,
    ensures
        pruned_by_all(reconciled(rows, mems.drop_last()), source_changes(mems.last())) == unheld(
            rows,
            mems,
            mems.last().project,
        ).len(),
{
    let last = mems.last();
    let init = mems.drop_last();
    let n = last.nodes.len();
    let l = mems.len() - 1;
    let project = last.project;
    let before = reconciled(rows, init);
    let filled = apply_all(before, upserts(last, n));
    let live = ids_of(last.nodes);
    assert(source_changes(last).drop_last() =~= upserts(last, n));
    upserts_prune_nothing(before, last, n);
    assert(ids_distinct(mems[l].nodes));
    upserts_effect(before, last, n);
    assert forall|j: int| 0 <= j < init.len() implies ids_distinct(#[trigger] init[j].nodes) by {
        assert(ids_distinct(mems[j].nodes));
    }
    assert(!has_project(init, project)) by {
        assert forall|j: int| 0 <= j < init.len() implies #[trigger] init[j].project
            != project by {
            assert(mems[j].project != mems[l].project);
        }
    }
    let removed = prunable(filled, project, live);
    let expected = unheld(rows, mems, project);
    assert forall|id: Seq<char>| removed.contains(id) <==> expected.contains(id) by {
        live_ids_are_held(last, id);
        pass_keeps_unregistered_rows(rows, init, project, id);
        any_holds_id_splits(mems, id);
        if !holds_id(last, id) {
            assert forall|i: int| 0 <= i < n implies #[trigger] last.nodes[i].id != id by {}
            assert(filled.contains_key(id) <==> before.contains_key(id));
            if before.contains_key(id) {
                assert(filled[id] == before[id]);
            }
            assert(in_project(before, project).contains_key(id) <==> before.contains_key(id)
                && before[id].project == project);
        }
    }
    assert(removed =~= expected);
}

proof fn stale_splits(rows: Rows, mems: Seq<MemoryView>)
    requires
        projects_distinct(mems),
        mems.len() > 0,
    ensures
        stale(rows, mems) == stale(rows, mems.drop_last()) + unheld(
            rows,
            mems,
            mems.last().project,
        ),
        stale(rows, mems.drop_last()).disjoint(unheld(rows, mems, mems.last().project)),
{
    let init = mems.drop_last();
    let l = mems.len() - 1;
    let rest = stale(rows, init);
    let end = unheld(rows, mems, mems.last().project);
    assert(mems.take(l + 1) =~= mems);
    assert forall|id: Seq<char>| stale(rows, mems).contains(id) implies rest.contains(id)
        || end.contains(id) by {
        let i = choose|i: int|
            {
                &&& 0 <= i < mems.len()
                &&& #[trigger] mems[i].project == rows[id].project
                &&& !any_holds_id(mems.take(i + 1), id)
            };
        if i < l {
            assert(init[i].project == rows[id].project);
            assert(init.take(i + 1) =~= mems.take(i + 1));
        }
    }
    assert forall|id: Seq<char>| rest.contains(id) implies stale(rows, mems).contains(id)
        && !end.contains(id) by {
        let i = choose|i: int|
            {
                &&& 0 <= i < init.len()
                &&& #[trigger] init[i].project == rows[id].project
                &&& !any_holds_id(init.take(i + 1), id)
            };
        assert(init.take(i + 1) =~= mems.take(i + 1));
        assert(mems[i].project == rows[id].project);
        assert(mems[i].project != mems[l].project);
    }
    assert forall|id: Seq<char>| end.contains(id) implies stale(rows, mems).contains(id) by {
        assert(mems[l].project == rows[id].project);
    }
    assert(stale(rows, mems) =~= rest + end);
}

/// A pass prunes as many rows as there were stale ones before it: rows of
/// registered projects whose id neither their own source nor an earlier one
/// holds.
pub proof fn pass_prunes_the_stale_rows(rows: Rows, mems: Seq<MemoryView>)
    requires
        rows.dom().finite(),
        all_distinct(mems),
        projects_distinct(mems),
    ensures
        pruned_by_all(rows, all_changes(mems)) == stale(rows, mems).len(),
    decreases mems.len(),
{
    if mems.len() == 0 {
        assert(stale(rows, mems) =~= Set::empty());
    } else {
        let init = mems.drop_last();
        assert forall|j: int| 0 <= j < init.len() implies ids_distinct(#[trigger] init[j].nodes) by {
            assert(ids_distinct(mems[j].nodes));
        }
        assert forall|i: int, j: int| 0 <= i < j < init.len() implies init[i].project
            != init[j].project by {
            assert(mems[i].project != mems[j].project);
        }
        pass_prunes_the_stale_rows(rows, init);
        pruned_by_all_concat(rows, all_changes(init), source_changes(mems.last()));
        last_source_prunes(rows, mems);
        stale_splits(rows, mems);
        let rest = stale(rows, init);
        let end = unheld(rows, mems, mems.last().project);
        assert(rest.subset_of(rows.dom()));
        assert(end.subset_of(rows.dom()));
        vstd::set_lib::lemma_set_subset_finite(rows.dom(), rest);
        vstd::set_lib::lemma_set_subset_finite(rows.dom(), end);
        vstd::set_lib::lemma_set_disjoint_lens(rest, end);
    }
}

/// Where no source holds the id of another project's row, a pass prunes as many
/// rows as there were rows of registered projects whose source no longer holds
/// their id.
pub proof fn pass_prunes_the_orphans(rows: Rows, mems: Seq<MemoryView>)
    requires
        rows.dom().finite(),
        all_distinct(mems),
        projects_distinct(mems),
        ids_stay_in_their_project(rows, mems),
    ensures
        pruned_by_all(rows, all_changes(mems)) == orphans(rows, mems).len(),
{
    pass_prunes_the_stale_rows(rows, mems);
    assert forall|id: Seq<char>| is_stale(rows, mems, id) implies is_orphan(rows, mems, id) by {
        let i = choose|i: int|
            {
                &&& 0 <= i < mems.len()
                &&& #[trigger] mems[i].project == rows[id].project
                &&& !any_holds_id(mems.take(i + 1), id)
            };
        assert(mems.take(i + 1)[i] == mems[i]);
        assert(!holds_id(mems[i], id));
    }
    assert forall|id: Seq<char>| is_orphan(rows, mems, id) implies is_stale(rows, mems, id) by {
        let i = choose|i: int|
            {
                &&& 0 <= i < mems.len()
                &&& #[trigger] mems[i].project == rows[id].project
                &&& !holds_id(mems[i], id)
            };
        assert(has_project(mems, rows[id].project));
        if any_holds_id(mems.take(i + 1), id) {
            let k = choose|k: int|
                0 <= k < i + 1 && holds_id(#[trigger] mems.take(i + 1)[k], id);
            assert(holds_id(mems[k], id));
            assert(mems[k].project == mems[i].project);
        }
    }
    assert(stale(rows, mems) =~= orphans(rows, mems));
}

} // verus!

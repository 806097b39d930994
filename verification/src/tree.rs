//! The tree invariant of a memory file.
//!
//! Ids are distinct, exactly one node (the project's root) has no parent, and
//! following parents from any node arrives at the root.

use vstd::prelude::*;

use crate::source::{append_node, new_node, node_views, MemoryFile, MemoryView, Node, NodeView};

verus! {

/// No two nodes share an id.
pub open spec fn ids_distinct(nodes: Seq<NodeView>) -> bool {
    forall|i: int, j: int| 0 <= i < j < nodes.len() ==> nodes[i].id != nodes[j].id
}

/// Exactly one node has no parent.
pub open spec fn single_root(nodes: Seq<NodeView>) -> bool {
    exists|r: int|
        {
            &&& 0 <= r < nodes.len()
            &&& #[trigger] nodes[r].parent is None
            &&& forall|j: int| 0 <= j < nodes.len() && j != r ==> nodes[j].parent is Some
        }
}

/// The path goes from node to parent, and ends at a node without a parent.
pub open spec fn is_climb(nodes: Seq<NodeView>, path: Seq<int>) -> bool {
    &&& path.len() > 0
    &&& forall|k: int| 0 <= k < path.len() ==> 0 <= #[trigger] path[k] < nodes.len()
    &&& forall|k: int, m: int|
        0 <= k && m == k + 1 && m < path.len() ==> nodes[#[trigger] path[k]].parent == Some(
            nodes[#[trigger] path[m]].id,
        )
    &&& nodes[path.last()].parent is None
}

/// Following parents from node `i` arrives at a node without a parent.
pub open spec fn reaches_root(nodes: Seq<NodeView>, i: int) -> bool {
    exists|path: Seq<int>| #[trigger] is_climb(nodes, path) && path[0] == i
}

/// The tree invariant: the root is the single parentless anchor that
/// everything parents to.
pub open spec fn is_tree(nodes: Seq<NodeView>) -> bool {
    &&& ids_distinct(nodes)
    &&& single_root(nodes)
    &&& forall|i: int| 0 <= i < nodes.len() ==> #[trigger] reaches_root(nodes, i)
}

/// The id of the first node without a parent.
pub open spec fn root_of(nodes: Seq<NodeView>) -> Option<Seq<char>> {
    match first_where(nodes.len(), |i: int| nodes[i].parent is None) {
        Some(r) => Some(nodes[r].id),
        None => None,
    }
}

/// How a list of nodes falls short of a tree.
pub enum TreeFault {
    /// The node repeats the id of an earlier one.
    DuplicateId { id: Seq<char> },
    /// Every node has a parent.
    NoRoot,
    /// The node is not the first without a parent.
    SecondRoot { id: Seq<char> },
    /// No node has the id that this one names as its parent.
    UnknownParent { id: Seq<char>, parent: Seq<char> },
    /// Following parents from the node never arrives at the root.
    Detached { id: Seq<char> },
}

/// Why a memory file is not a tree.
#[derive(Debug, PartialEq)]
pub enum TreeError {
    DuplicateId { id: String },
    NoRoot,
    SecondRoot { id: String },
    UnknownParent { id: String, parent: String },
    Detached { id: String },
}

impl View for TreeError {
    type V = TreeFault;

    open spec fn view(&self) -> TreeFault {
        match *self {
            TreeError::DuplicateId { id } => TreeFault::DuplicateId { id: id@ },
            TreeError::NoRoot => TreeFault::NoRoot,
            TreeError::SecondRoot { id } => TreeFault::SecondRoot { id: id@ },
            TreeError::UnknownParent { id, parent } => TreeFault::UnknownParent {
                id: id@,
                parent: parent@,
            },
            TreeError::Detached { id } => TreeFault::Detached { id: id@ },
        }
    }
}

/// The least index below `len` with the property.
pub open spec fn first_where(len: nat, property: spec_fn(int) -> bool) -> Option<int>
    decreases len,
{
    if len == 0 {
        None
    } else {
        match first_where((len - 1) as nat, property) {
            Some(k) => Some(k),
            None => if property(len - 1) {
                Some(len - 1)
            } else {
                None
            },
        }
    }
}

/// Node `j` repeats the id of an earlier node.
pub open spec fn repeats_id(nodes: Seq<NodeView>, j: int) -> bool {
    exists|i: int| 0 <= i < j && #[trigger] nodes[i].id == nodes[j].id
}

/// Node `j` has no parent, and neither has an earlier node.
pub open spec fn repeats_root(nodes: Seq<NodeView>, j: int) -> bool {
    &&& nodes[j].parent is None
    &&& exists|i: int| 0 <= i < j && #[trigger] nodes[i].parent is None
}

/// Node `j` names a parent that is not in the list.
pub open spec fn misses_parent(nodes: Seq<NodeView>, j: int) -> bool {
    &&& nodes[j].parent is Some
    &&& forall|i: int|
        0 <= i < nodes.len() ==> #[trigger] nodes[i].id != nodes[j].parent->Some_0
}

/// The first thing that keeps the list from being a tree: a repeated id, else
/// a missing root, else a second root, else an unknown parent, else a node cut
/// off from the root; each at the first node that has it.
pub open spec fn tree_fault(nodes: Seq<NodeView>) -> Option<TreeFault> {
    let n = nodes.len();
    match first_where(n, |j: int| repeats_id(nodes, j)) {
        Some(j) => Some(TreeFault::DuplicateId { id: nodes[j].id }),
        None => match root_of(nodes) {
            None => Some(TreeFault::NoRoot),
            Some(_) => match first_where(n, |j: int| repeats_root(nodes, j)) {
                Some(j) => Some(TreeFault::SecondRoot { id: nodes[j].id }),
                None => match first_where(n, |j: int| misses_parent(nodes, j)) {
                    Some(j) => Some(
                        TreeFault::UnknownParent {
                            id: nodes[j].id,
                            parent: nodes[j].parent->Some_0,
                        },
                    ),
                    None => match first_where(n, |j: int| !reaches_root(nodes, j)) {
                        Some(j) => Some(TreeFault::Detached { id: nodes[j].id }),
                        None => None,
                    },
                },
            },
        },
    }
}

/// What `first_where` gives has the property, nothing before it has, and where
/// it gives nothing no index has.
pub proof fn first_where_is_least(len: nat, property: spec_fn(int) -> bool)
    ensures
        match first_where(len, property) {
            Some(k) => {
                &&& 0 <= k < len
                &&& property(k)
                &&& forall|j: int| 0 <= j < k ==> !#[trigger] property(j)
            },
            None => forall|j: int| 0 <= j < len ==> !#[trigger] property(j),
        },
    decreases len,
{
    if len > 0 {
        first_where_is_least((len - 1) as nat, property);
    }
}

/// What a scan from the front finds first is `first_where`.
proof fn first_where_is(len: nat, property: spec_fn(int) -> bool, k: int)
    requires
        0 <= k < len,
        property(k),
        forall|j: int| 0 <= j < k ==> !#[trigger] property(j),
    ensures
        first_where(len, property) == Some(k),
{
    first_where_is_least(len, property);
    match first_where(len, property) {
        Some(f) => {
            if f < k {
                assert(!property(f));
            }
            if k < f {
                assert(!property(k));
            }
        },
        None => {
            assert(!property(k));
        },
    }
}

/// Where a scan finds nothing, there is nothing.
proof fn first_where_is_none(len: nat, property: spec_fn(int) -> bool)
    requires
        forall|j: int| 0 <= j < len ==> !#[trigger] property(j),
    ensures
        first_where(len, property) is None,
{
    first_where_is_least(len, property);
}

/// A list of nodes is a tree exactly when it has no fault.
pub proof fn no_fault_iff_tree(nodes: Seq<NodeView>)
    ensures
        tree_fault(nodes) is None <==> is_tree(nodes),
{
    let n = nodes.len();
    let repeats = |j: int| repeats_id(nodes, j);
    let parentless = |j: int| nodes[j].parent is None;
    let second = |j: int| repeats_root(nodes, j);
    let misses = |j: int| misses_parent(nodes, j);
    let cut_off = |j: int| !reaches_root(nodes, j);
    first_where_is_least(n, repeats);
    first_where_is_least(n, parentless);
    first_where_is_least(n, second);
    first_where_is_least(n, misses);
    first_where_is_least(n, cut_off);
    if is_tree(nodes) {
        assert forall|j: int| 0 <= j < n implies !#[trigger] repeats(j) by {}
        let r = choose|r: int|
            {
                &&& 0 <= r < nodes.len()
                &&& #[trigger] nodes[r].parent is None
                &&& forall|j: int| 0 <= j < nodes.len() && j != r ==> nodes[j].parent is Some
            };
        assert(parentless(r));
        assert forall|j: int| 0 <= j < n implies !#[trigger] second(j) by {}
        assert forall|j: int| 0 <= j < n implies !#[trigger] misses(j) by {
            assert(reaches_root(nodes, j));
            let path = choose|path: Seq<int>| #[trigger] is_climb(nodes, path) && path[0] == j;
            if path.len() > 1 {
                assert(nodes[path[0]].parent == Some(nodes[path[1]].id));
            }
        }
        assert forall|j: int| 0 <= j < n implies !#[trigger] cut_off(j) by {
            assert(reaches_root(nodes, j));
        }
    }
    if tree_fault(nodes) is None {
        assert forall|i: int, j: int| 0 <= i < j < n implies nodes[i].id != nodes[j].id by {
            assert(!repeats(j));
        }
        let r = first_where(n, parentless)->Some_0;
        assert(parentless(r));
        assert forall|j: int| 0 <= j < n && j != r implies nodes[j].parent is Some by {
            assert(!second(j));
            assert(!second(r));
        }
        assert(nodes[r].parent is None);
        assert forall|i: int| 0 <= i < n implies #[trigger] reaches_root(nodes, i) by {
            assert(!cut_off(i));
        }
    }
}

/// The outcome of a scan: the first index with the property, or none has it.
spec fn scanned(len: nat, property: spec_fn(int) -> bool, found: Option<usize>) -> bool {
    match found {
        Some(k) => {
            &&& k < len
            &&& property(k as int)
            &&& first_where(len, property) == Some(k as int)
        },
        None => first_where(len, property) is None,
    }
}

/// The first node with the id.
pub fn position_of(nodes: &Vec<Node>, id: &String) -> (found: Option<usize>)
    ensures
        match found {
            Some(k) => {
                &&& k < nodes@.len()
                &&& nodes@[k as int].id@ == id@
                &&& forall|j: int| 0 <= j < k ==> #[trigger] nodes@[j].id@ != id@
            },
            None => forall|j: int| 0 <= j < nodes@.len() ==> #[trigger] nodes@[j].id@ != id@,
        },
{
    let mut i: usize = 0;
    while i < nodes.len()
        invariant
            i <= nodes@.len(),
            forall|j: int| 0 <= j < i ==> #[trigger] nodes@[j].id@ != id@,
        decreases nodes@.len() - i,
    {
        if nodes[i].id == *id {
            return Some(i);
        }
        i = i + 1;
    }
    None
}

fn first_repeated_id(nodes: &Vec<Node>) -> (found: Option<usize>)
    ensures
        scanned(nodes@.len(), |j: int| repeats_id(node_views(nodes@), j), found),
{
    let ghost views = node_views(nodes@);
    let mut j: usize = 0;
    while j < nodes.len()
        invariant
            j <= nodes@.len(),
            views == node_views(nodes@),
            forall|k: int| 0 <= k < j ==> !#[trigger] repeats_id(views, k),
        decreases nodes@.len() - j,
    {
        if let Some(first) = position_of(nodes, &nodes[j].id) {
            if first < j {
                assert(views[first as int].id == views[j as int].id);
                proof {
                    first_where_is(views.len(), |k: int| repeats_id(views, k), j as int);
                }
                return Some(j);
            }
        }
        assert(!repeats_id(views, j as int)) by {
            assert forall|i: int| 0 <= i < j implies views[i].id != views[j as int].id by {
                assert(nodes@[i].id@ != nodes@[j as int].id@);
            }
        }
        j = j + 1;
    }
    proof {
        first_where_is_none(views.len(), |k: int| repeats_id(views, k));
    }
    None
}

fn first_parentless(nodes: &Vec<Node>) -> (found: Option<usize>)
    ensures
        scanned(nodes@.len(), |j: int| node_views(nodes@)[j].parent is None, found),
{
    let ghost views = node_views(nodes@);
    let mut j: usize = 0;
    while j < nodes.len()
        invariant
            j <= nodes@.len(),
            views == node_views(nodes@),
            forall|k: int| 0 <= k < j ==> !(#[trigger] views[k].parent is None),
        decreases nodes@.len() - j,
    {
        if nodes[j].parent.is_none() {
            proof {
                first_where_is(views.len(), |k: int| views[k].parent is None, j as int);
            }
            return Some(j);
        }
        j = j + 1;
    }
    proof {
        first_where_is_none(views.len(), |k: int| views[k].parent is None);
    }
    None
}

fn first_repeated_root(nodes: &Vec<Node>) -> (found: Option<usize>)
    ensures
        scanned(nodes@.len(), |j: int| repeats_root(node_views(nodes@), j), found),
{
    let ghost views = node_views(nodes@);
    let mut seen: bool = false;
    let mut j: usize = 0;
    while j < nodes.len()
        invariant
            j <= nodes@.len(),
            views == node_views(nodes@),
            seen <==> exists|k: int| 0 <= k < j && #[trigger] views[k].parent is None,
            forall|k: int| 0 <= k < j ==> !#[trigger] repeats_root(views, k),
        decreases nodes@.len() - j,
    {
        if nodes[j].parent.is_none() {
            assert(views[j as int].parent is None);
            if seen {
                proof {
                    first_where_is(views.len(), |k: int| repeats_root(views, k), j as int);
                }
                return Some(j);
            }
            seen = true;
        }
        j = j + 1;
    }
    proof {
        first_where_is_none(views.len(), |k: int| repeats_root(views, k));
    }
    None
}

fn first_missing_parent(nodes: &Vec<Node>) -> (found: Option<usize>)
    ensures
        scanned(nodes@.len(), |j: int| misses_parent(node_views(nodes@), j), found),
{
    let ghost views = node_views(nodes@);
    let mut j: usize = 0;
    while j < nodes.len()
        invariant
            j <= nodes@.len(),
            views == node_views(nodes@),
            forall|k: int| 0 <= k < j ==> !#[trigger] misses_parent(views, k),
        decreases nodes@.len() - j,
    {
        if let Some(p) = &nodes[j].parent {
            match position_of(nodes, p) {
                Some(i) => {
                    assert(views[i as int].id == p@);
                },
                None => {
                    proof {
                        first_where_is(views.len(), |k: int| misses_parent(views, k), j as int);
                    }
                    return Some(j);
                },
            }
        }
        j = j + 1;
    }
    proof {
        first_where_is_none(views.len(), |k: int| misses_parent(views, k));
    }
    None
}

/// How many entries are still false.
pub open spec fn waiting(reached: Seq<bool>) -> nat
    decreases reached.len(),
{
    if reached.len() == 0 {
        0
    } else {
        waiting(reached.drop_last()) + if reached.last() {
            0nat
        } else {
            1nat
        }
    }
}

/// Marking one more leaves one less to mark.
pub proof fn marking_shortens_the_wait(reached: Seq<bool>, i: int)
    requires
        0 <= i < reached.len(),
        !reached[i],
    ensures
        waiting(reached.update(i, true)) + 1 == waiting(reached),
    decreases reached.len(),
{
    let marked = reached.update(i, true);
    if i == reached.len() - 1 {
        assert(marked.drop_last() =~= reached.drop_last());
    } else {
        assert(marked.drop_last() =~= reached.drop_last().update(i, true));
        marking_shortens_the_wait(reached.drop_last(), i);
    }
}

/// `links[i]` is where node `i`'s parent stands.
spec fn links_follow_parents(nodes: Seq<NodeView>, links: Seq<usize>) -> bool {
    &&& links.len() == nodes.len()
    &&& forall|i: int|
        0 <= i < nodes.len() && #[trigger] nodes[i].parent is Some ==> {
            &&& links[i] < nodes.len()
            &&& nodes[links[i] as int].id == nodes[i].parent->Some_0
        }
}

/// A node whose parent arrives at the root arrives there too.
proof fn child_climbs(nodes: Seq<NodeView>, i: int, j: int)
    requires
        0 <= i < nodes.len(),
        0 <= j < nodes.len(),
        nodes[i].parent == Some(nodes[j].id),
        reaches_root(nodes, j),
    ensures
        reaches_root(nodes, i),
{
    let path = choose|path: Seq<int>| #[trigger] is_climb(nodes, path) && path[0] == j;
    let longer = seq![i] + path;
    assert forall|k: int, m: int| 0 <= k && m == k + 1 && m < longer.len() implies nodes[
    #[trigger] longer[k]].parent == Some(nodes[#[trigger] longer[m]].id) by {
        assert(longer[m] == path[k]);
        if k > 0 {
            assert(longer[k] == path[k - 1]);
        }
    }
    assert(longer.last() == path.last());
    assert(is_climb(nodes, longer));
}

/// Nodes that are unmarked when marking no longer spreads never arrive at the
/// root.
proof fn unmarked_never_climb(
    nodes: Seq<NodeView>,
    links: Seq<usize>,
    reached: Seq<bool>,
    path: Seq<int>,
)
    requires
        ids_distinct(nodes),
        links_follow_parents(nodes, links),
        reached.len() == nodes.len(),
        forall|k: int| 0 <= k < nodes.len() && nodes[k].parent is None ==> #[trigger] reached[k],
        forall|k: int|
            0 <= k < nodes.len() && !reached[k] ==> !reached[#[trigger] links[k] as int],
        is_climb(nodes, path),
    ensures
        reached[path[0]],
    decreases path.len(),
{
    if !reached[path[0]] {
        let i = path[0];
        assert(path.len() > 1);
        let j = path[1];
        let k = links[i] as int;
        assert(nodes[i].parent == Some(nodes[j].id));
        assert(nodes[k].id == nodes[j].id);
        assert(j == k);
        let rest = path.drop_first();
        assert forall|k: int, m: int| 0 <= k && m == k + 1 && m < rest.len() implies nodes[
        #[trigger] rest[k]].parent == Some(nodes[#[trigger] rest[m]].id) by {
            assert(rest[k] == path[k + 1]);
            assert(rest[m] == path[m + 1]);
        }
        assert(rest.last() == path.last());
        unmarked_never_climb(nodes, links, reached, rest);
    }
}

fn parent_links(nodes: &Vec<Node>) -> (links: Vec<usize>)
    requires
        forall|j: int| 0 <= j < nodes@.len() ==> !#[trigger] misses_parent(node_views(nodes@), j),
    ensures
        links_follow_parents(node_views(nodes@), links@),
{
    let ghost views = node_views(nodes@);
    let mut links: Vec<usize> = Vec::new();
    let mut j: usize = 0;
    while j < nodes.len()
        invariant
            j <= nodes@.len(),
            views == node_views(nodes@),
            links@.len() == j,
            forall|k: int| 0 <= k < nodes@.len() ==> !#[trigger] misses_parent(views, k),
            forall|i: int|
                0 <= i < j && #[trigger] views[i].parent is Some ==> {
                    &&& links@[i] < views.len()
                    &&& views[links@[i] as int].id == views[i].parent->Some_0
                },
        decreases nodes@.len() - j,
    {
        assert(!misses_parent(views, j as int));
        let link: usize = match &nodes[j].parent {
            Some(p) => match position_of(nodes, p) {
                Some(i) => i,
                None => {
                    assert forall|i: int| 0 <= i < views.len() implies #[trigger] views[i].id
                        != p@ by {
                        assert(nodes@[i].id@ != p@);
                    }
                    assert(misses_parent(views, j as int));
                    j
                },
            },
            None => j,
        };
        links.push(link);
        j = j + 1;
    }
    links
}

fn first_detached(nodes: &Vec<Node>) -> (found: Option<usize>)
    requires
        first_where(nodes@.len(), |j: int| repeats_id(node_views(nodes@), j)) is None,
        first_where(nodes@.len(), |j: int| misses_parent(node_views(nodes@), j)) is None,
    ensures
        scanned(nodes@.len(), |j: int| !reaches_root(node_views(nodes@), j), found),
{
    let ghost views = node_views(nodes@);
    let n: usize = nodes.len();
    proof {
        let repeats = |j: int| repeats_id(views, j);
        let misses = |j: int| misses_parent(views, j);
        first_where_is_least(views.len(), repeats);
        first_where_is_least(views.len(), misses);
        assert forall|i: int, j: int| 0 <= i < j < n implies views[i].id != views[j].id by {
            assert(!repeats(j));
        }
        assert forall|j: int| 0 <= j < n implies !#[trigger] misses_parent(views, j) by {
            assert(!misses(j));
        }
    }
    let links: Vec<usize> = parent_links(nodes);
    let mut reached: Vec<bool> = Vec::new();
    let mut i: usize = 0;
    while i < n
        invariant
            i <= n,
            n == nodes@.len(),
            views == node_views(nodes@),
            reached@.len() == i,
            forall|k: int| 0 <= k < i ==> (#[trigger] reached@[k] <==> views[k].parent is None),
        decreases n - i,
    {
        reached.push(nodes[i].parent.is_none());
        i = i + 1;
    }
    assert forall|k: int| 0 <= k < n && #[trigger] reached@[k] implies reaches_root(views, k) by {
        assert(is_climb(views, seq![k]));
    }
    let mut spreading: bool = true;
    while spreading
        invariant
            n == nodes@.len(),
            views == node_views(nodes@),
            links_follow_parents(views, links@),
            reached@.len() == n,
            forall|k: int| 0 <= k < n && views[k].parent is None ==> #[trigger] reached@[k],
            forall|k: int| 0 <= k < n && #[trigger] reached@[k] ==> reaches_root(views, k),
            !spreading ==> forall|k: int|
                0 <= k < n && !reached@[k] ==> !reached@[#[trigger] links@[k] as int],
        decreases waiting(reached@), if spreading {
            1int
        } else {
            0int
        },
    {
        let ghost start = reached@;
        spreading = false;
        let mut j: usize = 0;
        while j < n
            invariant
                j <= n,
                n == nodes@.len(),
                views == node_views(nodes@),
                links_follow_parents(views, links@),
                reached@.len() == n,
                start.len() == n,
                forall|k: int| 0 <= k < n && views[k].parent is None ==> #[trigger] reached@[k],
                forall|k: int| 0 <= k < n && #[trigger] reached@[k] ==> reaches_root(views, k),
                spreading ==> waiting(reached@) < waiting(start),
                !spreading ==> reached@ == start && forall|k: int|
                    0 <= k < j && !reached@[k] ==> !reached@[#[trigger] links@[k] as int],
            decreases n - j,
        {
            if !reached[j] {
                assert(views[j as int].parent is Some);
                let up: usize = links[j];
                if reached[up] {
                    proof {
                        marking_shortens_the_wait(reached@, j as int);
                        child_climbs(views, j as int, up as int);
                    }
                    reached.set(j, true);
                    spreading = true;
                }
            }
            j = j + 1;
        }
    }
    let mut j: usize = 0;
    while j < n
        invariant
            j <= n,
            n == nodes@.len(),
            views == node_views(nodes@),
            ids_distinct(views),
            links_follow_parents(views, links@),
            reached@.len() == n,
            forall|k: int| 0 <= k < n && views[k].parent is None ==> #[trigger] reached@[k],
            forall|k: int| 0 <= k < n && #[trigger] reached@[k] ==> reaches_root(views, k),
            forall|k: int| 0 <= k < n && !reached@[k] ==> !reached@[#[trigger] links@[k] as int],
            forall|k: int| 0 <= k < j ==> #[trigger] reached@[k],
        decreases n - j,
    {
        if !reached[j] {
            assert forall|path: Seq<int>| #[trigger] is_climb(views, path) implies path[0]
                != j by {
                unmarked_never_climb(views, links@, reached@, path);
            }
            proof {
                let cut_off = |k: int| !reaches_root(views, k);
                assert forall|k: int| 0 <= k < j implies !#[trigger] cut_off(k) by {
                    assert(reached@[k]);
                }
                first_where_is(views.len(), cut_off, j as int);
            }
            return Some(j);
        }
        j = j + 1;
    }
    assert forall|k: int| 0 <= k < n implies reaches_root(views, k) by {
        assert(reached@[k]);
    }
    proof {
        first_where_is_none(views.len(), |k: int| !reaches_root(views, k));
    }
    None
}

fn find_fault(nodes: &Vec<Node>) -> (fault: Option<TreeError>)
    ensures
        match fault {
            Some(e) => tree_fault(node_views(nodes@)) == Some(e@),
            None => tree_fault(node_views(nodes@)) is None,
        },
{
    if let Some(j) = first_repeated_id(nodes) {
        return Some(TreeError::DuplicateId { id: nodes[j].id.clone() });
    }
    if first_parentless(nodes).is_none() {
        return Some(TreeError::NoRoot);
    }
    if let Some(j) = first_repeated_root(nodes) {
        return Some(TreeError::SecondRoot { id: nodes[j].id.clone() });
    }
    if let Some(j) = first_missing_parent(nodes) {
        if let Some(parent) = &nodes[j].parent {
            return Some(
                TreeError::UnknownParent { id: nodes[j].id.clone(), parent: parent.clone() },
            );
        }
    }
    if let Some(j) = first_detached(nodes) {
        return Some(TreeError::Detached { id: nodes[j].id.clone() });
    }
    None
}

/// The memory file of a project that has just been added: its root node alone,
/// labelled with the project's name.
pub open spec fn rooted_memory(project: Seq<char>, root_id: Seq<char>) -> MemoryView {
    MemoryView { project, nodes: seq![new_node(root_id, project, Seq::empty(), None)] }
}

impl MemoryFile {
    /// A memory file whose root node has the given id.
    pub fn rooted(project: &str, root_id: &str) -> (mem: Self)
        ensures
            mem@ == rooted_memory(project@, root_id@),
            is_tree(mem@.nodes),
            mem.project@ == project@,
            mem.nodes@.len() == 1,
            mem.nodes@[0].id@ == root_id@,
            mem.nodes@[0].label@ == project@,
            mem.nodes@[0].content@.len() == 0,
            mem.nodes@[0].parent is None,
            mem.nodes@[0]@.is_fresh(),
    {
        let mut mem = MemoryFile::new(project);
        let empty = String::new();
        append_node(&mut mem, Node::new(root_id, project, empty.as_str(), None));
        proof {
            assert(mem@.nodes =~= rooted_memory(project@, root_id@).nodes);
            lone_root_is_a_tree(mem@.nodes[0]);
        }
        mem
    }

    /// Checks the tree invariant and reports what first breaks it.
    pub fn check_invariants(&self) -> (checked: Result<(), TreeError>)
        ensures
            checked is Ok <==> is_tree(self@.nodes),
            checked matches Err(e) ==> tree_fault(self@.nodes) == Some(e@),
    {
        proof {
            no_fault_iff_tree(self@.nodes);
        }
        match find_fault(&self.nodes) {
            Some(e) => Err(e),
            None => Ok(()),
        }
    }

    /// The id of the project's root node: the first node without a parent.
    pub fn root(&self) -> (id: Option<String>)
        ensures
            match id {
                Some(id) => root_of(self@.nodes) == Some(id@),
                None => root_of(self@.nodes) is None,
            },
            match id {
                Some(id) => exists|r: int|
                    {
                        &&& 0 <= r < self.nodes@.len()
                        &&& (#[trigger] self.nodes@[r]).parent is None
                        &&& self.nodes@[r].id@ == id@
                        &&& forall|j: int| 0 <= j < r ==> (#[trigger] self.nodes@[j]).parent is Some
                    },
                None => forall|j: int|
                    0 <= j < self.nodes@.len() ==> (#[trigger] self.nodes@[j]).parent is Some,
            },
    {
        proof {
            let views = self@.nodes;
            root_is_the_first_without_parent(views);
            assert forall|j: int| 0 <= j < views.len() implies (views[j].parent is Some <==> (
            #[trigger] self.nodes@[j]).parent is Some) by {
                assert(views[j] == self.nodes@[j]@);
            }
            if root_of(views) is Some {
                let r = first_where(views.len(), |i: int| views[i].parent is None)->Some_0;
                first_where_is_least(views.len(), |i: int| views[i].parent is None);
                assert(self.nodes@[r].parent is None);
                assert forall|j: int| 0 <= j < r implies (#[trigger] self.nodes@[j]).parent is Some by {
                    assert(!(|i: int| views[i].parent is None)(j));
                    assert(views[j].parent is Some);
                }
            }
        }
        match first_parentless(&self.nodes) {
            Some(k) => Some(self.nodes[k].id.clone()),
            None => None,
        }
    }
}

/// A node without a parent is, alone, a tree, and its root.
pub proof fn lone_root_is_a_tree(root: NodeView)
    requires
        root.parent is None,
    ensures
        is_tree(seq![root]),
        root_of(seq![root]) == Some(root.id),
{
    let nodes = seq![root];
    assert(nodes[0].parent is None);
    assert(is_climb(nodes, seq![0int]));
    first_where_is(1, |i: int| nodes[i].parent is None, 0);
}

/// A tree has a root, and no node but the root is without a parent.
pub proof fn tree_has_one_root(nodes: Seq<NodeView>)
    requires
        is_tree(nodes),
    ensures
        root_of(nodes) is Some,
        forall|i: int|
            0 <= i < nodes.len() ==> (#[trigger] nodes[i].parent is None <==> Some(nodes[i].id)
                == root_of(nodes)),
{
    let r = choose|r: int|
        {
            &&& 0 <= r < nodes.len()
            &&& #[trigger] nodes[r].parent is None
            &&& forall|j: int| 0 <= j < nodes.len() && j != r ==> nodes[j].parent is Some
        };
    first_where_is(nodes.len(), |i: int| nodes[i].parent is None, r);
    assert forall|i: int| 0 <= i < nodes.len() implies (#[trigger] nodes[i].parent is None <==> Some(
        nodes[i].id,
    ) == root_of(nodes)) by {
        if i != r {
            assert(nodes[i].parent is Some);
            assert(nodes[i].id != nodes[r].id);
        }
    }
}

/// Every node of a tree but the root has its parent in the tree.
pub proof fn tree_holds_every_parent(nodes: Seq<NodeView>, i: int)
    requires
        is_tree(nodes),
        0 <= i < nodes.len(),
        nodes[i].parent is Some,
    ensures
        exists|j: int| 0 <= j < nodes.len() && nodes[i].parent == Some(#[trigger] nodes[j].id),
{
    assert(reaches_root(nodes, i));
    let path = choose|path: Seq<int>| #[trigger] is_climb(nodes, path) && path[0] == i;
    assert(path.len() > 1);
    assert(nodes[path[0]].parent == Some(nodes[path[1]].id));
}

/// Attaching a node with a new id under a node of a tree gives a tree with the
/// same root.
pub proof fn attaching_keeps_the_tree(nodes: Seq<NodeView>, node: NodeView, k: int)
    requires
        is_tree(nodes),
        0 <= k < nodes.len(),
        node.parent == Some(nodes[k].id),
        forall|i: int| 0 <= i < nodes.len() ==> #[trigger] nodes[i].id != node.id,
    ensures
        is_tree(nodes.push(node)),
        root_of(nodes.push(node)) == root_of(nodes),
{
    let grown = nodes.push(node);
    let n = nodes.len() as int;
    assert forall|i: int, j: int| 0 <= i < j < grown.len() implies grown[i].id != grown[j].id by {
        if j == n {
            assert(nodes[i].id != node.id);
        }
    }
    let r = choose|r: int|
        {
            &&& 0 <= r < nodes.len()
            &&& #[trigger] nodes[r].parent is None
            &&& forall|j: int| 0 <= j < nodes.len() && j != r ==> nodes[j].parent is Some
        };
    assert(grown[r].parent is None);
    assert forall|j: int| 0 <= j < grown.len() && j != r implies grown[j].parent is Some by {
        if j < n {
            assert(nodes[j].parent is Some);
        }
    }
    assert forall|i: int| 0 <= i < n implies #[trigger] reaches_root(grown, i) by {
        assert(reaches_root(nodes, i));
        let path = choose|path: Seq<int>| #[trigger] is_climb(nodes, path) && path[0] == i;
        assert forall|a: int, b: int| 0 <= a && b == a + 1 && b < path.len() implies grown[
        #[trigger] path[a]].parent == Some(grown[#[trigger] path[b]].id) by {
            assert(nodes[path[a]].parent == Some(nodes[path[b]].id));
        }
        assert(is_climb(grown, path));
    }
    assert(reaches_root(grown, k));
    child_climbs(grown, n, k);
    first_where_is(nodes.len(), |i: int| nodes[i].parent is None, r);
    first_where_is(grown.len(), |i: int| grown[i].parent is None, r);
}

/// The root is the first node without a parent; there is none exactly where
/// every node has a parent.
pub proof fn root_is_the_first_without_parent(nodes: Seq<NodeView>)
    ensures
        match root_of(nodes) {
            Some(id) => exists|r: int|
                {
                    &&& 0 <= r < nodes.len()
                    &&& #[trigger] nodes[r].parent is None
                    &&& nodes[r].id == id
                    &&& forall|j: int| 0 <= j < r ==> #[trigger] nodes[j].parent is Some
                },
            None => forall|j: int| 0 <= j < nodes.len() ==> #[trigger] nodes[j].parent is Some,
        },
{
    let parentless = |i: int| nodes[i].parent is None;
    first_where_is_least(nodes.len(), parentless);
    match first_where(nodes.len(), parentless) {
        Some(r) => {
            assert(nodes[r].parent is None);
            assert forall|j: int| 0 <= j < r implies #[trigger] nodes[j].parent is Some by {
                assert(!parentless(j));
            }
        },
        None => {
            assert forall|j: int| 0 <= j < nodes.len() implies #[trigger] nodes[j].parent is Some by {
                assert(!parentless(j));
            }
        },
    }
}

/// A new memory is one node: the root, with the given id, labelled with the
/// project's name, and without content or parent.
pub proof fn new_memory_is_its_root(project: Seq<char>, root_id: Seq<char>)
    ensures
        rooted_memory(project, root_id).project == project,
        rooted_memory(project, root_id).nodes.len() == 1,
        rooted_memory(project, root_id).nodes[0].id == root_id,
        rooted_memory(project, root_id).nodes[0].label == project,
        rooted_memory(project, root_id).nodes[0].content.len() == 0,
        rooted_memory(project, root_id).nodes[0].parent is None,
        rooted_memory(project, root_id).nodes[0].is_fresh(),
        is_tree(rooted_memory(project, root_id).nodes),
        root_of(rooted_memory(project, root_id).nodes) == Some(root_id),
{
    lone_root_is_a_tree(rooted_memory(project, root_id).nodes[0]);
}

/// A node without a parent is at the root; any other arrives there exactly when
/// a node that it names as its parent does.
pub proof fn arriving_goes_by_parents(nodes: Seq<NodeView>, i: int)
    requires
        0 <= i < nodes.len(),
    ensures
        reaches_root(nodes, i) <==> (nodes[i].parent is None || exists|j: int|
            {
                &&& 0 <= j < nodes.len()
                &&& nodes[i].parent == Some(nodes[j].id)
                &&& #[trigger] reaches_root(nodes, j)
            }),
{
    if nodes[i].parent is None {
        assert(is_climb(nodes, seq![i]));
    } else {
        if reaches_root(nodes, i) {
            let path = choose|path: Seq<int>| #[trigger] is_climb(nodes, path) && path[0] == i;
            assert(path.len() > 1);
            rest_climbs(nodes, path);
            assert(nodes[path[0]].parent == Some(nodes[path[1]].id));
            assert(reaches_root(nodes, path[1]));
        }
        if exists|j: int|
            {
                &&& 0 <= j < nodes.len()
                &&& nodes[i].parent == Some(nodes[j].id)
                &&& #[trigger] reaches_root(nodes, j)
            } {
            let j = choose|j: int|
                {
                    &&& 0 <= j < nodes.len()
                    &&& nodes[i].parent == Some(nodes[j].id)
                    &&& #[trigger] reaches_root(nodes, j)
                };
            child_climbs(nodes, i, j);
        }
    }
}

proof fn rest_climbs(nodes: Seq<NodeView>, path: Seq<int>)
    requires
        is_climb(nodes, path),
        path.len() > 1,
    ensures
        is_climb(nodes, path.drop_first()),
        path.drop_first()[0] == path[1],
        path.drop_first().len() == path.len() - 1,
{
    let rest = path.drop_first();
    assert forall|k: int, m: int| 0 <= k && m == k + 1 && m < rest.len() implies nodes[
    #[trigger] rest[k]].parent == Some(nodes[#[trigger] rest[m]].id) by {
        assert(rest[k] == path[k + 1]);
        assert(rest[m] == path[m + 1]);
    }
    assert(rest.last() == path.last());
}

proof fn climbs_are_equally_long(nodes: Seq<NodeView>, p: Seq<int>, q: Seq<int>)
    requires
        ids_distinct(nodes),
        is_climb(nodes, p),
        is_climb(nodes, q),
        p[0] == q[0],
    ensures
        p.len() == q.len(),
    decreases p.len(),
{
    assert(0 <= p[0] < nodes.len());
    if p.len() > 1 {
        assert(nodes[p[0]].parent == Some(nodes[p[1]].id));
    } else {
        assert(p.last() == p[0]);
    }
    if q.len() > 1 {
        assert(nodes[q[0]].parent == Some(nodes[q[1]].id));
    } else {
        assert(q.last() == q[0]);
    }
    if p.len() > 1 && q.len() > 1 {
        assert(0 <= p[1] < nodes.len());
        assert(0 <= q[1] < nodes.len());
        assert(p[1] == q[1]);
        rest_climbs(nodes, p);
        rest_climbs(nodes, q);
        climbs_are_equally_long(nodes, p.drop_first(), q.drop_first());
    }
}

/// Every node with a parent has it in the list, at a smaller depth.
pub open spec fn parents_are_higher(nodes: Seq<NodeView>, depth: Seq<nat>) -> bool {
    &&& depth.len() == nodes.len()
    &&& forall|i: int|
        0 <= i < nodes.len() && #[trigger] nodes[i].parent is Some ==> exists|j: int|
            {
                &&& 0 <= j < nodes.len()
                &&& nodes[i].parent == Some(#[trigger] nodes[j].id)
                &&& depth[j] < depth[i]
            }
}

proof fn deep_nodes_arrive(nodes: Seq<NodeView>, depth: Seq<nat>, i: int)
    requires
        parents_are_higher(nodes, depth),
        0 <= i < nodes.len(),
    ensures
        reaches_root(nodes, i),
    decreases depth[i],
{
    if nodes[i].parent is None {
        assert(is_climb(nodes, seq![i]));
    } else {
        let j = choose|j: int|
            {
                &&& 0 <= j < nodes.len()
                &&& nodes[i].parent == Some(#[trigger] nodes[j].id)
                &&& depth[j] < depth[i]
            };
        deep_nodes_arrive(nodes, depth, j);
        child_climbs(nodes, i, j);
    }
}

/// A list of nodes is a tree exactly when no id occurs twice, exactly one node
/// has no parent, and depths can be given to the nodes so that every other node
/// has its parent in the list at a smaller depth.
pub proof fn tree_iff_nodes_have_depths(nodes: Seq<NodeView>)
    ensures
        is_tree(nodes) <==> {
            &&& forall|i: int, j: int|
                0 <= i < nodes.len() && 0 <= j < nodes.len() && i != j ==> nodes[i].id
                    != nodes[j].id
            &&& exists|r: int|
                {
                    &&& 0 <= r < nodes.len()
                    &&& forall|j: int|
                        0 <= j < nodes.len() ==> (#[trigger] nodes[j].parent is None <==> j == r)
                    &&& #[trigger] nodes[r].parent is None
                }
            &&& exists|depth: Seq<nat>| #[trigger] parents_are_higher(nodes, depth)
        },
{
    if is_tree(nodes) {
        let r = choose|r: int|
            {
                &&& 0 <= r < nodes.len()
                &&& #[trigger] nodes[r].parent is None
                &&& forall|j: int| 0 <= j < nodes.len() && j != r ==> nodes[j].parent is Some
            };
        assert(nodes[r].parent is None);
        let climb = |i: int| choose|path: Seq<int>| #[trigger] is_climb(nodes, path) && path[0] == i;
        let depth = Seq::new(nodes.len(), |i: int| climb(i).len());
        assert forall|i: int| 0 <= i < nodes.len() && #[trigger] nodes[i].parent is Some implies exists|
            j: int,
        | {
            &&& 0 <= j < nodes.len()
            &&& nodes[i].parent == Some(#[trigger] nodes[j].id)
            &&& depth[j] < depth[i]
        } by {
            assert(reaches_root(nodes, i));
            let path = climb(i);
            assert(is_climb(nodes, path) && path[0] == i);
            assert(path.len() > 1) by {
                if path.len() == 1 {
                    assert(path.last() == path[0]);
                }
            }
            let j = path[1];
            rest_climbs(nodes, path);
            assert(nodes[path[0]].parent == Some(nodes[path[1]].id));
            assert(reaches_root(nodes, j));
            let other = climb(j);
            assert(is_climb(nodes, other) && other[0] == j);
            climbs_are_equally_long(nodes, path.drop_first(), other);
            assert(depth[j] < depth[i]);
        }
        assert(parents_are_higher(nodes, depth));
    }
    if {
        &&& forall|i: int, j: int|
            0 <= i < nodes.len() && 0 <= j < nodes.len() && i != j ==> nodes[i].id != nodes[j].id
        &&& exists|r: int|
            {
                &&& 0 <= r < nodes.len()
                &&& forall|j: int|
                    0 <= j < nodes.len() ==> (#[trigger] nodes[j].parent is None <==> j == r)
                &&& #[trigger] nodes[r].parent is None
            }
        &&& exists|depth: Seq<nat>| #[trigger] parents_are_higher(nodes, depth)
    } {
        let depth = choose|depth: Seq<nat>| #[trigger] parents_are_higher(nodes, depth);
        assert forall|i: int| 0 <= i < nodes.len() implies #[trigger] reaches_root(nodes, i) by {
            deep_nodes_arrive(nodes, depth, i);
        }
    }
}

proof fn shape_is_faulted_after_ids(nodes: Seq<NodeView>)
    requires
        first_where(nodes.len(), |j: int| repeats_id(nodes, j)) is None,
    ensures
        ids_distinct(nodes),
{
    let repeats = |j: int| repeats_id(nodes, j);
    first_where_is_least(nodes.len(), repeats);
    assert forall|i: int, j: int| 0 <= i < j < nodes.len() implies nodes[i].id != nodes[j].id by {
        assert(!repeats(j));
    }
}

/// Where a repeated id is reported, two nodes have it, and up to the second of
/// them no other id is repeated.
pub proof fn reported_duplicate_is_there(nodes: Seq<NodeView>, id: Seq<char>)
    requires
        tree_fault(nodes) == Some(TreeFault::DuplicateId { id }),
    ensures
        exists|i: int, j: int|
            {
                &&& 0 <= i < j < nodes.len()
                &&& #[trigger] nodes[i].id == id
                &&& #[trigger] nodes[j].id == id
                &&& forall|a: int, b: int| 0 <= a < b < j ==> nodes[a].id != nodes[b].id
            },
{
    let repeats = |j: int| repeats_id(nodes, j);
    first_where_is_least(nodes.len(), repeats);
    let j = first_where(nodes.len(), repeats)->Some_0;
    assert(repeats(j));
    let i = choose|i: int| 0 <= i < j && #[trigger] nodes[i].id == nodes[j].id;
    assert forall|a: int, b: int| 0 <= a < b < j implies nodes[a].id != nodes[b].id by {
        assert(!repeats(b));
    }
    assert(nodes[i].id == id && nodes[j].id == id);
}

/// Where a missing root is reported, no id occurs twice and every node has a
/// parent.
pub proof fn reported_missing_root_is_missing(nodes: Seq<NodeView>)
    requires
        tree_fault(nodes) == Some(TreeFault::NoRoot),
    ensures
        ids_distinct(nodes),
        forall|j: int| 0 <= j < nodes.len() ==> #[trigger] nodes[j].parent is Some,
{
    shape_is_faulted_after_ids(nodes);
    root_is_the_first_without_parent(nodes);
}

/// Where a second root is reported, no id occurs twice, and the node is the
/// second one without a parent.
pub proof fn reported_second_root_is_there(nodes: Seq<NodeView>, id: Seq<char>)
    requires
        tree_fault(nodes) == Some(TreeFault::SecondRoot { id }),
    ensures
        ids_distinct(nodes),
        exists|i: int, j: int|
            {
                &&& 0 <= i < j < nodes.len()
                &&& #[trigger] nodes[i].parent is None
                &&& #[trigger] nodes[j].parent is None
                &&& nodes[j].id == id
                &&& forall|k: int| 0 <= k < j && k != i ==> #[trigger] nodes[k].parent is Some
            },
{
    let second = |j: int| repeats_root(nodes, j);
    shape_is_faulted_after_ids(nodes);
    first_where_is_least(nodes.len(), second);
    let j = first_where(nodes.len(), second)->Some_0;
    assert(second(j));
    let i = choose|i: int| 0 <= i < j && #[trigger] nodes[i].parent is None;
    assert forall|k: int| 0 <= k < j && k != i implies #[trigger] nodes[k].parent is Some by {
        assert(!second(k));
        assert(!second(i));
    }
    assert(nodes[i].parent is None && nodes[j].parent is None && nodes[j].id == id);
}

/// Where an unknown parent is reported, no id occurs twice, the node names that
/// parent, and no node has its id.
pub proof fn reported_parent_is_unknown(
    nodes: Seq<NodeView>,
    id: Seq<char>,
    parent: Seq<char>,
)
    requires
        tree_fault(nodes) == Some(TreeFault::UnknownParent { id, parent }),
    ensures
        ids_distinct(nodes),
        forall|k: int| 0 <= k < nodes.len() ==> #[trigger] nodes[k].id != parent,
        exists|j: int|
            0 <= j < nodes.len() && #[trigger] nodes[j].id == id && nodes[j].parent == Some(parent),
{
    let misses = |j: int| misses_parent(nodes, j);
    shape_is_faulted_after_ids(nodes);
    first_where_is_least(nodes.len(), misses);
    let j = first_where(nodes.len(), misses)->Some_0;
    assert(misses(j));
    assert(nodes[j].id == id && nodes[j].parent == Some(parent));
}

/// Where a detached node is reported, no id occurs twice, and following parents
/// from the node never arrives at the root.
pub proof fn reported_node_is_detached(nodes: Seq<NodeView>, id: Seq<char>)
    requires
        tree_fault(nodes) == Some(TreeFault::Detached { id }),
    ensures
        ids_distinct(nodes),
        exists|j: int|
            0 <= j < nodes.len() && #[trigger] nodes[j].id == id && !reaches_root(nodes, j),
{
    let cut_off = |j: int| !reaches_root(nodes, j);
    shape_is_faulted_after_ids(nodes);
    first_where_is_least(nodes.len(), cut_off);
    let j = first_where(nodes.len(), cut_off)->Some_0;
    assert(cut_off(j));
    assert(nodes[j].id == id);
}

/// The view of a tree error has every field of it.
pub proof fn tree_error_view_is_faithful(error: TreeError)
    ensures
        match error {
            TreeError::DuplicateId { id } => error@ == (TreeFault::DuplicateId { id: id@ }),
            TreeError::NoRoot => error@ == TreeFault::NoRoot,
            TreeError::SecondRoot { id } => error@ == (TreeFault::SecondRoot { id: id@ }),
            TreeError::UnknownParent { id, parent } => error@ == (TreeFault::UnknownParent {
                id: id@,
                parent: parent@,
            }),
            TreeError::Detached { id } => error@ == (TreeFault::Detached { id: id@ }),
        },
{
}

} // verus!

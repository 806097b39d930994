//! Local queries: a node and its subtree, out of one project's cached rows.

use vstd::prelude::*;

use crate::ident::comes_before;
use crate::store::{Row, RowView};
use crate::tree::{marking_shortens_the_wait, waiting};

verus! {

/// What a query asks for.
#[derive(Debug, PartialEq)]
pub enum Query {
    /// The node with the id.
    ById { id: String },
    /// The nodes with the label.
    ByLabel { label: String },
}

/// What a [`Query`] holds.
pub enum QueryView {
    ById { id: Seq<char> },
    ByLabel { label: Seq<char> },
}

impl View for Query {
    type V = QueryView;

    open spec fn view(&self) -> QueryView {
        match *self {
            Query::ById { id } => QueryView::ById { id: id@ },
            Query::ByLabel { label } => QueryView::ByLabel { label: label@ },
        }
    }
}

/// The query names the row itself.
pub open spec fn finds(query: QueryView, row: RowView) -> bool {
    match query {
        QueryView::ById { id } => row.id == id,
        QueryView::ByLabel { label } => row.label == label,
    }
}

/// The rows' contents, in order.
pub open spec fn row_views(rows: Seq<Row>) -> Seq<RowView> {
    Seq::new(rows.len(), |i: int| rows[i]@)
}

/// The path goes from row to parent within the project, and ends at a row that
/// the query names.
pub open spec fn leads_up(
    rows: Seq<RowView>,
    project: Seq<char>,
    path: Seq<int>,
    query: QueryView,
) -> bool {
    &&& path.len() > 0
    &&& forall|k: int|
        0 <= k < path.len() ==> 0 <= #[trigger] path[k] < rows.len() && rows[path[k]].project
            == project
    &&& forall|k: int, m: int|
        0 <= k && m == k + 1 && m < path.len() ==> rows[#[trigger] path[k]].parent == Some(
            rows[#[trigger] path[m]].id,
        )
    &&& finds(query, rows[path.last()])
}

/// Row `i` is in the subtree of a row of the project that the query names: it
/// is that row, or following parents from it arrives there.
pub open spec fn lies_under(
    rows: Seq<RowView>,
    project: Seq<char>,
    i: int,
    query: QueryView,
) -> bool {
    exists|path: Seq<int>| #[trigger] leads_up(rows, project, path, query) && path[0] == i
}

/// Those of the first `count` rows that lie under the query, in order.
pub open spec fn fetched_among(
    rows: Seq<RowView>,
    project: Seq<char>,
    query: QueryView,
    count: nat,
) -> Seq<RowView>
    decreases count,
{
    if count == 0 {
        Seq::empty()
    } else {
        let before = fetched_among(rows, project, query, (count - 1) as nat);
        if lies_under(rows, project, count - 1, query) {
            before.push(rows[count - 1])
        } else {
            before
        }
    }
}

/// What a query fetches from the rows: the nodes of the project that it names,
/// each with its subtree, in the order of the rows.
pub open spec fn fetched(rows: Seq<RowView>, project: Seq<char>, query: QueryView) -> Seq<RowView> {
    fetched_among(rows, project, query, rows.len())
}

/// A node as a query shows it.
#[derive(Debug, PartialEq)]
pub struct Found {
    pub id: String,
    pub label: String,
    pub content: String,
}

/// What a [`Found`] holds.
pub struct FoundView {
    pub id: Seq<char>,
    pub label: Seq<char>,
    pub content: Seq<char>,
}

impl View for Found {
    type V = FoundView;

    open spec fn view(&self) -> FoundView {
        FoundView { id: self.id@, label: self.label@, content: self.content@ }
    }
}

/// The found nodes' contents, in order.
pub open spec fn found_views(found: Seq<Found>) -> Seq<FoundView> {
    Seq::new(found.len(), |i: int| found[i]@)
}

/// The rows as a query shows them.
pub open spec fn shown(rows: Seq<RowView>) -> Seq<FoundView> {
    Seq::new(
        rows.len(),
        |i: int|
            FoundView { id: rows[i].id, label: rows[i].label, content: rows[i].content },
    )
}

impl Query {
    /// Whether the query names the row itself.
    pub fn names(&self, row: &Row) -> (named: bool)
        ensures
            named == finds(self@, row@),
            match *self {
                Query::ById { id } => named == (row.id@ == id@),
                Query::ByLabel { label } => named == (row.label@ == label@),
            },
    {
        match self {
            Query::ById { id } => row.id == *id,
            Query::ByLabel { label } => row.label == *label,
        }
    }
}

/// The parent of row `k` is among the marked rows.
spec fn has_marked_parent(rows: Seq<RowView>, marked: Seq<bool>, k: int) -> bool {
    exists|u: int|
        0 <= u < rows.len() && #[trigger] marked[u] && rows[k].parent == Some(rows[u].id)
}

/// The project's rows that the query names are marked, and so is every row of
/// the project whose parent is.
spec fn is_closed(
    rows: Seq<RowView>,
    project: Seq<char>,
    query: QueryView,
    marked: Seq<bool>,
) -> bool {
    &&& marked.len() == rows.len()
    &&& forall|k: int|
        0 <= k < rows.len() && rows[k].project == project && finds(query, rows[k])
            ==> #[trigger] marked[k]
    &&& forall|k: int|
        0 <= k < rows.len() && rows[k].project == project && !#[trigger] marked[k]
            ==> !has_marked_parent(rows, marked, k)
}

proof fn closed_marks_cover(
    rows: Seq<RowView>,
    project: Seq<char>,
    query: QueryView,
    marked: Seq<bool>,
    path: Seq<int>,
)
    requires
        is_closed(rows, project, query, marked),
        leads_up(rows, project, path, query),
    ensures
        marked[path[0]],
    decreases path.len(),
{
    if path.len() > 1 {
        let rest = path.drop_first();
        assert forall|k: int, m: int| 0 <= k && m == k + 1 && m < rest.len() implies rows[
        #[trigger] rest[k]].parent == Some(rows[#[trigger] rest[m]].id) by {
            assert(rest[k] == path[k + 1]);
            assert(rest[m] == path[m + 1]);
        }
        assert(rest.last() == path.last());
        closed_marks_cover(rows, project, query, marked, rest);
        assert(rows[path[0]].parent == Some(rows[path[1]].id));
        assert(marked[path[1]]);
        assert(has_marked_parent(rows, marked, path[0]));
    } else {
        assert(path[0] == path.last());
    }
}

/// A node of the project that the query names is fetched.
pub proof fn named_node_is_fetched(
    rows: Seq<RowView>,
    project: Seq<char>,
    query: QueryView,
    i: int,
)
    requires
        0 <= i < rows.len(),
        rows[i].project == project,
        finds(query, rows[i]),
    ensures
        lies_under(rows, project, i, query),
{
    assert(leads_up(rows, project, seq![i], query));
}

/// A node's children are fetched with it.
pub proof fn children_come_with_their_node(
    rows: Seq<RowView>,
    project: Seq<char>,
    query: QueryView,
    i: int,
    child: int,
)
    requires
        lies_under(rows, project, i, query),
        0 <= child < rows.len(),
        rows[child].project == project,
        rows[child].parent == Some(rows[i].id),
    ensures
        lies_under(rows, project, child, query),
{
    let path = choose|path: Seq<int>| #[trigger]
        leads_up(rows, project, path, query) && path[0] == i;
    let longer = seq![child] + path;
    assert forall|k: int| 0 <= k < longer.len() implies 0 <= #[trigger] longer[k] < rows.len()
        && rows[longer[k]].project == project by {
        if k > 0 {
            assert(longer[k] == path[k - 1]);
        }
    }
    assert forall|k: int, m: int| 0 <= k && m == k + 1 && m < longer.len() implies rows[
    #[trigger] longer[k]].parent == Some(rows[#[trigger] longer[m]].id) by {
        assert(longer[m] == path[m - 1]);
        if k > 0 {
            assert(longer[k] == path[k - 1]);
        }
    }
    assert(longer.last() == path.last());
    assert(leads_up(rows, project, longer, query));
}

/// Nothing else is fetched: a fetched node is of the project, and is one that
/// the query names or a child of a fetched node.
pub proof fn nothing_else_is_fetched(
    rows: Seq<RowView>,
    project: Seq<char>,
    query: QueryView,
    i: int,
)
    requires
        lies_under(rows, project, i, query),
    ensures
        0 <= i < rows.len(),
        rows[i].project == project,
        finds(query, rows[i]) || exists|up: int|
            #[trigger] lies_under(rows, project, up, query) && rows[i].parent == Some(rows[up].id),
{
    let path = choose|path: Seq<int>| #[trigger]
        leads_up(rows, project, path, query) && path[0] == i;
    assert(path[0] == i);
    if path.len() > 1 {
        let rest = path.drop_first();
        assert forall|k: int, m: int| 0 <= k && m == k + 1 && m < rest.len() implies rows[
        #[trigger] rest[k]].parent == Some(rows[#[trigger] rest[m]].id) by {
            assert(rest[k] == path[k + 1]);
            assert(rest[m] == path[m + 1]);
        }
        assert(rest.last() == path.last());
        assert(leads_up(rows, project, rest, query) && rest[0] == path[1]);
        assert(lies_under(rows, project, path[1], query));
        assert(rows[path[0]].parent == Some(rows[path[1]].id));
    } else {
        assert(path.last() == i);
    }
}

fn any_marked(rows: &Vec<Row>, marked: &Vec<bool>, id: &String) -> (any: bool)
    requires
        marked@.len() == rows@.len(),
    ensures
        any <==> exists|u: int|
            0 <= u < rows@.len() && #[trigger] marked@[u] && row_views(rows@)[u].id == id@,
{
    let ghost views = row_views(rows@);
    let mut u: usize = 0;
    while u < rows.len()
        invariant
            u <= rows@.len(),
            marked@.len() == rows@.len(),
            views == row_views(rows@),
            forall|k: int| 0 <= k < u && #[trigger] marked@[k] ==> views[k].id != id@,
        decreases rows@.len() - u,
    {
        if marked[u] && rows[u].id == *id {
            assert(views[u as int].id == id@);
            return true;
        }
        u = u + 1;
    }
    false
}

/// Marks the rows that lie under the query: first those that it names, then,
/// as long as there are any, those whose parent is marked.
fn mark_subtrees(project: &String, rows: &Vec<Row>, query: &Query) -> (marked: Vec<bool>)
    ensures
        marked@.len() == rows@.len(),
        forall|k: int|
            0 <= k < rows@.len() ==> (#[trigger] marked@[k] <==> lies_under(
                row_views(rows@),
                project@,
                k,
                query@,
            )),
{
    let ghost views = row_views(rows@);
    let n: usize = rows.len();
    let mut marked: Vec<bool> = Vec::new();
    let mut i: usize = 0;
    while i < n
        invariant
            i <= n,
            n == rows@.len(),
            views == row_views(rows@),
            marked@.len() == i,
            forall|k: int|
                0 <= k < i ==> (#[trigger] marked@[k] <==> views[k].project == project@ && finds(
                    query@,
                    views[k],
                )),
        decreases n - i,
    {
        assert(views[i as int] == rows@[i as int]@);
        let named: bool = rows[i].project == *project && query.names(&rows[i]);
        marked.push(named);
        i = i + 1;
    }
    assert forall|k: int| 0 <= k < n && #[trigger] marked@[k] implies lies_under(
        views,
        project@,
        k,
        query@,
    ) by {
        named_node_is_fetched(views, project@, query@, k);
    }
    let mut spreading: bool = true;
    while spreading
        invariant
            n == rows@.len(),
            views == row_views(rows@),
            marked@.len() == n,
            forall|k: int|
                0 <= k < n && views[k].project == project@ && finds(query@, views[k])
                    ==> #[trigger] marked@[k],
            forall|k: int|
                0 <= k < n && #[trigger] marked@[k] ==> lies_under(views, project@, k, query@),
            !spreading ==> is_closed(views, project@, query@, marked@),
        decreases waiting(marked@), if spreading {
            1int
        } else {
            0int
        },
    {
        let ghost start = marked@;
        spreading = false;
        let mut j: usize = 0;
        while j < n
            invariant
                j <= n,
                n == rows@.len(),
                views == row_views(rows@),
                marked@.len() == n,
                start.len() == n,
                forall|k: int|
                    0 <= k < n && views[k].project == project@ && finds(query@, views[k])
                        ==> #[trigger] marked@[k],
                forall|k: int|
                    0 <= k < n && #[trigger] marked@[k] ==> lies_under(views, project@, k, query@),
                waiting(marked@) <= waiting(start),
                spreading ==> waiting(marked@) < waiting(start),
                !spreading ==> forall|k: int|
                    0 <= k < j && views[k].project == project@ && !#[trigger] marked@[k]
                        ==> !has_marked_parent(views, marked@, k),
            decreases n - j,
        {
            assert(views[j as int] == rows@[j as int]@);
            if !marked[j] && rows[j].project == *project {
                if let Some(parent) = &rows[j].parent {
                    if any_marked(rows, &marked, parent) {
                        proof {
                            let u = choose|u: int|
                                0 <= u < n && #[trigger] marked@[u] && views[u].id == parent@;
                            children_come_with_their_node(views, project@, query@, u, j as int);
                            marking_shortens_the_wait(marked@, j as int);
                        }
                        marked.set(j, true);
                        spreading = true;
                    }
                }
            }
            j = j + 1;
        }
    }
    assert forall|k: int| 0 <= k < n && lies_under(views, project@, k, query@) implies
        #[trigger] marked@[k] by {
        let path = choose|path: Seq<int>| #[trigger]
            leads_up(views, project@, path, query@) && path[0] == k;
        closed_marks_cover(views, project@, query@, marked@, path);
    }
    marked
}

/// What a query fetches from the rows: exactly the rows of the project that it
/// names and those in their subtrees, each once, in the order of the rows.
pub fn local_tree(project: &str, rows: &Vec<Row>, query: &Query) -> (found: Vec<Found>)
    ensures
        found_views(found@) == shown(fetched(row_views(rows@), project@, query@)),
{
    let ghost views = row_views(rows@);
    let owner: String = project.to_owned();
    let marked: Vec<bool> = mark_subtrees(&owner, rows, query);
    let mut found: Vec<Found> = Vec::new();
    let mut i: usize = 0;
    assert(found_views(found@) =~= shown(fetched_among(views, project@, query@, 0)));
    while i < rows.len()
        invariant
            i <= rows@.len(),
            views == row_views(rows@),
            marked@.len() == rows@.len(),
            forall|k: int|
                0 <= k < rows@.len() ==> (#[trigger] marked@[k] <==> lies_under(
                    views,
                    project@,
                    k,
                    query@,
                )),
            found_views(found@) == shown(fetched_among(views, project@, query@, i as nat)),
        decreases rows@.len() - i,
    {
        let ghost before = found@;
        assert(views[i as int] == rows@[i as int]@);
        if marked[i] {
            let row: &Row = &rows[i];
            found.push(
                Found {
                    id: row.id.clone(),
                    label: row.label.clone(),
                    content: row.content.clone(),
                },
            );
            proof {
                let was = fetched_among(views, project@, query@, i as nat);
                assert(fetched_among(views, project@, query@, (i + 1) as nat) == was.push(
                    views[i as int],
                ));
                assert(found_views(found@) =~= found_views(before).push(found@.last()@));
                assert(shown(was.push(views[i as int])) =~= shown(was).push(found@.last()@));
            }
        }
        i = i + 1;
    }
    found
}

proof fn fetched_among_is_exact(
    rows: Seq<RowView>,
    project: Seq<char>,
    query: QueryView,
    count: nat,
    row: RowView,
)
    requires
        count <= rows.len(),
    ensures
        fetched_among(rows, project, query, count).contains(row) <==> exists|i: int|
            0 <= i < count && #[trigger] lies_under(rows, project, i, query) && rows[i] == row,
    decreases count,
{
    let all = fetched_among(rows, project, query, count);
    if count > 0 {
        let last = count - 1;
        let before = fetched_among(rows, project, query, last as nat);
        fetched_among_is_exact(rows, project, query, last as nat, row);
        if all.contains(row) && !before.contains(row) {
            let k = choose|k: int| 0 <= k < all.len() && all[k] == row;
            if k < before.len() {
                assert(before[k] == row);
            }
            assert(lies_under(rows, project, last, query) && rows[last] == row);
        }
        if before.contains(row) {
            let k = choose|k: int| 0 <= k < before.len() && before[k] == row;
            assert(all[k] == row);
        }
        if lies_under(rows, project, last, query) && rows[last] == row {
            assert(all[all.len() - 1] == row);
        }
    }
}

/// The fetched rows are exactly those that lie under the query.
pub proof fn fetched_rows_are_exact(
    rows: Seq<RowView>,
    project: Seq<char>,
    query: QueryView,
    row: RowView,
)
    ensures
        fetched(rows, project, query).contains(row) <==> exists|i: int|
            0 <= i < rows.len() && #[trigger] lies_under(rows, project, i, query) && rows[i] == row,
{
    fetched_among_is_exact(rows, project, query, rows.len(), row);
}

/// A query never fetches a row of another project.
pub proof fn fetching_is_local(
    rows: Seq<RowView>,
    project: Seq<char>,
    query: QueryView,
    k: int,
)
    requires
        0 <= k < fetched(rows, project, query).len(),
    ensures
        fetched(rows, project, query)[k].project == project,
{
    let row = fetched(rows, project, query)[k];
    fetched_rows_are_exact(rows, project, query, row);
    let i = choose|i: int|
        0 <= i < rows.len() && #[trigger] lies_under(rows, project, i, query) && rows[i] == row;
    nothing_else_is_fetched(rows, project, query, i);
}

/// The rows stand in ascending order of their ids.
pub open spec fn ids_ascend(rows: Seq<RowView>) -> bool {
    forall|i: int, j: int| 0 <= i < j < rows.len() ==> comes_before(rows[i].id, rows[j].id)
}

proof fn fetched_among_ascends(
    rows: Seq<RowView>,
    project: Seq<char>,
    query: QueryView,
    count: nat,
)
    requires
        ids_ascend(rows),
        count <= rows.len(),
    ensures
        ids_ascend(fetched_among(rows, project, query, count)),
    decreases count,
{
    if count > 0 {
        let last = count - 1;
        let before = fetched_among(rows, project, query, last as nat);
        let all = fetched_among(rows, project, query, count);
        fetched_among_ascends(rows, project, query, last as nat);
        assert forall|i: int, j: int| 0 <= i < j < all.len() implies comes_before(
            all[i].id,
            all[j].id,
        ) by {
            if j < before.len() {
                assert(comes_before(before[i].id, before[j].id));
            } else {
                assert(before.contains(before[i]));
                fetched_among_is_exact(rows, project, query, last as nat, before[i]);
                let k = choose|k: int|
                    0 <= k < last && #[trigger] lies_under(rows, project, k, query) && rows[k]
                        == before[i];
                assert(comes_before(rows[k].id, rows[last].id));
            }
        }
    }
}

/// Out of rows in ascending order of their ids, a query fetches them in that
/// order.
pub proof fn fetching_keeps_the_order(rows: Seq<RowView>, project: Seq<char>, query: QueryView)
    requires
        ids_ascend(rows),
    ensures
        ids_ascend(fetched(rows, project, query)),
{
    fetched_among_ascends(rows, project, query, rows.len());
}

/// The line that shows a found node.
pub open spec fn found_line(found: FoundView) -> Seq<char> {
    found.id + " | "@ + found.label + " | "@ + found.content
}

/// The lines that show the found nodes.
pub open spec fn found_lines(found: Seq<FoundView>) -> Seq<char>
    decreases found.len(),
{
    if found.len() == 0 {
        Seq::empty()
    } else {
        found_lines(found.drop_last()) + found_line(found.last()) + "\n"@
    }
}

/// What shows the found nodes: a line for each, or that there is none.
pub open spec fn found_text(found: Seq<FoundView>) -> Seq<char> {
    if found.len() == 0 {
        "(no nodes found)\n"@
    } else {
        found_lines(found)
    }
}

/// Shows a found node.
pub fn print_node(found: &Found) -> (line: String)
    ensures
        line@ == found_line(found@),
        line@ == found.id@ + " | "@ + found.label@ + " | "@ + found.content@,
{
    let mut line: String = found.id.clone();
    line.append(" | ");
    line.append(found.label.as_str());
    line.append(" | ");
    line.append(found.content.as_str());
    line
}

/// Shows the found nodes, in order.
pub fn render_found(found: &Vec<Found>) -> (text: String)
    ensures
        text@ == found_text(found_views(found@)),
{
    let ghost views = found_views(found@);
    if found.len() == 0 {
        return "(no nodes found)\n".to_owned();
    }
    let mut text = String::new();
    let mut i: usize = 0;
    while i < found.len()
        invariant
            i <= found@.len(),
            views == found_views(found@),
            text@ == found_lines(views.take(i as int)),
        decreases found@.len() - i,
    {
        let line: String = print_node(&found[i]);
        text.append(line.as_str());
        text.append("\n");
        i = i + 1;
        assert(views.take(i as int).drop_last() =~= views.take(i - 1));
        assert(views.take(i as int).last() == found@[i - 1]@);
    }
    assert(views.take(i as int) =~= views);
    text
}

/// Answers a query from the cached rows of a project: the nodes that it names
/// and their subtrees, a line each.
pub fn answer(project: &str, rows: &Vec<Row>, query: &Query) -> (text: String)
    ensures
        text@ == found_text(shown(fetched(row_views(rows@), project@, query@))),
{
    let found: Vec<Found> = local_tree(project, rows, query);
    render_found(&found)
}

/// A query names a row by exactly the id or the label that it asks for.
pub proof fn queries_name_by_id_or_label(text: Seq<char>, row: RowView)
    ensures
        finds(QueryView::ById { id: text }, row) <==> row.id == text,
        finds(QueryView::ByLabel { label: text }, row) <==> row.label == text,
{
}

/// What is fetched is the least that holds the named nodes and, with a node,
/// its children: every set of rows that does so has it all.
pub proof fn fetched_is_the_least_closed(
    rows: Seq<RowView>,
    project: Seq<char>,
    query: QueryView,
    inside: Set<int>,
    i: int,
)
    requires
        forall|k: int|
            0 <= k < rows.len() && rows[k].project == project && finds(query, rows[k])
                ==> #[trigger] inside.contains(k),
        forall|k: int, child: int|
            0 <= k < rows.len() && 0 <= child < rows.len() && #[trigger] inside.contains(k)
                && rows[child].project == project && rows[child].parent == Some(rows[k].id)
                ==> #[trigger] inside.contains(child),
        lies_under(rows, project, i, query),
    ensures
        inside.contains(i),
{
    let path = choose|path: Seq<int>| #[trigger]
        leads_up(rows, project, path, query) && path[0] == i;
    path_stays_inside(rows, project, query, inside, path);
}

proof fn path_stays_inside(
    rows: Seq<RowView>,
    project: Seq<char>,
    query: QueryView,
    inside: Set<int>,
    path: Seq<int>,
)
    requires
        forall|k: int|
            0 <= k < rows.len() && rows[k].project == project && finds(query, rows[k])
                ==> #[trigger] inside.contains(k),
        forall|k: int, child: int|
            0 <= k < rows.len() && 0 <= child < rows.len() && #[trigger] inside.contains(k)
                && rows[child].project == project && rows[child].parent == Some(rows[k].id)
                ==> #[trigger] inside.contains(child),
        leads_up(rows, project, path, query),
    ensures
        inside.contains(path[0]),
    decreases path.len(),
{
    let child = path[0];
    assert(0 <= child < rows.len() && rows[child].project == project);
    if path.len() > 1 {
        let rest = path.drop_first();
        assert forall|k: int, m: int| 0 <= k && m == k + 1 && m < rest.len() implies rows[
        #[trigger] rest[k]].parent == Some(rows[#[trigger] rest[m]].id) by {
            assert(rest[k] == path[k + 1]);
            assert(rest[m] == path[m + 1]);
        }
        assert(rest.last() == path.last());
        path_stays_inside(rows, project, query, inside, rest);
        let up = path[1];
        assert(0 <= up < rows.len());
        assert(inside.contains(up));
        assert(rows[path[0]].parent == Some(rows[path[1]].id));
        if !inside.contains(child) {
            assert(false);
        }
    } else {
        assert(path.last() == child);
    }
}

proof fn fetched_among_picks(
    rows: Seq<RowView>,
    project: Seq<char>,
    query: QueryView,
    count: nat,
) -> (at: Seq<int>)
    requires
        count <= rows.len(),
    ensures
        at.len() == fetched_among(rows, project, query, count).len(),
        forall|k: int|
            0 <= k < at.len() ==> 0 <= #[trigger] at[k] < count && fetched_among(
                rows,
                project,
                query,
                count,
            )[k] == rows[at[k]] && lies_under(rows, project, at[k], query),
        forall|k: int, m: int| 0 <= k < m < at.len() ==> at[k] < at[m],
        forall|i: int|
            0 <= i < count && #[trigger] lies_under(rows, project, i, query) ==> at.contains(i),
    decreases count,
{
    if count == 0 {
        Seq::empty()
    } else {
        let last = count - 1;
        let before = fetched_among_picks(rows, project, query, last as nat);
        if lies_under(rows, project, last, query) {
            let at = before.push(last);
            assert forall|i: int| 0 <= i < count && #[trigger] lies_under(
                rows,
                project,
                i,
                query,
            ) implies at.contains(i) by {
                if i < last {
                    let k = choose|k: int| 0 <= k < before.len() && before[k] == i;
                    assert(at[k] == i);
                } else {
                    assert(at[before.len() as int] == i);
                }
            }
            at
        } else {
            before
        }
    }
}

/// The fetched rows stand at ascending places among the rows, and those places
/// are exactly the ones that lie under the query: none is left out, none taken
/// twice.
pub proof fn fetched_rows_keep_their_places(
    rows: Seq<RowView>,
    project: Seq<char>,
    query: QueryView,
) -> (at: Seq<int>)
    ensures
        at.len() == fetched(rows, project, query).len(),
        forall|k: int|
            0 <= k < at.len() ==> 0 <= #[trigger] at[k] < rows.len() && fetched(
                rows,
                project,
                query,
            )[k] == rows[at[k]],
        forall|k: int, m: int| 0 <= k < m < at.len() ==> at[k] < at[m],
        forall|i: int|
            0 <= i < rows.len() ==> (#[trigger] lies_under(rows, project, i, query)
                <==> at.contains(i)),
{
    let at = fetched_among_picks(rows, project, query, rows.len());
    assert forall|i: int| 0 <= i < rows.len() implies (#[trigger] lies_under(
        rows,
        project,
        i,
        query,
    ) <==> at.contains(i)) by {
        if at.contains(i) {
            let k = choose|k: int| 0 <= k < at.len() && at[k] == i;
            assert(lies_under(rows, project, at[k], query));
        }
    }
    at
}

/// Every row is shown by its own id, label and content, in order.
pub proof fn rows_are_shown_as_they_are(rows: Seq<RowView>)
    ensures
        shown(rows).len() == rows.len(),
        forall|i: int|
            0 <= i < rows.len() ==> (#[trigger] shown(rows)[i]).id == rows[i].id && shown(
                rows,
            )[i].label == rows[i].label && shown(rows)[i].content == rows[i].content,
{
}

/// A single node is shown by its line. One more node behind others adds its
/// line behind theirs. Where there is none, that is said.
pub proof fn every_found_node_has_its_line(found: Seq<FoundView>, next: FoundView)
    ensures
        found_text(Seq::empty()) == "(no nodes found)\n"@,
        found_text(seq![next]) == next.id + " | "@ + next.label + " | "@ + next.content + "\n"@,
        found.len() > 0 ==> found_text(found.push(next)) == found_text(found) + (next.id + " | "@
            + next.label + " | "@ + next.content + "\n"@),
{
    reveal_with_fuel(found_lines, 2);
    assert(seq![next].drop_last() =~= Seq::<FoundView>::empty());
    assert(found_text(seq![next]) =~= next.id + " | "@ + next.label + " | "@ + next.content
        + "\n"@);
    assert(found.push(next).drop_last() =~= found);
    if found.len() > 0 {
        assert(found_text(found.push(next)) =~= found_text(found) + (next.id + " | "@ + next.label
            + " | "@ + next.content + "\n"@));
    }
}

/// The line of every found node occurs in the text, whole.
pub proof fn every_line_occurs(found: Seq<FoundView>, i: int) -> (at: int)
    requires
        0 <= i < found.len(),
    ensures
        ({
            let line = found[i].id + " | "@ + found[i].label + " | "@ + found[i].content + "\n"@;
            &&& 0 <= at
            &&& at + line.len() <= found_text(found).len()
            &&& found_text(found).subrange(at, at + line.len()) == line
        }),
    decreases found.len(),
{
    let init = found.drop_last();
    let last = found.last();
    let line = found[i].id + " | "@ + found[i].label + " | "@ + found[i].content + "\n"@;
    every_found_node_has_its_line(init, last);
    assert(init.push(last) =~= found);
    if init.len() == 0 {
        assert(found =~= seq![last]);
        assert(found_text(found).subrange(0, line.len() as int) =~= line);
        0
    } else if i == found.len() - 1 {
        let at = found_text(init).len() as int;
        assert(found_text(found).subrange(at, at + line.len()) =~= line);
        at
    } else {
        let at = every_line_occurs(init, i);
        assert(found_text(found).subrange(at, at + line.len()) =~= found_text(init).subrange(
            at,
            at + line.len(),
        ));
        at
    }
}

/// The views of queries, rows and found nodes have every field, in order.
pub proof fn query_views_are_faithful(query: Query, rows: Seq<Row>, found: Seq<Found>)
    ensures
        match query {
            Query::ById { id } => query@ == (QueryView::ById { id: id@ }),
            Query::ByLabel { label } => query@ == (QueryView::ByLabel { label: label@ }),
        },
        row_views(rows).len() == rows.len(),
        forall|i: int| 0 <= i < rows.len() ==> #[trigger] row_views(rows)[i] == rows[i]@,
        found_views(found).len() == found.len(),
        forall|i: int|
            0 <= i < found.len() ==> (#[trigger] found_views(found)[i]).id == found[i].id@
                && found_views(found)[i].label == found[i].label@ && found_views(found)[i].content
                == found[i].content@,
{
}

} // verus!

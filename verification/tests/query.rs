use rusqlite::{params_from_iter, Connection};

use sham::cache::{materialize_all, Change};
use sham::command::{add_with_id, get_query};
use sham::query::{answer, local_tree, print_node, render_found, Found, Query};
use sham::source::MemoryFile;
use sham::store::{open_db, select_rows, Row};

fn row(id: &str, project: &str, label: &str, content: &str, parent: Option<&str>) -> Row {
    Row {
        id: id.to_string(),
        project: project.to_string(),
        label: label.to_string(),
        content: content.to_string(),
        parent: parent.map(String::from),
    }
}

fn by_label(label: &str) -> Query {
    get_query(Some(label.to_string()), None).unwrap()
}

fn by_id(id: &str) -> Query {
    get_query(None, Some(id.to_string())).unwrap()
}

fn ids(project: &str, rows: &Vec<Row>, query: &Query) -> Vec<String> {
    local_tree(project, rows, query).into_iter().map(|f| f.id).collect()
}

#[test]
fn a_get_fetches_the_node_and_its_subtree() {
    let rows = vec![
        row("01A", "acme", "billing", "chose Stripe", None),
        row("01B", "acme", "", "idempotent webhooks", Some("01A")),
    ];
    let text = "01A | billing | chose Stripe\n01B |  | idempotent webhooks\n";
    assert_eq!(answer("acme", &rows, &by_label("billing")), text);
    assert_eq!(answer("acme", &rows, &by_id("01A")), text);
    assert_eq!(
        answer("acme", &rows, &by_id("01B")),
        "01B |  | idempotent webhooks\n"
    );
}

#[test]
fn a_get_is_local_to_its_project() {
    let rows = vec![
        row("01A", "acme", "billing", "chose Stripe", None),
        row("09A", "globex", "billing", "chose Adyen", None),
        row("09B", "acme", "", "strayed", Some("09A")),
        row("09C", "globex", "", "strayed too", Some("01A")),
    ];
    assert_eq!(
        answer("acme", &rows, &by_label("billing")),
        "01A | billing | chose Stripe\n"
    );
    assert_eq!(
        answer("acme", &rows, &by_id("09A")),
        "(no nodes found)\n"
    );
}

#[test]
fn deep_subtrees_are_fetched_whole_and_nothing_beside_them() {
    let rows = vec![
        row("01", "p", "p", "", None),
        row("02", "p", "", "grandchild", Some("04")),
        row("03", "p", "a", "x", Some("01")),
        row("04", "p", "", "child", Some("03")),
        row("05", "p", "b", "y", Some("01")),
        row("06", "p", "", "of b", Some("05")),
    ];
    assert_eq!(ids("p", &rows, &by_label("a")), vec!["02", "03", "04"]);
    assert_eq!(ids("p", &rows, &by_id("05")), vec!["05", "06"]);
    // The root's subtree is the project.
    assert_eq!(ids("p", &rows, &by_id("01")).len(), 6);
}

#[test]
fn a_node_under_two_matches_is_fetched_once() {
    let rows = vec![
        row("01", "p", "a", "x", None),
        row("02", "p", "a", "y", Some("01")),
        row("03", "p", "", "z", Some("02")),
    ];
    assert_eq!(ids("p", &rows, &by_label("a")), vec!["01", "02", "03"]);
}

#[test]
fn rows_in_a_cycle_are_fetched_once() {
    let rows = vec![
        row("01", "p", "a", "x", Some("02")),
        row("02", "p", "b", "y", Some("01")),
        row("03", "p", "c", "z", Some("none")),
    ];
    assert_eq!(ids("p", &rows, &by_label("a")), vec!["01", "02"]);
    assert!(ids("p", &rows, &by_label("zzz")).is_empty());
    assert!(local_tree("p", &Vec::new(), &by_label("a")).is_empty());
}

#[test]
fn a_query_names_rows_by_id_or_label() {
    let r = row("01A", "p", "billing", "x", None);
    assert!(by_id("01A").names(&r));
    assert!(!by_id("billing").names(&r));
    assert!(by_label("billing").names(&r));
    assert!(!by_label("01A").names(&r));
}

#[test]
fn found_nodes_are_shown_one_per_line() {
    let found = |id: &str, label: &str, content: &str| Found {
        id: id.to_string(),
        label: label.to_string(),
        content: content.to_string(),
    };
    let a = found("01A", "billing", "chose Stripe");
    assert_eq!(print_node(&a), "01A | billing | chose Stripe");
    assert_eq!(
        render_found(&vec![a, found("01B", "", "why")]),
        "01A | billing | chose Stripe\n01B |  | why\n"
    );
    assert_eq!(render_found(&Vec::new()), "(no nodes found)\n");
}

#[test]
fn an_attached_rationale_is_fetched_from_the_cache_in_id_order() {
    let conn = Connection::open_in_memory().unwrap();
    for batch in open_db(0) {
        conn.execute_batch(&batch.sql).unwrap();
    }
    let make = |change: &Change| {
        let statement = change.statement();
        conn.execute(&statement.sql, params_from_iter(statement.params.iter()))
            .unwrap();
    };
    let mut mem = MemoryFile::rooted("acme", "01R");
    let other = MemoryFile::rooted("globex", "01S");
    let pass = materialize_all(&vec![Some(mem.clone()), Some(other)]).unwrap();
    pass.changes.iter().for_each(make);
    let idea = vec!["billing".to_string(), "chose Stripe".to_string()];
    let added = add_with_id(&mut mem, &idea, None, "01B").unwrap();
    make(&added.change);
    let why = vec!["idempotent webhooks".to_string()];
    let added = add_with_id(&mut mem, &why, Some("01B".to_string()), "01A").unwrap();
    make(&added.change);

    let statement = select_rows("acme");
    let mut prepared = conn.prepare(&statement.sql).unwrap();
    let listed = prepared
        .query_map(params_from_iter(statement.params.iter()), |r| {
            Ok(Row {
                id: r.get(0)?,
                project: r.get(1)?,
                label: r.get(2)?,
                content: r.get(3)?,
                parent: r.get(4)?,
            })
        })
        .unwrap();
    let rows: Vec<Row> = listed.map(|r| r.unwrap()).collect();
    assert_eq!(
        answer("acme", &rows, &by_label("billing")),
        "01A |  | idempotent webhooks\n01B | billing | chose Stripe\n"
    );
    assert_eq!(ids("acme", &rows, &by_id("01R")), vec!["01A", "01B", "01R"]);
}

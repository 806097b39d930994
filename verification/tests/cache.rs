use rusqlite::{params_from_iter, Connection};

use sham::cache::{build_all, count_pruned, materialize_all, Change, PassError};
use sham::command::add_with_id;
use sham::source::{append_node, MemoryFile, Node};
use sham::store::{open_db, Row};
use sham::tree::TreeError;

fn opened() -> Connection {
    let conn = Connection::open_in_memory().unwrap();
    for batch in open_db(0) {
        conn.execute_batch(&batch.sql).unwrap();
    }
    conn
}

fn apply(conn: &Connection, changes: &[Change]) -> usize {
    let mut pruned = 0;
    for change in changes {
        let statement = change.statement();
        let n = conn
            .execute(&statement.sql, params_from_iter(statement.params.iter()))
            .unwrap();
        pruned = count_pruned(pruned, change, n).unwrap();
    }
    pruned
}

fn rows(conn: &Connection) -> Vec<(String, String, String)> {
    let mut prepared = conn
        .prepare("SELECT project, id, content FROM nodes ORDER BY project, id")
        .unwrap();
    let rows = prepared
        .query_map([], |r| Ok((r.get(0)?, r.get(1)?, r.get(2)?)))
        .unwrap();
    rows.map(|r| r.unwrap()).collect()
}

fn project(name: &str, root: &str, ideas: &[(&str, &str)]) -> MemoryFile {
    let mut mem = MemoryFile::rooted(name, root);
    for (id, content) in ideas {
        append_node(&mut mem, Node::new(id, "idea", content, Some(root.into())));
    }
    mem
}

fn triple(project: &str, id: &str, content: &str) -> (String, String, String) {
    (project.to_string(), id.to_string(), content.to_string())
}

#[test]
fn a_row_stands_for_its_node() {
    let node = Node::new("01B", "billing", "chose Stripe", Some("01A".into()));
    assert_eq!(
        Row::of_node("acme", &node),
        Row {
            id: "01B".to_string(),
            project: "acme".to_string(),
            label: "billing".to_string(),
            content: "chose Stripe".to_string(),
            parent: Some("01A".to_string()),
        }
    );
}

#[test]
fn a_pass_upserts_every_node_and_prunes_after_each_source() {
    let sources = vec![
        Some(project("acme", "01R", &[("01A", "x")])),
        Some(project("globex", "09R", &[])),
    ];
    let pass = materialize_all(&sources).unwrap();
    assert_eq!(pass.projects, 2);
    assert_eq!(pass.nodes, 3);
    assert_eq!(pass.changes.len(), 5);
    assert!(matches!(&pass.changes[0], Change::Upsert { row } if row.id == "01R"));
    assert!(matches!(&pass.changes[1], Change::Upsert { row } if row.id == "01A"));
    assert_eq!(
        pass.changes[2],
        Change::Prune {
            project: "acme".to_string(),
            live: vec!["01R".to_string(), "01A".to_string()]
        }
    );
    assert!(matches!(&pass.changes[3], Change::Upsert { row } if row.id == "09R"));
    assert!(matches!(&pass.changes[4], Change::Prune { project, .. } if project == "globex"));
}

#[test]
fn a_pass_over_nothing_changes_nothing() {
    let pass = materialize_all(&Vec::new()).unwrap();
    assert_eq!((pass.projects, pass.nodes, pass.changes.len()), (0, 0, 0));
}

#[test]
fn after_a_pass_the_cache_mirrors_the_sources() {
    let conn = opened();
    let before = project("acme", "01R", &[("01A", "old"), ("01B", "gone")]);
    apply(&conn, &materialize_all(&vec![Some(before)]).unwrap().changes);
    let after = project("acme", "01R", &[("01A", "new"), ("01C", "fresh")]);
    let pruned = apply(&conn, &materialize_all(&vec![Some(after)]).unwrap().changes);
    assert_eq!(pruned, 1);
    assert_eq!(
        rows(&conn),
        vec![
            triple("acme", "01A", "new"),
            triple("acme", "01C", "fresh"),
            triple("acme", "01R", ""),
        ]
    );
}

#[test]
fn a_second_pass_changes_nothing() {
    let conn = opened();
    let sources = vec![
        Some(project("acme", "01R", &[("01A", "x")])),
        Some(project("globex", "09R", &[("09A", "y")])),
    ];
    let pass = materialize_all(&sources).unwrap();
    apply(&conn, &pass.changes);
    let once = rows(&conn);
    assert_eq!(apply(&conn, &pass.changes), 0);
    assert_eq!(rows(&conn), once);
}

#[test]
fn a_pass_keeps_rows_of_unregistered_projects_and_a_rebuild_drops_them() {
    let conn = opened();
    let other = project("gone", "05R", &[]);
    apply(&conn, &materialize_all(&vec![Some(other)]).unwrap().changes);
    let sources = vec![Some(project("acme", "01R", &[]))];
    apply(&conn, &materialize_all(&sources).unwrap().changes);
    assert_eq!(
        rows(&conn),
        vec![triple("acme", "01R", ""), triple("gone", "05R", "")]
    );
    let build = build_all(&sources).unwrap();
    assert_eq!(build.changes[0], Change::Clear);
    assert_eq!((build.projects, build.nodes), (1, 1));
    apply(&conn, &build.changes);
    assert_eq!(rows(&conn), vec![triple("acme", "01R", "")]);
}

#[test]
fn a_pass_and_a_rebuild_agree_on_registered_projects() {
    let sources = vec![
        Some(project("acme", "01R", &[("01A", "x")])),
        Some(project("globex", "09R", &[("09A", "y")])),
    ];
    let passed = opened();
    let stale = project("acme", "01R", &[("01Z", "stale")]);
    apply(&passed, &materialize_all(&vec![Some(stale)]).unwrap().changes);
    apply(&passed, &materialize_all(&sources).unwrap().changes);
    let rebuilt = opened();
    apply(&rebuilt, &build_all(&sources).unwrap().changes);
    assert_eq!(rows(&passed), rows(&rebuilt));
}

#[test]
fn the_first_unfit_source_stops_the_pass() {
    let good = project("acme", "01R", &[]);
    let rootless = MemoryFile::new("bad");
    let unread = vec![Some(good.clone()), None, Some(rootless.clone())];
    assert_eq!(materialize_all(&unread), Err(PassError::Unread { index: 1 }));
    assert_eq!(build_all(&unread), Err(PassError::Unread { index: 1 }));
    let invalid = vec![Some(good), Some(rootless), None];
    assert_eq!(
        materialize_all(&invalid),
        Err(PassError::Invalid {
            index: 1,
            error: TreeError::NoRoot
        })
    );
    assert_eq!(
        build_all(&invalid),
        Err(PassError::Invalid {
            index: 1,
            error: TreeError::NoRoot
        })
    );
}

#[test]
fn an_add_keeps_the_cache_in_line_without_a_pass() {
    let conn = opened();
    let mut mem = project("acme", "01R", &[]);
    let first = materialize_all(&vec![Some(mem.clone())]).unwrap();
    apply(&conn, &first.changes);
    let args = vec!["billing".to_string(), "chose Stripe".to_string()];
    let added = add_with_id(&mut mem, &args, None, "01A").unwrap();
    apply(&conn, &[added.change]);
    let added_rows = rows(&conn);
    assert_eq!(added_rows[0], triple("acme", "01A", "chose Stripe"));
    assert_eq!(apply(&conn, &materialize_all(&vec![Some(mem)]).unwrap().changes), 0);
    assert_eq!(rows(&conn), added_rows);
}

#[test]
fn pruned_rows_alone_are_counted() {
    let prune = Change::Prune {
        project: "acme".to_string(),
        live: Vec::new(),
    };
    assert_eq!(count_pruned(2, &prune, 3), Some(5));
    assert_eq!(count_pruned(2, &Change::Clear, 3), Some(2));
    assert_eq!(count_pruned(usize::MAX, &prune, 1), None);
}

#[test]
fn a_pass_counts_the_orphans_of_registered_projects() {
    let conn = opened();
    let before = vec![
        Some(project("acme", "01R", &[("01A", "a"), ("01B", "b"), ("01C", "c")])),
        Some(project("globex", "09R", &[("09A", "a")])),
        Some(project("gone", "05R", &[("05A", "a")])),
    ];
    apply(&conn, &materialize_all(&before).unwrap().changes);
    let after = vec![
        Some(project("acme", "01R", &[("01C", "c"), ("01D", "d")])),
        Some(project("globex", "09R", &[])),
    ];
    // 01A, 01B and 09A are no longer in their source; 05R and 05A are of a
    // project that is not registered any more.
    assert_eq!(apply(&conn, &materialize_all(&after).unwrap().changes), 3);
}

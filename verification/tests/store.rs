use rusqlite::{params_from_iter, Connection};

use sham::store::{
    db_path, delete_all, insert_node, open_db, prune_project, repeat_vars, select_rows,
    upsert_node, Statement, SCHEMA, SCHEMA_VERSION,
};

/// Brings a connection to the current schema.
fn open(conn: &Connection) {
    let version: i64 = conn
        .pragma_query_value(None, "user_version", |row| row.get(0))
        .unwrap();
    for batch in open_db(version) {
        conn.execute_batch(&batch.sql).expect(batch.on_failure);
    }
}

fn execute(conn: &Connection, statement: &Statement) -> usize {
    conn.execute(&statement.sql, params_from_iter(statement.params.iter()))
        .unwrap()
}

fn count(conn: &Connection) -> i64 {
    conn.query_row("SELECT count(*) FROM nodes", [], |r| r.get::<_, i64>(0))
        .unwrap()
}

#[test]
fn insert_idea_and_leaf_round_trip_and_handle_schema_drift() {
    let conn = Connection::open_in_memory().unwrap();
    open(&conn);
    execute(
        &conn,
        &insert_node("acme", "01A", "billing", "chose Stripe", None),
    );
    execute(
        &conn,
        &insert_node("acme", "01B", "", "idempotent webhooks", Some("01A")),
    );
    assert_eq!(count(&conn), 2);
    // Provenance is recorded per node.
    let proj: String = conn
        .query_row("SELECT project FROM nodes WHERE id = '01B'", [], |r| {
            r.get(0)
        })
        .unwrap();
    assert_eq!(proj, "acme");

    // Opening again without drift keeps the rows.
    open(&conn);
    assert_eq!(count(&conn), 2);

    // Simulate a schema bump: corrupt user_version, reopen resets cleanly.
    conn.execute_batch("PRAGMA user_version = 999;").unwrap();
    open(&conn);
    assert_eq!(count(&conn), 0, "schema drift resets the table");
    let version: i64 = conn
        .pragma_query_value(None, "user_version", |row| row.get(0))
        .unwrap();
    assert_eq!(version, SCHEMA_VERSION);
}

#[test]
fn reconcile_primitives_upsert_gc_and_full_wipe() {
    let conn = Connection::open_in_memory().unwrap();
    open(&conn);
    // Seed two projects, as if `add` had populated them earlier.
    execute(
        &conn,
        &insert_node("acme", "01A", "billing", "chose Stripe", None),
    );
    execute(
        &conn,
        &insert_node("acme", "01B", "", "idempotent webhooks", Some("01A")),
    );
    execute(
        &conn,
        &insert_node("globex", "09A", "billing", "chose Adyen", None),
    );

    // Reconcile "acme": upsert its current live nodes, then GC rows whose
    // id is no longer reachable in the source (01B was removed from YAML).
    execute(
        &conn,
        &upsert_node("acme", "01A", "billing", "chose Stripe", None),
    );
    let live: Vec<String> = vec!["01A".into()];
    let pruned = execute(&conn, &prune_project("acme", &live));
    assert_eq!(pruned, 1, "unreachable 01B is pruned");

    // GC is per-project: globex's 09A survives, acme's 01A survives.
    assert_eq!(count(&conn), 2, "01A (acme) + 09A (globex) remain");

    // `build` wipes the whole cache before re-materializing.
    execute(&conn, &delete_all());
    assert_eq!(count(&conn), 0, "build wipes the cache first");
}

#[test]
fn pruning_to_an_empty_live_set_forgets_the_project() {
    let conn = Connection::open_in_memory().unwrap();
    open(&conn);
    execute(&conn, &insert_node("acme", "01A", "a", "x", None));
    execute(&conn, &insert_node("acme", "01B", "b", "y", Some("01A")));
    execute(&conn, &insert_node("globex", "09A", "a", "z", None));
    assert_eq!(execute(&conn, &prune_project("acme", &Vec::new())), 2);
    assert_eq!(count(&conn), 1);
}

#[test]
fn upserting_replaces_the_row_with_the_id() {
    let conn = Connection::open_in_memory().unwrap();
    open(&conn);
    execute(&conn, &upsert_node("acme", "01A", "old", "x", None));
    execute(&conn, &upsert_node("acme", "01A", "new", "y", Some("01R")));
    assert_eq!(count(&conn), 1);
    let row: (String, String, Option<String>) = conn
        .query_row("SELECT label, content, parent FROM nodes", [], |r| {
            Ok((r.get(0)?, r.get(1)?, r.get(2)?))
        })
        .unwrap();
    assert_eq!(
        row,
        ("new".to_string(), "y".to_string(), Some("01R".to_string()))
    );
}

#[test]
fn inserting_a_taken_id_fails_and_leaves_the_row() {
    let conn = Connection::open_in_memory().unwrap();
    open(&conn);
    execute(&conn, &insert_node("acme", "01A", "a", "x", None));
    // Ids are unique over all projects.
    for project in ["acme", "globex"] {
        let statement = insert_node(project, "01A", "b", "y", None);
        assert!(conn
            .execute(&statement.sql, params_from_iter(statement.params.iter()))
            .is_err());
    }
    let row: (String, String) = conn
        .query_row("SELECT project, content FROM nodes", [], |r| {
            Ok((r.get(0)?, r.get(1)?))
        })
        .unwrap();
    assert_eq!(row, ("acme".to_string(), "x".to_string()));
}

#[test]
fn values_never_become_part_of_a_statement() {
    let conn = Connection::open_in_memory().unwrap();
    open(&conn);
    let odd = "it's a \"quoted\" ?, with %s";
    execute(&conn, &insert_node(odd, odd, odd, odd, Some(odd)));
    assert_eq!(count(&conn), 1);
    assert_eq!(execute(&conn, &prune_project(odd, &vec![odd.to_string()])), 0);
    assert_eq!(count(&conn), 1);
}

#[test]
fn placeholders_are_comma_joined() {
    assert_eq!(repeat_vars(0), "");
    assert_eq!(repeat_vars(1), "?");
    assert_eq!(repeat_vars(3), "?,?,?");
}

#[test]
fn statements_have_a_value_per_placeholder() {
    let live: Vec<String> = vec!["01A".into(), "01B".into()];
    let statements = vec![
        insert_node("p", "i", "l", "c", None),
        upsert_node("p", "i", "l", "c", Some("q")),
        prune_project("p", &live),
        prune_project("p", &Vec::new()),
        delete_all(),
        select_rows("p"),
    ];
    for statement in statements {
        assert_eq!(statement.sql.matches('?').count(), statement.params.len());
    }
}

#[test]
fn statements_read_as_written() {
    let statement = insert_node("p", "i", "l", "c", None);
    assert_eq!(
        statement.sql,
        "INSERT INTO nodes (id, project, label, content, parent) VALUES (?, ?, ?, ?, ?)"
    );
    assert_eq!(
        statement.params,
        vec![
            Some("i".to_string()),
            Some("p".to_string()),
            Some("l".to_string()),
            Some("c".to_string()),
            None
        ]
    );
    let statement = prune_project("p", &vec!["a".to_string(), "b".to_string()]);
    assert_eq!(
        statement.sql,
        "DELETE FROM nodes WHERE project = ? AND id NOT IN (?,?)"
    );
    assert_eq!(
        statement.params,
        vec![
            Some("p".to_string()),
            Some("a".to_string()),
            Some("b".to_string())
        ]
    );
    assert_eq!(delete_all().sql, "DELETE FROM nodes;");
    assert!(delete_all().params.is_empty());
}

#[test]
fn opening_resets_on_drift_alone() {
    let texts = |version: i64| -> Vec<String> {
        open_db(version).into_iter().map(|b| b.sql).collect()
    };
    assert_eq!(texts(2), vec![SCHEMA, "PRAGMA journal_mode=WAL;"]);
    let reset = vec![
        "DROP TABLE IF EXISTS nodes;",
        SCHEMA,
        "PRAGMA user_version = 2",
        "PRAGMA journal_mode=WAL;",
    ];
    assert_eq!(texts(0), reset);
    assert_eq!(texts(-1), reset);
    assert_eq!(texts(3), reset);
    let failures: Vec<&str> = open_db(0).into_iter().map(|b| b.on_failure).collect();
    assert_eq!(
        failures,
        vec![
            "schema drift: could not reset nodes",
            "could not init schema",
            "could not stamp schema version",
            "could not set WAL mode",
        ]
    );
}

#[test]
fn the_cache_is_where_the_override_says_or_below_the_cache_dir() {
    let at = db_path(Some("/x/my.db"), None);
    assert_eq!(at.base, "/x/my.db");
    assert!(at.below.is_empty());
    let at = db_path(None, Some("/home/u/.cache"));
    assert_eq!(at.base, "/home/u/.cache");
    assert_eq!(at.below, vec!["sham", "sham.db"]);
}

#[test]
fn a_listing_holds_one_projects_rows_in_id_order() {
    let conn = Connection::open_in_memory().unwrap();
    open(&conn);
    execute(&conn, &insert_node("acme", "02B", "billing", "second", Some("01A")));
    execute(&conn, &insert_node("globex", "015", "billing", "other", None));
    execute(&conn, &insert_node("acme", "01A", "root", "first", None));
    let statement = select_rows("acme");
    let mut prepared = conn.prepare(&statement.sql).unwrap();
    let rows = prepared
        .query_map(params_from_iter(statement.params.iter()), |r| {
            Ok((r.get(0)?, r.get(1)?, r.get(4)?))
        })
        .unwrap();
    let listed: Vec<(String, String, Option<String>)> = rows.map(|r| r.unwrap()).collect();
    assert_eq!(
        listed,
        vec![
            ("01A".to_string(), "acme".to_string(), None),
            ("02B".to_string(), "acme".to_string(), Some("01A".to_string())),
        ]
    );
}

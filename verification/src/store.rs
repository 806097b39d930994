//! The disposable SQL cache.
//!
//! The cache is a derived artefact: every row stands for a source node, and a
//! pass over the sources rebuilds it. This module writes the statements.

use vstd::prelude::*;

use crate::project::{names_of, Place};
use crate::source::text_of;
use crate::text::{decimal, to_decimal};

verus! {

/// Schema version of the cache; the stamp written on a fresh schema and the
/// check for drift both come from this constant.
pub const SCHEMA_VERSION: i64 = 2;

/// The cache's tables and indexes.
pub const SCHEMA: &'static str = "
CREATE TABLE IF NOT EXISTS nodes (
    id      TEXT PRIMARY KEY,   -- ULID: stable, sortable (timestamp-prefixed)
    project TEXT NOT NULL,      -- owning project (structural provenance)
    label   TEXT NOT NULL,      -- short heading
    content TEXT NOT NULL DEFAULT '',
    parent  TEXT                -- parent id; the project root node's is NULL
);
CREATE INDEX IF NOT EXISTS idx_nodes_project ON nodes(project);
CREATE INDEX IF NOT EXISTS idx_nodes_label ON nodes(label);
";

/// A cached node.
#[derive(Debug, PartialEq)]
pub struct Row {
    pub id: String,
    pub project: String,
    pub label: String,
    pub content: String,
    pub parent: Option<String>,
}

/// What a [`Row`] holds.
pub struct RowView {
    pub id: Seq<char>,
    pub project: Seq<char>,
    pub label: Seq<char>,
    pub content: Seq<char>,
    pub parent: Option<Seq<char>>,
}

impl View for Row {
    type V = RowView;

    open spec fn view(&self) -> RowView {
        RowView {
            id: self.id@,
            project: self.project@,
            label: self.label@,
            content: self.content@,
            parent: text_of(self.parent),
        }
    }
}

/// An SQL statement and the values of its `?` placeholders, in order.
#[derive(Debug, PartialEq)]
pub struct Statement {
    pub sql: String,
    pub params: Vec<Option<String>>,
}

/// What a [`Statement`] holds.
pub struct StatementView {
    pub sql: Seq<char>,
    pub params: Seq<Option<Seq<char>>>,
}

/// The texts of a list of optional strings.
pub open spec fn texts_of(params: Seq<Option<String>>) -> Seq<Option<Seq<char>>> {
    Seq::new(params.len(), |i: int| text_of(params[i]))
}

impl View for Statement {
    type V = StatementView;

    open spec fn view(&self) -> StatementView {
        StatementView { sql: self.sql@, params: texts_of(self.params@) }
    }
}

/// The text of an optional string slice.
pub open spec fn str_of(text: Option<&str>) -> Option<Seq<char>> {
    match text {
        Some(t) => Some(t@),
        None => None,
    }
}

/// The texts of a list of strings.
pub open spec fn strings_of(strings: Seq<String>) -> Seq<Seq<char>> {
    Seq::new(strings.len(), |i: int| strings[i]@)
}

/// The `count` comma-joined placeholders of an `IN` list.
pub open spec fn placeholders(count: nat) -> Seq<char>
    decreases count,
{
    if count == 0 {
        Seq::empty()
    } else if count == 1 {
        "?"@
    } else {
        placeholders((count - 1) as nat) + ",?"@
    }
}

/// The statement that adds a row.
pub open spec fn insert_statement(row: RowView) -> StatementView {
    StatementView {
        sql: "INSERT INTO nodes (id, project, label, content, parent) VALUES (?, ?, ?, ?, ?)"@,
        params: row_params(row),
    }
}

/// The statement that adds a row or replaces the one with its id.
pub open spec fn upsert_statement(row: RowView) -> StatementView {
    StatementView {
        sql:
            "INSERT OR REPLACE INTO nodes (id, project, label, content, parent) VALUES (?, ?, ?, ?, ?)"@,
        params: row_params(row),
    }
}

/// A row's columns, in the order of both insertions.
pub open spec fn row_params(row: RowView) -> Seq<Option<Seq<char>>> {
    seq![Some(row.id), Some(row.project), Some(row.label), Some(row.content), row.parent]
}

/// The statement that removes a project's rows other than the live ones.
pub open spec fn prune_statement(project: Seq<char>, live: Seq<Seq<char>>) -> StatementView {
    StatementView {
        sql: "DELETE FROM nodes WHERE project = ? AND id NOT IN ("@ + placeholders(live.len())
            + ")"@,
        params: seq![Some(project)] + Seq::new(live.len(), |i: int| Some(live[i])),
    }
}

/// The statement that removes every row.
pub open spec fn clear_statement() -> StatementView {
    StatementView { sql: "DELETE FROM nodes;"@, params: Seq::empty() }
}

fn owned(text: Option<&str>) -> (copy: Option<String>)
    ensures
        text_of(copy) == str_of(text),
{
    match text {
        Some(t) => Some(t.to_owned()),
        None => None,
    }
}

fn five_params(
    id: &str,
    project: &str,
    label: &str,
    content: &str,
    parent: Option<&str>,
) -> (params: Vec<Option<String>>)
    ensures
        texts_of(params@) == seq![
            Some(id@),
            Some(project@),
            Some(label@),
            Some(content@),
            str_of(parent),
        ],
        params@.len() == 5,
        params@[0] is Some && params@[0]->Some_0@ == id@,
        params@[1] is Some && params@[1]->Some_0@ == project@,
        params@[2] is Some && params@[2]->Some_0@ == label@,
        params@[3] is Some && params@[3]->Some_0@ == content@,
        match parent {
            Some(p) => params@[4] is Some && params@[4]->Some_0@ == p@,
            None => params@[4] is None,
        },
{
    let mut params: Vec<Option<String>> = Vec::new();
    params.push(Some(id.to_owned()));
    params.push(Some(project.to_owned()));
    params.push(Some(label.to_owned()));
    params.push(Some(content.to_owned()));
    params.push(owned(parent));
    assert(texts_of(params@) =~= seq![
        Some(id@),
        Some(project@),
        Some(label@),
        Some(content@),
        str_of(parent),
    ]);
    params
}

/// The insertion of one node, with its owning project. Only a project's root
/// node has no parent.
pub fn insert_node(
    project: &str,
    id: &str,
    label: &str,
    content: &str,
    parent: Option<&str>,
) -> (statement: Statement)
    ensures
        statement@ == insert_statement(
            RowView {
                id: id@,
                project: project@,
                label: label@,
                content: content@,
                parent: str_of(parent),
            },
        ),
        statement.sql@ == "INSERT INTO nodes (id, project, label, content, parent) VALUES (?, ?, ?, ?, ?)"@,
        statement.params@.len() == 5,
        statement.params@[0] is Some && statement.params@[0]->Some_0@ == id@,
        statement.params@[1] is Some && statement.params@[1]->Some_0@ == project@,
        statement.params@[2] is Some && statement.params@[2]->Some_0@ == label@,
        statement.params@[3] is Some && statement.params@[3]->Some_0@ == content@,
        match parent {
            Some(p) => statement.params@[4] is Some && statement.params@[4]->Some_0@ == p@,
            None => statement.params@[4] is None,
        },
{
    Statement {
        sql:
            "INSERT INTO nodes (id, project, label, content, parent) VALUES (?, ?, ?, ?, ?)".to_owned(),
        params: five_params(id, project, label, content, parent),
    }
}

/// The insertion or replacement of a node, keyed by its stable id.
pub fn upsert_node(
    project: &str,
    id: &str,
    label: &str,
    content: &str,
    parent: Option<&str>,
) -> (statement: Statement)
    ensures
        statement@ == upsert_statement(
            RowView {
                id: id@,
                project: project@,
                label: label@,
                content: content@,
                parent: str_of(parent),
            },
        ),
        statement.sql@ == "INSERT OR REPLACE INTO nodes (id, project, label, content, parent) VALUES (?, ?, ?, ?, ?)"@,
        statement.params@.len() == 5,
        statement.params@[0] is Some && statement.params@[0]->Some_0@ == id@,
        statement.params@[1] is Some && statement.params@[1]->Some_0@ == project@,
        statement.params@[2] is Some && statement.params@[2]->Some_0@ == label@,
        statement.params@[3] is Some && statement.params@[3]->Some_0@ == content@,
        match parent {
            Some(p) => statement.params@[4] is Some && statement.params@[4]->Some_0@ == p@,
            None => statement.params@[4] is None,
        },
{
    Statement {
        sql:
            "INSERT OR REPLACE INTO nodes (id, project, label, content, parent) VALUES (?, ?, ?, ?, ?)".to_owned(),
        params: five_params(id, project, label, content, parent),
    }
}

/// Comma-joined `?` placeholders for an `IN` list.
pub fn repeat_vars(count: usize) -> (text: String)
    ensures
        text@ == placeholders(count as nat),
{
    let mut text = String::new();
    let mut i: usize = 0;
    while i < count
        invariant
            i <= count,
            text@ == placeholders(i as nat),
        decreases count - i,
    {
        if i == 0 {
            text.append("?");
            assert(text@ =~= "?"@);
        } else {
            text.append(",?");
        }
        i = i + 1;
    }
    text
}

/// The removal of a project's rows whose id is no longer among the source's:
/// what stays of the project is the live set alone.
pub fn prune_project(project: &str, live_ids: &Vec<String>) -> (statement: Statement)
    ensures
        statement@ == prune_statement(project@, strings_of(live_ids@)),
        statement.sql@ == "DELETE FROM nodes WHERE project = ? AND id NOT IN ("@ + placeholders(
            live_ids@.len(),
        ) + ")"@,
        statement.params@.len() == live_ids@.len() + 1,
        statement.params@[0] is Some && statement.params@[0]->Some_0@ == project@,
        forall|i: int|
            0 <= i < live_ids@.len() ==> (#[trigger] statement.params@[i + 1]) is Some
                && statement.params@[i + 1]->Some_0@ == live_ids@[i]@,
{
    let ghost live = strings_of(live_ids@);
    let mut sql = "DELETE FROM nodes WHERE project = ? AND id NOT IN (".to_owned();
    let vars: String = repeat_vars(live_ids.len());
    sql.append(vars.as_str());
    sql.append(")");
    let mut params: Vec<Option<String>> = Vec::new();
    params.push(Some(project.to_owned()));
    let mut i: usize = 0;
    while i < live_ids.len()
        invariant
            i <= live_ids@.len(),
            live == strings_of(live_ids@),
            texts_of(params@) == seq![Some(project@)] + Seq::new(i as nat, |k: int| Some(live[k])),
            params@.len() == i + 1,
            params@[0] is Some && params@[0]->Some_0@ == project@,
            forall|k: int|
                1 <= k <= i ==> (#[trigger] params@[k]) is Some && params@[k]->Some_0@
                    == live_ids@[k - 1]@,
        decreases live_ids@.len() - i,
    {
        let ghost before = params@;
        params.push(Some(live_ids[i].clone()));
        assert(texts_of(params@) =~= texts_of(before).push(Some(live[i as int])));
        i = i + 1;
    }
    Statement { sql, params }
}

/// The removal of every row; the schema and its version stay.
pub fn delete_all() -> (statement: Statement)
    ensures
        statement@ == clear_statement(),
        statement.sql@ == "DELETE FROM nodes;"@,
        statement.params@.len() == 0,
{
    let statement = Statement { sql: "DELETE FROM nodes;".to_owned(), params: Vec::new() };
    assert(statement@.params =~= Seq::empty());
    statement
}

/// The statement that stamps the schema version.
pub open spec fn stamp_text() -> Seq<char> {
    "PRAGMA user_version = "@ + decimal(SCHEMA_VERSION as nat)
}

proof fn stamp_reads()
    ensures
        stamp_text() == "PRAGMA user_version = 2"@,
{
    reveal_strlit("PRAGMA user_version = ");
    reveal_strlit("PRAGMA user_version = 2");
    assert(stamp_text() =~= "PRAGMA user_version = 2"@);
}

/// A batch of statements, and what to say where it fails.
#[derive(Debug, PartialEq)]
pub struct Batch {
    pub sql: String,
    pub on_failure: &'static str,
}

/// What a [`Batch`] holds.
pub struct BatchView {
    pub sql: Seq<char>,
    pub on_failure: Seq<char>,
}

impl View for Batch {
    type V = BatchView;

    open spec fn view(&self) -> BatchView {
        BatchView { sql: self.sql@, on_failure: self.on_failure@ }
    }
}

/// The batches' contents, in order.
pub open spec fn batch_views(batches: Seq<Batch>) -> Seq<BatchView> {
    Seq::new(batches.len(), |i: int| batches[i]@)
}

/// A step of opening a cache.
pub enum OpeningStep {
    /// Drops the table.
    Reset,
    /// Sets up the table where it is missing.
    Schema,
    /// Stamps the current version.
    Stamp,
    /// Turns write-ahead logging on.
    Logging,
}

/// The batch that makes the step.
pub open spec fn batch_of(step: OpeningStep) -> BatchView {
    match step {
        OpeningStep::Reset => BatchView {
            sql: "DROP TABLE IF EXISTS nodes;"@,
            on_failure: "schema drift: could not reset nodes"@,
        },
        OpeningStep::Schema => BatchView { sql: SCHEMA@, on_failure: "could not init schema"@ },
        OpeningStep::Stamp => BatchView {
            sql: stamp_text(),
            on_failure: "could not stamp schema version"@,
        },
        OpeningStep::Logging => BatchView {
            sql: "PRAGMA journal_mode=WAL;"@,
            on_failure: "could not set WAL mode"@,
        },
    }
}

/// The steps that open a cache stamped with `version`: on any drift the table
/// is dropped and the schema set up and stamped anew, else the schema is set up
/// where it is missing; write-ahead logging comes last.
pub open spec fn opening_steps(version: i64) -> Seq<OpeningStep> {
    if version != SCHEMA_VERSION {
        seq![OpeningStep::Reset, OpeningStep::Schema, OpeningStep::Stamp, OpeningStep::Logging]
    } else {
        seq![OpeningStep::Schema, OpeningStep::Logging]
    }
}

/// The batches that open a cache stamped with `version`.
pub open spec fn opening_batches(version: i64) -> Seq<BatchView> {
    Seq::new(opening_steps(version).len(), |i: int| batch_of(opening_steps(version)[i]))
}

/// The batches to execute on a cache just opened, given the version it is
/// stamped with.
pub fn open_db(version: i64) -> (batches: Vec<Batch>)
    ensures
        batch_views(batches@) == opening_batches(version),
        version != SCHEMA_VERSION ==> {
            &&& batches@.len() == 4
            &&& batches@[0].sql@ == "DROP TABLE IF EXISTS nodes;"@
            &&& batches@[1].sql@ == SCHEMA@
            &&& batches@[2].sql@ == "PRAGMA user_version = 2"@
            &&& batches@[3].sql@ == "PRAGMA journal_mode=WAL;"@
        },
        version == SCHEMA_VERSION ==> {
            &&& batches@.len() == 2
            &&& batches@[0].sql@ == SCHEMA@
            &&& batches@[1].sql@ == "PRAGMA journal_mode=WAL;"@
        },
{
    let mut batches: Vec<Batch> = Vec::new();
    if version != SCHEMA_VERSION {
        batches.push(
            Batch {
                sql: "DROP TABLE IF EXISTS nodes;".to_owned(),
                on_failure: "schema drift: could not reset nodes",
            },
        );
    }
    batches.push(Batch { sql: SCHEMA.to_owned(), on_failure: "could not init schema" });
    if version != SCHEMA_VERSION {
        let mut stamp: String = "PRAGMA user_version = ".to_owned();
        let number: String = to_decimal(SCHEMA_VERSION as u64);
        stamp.append(number.as_str());
        batches.push(Batch { sql: stamp, on_failure: "could not stamp schema version" });
    }
    batches.push(
        Batch {
            sql: "PRAGMA journal_mode=WAL;".to_owned(),
            on_failure: "could not set WAL mode",
        },
    );
    assert(batch_views(batches@) =~= opening_batches(version));
    proof {
        stamp_reads();
    }
    batches
}

/// Where the cache is: at the overriding path, else at `sham/sham.db` below the
/// user's cache directory.
pub fn db_path<P>(overriding: Option<P>, cache_dir: Option<P>) -> (place: Place<P>)
    requires
        overriding is Some || cache_dir is Some,
    ensures
        match overriding {
            Some(path) => place.base == path && place.below@.len() == 0,
            None => {
                &&& cache_dir == Some(place.base)
                &&& names_of(place.below@) == seq!["sham"@, "sham.db"@]
                &&& place.below@.len() == 2
                &&& place.below@[0]@ == "sham"@
                &&& place.below@[1]@ == "sham.db"@
            },
        },
{
    match overriding {
        Some(path) => Place { base: path, below: Vec::new() },
        None => {
            let mut below: Vec<&'static str> = Vec::new();
            below.push("sham");
            below.push("sham.db");
            assert(names_of(below@) =~= seq!["sham"@, "sham.db"@]);
            Place { base: cache_dir.unwrap(), below }
        },
    }
}

/// The statement that lists a project's rows, in the order of their ids.
pub open spec fn rows_statement(project: Seq<char>) -> StatementView {
    StatementView {
        sql:
            "SELECT id, project, label, content, parent FROM nodes WHERE project = ? ORDER BY id"@,
        params: seq![Some(project)],
    }
}

/// The listing of a project's rows, in the order of their ids.
pub fn select_rows(project: &str) -> (statement: Statement)
    ensures
        statement@ == rows_statement(project@),
        statement.sql@ == "SELECT id, project, label, content, parent FROM nodes WHERE project = ? ORDER BY id"@,
        statement.params@.len() == 1,
        statement.params@[0] is Some && statement.params@[0]->Some_0@ == project@,
{
    let mut params: Vec<Option<String>> = Vec::new();
    params.push(Some(project.to_owned()));
    assert(texts_of(params@) =~= seq![Some(project@)]);
    Statement {
        sql:
            "SELECT id, project, label, content, parent FROM nodes WHERE project = ? ORDER BY id".to_owned(),
        params,
    }
}

/// How many of the first `len` characters are placeholders.
pub open spec fn placeholders_among(sql: Seq<char>, len: nat) -> nat
    decreases len,
{
    if len == 0 {
        0
    } else {
        placeholders_among(sql, (len - 1) as nat) + if sql[len - 1] == '?' {
            1nat
        } else {
            0nat
        }
    }
}

/// How many placeholders a text has.
pub open spec fn placeholder_count(sql: Seq<char>) -> nat {
    placeholders_among(sql, sql.len())
}

/// The statement has as many values as placeholders.
pub open spec fn is_complete(statement: StatementView) -> bool {
    placeholder_count(statement.sql) == statement.params.len()
}

proof fn placeholders_of_prefix(a: Seq<char>, b: Seq<char>, len: nat)
    requires
        len <= a.len(),
    ensures
        placeholders_among(a + b, len) == placeholders_among(a, len),
    decreases len,
{
    if len > 0 {
        placeholders_of_prefix(a, b, (len - 1) as nat);
    }
}

proof fn placeholders_past_prefix(a: Seq<char>, b: Seq<char>, len: nat)
    requires
        len <= b.len(),
    ensures
        placeholders_among(a + b, a.len() + len) == placeholder_count(a) + placeholders_among(
            b,
            len,
        ),
    decreases len,
{
    if len == 0 {
        placeholders_of_prefix(a, b, a.len());
    } else {
        placeholders_past_prefix(a, b, (len - 1) as nat);
        assert((a + b)[a.len() + len - 1] == b[len - 1]);
    }
}

proof fn placeholder_count_concat(a: Seq<char>, b: Seq<char>)
    ensures
        placeholder_count(a + b) == placeholder_count(a) + placeholder_count(b),
{
    placeholders_past_prefix(a, b, b.len());
}

/// An `IN` list of `count` items has `count` placeholders.
pub proof fn in_list_has_its_placeholders(count: nat)
    ensures
        placeholder_count(placeholders(count)) == count,
    decreases count,
{
    reveal_strlit("?");
    reveal_strlit(",?");
    reveal_with_fuel(placeholders_among, 3);
    assert(placeholder_count("?"@) == 1);
    assert(placeholder_count(",?"@) == 1);
    if count > 1 {
        in_list_has_its_placeholders((count - 1) as nat);
        placeholder_count_concat(placeholders((count - 1) as nat), ",?"@);
    }
}

proof fn insert_text_placeholders()
    ensures
        placeholder_count("INSERT INTO nodes (id, project, label, content, parent) VALUES (?, ?, ?, ?, ?)"@) == 5,
{
    let text = "INSERT INTO nodes (id, project, label, content, parent) VALUES (?, ?, ?, ?, ?)";
    reveal_strlit("INSERT INTO nodes (id, project, label, content, parent) VALUES (?, ?, ?, ?, ?)");
    reveal_with_fuel(placeholders_among, 79);
    assert(placeholders_among(text@, 78) == 5);
}

proof fn upsert_text_placeholders()
    ensures
        placeholder_count("INSERT OR REPLACE INTO nodes (id, project, label, content, parent) VALUES (?, ?, ?, ?, ?)"@) == 5,
{
    let text = "INSERT OR REPLACE INTO nodes (id, project, label, content, parent) VALUES (?, ?, ?, ?, ?)";
    reveal_strlit("INSERT OR REPLACE INTO nodes (id, project, label, content, parent) VALUES (?, ?, ?, ?, ?)");
    reveal_with_fuel(placeholders_among, 90);
    assert(placeholders_among(text@, 89) == 5);
}

proof fn prune_text_placeholders()
    ensures
        placeholder_count("DELETE FROM nodes WHERE project = ? AND id NOT IN ("@) == 1,
{
    let text = "DELETE FROM nodes WHERE project = ? AND id NOT IN (";
    reveal_strlit("DELETE FROM nodes WHERE project = ? AND id NOT IN (");
    reveal_with_fuel(placeholders_among, 52);
    assert(placeholders_among(text@, 51) == 1);
}

proof fn clear_text_placeholders()
    ensures
        placeholder_count("DELETE FROM nodes;"@) == 0,
{
    let text = "DELETE FROM nodes;";
    reveal_strlit("DELETE FROM nodes;");
    reveal_with_fuel(placeholders_among, 19);
    assert(placeholders_among(text@, 18) == 0);
}

proof fn rows_text_placeholders()
    ensures
        placeholder_count("SELECT id, project, label, content, parent FROM nodes WHERE project = ? ORDER BY id"@) == 1,
{
    let text = "SELECT id, project, label, content, parent FROM nodes WHERE project = ? ORDER BY id";
    reveal_strlit("SELECT id, project, label, content, parent FROM nodes WHERE project = ? ORDER BY id");
    reveal_with_fuel(placeholders_among, 84);
    assert(placeholders_among(text@, 83) == 1);
}

/// Every statement has as many values as placeholders.
pub proof fn statements_are_complete(
    row: RowView,
    project: Seq<char>,
    live: Seq<Seq<char>>,
)
    ensures
        is_complete(insert_statement(row)),
        is_complete(upsert_statement(row)),
        is_complete(prune_statement(project, live)),
        is_complete(clear_statement()),
        is_complete(rows_statement(project)),
{
    insert_text_placeholders();
    upsert_text_placeholders();
    prune_text_placeholders();
    clear_text_placeholders();
    rows_text_placeholders();
    assert(placeholder_count(")"@) == 0) by {
        reveal_strlit(")");
        reveal_with_fuel(placeholders_among, 2);
    }
    let head = "DELETE FROM nodes WHERE project = ? AND id NOT IN ("@;
    let list = placeholders(live.len());
    in_list_has_its_placeholders(live.len());
    placeholder_count_concat(head, list);
    placeholder_count_concat(head + list, ")"@);
}

/// The insertion binds each column of the row, in the order it names them.
pub proof fn insertion_binds_every_column(row: RowView)
    ensures
        insert_statement(row).sql == "INSERT INTO nodes (id, project, label, content, parent) VALUES (?, ?, ?, ?, ?)"@,
        insert_statement(row).params.len() == 5,
        insert_statement(row).params[0] == Some(row.id),
        insert_statement(row).params[1] == Some(row.project),
        insert_statement(row).params[2] == Some(row.label),
        insert_statement(row).params[3] == Some(row.content),
        insert_statement(row).params[4] == row.parent,
{
}

/// The replacement binds each column of the row, in the order it names them.
pub proof fn replacement_binds_every_column(row: RowView)
    ensures
        upsert_statement(row).sql == "INSERT OR REPLACE INTO nodes (id, project, label, content, parent) VALUES (?, ?, ?, ?, ?)"@,
        upsert_statement(row).params.len() == 5,
        upsert_statement(row).params[0] == Some(row.id),
        upsert_statement(row).params[1] == Some(row.project),
        upsert_statement(row).params[2] == Some(row.label),
        upsert_statement(row).params[3] == Some(row.content),
        upsert_statement(row).params[4] == row.parent,
{
}

/// Two rows with the same insertion, or the same replacement, are the same row.
pub proof fn insertions_tell_rows_apart(a: RowView, b: RowView)
    requires
        insert_statement(a) == insert_statement(b) || upsert_statement(a) == upsert_statement(b),
    ensures
        a == b,
{
    insertion_binds_every_column(a);
    insertion_binds_every_column(b);
    replacement_binds_every_column(a);
    replacement_binds_every_column(b);
}

/// The placeholders of an `IN` list are question marks with a comma between
/// every two.
pub proof fn in_list_is_comma_joined(count: nat, k: int)
    ensures
        placeholders(count).len() == if count == 0 {
            0
        } else {
            2 * count - 1
        },
        0 <= k < placeholders(count).len() ==> placeholders(count)[k] == if k % 2 == 0 {
            '?'
        } else {
            ','
        },
    decreases count,
{
    reveal_strlit("?");
    reveal_strlit(",?");
    if count > 1 {
        in_list_is_comma_joined((count - 1) as nat, k);
    }
}

/// The pruning binds the project and then every live id, each in its place.
pub proof fn pruning_binds_the_project_and_every_live_id(project: Seq<char>, live: Seq<Seq<char>>)
    ensures
        prune_statement(project, live).sql
            == "DELETE FROM nodes WHERE project = ? AND id NOT IN ("@ + placeholders(live.len())
            + ")"@,
        prune_statement(project, live).params.len() == live.len() + 1,
        prune_statement(project, live).params[0] == Some(project),
        forall|i: int|
            0 <= i < live.len() ==> #[trigger] prune_statement(project, live).params[i + 1] == Some(
                live[i],
            ),
{
}

/// The row satisfies `project = ? AND id NOT IN (?, ..)` under the values.
pub open spec fn satisfies_pruning(params: Seq<Option<Seq<char>>>, row: RowView) -> bool {
    &&& params[0] == Some(row.project)
    &&& forall|k: int| 1 <= k < params.len() ==> #[trigger] params[k] != Some(row.id)
}

/// The pruning deletes a row exactly when it is the project's and its id is not
/// live.
pub proof fn pruning_spares_every_live_row(
    project: Seq<char>,
    live: Seq<Seq<char>>,
    row: RowView,
)
    ensures
        satisfies_pruning(prune_statement(project, live).params, row) <==> (row.project == project
            && forall|i: int| 0 <= i < live.len() ==> #[trigger] live[i] != row.id),
{
    let params = prune_statement(project, live).params;
    pruning_binds_the_project_and_every_live_id(project, live);
    if satisfies_pruning(params, row) {
        assert forall|i: int| 0 <= i < live.len() implies #[trigger] live[i] != row.id by {
            assert(params[i + 1] == Some(live[i]));
        }
    }
    if row.project == project && forall|i: int|
        0 <= i < live.len() ==> #[trigger] live[i] != row.id {
        assert forall|k: int| 1 <= k < params.len() implies #[trigger] params[k] != Some(
            row.id,
        ) by {
            assert(params[(k - 1) + 1] == Some(live[k - 1]));
        }
    }
}

/// The clearing takes no value and has no condition.
pub proof fn clearing_is_unconditional()
    ensures
        clear_statement().sql == "DELETE FROM nodes;"@,
        clear_statement().params.len() == 0,
{
}

/// The listing binds its project and nothing else.
pub proof fn listing_binds_its_project(project: Seq<char>)
    ensures
        rows_statement(project).sql
            == "SELECT id, project, label, content, parent FROM nodes WHERE project = ? ORDER BY id"@,
        rows_statement(project).params.len() == 1,
        rows_statement(project).params[0] == Some(project),
{
}

/// Every step of opening is made by its batch, in order. On any drift the table
/// is dropped before the schema is set up and the version stamped; without
/// drift nothing is dropped and nothing stamped.
pub proof fn opening_batches_make_the_steps(version: i64)
    ensures
        opening_batches(version).len() == opening_steps(version).len(),
        forall|i: int|
            0 <= i < opening_steps(version).len() ==> #[trigger] opening_batches(version)[i]
                == batch_of(opening_steps(version)[i]),
        version != 2 ==> {
            &&& opening_batches(version).len() == 4
            &&& opening_batches(version)[0].sql == "DROP TABLE IF EXISTS nodes;"@
            &&& opening_batches(version)[1].sql == SCHEMA@
            &&& opening_batches(version)[2].sql == "PRAGMA user_version = 2"@
            &&& opening_batches(version)[3].sql == "PRAGMA journal_mode=WAL;"@
            &&& opening_batches(version)[0].on_failure == "schema drift: could not reset nodes"@
            &&& opening_batches(version)[1].on_failure == "could not init schema"@
            &&& opening_batches(version)[2].on_failure == "could not stamp schema version"@
            &&& opening_batches(version)[3].on_failure == "could not set WAL mode"@
        },
        version == 2 ==> {
            &&& opening_batches(version).len() == 2
            &&& opening_batches(version)[0].sql == SCHEMA@
            &&& opening_batches(version)[1].sql == "PRAGMA journal_mode=WAL;"@
            &&& opening_batches(version)[0].on_failure == "could not init schema"@
            &&& opening_batches(version)[1].on_failure == "could not set WAL mode"@
        },
{
    stamp_reads();
}

/// The table that the schema sets up.
pub proof fn schema_reads()
    ensures
        SCHEMA_VERSION == 2,
        SCHEMA@ == "
CREATE TABLE IF NOT EXISTS nodes (
    id      TEXT PRIMARY KEY,   -- ULID: stable, sortable (timestamp-prefixed)
    project TEXT NOT NULL,      -- owning project (structural provenance)
    label   TEXT NOT NULL,      -- short heading
    content TEXT NOT NULL DEFAULT '',
    parent  TEXT                -- parent id; the project root node's is NULL
);
CREATE INDEX IF NOT EXISTS idx_nodes_project ON nodes(project);
CREATE INDEX IF NOT EXISTS idx_nodes_label ON nodes(label);
"@,
{
}

/// The view of a row has every field of it.
pub proof fn row_view_is_faithful(row: Row)
    ensures
        row@.id == row.id@,
        row@.project == row.project@,
        row@.label == row.label@,
        row@.content == row.content@,
        match row.parent {
            Some(parent) => row@.parent == Some(parent@),
            None => row@.parent is None,
        },
{
}

/// The view of a statement has its text and every value, in order.
pub proof fn statement_view_is_faithful(statement: Statement, i: int)
    requires
        0 <= i < statement.params@.len(),
    ensures
        statement@.sql == statement.sql@,
        statement@.params.len() == statement.params@.len(),
        match statement.params@[i] {
            Some(value) => statement@.params[i] == Some(value@),
            None => statement@.params[i] is None,
        },
{
}

/// The views of a list of strings and of a list of batches have every item, in
/// order.
pub proof fn list_views_are_faithful(strings: Seq<String>, batches: Seq<Batch>)
    ensures
        strings_of(strings).len() == strings.len(),
        forall|i: int| 0 <= i < strings.len() ==> #[trigger] strings_of(strings)[i] == strings[i]@,
        batch_views(batches).len() == batches.len(),
        forall|i: int|
            0 <= i < batches.len() ==> (#[trigger] batch_views(batches)[i]).sql == batches[i].sql@
                && batch_views(batches)[i].on_failure == batches[i].on_failure@,
{
}

} // verus!

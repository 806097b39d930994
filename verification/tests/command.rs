use std::path::PathBuf;

use sham::cache::Change;
use sham::command::{
    add, add_project, add_project_with_root, add_with_id, added_report, build_report,
    export_project, get_query, implied_project, memory_dir_to_add, not_sliced, reconcile_report,
    run, Command, CommandError, Step,
};
use sham::project::{Config, Project};
use sham::query::Query;
use sham::source::{MemoryFile, Node};
use sham::store::Row;
use sham::tree::TreeError;

fn strings(texts: &[&str]) -> Vec<String> {
    texts.iter().map(|t| t.to_string()).collect()
}

#[test]
fn implemented_commands_are_carried_out_as_they_stand() {
    let name = "acme".to_string();
    assert_eq!(
        run(Command::AddProject { name: name.clone() }),
        Ok(Step::AddProject { name: name.clone() })
    );
    assert_eq!(
        run(Command::Add {
            args: strings(&["l", "c"]),
            node_id: None
        }),
        Ok(Step::Add {
            args: strings(&["l", "c"]),
            node_id: None
        })
    );
    assert_eq!(
        run(Command::Get {
            target: Some("l".to_string()),
            node_id: None
        }),
        Ok(Step::Get {
            target: Some("l".to_string()),
            node_id: None
        })
    );
    assert_eq!(run(Command::Reconcile), Ok(Step::Reconcile));
    assert_eq!(run(Command::Build), Ok(Step::Build));
    assert_eq!(
        run(Command::Export {
            project: name.clone()
        }),
        Ok(Step::Export { project: name })
    );
}

#[test]
fn commands_beyond_the_slice_are_named_in_the_refusal() {
    let refused = |command: Command| run(command).unwrap_err().message();
    assert_eq!(
        refused(Command::Search {
            query: "billing".to_string()
        }),
        "`search billing` is not implemented in this slice (see docs/DESIGN.md roadmap)"
    );
    assert_eq!(
        refused(Command::Supersede {
            id: "01A".to_string(),
            text: "new text".to_string()
        }),
        "`supersede 01A new text` is not implemented in this slice (see docs/DESIGN.md roadmap)"
    );
    assert_eq!(
        refused(Command::Rm {
            id: "01A".to_string()
        }),
        "`rm 01A` is not implemented in this slice (see docs/DESIGN.md roadmap)"
    );
    assert_eq!(
        not_sliced("x".to_string()),
        CommandError::NotSliced {
            what: "x".to_string()
        }
    );
}

#[test]
fn a_new_idea_parents_to_the_root() {
    let mut mem = MemoryFile::rooted("acme", "01R");
    let args = strings(&["billing", "chose Stripe"]);
    let added = add_with_id(&mut mem, &args, None, "01A").unwrap();
    let node = Node::new("01A", "billing", "chose Stripe", Some("01R".into()));
    assert_eq!(added.node, node);
    assert_eq!(
        added.change,
        Change::Insert {
            row: Row::of_node("acme", &node)
        }
    );
    assert_eq!(mem.nodes.len(), 2);
    assert_eq!(mem.nodes[1], node);
    assert_eq!(mem.root(), Some("01R".to_string()));
}

#[test]
fn a_rationale_has_no_label_and_parents_to_its_node() {
    let mut mem = MemoryFile::rooted("acme", "01R");
    add_with_id(&mut mem, &strings(&["billing", "x"]), None, "01A").unwrap();
    let added = add_with_id(
        &mut mem,
        &strings(&["idempotent webhooks"]),
        Some("01A".to_string()),
        "01B",
    )
    .unwrap();
    assert_eq!(
        added.node,
        Node::new("01B", "", "idempotent webhooks", Some("01A".into()))
    );
    assert_eq!(mem.check_invariants(), Ok(()));
}

#[test]
fn refused_adds_leave_the_memory_as_it_was() {
    let before = MemoryFile::rooted("acme", "01R");
    let mut mem = before.clone();
    let attach = |mem: &mut MemoryFile, args: &[&str], to: &str| {
        add_with_id(mem, &strings(args), Some(to.to_string()), "01A").unwrap_err()
    };
    assert_eq!(
        attach(&mut mem, &["l", "c"], "01R"),
        CommandError::AttachArity
    );
    // The arguments are looked at before the parent.
    assert_eq!(
        attach(&mut mem, &["l", "c"], "none"),
        CommandError::AttachArity
    );
    assert_eq!(
        attach(&mut mem, &["c"], "none"),
        CommandError::UnknownNode {
            id: "none".to_string()
        }
    );
    assert_eq!(
        add_with_id(&mut mem, &strings(&["c"]), None, "01A").unwrap_err(),
        CommandError::IdeaArity
    );
    // An id is never used twice.
    assert_eq!(
        add_with_id(&mut mem, &strings(&["l", "c"]), None, "01R").unwrap_err(),
        CommandError::Tree {
            error: TreeError::DuplicateId {
                id: "01R".to_string()
            }
        }
    );
    assert_eq!(mem, before);
}

#[test]
fn an_idea_needs_a_root() {
    let mut mem = MemoryFile::new("acme");
    assert_eq!(
        add_with_id(&mut mem, &strings(&["l", "c"]), None, "01A").unwrap_err(),
        CommandError::Tree {
            error: TreeError::NoRoot
        }
    );
    assert!(mem.nodes.is_empty());
}

#[test]
fn every_add_has_an_id_of_its_own() {
    let mut mem = MemoryFile::rooted("acme", "01R");
    let a = add(&mut mem, &strings(&["a", "x"]), None).unwrap();
    let b = add(&mut mem, &strings(&["y"]), Some(a.node.id.clone())).unwrap();
    assert_eq!(a.node.id.len(), 26);
    assert_ne!(a.node.id, b.node.id);
    assert_eq!(b.node.parent, Some(a.node.id));
    assert_eq!(mem.nodes.len(), 3);
    assert_eq!(mem.check_invariants(), Ok(()));
}

#[test]
fn adding_a_project_scaffolds_a_rooted_memory_once() {
    let written = add_project_with_root("acme", "f", &None, "01R").unwrap();
    assert_eq!(written, Some(MemoryFile::rooted("acme", "01R")));
    // Once it is written, adding the project again changes nothing.
    assert_eq!(add_project_with_root("acme", "f", &written, "01S"), Ok(None));
    assert_eq!(add_project("acme", "f", &written), Ok(None));
    let fresh = add_project("acme", "f", &None).unwrap().unwrap();
    assert_eq!(fresh.check_invariants(), Ok(()));
    assert_eq!(fresh.nodes.len(), 1);
    assert_eq!(fresh.nodes[0].id.len(), 26);
}

#[test]
fn an_existing_memory_must_be_the_projects_own_and_a_tree() {
    let other = Some(MemoryFile::rooted("globex", "09R"));
    let error = add_project("acme", "/w/.memory/memory.yaml", &other).unwrap_err();
    assert_eq!(
        error,
        CommandError::OtherProject {
            file: "/w/.memory/memory.yaml".to_string(),
            project: "globex".to_string()
        }
    );
    assert_eq!(
        error.message(),
        "/w/.memory/memory.yaml already belongs to project 'globex'"
    );
    let rootless = Some(MemoryFile::new("acme"));
    assert_eq!(
        add_project("acme", "f", &rootless),
        Err(CommandError::Tree {
            error: TreeError::NoRoot
        })
    );
}

#[test]
fn an_export_takes_a_registered_project() {
    let config = || Config {
        version: 1,
        projects: vec![Project {
            name: "acme".to_string(),
            path: PathBuf::from("/w/.memory"),
        }],
    };
    let project = export_project(config(), "acme").unwrap();
    assert_eq!(project.path, PathBuf::from("/w/.memory"));
    let error = export_project(config(), "nope").unwrap_err();
    assert_eq!(
        error,
        CommandError::NotRegistered {
            name: "nope".to_string()
        }
    );
    assert_eq!(
        error.message(),
        "no project 'nope' registered — run `sham add-project nope`"
    );
}

#[test]
fn a_get_prefers_the_id_over_the_label() {
    let text = |t: &str| Some(t.to_string());
    assert_eq!(
        get_query(text("l"), text("i")),
        Ok(Query::ById {
            id: "i".to_string()
        })
    );
    assert_eq!(
        get_query(text("l"), None),
        Ok(Query::ByLabel {
            label: "l".to_string()
        })
    );
    assert_eq!(get_query(None, None), Err(CommandError::NoTarget));
}

#[test]
fn a_project_is_added_at_the_nearest_marker_or_here() {
    assert_eq!(memory_dir_to_add(Some("/w/.memory"), "/w/src/.memory"), "/w/.memory");
    assert_eq!(memory_dir_to_add(None, "/w/src/.memory"), "/w/src/.memory");
}

#[test]
fn the_nearest_marker_implies_the_project() {
    assert_eq!(implied_project(Some("/w/.memory")), Ok("/w/.memory"));
    assert_eq!(implied_project::<&str>(None), Err(CommandError::NoProjectHere));
}

#[test]
fn reports_count_what_was_done() {
    assert_eq!(
        added_report("acme", "/w/.memory"),
        "added project 'acme' at /w/.memory"
    );
    assert_eq!(
        reconcile_report(2, 30, 4),
        "reconcile: 2 project(s), 30 node(s) materialized, 4 pruned"
    );
    assert_eq!(
        build_report(0, 12),
        "build: full rebuild from 0 project(s) -> 12 node(s) cached"
    );
}

#[test]
fn refusals_say_what_to_do() {
    assert_eq!(
        CommandError::NoProjectHere.message(),
        "no sham project here — run `sham add-project <name>` first"
    );
    assert_eq!(
        CommandError::AttachArity.message(),
        "sham add: --node-id <id> takes exactly one <content>"
    );
    assert_eq!(
        CommandError::UnknownNode {
            id: "01Z".to_string()
        }
        .message(),
        "sham add: parent node 01Z not found in this project"
    );
    assert_eq!(
        CommandError::IdeaArity.message(),
        "sham add: give <label> <content> (or --node-id <id> <content> to attach)"
    );
    assert_eq!(
        CommandError::NoTarget.message(),
        "sham get: provide a <label> or --node-id <id>"
    );
    assert_eq!(
        CommandError::Tree {
            error: TreeError::NoRoot
        }
        .message(),
        "no root node: every node has a parent"
    );
}

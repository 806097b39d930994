use sham::source::{append_node, MemoryFile, Node};
use sham::tree::{position_of, TreeError};

fn memory(nodes: &[(&str, Option<&str>)]) -> MemoryFile {
    let mut mem = MemoryFile::new("acme");
    for (id, parent) in nodes {
        append_node(&mut mem, Node::new(id, "l", "c", parent.map(String::from)));
    }
    mem
}

#[test]
fn a_fresh_memory_is_a_lone_root() {
    let mem = MemoryFile::rooted("acme", "01R");
    assert_eq!(mem.project, "acme");
    assert_eq!(mem.nodes, vec![Node::new("01R", "acme", "", None)]);
    assert_eq!(mem.root(), Some("01R".to_string()));
    assert_eq!(mem.check_invariants(), Ok(()));
}

#[test]
fn deep_and_wide_trees_pass() {
    let mem = memory(&[
        ("r", None),
        ("a", Some("r")),
        ("b", Some("a")),
        ("c", Some("b")),
        ("d", Some("r")),
    ]);
    assert_eq!(mem.check_invariants(), Ok(()));
}

#[test]
fn a_child_may_stand_before_its_parent() {
    let mem = memory(&[("b", Some("a")), ("a", Some("r")), ("r", None)]);
    assert_eq!(mem.check_invariants(), Ok(()));
    assert_eq!(mem.root(), Some("r".to_string()));
}

#[test]
fn a_repeated_id_is_refused() {
    let mem = memory(&[("r", None), ("a", Some("r")), ("a", Some("r"))]);
    assert_eq!(
        mem.check_invariants(),
        Err(TreeError::DuplicateId { id: "a".to_string() })
    );
}

#[test]
fn a_missing_root_is_refused() {
    assert_eq!(memory(&[]).check_invariants(), Err(TreeError::NoRoot));
    assert_eq!(memory(&[]).root(), None);
    let mem = memory(&[("a", Some("b")), ("b", Some("a"))]);
    assert_eq!(mem.check_invariants(), Err(TreeError::NoRoot));
}

#[test]
fn a_second_root_is_refused() {
    let mem = memory(&[("r", None), ("s", None), ("t", None)]);
    assert_eq!(
        mem.check_invariants(),
        Err(TreeError::SecondRoot { id: "s".to_string() })
    );
}

#[test]
fn an_unknown_parent_is_refused() {
    let mem = memory(&[("r", None), ("a", Some("gone"))]);
    assert_eq!(
        mem.check_invariants(),
        Err(TreeError::UnknownParent {
            id: "a".to_string(),
            parent: "gone".to_string()
        })
    );
}

#[test]
fn a_cycle_beside_the_root_is_refused() {
    let mem = memory(&[("r", None), ("x", Some("r")), ("a", Some("b")), ("b", Some("a"))]);
    assert_eq!(
        mem.check_invariants(),
        Err(TreeError::Detached { id: "a".to_string() })
    );
    let own = memory(&[("r", None), ("a", Some("a"))]);
    assert_eq!(
        own.check_invariants(),
        Err(TreeError::Detached { id: "a".to_string() })
    );
}

#[test]
fn attaching_to_any_node_keeps_the_tree() {
    let mut mem = memory(&[("r", None), ("a", Some("r"))]);
    append_node(&mut mem, Node::new("b", "", "why", Some("a".into())));
    assert_eq!(mem.check_invariants(), Ok(()));
    assert_eq!(mem.root(), Some("r".to_string()));
}

#[test]
fn positions_are_of_the_first_node() {
    let mem = memory(&[("r", None), ("a", Some("r")), ("a", Some("r"))]);
    assert_eq!(position_of(&mem.nodes, &"a".to_string()), Some(1));
    assert_eq!(position_of(&mem.nodes, &"z".to_string()), None);
}

#[test]
fn tree_errors_name_the_node() {
    assert_eq!(
        TreeError::DuplicateId { id: "a".to_string() }.message(),
        "node id a is used twice"
    );
    assert_eq!(
        TreeError::NoRoot.message(),
        "no root node: every node has a parent"
    );
    assert_eq!(
        TreeError::SecondRoot { id: "s".to_string() }.message(),
        "node s has no parent, but is not the root"
    );
    assert_eq!(
        TreeError::UnknownParent {
            id: "a".to_string(),
            parent: "gone".to_string()
        }
        .message(),
        "node a names the unknown parent gone"
    );
    assert_eq!(
        TreeError::Detached { id: "a".to_string() }.message(),
        "node a is cut off from the root"
    );
}

use sham::source::{append_node, content_hash, MemoryFile, Node};

#[test]
fn content_hash_is_stable_and_sensitive_to_every_field() {
    let a = content_hash("billing", "chose Stripe");
    assert_eq!(a, content_hash("billing", "chose Stripe"));
    assert_ne!(a, content_hash("billing", "chose PayPal"));
    assert_ne!(a, content_hash("billingz", "chose Stripe"));
    // Empty label contributes, so two leaves with different text differ.
    assert_ne!(content_hash("", "x"), content_hash("", "y"));
    // Empty content vs a label that would produce the same raw concat differ.
    assert_ne!(content_hash("", "ab"), content_hash("a", "b"));
}

#[test]
fn node_new_sets_hash_from_label_and_content() {
    let n = Node::new("id1", "billing", "chose Stripe", None);
    assert_eq!(n.hash, content_hash("billing", "chose Stripe"));
    let leaf = Node::new("id2", "", "justification", Some("id1".into()));
    assert_eq!(leaf.label, "");
    assert_eq!(leaf.parent.as_deref(), Some("id1"));
}

#[test]
fn appending_keeps_order_and_header() {
    let mut mem = MemoryFile::new("myproj");
    assert_eq!(mem.project, "myproj");
    assert!(mem.nodes.is_empty());
    append_node(&mut mem, Node::new("01A", "billing", "chose Stripe", None));
    append_node(
        &mut mem,
        Node::new("01B", "", "idempotent webhooks", Some("01A".into())),
    );
    assert_eq!(mem.project, "myproj");
    assert_eq!(mem.nodes.len(), 2);
    assert_eq!(mem.nodes[0].id, "01A");
    assert_eq!(mem.nodes[1].id, "01B");
    assert_eq!(mem.nodes[1].parent.as_deref(), Some("01A"));
}

#[test]
fn content_hash_is_sha256_of_label_line_feed_content() {
    assert_eq!(
        content_hash("billing", "chose Stripe"),
        "9a89e6042ad00a151d7e87ed2661983598bed3708d59ec460805cf8e1a8fbdfb"
    );
    assert_eq!(
        content_hash("", ""),
        "01ba4719c80b6fe911b091a7c05124b64eeece964e09c058ef8f9805daca546b"
    );
    // Text is hashed in UTF-8.
    assert_eq!(
        content_hash("naïve", "café ☕"),
        "0e26da180df5c55795e47070e299a0914d7c72aec36f54fddbc473cca1e0427d"
    );
}

#[test]
fn a_line_feed_that_moves_between_label_and_content_keeps_the_hash() {
    assert_eq!(content_hash("a\nb", "c"), content_hash("a", "b\nc"));
    assert_ne!(content_hash("a\n", "b"), content_hash("a", "b"));
}

#[test]
fn moving_a_node_keeps_its_hash() {
    let here = Node::new("01A", "billing", "chose Stripe", Some("01R".into()));
    let there = Node::new("01A", "billing", "chose Stripe", Some("01S".into()));
    assert_eq!(here.hash, there.hash);
    assert_ne!(here, there);
}

#[test]
fn copies_are_equal() {
    let mut mem = MemoryFile::new("p");
    append_node(&mut mem, Node::new("01A", "a", "b", None));
    append_node(&mut mem, Node::new("01B", "", "c", Some("01A".into())));
    let copy = mem.clone();
    assert_eq!(copy, mem);
    assert_eq!(mem.nodes[1].clone(), mem.nodes[1]);
}

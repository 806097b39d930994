//! Decision units: the source-of-truth layer.
//!
//! A memory file is a project header and a flat list of nodes; the tree is
//! expressed by the nodes' `parent` ids. Identity (`id`) and freshness
//! (`hash`) are part of the node itself, which keeps every derived artefact
//! re-derivable.

use sha2::Digest;
use vstd::prelude::*;
use vstd::utf8::encode_utf8;

use crate::text::{hex, hex_is_injective, to_hex};

verus! {

/// One decision unit: an idea node (it has a `label`) or a rationale leaf
/// (`label` empty, `parent` set) attached under an idea.
#[derive(Debug, PartialEq)]
pub struct Node {
    /// Stable id: identity. Survives moves, renames, re-parenting.
    pub id: String,
    /// Hash of the node's own label and content: the freshness signal.
    pub hash: String,
    pub label: String,
    pub content: String,
    /// Id of the parent; only a project's root node has none.
    pub parent: Option<String>,
}

/// A project header plus a flat node list.
#[derive(Debug, PartialEq)]
pub struct MemoryFile {
    pub project: String,
    pub nodes: Vec<Node>,
}

/// What a [`Node`] holds.
pub struct NodeView {
    pub id: Seq<char>,
    pub hash: Seq<char>,
    pub label: Seq<char>,
    pub content: Seq<char>,
    pub parent: Option<Seq<char>>,
}

/// What a [`MemoryFile`] holds.
pub struct MemoryView {
    pub project: Seq<char>,
    pub nodes: Seq<NodeView>,
}

/// The text of an optional string.
pub open spec fn text_of(text: Option<String>) -> Option<Seq<char>> {
    match text {
        Some(t) => Some(t@),
        None => None,
    }
}

/// The nodes' contents, in order.
pub open spec fn node_views(nodes: Seq<Node>) -> Seq<NodeView> {
    Seq::new(nodes.len(), |i: int| nodes[i]@)
}

impl View for Node {
    type V = NodeView;

    open spec fn view(&self) -> NodeView {
        NodeView {
            id: self.id@,
            hash: self.hash@,
            label: self.label@,
            content: self.content@,
            parent: text_of(self.parent),
        }
    }
}

impl View for MemoryFile {
    type V = MemoryView;

    open spec fn view(&self) -> MemoryView {
        MemoryView { project: self.project@, nodes: node_views(self.nodes@) }
    }
}

impl Clone for Node {
    fn clone(&self) -> (copy: Self)
        ensures
            copy == *self,
    {
        Node {
            id: self.id.clone(),
            hash: self.hash.clone(),
            label: self.label.clone(),
            content: self.content.clone(),
            parent: match &self.parent {
                Some(p) => Some(p.clone()),
                None => None,
            },
        }
    }
}

impl Clone for MemoryFile {
    fn clone(&self) -> (copy: Self)
        ensures
            copy@ == self@,
            copy.project == self.project,
            copy.nodes@ == self.nodes@,
    {
        let mut nodes: Vec<Node> = Vec::new();
        let mut i: usize = 0;
        while i < self.nodes.len()
            invariant
                i <= self.nodes@.len(),
                nodes@ == self.nodes@.take(i as int),
            decreases self.nodes@.len() - i,
        {
            nodes.push(self.nodes[i].clone());
            i = i + 1;
        }
        assert(nodes@ == self.nodes@);
        MemoryFile { project: self.project.clone(), nodes }
    }
}

/// A node of the memory has the id.
pub open spec fn holds_id(mem: MemoryView, id: Seq<char>) -> bool {
    exists|i: int| 0 <= i < mem.nodes.len() && #[trigger] mem.nodes[i].id == id
}

/// The SHA-256 digest of a byte string.
pub uninterp spec fn sha256(data: Seq<u8>) -> Seq<u8>;

/// Calls `sha2::Sha256::digest`. Claimed of it: the digest depends on the
/// bytes alone, and is 32 bytes long.
#[verifier::external_body]
fn sha256_digest(data: &[u8]) -> (digest: Vec<u8>)
    ensures
        digest@ == sha256(data@),
        digest@.len() == 32,
{
    sha2::Sha256::digest(data).to_vec()
}

/// The bytes that a node's hash covers: its label, a line feed, its content.
pub open spec fn content_message(label: Seq<char>, content: Seq<char>) -> Seq<u8> {
    encode_utf8(label) + seq![10u8] + encode_utf8(content)
}

/// The content hash of a node with this label and content.
pub open spec fn content_digest(label: Seq<char>, content: Seq<char>) -> Seq<char> {
    hex(sha256(content_message(label, content)))
}

impl NodeView {
    /// The hash is that of the node's own label and content.
    pub open spec fn is_fresh(self) -> bool {
        self.hash == content_digest(self.label, self.content)
    }
}

/// The node that [`Node::new`] builds.
pub open spec fn new_node(
    id: Seq<char>,
    label: Seq<char>,
    content: Seq<char>,
    parent: Option<Seq<char>>,
) -> NodeView {
    NodeView { id, hash: content_digest(label, content), label, content, parent }
}

/// SHA-256 of a node's own label and content, in lowercase hexadecimal.
pub fn content_hash(label: &str, content: &str) -> (hash: String)
    ensures
        hash@ == content_digest(label@, content@),
        hash@ == hex(sha256(encode_utf8(label@ + seq!['\n'] + content@))),
        hash@.len() == 64,
{
    proof {
        content_message_decodes(label@, content@);
    }
    let mut message: Vec<u8> = label.as_bytes_vec();
    message.push(10);
    let tail: Vec<u8> = content.as_bytes_vec();
    let mut i: usize = 0;
    while i < tail.len()
        invariant
            i <= tail@.len(),
            message@ == encode_utf8(label@) + seq![10u8] + tail@.take(i as int),
        decreases tail@.len() - i,
    {
        message.push(tail[i]);
        i = i + 1;
    }
    assert(tail@.take(i as int) == tail@);
    to_hex(sha256_digest(message.as_slice()).as_slice())
}

impl Node {
    /// Builds a node from authoring inputs. The hash is computed here, so that
    /// it is generated in one place.
    pub fn new(id: &str, label: &str, content: &str, parent: Option<String>) -> (node: Self)
        ensures
            node@ == new_node(id@, label@, content@, text_of(parent)),
            node.id@ == id@,
            node.label@ == label@,
            node.content@ == content@,
            node.parent == parent,
            node.hash@ == hex(sha256(encode_utf8(label@ + seq!['\n'] + content@))),
            node@.is_fresh(),
    {
        Node {
            id: id.to_owned(),
            hash: content_hash(label, content),
            label: label.to_owned(),
            content: content.to_owned(),
            parent,
        }
    }
}

impl MemoryFile {
    /// A memory file of the project, without nodes.
    pub fn new(project: &str) -> (mem: Self)
        ensures
            mem@ == (MemoryView { project: project@, nodes: Seq::empty() }),
            mem.project@ == project@,
            mem.nodes@.len() == 0,
    {
        let mem = MemoryFile { project: project.to_owned(), nodes: Vec::new() };
        assert(mem@.nodes =~= Seq::empty());
        mem
    }
}

/// Appends a node to a memory file.
pub fn append_node(mem: &mut MemoryFile, node: Node)
    ensures
        final(mem)@ == (MemoryView {
            project: old(mem)@.project,
            nodes: old(mem)@.nodes.push(node@),
        }),
        final(mem).nodes@ == old(mem).nodes@.push(node),
        final(mem).project == old(mem).project,
{
    mem.nodes.push(node);
    assert(mem@.nodes =~= old(mem)@.nodes.push(node@));
}

/// A line feed moves from one label into the other's content: the one way in
/// which two different nodes have the same bytes under their hashes.
pub open spec fn splits_later(
    label1: Seq<char>,
    content1: Seq<char>,
    label2: Seq<char>,
    content2: Seq<char>,
) -> bool {
    exists|middle: Seq<char>|
        {
            &&& label2 == #[trigger] (label1 + seq!['\n'] + middle)
            &&& content1 == middle + seq!['\n'] + content2
        }
}

proof fn encode_utf8_concat(a: Seq<char>, b: Seq<char>)
    ensures
        encode_utf8(a + b) == encode_utf8(a) + encode_utf8(b),
    decreases a.len(),
{
    if a.len() == 0 {
        assert(a + b =~= b);
    } else {
        assert((a + b).drop_first() =~= a.drop_first() + b);
        encode_utf8_concat(a.drop_first(), b);
        assert(encode_utf8(a + b) =~= encode_utf8(a) + encode_utf8(b));
    }
}

proof fn content_message_decodes(label: Seq<char>, content: Seq<char>)
    ensures
        content_message(label, content) == encode_utf8(label + seq!['\n'] + content),
{
    let line_feed = seq!['\n'];
    vstd::utf8::is_ascii_chars_encode_utf8(line_feed);
    assert(line_feed[0] as u8 == 10u8);
    assert(encode_utf8(line_feed) =~= seq![10u8]);
    encode_utf8_concat(label, line_feed);
    encode_utf8_concat(label + line_feed, content);
}

/// The hash is sensitive to every field it covers: unless a line feed moves
/// from a label into a content, two nodes that differ in label or content are
/// hashed from different bytes, and their hashes are equal exactly when the
/// digests of those bytes are.
pub proof fn content_hash_covers_label_and_content(
    label1: Seq<char>,
    content1: Seq<char>,
    label2: Seq<char>,
    content2: Seq<char>,
)
    requires
        !splits_later(label1, content1, label2, content2),
        !splits_later(label2, content2, label1, content1),
    ensures
        content_message(label1, content1) == content_message(label2, content2) <==> (label1
            == label2 && content1 == content2),
        content_digest(label1, content1) == content_digest(label2, content2) <==> sha256(
            content_message(label1, content1),
        ) == sha256(content_message(label2, content2)),
{
    if content_digest(label1, content1) == content_digest(label2, content2) {
        hex_is_injective(
            sha256(content_message(label1, content1)),
            sha256(content_message(label2, content2)),
        );
    }
    if content_message(label1, content1) == content_message(label2, content2) {
        let whole1 = label1 + seq!['\n'] + content1;
        let whole2 = label2 + seq!['\n'] + content2;
        content_message_decodes(label1, content1);
        content_message_decodes(label2, content2);
        vstd::utf8::encode_utf8_decode_utf8(whole1);
        vstd::utf8::encode_utf8_decode_utf8(whole2);
        assert(whole1 == whole2);
        message_split_is_unique(label1, content1, label2, content2);
    }
}

proof fn message_split_is_unique(
    label1: Seq<char>,
    content1: Seq<char>,
    label2: Seq<char>,
    content2: Seq<char>,
)
    requires
        label1 + seq!['\n'] + content1 == label2 + seq!['\n'] + content2,
        !splits_later(label1, content1, label2, content2),
        !splits_later(label2, content2, label1, content1),
    ensures
        label1 == label2,
        content1 == content2,
{
    let whole = label1 + seq!['\n'] + content1;
    let n1 = label1.len() as int;
    let n2 = label2.len() as int;
    assert(whole.take(n1) =~= label1);
    assert(whole.take(n2) =~= label2);
    assert(whole.skip(n1 + 1) =~= content1);
    assert(whole.skip(n2 + 1) =~= content2);
    if n1 < n2 {
        let middle = whole.subrange(n1 + 1, n2);
        assert(label2 =~= label1 + seq!['\n'] + middle);
        assert(content1 =~= middle + seq!['\n'] + content2);
        assert(splits_later(label1, content1, label2, content2));
    }
    if n2 < n1 {
        let middle = whole.subrange(n2 + 1, n1);
        assert(label1 =~= label2 + seq!['\n'] + middle);
        assert(content2 =~= middle + seq!['\n'] + content1);
        assert(splits_later(label2, content2, label1, content1));
    }
}

/// Moving, re-parenting or re-identifying a node leaves its hash as it is: two
/// fresh nodes with the same label and content have the same hash.
pub proof fn moving_keeps_the_hash(a: NodeView, b: NodeView)
    requires
        a.is_fresh(),
        b.is_fresh(),
        a.label == b.label,
        a.content == b.content,
    ensures
        a.hash == b.hash,
{
}

/// The hash covers the label, a line feed and the content, all of them and
/// nothing else.
pub proof fn hash_is_of_label_line_feed_and_content(label: Seq<char>, content: Seq<char>)
    ensures
        content_message(label, content) == encode_utf8(label + seq!['\n'] + content),
        content_digest(label, content) == hex(sha256(encode_utf8(label + seq!['\n'] + content))),
{
    content_message_decodes(label, content);
}

/// A node has the very id, label, content and parent that it is built from, and
/// the hash of that label and content.
pub proof fn node_keeps_what_it_is_built_from(
    id: Seq<char>,
    label: Seq<char>,
    content: Seq<char>,
    parent: Option<Seq<char>>,
)
    ensures
        new_node(id, label, content, parent).id == id,
        new_node(id, label, content, parent).label == label,
        new_node(id, label, content, parent).content == content,
        new_node(id, label, content, parent).parent == parent,
        new_node(id, label, content, parent).hash == hex(
            sha256(encode_utf8(label + seq!['\n'] + content)),
        ),
        new_node(id, label, content, parent).is_fresh(),
{
    content_message_decodes(label, content);
}

/// The view of a node has every field of it.
pub proof fn node_view_is_faithful(node: Node)
    ensures
        node@.id == node.id@,
        node@.hash == node.hash@,
        node@.label == node.label@,
        node@.content == node.content@,
        match node.parent {
            Some(parent) => node@.parent == Some(parent@),
            None => node@.parent is None,
        },
{
}

/// The view of a memory file has its project and every node, in order.
pub proof fn memory_view_is_faithful(mem: MemoryFile)
    ensures
        mem@.project == mem.project@,
        mem@.nodes.len() == mem.nodes@.len(),
        forall|i: int| 0 <= i < mem.nodes@.len() ==> #[trigger] mem@.nodes[i] == mem.nodes@[i]@,
{
}

/// A memory holds an id exactly when one of its nodes has it.
pub proof fn held_ids_are_of_nodes(mem: MemoryView, id: Seq<char>)
    ensures
        holds_id(mem, id) <==> exists|i: int|
            0 <= i < mem.nodes.len() && #[trigger] mem.nodes[i].id == id,
{
}

} // verus!

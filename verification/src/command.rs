//! What each command decides, given what was read for it.

use vstd::prelude::*;

use crate::cache::{apply, row_of, Change, ChangeView, Rows};
use crate::ident::{new_id, ulid_text};
use crate::project::{lookup, lookup_project, Config, Project};
use crate::source::{
    append_node, holds_id, new_node, text_of, MemoryFile, MemoryView, Node, NodeView,
};
use crate::mirror::{added_node_is_found, is_listing};
use crate::query::{fetched, Query, QueryView};
use crate::store::{strings_of, Row, RowView};
use crate::text::{decimal, to_decimal};
use crate::tree::{
    attaching_keeps_the_tree, is_tree, lone_root_is_a_tree, new_memory_is_its_root,
    no_fault_iff_tree, position_of, root_of, rooted_memory, tree_fault, tree_has_one_root, TreeError, TreeFault,
};

verus! {

/// A command line, as parsed.
#[derive(Debug, PartialEq)]
pub enum Command {
    AddProject { name: String },
    Add { args: Vec<String>, node_id: Option<String> },
    Get { target: Option<String>, node_id: Option<String> },
    Search { query: String },
    Supersede { id: String, text: String },
    Rm { id: String },
    Reconcile,
    Build,
    Export { project: String },
}

/// A command that can be carried out.
#[derive(Debug, PartialEq)]
pub enum Step {
    AddProject { name: String },
    Add { args: Vec<String>, node_id: Option<String> },
    Get { target: Option<String>, node_id: Option<String> },
    Reconcile,
    Build,
    Export { project: String },
}

/// Why a command is refused.
#[derive(Debug, PartialEq)]
pub enum CommandError {
    /// The command is not implemented.
    NotSliced { what: String },
    /// The memory file belongs to another project.
    OtherProject { file: String, project: String },
    /// No marker directory was found.
    NoProjectHere,
    /// Attaching takes exactly one content.
    AttachArity,
    /// The node to attach to is not in the project.
    UnknownNode { id: String },
    /// A new idea takes a label and a content.
    IdeaArity,
    /// No project of that name is registered.
    NotRegistered { name: String },
    /// Neither a label nor an id was given.
    NoTarget,
    /// The memory is not a tree.
    Tree { error: TreeError },
}

/// What a [`CommandError`] holds.
pub enum CommandFault {
    NotSliced { what: Seq<char> },
    OtherProject { file: Seq<char>, project: Seq<char> },
    NoProjectHere,
    AttachArity,
    UnknownNode { id: Seq<char> },
    IdeaArity,
    NotRegistered { name: Seq<char> },
    NoTarget,
    Tree { fault: TreeFault },
}

impl View for CommandError {
    type V = CommandFault;

    open spec fn view(&self) -> CommandFault {
        match *self {
            CommandError::NotSliced { what } => CommandFault::NotSliced { what: what@ },
            CommandError::OtherProject { file, project } => CommandFault::OtherProject {
                file: file@,
                project: project@,
            },
            CommandError::NoProjectHere => CommandFault::NoProjectHere,
            CommandError::AttachArity => CommandFault::AttachArity,
            CommandError::UnknownNode { id } => CommandFault::UnknownNode { id: id@ },
            CommandError::IdeaArity => CommandFault::IdeaArity,
            CommandError::NotRegistered { name } => CommandFault::NotRegistered { name: name@ },
            CommandError::NoTarget => CommandFault::NoTarget,
            CommandError::Tree { error } => CommandFault::Tree { fault: error@ },
        }
    }
}

/// The message of a tree fault.
pub open spec fn tree_message(fault: TreeFault) -> Seq<char> {
    match fault {
        TreeFault::DuplicateId { id } => "node id "@ + id + " is used twice"@,
        TreeFault::NoRoot => "no root node: every node has a parent"@,
        TreeFault::SecondRoot { id } => "node "@ + id + " has no parent, but is not the root"@,
        TreeFault::UnknownParent { id, parent } => "node "@ + id + " names the unknown parent "@
            + parent,
        TreeFault::Detached { id } => "node "@ + id + " is cut off from the root"@,
    }
}

/// The message of a refused command.
pub open spec fn message_of(fault: CommandFault) -> Seq<char> {
    match fault {
        CommandFault::NotSliced { what } => "`"@ + what
            + "` is not implemented in this slice (see docs/DESIGN.md roadmap)"@,
        CommandFault::OtherProject { file, project } => file + " already belongs to project '"@
            + project + "'"@,
        CommandFault::NoProjectHere =>
            "no sham project here — run `sham add-project <name>` first"@,
        CommandFault::AttachArity => "sham add: --node-id <id> takes exactly one <content>"@,
        CommandFault::UnknownNode { id } => "sham add: parent node "@ + id
            + " not found in this project"@,
        CommandFault::IdeaArity =>
            "sham add: give <label> <content> (or --node-id <id> <content> to attach)"@,
        CommandFault::NotRegistered { name } => "no project '"@ + name
            + "' registered — run `sham add-project "@ + name + "`"@,
        CommandFault::NoTarget => "sham get: provide a <label> or --node-id <id>"@,
        CommandFault::Tree { fault } => tree_message(fault),
    }
}

/// Three texts, one after the other.
fn joined(first: &str, second: &str, third: &str) -> (text: String)
    ensures
        text@ == first@ + second@ + third@,
{
    let mut text: String = first.to_owned();
    text.append(second);
    text.append(third);
    text
}

impl TreeError {
    /// The message of the error.
    pub fn message(&self) -> (text: String)
        ensures
            text@ == tree_message(self@),
    {
        match self {
            TreeError::DuplicateId { id } => joined("node id ", id.as_str(), " is used twice"),
            TreeError::NoRoot => "no root node: every node has a parent".to_owned(),
            TreeError::SecondRoot { id } => joined(
                "node ",
                id.as_str(),
                " has no parent, but is not the root",
            ),
            TreeError::UnknownParent { id, parent } => {
                let mut text = joined("node ", id.as_str(), " names the unknown parent ");
                text.append(parent.as_str());
                text
            },
            TreeError::Detached { id } => joined("node ", id.as_str(), " is cut off from the root"),
        }
    }
}

impl CommandError {
    /// The message of the error.
    pub fn message(&self) -> (text: String)
        ensures
            text@ == message_of(self@),
    {
        match self {
            CommandError::NotSliced { what } => joined(
                "`",
                what.as_str(),
                "` is not implemented in this slice (see docs/DESIGN.md roadmap)",
            ),
            CommandError::OtherProject { file, project } => {
                let mut text = joined(
                    file.as_str(),
                    " already belongs to project '",
                    project.as_str(),
                );
                text.append("'");
                text
            },
            CommandError::NoProjectHere =>
                "no sham project here — run `sham add-project <name>` first".to_owned(),
            CommandError::AttachArity =>
                "sham add: --node-id <id> takes exactly one <content>".to_owned(),
            CommandError::UnknownNode { id } => joined(
                "sham add: parent node ",
                id.as_str(),
                " not found in this project",
            ),
            CommandError::IdeaArity =>
                "sham add: give <label> <content> (or --node-id <id> <content> to attach)".to_owned(),
            CommandError::NotRegistered { name } => {
                let mut text = joined(
                    "no project '",
                    name.as_str(),
                    "' registered — run `sham add-project ",
                );
                text.append(name.as_str());
                text.append("`");
                text
            },
            CommandError::NoTarget => "sham get: provide a <label> or --node-id <id>".to_owned(),
            CommandError::Tree { error } => error.message(),
        }
    }
}

/// The refusal of a command that is not implemented.
pub fn not_sliced(what: String) -> (error: CommandError)
    ensures
        error@ == (CommandFault::NotSliced { what: what@ }),
{
    CommandError::NotSliced { what }
}

/// Dispatches a command: it is carried out as it stands, or it is one of those
/// not implemented, and is named in the refusal.
pub fn run(command: Command) -> (step: Result<Step, CommandError>)
    ensures
        match command {
            Command::AddProject { name } => step == Ok::<Step, CommandError>(
                Step::AddProject { name },
            ),
            Command::Add { args, node_id } => step == Ok::<Step, CommandError>(
                Step::Add { args, node_id },
            ),
            Command::Get { target, node_id } => step == Ok::<Step, CommandError>(
                Step::Get { target, node_id },
            ),
            Command::Reconcile => step == Ok::<Step, CommandError>(Step::Reconcile),
            Command::Build => step == Ok::<Step, CommandError>(Step::Build),
            Command::Export { project } => step == Ok::<Step, CommandError>(
                Step::Export { project },
            ),
            Command::Search { query } => step matches Err(e) && e@ == (CommandFault::NotSliced {
                what: "search "@ + query@,
            }),
            Command::Supersede { id, text } => step matches Err(e) && e@ == (
            CommandFault::NotSliced { what: "supersede "@ + id@ + " "@ + text@ }),
            Command::Rm { id } => step matches Err(e) && e@ == (CommandFault::NotSliced {
                what: "rm "@ + id@,
            }),
        },
{
    match command {
        Command::AddProject { name } => Ok(Step::AddProject { name }),
        Command::Add { args, node_id } => Ok(Step::Add { args, node_id }),
        Command::Get { target, node_id } => Ok(Step::Get { target, node_id }),
        Command::Search { query } => {
            let mut what: String = "search ".to_owned();
            what.append(query.as_str());
            Err(not_sliced(what))
        },
        Command::Supersede { id, text } => {
            let mut what = joined("supersede ", id.as_str(), " ");
            what.append(text.as_str());
            Err(not_sliced(what))
        },
        Command::Rm { id } => {
            let mut what: String = "rm ".to_owned();
            what.append(id.as_str());
            Err(not_sliced(what))
        },
        Command::Reconcile => Ok(Step::Reconcile),
        Command::Build => Ok(Step::Build),
        Command::Export { project } => Ok(Step::Export { project }),
    }
}

/// The node that an `add` appends: a rationale without label under the node
/// given, or a new idea under the project's root.
pub open spec fn planned_node(
    mem: MemoryView,
    args: Seq<Seq<char>>,
    node_id: Option<Seq<char>>,
    id: Seq<char>,
) -> Result<NodeView, CommandFault> {
    match node_id {
        Some(parent) => if args.len() != 1 {
            Err(CommandFault::AttachArity)
        } else if !holds_id(mem, parent) {
            Err(CommandFault::UnknownNode { id: parent })
        } else {
            Ok(new_node(id, Seq::empty(), args[0], Some(parent)))
        },
        None => if args.len() != 2 {
            Err(CommandFault::IdeaArity)
        } else {
            match root_of(mem.nodes) {
                Some(root) => Ok(new_node(id, args[0], args[1], Some(root))),
                None => Err(CommandFault::Tree { fault: TreeFault::NoRoot }),
            }
        },
    }
}

/// The memory with the node appended.
pub open spec fn with_node(mem: MemoryView, node: NodeView) -> MemoryView {
    MemoryView { project: mem.project, nodes: mem.nodes.push(node) }
}

/// What an `add` appends, or why it is refused: it never leaves anything but a
/// tree.
pub open spec fn add_outcome(
    mem: MemoryView,
    args: Seq<Seq<char>>,
    node_id: Option<Seq<char>>,
    id: Seq<char>,
) -> Result<NodeView, CommandFault> {
    match planned_node(mem, args, node_id, id) {
        Ok(node) => match tree_fault(with_node(mem, node).nodes) {
            Some(fault) => Err(CommandFault::Tree { fault }),
            None => Ok(node),
        },
        Err(fault) => Err(fault),
    }
}

/// What an `add` has done.
#[derive(Debug, PartialEq)]
pub struct Added {
    /// The new node.
    pub node: Node,
    /// The change that brings it into the cache.
    pub change: Change,
}

/// The memory after an `add`, and what it reports, are as the outcome says.
pub open spec fn added_as(
    outcome: Result<NodeView, CommandFault>,
    before: MemoryView,
    after: MemoryView,
    reported: Result<Added, CommandError>,
) -> bool {
    match reported {
        Ok(added) => {
            &&& outcome == Ok::<NodeView, CommandFault>(added.node@)
            &&& after == with_node(before, added.node@)
            &&& added.change@ == (ChangeView::Insert { row: row_of(before.project, added.node@) })
        },
        Err(error) => {
            &&& outcome == Err::<NodeView, CommandFault>(error@)
            &&& after == before
        },
    }
}

fn plan_node(
    mem: &MemoryFile,
    args: &Vec<String>,
    node_id: Option<String>,
    id: &str,
) -> (planned: Result<Node, CommandError>)
    ensures
        match planned {
            Ok(node) => planned_node(mem@, strings_of(args@), text_of(node_id), id@) == Ok::<
                NodeView,
                CommandFault,
            >(node@),
            Err(e) => planned_node(mem@, strings_of(args@), text_of(node_id), id@) == Err::<
                NodeView,
                CommandFault,
            >(e@),
        },
        node_id is Some && args@.len() != 1 <==> planned == Err::<Node, CommandError>(
            CommandError::AttachArity,
        ),
        node_id is None && args@.len() != 2 <==> planned == Err::<Node, CommandError>(
            CommandError::IdeaArity,
        ),
        node_id matches Some(parent) && args@.len() == 1 && (forall|i: int|
            0 <= i < mem.nodes@.len() ==> (#[trigger] mem.nodes@[i]).id@ != parent@) ==> planned
            == Err::<Node, CommandError>(CommandError::UnknownNode { id: node_id->Some_0 }),
        planned matches Err(CommandError::UnknownNode { id: unknown }) ==> node_id == Some(unknown)
            && forall|i: int|
            0 <= i < mem.nodes@.len() ==> (#[trigger] mem.nodes@[i]).id@ != unknown@,
        planned matches Ok(node) ==> {
            &&& node.id@ == id@
            &&& node@.is_fresh()
            &&& node.parent is Some
            &&& match node_id {
                Some(parent) => {
                    &&& args@.len() == 1
                    &&& node.label@.len() == 0
                    &&& node.content@ == args@[0]@
                    &&& node.parent == Some(parent)
                },
                None => {
                    &&& args@.len() == 2
                    &&& node.label@ == args@[0]@
                    &&& node.content@ == args@[1]@
                    &&& root_of(mem@.nodes) == Some(node.parent->Some_0@)
                },
            }
        },
{
    match node_id {
        Some(parent) => {
            if args.len() != 1 {
                return Err(CommandError::AttachArity);
            }
            match position_of(&mem.nodes, &parent) {
                Some(k) => {
                    assert(mem@.nodes[k as int].id == parent@);
                },
                None => {
                    assert forall|i: int| 0 <= i < mem@.nodes.len() implies #[trigger]
                        mem@.nodes[i].id != parent@ by {
                        assert(mem.nodes@[i].id@ != parent@);
                    }
                    return Err(CommandError::UnknownNode { id: parent });
                },
            }
            let label = String::new();
            Ok(Node::new(id, label.as_str(), args[0].as_str(), Some(parent)))
        },
        None => {
            if args.len() != 2 {
                return Err(CommandError::IdeaArity);
            }
            match mem.root() {
                Some(root) => Ok(Node::new(id, args[0].as_str(), args[1].as_str(), Some(root))),
                None => Err(CommandError::Tree { error: TreeError::NoRoot }),
            }
        },
    }
}

/// Adds a node with the given id to a memory. `args` is a label and a content,
/// or, with the id of a node to attach to, a content alone. Where the result
/// would not be a tree, the memory stays as it was.
pub fn add_with_id(
    mem: &mut MemoryFile,
    args: &Vec<String>,
    node_id: Option<String>,
    id: &str,
) -> (added: Result<Added, CommandError>)
    ensures
        added_as(
            add_outcome(old(mem)@, strings_of(args@), text_of(node_id), id@),
            old(mem)@,
            final(mem)@,
            added,
        ),
        added is Ok ==> is_tree(final(mem)@.nodes),
        match added {
            Ok(a) => {
                &&& final(mem).project == old(mem).project
                &&& final(mem).nodes@ == old(mem).nodes@.push(a.node)
                &&& a.node.id@ == id@
                &&& a.node@.is_fresh()
                &&& match node_id {
                    Some(parent) => {
                        &&& args@.len() == 1
                        &&& a.node.label@.len() == 0
                        &&& a.node.content@ == args@[0]@
                        &&& a.node.parent == Some(parent)
                    },
                    None => {
                        &&& args@.len() == 2
                        &&& a.node.label@ == args@[0]@
                        &&& a.node.content@ == args@[1]@
                        &&& a.node.parent is Some
                        &&& root_of(old(mem)@.nodes) == Some(a.node.parent->Some_0@)
                    },
                }
                &&& a.change matches Change::Insert { row }
                &&& row.id@ == a.node.id@
                &&& row.project@ == old(mem).project@
                &&& row.label@ == a.node.label@
                &&& row.content@ == a.node.content@
                &&& row.parent is Some
                &&& a.node.parent is Some
                &&& row.parent->Some_0@ == a.node.parent->Some_0@
            },
            Err(_) => {
                &&& final(mem).project == old(mem).project
                &&& final(mem).nodes@ == old(mem).nodes@
            },
        },
        node_id is Some && args@.len() != 1 <==> added == Err::<Added, CommandError>(
            CommandError::AttachArity,
        ),
        node_id is None && args@.len() != 2 <==> added == Err::<Added, CommandError>(
            CommandError::IdeaArity,
        ),
        node_id matches Some(parent) && args@.len() == 1 && (forall|i: int|
            0 <= i < old(mem).nodes@.len() ==> (#[trigger] old(mem).nodes@[i]).id@ != parent@)
            ==> added == Err::<Added, CommandError>(
            CommandError::UnknownNode { id: node_id->Some_0 },
        ),
        added matches Err(CommandError::UnknownNode { id: unknown }) ==> node_id == Some(unknown)
            && forall|i: int|
            0 <= i < old(mem).nodes@.len() ==> (#[trigger] old(mem).nodes@[i]).id@ != unknown@,
{
    let ghost before = mem@;
    match plan_node(mem, args, node_id, id) {
        Ok(node) => {
            append_node(mem, node.clone());
            assert(mem@ == with_node(before, node@));
            proof {
                no_fault_iff_tree(mem@.nodes);
            }
            match mem.check_invariants() {
                Ok(()) => {
                    let change = Change::Insert { row: Row::of_node(mem.project.as_str(), &node) };
                    Ok(Added { node, change })
                },
                Err(error) => {
                    let _ = mem.nodes.pop();
                    assert(mem@.nodes =~= before.nodes);
                    Err(CommandError::Tree { error })
                },
            }
        },
        Err(error) => Err(error),
    }
}

/// Adds a node with a new id to a memory.
pub fn add(mem: &mut MemoryFile, args: &Vec<String>, node_id: Option<String>) -> (added: Result<
    Added,
    CommandError,
>)
    ensures
        exists|ulid: u128|
            added_as(
                add_outcome(
                    old(mem)@,
                    strings_of(args@),
                    text_of(node_id),
                    #[trigger] ulid_text(ulid),
                ),
                old(mem)@,
                final(mem)@,
                added,
            ),
        added is Ok ==> is_tree(final(mem)@.nodes),
        match added {
            Ok(a) => {
                &&& final(mem).project == old(mem).project
                &&& final(mem).nodes@ == old(mem).nodes@.push(a.node)
                &&& exists|ulid: u128| a.node.id@ == #[trigger] ulid_text(ulid)
                &&& a.node@.is_fresh()
                &&& match node_id {
                    Some(parent) => {
                        &&& args@.len() == 1
                        &&& a.node.label@.len() == 0
                        &&& a.node.content@ == args@[0]@
                        &&& a.node.parent == Some(parent)
                    },
                    None => {
                        &&& args@.len() == 2
                        &&& a.node.label@ == args@[0]@
                        &&& a.node.content@ == args@[1]@
                        &&& a.node.parent is Some
                        &&& root_of(old(mem)@.nodes) == Some(a.node.parent->Some_0@)
                    },
                }
                &&& a.change matches Change::Insert { row }
                &&& row.id@ == a.node.id@
                &&& row.project@ == old(mem).project@
                &&& row.label@ == a.node.label@
                &&& row.content@ == a.node.content@
                &&& row.parent is Some
                &&& a.node.parent is Some
                &&& row.parent->Some_0@ == a.node.parent->Some_0@
            },
            Err(_) => {
                &&& final(mem).project == old(mem).project
                &&& final(mem).nodes@ == old(mem).nodes@
            },
        },
        node_id is Some && args@.len() != 1 <==> added == Err::<Added, CommandError>(
            CommandError::AttachArity,
        ),
        node_id is None && args@.len() != 2 <==> added == Err::<Added, CommandError>(
            CommandError::IdeaArity,
        ),
        node_id matches Some(parent) && args@.len() == 1 && (forall|i: int|
            0 <= i < old(mem).nodes@.len() ==> (#[trigger] old(mem).nodes@[i]).id@ != parent@)
            ==> added == Err::<Added, CommandError>(
            CommandError::UnknownNode { id: node_id->Some_0 },
        ),
        added matches Err(CommandError::UnknownNode { id: unknown }) ==> node_id == Some(unknown)
            && forall|i: int|
            0 <= i < old(mem).nodes@.len() ==> (#[trigger] old(mem).nodes@[i]).id@ != unknown@,
{
    let id: String = new_id();
    add_with_id(mem, args, node_id, id.as_str())
}

/// The marker directory that a project is added at: the nearest one, else the
/// one to scaffold in the current directory.
pub fn memory_dir_to_add<P>(nearest: Option<P>, here: P) -> (dir: P)
    ensures
        dir == match nearest {
            Some(marker) => marker,
            None => here,
        },
{
    match nearest {
        Some(marker) => marker,
        None => here,
    }
}

/// The marker directory of the project implied by the current directory.
pub fn implied_project<P>(nearest: Option<P>) -> (dir: Result<P, CommandError>)
    ensures
        match nearest {
            Some(marker) => dir == Ok::<P, CommandError>(marker),
            None => dir matches Err(e) && e@ == CommandFault::NoProjectHere,
        },
{
    match nearest {
        Some(marker) => Ok(marker),
        None => Err(CommandError::NoProjectHere),
    }
}

/// What adding a project does: a memory file that is already there must be the
/// project's own and a tree, and stays; else one with a root node alone is to
/// be written.
pub open spec fn add_project_outcome(
    name: Seq<char>,
    file: Seq<char>,
    existing: Option<MemoryView>,
    root_id: Seq<char>,
) -> Result<Option<MemoryView>, CommandFault> {
    match existing {
        Some(mem) => if mem.project != name {
            Err(CommandFault::OtherProject { file, project: mem.project })
        } else {
            match tree_fault(mem.nodes) {
                Some(fault) => Err(CommandFault::Tree { fault }),
                None => Ok(None),
            }
        },
        None => Ok(Some(rooted_memory(name, root_id))),
    }
}

/// The memory that was read, if any.
pub open spec fn memory_of(mem: Option<MemoryFile>) -> Option<MemoryView> {
    match mem {
        Some(m) => Some(m@),
        None => None,
    }
}

/// What adding a project reports is as the outcome says.
pub open spec fn project_added_as(
    outcome: Result<Option<MemoryView>, CommandFault>,
    reported: Result<Option<MemoryFile>, CommandError>,
) -> bool {
    match reported {
        Ok(written) => outcome == Ok::<Option<MemoryView>, CommandFault>(memory_of(written)),
        Err(error) => outcome == Err::<Option<MemoryView>, CommandFault>(error@),
    }
}

/// Adds a project, with the given id for the root node of a new memory file.
/// `file` names the memory file, and `existing` is what it holds. The result is
/// the memory file to write, where there is none yet.
pub fn add_project_with_root(
    name: &str,
    file: &str,
    existing: &Option<MemoryFile>,
    root_id: &str,
) -> (written: Result<Option<MemoryFile>, CommandError>)
    ensures
        project_added_as(
            add_project_outcome(name@, file@, memory_of(*existing), root_id@),
            written,
        ),
        written matches Ok(Some(mem)) ==> is_tree(mem@.nodes),
        existing matches Some(mem) ==> {
            &&& written is Ok <==> mem.project@ == name@ && is_tree(mem@.nodes)
            &&& mem.project@ != name@ ==> (written matches Err(
                CommandError::OtherProject { file: f, project: p },
            ) && f@ == file@ && p@ == mem.project@)
            &&& mem.project@ == name@ && !is_tree(mem@.nodes) ==> (written matches Err(
                CommandError::Tree { error },
            ) && tree_fault(mem@.nodes) == Some(error@))
            &&& written matches Ok(to_write) ==> to_write is None
        },
        existing is None ==> {
            &&& written matches Ok(Some(mem))
            &&& mem.project@ == name@
            &&& mem.nodes@.len() == 1
            &&& mem.nodes@[0].id@ == root_id@
            &&& mem.nodes@[0].label@ == name@
            &&& mem.nodes@[0].content@.len() == 0
            &&& mem.nodes@[0].parent is None
        },
{
    match existing {
        Some(mem) => {
            if mem.project != name.to_owned() {
                return Err(
                    CommandError::OtherProject {
                        file: file.to_owned(),
                        project: mem.project.clone(),
                    },
                );
            }
            proof {
                no_fault_iff_tree(mem@.nodes);
            }
            match mem.check_invariants() {
                Ok(()) => Ok(None),
                Err(error) => Err(CommandError::Tree { error }),
            }
        },
        None => Ok(Some(MemoryFile::rooted(name, root_id))),
    }
}

/// Adds a project, with a new id for the root node of a new memory file.
pub fn add_project(name: &str, file: &str, existing: &Option<MemoryFile>) -> (written: Result<
    Option<MemoryFile>,
    CommandError,
>)
    ensures
        exists|ulid: u128|
            project_added_as(
                add_project_outcome(
                    name@,
                    file@,
                    memory_of(*existing),
                    #[trigger] ulid_text(ulid),
                ),
                written,
            ),
        written matches Ok(Some(mem)) ==> is_tree(mem@.nodes),
        existing matches Some(mem) ==> {
            &&& written is Ok <==> mem.project@ == name@ && is_tree(mem@.nodes)
            &&& mem.project@ != name@ ==> (written matches Err(
                CommandError::OtherProject { file: f, project: p },
            ) && f@ == file@ && p@ == mem.project@)
            &&& mem.project@ == name@ && !is_tree(mem@.nodes) ==> (written matches Err(
                CommandError::Tree { error },
            ) && tree_fault(mem@.nodes) == Some(error@))
            &&& written matches Ok(to_write) ==> to_write is None
        },
        existing is None ==> {
            &&& written matches Ok(Some(mem))
            &&& mem.project@ == name@
            &&& mem.nodes@.len() == 1
            &&& exists|ulid: u128| mem.nodes@[0].id@ == #[trigger] ulid_text(ulid)
            &&& mem.nodes@[0].label@ == name@
            &&& mem.nodes@[0].content@.len() == 0
            &&& mem.nodes@[0].parent is None
        },
{
    let root_id: String = new_id();
    add_project_with_root(name, file, existing, root_id.as_str())
}

/// The registered project that an `export` dumps.
pub fn export_project(config: Config, name: &str) -> (project: Result<Project, CommandError>)
    ensures
        match project {
            Ok(p) => lookup(config@.projects, name@) == Some(p@),
            Err(e) => {
                &&& lookup(config@.projects, name@) is None
                &&& e@ == (CommandFault::NotRegistered { name: name@ })
            },
        },
        match project {
            Ok(p) => exists|i: int|
                {
                    &&& 0 <= i < config.projects@.len()
                    &&& #[trigger] config.projects@[i] == p
                    &&& p.name@ == name@
                    &&& forall|j: int|
                        0 <= j < i ==> (#[trigger] config.projects@[j]).name@ != name@
                },
            Err(_) => forall|j: int|
                0 <= j < config.projects@.len() ==> (#[trigger] config.projects@[j]).name@ != name@,
        },
{
    match lookup_project(config, name) {
        Some(project) => Ok(project),
        None => Err(CommandError::NotRegistered { name: name.to_owned() }),
    }
}

/// What a `get` asks for: the node with the id, where one is given, else the
/// nodes with the label; each comes with its subtree.
pub fn get_query(target: Option<String>, node_id: Option<String>) -> (query: Result<
    Query,
    CommandError,
>)
    ensures
        match (node_id, target) {
            (Some(id), _) => query matches Ok(q) && q@ == (QueryView::ById { id: id@ }),
            (None, Some(label)) => query matches Ok(q) && q@ == (QueryView::ByLabel {
                label: label@,
            }),
            (None, None) => query matches Err(e) && e@ == CommandFault::NoTarget,
        },
        match (node_id, target) {
            (Some(id), _) => query == Ok::<Query, CommandError>(Query::ById { id }),
            (None, Some(label)) => query == Ok::<Query, CommandError>(Query::ByLabel { label }),
            (None, None) => query == Err::<Query, CommandError>(CommandError::NoTarget),
        },
{
    match node_id {
        Some(id) => Ok(Query::ById { id }),
        None => match target {
            Some(label) => Ok(Query::ByLabel { label }),
            None => Err(CommandError::NoTarget),
        },
    }
}

/// Reports an added project.
pub fn added_report(name: &str, memory_dir: &str) -> (text: String)
    ensures
        text@ == "added project '"@ + name@ + "' at "@ + memory_dir@,
{
    let mut text = joined("added project '", name, "' at ");
    text.append(memory_dir);
    text
}

/// Reports an incremental pass.
pub fn reconcile_report(projects: usize, nodes: usize, pruned: usize) -> (text: String)
    ensures
        text@ == "reconcile: "@ + decimal(projects as nat) + " project(s), "@ + decimal(
            nodes as nat,
        ) + " node(s) materialized, "@ + decimal(pruned as nat) + " pruned"@,
{
    let projects_text: String = to_decimal(projects as u64);
    let nodes_text: String = to_decimal(nodes as u64);
    let pruned_text: String = to_decimal(pruned as u64);
    let mut text = joined("reconcile: ", projects_text.as_str(), " project(s), ");
    text.append(nodes_text.as_str());
    text.append(" node(s) materialized, ");
    text.append(pruned_text.as_str());
    text.append(" pruned");
    text
}

/// Reports a full rebuild.
pub fn build_report(projects: usize, nodes: usize) -> (text: String)
    ensures
        text@ == "build: full rebuild from "@ + decimal(projects as nat) + " project(s) -> "@
            + decimal(nodes as nat) + " node(s) cached"@,
{
    let projects_text: String = to_decimal(projects as u64);
    let nodes_text: String = to_decimal(nodes as u64);
    let mut text = joined("build: full rebuild from ", projects_text.as_str(), " project(s) -> ");
    text.append(nodes_text.as_str());
    text.append(" node(s) cached");
    text
}

/// On a tree, adding an idea with a new id succeeds: the idea is under the
/// root, and the memory stays a tree with the same root.
pub proof fn adding_an_idea_succeeds(
    mem: MemoryView,
    label: Seq<char>,
    content: Seq<char>,
    id: Seq<char>,
)
    requires
        is_tree(mem.nodes),
        !holds_id(mem, id),
    ensures
        add_outcome(mem, seq![label, content], None, id) == Ok::<NodeView, CommandFault>(
            new_node(id, label, content, root_of(mem.nodes)),
        ),
        ({
            let grown = with_node(mem, new_node(id, label, content, root_of(mem.nodes)));
            is_tree(grown.nodes) && root_of(grown.nodes) == root_of(mem.nodes)
        }),
{
    tree_has_one_root(mem.nodes);
    let root = root_of(mem.nodes)->Some_0;
    let node = new_node(id, label, content, Some(root));
    let k = choose|k: int|
        0 <= k < mem.nodes.len() && #[trigger] mem.nodes[k].parent is None;
    assert(Some(mem.nodes[k].id) == root_of(mem.nodes));
    assert forall|i: int| 0 <= i < mem.nodes.len() implies #[trigger] mem.nodes[i].id
        != node.id by {}
    attaching_keeps_the_tree(mem.nodes, node, k);
    no_fault_iff_tree(with_node(mem, node).nodes);
}

/// On a tree, attaching a rationale with a new id to one of its nodes succeeds:
/// the rationale is under that node, and the memory stays a tree with the same
/// root.
pub proof fn attaching_a_rationale_succeeds(
    mem: MemoryView,
    parent: Seq<char>,
    content: Seq<char>,
    id: Seq<char>,
)
    requires
        is_tree(mem.nodes),
        holds_id(mem, parent),
        !holds_id(mem, id),
    ensures
        add_outcome(mem, seq![content], Some(parent), id) == Ok::<NodeView, CommandFault>(
            new_node(id, Seq::empty(), content, Some(parent)),
        ),
        ({
            let grown = with_node(mem, new_node(id, Seq::empty(), content, Some(parent)));
            is_tree(grown.nodes) && root_of(grown.nodes) == root_of(mem.nodes)
        }),
{
    let node = new_node(id, Seq::empty(), content, Some(parent));
    let k = choose|k: int| 0 <= k < mem.nodes.len() && #[trigger] mem.nodes[k].id == parent;
    assert forall|i: int| 0 <= i < mem.nodes.len() implies #[trigger] mem.nodes[i].id
        != node.id by {}
    attaching_keeps_the_tree(mem.nodes, node, k);
    no_fault_iff_tree(with_node(mem, node).nodes);
}

/// Adding a project again, once its memory file is written, changes nothing.
pub proof fn adding_a_project_again_changes_nothing(
    name: Seq<char>,
    file: Seq<char>,
    root_id: Seq<char>,
    other_id: Seq<char>,
)
    ensures
        add_project_outcome(name, file, Some(rooted_memory(name, root_id)), other_id) == Ok::<
            Option<MemoryView>,
            CommandFault,
        >(None),
{
    let mem = rooted_memory(name, root_id);
    lone_root_is_a_tree(mem.nodes[0]);
    no_fault_iff_tree(mem.nodes);
}

/// A node is never added under an id that the memory already holds.
pub proof fn adding_never_reuses_an_id(
    mem: MemoryView,
    args: Seq<Seq<char>>,
    node_id: Option<Seq<char>>,
    id: Seq<char>,
)
    requires
        holds_id(mem, id),
    ensures
        add_outcome(mem, args, node_id, id) is Err,
{
    if let Ok(node) = planned_node(mem, args, node_id, id) {
        let grown = with_node(mem, node).nodes;
        no_fault_iff_tree(grown);
        let k = choose|k: int| 0 <= k < mem.nodes.len() && #[trigger] mem.nodes[k].id == id;
        assert(grown[k].id == grown[mem.nodes.len() as int].id);
    }
}

/// Appending a node leaves the project and the nodes before it as they are.
pub proof fn appended_node_comes_last(mem: MemoryView, node: NodeView)
    ensures
        with_node(mem, node).project == mem.project,
        with_node(mem, node).nodes.len() == mem.nodes.len() + 1,
        with_node(mem, node).nodes[mem.nodes.len() as int] == node,
        forall|i: int|
            0 <= i < mem.nodes.len() ==> #[trigger] with_node(mem, node).nodes[i] == mem.nodes[i],
{
}

/// What an `add` appends is what it was given: under the node to attach to, a
/// content without label; else, under the root, the label and the content. With
/// it the memory is a tree.
pub proof fn added_node_is_as_given(
    mem: MemoryView,
    args: Seq<Seq<char>>,
    node_id: Option<Seq<char>>,
    id: Seq<char>,
    node: NodeView,
)
    requires
        add_outcome(mem, args, node_id, id) == Ok::<NodeView, CommandFault>(node),
    ensures
        node.id == id,
        node.is_fresh(),
        match node_id {
            Some(parent) => {
                &&& args.len() == 1
                &&& node.label.len() == 0
                &&& node.content == args[0]
                &&& node.parent == Some(parent)
            },
            None => {
                &&& args.len() == 2
                &&& node.label == args[0]
                &&& node.content == args[1]
                &&& node.parent is Some
                &&& node.parent == root_of(mem.nodes)
            },
        },
        is_tree(mem.nodes.push(node)),
{
    no_fault_iff_tree(mem.nodes.push(node));
}

/// An `add` that does not fit is refused for what does not fit: first the
/// number of its arguments, then the node to attach to, then the tree.
pub proof fn unfit_add_is_refused(
    mem: MemoryView,
    args: Seq<Seq<char>>,
    node_id: Option<Seq<char>>,
    id: Seq<char>,
)
    ensures
        node_id is Some && args.len() != 1 ==> add_outcome(mem, args, node_id, id) == Err::<
            NodeView,
            CommandFault,
        >(CommandFault::AttachArity),
        node_id matches Some(parent) && args.len() == 1 && (forall|i: int|
            0 <= i < mem.nodes.len() ==> #[trigger] mem.nodes[i].id != parent) ==> add_outcome(
            mem,
            args,
            node_id,
            id,
        ) == Err::<NodeView, CommandFault>(CommandFault::UnknownNode { id: node_id->Some_0 }),
        node_id is None && args.len() != 2 ==> add_outcome(mem, args, node_id, id) == Err::<
            NodeView,
            CommandFault,
        >(CommandFault::IdeaArity),
        add_outcome(mem, args, node_id, id) matches Err(CommandFault::AttachArity) ==> node_id is Some
            && args.len() != 1,
        add_outcome(mem, args, node_id, id) matches Err(CommandFault::IdeaArity) ==> node_id is None
            && args.len() != 2,
        add_outcome(mem, args, node_id, id) matches Err(CommandFault::UnknownNode { id: unknown })
            ==> node_id == Some(unknown) && forall|i: int|
            0 <= i < mem.nodes.len() ==> #[trigger] mem.nodes[i].id != unknown,
{
}

/// On a tree, an `add` with a new id, the right number of arguments and, where
/// it attaches, a node that is there always succeeds.
pub proof fn fitting_add_succeeds(
    mem: MemoryView,
    args: Seq<Seq<char>>,
    node_id: Option<Seq<char>>,
    id: Seq<char>,
)
    requires
        is_tree(mem.nodes),
        forall|i: int| 0 <= i < mem.nodes.len() ==> #[trigger] mem.nodes[i].id != id,
        match node_id {
            Some(parent) => args.len() == 1 && exists|i: int|
                0 <= i < mem.nodes.len() && #[trigger] mem.nodes[i].id == parent,
            None => args.len() == 2,
        },
    ensures
        add_outcome(mem, args, node_id, id) is Ok,
{
    match node_id {
        Some(parent) => {
            attaching_a_rationale_succeeds(mem, parent, args[0], id);
            assert(args =~= seq![args[0]]);
        },
        None => {
            adding_an_idea_succeeds(mem, args[0], args[1], id);
            assert(args =~= seq![args[0], args[1]]);
        },
    }
}

/// Where a memory file exists, adding the project never gives one to write. It
/// succeeds exactly when the file is the project's own and a tree; else it is
/// refused for belonging to another project, or for not being a tree.
pub proof fn existing_memory_is_never_replaced(
    name: Seq<char>,
    file: Seq<char>,
    mem: MemoryView,
    root_id: Seq<char>,
)
    ensures
        add_project_outcome(name, file, Some(mem), root_id) is Ok <==> mem.project == name && is_tree(
            mem.nodes,
        ),
        add_project_outcome(name, file, Some(mem), root_id) matches Ok(to_write)
            ==> to_write is None,
        mem.project != name ==> add_project_outcome(name, file, Some(mem), root_id) == Err::<
            Option<MemoryView>,
            CommandFault,
        >(CommandFault::OtherProject { file, project: mem.project }),
        mem.project == name && !is_tree(mem.nodes) ==> {
            &&& add_project_outcome(name, file, Some(mem), root_id) matches Err(
                CommandFault::Tree { fault },
            )
            &&& tree_fault(mem.nodes) == Some(fault)
        },
{
    no_fault_iff_tree(mem.nodes);
}

/// Where there is no memory file, adding the project gives one to write: the
/// project's, with a root node alone.
pub proof fn missing_memory_is_scaffolded(
    name: Seq<char>,
    file: Seq<char>,
    root_id: Seq<char>,
)
    ensures
        add_project_outcome(name, file, None, root_id) matches Ok(Some(mem)) && mem.project == name
            && mem.nodes.len() == 1 && mem.nodes[0].id == root_id && mem.nodes[0].label == name
            && mem.nodes[0].content.len() == 0 && mem.nodes[0].parent is None && is_tree(mem.nodes),
{
    new_memory_is_its_root(name, root_id);
}

/// The view of a refusal has every field of it.
pub proof fn refusal_view_is_faithful(error: CommandError)
    ensures
        match error {
            CommandError::NotSliced { what } => error@ == (CommandFault::NotSliced { what: what@ }),
            CommandError::OtherProject { file, project } => error@ == (CommandFault::OtherProject {
                file: file@,
                project: project@,
            }),
            CommandError::NoProjectHere => error@ == CommandFault::NoProjectHere,
            CommandError::AttachArity => error@ == CommandFault::AttachArity,
            CommandError::UnknownNode { id } => error@ == (CommandFault::UnknownNode { id: id@ }),
            CommandError::IdeaArity => error@ == CommandFault::IdeaArity,
            CommandError::NotRegistered { name } => error@ == (CommandFault::NotRegistered {
                name: name@,
            }),
            CommandError::NoTarget => error@ == CommandFault::NoTarget,
            CommandError::Tree { error: inner } => error@ == (CommandFault::Tree {
                fault: inner@,
            }),
        },
{
}

/// The messages that name something name it whole, between fixed words.
pub proof fn messages_name_what_they_are_about(a: Seq<char>, b: Seq<char>)
    ensures
        message_of(CommandFault::NotSliced { what: a }) == "`"@ + a
            + "` is not implemented in this slice (see docs/DESIGN.md roadmap)"@,
        message_of(CommandFault::OtherProject { file: a, project: b }) == a
            + " already belongs to project '"@ + b + "'"@,
        message_of(CommandFault::UnknownNode { id: a }) == "sham add: parent node "@ + a
            + " not found in this project"@,
        message_of(CommandFault::NotRegistered { name: a }) == "no project '"@ + a
            + "' registered — run `sham add-project "@ + a + "`"@,
        message_of(CommandFault::NoProjectHere)
            == "no sham project here — run `sham add-project <name>` first"@,
        message_of(CommandFault::AttachArity)
            == "sham add: --node-id <id> takes exactly one <content>"@,
        message_of(CommandFault::IdeaArity)
            == "sham add: give <label> <content> (or --node-id <id> <content> to attach)"@,
        message_of(CommandFault::NoTarget) == "sham get: provide a <label> or --node-id <id>"@,
        tree_message(TreeFault::DuplicateId { id: a }) == "node id "@ + a + " is used twice"@,
        tree_message(TreeFault::NoRoot) == "no root node: every node has a parent"@,
        tree_message(TreeFault::SecondRoot { id: a }) == "node "@ + a
            + " has no parent, but is not the root"@,
        tree_message(TreeFault::UnknownParent { id: a, parent: b }) == "node "@ + a
            + " names the unknown parent "@ + b,
        tree_message(TreeFault::Detached { id: a }) == "node "@ + a + " is cut off from the root"@,
        forall|fault: TreeFault| #[trigger]
            message_of(CommandFault::Tree { fault }) == tree_message(fault),
{
}

/// After an idea was added, a query by the label that was given fetches its row,
/// with the content that was given.
pub proof fn added_idea_is_fetched_by_its_label(
    mem: MemoryView,
    label: Seq<char>,
    content: Seq<char>,
    id: Seq<char>,
    rows: Rows,
    list: Seq<RowView>,
)
    requires
        is_tree(mem.nodes),
        !holds_id(mem, id),
        !rows.contains_key(id),
        add_outcome(mem, seq![label, content], None, id) matches Ok(node) && is_listing(
            apply(rows, ChangeView::Insert { row: row_of(mem.project, node) }),
            mem.project,
            list,
        ),
    ensures
        exists|row: RowView|
            {
                &&& #[trigger] fetched(list, mem.project, QueryView::ByLabel { label }).contains(row)
                &&& row.id == id
                &&& row.label == label
                &&& row.content == content
                &&& row.parent == root_of(mem.nodes)
            },
{
    let node = add_outcome(mem, seq![label, content], None, id)->Ok_0;
    added_node_is_as_given(mem, seq![label, content], None, id, node);
    added_node_is_found(rows, mem.project, node, list);
    assert(fetched(list, mem.project, QueryView::ByLabel { label }).contains(
        row_of(mem.project, node),
    ));
}

} // verus!

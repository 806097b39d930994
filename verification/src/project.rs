//! Project registry and resolution.
//!
//! A user-global manifest lists the projects whose memory directories are
//! part of the store. A project is a directory that contains a `.memory`
//! marker, which is how an arbitrary directory resolves to a project.

use std::path::PathBuf;
use vstd::prelude::*;

verus! {

/// The marker directory's name inside a project.
pub const MEMORY_DIR_NAME: &'static str = ".memory";

/// The memory file's name inside the marker directory.
pub const MEMORY_FILE_NAME: &'static str = "memory.yaml";

/// The manifest's file name inside the user's `sham` configuration directory.
pub const MANIFEST_FILE_NAME: &'static str = "config.yaml";

/// `std::path::PathBuf`, carried through as it is.
#[verifier::external_type_specification]
#[verifier::external_body]
pub struct ExPathBuf(PathBuf);

/// `PathBuf::clone`. Claimed of it: the copy is the same path.
pub assume_specification[ <PathBuf as Clone>::clone ](path: &PathBuf) -> (copy: PathBuf)
    ensures
        copy == *path,
;

/// The user-global manifest.
#[derive(Debug, PartialEq)]
pub struct Config {
    pub version: u32,
    pub projects: Vec<Project>,
}

/// One registered project: its name and its marker directory.
#[derive(Debug, PartialEq)]
pub struct Project {
    pub name: String,
    pub path: PathBuf,
}

/// What a [`Project`] holds.
pub struct ProjectView {
    pub name: Seq<char>,
    pub path: PathBuf,
}

impl View for Project {
    type V = ProjectView;

    open spec fn view(&self) -> ProjectView {
        ProjectView { name: self.name@, path: self.path }
    }
}

impl Clone for Project {
    fn clone(&self) -> (copy: Self)
        ensures
            copy@ == self@,
            copy.name@ == self.name@,
            copy.path == self.path,
    {
        Project { name: self.name.clone(), path: self.path.clone() }
    }
}

/// The entries' contents, in order.
pub open spec fn project_views(projects: Seq<Project>) -> Seq<ProjectView> {
    Seq::new(projects.len(), |i: int| projects[i]@)
}

/// What a [`Config`] holds.
pub struct ConfigView {
    pub version: u32,
    pub projects: Seq<ProjectView>,
}

impl View for Config {
    type V = ConfigView;

    open spec fn view(&self) -> ConfigView {
        ConfigView { version: self.version, projects: project_views(self.projects@) }
    }
}

impl Clone for Config {
    fn clone(&self) -> (copy: Self)
        ensures
            copy@ == self@,
    {
        let mut projects: Vec<Project> = Vec::new();
        let mut i: usize = 0;
        while i < self.projects.len()
            invariant
                i <= self.projects@.len(),
                project_views(projects@) == project_views(self.projects@).take(i as int),
            decreases self.projects@.len() - i,
        {
            let ghost before = projects@;
            projects.push(self.projects[i].clone());
            assert(project_views(projects@) =~= project_views(before).push(
                self.projects@[i as int]@,
            ));
            i = i + 1;
        }
        assert(project_views(projects@) =~= project_views(self.projects@));
        Config { version: self.version, projects }
    }
}

/// The manifest of a user who has registered nothing.
pub open spec fn empty_config() -> ConfigView {
    ConfigView { version: 1, projects: Seq::empty() }
}

/// The first entry with the name.
pub open spec fn find_entry(projects: Seq<ProjectView>, name: Seq<char>) -> Option<int>
    decreases projects.len(),
{
    if projects.len() == 0 {
        None
    } else {
        match find_entry(projects.drop_last(), name) {
            Some(i) => Some(i),
            None => if projects.last().name == name {
                Some(projects.len() - 1)
            } else {
                None
            },
        }
    }
}

/// The entry that a lookup of the name finds.
pub open spec fn lookup(projects: Seq<ProjectView>, name: Seq<char>) -> Option<ProjectView> {
    match find_entry(projects, name) {
        Some(i) => Some(projects[i]),
        None => None,
    }
}

/// The registry after the name was registered with the path: the first entry
/// of that name points there, or a new last entry does.
pub open spec fn registered(
    projects: Seq<ProjectView>,
    name: Seq<char>,
    path: PathBuf,
) -> Seq<ProjectView> {
    match find_entry(projects, name) {
        Some(i) => projects.update(i, ProjectView { name, path }),
        None => projects.push(ProjectView { name, path }),
    }
}

/// No name is registered twice.
pub open spec fn names_distinct(projects: Seq<ProjectView>) -> bool {
    forall|i: int, j: int| 0 <= i < j < projects.len() ==> projects[i].name != projects[j].name
}

/// `find_entry` gives the least index with the name, and nothing where there
/// is none.
pub proof fn find_entry_is_first(projects: Seq<ProjectView>, name: Seq<char>)
    ensures
        match find_entry(projects, name) {
            Some(i) => {
                &&& 0 <= i < projects.len()
                &&& projects[i].name == name
                &&& forall|j: int| 0 <= j < i ==> #[trigger] projects[j].name != name
            },
            None => forall|j: int| 0 <= j < projects.len() ==> #[trigger] projects[j].name != name,
        },
    decreases projects.len(),
{
    if projects.len() > 0 {
        let init = projects.drop_last();
        find_entry_is_first(init, name);
        match find_entry(init, name) {
            Some(i) => {
                assert forall|j: int| 0 <= j < i implies #[trigger] projects[j].name != name by {
                    assert(init[j].name != name);
                }
            },
            None => {
                assert forall|j: int| 0 <= j < init.len() implies #[trigger] projects[j].name
                    != name by {
                    assert(init[j].name != name);
                }
            },
        }
    }
}

proof fn find_entry_is(projects: Seq<ProjectView>, name: Seq<char>, i: int)
    requires
        0 <= i < projects.len(),
        projects[i].name == name,
        forall|j: int| 0 <= j < i ==> #[trigger] projects[j].name != name,
    ensures
        find_entry(projects, name) == Some(i),
{
    find_entry_is_first(projects, name);
}

fn entry_position(projects: &Vec<Project>, name: &str) -> (found: Option<usize>)
    ensures
        match found {
            Some(i) => {
                &&& i < projects@.len()
                &&& find_entry(project_views(projects@), name@) == Some(i as int)
                &&& projects@[i as int].name@ == name@
            },
            None => find_entry(project_views(projects@), name@) is None,
        },
{
    let ghost views = project_views(projects@);
    let wanted: String = name.to_owned();
    let mut i: usize = 0;
    while i < projects.len()
        invariant
            i <= projects@.len(),
            views == project_views(projects@),
            wanted@ == name@,
            forall|j: int| 0 <= j < i ==> #[trigger] views[j].name != name@,
        decreases projects@.len() - i,
    {
        if projects[i].name == wanted {
            proof {
                find_entry_is(views, name@, i as int);
            }
            return Some(i);
        }
        i = i + 1;
    }
    proof {
        find_entry_is_first(views, name@);
    }
    None
}

/// The manifest version that is written and taken where none is stored.
pub fn default_version() -> (version: u32)
    ensures
        version == 1,
{
    1
}

impl Default for Config {
    fn default() -> (config: Self)
        ensures
            config@ == empty_config(),
            config.version == 1,
            config.projects@.len() == 0,
    {
        let config = Config { version: default_version(), projects: Vec::new() };
        assert(config@.projects =~= Seq::empty());
        config
    }
}

/// The manifest in force: what was stored, or the empty one where nothing was.
/// One that is there but could not be read or parsed is an error, and never
/// passes for an empty one.
pub fn read_config<E>(stored: Result<Option<Config>, E>) -> (config: Result<Config, E>)
    ensures
        match stored {
            Ok(Some(c)) => config == Ok::<Config, E>(c),
            Ok(None) => config matches Ok(c) && c@ == empty_config() && c.version == 1
                && c.projects@.len() == 0,
            Err(e) => config == Err::<Config, E>(e),
        },
{
    match stored {
        Ok(Some(config)) => Ok(config),
        Ok(None) => Ok(Config::default()),
        Err(e) => Err(e),
    }
}

/// Registers or re-registers a project, by name. The path is the canonical
/// form of the marker directory where that is known, else the directory as
/// given.
pub fn register_project(
    config: &mut Config,
    name: &str,
    memory_dir: PathBuf,
    canonical: Option<PathBuf>,
)
    ensures
        final(config)@ == (ConfigView {
            version: old(config)@.version,
            projects: registered(
                old(config)@.projects,
                name@,
                match canonical {
                    Some(c) => c,
                    None => memory_dir,
                },
            ),
        }),
        final(config).version == old(config).version,
{
    let path: PathBuf = match canonical {
        Some(c) => c,
        None => memory_dir,
    };
    let ghost before = config@.projects;
    match entry_position(&config.projects, name) {
        Some(i) => {
            config.projects[i].path = path;
            assert(config@.projects =~= before.update(i as int, ProjectView { name: name@, path }));
        },
        None => {
            config.projects.push(Project { name: name.to_owned(), path });
            assert(config@.projects =~= before.push(ProjectView { name: name@, path }));
        },
    }
}

/// Looks up a registered project by name.
pub fn lookup_project(config: Config, name: &str) -> (found: Option<Project>)
    ensures
        match found {
            Some(project) => lookup(config@.projects, name@) == Some(project@),
            None => lookup(config@.projects, name@) is None,
        },
        match found {
            Some(project) => exists|i: int|
                {
                    &&& 0 <= i < config.projects@.len()
                    &&& #[trigger] config.projects@[i] == project
                    &&& project.name@ == name@
                    &&& forall|j: int|
                        0 <= j < i ==> (#[trigger] config.projects@[j]).name@ != name@
                },
            None => forall|j: int|
                0 <= j < config.projects@.len() ==> (#[trigger] config.projects@[j]).name@ != name@,
        },
{
    proof {
        let views = project_views(config.projects@);
        find_entry_is_first(views, name@);
        assert forall|j: int| 0 <= j < views.len() implies views[j].name == (
        #[trigger] config.projects@[j]).name@ by {}
        match find_entry(views, name@) {
            Some(i) => {
                assert forall|j: int| 0 <= j < i implies (#[trigger] config.projects@[j]).name@
                    != name@ by {
                    assert(views[j].name != name@);
                }
            },
            None => {
                assert forall|j: int| 0 <= j < config.projects@.len() implies (
                #[trigger] config.projects@[j]).name@ != name@ by {
                    assert(views[j].name != name@);
                }
            },
        }
    }
    let mut projects: Vec<Project> = config.projects;
    match entry_position(&projects, name) {
        Some(i) => Some(projects.swap_remove(i)),
        None => None,
    }
}

/// Resolves a directory to the nearest marker. `ancestors` holds the directory
/// itself and then each parent up to the root; `marker_in` gives the marker
/// that a directory contains. The directories are asked in that order, and
/// none after the first that has one.
pub fn resolve_memory_dir<D, M, F: Fn(&D) -> Option<M>>(
    ancestors: &Vec<D>,
    marker_in: F,
) -> (marker: Option<M>)
    requires
        forall|i: int|
            0 <= i < ancestors@.len() ==> call_requires(marker_in, (&#[trigger] ancestors@[i],)),
    ensures
        match marker {
            Some(m) => exists|i: int|
                {
                    &&& 0 <= i < ancestors@.len()
                    &&& call_ensures(marker_in, (&#[trigger] ancestors@[i],), Some(m))
                    &&& forall|j: int|
                        0 <= j < i ==> call_ensures(
                            marker_in,
                            (&#[trigger] ancestors@[j],),
                            None,
                        )
                },
            None => forall|j: int|
                0 <= j < ancestors@.len() ==> call_ensures(
                    marker_in,
                    (&#[trigger] ancestors@[j],),
                    None,
                ),
        },
{
    let mut i: usize = 0;
    while i < ancestors.len()
        invariant
            i <= ancestors@.len(),
            forall|k: int|
                0 <= k < ancestors@.len() ==> call_requires(
                    marker_in,
                    (&#[trigger] ancestors@[k],),
                ),
            forall|j: int|
                0 <= j < i ==> call_ensures(marker_in, (&#[trigger] ancestors@[j],), None),
        decreases ancestors@.len() - i,
    {
        let marker = marker_in(&ancestors[i]);
        if marker.is_some() {
            return marker;
        }
        i = i + 1;
    }
    None
}

/// A file system place: a base directory and the names below it.
#[derive(Debug, PartialEq)]
pub struct Place<P> {
    pub base: P,
    pub below: Vec<&'static str>,
}

/// The texts of a list of names.
pub open spec fn names_of(names: Seq<&'static str>) -> Seq<Seq<char>> {
    Seq::new(names.len(), |i: int| names[i]@)
}

/// Where the manifest is: at the overriding path, else at `sham/config.yaml`
/// below the user's configuration directory, else nowhere.
pub fn manifest_path<P>(overriding: Option<P>, config_dir: Option<P>) -> (place: Option<Place<P>>)
    ensures
        match (overriding, config_dir) {
            (Some(path), _) => place matches Some(at) && at.base == path && at.below@.len() == 0,
            (None, Some(dir)) => {
                &&& place matches Some(at)
                &&& at.base == dir
                &&& names_of(at.below@) == seq!["sham"@, MANIFEST_FILE_NAME@]
                &&& at.below@.len() == 2
                &&& at.below@[0]@ == "sham"@
                &&& at.below@[1]@ == "config.yaml"@
            },
            (None, None) => place is None,
        },
{
    match overriding {
        Some(path) => Some(Place { base: path, below: Vec::new() }),
        None => match config_dir {
            Some(dir) => {
                let mut below: Vec<&'static str> = Vec::new();
                below.push("sham");
                below.push(MANIFEST_FILE_NAME);
                assert(names_of(below@) =~= seq!["sham"@, MANIFEST_FILE_NAME@]);
                Some(Place { base: dir, below })
            },
            None => None,
        },
    }
}

/// A registered name is found again, at the path it was registered with.
pub proof fn registering_then_looking_up(
    projects: Seq<ProjectView>,
    name: Seq<char>,
    path: PathBuf,
)
    ensures
        lookup(registered(projects, name, path), name) == Some(ProjectView { name, path }),
{
    find_entry_is_first(projects, name);
    let after = registered(projects, name, path);
    match find_entry(projects, name) {
        Some(i) => {
            assert forall|j: int| 0 <= j < i implies #[trigger] after[j].name != name by {
                assert(projects[j].name != name);
            }
            find_entry_is(after, name, i);
        },
        None => {
            assert forall|j: int| 0 <= j < projects.len() implies #[trigger] after[j].name
                != name by {
                assert(projects[j].name != name);
            }
            find_entry_is(after, name, projects.len() as int);
        },
    }
}

/// Registering a name leaves what is found under every other name as it is.
pub proof fn registering_keeps_other_names(
    projects: Seq<ProjectView>,
    name: Seq<char>,
    path: PathBuf,
    other: Seq<char>,
)
    requires
        other != name,
    ensures
        lookup(registered(projects, name, path), other) == lookup(projects, other),
{
    find_entry_is_first(projects, name);
    find_entry_is_first(projects, other);
    let after = registered(projects, name, path);
    find_entry_is_first(after, other);
    match find_entry(projects, other) {
        Some(i) => {
            assert forall|j: int| 0 <= j < i implies #[trigger] after[j].name != other by {
                assert(projects[j].name != other);
            }
            find_entry_is(after, other, i);
        },
        None => {
            if let Some(k) = find_entry(after, other) {
                if k < projects.len() {
                    assert(projects[k].name != other);
                }
                assert(after[k].name == other);
            }
        },
    }
}

/// Re-registering a name replaces its path and adds no entry.
pub proof fn reregistering_replaces(
    projects: Seq<ProjectView>,
    name: Seq<char>,
    first: PathBuf,
    second: PathBuf,
)
    ensures
        registered(registered(projects, name, first), name, second) == registered(
            projects,
            name,
            second,
        ),
        registered(registered(projects, name, first), name, second).len() == registered(
            projects,
            name,
            first,
        ).len(),
{
    find_entry_is_first(projects, name);
    let once = registered(projects, name, first);
    match find_entry(projects, name) {
        Some(i) => {
            assert forall|j: int| 0 <= j < i implies #[trigger] once[j].name != name by {
                assert(projects[j].name != name);
            }
            find_entry_is(once, name, i);
        },
        None => {
            assert forall|j: int| 0 <= j < projects.len() implies #[trigger] once[j].name
                != name by {
                assert(projects[j].name != name);
            }
            find_entry_is(once, name, projects.len() as int);
        },
    }
    assert(registered(once, name, second) =~= registered(projects, name, second));
}

/// Where no name is registered twice, registering keeps it so.
pub proof fn registering_keeps_names_distinct(
    projects: Seq<ProjectView>,
    name: Seq<char>,
    path: PathBuf,
)
    requires
        names_distinct(projects),
    ensures
        names_distinct(registered(projects, name, path)),
{
    find_entry_is_first(projects, name);
    let after = registered(projects, name, path);
    assert forall|i: int, j: int| 0 <= i < j < after.len() implies after[i].name
        != after[j].name by {
        if j < projects.len() {
            assert(projects[i].name != projects[j].name);
        } else {
            assert(projects[i].name != name);
        }
    }
}

/// A lookup gives the first entry of the name, and nothing exactly where no
/// entry has the name.
pub proof fn lookup_is_the_first_of_its_name(projects: Seq<ProjectView>, name: Seq<char>)
    ensures
        match lookup(projects, name) {
            Some(entry) => exists|i: int|
                {
                    &&& 0 <= i < projects.len()
                    &&& #[trigger] projects[i] == entry
                    &&& entry.name == name
                    &&& forall|j: int| 0 <= j < i ==> #[trigger] projects[j].name != name
                },
            None => forall|j: int| 0 <= j < projects.len() ==> #[trigger] projects[j].name != name,
        },
{
    find_entry_is_first(projects, name);
}

/// Registering a name changes the path of its first entry alone, or, where the
/// name is new, adds one entry behind the others.
pub proof fn registering_changes_one_entry(
    projects: Seq<ProjectView>,
    name: Seq<char>,
    path: PathBuf,
)
    ensures
        ({
            let after = registered(projects, name, path);
            ||| exists|i: int|
                {
                    &&& 0 <= i < projects.len()
                    &&& #[trigger] projects[i].name == name
                    &&& forall|j: int| 0 <= j < i ==> #[trigger] projects[j].name != name
                    &&& after.len() == projects.len()
                    &&& after[i].name == name
                    &&& after[i].path == path
                    &&& forall|j: int|
                        0 <= j < projects.len() && j != i ==> #[trigger] after[j] == projects[j]
                }
            ||| {
                &&& forall|j: int| 0 <= j < projects.len() ==> #[trigger] projects[j].name != name
                &&& after.len() == projects.len() + 1
                &&& after[projects.len() as int].name == name
                &&& after[projects.len() as int].path == path
                &&& forall|j: int|
                    0 <= j < projects.len() ==> #[trigger] after[j] == projects[j]
            }
        }),
{
    find_entry_is_first(projects, name);
    if let Some(i) = find_entry(projects, name) {
        assert(projects[i].name == name);
    }
}

/// The manifest of a user who has registered nothing is of version one and has
/// no entry.
pub proof fn empty_config_has_no_entry(name: Seq<char>)
    ensures
        empty_config().version == 1,
        empty_config().projects.len() == 0,
        lookup(empty_config().projects, name) is None,
{
}

/// The views of a manifest and of its entries have every field.
pub proof fn config_view_is_faithful(config: Config)
    ensures
        config@.version == config.version,
        config@.projects.len() == config.projects@.len(),
        forall|i: int|
            0 <= i < config.projects@.len() ==> (#[trigger] config@.projects[i]).name
                == config.projects@[i].name@ && config@.projects[i].path
                == config.projects@[i].path,
{
}

/// The names of the marker directory and of the files.
pub proof fn file_names_read()
    ensures
        MEMORY_DIR_NAME@ == ".memory"@,
        MEMORY_FILE_NAME@ == "memory.yaml"@,
        MANIFEST_FILE_NAME@ == "config.yaml"@,
{
}

} // verus!

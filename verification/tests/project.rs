use std::path::{Path, PathBuf};

use sham::project::{
    default_version, lookup_project, manifest_path, read_config, register_project,
    resolve_memory_dir, Config, Project, MANIFEST_FILE_NAME, MEMORY_DIR_NAME, MEMORY_FILE_NAME,
};

/// Resolves `start` where the marker directories are those given.
fn resolve(start: &Path, markers: &[PathBuf]) -> Option<PathBuf> {
    let ancestors: Vec<PathBuf> = start.ancestors().map(Path::to_path_buf).collect();
    resolve_memory_dir(&ancestors, |dir: &PathBuf| {
        let marker = dir.join(MEMORY_DIR_NAME);
        if markers.contains(&marker) {
            Some(marker)
        } else {
            None
        }
    })
}

#[test]
fn resolve_finds_nearest_ancestor_marker() {
    let root = PathBuf::from("/tmp").join(format!("sham-resolve-{}", 1));
    let nested = root.join("deep/nested/dir");
    let memory = root.join(MEMORY_DIR_NAME);
    let markers = vec![memory.clone()];

    // A nested dir (no marker of its own) resolves up to the root marker.
    assert_eq!(resolve(&nested, &markers), Some(memory.clone()));
    // The dir *containing* the marker resolves to it too.
    assert_eq!(resolve(&root, &markers), Some(memory.clone()));
    // Above the marker, nothing resolves.
    assert_eq!(resolve(Path::new("/"), &markers), None);
}

#[test]
fn the_nearer_of_two_markers_wins() {
    let outer = PathBuf::from("/work").join(MEMORY_DIR_NAME);
    let inner = PathBuf::from("/work/app").join(MEMORY_DIR_NAME);
    let markers = vec![outer.clone(), inner.clone()];
    assert_eq!(resolve(Path::new("/work/app/src"), &markers), Some(inner));
    assert_eq!(resolve(Path::new("/work/other"), &markers), Some(outer));
}

#[test]
fn no_directory_is_asked_after_the_first_marker() {
    let asked = std::cell::RefCell::new(Vec::new());
    let ancestors = vec![3u8, 2, 1, 0];
    let found = resolve_memory_dir(&ancestors, |dir: &u8| {
        asked.borrow_mut().push(*dir);
        if *dir == 2 {
            Some("here")
        } else {
            None
        }
    });
    assert_eq!(found, Some("here"));
    assert_eq!(asked.into_inner(), vec![3, 2]);
}

#[test]
fn register_upserts_by_name_and_lookup_round_trips() {
    let dir = PathBuf::from("/tmp/sham-manifest");
    let m1 = dir.join("repo-a").join(MEMORY_DIR_NAME);
    let m2 = dir.join("repo-b").join(MEMORY_DIR_NAME);
    let real = PathBuf::from("/private");
    let canonical = |p: &PathBuf| real.join(p.strip_prefix("/").unwrap());

    let mut cfg = read_config::<()>(Ok(None)).unwrap();
    // Register A, then re-register A pointing elsewhere: should replace,
    // not duplicate. Also register B.
    register_project(&mut cfg, "alpha", m1.clone(), Some(canonical(&m1)));
    register_project(&mut cfg, "alpha", m2.clone(), Some(canonical(&m2)));
    register_project(&mut cfg, "beta", m1.clone(), Some(canonical(&m1)));

    assert_eq!(
        cfg.projects.len(),
        2,
        "re-register by name upserts, no dupes"
    );
    assert_eq!(cfg.version, 1);
    assert_eq!(cfg.projects[0].name, "alpha");
    assert_eq!(cfg.projects[1].name, "beta");
    // Registering another name left the first as it was.
    assert_eq!(cfg.projects[0].path, canonical(&m2));

    // The re-registered alpha now points at m2 (canonicalized).
    let again = cfg.clone();
    assert_eq!(again, cfg);
    let a = lookup_project(cfg, "alpha").unwrap();
    assert_eq!(a.path, canonical(&m2));

    assert!(lookup_project(again, "nope").is_none());
}

#[test]
fn a_directory_without_canonical_form_is_registered_as_given() {
    let mut cfg = Config::default();
    register_project(&mut cfg, "alpha", PathBuf::from("rel/.memory"), None);
    assert_eq!(cfg.projects[0].path, PathBuf::from("rel/.memory"));
}

#[test]
fn lookup_takes_the_first_entry_of_a_name() {
    let entry = |name: &str, path: &str| Project {
        name: name.to_string(),
        path: PathBuf::from(path),
    };
    let cfg = Config {
        version: 1,
        projects: vec![entry("a", "/1"), entry("b", "/2"), entry("b", "/3")],
    };
    assert_eq!(lookup_project(cfg, "b"), Some(entry("b", "/2")));
}

#[test]
fn a_missing_manifest_is_an_empty_config() {
    assert_eq!(default_version(), 1);
    assert_eq!(
        read_config::<()>(Ok(None)),
        Ok(Config {
            version: 1,
            projects: Vec::new()
        })
    );
    let stored = Config {
        version: 7,
        projects: Vec::new(),
    };
    assert_eq!(read_config::<()>(Ok(Some(stored.clone()))), Ok(stored));
}

#[test]
fn a_manifest_that_cannot_be_read_is_an_error() {
    assert_eq!(read_config(Err("did not parse")), Err("did not parse"));
}

#[test]
fn the_manifest_is_where_the_override_says_or_below_the_config_dir() {
    let at = manifest_path(Some("/x/custom.yaml"), Some("/home/u/.config")).unwrap();
    assert_eq!(at.base, "/x/custom.yaml");
    assert!(at.below.is_empty());
    let at = manifest_path(None, Some("/home/u/.config")).unwrap();
    assert_eq!(at.base, "/home/u/.config");
    assert_eq!(at.below, vec!["sham", "config.yaml"]);
    assert_eq!(manifest_path::<&str>(None, None), None);
}

#[test]
fn file_names_are_fixed() {
    assert_eq!(MEMORY_DIR_NAME, ".memory");
    assert_eq!(MEMORY_FILE_NAME, "memory.yaml");
    assert_eq!(MANIFEST_FILE_NAME, "config.yaml");
}

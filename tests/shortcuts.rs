use shortcut::alias::{
    compact_home, expand_home, get_home_dir, resolve_root, span_path_exists, sub_path, Root,
    SubstitutePrefix,
};
use shortcut::classify::{convert_child_path, convert_parent_path, get_path_variant, path_variant, PathKind};
use shortcut::error::ShortcutError;
use shortcut::script::{generate_script, to_bash};
use shortcut::shortcut::{build_shortcuts, remove_dashes, root_shortcut, to_shortcuts, Shortcut, ToEnv};
use shortcut::tree::{collect_tree, WalkEntry};

fn root(p: &str) -> Root {
    Root { root: p.to_string() }
}

fn dir(path: &str, depth: usize) -> Option<WalkEntry> {
    Some(WalkEntry { path: path.to_string(), depth, is_dir: true })
}

fn file(path: &str, depth: usize) -> Option<WalkEntry> {
    Some(WalkEntry { path: path.to_string(), depth, is_dir: false })
}

fn pair(a: &str, b: &str) -> Option<(String, String)> {
    Some((a.to_string(), b.to_string()))
}

#[test]
fn expand_tilde() {
    assert_eq!(expand_home(&root("~/projects"), "/home/alice"), pair("/home/alice/projects", "~"));
}

#[test]
fn expand_dollar_home() {
    assert_eq!(expand_home(&root("$HOME/a/b"), "/home/alice"), pair("/home/alice/a/b", "$HOME"));
}

#[test]
fn expand_braced_home() {
    assert_eq!(expand_home(&root("${HOME}/a"), "/home/alice"), pair("/home/alice/a", "${HOME}"));
}

#[test]
fn expand_alias_alone() {
    assert_eq!(expand_home(&root("~"), "/home/alice"), pair("/home/alice", "~"));
}

#[test]
fn expand_home_with_trailing_separator() {
    assert_eq!(expand_home(&root("~/x"), "/home/alice/"), pair("/home/alice/x", "~"));
}

#[test]
fn expand_absolute_path_gives_none() {
    assert_eq!(expand_home(&root("/tmp/projects"), "/home/alice"), None);
}

#[test]
fn expand_needs_whole_component() {
    assert_eq!(expand_home(&root("~alice/x"), "/home/alice"), None);
    assert_eq!(expand_home(&root("$HOMEDIR/x"), "/home/alice"), None);
}

#[test]
fn compact_under_home() {
    assert_eq!(
        compact_home(&root("/home/alice/projects"), "/home/alice", "~".to_string()),
        pair("~/projects", "/home/alice")
    );
}

#[test]
fn compact_outside_home_gives_none() {
    assert_eq!(compact_home(&root("/tmp/projects"), "/home/alice", "~".to_string()), None);
    assert_eq!(compact_home(&root("/home/alice2/x"), "/home/alice", "~".to_string()), None);
}

#[test]
fn round_trip_for_every_alias() {
    for alias in ["~", "$HOME", "${HOME}"] {
        let original = format!("{}/projects/app", alias);
        let (expanded, used) = expand_home(&root(&original), "/home/alice").unwrap();
        assert_eq!(used, alias);
        let (back, _) = compact_home(&root(&expanded), "/home/alice", used).unwrap();
        assert_eq!(back, original);
    }
}

#[test]
fn sub_path_replaces_prefix() {
    assert_eq!(sub_path(&root("/a/b/c"), "/a", "/x/y".to_string()), pair("/x/y/b/c", "/a"));
    assert_eq!(sub_path(&root("/a/b/c"), "/b", "/x".to_string()), None);
}

#[test]
fn sub_prefix_fails_without_prefix() {
    assert_eq!(
        root("/a/b").sub_prefix("/c", "/x".to_string()),
        Err(ShortcutError::PrefixSubstitutionFailed)
    );
    assert_eq!(root("/a/b").sub_prefix("/a", "~".to_string()), Ok(("~/b".to_string(), "/a".to_string())));
}

#[test]
fn root_starts_with_by_component() {
    assert!(root("/home/alice/x").starts_with("/home/alice"));
    assert!(root("/home//alice/").starts_with("/home/alice"));
    assert!(!root("/home/alice2").starts_with("/home/alice"));
    assert!(!root("home/alice").starts_with("/home"));
}

#[test]
fn resolve_root_keeps_plain_paths() {
    assert_eq!(resolve_root(&root("/srv/data"), "/home/alice"), "/srv/data");
    assert_eq!(resolve_root(&root("~/data"), "/home/alice"), "/home/alice/data");
}

#[test]
fn span_path_exists_cases() {
    assert!(span_path_exists(&None, false));
    assert!(span_path_exists(&pair("/a", "~"), true));
    assert!(!span_path_exists(&pair("/a", "~"), false));
}

#[test]
fn home_dir_is_found_or_reported() {
    match get_home_dir() {
        Ok(h) => assert!(!h.is_empty()),
        Err(e) => assert_eq!(e, ShortcutError::HomeUnavailable),
    }
}

#[test]
fn parent_and_child_names() {
    assert_eq!(convert_parent_path("/home/alice/projects/app"), "projects");
    assert_eq!(convert_child_path("/home/alice/projects/app"), "app");
    assert_eq!(convert_child_path("~/projects/"), "projects");
    assert_eq!(convert_parent_path("a/b"), "a");
}

#[test]
fn kinds_of_paths() {
    assert_eq!(path_variant("~/x", true), PathKind::Environment);
    assert_eq!(path_variant("$HOME/x", true), PathKind::Environment);
    assert_eq!(path_variant("${HOME}", true), PathKind::Environment);
    assert_eq!(path_variant("~/x", false), PathKind::Standard);
    assert_eq!(path_variant("/home/alice/x", true), PathKind::Standard);
    assert_eq!(get_path_variant("/usr/local"), PathKind::Standard);
}

#[test]
fn dashes_are_removed_from_names() {
    assert_eq!(remove_dashes("my-long-dir"), "mylongdir");
    assert_eq!(remove_dashes("---"), "");
    assert_eq!(remove_dashes("plain"), "plain");
}

#[test]
fn env_path_of_each_kind() {
    let child = Shortcut {
        name: "app".to_string(),
        parent: "projects".to_string(),
        child: "app".to_string(),
        kind: PathKind::Standard,
    };
    assert_eq!(child.to_env_path(), "$projects/app");
    let top = Shortcut {
        name: "projects".to_string(),
        parent: "~/projects".to_string(),
        child: "projects".to_string(),
        kind: PathKind::Environment,
    };
    assert_eq!(top.to_env_path(), "~/projects");
}

#[test]
fn shortcuts_from_folders() {
    let made = to_shortcuts(vec!["/h/projects/my-app".to_string(), "/h/projects/my-app/src".to_string()]);
    assert_eq!(made.len(), 2);
    assert_eq!(made[0].name, "myapp");
    assert_eq!(made[0].parent, "projects");
    assert_eq!(made[0].child, "my-app");
    assert_eq!(made[0].kind, PathKind::Standard);
    assert_eq!(made[1].name, "src");
    assert_eq!(made[1].parent, "my-app");
}

#[test]
fn root_shortcut_compacted() {
    let s = root_shortcut("/home/alice/my-projects", "/home/alice", "$HOME").unwrap();
    assert_eq!(s.name, "myprojects");
    assert_eq!(s.parent, "$HOME/my-projects");
    assert_eq!(s.child, "my-projects");
    assert_eq!(s.kind, PathKind::Environment);
}

#[test]
fn root_shortcut_outside_home_is_literal() {
    let s = root_shortcut("/srv/data", "/home/alice", "~").unwrap();
    assert_eq!(s.name, "data");
    assert_eq!(s.to_env_path(), "/srv/data");
}

#[test]
fn root_without_name_is_refused() {
    assert_eq!(root_shortcut("/", "/home/alice", "~").err(), Some(ShortcutError::NoDirectoryName));
}

#[test]
fn build_puts_root_first() {
    let v = build_shortcuts("/home/alice/p", "/home/alice", "~", vec!["/home/alice/p/a".to_string()]).unwrap();
    assert_eq!(v.len(), 2);
    assert_eq!(v[0].kind, PathKind::Environment);
    assert_eq!(v[0].to_env_path(), "~/p");
    assert_eq!(v[1].kind, PathKind::Standard);
    assert_eq!(v[1].to_env_path(), "$p/a");
}

#[test]
fn build_refuses_directory_without_parent_name() {
    let r = build_shortcuts("/home/alice/p", "/home/alice", "~", vec!["/usr".to_string()]);
    assert_eq!(r.err(), Some(ShortcutError::NoDirectoryName));
}

#[test]
fn tree_keeps_directories_within_depth() {
    let entries = vec![
        dir("/r", 0),
        dir("/r/a", 1),
        file("/r/a.txt", 1),
        None,
        dir("/r/a/b", 2),
        dir("/r/a/b/c", 3),
    ];
    assert_eq!(collect_tree(&entries, 2), vec!["/r/a".to_string(), "/r/a/b".to_string()]);
    assert_eq!(collect_tree(&entries, 1), vec!["/r/a".to_string()]);
    assert!(collect_tree(&entries, 0).is_empty());
}

#[test]
fn bash_text_exact() {
    let v = build_shortcuts("/home/alice/p", "/home/alice", "~", vec!["/home/alice/p/a-b".to_string()]).unwrap();
    assert_eq!(to_bash(&v), "#!/bin/bash\n\nexport p=\"~/p\"\nexport ab=\"$p/a-b\"\n");
}

#[test]
fn scenario_projects_depth_one() {
    let entries = vec![
        dir("/home/alice/projects", 0),
        dir("/home/alice/projects/app", 1),
        dir("/home/alice/projects/lib", 1),
    ];
    let resolved = resolve_root(&root("~/projects"), "/home/alice");
    let text = generate_script(&resolved, "/home/alice", "~", &entries, 1).unwrap();
    assert_eq!(
        text,
        "#!/bin/bash\n\nexport projects=\"~/projects\"\nexport app=\"$projects/app\"\nexport lib=\"$projects/lib\"\n"
    );
}

#[test]
fn scenario_projects_with_home_variable() {
    let entries = vec![dir("/home/alice/projects", 0), dir("/home/alice/projects/app", 1)];
    let text = generate_script("/home/alice/projects", "/home/alice", "$HOME", &entries, 1).unwrap();
    assert_eq!(text, "#!/bin/bash\n\nexport projects=\"$HOME/projects\"\nexport app=\"$projects/app\"\n");
}

#[test]
fn depth_zero_gives_root_only() {
    let entries = vec![dir("/home/alice/projects", 0), dir("/home/alice/projects/app", 1)];
    let text = generate_script("/home/alice/projects", "/home/alice", "~", &entries, 0).unwrap();
    assert_eq!(text.lines().filter(|l| l.starts_with("export ")).count(), 1);
    assert_eq!(text, "#!/bin/bash\n\nexport projects=\"~/projects\"\n");
}

#[test]
fn export_count_is_children_plus_one() {
    let entries = vec![
        dir("/srv/r", 0),
        dir("/srv/r/a", 1),
        dir("/srv/r/a/x", 2),
        dir("/srv/r/b", 1),
        file("/srv/r/b/f", 2),
    ];
    let text = generate_script("/srv/r", "/home/alice", "~", &entries, 2).unwrap();
    let lines: Vec<&str> = text.lines().collect();
    assert_eq!(lines[0], "#!/bin/bash");
    assert_eq!(lines[1], "");
    assert_eq!(lines.iter().filter(|l| l.starts_with("export ")).count(), 4);
    assert_eq!(lines[2], "export r=\"/srv/r\"");
    assert_eq!(lines[4], "export x=\"$a/x\"");
}

#[test]
fn same_inputs_same_script() {
    let entries = vec![dir("/srv/r", 0), dir("/srv/r/a", 1)];
    let first = generate_script("/srv/r", "/home/alice", "~", &entries, 1).unwrap();
    let second = generate_script("/srv/r", "/home/alice", "~", &entries, 1).unwrap();
    assert_eq!(first, second);
}

#[test]
fn colliding_names_are_kept_in_order() {
    let entries = vec![dir("/srv/r", 0), dir("/srv/r/a-b", 1), dir("/srv/r/ab", 1)];
    let text = generate_script("/srv/r", "/home/alice", "~", &entries, 1).unwrap();
    assert_eq!(
        text,
        "#!/bin/bash\n\nexport r=\"/srv/r\"\nexport ab=\"$r/a-b\"\nexport ab=\"$r/ab\"\n"
    );
}

#[test]
fn script_for_nameless_root_fails() {
    let entries = vec![dir("/", 0), dir("/usr", 1)];
    assert_eq!(generate_script("/", "/home/alice", "~", &entries, 1), Err(ShortcutError::NoDirectoryName));
}

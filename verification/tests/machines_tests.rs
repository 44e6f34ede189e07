use std::collections::BTreeMap;
use zkcli::client::{DeleteOutcome, ListOutcome, StatOutcome, UpdateOutcome};
use zkcli::commands::{cat_render, write_follow_up, CatOutput, WritePlan};
use zkcli::deleter::{DeleteAction, DeleteStep, RecursiveDeleter};
use zkcli::node::NodeStat;
use zkcli::order::sort_names;
use zkcli::walker::{TreeWalker, WalkAction, WalkOutput};

/// A fake remote tree: node path to payload; parenthood is by path prefix.
type Store = BTreeMap<String, Vec<u8>>;

fn store_of(paths: &[&str]) -> Store {
    paths.iter().map(|p| (p.to_string(), Vec::new())).collect()
}

fn children_of(store: &Store, path: &str) -> Vec<String> {
    let prefix = if path == "/" { "/".to_string() } else { format!("{}/", path) };
    let mut out = Vec::new();
    for k in store.keys() {
        if k.len() > prefix.len() && k.starts_with(&prefix) {
            let rest = &k[prefix.len()..];
            if !rest.contains('/') {
                out.push(rest.to_string());
            }
        }
    }
    out
}

fn stat_of(store: &Store, path: &str) -> Option<NodeStat> {
    store.get(path).map(|data| NodeStat {
        num_children: children_of(store, path).len() as u32,
        data_length: data.len() as u32,
        ephemeral: false,
    })
}

/// Drive a traversal against the fake store, as the command loop would.
fn run_walk(store: &Store, root: &str, recurse: bool) -> (Vec<(String, usize)>, Vec<String>) {
    let mut w = TreeWalker::new(root.to_string(), recurse);
    let mut lines = Vec::new();
    let mut skipped = Vec::new();
    loop {
        match w.current_action() {
            WalkAction::Done => return (lines, skipped),
            WalkAction::List { path } => {
                let outcome = if store.contains_key(&path) {
                    ListOutcome::Names(children_of(store, &path))
                } else {
                    ListOutcome::Absent
                };
                if let WalkOutput::Abort { path } = w.on_children(outcome) {
                    panic!("unexpected abort at {}", path);
                }
            }
            WalkAction::Stat { path } => {
                let outcome = match stat_of(store, &path) {
                    Some(st) => StatOutcome::Present(st),
                    None => StatOutcome::Absent,
                };
                match w.on_stat(outcome) {
                    WalkOutput::Line { entry, depth } => lines.push((entry.name, depth)),
                    WalkOutput::Skipped { path } => skipped.push(path),
                    WalkOutput::Abort { path } => panic!("unexpected abort at {}", path),
                    WalkOutput::Continue => {}
                }
            }
        }
    }
}

/// Drive a recursive delete against the fake store. The fake store refuses
/// to delete a node that still has children, exactly as the remote one
/// would, so this checks the post-order discipline for real.
fn run_delete(store: &mut Store, root: &str, deleted: &mut Vec<String>) -> Result<(), String> {
    let mut d = RecursiveDeleter::new(root.to_string());
    loop {
        match d.current_action() {
            DeleteAction::Done => return Ok(()),
            DeleteAction::List { path } => {
                let outcome = if store.contains_key(&path) {
                    ListOutcome::Names(children_of(store, &path))
                } else {
                    ListOutcome::Absent
                };
                if let DeleteStep::Abort { path } = d.on_children(outcome) {
                    return Err(path);
                }
            }
            DeleteAction::Delete { path } => {
                let outcome = if !store.contains_key(&path) {
                    DeleteOutcome::Absent
                } else if !children_of(store, &path).is_empty() {
                    DeleteOutcome::Failed
                } else {
                    store.remove(&path);
                    deleted.push(path.clone());
                    DeleteOutcome::Deleted
                };
                if let DeleteStep::Abort { path } = d.on_deleted(outcome) {
                    return Err(path);
                }
            }
        }
    }
}

/// Write-or-create against the fake store, as the write command would.
fn do_write(store: &mut Store, path: &str, content: &[u8], force: bool) -> Result<(), String> {
    let update = if store.contains_key(path) {
        store.insert(path.to_string(), content.to_vec());
        UpdateOutcome::Updated
    } else {
        UpdateOutcome::Absent
    };
    match write_follow_up(update, force) {
        WritePlan::Done => Ok(()),
        WritePlan::CreateAsPersistent => {
            store.insert(path.to_string(), content.to_vec());
            Ok(())
        }
        WritePlan::FailAbsent => Err(format!("{}: node does not exist", path)),
        WritePlan::FailOther => Err(format!("{}: update failed", path)),
    }
}

#[test]
fn walker_visits_children_sorted_and_preorder() {
    let mut w = TreeWalker::new("/".to_string(), true);

    match w.current_action() {
        WalkAction::List { path } => assert_eq!(path, "/"),
        other => panic!("expected a list action, got {:?}", other),
    }
    // Remote enumeration order is arbitrary; the walker must sort.
    w.on_children(ListOutcome::Names(vec!["b".to_string(), "a".to_string()]));

    match w.current_action() {
        WalkAction::Stat { path } => assert_eq!(path, "/a"),
        other => panic!("expected a stat action, got {:?}", other),
    }
    let parent = NodeStat { num_children: 1, data_length: 0, ephemeral: false };
    let leaf = NodeStat { num_children: 0, data_length: 0, ephemeral: false };
    match w.on_stat(StatOutcome::Present(parent)) {
        WalkOutput::Line { entry, depth } => {
            assert_eq!(entry.name, "a");
            assert_eq!(depth, 1);
        }
        other => panic!("expected a line, got {:?}", other),
    }

    // Pre-order: the subtree of `a` comes before the sibling `b`.
    match w.current_action() {
        WalkAction::List { path } => assert_eq!(path, "/a"),
        other => panic!("expected a list action, got {:?}", other),
    }
    w.on_children(ListOutcome::Names(vec!["c".to_string()]));
    match w.current_action() {
        WalkAction::Stat { path } => assert_eq!(path, "/a/c"),
        other => panic!("expected a stat action, got {:?}", other),
    }
    match w.on_stat(StatOutcome::Present(leaf)) {
        WalkOutput::Line { entry, depth } => {
            assert_eq!(entry.name, "c");
            assert_eq!(depth, 2);
        }
        other => panic!("expected a line, got {:?}", other),
    }

    match w.current_action() {
        WalkAction::Stat { path } => assert_eq!(path, "/b"),
        other => panic!("expected a stat action, got {:?}", other),
    }
    match w.on_stat(StatOutcome::Present(leaf)) {
        WalkOutput::Line { entry, depth } => {
            assert_eq!(entry.name, "b");
            assert_eq!(depth, 1);
        }
        other => panic!("expected a line, got {:?}", other),
    }

    assert!(matches!(w.current_action(), WalkAction::Done));
}

#[test]
fn walker_listing_is_independent_of_enumeration_order() {
    let orders = [vec!["m", "k", "z"], vec!["z", "m", "k"], vec!["k", "z", "m"]];
    let mut seen = Vec::new();
    for order in &orders {
        let mut w = TreeWalker::new("/".to_string(), false);
        w.on_children(ListOutcome::Names(order.iter().map(|s| s.to_string()).collect()));
        let mut paths = Vec::new();
        while let WalkAction::Stat { path } = w.current_action() {
            paths.push(path);
            let leaf = NodeStat { num_children: 0, data_length: 0, ephemeral: false };
            w.on_stat(StatOutcome::Present(leaf));
        }
        seen.push(paths);
    }
    assert_eq!(seen[0], vec!["/k", "/m", "/z"]);
    assert_eq!(seen[0], seen[1]);
    assert_eq!(seen[1], seen[2]);
}

#[test]
fn walker_without_recursion_stays_on_one_level() {
    let store = store_of(&["/", "/a", "/a/deep", "/b"]);
    let (lines, skipped) = run_walk(&store, "/", false);
    let names: Vec<&str> = lines.iter().map(|(n, _)| n.as_str()).collect();
    assert_eq!(names, vec!["a", "b"]);
    assert!(lines.iter().all(|(_, depth)| *depth == 1));
    assert!(skipped.is_empty());
}

#[test]
fn walker_full_tree_is_depth_first() {
    let store = store_of(&["/", "/x", "/x/p", "/x/q", "/y"]);
    let (lines, skipped) = run_walk(&store, "/", true);
    let flat: Vec<(&str, usize)> = lines.iter().map(|(n, d)| (n.as_str(), *d)).collect();
    assert_eq!(flat, vec![("x", 1), ("p", 2), ("q", 2), ("y", 1)]);
    assert!(skipped.is_empty());
}

#[test]
fn walker_skips_child_that_vanished_between_list_and_stat() {
    let mut w = TreeWalker::new("/".to_string(), true);
    w.on_children(ListOutcome::Names(vec!["gone".to_string(), "still".to_string()]));

    match w.current_action() {
        WalkAction::Stat { path } => assert_eq!(path, "/gone"),
        other => panic!("expected a stat action, got {:?}", other),
    }
    match w.on_stat(StatOutcome::Absent) {
        WalkOutput::Skipped { path } => assert_eq!(path, "/gone"),
        other => panic!("expected a skip, got {:?}", other),
    }

    // The race must not disturb the sibling.
    match w.current_action() {
        WalkAction::Stat { path } => assert_eq!(path, "/still"),
        other => panic!("expected a stat action, got {:?}", other),
    }
}

#[test]
fn walker_aborts_on_other_stat_failure() {
    let mut w = TreeWalker::new("/".to_string(), true);
    w.on_children(ListOutcome::Names(vec!["bad".to_string(), "rest".to_string()]));
    match w.current_action() {
        WalkAction::Stat { path } => assert_eq!(path, "/bad"),
        other => panic!("expected a stat action, got {:?}", other),
    }
    match w.on_stat(StatOutcome::Failed) {
        WalkOutput::Abort { path } => assert_eq!(path, "/bad"),
        other => panic!("expected an abort, got {:?}", other),
    }
    assert!(matches!(w.current_action(), WalkAction::Done));
}

#[test]
fn delete_tree_removes_entire_subtree() {
    let mut store = store_of(&["/", "/a", "/a/b", "/a/b/c", "/keep"]);
    let mut deleted = Vec::new();
    let r = run_delete(&mut store, "/a", &mut deleted);
    assert_eq!(r, Ok(()));
    assert!(!store.contains_key("/a"));
    assert!(!store.contains_key("/a/b"));
    assert!(!store.contains_key("/a/b/c"));
    assert!(store.contains_key("/keep"));
    // Post-order: every node only after its whole subtree.
    assert_eq!(deleted, vec!["/a/b/c", "/a/b", "/a"]);
}

#[test]
fn delete_tolerates_concurrent_removal_of_a_child() {
    let mut d = RecursiveDeleter::new("/a".to_string());
    match d.current_action() {
        DeleteAction::List { path } => assert_eq!(path, "/a"),
        other => panic!("expected a list action, got {:?}", other),
    }
    d.on_children(ListOutcome::Names(vec!["b".to_string()]));

    // `/a/b` is removed by a concurrent actor after the listing.
    match d.current_action() {
        DeleteAction::List { path } => assert_eq!(path, "/a/b"),
        other => panic!("expected a list action, got {:?}", other),
    }
    assert!(matches!(d.on_children(ListOutcome::Absent), DeleteStep::Continue));

    match d.current_action() {
        DeleteAction::Delete { path } => assert_eq!(path, "/a"),
        other => panic!("expected a delete action, got {:?}", other),
    }
    assert!(matches!(d.on_deleted(DeleteOutcome::Deleted), DeleteStep::Continue));
    assert!(matches!(d.current_action(), DeleteAction::Done));
}

#[test]
fn delete_treats_already_gone_target_as_satisfied() {
    let mut store = store_of(&["/", "/other"]);
    let mut deleted = Vec::new();
    let r = run_delete(&mut store, "/missing", &mut deleted);
    assert_eq!(r, Ok(()));
    assert!(deleted.is_empty());
}

#[test]
fn delete_aborts_on_other_failure() {
    let mut d = RecursiveDeleter::new("/a".to_string());
    match d.on_children(ListOutcome::Failed) {
        DeleteStep::Abort { path } => assert_eq!(path, "/a"),
        other => panic!("expected an abort, got {:?}", other),
    }
    assert!(matches!(d.current_action(), DeleteAction::Done));
}

#[test]
fn end_to_end_create_then_cat_yields_content() {
    let mut store = store_of(&["/"]);
    // create /x hello
    store.insert("/x".to_string(), b"hello".to_vec());
    // cat /x
    match cat_render(store.get("/x").unwrap().clone(), false) {
        CatOutput::Text(s) => assert_eq!(s, "hello"),
        other => panic!("expected text output, got {:?}", other),
    }
}

#[test]
fn end_to_end_forced_write_creates_missing_node() {
    let mut store = store_of(&["/"]);
    assert_eq!(write_follow_up(UpdateOutcome::Absent, true), WritePlan::CreateAsPersistent);
    assert_eq!(do_write(&mut store, "/x", b"world", true), Ok(()));
    assert_eq!(store.get("/x").map(|b| b.as_slice()), Some(&b"world"[..]));
    // Without force the same write must fail and create nothing.
    assert!(do_write(&mut store, "/y", b"nope", false).is_err());
    assert!(!store.contains_key("/y"));
}

#[test]
fn end_to_end_recursive_rm_clears_the_listing() {
    let mut store = store_of(&["/", "/a", "/a/m", "/a/m/deep", "/a/n", "/z"]);
    let mut deleted = Vec::new();
    assert_eq!(run_delete(&mut store, "/a", &mut deleted), Ok(()));
    let mut ls_root = children_of(&store, "/");
    sort_names(&mut ls_root);
    assert_eq!(ls_root, vec!["z"]);
}

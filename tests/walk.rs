use std::collections::BTreeMap;

use sbs::materialize::{Materializer, MkdirAction, RemoteKind, REMOTE_MODE};
use sbs::walk::{remote_dir_decision, DirDecision, LocalEntry, RemoteEntry, SyncStep, TreeWalk};

#[derive(Clone, Debug, PartialEq)]
enum Node {
    Dir,
    File(Vec<u8>),
}

type Fs = BTreeMap<String, Node>;

fn kind(fs: &Fs, p: &str) -> RemoteKind {
    match fs.get(p) {
        None => RemoteKind::Missing,
        Some(Node::Dir) => RemoteKind::Directory,
        Some(Node::File(_)) => RemoteKind::File,
    }
}

/// Direct children of `dir`, in name order, as (name, node).
fn children(fs: &Fs, dir: &str) -> Vec<(String, Node)> {
    let prefix = format!("{}/", dir);
    fs.iter()
        .filter_map(|(k, v)| {
            let rest = k.strip_prefix(&prefix)?;
            if rest.is_empty() || rest.contains('/') {
                None
            } else {
                Some((rest.to_string(), v.clone()))
            }
        })
        .collect()
}

fn materialize(path: &str, fs: &mut Fs) -> Result<(), String> {
    let mut m = Materializer::new(path);
    loop {
        match m.next_action() {
            MkdirAction::Stat(p) => {
                let k = kind(fs, &p);
                m.on_stat(k);
            }
            MkdirAction::Create(p, _) => {
                fs.insert(p, Node::Dir);
                m.on_created();
            }
            MkdirAction::Done => return Ok(()),
            MkdirAction::Conflict(p) => return Err(format!("conflict at {}", p)),
        }
    }
}

/// Pushes `local` to `remote`; `fail_on` names a remote file whose transfer fails.
/// Returns the remote files written, in order.
fn push(local_fs: &Fs, remote_fs: &mut Fs, local: &str, remote: &str, fail_on: Option<&str>) -> Result<Vec<String>, String> {
    let mut walk = TreeWalk::new(local, remote);
    let mut sent = Vec::new();
    while let Some(step) = walk.next_step() {
        let outcome = match step {
            SyncStep::Visit { local, remote } => {
                if local_fs.get(&local) != Some(&Node::Dir) {
                    Err(format!("not found: {}", local))
                } else {
                    let ready = match remote_dir_decision(kind(remote_fs, &remote)) {
                        DirDecision::Proceed => Ok(()),
                        DirDecision::Create => materialize(&remote, remote_fs),
                        DirDecision::Conflict => Err(format!("conflict at {}", remote)),
                    };
                    ready.map(|_| {
                        let listing: Vec<LocalEntry> = children(local_fs, &local)
                            .into_iter()
                            .map(|(name, node)| LocalEntry { name, is_dir: node == Node::Dir })
                            .collect();
                        walk.expand_push(&local, &remote, &listing);
                    })
                }
            }
            SyncStep::Send { local, remote, mode } => {
                assert_eq!(mode, REMOTE_MODE);
                if Some(remote.as_str()) == fail_on {
                    Err(format!("transfer failed: {}", remote))
                } else {
                    match local_fs.get(&local) {
                        Some(Node::File(bytes)) => {
                            remote_fs.insert(remote.clone(), Node::File(bytes.clone()));
                            sent.push(remote);
                            Ok(())
                        }
                        _ => Err(format!("not found: {}", local)),
                    }
                }
            }
            SyncStep::Fetch { .. } => panic!("a push never fetches"),
        };
        if let Err(e) = outcome {
            walk.fail();
            assert!(walk.is_stopped());
            assert!(walk.next_step().is_none());
            return Err(e);
        }
    }
    Ok(sent)
}

fn pull(remote_fs: &Fs, local_fs: &mut Fs, local: &str, remote: &str) -> Result<(), String> {
    let mut walk = TreeWalk::new(local, remote);
    while let Some(step) = walk.next_step() {
        match step {
            SyncStep::Visit { local, remote } => {
                local_fs.insert(local.clone(), Node::Dir);
                let listing: Vec<RemoteEntry> = children(remote_fs, &remote)
                    .into_iter()
                    .map(|(name, node)| RemoteEntry {
                        path: format!("{}/{}", remote, name),
                        is_dir: node == Node::Dir,
                    })
                    .collect();
                walk.expand_pull(&local, &remote, &listing);
            }
            SyncStep::Fetch { remote, local } => match remote_fs.get(&remote) {
                Some(Node::File(bytes)) => {
                    local_fs.insert(local, Node::File(bytes.clone()));
                }
                _ => return Err(format!("missing remote file {}", remote)),
            },
            SyncStep::Send { .. } => panic!("a pull never sends"),
        }
    }
    Ok(())
}

fn sample_tree() -> Fs {
    let mut fs = Fs::new();
    fs.insert("proj".to_string(), Node::Dir);
    fs.insert("proj/Cargo.toml".to_string(), Node::File(b"[package]\n".to_vec()));
    fs.insert("proj/src".to_string(), Node::Dir);
    fs.insert("proj/src/main.rs".to_string(), Node::File(b"fn main() {}\n".to_vec()));
    fs.insert("proj/src/empty".to_string(), Node::Dir);
    fs.insert("proj/zero".to_string(), Node::File(Vec::new()));
    fs
}

fn relocate(fs: &Fs, from: &str, to: &str) -> Fs {
    fs.iter()
        .filter_map(|(k, v)| {
            if k == from {
                Some((to.to_string(), v.clone()))
            } else {
                k.strip_prefix(&format!("{}/", from)).map(|rest| (format!("{}/{}", to, rest), v.clone()))
            }
        })
        .collect()
}

#[test]
fn push_then_pull_gives_the_same_tree() {
    let local = sample_tree();
    let mut remote = Fs::new();
    push(&local, &mut remote, "proj", "/srv/build", None).unwrap();
    assert_eq!(relocate(&remote, "/srv/build", "proj"), local);
    let mut back = Fs::new();
    pull(&remote, &mut back, "copy", "/srv/build").unwrap();
    assert_eq!(relocate(&back, "copy", "proj"), local);
}

#[test]
fn push_creates_empty_directory_and_zero_length_file() {
    let mut local = Fs::new();
    local.insert("d".to_string(), Node::Dir);
    local.insert("d/empty".to_string(), Node::Dir);
    local.insert("d/nothing".to_string(), Node::File(Vec::new()));
    let mut remote = Fs::new();
    push(&local, &mut remote, "d", "r", None).unwrap();
    assert_eq!(remote.get("r/empty"), Some(&Node::Dir));
    assert_eq!(remote.get("r/nothing"), Some(&Node::File(Vec::new())));
}

#[test]
fn empty_directory_and_zero_length_file_steps() {
    let mut walk = TreeWalk::new("d", "r");
    match walk.next_step() {
        Some(SyncStep::Visit { local, remote }) => {
            assert_eq!(local, "d");
            assert_eq!(remote, "r");
        }
        other => panic!("unexpected {:?}", other),
    }
    let listing = vec![
        LocalEntry { name: "empty".to_string(), is_dir: true },
        LocalEntry { name: "nothing".to_string(), is_dir: false },
    ];
    walk.expand_push("d", "r", &listing);
    match walk.next_step() {
        Some(SyncStep::Visit { local, remote }) => {
            assert_eq!(local, "d/empty");
            assert_eq!(remote, "r/empty");
        }
        other => panic!("unexpected {:?}", other),
    }
    walk.expand_push("d/empty", "r/empty", &Vec::new());
    match walk.next_step() {
        Some(SyncStep::Send { local, remote, mode }) => {
            assert_eq!(local, "d/nothing");
            assert_eq!(remote, "r/nothing");
            assert_eq!(mode, 0o755);
        }
        other => panic!("unexpected {:?}", other),
    }
    assert!(walk.next_step().is_none());
}

#[test]
fn failed_transfer_stops_before_next_child() {
    let mut local = Fs::new();
    local.insert("d".to_string(), Node::Dir);
    local.insert("d/x".to_string(), Node::File(b"1".to_vec()));
    local.insert("d/y".to_string(), Node::File(b"2".to_vec()));
    local.insert("d/z".to_string(), Node::File(b"3".to_vec()));
    let mut remote = Fs::new();
    let err = push(&local, &mut remote, "d", "r", Some("r/y")).unwrap_err();
    assert_eq!(err, "transfer failed: r/y");
    assert_eq!(remote.get("r/x"), Some(&Node::File(b"1".to_vec())));
    assert!(!remote.contains_key("r/y"));
    assert!(!remote.contains_key("r/z"));
}

#[test]
fn stopped_walk_hands_out_nothing() {
    let mut walk = TreeWalk::new("d", "r");
    walk.next_step();
    let listing = vec![
        LocalEntry { name: "x".to_string(), is_dir: false },
        LocalEntry { name: "y".to_string(), is_dir: false },
        LocalEntry { name: "z".to_string(), is_dir: false },
    ];
    walk.expand_push("d", "r", &listing);
    match walk.next_step() {
        Some(SyncStep::Send { remote, .. }) => assert_eq!(remote, "r/x"),
        other => panic!("unexpected {:?}", other),
    }
    match walk.next_step() {
        Some(SyncStep::Send { remote, .. }) => assert_eq!(remote, "r/y"),
        other => panic!("unexpected {:?}", other),
    }
    walk.fail();
    assert!(walk.next_step().is_none());
    walk.expand_push("d", "r", &listing);
    assert!(walk.next_step().is_none());
}

#[test]
fn push_into_file_is_a_conflict() {
    let mut local = Fs::new();
    local.insert("d".to_string(), Node::Dir);
    local.insert("d/x".to_string(), Node::File(b"1".to_vec()));
    let mut remote = Fs::new();
    remote.insert("r".to_string(), Node::File(b"old".to_vec()));
    let err = push(&local, &mut remote, "d", "r", None).unwrap_err();
    assert_eq!(err, "conflict at r");
    assert!(!remote.contains_key("r/x"));
    let mut remote2 = Fs::new();
    remote2.insert("a".to_string(), Node::File(Vec::new()));
    let err2 = push(&local, &mut remote2, "d", "a/b", None).unwrap_err();
    assert_eq!(err2, "conflict at a");
    assert_eq!(remote2.len(), 1);
}

#[test]
fn push_of_missing_local_directory_is_not_found() {
    let local = Fs::new();
    let mut remote = Fs::new();
    let err = push(&local, &mut remote, "nowhere", "r", None).unwrap_err();
    assert_eq!(err, "not found: nowhere");
}

#[test]
fn remote_directory_decisions() {
    assert_eq!(remote_dir_decision(RemoteKind::Directory), DirDecision::Proceed);
    assert_eq!(remote_dir_decision(RemoteKind::Missing), DirDecision::Create);
    assert_eq!(remote_dir_decision(RemoteKind::File), DirDecision::Conflict);
}

#[test]
fn pull_skips_entries_without_a_name() {
    let mut walk = TreeWalk::new("l", "r");
    walk.next_step();
    let listing = vec![
        RemoteEntry { path: "r/..".to_string(), is_dir: true },
        RemoteEntry { path: "r/.".to_string(), is_dir: true },
        RemoteEntry { path: "/".to_string(), is_dir: false },
        RemoteEntry { path: "r/bin".to_string(), is_dir: false },
        RemoteEntry { path: "r/deps".to_string(), is_dir: true },
    ];
    walk.expand_pull("l", "r", &listing);
    match walk.next_step() {
        Some(SyncStep::Fetch { remote, local }) => {
            assert_eq!(remote, "r/bin");
            assert_eq!(local, "l/bin");
        }
        other => panic!("unexpected {:?}", other),
    }
    match walk.next_step() {
        Some(SyncStep::Visit { local, remote }) => {
            assert_eq!(local, "l/deps");
            assert_eq!(remote, "r/deps");
        }
        other => panic!("unexpected {:?}", other),
    }
    assert!(walk.next_step().is_none());
}

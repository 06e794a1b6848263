use registry_index::config::Config;
use registry_index::datasource::git::{
    is_hidden, load_order, same_tip, GitDataSource, ResourceKind, UpdateAction, UpdateEvent,
};
use registry_index::datasource::{apply, load, refresh, DataSource, LoadError, RefreshOutcome};
use registry_index::resource::autnum::Autnum;
use registry_index::resource::Resource;
use registry_index::store::memory::MemoryStore;
use registry_index::store::Store;

fn source() -> GitDataSource {
    let mut config = Config::with_defaults("https://example.org/registry.git".to_string(), 8080);
    config.git_branch = "master".to_string();
    config.git_path = "/var/lib/registry".to_string();
    GitDataSource::new(config)
}

fn autnum(key: &str, name: &str) -> Resource {
    Resource::Autnum(Autnum {
        autnum: key.to_string(),
        name: name.to_string(),
        description: None,
    })
}

fn tip(text: &str) -> Option<String> {
    Some(text.to_string())
}

/// A source that follows a scripted upstream: the commit of the upstream, the
/// commit of the mirror, and whether the objects can be read.
struct Scripted {
    decisions: GitDataSource,
    upstream: String,
    mirror: Option<String>,
    fetch_ok: bool,
    readable: bool,
    rebuilds: usize,
}

impl Scripted {
    fn new(upstream: &str) -> Self {
        Scripted {
            decisions: source(),
            upstream: upstream.to_string(),
            mirror: None,
            fetch_ok: true,
            readable: true,
            rebuilds: 0,
        }
    }
}

impl DataSource for Scripted {
    fn update(&mut self) -> bool {
        let mut event = UpdateEvent::Probed {
            mirror_present: self.mirror.is_some(),
        };
        loop {
            match self.decisions.next(event) {
                UpdateAction::CloneMirror => {
                    self.mirror = Some(self.upstream.clone());
                    event = UpdateEvent::Cloned;
                }
                UpdateAction::Fetch => {
                    event = UpdateEvent::Fetched { ok: self.fetch_ok };
                }
                UpdateAction::ReadTips => {
                    event = UpdateEvent::Tips {
                        local: self.mirror.clone(),
                        fetched: Some(self.upstream.clone()),
                    };
                }
                UpdateAction::AdvanceTo(tip) => {
                    self.mirror = Some(tip);
                    event = UpdateEvent::Advanced;
                }
                UpdateAction::Finish { changed } => return changed,
            }
        }
    }

    fn get_resources(&self) -> Result<Vec<Resource>, LoadError> {
        if self.readable {
            Ok(vec![autnum("AS1", self.mirror.as_ref().unwrap())])
        } else {
            Err(LoadError {
                path: "autnum/AS1".to_string(),
                message: "not an object".to_string(),
            })
        }
    }
}

#[test]
fn directories_in_the_order_of_loading() {
    let order = load_order();
    assert_eq!(
        order,
        vec![
            ResourceKind::Autnum,
            ResourceKind::Domain,
            ResourceKind::Inetnum,
            ResourceKind::Inet6num,
            ResourceKind::Route,
            ResourceKind::Route6,
        ]
    );
    let names: Vec<&str> = order.iter().map(|k| k.directory()).collect();
    assert_eq!(
        names,
        vec!["autnum", "domain", "inetnum", "inet6num", "route", "route6"]
    );
}

#[test]
fn hidden_files_begin_with_a_dot() {
    assert!(is_hidden(".gitkeep"));
    assert!(is_hidden("."));
    assert!(is_hidden(".."));
    assert!(!is_hidden("AS64601"));
    assert!(!is_hidden("10.0.0.0_8"));
    assert!(!is_hidden("a.b"));
    assert!(!is_hidden(""));
}

#[test]
fn the_source_that_the_options_name() {
    let s = source();
    assert_eq!(s.git_path, "/var/lib/registry");
    assert_eq!(s.git_branch, "master");
    assert_eq!(s.git_repo, "https://example.org/registry.git");
    assert_eq!(s.ref_name(), "refs/heads/master");
}

#[test]
fn commits_are_compared() {
    assert!(same_tip(&None, &None));
    assert!(same_tip(&tip("abc"), &tip("abc")));
    assert!(!same_tip(&tip("abc"), &tip("abd")));
    assert!(!same_tip(&tip("abc"), &None));
    assert!(!same_tip(&None, &tip("abc")));
}

#[test]
fn steps_of_an_update() {
    let s = source();
    assert!(matches!(
        s.next(UpdateEvent::Probed { mirror_present: false }),
        UpdateAction::CloneMirror
    ));
    assert!(matches!(
        s.next(UpdateEvent::Probed { mirror_present: true }),
        UpdateAction::Fetch
    ));
    assert!(matches!(
        s.next(UpdateEvent::Cloned),
        UpdateAction::Finish { changed: true }
    ));
    assert!(matches!(
        s.next(UpdateEvent::Fetched { ok: false }),
        UpdateAction::Finish { changed: false }
    ));
    assert!(matches!(
        s.next(UpdateEvent::Fetched { ok: true }),
        UpdateAction::ReadTips
    ));
    assert!(matches!(
        s.next(UpdateEvent::Tips {
            local: tip("abc"),
            fetched: tip("abc")
        }),
        UpdateAction::Finish { changed: false }
    ));
    assert!(matches!(
        s.next(UpdateEvent::Tips {
            local: None,
            fetched: None
        }),
        UpdateAction::Finish { changed: false }
    ));
    match s.next(UpdateEvent::Tips {
        local: tip("abc"),
        fetched: tip("def"),
    }) {
        UpdateAction::AdvanceTo(to) => assert_eq!(to, "def"),
        other => panic!("an advance was expected, not {:?}", other),
    }
    match s.next(UpdateEvent::Tips {
        local: None,
        fetched: tip("def"),
    }) {
        UpdateAction::AdvanceTo(to) => assert_eq!(to, "def"),
        other => panic!("an advance was expected, not {:?}", other),
    }
    assert!(matches!(
        s.next(UpdateEvent::Advanced),
        UpdateAction::Finish { changed: true }
    ));
}

#[test]
fn a_refresh_without_a_change_upstream_rebuilds_nothing() {
    let mut scripted = Scripted::new("c1");
    let mut store = MemoryStore::new();
    for _ in 0..3 {
        if let RefreshOutcome::Rebuilt = refresh(&mut scripted, &mut store) {
            scripted.rebuilds += 1;
        }
    }
    assert_eq!(scripted.rebuilds, 1);
    assert_eq!(store.get_autnum("AS1".to_string()).unwrap().name, "c1");
    scripted.upstream = "c2".to_string();
    assert!(matches!(
        refresh(&mut scripted, &mut store),
        RefreshOutcome::Rebuilt
    ));
    assert!(matches!(
        refresh(&mut scripted, &mut store),
        RefreshOutcome::Unchanged
    ));
    assert_eq!(store.get_autnum("AS1".to_string()).unwrap().name, "c2");
}

#[test]
fn a_failed_fetch_changes_nothing() {
    let mut scripted = Scripted::new("c1");
    let mut store = MemoryStore::new();
    assert!(matches!(
        refresh(&mut scripted, &mut store),
        RefreshOutcome::Rebuilt
    ));
    scripted.upstream = "c2".to_string();
    scripted.fetch_ok = false;
    assert!(matches!(
        refresh(&mut scripted, &mut store),
        RefreshOutcome::Unchanged
    ));
    assert_eq!(store.get_autnum("AS1".to_string()).unwrap().name, "c1");
    scripted.fetch_ok = true;
    assert!(matches!(
        refresh(&mut scripted, &mut store),
        RefreshOutcome::Rebuilt
    ));
    assert_eq!(store.get_autnum("AS1".to_string()).unwrap().name, "c2");
}

#[test]
fn objects_that_cannot_be_loaded_leave_the_snapshot_in_place() {
    let mut scripted = Scripted::new("c1");
    let mut store = MemoryStore::new();
    assert!(matches!(
        load(&mut scripted, &mut store),
        RefreshOutcome::Rebuilt
    ));
    scripted.upstream = "c2".to_string();
    scripted.readable = false;
    match refresh(&mut scripted, &mut store) {
        RefreshOutcome::Failed(e) => {
            assert_eq!(e.path, "autnum/AS1");
            assert_eq!(e.message, "not an object");
        }
        other => panic!("a failure was expected, not {:?}", other),
    }
    assert!(store.is_ready());
    assert_eq!(store.get_autnum("AS1".to_string()).unwrap().name, "c1");
}

#[test]
fn the_first_load_publishes_whether_the_source_changed_or_not() {
    let mut scripted = Scripted::new("c1");
    scripted.mirror = Some("c1".to_string());
    let mut store = MemoryStore::new();
    assert!(!store.is_ready());
    assert!(matches!(
        load(&mut scripted, &mut store),
        RefreshOutcome::Rebuilt
    ));
    assert!(store.is_ready());
    let mut unreadable = Scripted::new("c1");
    unreadable.readable = false;
    let mut empty = MemoryStore::new();
    assert!(matches!(
        load(&mut unreadable, &mut empty),
        RefreshOutcome::Failed(_)
    ));
    assert!(!empty.is_ready());
}

#[test]
fn the_end_of_a_refresh() {
    let mut store = MemoryStore::new();
    assert!(matches!(
        apply(&mut store, false, Ok(vec![autnum("AS1", "one")])),
        RefreshOutcome::Unchanged
    ));
    assert!(!store.is_ready());
    assert!(matches!(
        apply(
            &mut store,
            false,
            Err(LoadError {
                path: String::new(),
                message: String::new()
            })
        ),
        RefreshOutcome::Unchanged
    ));
    assert!(matches!(
        apply(&mut store, true, Ok(vec![autnum("AS1", "one")])),
        RefreshOutcome::Rebuilt
    ));
    assert!(store.is_ready());
    assert_eq!(store.get_autnum("AS1".to_string()).unwrap().name, "one");
    assert!(matches!(
        apply(
            &mut store,
            true,
            Err(LoadError {
                path: "p".to_string(),
                message: "m".to_string()
            })
        ),
        RefreshOutcome::Failed(_)
    ));
    assert_eq!(store.get_autnum("AS1".to_string()).unwrap().name, "one");
}

use stick::penv::{ancestor_dirs, join, parent_of, Environment, Probe};

fn probe(is_dir: bool, has_marker: bool) -> Probe {
    Probe { is_dir, has_marker }
}

#[test]
fn parents() {
    assert_eq!(parent_of("/a/b"), Some("/a".to_owned()));
    assert_eq!(parent_of("/a"), Some("/".to_owned()));
    assert_eq!(parent_of("/"), None);
    assert_eq!(parent_of("a"), None);
    assert_eq!(parent_of("a/b"), Some("a".to_owned()));
}

#[test]
fn ancestors_up_to_root() {
    assert_eq!(ancestor_dirs("/a/b"), vec!["/a/b".to_owned(), "/a".to_owned(), "/".to_owned()]);
    assert_eq!(ancestor_dirs("/"), vec!["/".to_owned()]);
}

#[test]
fn joins() {
    assert_eq!(join("/p", "issues"), "/p/issues");
    assert_eq!(join("/p/", "issues"), "/p/issues");
    assert_eq!(join("", "issues"), "issues");
    assert_eq!(join("/p", "/abs"), "/abs");
}

#[test]
fn locate_nearest_marker() {
    let probes = vec![probe(true, false), probe(true, true), probe(true, true)];
    let env = Environment::from_path("/a/b", &probes).expect("a project");
    assert_eq!(env.root(), "/a");
    assert_eq!(env.issues_dir(), "/a/issues");
    assert_eq!(env.state_dir("done"), "/a/state/done");
}

#[test]
fn locate_at_start() {
    let probes = vec![probe(true, true)];
    let env = Environment::from_path("/a/b", &probes).expect("a project");
    assert_eq!(env.root(), "/a/b");
}

#[test]
fn locate_none_without_marker() {
    let probes = vec![probe(true, false), probe(true, false), probe(true, false)];
    assert!(Environment::from_path("/a/b", &probes).is_none());
}

#[test]
fn locate_none_when_not_a_directory() {
    let probes = vec![probe(false, true)];
    assert!(Environment::from_path("/a/b", &probes).is_none());
    assert!(Environment::from_path("/a/b", &Vec::new()).is_none());
}

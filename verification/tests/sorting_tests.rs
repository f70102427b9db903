use git_master::models::{RemoteStatus, RepoInfo};
use git_master::sorting::{sort_names, sort_repos, sort_statuses};

fn repo(name: &str) -> RepoInfo {
    RepoInfo {
        name: name.to_string(),
        path: format!("/repos/{name}"),
        is_dirty: false,
        current_branch: "main".to_string(),
        submodules: Vec::new(),
        remote_statuses: Vec::new(),
    }
}

#[test]
fn repositories_are_listed_alphabetically_ignoring_case() {
    let sorted = sort_repos(vec![repo("zeta"), repo("Alpha"), repo("beta"), repo("alpha")]);
    let names: Vec<&str> = sorted.iter().map(|r| r.name.as_str()).collect();
    assert_eq!(names, ["Alpha", "alpha", "beta", "zeta"]);
}

#[test]
fn branch_names_sort_stably_by_lowercase() {
    let names = vec!["main".to_string(), "Dev".to_string(), "dev".to_string(), "MAIN".to_string(), "b".to_string()];
    assert_eq!(sort_names(names), vec!["b", "Dev", "dev", "main", "MAIN"]);
    assert_eq!(sort_names(Vec::new()), Vec::<String>::new());
}

#[test]
fn remote_statuses_sort_by_remote_name() {
    let statuses = vec![
        RemoteStatus { name: "upstream".to_string(), counts: None },
        RemoteStatus { name: "a-broken".to_string(), counts: None },
        RemoteStatus { name: "Origin".to_string(), counts: Some((0, 0)) },
    ];
    let sorted = sort_statuses(statuses);
    let names: Vec<&str> = sorted.iter().map(|s| s.name.as_str()).collect();
    assert_eq!(names, ["a-broken", "Origin", "upstream"]);
}

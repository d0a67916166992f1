use shinkuro::git::{get_local_cache_path, parse_git_url};

#[test]
fn test_parse_https_git_url() {
    let url = "https://github.com/owner/repo.git";
    let (owner, name) = parse_git_url(url).unwrap();
    assert_eq!(owner, "owner");
    assert_eq!(name, "repo");
}

#[test]
fn test_parse_ssh_git_url() {
    let url = "git@github.com:owner/repo.git";
    let (owner, name) = parse_git_url(url).unwrap();
    assert_eq!(owner, "owner");
    assert_eq!(name, "repo");
}

#[test]
fn https_without_suffix_and_deeper_path() {
    let (owner, name) = parse_git_url("http://gitlab.com/group/project/tree/main").unwrap();
    assert_eq!(owner, "group");
    assert_eq!(name, "project");
}

#[test]
fn repeated_git_suffix_is_stripped() {
    let (owner, name) = parse_git_url("https://host/o/r.git.git").unwrap();
    assert_eq!(owner, "o");
    assert_eq!(name, "r");
}

#[test]
fn unusable_urls_are_rejected() {
    assert!(parse_git_url("https://github.com/onlyowner").is_err());
    assert!(parse_git_url("not a url").is_err());
    assert!(parse_git_url("git@github.com").is_err());
    assert!(parse_git_url("ftp://host/owner/repo").is_err());
}

#[test]
fn cache_path_layout() {
    let p = get_local_cache_path("https://github.com/owner/repo.git", "/tmp/cache").unwrap();
    assert_eq!(p, "/tmp/cache/git/owner/repo");
    let p = get_local_cache_path("git@github.com:owner/repo.git", "/tmp/cache/").unwrap();
    assert_eq!(p, "/tmp/cache/git/owner/repo");
    assert!(get_local_cache_path("nothing", "/tmp/cache").is_err());
}

use shinkuro::loader::{expand_home_with, plan_folder, LoaderError};

#[test]
fn test_get_folder_path_local() {
    let folder_path = "/tmp/some/prompts";
    let cache_dir = "/tmp/cache";
    let plan = plan_folder(Some(folder_path.to_string()), None, cache_dir).unwrap();
    assert_eq!(plan.path, folder_path);
    assert!(plan.clone.is_none());
}

#[test]
fn test_get_folder_path_no_args() {
    let cache_dir = "/tmp/cache";
    let result = plan_folder(None, None, cache_dir);
    assert!(result.is_err());
}

#[test]
fn git_plan_clones_into_cache() {
    let plan = plan_folder(
        Some("prompts".to_string()),
        Some("https://github.com/owner/repo.git".to_string()),
        "/tmp/cache",
    )
    .unwrap();
    assert_eq!(plan.path, "/tmp/cache/git/owner/repo/prompts");
    let (url, repo) = plan.clone.unwrap();
    assert_eq!(url, "https://github.com/owner/repo.git");
    assert_eq!(repo, "/tmp/cache/git/owner/repo");
    let plan = plan_folder(None, Some("git@host:o/r".to_string()), "c").unwrap();
    assert_eq!(plan.path, "c/git/o/r");
    assert!(matches!(
        plan_folder(None, Some("bad".to_string()), "c"),
        Err(LoaderError::GitUrl(_))
    ));
}

#[test]
fn home_expansion() {
    let home = Some("/home/u".to_string());
    assert_eq!(expand_home_with("~/.shinkuro/remote", home.clone()).unwrap(), "/home/u/.shinkuro/remote");
    assert_eq!(expand_home_with("/abs/path", None).unwrap(), "/abs/path");
    assert_eq!(expand_home_with("~x/y", None).unwrap(), "~x/y");
    assert_eq!(expand_home_with("~", home).unwrap(), "/home/u/~");
    assert!(matches!(expand_home_with("~/a", None), Err(LoaderError::NoHomeDirectory)));
}

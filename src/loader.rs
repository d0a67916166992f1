use vstd::prelude::*;
use crate::git::{get_local_cache_path, git_url_parts, path_join, GitUrlError};

verus! {

/// Why no folder to scan could be chosen.
#[derive(Debug)]
pub enum LoaderError {
    /// The path starts at `~` and the home directory is unknown.
    NoHomeDirectory,
    /// Neither a folder nor a git URL was given.
    NoSource,
    /// The git URL names no owner and repository.
    GitUrl(GitUrlError),
}

/// The folder to scan, and the repository to clone or update first, if any.
#[derive(Debug)]
pub struct FolderPlan {
    /// The folder to scan for markdown files.
    pub path: String,
    /// The repository URL and its local copy.
    pub clone: Option<(String, String)>,
}

/// The path's first component is `~`.
pub open spec fn is_home_relative(s: Seq<char>) -> bool {
    s == "~"@ || (s.len() >= 2 && s.subrange(0, 2) == "~/"@)
}

/// What is joined onto the home directory: the path after `~/`, or the
/// whole path when it is `~` alone.
pub open spec fn home_rest(s: Seq<char>) -> Seq<char> {
    if s.len() >= 2 && s.subrange(0, 2) == "~/"@ {
        s.subrange(2, s.len() as int)
    } else {
        s
    }
}

/// Relies on `dirs::home_dir`, which reads the environment: nothing is known
/// of its result.
#[verifier::external_body]
fn home_dir() -> (r: Option<String>) {
    match dirs::home_dir() {
        Some(p) => Some(p.to_string_lossy().into_owned()),
        None => None,
    }
}

/// Expands a leading `~` with the home directory `home`.
pub fn expand_home_with(path: &str, home: Option<String>) -> (r: Result<String, LoaderError>)
    ensures
        !is_home_relative(path@) ==> r is Ok && r->Ok_0@ == path@,
        is_home_relative(path@) ==> match home {
            Some(h) => r is Ok && r->Ok_0@ == path_join(h@, home_rest(path@)),
            None => r is Err && r->Err_0 is NoHomeDirectory,
        },
{
    proof {
        reveal_strlit("~");
        reveal_strlit("~/");
    }
    let n = path.unicode_len();
    let slash = n >= 2 && path.get_char(0) == '~' && path.get_char(1) == '/';
    let alone = n == 1 && path.get_char(0) == '~';
    proof {
        if n >= 2 {
            let t = path@.subrange(0, 2);
            assert(t[0] == path@[0] && t[1] == path@[1]);
            if slash {
                assert(t =~= "~/"@);
            }
        }
        if alone {
            assert(path@ =~= "~"@);
        }
        if path@ == "~"@ {
            assert(path@[0] == '~');
        }
    }
    if !slash && !alone {
        return Ok(String::from_str(path));
    }
    let h = match home {
        Some(h) => h,
        None => {
            return Err(LoaderError::NoHomeDirectory);
        },
    };
    let rest = if slash {
        path.substring_char(2, n)
    } else {
        path
    };
    Ok(crate::git::join_component(h, rest))
}

/// Expands a leading `~` with the home directory of this process.
pub fn expand_home(path: &str) -> (r: Result<String, LoaderError>)
    ensures
        !is_home_relative(path@) ==> r is Ok && r->Ok_0@ == path@,
        is_home_relative(path@) && r is Ok ==> exists|h: Seq<char>|
            r->Ok_0@ == path_join(h, home_rest(path@)),
        r is Err ==> is_home_relative(path@) && r->Err_0 is NoHomeDirectory,
{
    let home = home_dir();
    let ghost h = home;
    let r = expand_home_with(path, home);
    proof {
        if is_home_relative(path@) && r is Ok {
            assert(path_join(h->0@, home_rest(path@)) == r->Ok_0@);
        }
    }
    r
}

/// Chooses the folder to scan: with a git URL, the repository's copy under
/// `cache_dir` (or `folder` within it), to be cloned or updated first;
/// otherwise `folder` itself.
pub fn plan_folder(folder: Option<String>, git_url: Option<String>, cache_dir: &str) -> (r: Result<
    FolderPlan,
    LoaderError,
>)
    ensures
        match git_url {
            Some(u) => match git_url_parts(u@) {
                Some(p) => {
                    let repo = path_join(path_join(path_join(cache_dir@, "git"@), p.0), p.1);
                    &&& r is Ok
                    &&& match r->Ok_0.clone {
                        Some(c) => c.0 == u && c.1@ == repo,
                        None => false,
                    }
                    &&& r->Ok_0.path@ == match folder {
                        Some(f) => path_join(repo, f@),
                        None => repo,
                    }
                },
                None => r is Err && r->Err_0 is GitUrl,
            },
            None => match folder {
                Some(f) => r is Ok && r->Ok_0.path == f && r->Ok_0.clone is None,
                None => r is Err && r->Err_0 is NoSource,
            },
        },
{
    match git_url {
        Some(u) => {
            let repo = match get_local_cache_path(u.as_str(), cache_dir) {
                Ok(p) => p,
                Err(e) => {
                    return Err(LoaderError::GitUrl(e));
                },
            };
            let path = match folder {
                Some(f) => crate::git::join_component(repo.clone(), f.as_str()),
                None => repo.clone(),
            };
            Ok(FolderPlan { path, clone: Some((u, repo)) })
        },
        None => match folder {
            Some(f) => Ok(FolderPlan { path: f, clone: None }),
            None => Err(LoaderError::NoSource),
        },
    }
}

} // verus!

use vstd::prelude::*;

verus! {

/// Scheme and path of the URL that `s` parses to, if it parses.
pub uninterp spec fn url_parts(s: Seq<char>) -> Option<(Seq<char>, Seq<char>)>;

/// Relies on `url::Url::parse`, read through the parsed URL's `scheme()` and
/// `path()`: whether the text parses, and to what, depends on the text alone.
#[verifier::external_body]
fn parse_url(s: &str) -> (r: Option<(String, String)>)
    ensures
        match r {
            Some(p) => url_parts(s@) == Some((p.0@, p.1@)),
            None => url_parts(s@) is None,
        },
{
    match url::Url::parse(s) {
        Ok(u) => Some((u.scheme().to_string(), u.path().to_string())),
        Err(_) => None,
    }
}

/// Why no owner and repository could be read from a git URL.
#[derive(Debug)]
pub enum GitUrlError {
    CannotExtract(String),
}

/// `s` without its leading slashes.
pub open spec fn strip_leading_slashes(s: Seq<char>) -> Seq<char>
    decreases s.len(),
{
    if s.len() > 0 && s[0] == '/' {
        strip_leading_slashes(s.drop_first())
    } else {
        s
    }
}

/// `s` without its trailing `.git` suffixes, however many.
pub open spec fn strip_git_suffixes(s: Seq<char>) -> Seq<char>
    decreases s.len(),
{
    if s.len() >= 4 && s.subrange(s.len() - 4, s.len() as int) == ".git"@ {
        strip_git_suffixes(s.subrange(0, s.len() - 4))
    } else {
        s
    }
}

/// Index of the first `c` in `s`.
pub open spec fn find_char(s: Seq<char>, c: char) -> Option<nat>
    decreases s.len(),
{
    if s.len() == 0 {
        None
    } else if s[0] == c {
        Some(0)
    } else {
        match find_char(s.drop_first(), c) {
            Some(i) => Some(i + 1),
            None => None,
        }
    }
}

/// The first two `/`-separated parts of `p`, when it has at least two.
pub open spec fn two_parts(p: Seq<char>) -> Option<(Seq<char>, Seq<char>)> {
    match find_char(p, '/') {
        None => None,
        Some(i) => {
            let rest = p.subrange(i + 1 as int, p.len() as int);
            let second = match find_char(rest, '/') {
                Some(k) => rest.subrange(0, k as int),
                None => rest,
            };
            Some((p.subrange(0, i as int), second))
        },
    }
}

/// Owner and repository named by an `http(s)` URL or an ssh address
/// (`git@host:owner/repo.git`).
pub open spec fn git_url_parts(s: Seq<char>) -> Option<(Seq<char>, Seq<char>)> {
    let web = match url_parts(s) {
        Some(u) => if u.0 == "https"@ || u.0 == "http"@ {
            two_parts(strip_git_suffixes(strip_leading_slashes(u.1)))
        } else {
            None
        },
        None => None,
    };
    if web is Some {
        web
    } else if s.len() >= 4 && s.subrange(0, 4) == "git@"@ && find_char(s, ':') is Some {
        two_parts(
            strip_git_suffixes(s.subrange(find_char(s, ':').unwrap() + 1 as int, s.len() as int)),
        )
    } else {
        None
    }
}

proof fn lemma_find_char(s: Seq<char>, a: int, i: int, b: int, c: char)
    requires
        0 <= a <= i <= b <= s.len(),
        forall|m: int| a <= m < i ==> s[m] != c,
        i < b ==> s[i] == c,
    ensures
        find_char(s.subrange(a, b), c) == if i < b {
            Some((i - a) as nat)
        } else {
            None::<nat>
        },
    decreases i - a,
{
    if a < i {
        assert(s.subrange(a, b).drop_first() =~= s.subrange(a + 1, b));
        lemma_find_char(s, a + 1, i, b, c);
    }
}

/// First index in `[a, b)` holding `c`, or `b`.
pub(crate) fn find_in(s: &Vec<char>, a: usize, b: usize, c: char) -> (i: usize)
    requires
        a <= b <= s@.len(),
    ensures
        a <= i <= b,
        find_char(s@.subrange(a as int, b as int), c) == if i < b {
            Some((i - a) as nat)
        } else {
            None::<nat>
        },
{
    let mut i = a;
    while i < b && s[i] != c
        invariant
            a <= i <= b <= s@.len(),
            forall|m: int| a <= m < i ==> s@[m] != c,
        decreases b - i,
    {
        i = i + 1;
    }
    proof {
        lemma_find_char(s@, a as int, i as int, b as int, c);
    }
    i
}

proof fn lemma_strip_leading(s: Seq<char>, a: int, i: int, b: int)
    requires
        0 <= a <= i <= b <= s.len(),
        forall|m: int| a <= m < i ==> s[m] == '/',
        i < b ==> s[i] != '/',
    ensures
        strip_leading_slashes(s.subrange(a, b)) == s.subrange(i, b),
    decreases i - a,
{
    if a < i {
        assert(s.subrange(a, b).drop_first() =~= s.subrange(a + 1, b));
        lemma_strip_leading(s, a + 1, i, b);
    }
}

fn ends_with_git(s: &Vec<char>, a: usize, b: usize) -> (r: bool)
    requires
        a <= b <= s@.len(),
    ensures
        r == (b - a >= 4 && s@.subrange(a as int, b as int).subrange(b - a - 4, b - a) == ".git"@),
{
    proof {
        reveal_strlit(".git");
    }
    if b - a < 4 {
        return false;
    }
    let r = s[b - 4] == '.' && s[b - 3] == 'g' && s[b - 2] == 'i' && s[b - 1] == 't';
    let ghost t = s@.subrange(a as int, b as int).subrange(b - a - 4, b - a);
    assert(t[0] == s@[b - 4] && t[1] == s@[b - 3] && t[2] == s@[b - 2] && t[3] == s@[b - 1]);
    if r {
        assert(t =~= ".git"@);
    }
    r
}

/// The window `[a, b)` of `s` without its trailing `.git` suffixes: its new end.
fn strip_git_end(s: &Vec<char>, a: usize, b: usize) -> (e: usize)
    requires
        a <= b <= s@.len(),
    ensures
        a <= e <= b,
        strip_git_suffixes(s@.subrange(a as int, b as int)) == s@.subrange(a as int, e as int),
{
    let mut e = b;
    while ends_with_git(s, a, e)
        invariant
            a <= e <= b <= s@.len(),
            strip_git_suffixes(s@.subrange(a as int, b as int)) == strip_git_suffixes(
                s@.subrange(a as int, e as int),
            ),
        decreases e - a,
    {
        assert(s@.subrange(a as int, e as int).subrange(0, e - a - 4) =~= s@.subrange(
            a as int,
            e - 4,
        ));
        e = e - 4;
    }
    e
}

/// Owner and repository of the window `[a, b)` of `text`, whose characters are `s`.
fn split_two(text: &str, s: &Vec<char>, a: usize, b: usize) -> (r: Option<(String, String)>)
    requires
        s@ == text@,
        a <= b <= s@.len(),
    ensures
        match r {
            Some(p) => two_parts(s@.subrange(a as int, b as int)) == Some((p.0@, p.1@)),
            None => two_parts(s@.subrange(a as int, b as int)) is None,
        },
{
    let ghost p = s@.subrange(a as int, b as int);
    let i = find_in(s, a, b, '/');
    if i == b {
        return None;
    }
    let k = find_in(s, i + 1, b, '/');
    assert(p.subrange(i - a + 1, p.len() as int) =~= s@.subrange(i + 1, b as int));
    assert(p.subrange(i - a + 1, p.len() as int).subrange(0, k - i - 1) =~= s@.subrange(
        i + 1,
        k as int,
    ));
    assert(p.subrange(0, i - a) =~= s@.subrange(a as int, i as int));
    let owner = String::from_str(text.substring_char(a, i));
    let name = String::from_str(text.substring_char(i + 1, k));
    Some((owner, name))
}

/// Owner and repository of `path` once its leading slashes and trailing
/// `.git` suffixes are gone.
fn web_parts(path: &String) -> (r: Option<(String, String)>)
    ensures
        match r {
            Some(p) => two_parts(strip_git_suffixes(strip_leading_slashes(path@))) == Some(
                (p.0@, p.1@),
            ),
            None => two_parts(strip_git_suffixes(strip_leading_slashes(path@))) is None,
        },
{
    let text = path.as_str();
    let s = crate::formatters::chars_of(text);
    let n = s.len();
    let mut a: usize = 0;
    while a < n && s[a] == '/'
        invariant
            a <= n == s@.len(),
            forall|m: int| 0 <= m < a ==> s@[m] == '/',
        decreases n - a,
    {
        a = a + 1;
    }
    proof {
        lemma_strip_leading(s@, 0, a as int, n as int);
        assert(s@.subrange(0, n as int) =~= path@);
    }
    let e = strip_git_end(&s, a, n);
    split_two(text, &s, a, e)
}

/// Parse a git URL to extract owner and repository name.
pub fn parse_git_url(git_url: &str) -> (r: Result<(String, String), GitUrlError>)
    ensures
        match r {
            Ok(p) => git_url_parts(git_url@) == Some((p.0@, p.1@)),
            Err(_) => git_url_parts(git_url@) is None,
        },
{
    proof {
        reveal_strlit("https");
        reveal_strlit("http");
        reveal_strlit("git@");
    }
    let mut web: Option<(String, String)> = None;
    match parse_url(git_url) {
        Some(u) => {
            let https = String::from_str("https");
            let http = String::from_str("http");
            if u.0 == https || u.0 == http {
                web = web_parts(&u.1);
            }
        },
        None => {},
    }
    match web {
        Some(p) => {
            return Ok(p);
        },
        None => {},
    }
    let s = crate::formatters::chars_of(git_url);
    let n = s.len();
    if n >= 4 && s[0] == 'g' && s[1] == 'i' && s[2] == 't' && s[3] == '@' {
        assert(git_url@.subrange(0, 4) =~= "git@"@);
        let colon = find_in(&s, 0, n, ':');
        assert(s@.subrange(0, n as int) =~= git_url@);
        if colon < n {
            let e = strip_git_end(&s, colon + 1, n);
            match split_two(git_url, &s, colon + 1, e) {
                Some(p) => {
                    return Ok(p);
                },
                None => {},
            }
        }
    } else {
        assert(n >= 4 ==> git_url@.subrange(0, 4)[0] == git_url@[0] && git_url@.subrange(0, 4)[1]
            == git_url@[1] && git_url@.subrange(0, 4)[2] == git_url@[2] && git_url@.subrange(
            0,
            4,
        )[3] == git_url@[3]);
    }
    let mut message = String::from_str("Cannot extract user/repo from git URL: ");
    message.append(git_url);
    Err(GitUrlError::CannotExtract(message))
}


/// `base` extended by the path component `comp`, as a Unix path: an
/// absolute `comp` replaces `base`, and a separator is put between them
/// where `base` does not end in one.
pub open spec fn path_join(base: Seq<char>, comp: Seq<char>) -> Seq<char> {
    if comp.len() > 0 && comp[0] == '/' {
        comp
    } else if base.len() == 0 || base[base.len() - 1] == '/' {
        base + comp
    } else {
        base + "/"@ + comp
    }
}

pub(crate) fn join_component(base: String, comp: &str) -> (r: String)
    ensures
        r@ == path_join(base@, comp@),
{
    let cn = comp.unicode_len();
    if cn > 0 && comp.get_char(0) == '/' {
        return String::from_str(comp);
    }
    let bn = base.as_str().unicode_len();
    let mut out = base;
    if bn > 0 && out.as_str().get_char(bn - 1) != '/' {
        out.append("/");
    }
    out.append(comp);
    out
}

/// Get the local cache path for a git repository:
/// `<cache_dir>/git/<owner>/<repository>`.
pub fn get_local_cache_path(git_url: &str, cache_dir: &str) -> (r: Result<String, GitUrlError>)
    ensures
        match r {
            Ok(path) => match git_url_parts(git_url@) {
                Some(p) => path@ == path_join(path_join(path_join(cache_dir@, "git"@), p.0), p.1),
                None => false,
            },
            Err(_) => git_url_parts(git_url@) is None,
        },
{
    let (owner, name) = match parse_git_url(git_url) {
        Ok(p) => p,
        Err(e) => {
            return Err(e);
        },
    };
    let path = join_component(String::from_str(cache_dir), "git");
    let path = join_component(path, owner.as_str());
    Ok(join_component(path, name.as_str()))
}

} // verus!

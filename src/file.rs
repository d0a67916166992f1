use vstd::prelude::*;
use crate::git::find_char;
use crate::model::{Argument, PromptData};

verus! {

/// The fields that a markdown file's front matter may set.
#[derive(Debug)]
pub struct Frontmatter {
    pub name: Option<String>,
    pub title: Option<String>,
    pub description: Option<String>,
    pub arguments: Vec<Argument>,
}

/// `x` without one trailing carriage return.
pub open spec fn strip_cr(x: Seq<char>) -> Seq<char> {
    if x.len() > 0 && x[x.len() - 1] == '\r' {
        x.drop_last()
    } else {
        x
    }
}

/// The lines of `s`: split at each `\n`, a `\r` right before it dropped,
/// and no empty line after a final `\n`.
pub open spec fn lines_of(s: Seq<char>) -> Seq<Seq<char>>
    decreases s.len(),
{
    if s.len() == 0 {
        Seq::empty()
    } else {
        match find_char(s, '\n') {
            None => seq![s],
            Some(i) => {
                if i < s.len() {
                    seq![strip_cr(s.subrange(0, i as int))] + lines_of(
                        s.subrange(i + 1 as int, s.len() as int),
                    )
                } else {
                    Seq::empty()
                }
            },
        }
    }
}

/// The lines joined with `\n`.
pub open spec fn join_lines(ls: Seq<Seq<char>>) -> Seq<char>
    decreases ls.len(),
{
    if ls.len() == 0 {
        Seq::empty()
    } else if ls.len() == 1 {
        ls[0]
    } else {
        join_lines(ls.drop_last()) + "\n"@ + ls.last()
    }
}

/// Index of the line that closes the front matter: the first line after the
/// first one that reads `---`.
pub open spec fn closing_line(ls: Seq<Seq<char>>, p: int) -> bool {
    &&& 1 <= p < ls.len()
    &&& ls[p] == "---"@
    &&& forall|k: int| 1 <= k < p ==> #[trigger] ls[k] != "---"@
}

/// Front matter text and body of `s`, when `s` starts with `---` and a later
/// line reads `---`.
pub open spec fn frontmatter_split(s: Seq<char>) -> Option<(Seq<char>, Seq<char>)> {
    let ls = lines_of(s);
    if s.len() >= 3 && s.subrange(0, 3) == "---"@ && exists|p: int| closing_line(ls, p) {
        let p = choose|p: int| closing_line(ls, p);
        Some((join_lines(ls.subrange(1, p)), join_lines(ls.subrange(p + 1, ls.len() as int))))
    } else {
        None
    }
}

proof fn lemma_find_char_bound(s: Seq<char>, c: char)
    ensures
        match find_char(s, c) {
            Some(i) => i < s.len() && s[i as int] == c,
            None => true,
        },
    decreases s.len(),
{
    if s.len() > 0 && s[0] != c {
        lemma_find_char_bound(s.drop_first(), c);
        match find_char(s.drop_first(), c) {
            Some(i) => {
                assert(s[i + 1 as int] == s.drop_first()[i as int]);
            },
            None => {},
        }
    }
}

/// The lines of `text`, whose characters are `c`.
fn split_lines(text: &str, c: &Vec<char>) -> (r: Vec<String>)
    requires
        c@ == text@,
    ensures
        crate::formatters::names_of(r@) == lines_of(text@),
{
    let n = c.len();
    let mut out: Vec<String> = Vec::new();
    let mut pos: usize = 0;
    assert(text@.subrange(0, n as int) =~= text@);
    assert(crate::formatters::names_of(out@) =~= Seq::<Seq<char>>::empty());
    while pos < n
        invariant
            c@ == text@,
            n == text@.len(),
            pos <= n,
            crate::formatters::names_of(out@) + lines_of(text@.subrange(pos as int, n as int))
                == lines_of(text@),
        decreases n - pos,
    {
        let ghost s = text@.subrange(pos as int, n as int);
        let ghost before = crate::formatters::names_of(out@);
        let i = crate::git::find_in(c, pos, n, '\n');
        proof {
            lemma_find_char_bound(s, '\n');
        }
        if i == n {
            out.push(String::from_str(text.substring_char(pos, n)));
            assert(crate::formatters::names_of(out@) =~= before + seq![s]);
            assert(text@.subrange(n as int, n as int) =~= Seq::<char>::empty());
            assert(before + seq![s] =~= before + seq![s] + Seq::<Seq<char>>::empty());
            pos = n;
        } else {
            let e = if i > pos && c[i - 1] == '\r' {
                i - 1
            } else {
                i
            };
            assert(s.subrange(0, i - pos) =~= text@.subrange(pos as int, i as int));
            assert(strip_cr(s.subrange(0, i - pos)) =~= text@.subrange(pos as int, e as int));
            assert(s.subrange(i - pos + 1, s.len() as int) =~= text@.subrange(i + 1, n as int));
            out.push(String::from_str(text.substring_char(pos, e)));
            assert(crate::formatters::names_of(out@) =~= before + seq![
                text@.subrange(pos as int, e as int),
            ]);
            pos = i + 1;
        }
    }
    assert(text@.subrange(n as int, n as int) =~= Seq::<char>::empty());
    assert(crate::formatters::names_of(out@) + Seq::<Seq<char>>::empty() =~= crate::formatters::names_of(out@));
    out
}

/// `ls[a..b]` joined with `\n`.
fn join_range(ls: &Vec<String>, a: usize, b: usize) -> (r: String)
    requires
        a <= b <= ls@.len(),
    ensures
        r@ == join_lines(crate::formatters::names_of(ls@).subrange(a as int, b as int)),
{
    let ghost ns = crate::formatters::names_of(ls@);
    let mut out = String::new();
    let mut i = a;
    assert(ns.subrange(a as int, a as int) =~= Seq::<Seq<char>>::empty());
    while i < b
        invariant
            a <= i <= b <= ls@.len(),
            ns == crate::formatters::names_of(ls@),
            out@ == join_lines(ns.subrange(a as int, i as int)),
        decreases b - i,
    {
        assert(ns.subrange(a as int, i + 1).drop_last() =~= ns.subrange(a as int, i as int));
        assert(ns.subrange(a as int, i + 1).last() == ls@[i as int]@);
        if i > a {
            out.append("\n");
        } else {
            assert(out@ =~= Seq::<char>::empty());
        }
        out.append(ls[i].as_str());
        if i == a {
            assert(out@ =~= ls@[i as int]@);
        }
        i = i + 1;
    }
    out
}

/// Splits a markdown text into its front matter and its body: the lines
/// strictly between the first line and the next line that reads `---`, and
/// the lines after that one.
pub fn split_frontmatter(content: &str) -> (r: Option<(String, String)>)
    ensures
        match r {
            Some(p) => frontmatter_split(content@) == Some((p.0@, p.1@)),
            None => frontmatter_split(content@) is None,
        },
{
    proof {
        reveal_strlit("---");
    }
    let c = crate::formatters::chars_of(content);
    let n = c.len();
    if !(n >= 3 && c[0] == '-' && c[1] == '-' && c[2] == '-') {
        assert(n >= 3 ==> content@.subrange(0, 3)[0] == content@[0] && content@.subrange(0, 3)[1]
            == content@[1] && content@.subrange(0, 3)[2] == content@[2]);
        return None;
    }
    assert(content@.subrange(0, 3) =~= "---"@);
    let ls = split_lines(content, &c);
    let ghost ns = lines_of(content@);
    let dashes = String::from_str("---");
    let mut p: usize = 1;
    while p < ls.len() && ls[p] != dashes
        invariant
            1 <= p,
            p <= ls@.len() || ls@.len() == 0,
            ns == crate::formatters::names_of(ls@),
            dashes@ == "---"@,
            forall|k: int| 1 <= k < p ==> #[trigger] ns[k] != "---"@,
        decreases ls@.len() - p,
    {
        p = p + 1;
    }
    if p >= ls.len() {
        assert forall|q: int| !closing_line(ns, q) by {
            if 1 <= q < ns.len() && ns[q] == "---"@ {
                assert(ns[q] != "---"@);
            }
        }
        return None;
    }
    assert(closing_line(ns, p as int));
    assert forall|q: int| closing_line(ns, q) implies q == p by {
        if q < p {
            assert(ns[q] != "---"@);
        } else if q > p {
            assert(ns[p as int] != "---"@);
        }
    }
    let front = join_range(&ls, 1, p);
    let body = join_range(&ls, p + 1, ls.len());
    Some((front, body))
}


/// Description of a prompt whose front matter gives none.
pub open spec fn default_description(relative_path: Seq<char>) -> Seq<char> {
    "Prompt from "@ + relative_path
}

/// The value that front matter gives, else `fallback`.
pub open spec fn or_else(v: Option<String>, fallback: Seq<char>) -> Seq<char> {
    match v {
        Some(s) => s@,
        None => fallback,
    }
}

fn take_or(v: Option<String>, fallback: &str) -> (r: String)
    ensures
        r@ == or_else(v, fallback@),
{
    match v {
        Some(s) => s,
        None => String::from_str(fallback),
    }
}

/// The raw prompt record of a markdown file named `file_stem` at
/// `relative_path`, with its front matter, if any was read, and its body.
pub fn prompt_data_from(
    file_stem: &str,
    relative_path: &str,
    frontmatter: Option<Frontmatter>,
    body: String,
) -> (r: PromptData)
    ensures
        r.content == body,
        match frontmatter {
            Some(fm) => r.name@ == or_else(fm.name, file_stem@) && r.title@ == or_else(
                fm.title,
                file_stem@,
            ) && r.description@ == or_else(fm.description, default_description(relative_path@))
                && r.arguments == fm.arguments,
            None => r.name@ == file_stem@ && r.title@ == file_stem@ && r.description@
                == default_description(relative_path@) && r.arguments@.len() == 0,
        },
{
    let mut description = String::from_str("Prompt from ");
    description.append(relative_path);
    match frontmatter {
        Some(fm) => {
            let Frontmatter { name, title, description: given, arguments } = fm;
            PromptData {
                name: take_or(name, file_stem),
                title: take_or(title, file_stem),
                description: take_or(given, description.as_str()),
                arguments,
                content: body,
            }
        },
        None => PromptData {
            name: String::from_str(file_stem),
            title: String::from_str(file_stem),
            description,
            arguments: Vec::new(),
            content: body,
        },
    }
}

} // verus!

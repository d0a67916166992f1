use vstd::prelude::*;
use crate::cli::FormatterType;

verus! {

/// A character that may begin an identifier.
pub open spec fn is_ident_start(c: char) -> bool {
    ('a' <= c && c <= 'z') || ('A' <= c && c <= 'Z') || c == '_'
}

/// A character that may continue an identifier.
pub open spec fn is_ident_char(c: char) -> bool {
    is_ident_start(c) || ('0' <= c && c <= '9')
}

/// `s` matches `[A-Za-z_][A-Za-z0-9_]*`.
pub open spec fn is_identifier(s: Seq<char>) -> bool {
    &&& s.len() > 0
    &&& is_ident_start(s[0])
    &&& forall|i: int| 1 <= i < s.len() ==> is_ident_char(#[trigger] s[i])
}

fn ident_start(c: char) -> (r: bool)
    ensures
        r == is_ident_start(c),
{
    ('a' <= c && c <= 'z') || ('A' <= c && c <= 'Z') || c == '_'
}

fn ident_char(c: char) -> (r: bool)
    ensures
        r == is_ident_char(c),
{
    ident_start(c) || ('0' <= c && c <= '9')
}

/// Validate that a variable name is a valid identifier.
pub fn validate_variable_name(name: &str) -> (r: bool)
    ensures
        r == is_identifier(name@),
{
    let n = name.unicode_len();
    if n == 0 {
        return false;
    }
    if !ident_start(name.get_char(0)) {
        return false;
    }
    let mut i: usize = 1;
    while i < n
        invariant
            1 <= i <= n,
            n == name@.len(),
            forall|k: int| 1 <= k < i ==> is_ident_char(#[trigger] name@[k]),
        decreases n - i,
    {
        if !ident_char(name.get_char(i)) {
            return false;
        }
        i = i + 1;
    }
    true
}


/// Length of the longest prefix of `s` made of identifier characters.
pub open spec fn ident_run(s: Seq<char>) -> nat
    decreases s.len(),
{
    if s.len() > 0 && is_ident_char(s[0]) {
        1 + ident_run(s.drop_first())
    } else {
        0
    }
}

/// The character that opens a reference.
pub open spec fn open_mark(style: FormatterType) -> char {
    match style {
        FormatterType::Brace => '{',
        FormatterType::Dollar => '$',
    }
}

/// Length of the name of the reference that starts `s`, or 0 when no
/// reference starts there. A dollar reference takes the longest run of
/// identifier characters; a brace reference needs a `}` right after it.
pub open spec fn name_len_at(style: FormatterType, s: Seq<char>) -> nat {
    if s.len() >= 2 && s[0] == open_mark(style) && is_ident_start(s[1]) {
        let n = ident_run(s.subrange(1, s.len() as int));
        match style {
            FormatterType::Dollar => n,
            FormatterType::Brace => if 1 + n < s.len() && s[1 + n as int] == '}' {
                n
            } else {
                0
            },
        }
    } else {
        0
    }
}

/// Length of a whole reference whose name has `n` characters.
pub open spec fn ref_len(style: FormatterType, n: nat) -> nat {
    match style {
        FormatterType::Brace => n + 2,
        FormatterType::Dollar => n + 1,
    }
}

/// The value bound to `key`: the first pair with that key wins.
pub open spec fn lookup(b: Seq<(Seq<char>, Seq<char>)>, key: Seq<char>) -> Option<Seq<char>>
    decreases b.len(),
{
    if b.len() == 0 {
        None
    } else if b[0].0 == key {
        Some(b[0].1)
    } else {
        lookup(b.drop_first(), key)
    }
}

/// Bindings as sequences of characters.
pub open spec fn bindings_view(b: Seq<(String, String)>) -> Seq<(Seq<char>, Seq<char>)> {
    b.map_values(|p: (String, String)| (p.0@, p.1@))
}

pub proof fn lemma_ident_run_bound(s: Seq<char>)
    ensures
        ident_run(s) <= s.len(),
    decreases s.len(),
{
    if s.len() > 0 && is_ident_char(s[0]) {
        lemma_ident_run_bound(s.drop_first());
    }
}

/// A reference lies within the text it starts.
pub proof fn lemma_ref_fits(style: FormatterType, s: Seq<char>)
    ensures
        name_len_at(style, s) > 0 ==> ref_len(style, name_len_at(style, s)) <= s.len(),
{
    if s.len() >= 2 {
        lemma_ident_run_bound(s.subrange(1, s.len() as int));
    }
}

#[via_fn]
proof fn scan_decreases(style: FormatterType, s: Seq<char>, b: Seq<(Seq<char>, Seq<char>)>) {
    lemma_ref_fits(style, s);
}

/// The text `s` with each reference whose name is bound replaced by its
/// value; other references and all other text stay as they are.
pub open spec fn substituted(
    style: FormatterType,
    s: Seq<char>,
    b: Seq<(Seq<char>, Seq<char>)>,
) -> Seq<char>
    decreases s.len(),
    via scan_decreases
{
    if s.len() == 0 {
        Seq::empty()
    } else {
        let n = name_len_at(style, s);
        if n > 0 {
            let t = ref_len(style, n) as int;
            let rest = substituted(style, s.subrange(t, s.len() as int), b);
            match lookup(b, s.subrange(1, 1 + n as int)) {
                Some(v) => v + rest,
                None => s.subrange(0, t) + rest,
            }
        } else {
            seq![s[0]] + substituted(style, s.drop_first(), b)
        }
    }
}

#[via_fn]
proof fn vars_decreases(style: FormatterType, s: Seq<char>) {
    lemma_ref_fits(style, s);
}

/// The names of the references in `s`, read left to right without overlap.
pub open spec fn vars_of(style: FormatterType, s: Seq<char>) -> Set<Seq<char>>
    decreases s.len(),
    via vars_decreases
{
    if s.len() == 0 {
        Set::empty()
    } else {
        let n = name_len_at(style, s);
        if n > 0 {
            vars_of(style, s.subrange(ref_len(style, n) as int, s.len() as int)).insert(
                s.subrange(1, 1 + n as int),
            )
        } else {
            vars_of(style, s.drop_first())
        }
    }
}


/// A run of identifier characters from `a` that ends at `j` has length `j - a`.
proof fn lemma_ident_run_of(s: Seq<char>, a: int, j: int)
    requires
        0 <= a <= j <= s.len(),
        forall|m: int| a <= m < j ==> is_ident_char(#[trigger] s[m]),
        j == s.len() || !is_ident_char(s[j]),
    ensures
        ident_run(s.subrange(a, s.len() as int)) == j - a,
    decreases j - a,
{
    if a < j {
        assert(s.subrange(a, s.len() as int).drop_first() =~= s.subrange(a + 1, s.len() as int));
        lemma_ident_run_of(s, a + 1, j);
    }
}

pub(crate) fn chars_of(s: &str) -> (r: Vec<char>)
    ensures
        r@ == s@,
{
    let n = s.unicode_len();
    let mut r: Vec<char> = Vec::new();
    let mut i: usize = 0;
    while i < n
        invariant
            i <= n,
            n == s@.len(),
            r@ == s@.subrange(0, i as int),
        decreases n - i,
    {
        r.push(s.get_char(i));
        i = i + 1;
    }
    assert(r@ =~= s@);
    r
}

fn open_char(style: FormatterType) -> (c: char)
    ensures
        c == open_mark(style),
{
    match style {
        FormatterType::Brace => '{',
        FormatterType::Dollar => '$',
    }
}

/// Length of the name of the reference that starts at `i`, or 0.
fn name_len_here(style: FormatterType, c: &Vec<char>, i: usize) -> (k: usize)
    requires
        i < c@.len(),
    ensures
        k == name_len_at(style, c@.subrange(i as int, c@.len() as int)),
        k > 0 ==> i + ref_len(style, k as nat) <= c@.len(),
{
    let n = c.len();
    let ghost s = c@.subrange(i as int, n as int);
    proof {
        lemma_ref_fits(style, s);
    }
    if i + 1 < n && c[i] == open_char(style) && ident_start(c[i + 1]) {
        let mut j: usize = i + 1;
        while j < n && ident_char(c[j])
            invariant
                i + 1 <= j <= n,
                n == c@.len(),
                forall|m: int| i + 1 <= m < j ==> is_ident_char(#[trigger] c@[m]),
            decreases n - j,
        {
            j = j + 1;
        }
        proof {
            lemma_ident_run_of(s, 1, (j - i) as int);
            assert(s.subrange(1, s.len() as int) =~= c@.subrange(i + 1, n as int));
        }
        let run = j - (i + 1);
        match style {
            FormatterType::Dollar => run,
            FormatterType::Brace => if j < n && c[j] == '}' {
                run
            } else {
                0
            },
        }
    } else {
        0
    }
}

/// Index of the first binding of `key`.
pub(crate) fn find_binding(b: &Vec<(String, String)>, key: &String) -> (r: Option<usize>)
    ensures
        match r {
            Some(j) => j < b@.len() && lookup(bindings_view(b@), key@) == Some(b@[j as int].1@),
            None => lookup(bindings_view(b@), key@) is None,
        },
{
    let mut j: usize = 0;
    assert(bindings_view(b@).skip(0) =~= bindings_view(b@));
    while j < b.len()
        invariant
            j <= b@.len(),
            lookup(bindings_view(b@), key@) == lookup(bindings_view(b@).skip(j as int), key@),
        decreases b@.len() - j,
    {
        let ghost rest = bindings_view(b@).skip(j as int);
        assert(rest.drop_first() =~= bindings_view(b@).skip(j + 1));
        if b[j].0 == *key {
            return Some(j);
        }
        j = j + 1;
    }
    None
}

/// Replaces each reference whose name is bound with its value.
pub fn substitute(style: FormatterType, content: &str, bindings: &Vec<(String, String)>) -> (r:
    String)
    ensures
        r@ == substituted(style, content@, bindings_view(bindings@)),
{
    let c = chars_of(content);
    let n = c.len();
    let ghost b = bindings_view(bindings@);
    let mut out = String::new();
    let mut i: usize = 0;
    assert(content@.subrange(0, n as int) =~= content@);
    while i < n
        invariant
            c@ == content@,
            n == content@.len(),
            i <= n,
            b == bindings_view(bindings@),
            out@ + substituted(style, content@.subrange(i as int, n as int), b) == substituted(
                style,
                content@,
                b,
            ),
        decreases n - i,
    {
        let ghost s = content@.subrange(i as int, n as int);
        let k = name_len_here(style, &c, i);
        if k > 0 {
            let t: usize = match style {
                FormatterType::Brace => k + 2,
                FormatterType::Dollar => k + 1,
            };
            let name = String::from_str(content.substring_char(i + 1, i + 1 + k));
            assert(s.subrange(1, 1 + k as int) =~= name@);
            assert(s.subrange(t as int, s.len() as int) =~= content@.subrange(
                (i + t) as int,
                n as int,
            ));
            assert(s.subrange(0, t as int) =~= content@.subrange(i as int, (i + t) as int));
            match find_binding(bindings, &name) {
                Some(j) => {
                    out.append(bindings[j].1.as_str());
                },
                None => {
                    out.append(content.substring_char(i, i + t));
                },
            }
            i = i + t;
        } else {
            assert(s.drop_first() =~= content@.subrange(i + 1, n as int));
            assert(seq![s[0]] =~= content@.subrange(i as int, i + 1));
            out.append(content.substring_char(i, i + 1));
            i = i + 1;
        }
    }
    assert(content@.subrange(n as int, n as int) =~= Seq::<char>::empty());
    assert(out@ =~= out@ + Seq::<char>::empty());
    out
}


/// Lexicographic order on character sequences, by code point.
pub open spec fn seq_lt(a: Seq<char>, b: Seq<char>) -> bool
    decreases a.len(),
{
    if a.len() == 0 {
        b.len() > 0
    } else if b.len() == 0 {
        false
    } else if a[0] != b[0] {
        a[0] < b[0]
    } else {
        seq_lt(a.drop_first(), b.drop_first())
    }
}

/// Each element comes strictly before the next under `seq_lt`.
pub open spec fn strictly_sorted(v: Seq<Seq<char>>) -> bool {
    forall|i: int, j: int| 0 <= i < j < v.len() ==> seq_lt(v[i], v[j])
}

/// The strings of `v` as character sequences.
pub open spec fn names_of(v: Seq<String>) -> Seq<Seq<char>> {
    v.map_values(|s: String| s@)
}

pub proof fn lemma_seq_lt_total(a: Seq<char>, b: Seq<char>)
    ensures
        a == b || seq_lt(a, b) || seq_lt(b, a),
    decreases a.len(),
{
    if a.len() > 0 && b.len() > 0 && a[0] == b[0] {
        lemma_seq_lt_total(a.drop_first(), b.drop_first());
        if a.drop_first() == b.drop_first() {
            assert(a =~= seq![a[0]] + a.drop_first());
            assert(b =~= seq![b[0]] + b.drop_first());
        }
    } else if a.len() == 0 && b.len() == 0 {
        assert(a =~= b);
    }
}

pub proof fn lemma_seq_lt_transitive(a: Seq<char>, b: Seq<char>, c: Seq<char>)
    requires
        seq_lt(a, b),
        seq_lt(b, c),
    ensures
        seq_lt(a, c),
    decreases a.len(),
{
    if a.len() > 0 && b.len() > 0 && c.len() > 0 && a[0] == b[0] && b[0] == c[0] {
        lemma_seq_lt_transitive(a.drop_first(), b.drop_first(), c.drop_first());
    }
}

/// `a` comes strictly before `b`.
fn str_lt(a: &String, b: &String) -> (r: bool)
    ensures
        r == seq_lt(a@, b@),
{
    let x = chars_of(a.as_str());
    let y = chars_of(b.as_str());
    let mut i: usize = 0;
    assert(a@.skip(0) =~= a@);
    assert(b@.skip(0) =~= b@);
    while i < x.len() && i < y.len()
        invariant
            x@ == a@,
            y@ == b@,
            i <= x@.len(),
            i <= y@.len(),
            seq_lt(a@, b@) == seq_lt(a@.skip(i as int), b@.skip(i as int)),
        decreases x@.len() - i,
    {
        if x[i] != y[i] {
            return x[i] < y[i];
        }
        assert(a@.skip(i as int).drop_first() =~= a@.skip(i + 1));
        assert(b@.skip(i as int).drop_first() =~= b@.skip(i + 1));
        i = i + 1;
    }
    i == x.len() && i < y.len()
}

/// Adds `x` to a strictly sorted list of names, unless it is there already.
fn insert_sorted(v: &mut Vec<String>, x: String)
    requires
        strictly_sorted(names_of(old(v)@)),
    ensures
        strictly_sorted(names_of(final(v)@)),
        names_of(final(v)@).to_set() == names_of(old(v)@).to_set().insert(x@),
{
    let ghost old_names = names_of(v@);
    let mut p: usize = 0;
    while p < v.len() && str_lt(&v[p], &x)
        invariant
            p <= v@.len(),
            forall|i: int| 0 <= i < p ==> seq_lt(#[trigger] v@[i]@, x@),
        decreases v@.len() - p,
    {
        p = p + 1;
    }
    if p < v.len() && v[p] == x {
        assert(old_names[p as int] == x@);
        assert(old_names.to_set() =~= old_names.to_set().insert(x@));
        return ;
    }
    proof {
        if p < v@.len() {
            lemma_seq_lt_total(v@[p as int]@, x@);
        }
    }
    v.insert(p, x);
    let ghost new_names = names_of(v@);
    assert(new_names =~= old_names.insert(p as int, x@));
    assert forall|i: int, j: int| 0 <= i < j < new_names.len() implies seq_lt(
        new_names[i],
        new_names[j],
    ) by {
        if j == p {
        } else if i == p {
            if j > p + 1 {
                lemma_seq_lt_transitive(x@, old_names[p as int], old_names[j - 1]);
            }
        } else if i < p && j > p {
        }
    }
    assert(new_names.to_set() =~= old_names.to_set().insert(x@)) by {
        assert forall|e: Seq<char>| new_names.contains(e) implies #[trigger] old_names.to_set().insert(x@).contains(e) by {
            let k = choose|k: int| 0 <= k < new_names.len() && new_names[k] == e;
            if k < p {
                assert(old_names[k] == e);
            } else if k > p {
                assert(old_names[k - 1] == e);
            }
        }
        assert forall|e: Seq<char>| old_names.contains(e) implies #[trigger] new_names.to_set().contains(e) by {
            let k = choose|k: int| 0 <= k < old_names.len() && old_names[k] == e;
            if k < p {
                assert(new_names[k] == e);
            } else {
                assert(new_names[k + 1] == e);
            }
        }
        assert(new_names[p as int] == x@);
    }
}


/// The names referenced in `content`, each once, in ascending order.
pub fn extract_variables(style: FormatterType, content: &str) -> (r: Vec<String>)
    ensures
        strictly_sorted(names_of(r@)),
        names_of(r@).to_set() == vars_of(style, content@),
{
    let c = chars_of(content);
    let n = c.len();
    let mut out: Vec<String> = Vec::new();
    let mut i: usize = 0;
    assert(content@.subrange(0, n as int) =~= content@);
    assert(names_of(out@).to_set() =~= Set::empty());
    while i < n
        invariant
            c@ == content@,
            n == content@.len(),
            i <= n,
            strictly_sorted(names_of(out@)),
            names_of(out@).to_set().union(vars_of(style, content@.subrange(i as int, n as int)))
                == vars_of(style, content@),
        decreases n - i,
    {
        let ghost s = content@.subrange(i as int, n as int);
        let ghost before = names_of(out@).to_set();
        let k = name_len_here(style, &c, i);
        if k > 0 {
            let t: usize = match style {
                FormatterType::Brace => k + 2,
                FormatterType::Dollar => k + 1,
            };
            let name = String::from_str(content.substring_char(i + 1, i + 1 + k));
            assert(s.subrange(1, 1 + k as int) =~= name@);
            assert(s.subrange(t as int, s.len() as int) =~= content@.subrange(
                (i + t) as int,
                n as int,
            ));
            insert_sorted(&mut out, name);
            assert(names_of(out@).to_set().union(
                vars_of(style, content@.subrange((i + t) as int, n as int)),
            ) =~= before.union(vars_of(style, s)));
            i = i + t;
        } else {
            assert(s.drop_first() =~= content@.subrange(i + 1, n as int));
            i = i + 1;
        }
    }
    assert(content@.subrange(n as int, n as int) =~= Seq::<char>::empty());
    assert(names_of(out@).to_set().union(Set::empty()) =~= names_of(out@).to_set());
    out
}

/// No character of `s` opens a reference.
pub open spec fn free_of_marks(style: FormatterType, s: Seq<char>) -> bool {
    forall|i: int| 0 <= i < s.len() ==> #[trigger] s[i] != open_mark(style)
}

/// Every character of `s` that opens a reference does start one.
pub open spec fn marks_start_references(style: FormatterType, s: Seq<char>) -> bool {
    forall|i: int|
        0 <= i < s.len() && #[trigger] s[i] == open_mark(style) ==> name_len_at(
            style,
            s.subrange(i, s.len() as int),
        ) > 0
}

/// No bound value holds a character that opens a reference.
pub open spec fn values_free_of_marks(style: FormatterType, b: Seq<(Seq<char>, Seq<char>)>) -> bool {
    forall|i: int| 0 <= i < b.len() ==> free_of_marks(style, #[trigger] b[i].1)
}

/// Every name referenced in `s` has a binding.
pub open spec fn all_bound(style: FormatterType, s: Seq<char>, b: Seq<(Seq<char>, Seq<char>)>) -> bool {
    forall|x: Seq<char>| vars_of(style, s).contains(x) ==> (#[trigger] lookup(b, x)) is Some
}

proof fn lemma_lookup_found(b: Seq<(Seq<char>, Seq<char>)>, key: Seq<char>)
    requires
        lookup(b, key) is Some,
    ensures
        exists|i: int| 0 <= i < b.len() && #[trigger] b[i].1 == lookup(b, key).unwrap(),
    decreases b.len(),
{
    if b[0].0 == key {
        assert(b[0].1 == lookup(b, key).unwrap());
    } else {
        lemma_lookup_found(b.drop_first(), key);
        let i = choose|i: int| 0 <= i < b.drop_first().len() && #[trigger] b.drop_first()[i].1 == lookup(
            b.drop_first(),
            key,
        ).unwrap();
        assert(b[i + 1].1 == lookup(b, key).unwrap());
    }
}

proof fn lemma_no_marks_no_vars(style: FormatterType, s: Seq<char>)
    requires
        free_of_marks(style, s),
    ensures
        vars_of(style, s) == Set::<Seq<char>>::empty(),
    decreases s.len(),
{
    if s.len() > 0 {
        assert(s[0] != open_mark(style));
        lemma_no_marks_no_vars(style, s.drop_first());
    }
}

proof fn lemma_substituted_free_of_marks(
    style: FormatterType,
    s: Seq<char>,
    b: Seq<(Seq<char>, Seq<char>)>,
)
    requires
        marks_start_references(style, s),
        values_free_of_marks(style, b),
        all_bound(style, s, b),
    ensures
        free_of_marks(style, substituted(style, s, b)),
    decreases s.len(),
{
    if s.len() > 0 {
        let n = name_len_at(style, s);
        lemma_ref_fits(style, s);
        let t: int = if n > 0 {
            ref_len(style, n) as int
        } else {
            1
        };
        let rest = s.subrange(t, s.len() as int);
        assert forall|i: int|
            0 <= i < rest.len() && #[trigger] rest[i] == open_mark(style) implies name_len_at(
            style,
            rest.subrange(i, rest.len() as int),
        ) > 0 by {
            assert(s[t + i] == rest[i]);
            assert(rest.subrange(i, rest.len() as int) =~= s.subrange(t + i, s.len() as int));
        }
        assert(all_bound(style, rest, b));
        lemma_substituted_free_of_marks(style, rest, b);
        let tail = substituted(style, rest, b);
        if n > 0 {
            let name = s.subrange(1, 1 + n as int);
            assert(vars_of(style, s).contains(name));
            lemma_lookup_found(b, name);
            let v = lookup(b, name).unwrap();
            assert(free_of_marks(style, v));
            assert(substituted(style, s, b) == v + tail);
            assert forall|i: int| 0 <= i < (v + tail).len() implies #[trigger] (v + tail)[i]
                != open_mark(style) by {
                if i >= v.len() {
                    assert((v + tail)[i] == tail[i - v.len()]);
                }
            }
        } else {
            assert(s.subrange(0, s.len() as int) =~= s);
            assert(rest =~= s.drop_first());
            assert(s[0] != open_mark(style));
            let r = seq![s[0]] + tail;
            assert forall|i: int| 0 <= i < r.len() implies #[trigger] r[i] != open_mark(style) by {
                if i >= 1 {
                    assert(r[i] == tail[i - 1]);
                }
            }
        }
    }
}

/// Substituting a template in which every reference is bound, and every
/// opening mark starts a reference, with values that hold no opening mark,
/// leaves no reference in the result.
pub proof fn lemma_fully_bound_leaves_no_references(
    style: FormatterType,
    content: Seq<char>,
    b: Seq<(Seq<char>, Seq<char>)>,
)
    requires
        marks_start_references(style, content),
        values_free_of_marks(style, b),
        all_bound(style, content, b),
    ensures
        vars_of(style, substituted(style, content, b)) == Set::<Seq<char>>::empty(),
{
    lemma_substituted_free_of_marks(style, content, b);
    lemma_no_marks_no_vars(style, substituted(style, content, b));
}

/// Errors of reading a template.
#[derive(Debug)]
pub enum FormatterError {
    InvalidVariableName(String),
    InvalidSyntax(String),
}

impl FormatterError {
    /// The error as text.
    pub fn message(&self) -> (r: String)
        ensures
            r@ == match self {
                FormatterError::InvalidVariableName(n) => "Invalid variable name: "@ + n@,
                FormatterError::InvalidSyntax(t) => "Invalid template syntax: "@ + t@,
            },
    {
        match self {
            FormatterError::InvalidVariableName(n) => {
                let mut m = String::from_str("Invalid variable name: ");
                m.append(n.as_str());
                m
            },
            FormatterError::InvalidSyntax(t) => {
                let mut m = String::from_str("Invalid template syntax: ");
                m.append(t.as_str());
                m
            },
        }
    }
}

/// A syntax of variable references, with extraction and substitution.
pub trait Formatter {
    /// The reference syntax this formatter reads.
    spec fn style(&self) -> FormatterType;

    /// Extract argument names from content: each name once, in ascending order.
    fn extract_arguments(&self, content: &str) -> (r: Result<Vec<String>, FormatterError>)
        ensures
            match r {
                Ok(v) => strictly_sorted(names_of(v@)) && names_of(v@).to_set() == vars_of(
                    self.style(),
                    content@,
                ),
                Err(_) => false,
            },
    ;

    /// Format content with variables.
    fn format(&self, content: &str, variables: &Vec<(String, String)>) -> (r: String)
        ensures
            r@ == substituted(self.style(), content@, bindings_view(variables@)),
    ;
}

/// Formatter for `{var}` syntax.
#[derive(Clone, Copy, Debug)]
pub struct BraceFormatter;

impl BraceFormatter {
    pub fn new() -> (r: Self) {
        BraceFormatter
    }
}

impl Formatter for BraceFormatter {
    open spec fn style(&self) -> FormatterType {
        FormatterType::Brace
    }

    fn extract_arguments(&self, content: &str) -> (r: Result<Vec<String>, FormatterError>) {
        Ok(extract_variables(FormatterType::Brace, content))
    }

    fn format(&self, content: &str, variables: &Vec<(String, String)>) -> (r: String) {
        substitute(FormatterType::Brace, content, variables)
    }
}

/// Formatter for `$var` syntax.
#[derive(Clone, Copy, Debug)]
pub struct DollarFormatter;

impl DollarFormatter {
    pub fn new() -> (r: Self) {
        DollarFormatter
    }
}

impl Formatter for DollarFormatter {
    open spec fn style(&self) -> FormatterType {
        FormatterType::Dollar
    }

    fn extract_arguments(&self, content: &str) -> (r: Result<Vec<String>, FormatterError>) {
        Ok(extract_variables(FormatterType::Dollar, content))
    }

    fn format(&self, content: &str, variables: &Vec<(String, String)>) -> (r: String) {
        substitute(FormatterType::Dollar, content, variables)
    }
}

/// One of the two formatters, chosen at startup.
#[derive(Clone, Copy, Debug)]
pub enum SelectedFormatter {
    Brace(BraceFormatter),
    Dollar(DollarFormatter),
}

impl Formatter for SelectedFormatter {
    open spec fn style(&self) -> FormatterType {
        match self {
            SelectedFormatter::Brace(_) => FormatterType::Brace,
            SelectedFormatter::Dollar(_) => FormatterType::Dollar,
        }
    }

    fn extract_arguments(&self, content: &str) -> (r: Result<Vec<String>, FormatterError>) {
        match self {
            SelectedFormatter::Brace(f) => f.extract_arguments(content),
            SelectedFormatter::Dollar(f) => f.extract_arguments(content),
        }
    }

    fn format(&self, content: &str, variables: &Vec<(String, String)>) -> (r: String) {
        match self {
            SelectedFormatter::Brace(f) => f.format(content, variables),
            SelectedFormatter::Dollar(f) => f.format(content, variables),
        }
    }
}

/// Get formatter by type.
pub fn get_formatter(formatter_type: FormatterType) -> (r: SelectedFormatter)
    ensures
        r.style() == formatter_type,
{
    match formatter_type {
        FormatterType::Brace => SelectedFormatter::Brace(BraceFormatter::new()),
        FormatterType::Dollar => SelectedFormatter::Dollar(DollarFormatter::new()),
    }
}

} // verus!

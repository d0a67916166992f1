use vstd::prelude::*;
use crate::cli::FormatterType;
use crate::formatters::{
    bindings_view, is_identifier, lookup, names_of, strictly_sorted, substituted, vars_of,
    find_binding, validate_variable_name, Formatter, FormatterError,
};
use crate::model::{arg_names, Argument, PromptData};

verus! {

/// Prompt with rendering capability.
#[derive(Debug)]
pub struct MarkdownPrompt {
    pub name: String,
    pub title: String,
    pub description: String,
    pub arguments: Vec<Argument>,
    pub content: String,
}

/// Why a prompt could not be built from its raw record.
#[derive(Debug)]
pub enum PromptError {
    /// Arguments were declared while they are to be discovered from the content.
    ArgumentsNotEmpty,
    /// A declared argument name is not an identifier.
    InvalidArgumentName(String),
    /// The declared names differ from the names that the content references.
    ArgumentsMismatch,
    /// The content could not be read.
    Formatter(FormatterError),
}

impl PromptError {
    /// The error as text.
    pub fn message(&self) -> (r: String)
        ensures
            r@ == match self {
                PromptError::ArgumentsNotEmpty =>
                    "arguments must be empty when auto-discovery is enabled"@,
                PromptError::InvalidArgumentName(n) => "Argument name '"@ + n@
                    + "' contains invalid characters"@,
                PromptError::ArgumentsMismatch =>
                    "Content arguments don't match provided arguments"@,
                PromptError::Formatter(FormatterError::InvalidVariableName(n)) =>
                    "Invalid variable name: "@ + n@,
                PromptError::Formatter(FormatterError::InvalidSyntax(t)) =>
                    "Invalid template syntax: "@ + t@,
            },
    {
        match self {
            PromptError::ArgumentsNotEmpty => String::from_str(
                "arguments must be empty when auto-discovery is enabled",
            ),
            PromptError::InvalidArgumentName(n) => {
                let mut m = String::from_str("Argument name '");
                m.append(n.as_str());
                m.append("' contains invalid characters");
                m
            },
            PromptError::ArgumentsMismatch => String::from_str(
                "Content arguments don't match provided arguments",
            ),
            PromptError::Formatter(e) => e.message(),
        }
    }
}

/// Why a prompt could not be rendered.
#[derive(Debug)]
pub enum RenderError {
    /// These required arguments were not supplied, in declaration order.
    MissingRequiredArguments(Vec<String>),
}

/// One argument as a listing shows it.
#[derive(Debug)]
pub struct PromptArgument {
    pub name: String,
    pub description: String,
    pub required: bool,
}

/// A prompt as a listing shows it.
#[derive(Debug)]
pub struct PromptInfo {
    pub name: String,
    pub description: String,
    /// Absent when the prompt has no arguments.
    pub arguments: Option<Vec<PromptArgument>>,
}

/// `s` shows the argument `a`: required exactly when it has no default.
pub open spec fn summarizes(s: PromptArgument, a: Argument) -> bool {
    &&& s.name == a.name
    &&& s.description == a.description
    &&& s.required == (a.default is None)
}

/// `r` is the listing of the prompt `p`.
pub open spec fn describes(r: PromptInfo, p: MarkdownPrompt) -> bool {
    &&& r.name == p.name
    &&& r.description == p.description
    &&& match r.arguments {
        None => p.arguments@.len() == 0,
        Some(v) => p.arguments@.len() > 0 && v@.len() == p.arguments@.len() && forall|i: int|
            0 <= i < v@.len() ==> summarizes(#[trigger] v@[i], p.arguments@[i]),
    }
}

/// Every declared name is an identifier.
pub open spec fn all_names_valid(args: Seq<Argument>) -> bool {
    forall|i: int| 0 <= i < args.len() ==> is_identifier(#[trigger] args[i].name@)
}

/// The argument list that discovery yields for the variables `vars`: one
/// required argument per name, without description, in ascending order.
pub open spec fn discovered_from(args: Seq<Argument>, vars: Set<Seq<char>>) -> bool {
    &&& strictly_sorted(arg_names(args))
    &&& arg_names(args).to_set() == vars
    &&& forall|i: int|
        0 <= i < args.len() ==> (#[trigger] args[i]).description@.len() == 0 && args[i].default
            is None
}

/// Construction from `d` succeeds.
pub open spec fn accepted(style: FormatterType, auto_discover: bool, d: PromptData) -> bool {
    if auto_discover {
        d.arguments@.len() == 0
    } else {
        all_names_valid(d.arguments@) && arg_names(d.arguments@).to_set() == vars_of(
            style,
            d.content@,
        )
    }
}

/// `p` is what construction from `d` yields.
pub open spec fn built_from(
    style: FormatterType,
    auto_discover: bool,
    d: PromptData,
    p: MarkdownPrompt,
) -> bool {
    &&& accepted(style, auto_discover, d)
    &&& p.name == d.name
    &&& p.title == d.title
    &&& p.description == d.description
    &&& p.content == d.content
    &&& if auto_discover {
        discovered_from(p.arguments@, vars_of(style, d.content@))
    } else {
        p.arguments == d.arguments
    }
}

/// `n` is the first declared name that is not an identifier.
pub open spec fn first_invalid_name(args: Seq<Argument>, n: Seq<char>) -> bool {
    exists|i: int|
        0 <= i < args.len() && #[trigger] args[i].name@ == n && !is_identifier(n)
            && all_names_valid(args.take(i))
}

/// The error that construction from `d` reports.
pub open spec fn rejection(
    style: FormatterType,
    auto_discover: bool,
    d: PromptData,
    e: PromptError,
) -> bool {
    &&& !accepted(style, auto_discover, d)
    &&& if auto_discover {
        e is ArgumentsNotEmpty
    } else {
        match e {
            PromptError::InvalidArgumentName(n) => first_invalid_name(d.arguments@, n@),
            PromptError::ArgumentsMismatch => all_names_valid(d.arguments@),
            _ => false,
        }
    }
}

/// Required arguments that `b` does not bind, in declaration order.
pub open spec fn missing_names(args: Seq<Argument>, b: Seq<(Seq<char>, Seq<char>)>) -> Seq<
    Seq<char>,
>
    decreases args.len(),
{
    if args.len() == 0 {
        Seq::empty()
    } else {
        let rest = missing_names(args.drop_last(), b);
        let a = args.last();
        if a.default is None && lookup(b, a.name@) is None {
            rest.push(a.name@)
        } else {
            rest
        }
    }
}

/// The default value of each argument that has one, in declaration order.
pub open spec fn default_bindings(args: Seq<Argument>) -> Seq<(Seq<char>, Seq<char>)>
    decreases args.len(),
{
    if args.len() == 0 {
        Seq::empty()
    } else {
        let rest = default_bindings(args.drop_last());
        let a = args.last();
        match a.default {
            Some(d) => rest.push((a.name@, d@)),
            None => rest,
        }
    }
}

/// The supplied bindings, none when absent.
pub open spec fn supplied_view(arguments: Option<Vec<(String, String)>>) -> Seq<
    (Seq<char>, Seq<char>),
> {
    match arguments {
        Some(v) => bindings_view(v@),
        None => Seq::empty(),
    }
}

/// Bindings used to render: the supplied ones first, so that they win over defaults.
pub open spec fn effective_bindings(
    args: Seq<Argument>,
    supplied: Seq<(Seq<char>, Seq<char>)>,
) -> Seq<(Seq<char>, Seq<char>)> {
    supplied + default_bindings(args)
}

/// `x` is among `v`.
fn contains_name(v: &Vec<String>, x: &String) -> (r: bool)
    ensures
        r == names_of(v@).contains(x@),
{
    let mut i: usize = 0;
    while i < v.len()
        invariant
            i <= v@.len(),
            forall|k: int| 0 <= k < i ==> v@[k]@ != x@,
        decreases v@.len() - i,
    {
        if v[i] == *x {
            assert(names_of(v@)[i as int] == x@);
            return true;
        }
        i = i + 1;
    }
    false
}

/// `x` names one of `args`.
fn names_argument(args: &Vec<Argument>, x: &String) -> (r: bool)
    ensures
        r == arg_names(args@).contains(x@),
{
    let mut i: usize = 0;
    while i < args.len()
        invariant
            i <= args@.len(),
            forall|k: int| 0 <= k < i ==> args@[k].name@ != x@,
        decreases args@.len() - i,
    {
        if args[i].name == *x {
            assert(arg_names(args@)[i as int] == x@);
            return true;
        }
        i = i + 1;
    }
    false
}

/// The names of `args` are exactly the names in `v`.
fn same_names(args: &Vec<Argument>, v: &Vec<String>) -> (r: bool)
    ensures
        r == (arg_names(args@).to_set() == names_of(v@).to_set()),
{
    let mut i: usize = 0;
    while i < args.len()
        invariant
            i <= args@.len(),
            forall|k: int| 0 <= k < i ==> names_of(v@).contains(#[trigger] args@[k].name@),
        decreases args@.len() - i,
    {
        if !contains_name(v, &args[i].name) {
            assert(arg_names(args@)[i as int] == args@[i as int].name@);
            assert(arg_names(args@).contains(args@[i as int].name@));
            assert(!names_of(v@).to_set().contains(args@[i as int].name@));
            return false;
        }
        i = i + 1;
    }
    let mut j: usize = 0;
    while j < v.len()
        invariant
            j <= v@.len(),
            forall|k: int| 0 <= k < j ==> arg_names(args@).contains(#[trigger] v@[k]@),
        decreases v@.len() - j,
    {
        if !names_argument(args, &v[j]) {
            assert(names_of(v@)[j as int] == v@[j as int]@);
            assert(names_of(v@).contains(v@[j as int]@));
            assert(!arg_names(args@).to_set().contains(v@[j as int]@));
            return false;
        }
        j = j + 1;
    }
    assert(arg_names(args@).to_set() =~= names_of(v@).to_set()) by {
        assert forall|e: Seq<char>| arg_names(args@).contains(e) implies names_of(v@).contains(
            e,
        ) by {
            let k = choose|k: int| 0 <= k < args@.len() && arg_names(args@)[k] == e;
            assert(names_of(v@).contains(args@[k].name@));
        }
        assert forall|e: Seq<char>| names_of(v@).contains(e) implies arg_names(args@).contains(
            e,
        ) by {
            let k = choose|k: int| 0 <= k < v@.len() && names_of(v@)[k] == e;
            assert(arg_names(args@).contains(v@[k]@));
        }
    }
    true
}


impl MarkdownPrompt {
    /// Builds a prompt from its raw record. With `auto_discover_args` the
    /// record declares no arguments and they are read from the content;
    /// otherwise the declared names must be identifiers and must be exactly
    /// the names that the content references.
    pub fn new<F: Formatter>(prompt_data: PromptData, formatter: &F, auto_discover_args: bool) -> (r:
        Result<Self, PromptError>)
        ensures
            match r {
                Ok(p) => built_from(formatter.style(), auto_discover_args, prompt_data, p),
                Err(e) => rejection(formatter.style(), auto_discover_args, prompt_data, e),
            },
    {
        let ghost d = prompt_data;
        if auto_discover_args {
            if prompt_data.arguments.len() != 0 {
                return Err(PromptError::ArgumentsNotEmpty);
            }
            let discovered = match formatter.extract_arguments(prompt_data.content.as_str()) {
                Ok(v) => v,
                Err(e) => {
                    return Err(PromptError::Formatter(e));
                },
            };
            let mut args: Vec<Argument> = Vec::new();
            let mut i: usize = 0;
            while i < discovered.len()
                invariant
                    i <= discovered@.len(),
                    args@.len() == i,
                    forall|k: int|
                        0 <= k < i ==> (#[trigger] args@[k]).name@ == discovered@[k]@
                            && args@[k].description@.len() == 0 && args@[k].default is None,
                decreases discovered@.len() - i,
            {
                args.push(
                    Argument {
                        name: discovered[i].clone(),
                        description: String::new(),
                        default: None,
                    },
                );
                i = i + 1;
            }
            assert(arg_names(args@) =~= names_of(discovered@));
            let PromptData { name, title, description, arguments: _, content } = prompt_data;
            Ok(MarkdownPrompt { name, title, description, arguments: args, content })
        } else {
            let mut i: usize = 0;
            while i < prompt_data.arguments.len()
                invariant
                    !auto_discover_args,
                    d == prompt_data,
                    i <= d.arguments@.len(),
                    all_names_valid(d.arguments@.take(i as int)),
                decreases d.arguments@.len() - i,
            {
                if !validate_variable_name(prompt_data.arguments[i].name.as_str()) {
                    let bad = prompt_data.arguments[i].name.clone();
                    assert(first_invalid_name(d.arguments@, bad@)) by {
                        assert(d.arguments@[i as int].name@ == bad@);
                    }
                    return Err(PromptError::InvalidArgumentName(bad));
                }
                assert(d.arguments@.take(i + 1) =~= d.arguments@.take(i as int).push(
                    d.arguments@[i as int],
                ));
                i = i + 1;
            }
            assert(d.arguments@.take(d.arguments@.len() as int) =~= d.arguments@);
            let PromptData { name, title, description, arguments, content } = prompt_data;
            let discovered = match formatter.extract_arguments(content.as_str()) {
                Ok(v) => v,
                Err(e) => {
                    return Err(PromptError::Formatter(e));
                },
            };
            if !same_names(&arguments, &discovered) {
                return Err(PromptError::ArgumentsMismatch);
            }
            Ok(MarkdownPrompt { name, title, description, arguments, content })
        }
    }

    /// Renders the content with the supplied values over the defaults;
    /// fails, naming them, when required arguments are not supplied.
    pub fn render<F: Formatter>(
        &self,
        arguments: Option<Vec<(String, String)>>,
        formatter: &F,
    ) -> (r: Result<String, RenderError>)
        ensures
            match r {
                Ok(s) => missing_names(self.arguments@, supplied_view(arguments)).len() == 0
                    && s@ == substituted(
                    formatter.style(),
                    self.content@,
                    effective_bindings(self.arguments@, supplied_view(arguments)),
                ),
                Err(RenderError::MissingRequiredArguments(v)) => names_of(v@) == missing_names(
                    self.arguments@,
                    supplied_view(arguments),
                ) && v@.len() > 0,
            },
    {
        let ghost sv = supplied_view(arguments);
        let supplied: Vec<(String, String)> = match arguments {
            Some(v) => v,
            None => Vec::new(),
        };
        assert(bindings_view(supplied@) =~= sv);
        let ghost args = self.arguments@;
        let mut missing: Vec<String> = Vec::new();
        let mut i: usize = 0;
        assert(args.take(0) =~= Seq::<Argument>::empty());
        assert(names_of(missing@) =~= Seq::<Seq<char>>::empty());
        while i < self.arguments.len()
            invariant
                args == self.arguments@,
                i <= args.len(),
                bindings_view(supplied@) == sv,
                names_of(missing@) == missing_names(args.take(i as int), sv),
            decreases args.len() - i,
        {
            assert(args.take(i + 1).drop_last() =~= args.take(i as int));
            assert(args.take(i + 1).last() == args[i as int]);
            let a = &self.arguments[i];
            if a.default.is_none() {
                if find_binding(&supplied, &a.name).is_none() {
                    missing.push(a.name.clone());
                    assert(names_of(missing@) =~= missing_names(args.take(i as int), sv).push(
                        a.name@,
                    ));
                }
            }
            i = i + 1;
        }
        assert(args.take(args.len() as int) =~= args);
        if missing.len() > 0 {
            return Err(RenderError::MissingRequiredArguments(missing));
        }
        let mut effective = supplied;
        let mut k: usize = 0;
        assert(sv + default_bindings(args.take(0)) =~= sv);
        while k < self.arguments.len()
            invariant
                args == self.arguments@,
                k <= args.len(),
                bindings_view(effective@) == sv + default_bindings(args.take(k as int)),
            decreases args.len() - k,
        {
            assert(args.take(k + 1).drop_last() =~= args.take(k as int));
            assert(args.take(k + 1).last() == args[k as int]);
            let a = &self.arguments[k];
            match &a.default {
                Some(d) => {
                    let ghost before = effective@;
                    effective.push((a.name.clone(), d.clone()));
                    assert(default_bindings(args.take(k + 1)) == default_bindings(
                        args.take(k as int),
                    ).push((a.name@, d@)));
                    assert(bindings_view(effective@) =~= bindings_view(before).push(
                        (a.name@, d@),
                    ));
                    assert(bindings_view(effective@) =~= sv + default_bindings(
                        args.take(k + 1),
                    ));
                },
                None => {
                    assert(default_bindings(args.take(k + 1)) == default_bindings(
                        args.take(k as int),
                    ));
                },
            }
            k = k + 1;
        }
        Ok(formatter.format(self.content.as_str(), &effective))
    }

    /// The prompt's summary for listing: arguments are left out when there
    /// are none.
    pub fn to_prompt_info(&self) -> (r: PromptInfo)
        ensures
            describes(r, *self),
    {
        let arguments = if self.arguments.len() == 0 {
            None
        } else {
            let mut v: Vec<PromptArgument> = Vec::new();
            let mut i: usize = 0;
            while i < self.arguments.len()
                invariant
                    i <= self.arguments@.len(),
                    v@.len() == i,
                    forall|k: int| 0 <= k < i ==> summarizes(#[trigger] v@[k], self.arguments@[k]),
                decreases self.arguments@.len() - i,
            {
                let a = &self.arguments[i];
                v.push(
                    PromptArgument {
                        name: a.name.clone(),
                        description: a.description.clone(),
                        required: a.default.is_none(),
                    },
                );
                i = i + 1;
            }
            Some(v)
        };
        PromptInfo { name: self.name.clone(), description: self.description.clone(), arguments }
    }
}


/// Builds the catalog: the prompts whose construction succeeds, in input
/// order, and the reason for each one dropped.
pub fn load_prompts<F: Formatter>(
    prompts: Vec<PromptData>,
    formatter: &F,
    auto_discover_args: bool,
) -> (r: (Vec<MarkdownPrompt>, Vec<PromptError>))
    ensures
        r.0@.len() == prompts@.filter(|d: PromptData| accepted(formatter.style(), auto_discover_args, d)).len(),
        forall|k: int|
            0 <= k < r.0@.len() ==> built_from(
                formatter.style(),
                auto_discover_args,
                prompts@.filter(|d: PromptData| accepted(formatter.style(), auto_discover_args, d))[k],
                #[trigger] r.0@[k],
            ),
        r.0@.len() + r.1@.len() == prompts@.len(),
{
    let ghost pred = |d: PromptData| accepted(formatter.style(), auto_discover_args, d);
    let ghost orig = prompts@;
    let mut rest = prompts;
    let mut kept: Vec<MarkdownPrompt> = Vec::new();
    let mut dropped: Vec<PromptError> = Vec::new();
    let mut i: usize = 0;
    let total = rest.len();
    assert(orig.take(0) =~= Seq::<PromptData>::empty());
    while rest.len() > 0
        invariant
            total == orig.len(),
            pred == (|d: PromptData| accepted(formatter.style(), auto_discover_args, d)),
            i <= orig.len(),
            rest@ == orig.skip(i as int),
            kept@.len() == orig.take(i as int).filter(pred).len(),
            forall|k: int|
                0 <= k < kept@.len() ==> built_from(
                    formatter.style(),
                    auto_discover_args,
                    orig.take(i as int).filter(pred)[k],
                    #[trigger] kept@[k],
                ),
            kept@.len() + dropped@.len() == i,
        decreases rest@.len(),
    {
        let d = rest.remove(0);
        assert(orig.take(i + 1).drop_last() =~= orig.take(i as int));
        assert(orig.take(i + 1).last() == d);
        assert(rest@ =~= orig.skip(i + 1));
        assert(pred(d) == accepted(formatter.style(), auto_discover_args, d));
        let ghost before = orig.take(i as int).filter(pred);
        proof {
            reveal(Seq::filter);
        }
        match MarkdownPrompt::new(d, formatter, auto_discover_args) {
            Ok(p) => {
                assert(orig.take(i + 1).filter(pred) == before.push(d));
                kept.push(p);
            },
            Err(e) => {
                assert(orig.take(i + 1).filter(pred) == before);
                dropped.push(e);
            },
        }
        i = i + 1;
    }
    assert(orig.take(i as int) =~= orig);
    (kept, dropped)
}

/// Index of the first prompt named `name`.
pub fn find_prompt(prompts: &Vec<MarkdownPrompt>, name: &String) -> (r: Option<usize>)
    ensures
        match r {
            Some(j) => j < prompts@.len() && prompts@[j as int].name@ == name@ && forall|k: int|
                0 <= k < j ==> (#[trigger] prompts@[k]).name@ != name@,
            None => forall|k: int| 0 <= k < prompts@.len() ==> (#[trigger] prompts@[k]).name@ != name@,
        },
{
    let mut j: usize = 0;
    while j < prompts.len()
        invariant
            j <= prompts@.len(),
            forall|k: int| 0 <= k < j ==> (#[trigger] prompts@[k]).name@ != name@,
        decreases prompts@.len() - j,
    {
        if prompts[j].name == *name {
            return Some(j);
        }
        j = j + 1;
    }
    None
}


/// Declared names that are identifiers and are exactly the names that the
/// content references make construction succeed.
pub proof fn lemma_matching_declarations_accepted(style: FormatterType, d: PromptData)
    requires
        all_names_valid(d.arguments@),
        arg_names(d.arguments@).to_set() == vars_of(style, d.content@),
    ensures
        accepted(style, false, d),
{
}

/// Once construction succeeds with distinct declared names, changing a
/// single declared name makes it fail.
pub proof fn lemma_renamed_declaration_rejected(
    style: FormatterType,
    d: PromptData,
    e: PromptData,
    i: int,
)
    requires
        accepted(style, false, d),
        arg_names(d.arguments@).no_duplicates(),
        0 <= i < d.arguments@.len(),
        e.content@ == d.content@,
        e.arguments@.len() == d.arguments@.len(),
        forall|j: int| 0 <= j < d.arguments@.len() && j != i ==> e.arguments@[j] == d.arguments@[j],
        e.arguments@[i].name@ != d.arguments@[i].name@,
    ensures
        !accepted(style, false, e),
{
    let x = d.arguments@[i].name@;
    assert(arg_names(d.arguments@)[i] == x);
    assert(vars_of(style, d.content@).contains(x));
    assert(!arg_names(e.arguments@).contains(x)) by {
        if arg_names(e.arguments@).contains(x) {
            let k = choose|k: int| 0 <= k < e.arguments@.len() && arg_names(e.arguments@)[k] == x;
            assert(k != i);
            assert(arg_names(d.arguments@)[k] == x);
        }
    }
    assert(!arg_names(e.arguments@).to_set().contains(x));
}

/// With discovery, construction succeeds exactly when the record declares
/// no arguments, and the discovered arguments come in ascending order of name.
pub proof fn lemma_auto_discovery(style: FormatterType, d: PromptData, p: MarkdownPrompt)
    ensures
        accepted(style, true, d) <==> d.arguments@.len() == 0,
        built_from(style, true, d, p) ==> strictly_sorted(arg_names(p.arguments@)) && arg_names(
            p.arguments@,
        ).to_set() == vars_of(style, d.content@),
{
}

proof fn lemma_lookup_append(
    a: Seq<(Seq<char>, Seq<char>)>,
    c: Seq<(Seq<char>, Seq<char>)>,
    k: Seq<char>,
)
    ensures
        lookup(a + c, k) == if lookup(a, k) is Some {
            lookup(a, k)
        } else {
            lookup(c, k)
        },
    decreases a.len(),
{
    if a.len() > 0 {
        assert((a + c).drop_first() =~= a.drop_first() + c);
        lemma_lookup_append(a.drop_first(), c, k);
    } else {
        assert(a + c =~= c);
    }
}

proof fn lemma_lookup_push(a: Seq<(Seq<char>, Seq<char>)>, e: (Seq<char>, Seq<char>), k: Seq<char>)
    ensures
        lookup(a.push(e), k) == if lookup(a, k) is Some {
            lookup(a, k)
        } else if e.0 == k {
            Some(e.1)
        } else {
            None
        },
{
    assert(a.push(e) =~= a + seq![e]);
    lemma_lookup_append(a, seq![e], k);
    assert(seq![e].drop_first() =~= Seq::<(Seq<char>, Seq<char>)>::empty());
    assert(lookup(Seq::<(Seq<char>, Seq<char>)>::empty(), k) is None);
    assert(seq![e][0] == e);
}

proof fn lemma_default_keys(args: Seq<Argument>, k: Seq<char>)
    ensures
        lookup(default_bindings(args), k) is Some ==> arg_names(args).contains(k),
    decreases args.len(),
{
    if args.len() > 0 {
        let pre = args.drop_last();
        lemma_default_keys(pre, k);
        lemma_lookup_push(default_bindings(pre), (args.last().name@, Seq::empty()), k);
        if let Some(dv) = args.last().default {
            lemma_lookup_push(default_bindings(pre), (args.last().name@, dv@), k);
        }
        if lookup(default_bindings(args), k) is Some {
            if arg_names(pre).contains(k) {
                let j = choose|j: int| 0 <= j < pre.len() && arg_names(pre)[j] == k;
                assert(arg_names(args)[j] == k);
            } else {
                assert(arg_names(args)[args.len() - 1] == k);
            }
        }
    }
}

proof fn lemma_default_found(args: Seq<Argument>, i: int)
    requires
        arg_names(args).no_duplicates(),
        0 <= i < args.len(),
        args[i].default is Some,
    ensures
        lookup(default_bindings(args), args[i].name@) == Some(args[i].default.unwrap()@),
    decreases args.len(),
{
    let pre = args.drop_last();
    let last = args.last();
    let k = args[i].name@;
    assert(arg_names(pre) =~= arg_names(args).drop_last());
    if i < args.len() - 1 {
        assert(pre[i] == args[i]);
        lemma_default_found(pre, i);
        if let Some(dv) = last.default {
            lemma_lookup_push(default_bindings(pre), (last.name@, dv@), k);
        }
    } else {
        lemma_default_keys(pre, k);
        if arg_names(pre).contains(k) {
            let j = choose|j: int| 0 <= j < pre.len() && arg_names(pre)[j] == k;
            assert(arg_names(args)[j] == arg_names(args)[i]);
        }
        lemma_lookup_push(default_bindings(pre), (last.name@, last.default.unwrap()@), k);
    }
}

proof fn lemma_missing_members(args: Seq<Argument>, b: Seq<(Seq<char>, Seq<char>)>, x: Seq<char>)
    ensures
        missing_names(args, b).contains(x) <==> exists|i: int|
            0 <= i < args.len() && (#[trigger] args[i]).default is None && args[i].name@ == x
                && lookup(b, x) is None,
    decreases args.len(),
{
    if args.len() > 0 {
        let pre = args.drop_last();
        lemma_missing_members(pre, b, x);
        let m = missing_names(pre, b);
        let last = args.last();
        if last.default is None && lookup(b, last.name@) is None {
            assert(missing_names(args, b) == m.push(last.name@));
            if m.push(last.name@).contains(x) && !m.contains(x) {
                let j = choose|j: int| 0 <= j < m.len() + 1 && m.push(last.name@)[j] == x;
                assert(args[args.len() - 1] == last);
            }
            if m.contains(x) {
                let j = choose|j: int| 0 <= j < m.len() && m[j] == x;
                assert(m.push(last.name@)[j] == x);
            }
            if last.name@ == x {
                assert(m.push(last.name@)[m.len() as int] == x);
            }
        }
        if exists|i: int|
            0 <= i < args.len() && (#[trigger] args[i]).default is None && args[i].name@ == x
                && lookup(b, x) is None {
            let i = choose|i: int|
                0 <= i < args.len() && (#[trigger] args[i]).default is None && args[i].name@ == x
                    && lookup(b, x) is None;
            if i < args.len() - 1 {
                assert(pre[i] == args[i]);
            }
        }
        if exists|i: int|
            0 <= i < pre.len() && (#[trigger] pre[i]).default is None && pre[i].name@ == x
                && lookup(b, x) is None {
            let i = choose|i: int|
                0 <= i < pre.len() && (#[trigger] pre[i]).default is None && pre[i].name@ == x
                    && lookup(b, x) is None;
            assert(args[i] == pre[i]);
        }
    }
}

/// Rendering fails exactly when some required argument is not supplied, and
/// the failure names exactly the required arguments that were not supplied.
pub proof fn lemma_missing_named_exactly(args: Seq<Argument>, b: Seq<(Seq<char>, Seq<char>)>)
    ensures
        forall|x: Seq<char>|
            #[trigger] missing_names(args, b).contains(x) <==> exists|i: int|
                0 <= i < args.len() && (#[trigger] args[i]).default is None && args[i].name@ == x
                    && lookup(b, x) is None,
        missing_names(args, b).len() > 0 <==> exists|i: int|
            0 <= i < args.len() && (#[trigger] args[i]).default is None && lookup(
                b,
                args[i].name@,
            ) is None,
{
    assert forall|x: Seq<char>|
        #[trigger] missing_names(args, b).contains(x) <==> exists|i: int|
            0 <= i < args.len() && (#[trigger] args[i]).default is None && args[i].name@ == x
                && lookup(b, x) is None by {
        lemma_missing_members(args, b, x);
    }
    let m = missing_names(args, b);
    if m.len() > 0 {
        assert(m.contains(m[0]));
    }
    if exists|i: int|
        0 <= i < args.len() && (#[trigger] args[i]).default is None && lookup(
            b,
            args[i].name@,
        ) is None {
        let i = choose|i: int|
            0 <= i < args.len() && (#[trigger] args[i]).default is None && lookup(
                b,
                args[i].name@,
            ) is None;
        assert(m.contains(args[i].name@));
    }
}

/// When every required argument is supplied and no optional one is,
/// rendering succeeds; required names take the supplied values and
/// optional names their declared defaults.
pub proof fn lemma_defaults_fill_optional(args: Seq<Argument>, b: Seq<(Seq<char>, Seq<char>)>)
    requires
        arg_names(args).no_duplicates(),
        forall|i: int|
            0 <= i < args.len() && (#[trigger] args[i]).default is None ==> lookup(
                b,
                args[i].name@,
            ) is Some,
        forall|i: int|
            0 <= i < args.len() && (#[trigger] args[i]).default is Some ==> lookup(
                b,
                args[i].name@,
            ) is None,
    ensures
        missing_names(args, b).len() == 0,
        forall|i: int|
            0 <= i < args.len() && (#[trigger] args[i]).default is None ==> lookup(
                effective_bindings(args, b),
                args[i].name@,
            ) == lookup(b, args[i].name@),
        forall|i: int|
            0 <= i < args.len() && (#[trigger] args[i]).default is Some ==> lookup(
                effective_bindings(args, b),
                args[i].name@,
            ) == Some(args[i].default.unwrap()@),
{
    lemma_missing_named_exactly(args, b);
    assert forall|i: int|
        0 <= i < args.len() && (#[trigger] args[i]).default is None implies lookup(
            effective_bindings(args, b),
            args[i].name@,
        ) == lookup(b, args[i].name@) by {
        lemma_lookup_append(b, default_bindings(args), args[i].name@);
    }
    assert forall|i: int|
        0 <= i < args.len() && (#[trigger] args[i]).default is Some implies lookup(
            effective_bindings(args, b),
            args[i].name@,
        ) == Some(args[i].default.unwrap()@) by {
        lemma_lookup_append(b, default_bindings(args), args[i].name@);
        lemma_default_found(args, i);
    }
}

} // verus!

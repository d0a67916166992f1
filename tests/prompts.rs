use shinkuro::cli::FormatterType;
use shinkuro::formatters::{get_formatter, BraceFormatter, DollarFormatter};
use shinkuro::model::{Argument, PromptData};
use shinkuro::prompt::{find_prompt, load_prompts, MarkdownPrompt, PromptError, RenderError};

fn arg(name: &str, default: Option<&str>) -> Argument {
    Argument {
        name: name.to_string(),
        description: format!("the {}", name),
        default: default.map(|d| d.to_string()),
    }
}

fn data(name: &str, content: &str, arguments: Vec<Argument>) -> PromptData {
    PromptData {
        name: name.to_string(),
        title: format!("{} title", name),
        description: format!("{} description", name),
        arguments,
        content: content.to_string(),
    }
}

fn vars(pairs: &[(&str, &str)]) -> Option<Vec<(String, String)>> {
    Some(pairs.iter().map(|(k, v)| (k.to_string(), v.to_string())).collect())
}

#[test]
fn brace_prompt_renders_example() {
    let d = data(
        "greet",
        "Hello {name}, welcome to {project}!",
        vec![arg("name", None), arg("project", None)],
    );
    let f = BraceFormatter::new();
    let p = MarkdownPrompt::new(d, &f, false).unwrap();
    let out = p.render(vars(&[("name", "Alice"), ("project", "Rust")]), &f).unwrap();
    assert_eq!(out, "Hello Alice, welcome to Rust!");
}

#[test]
fn dollar_prompt_renders_example() {
    let d = data(
        "greet",
        "Hello $name, welcome to $project!",
        vec![arg("name", None), arg("project", None)],
    );
    let f = DollarFormatter::new();
    let p = MarkdownPrompt::new(d, &f, false).unwrap();
    let out = p.render(vars(&[("name", "Bob"), ("project", "Python")]), &f).unwrap();
    assert_eq!(out, "Hello Bob, welcome to Python!");
}

#[test]
fn matching_declarations_are_accepted_and_kept() {
    let d = data("p", "{b} {a}", vec![arg("a", None), arg("b", Some("x"))]);
    let p = MarkdownPrompt::new(d, &BraceFormatter::new(), false).unwrap();
    assert_eq!(p.name, "p");
    assert_eq!(p.title, "p title");
    assert_eq!(p.description, "p description");
    assert_eq!(p.arguments.len(), 2);
    assert_eq!(p.arguments[0].name, "a");
    assert_eq!(p.arguments[1].default.as_deref(), Some("x"));
}

#[test]
fn renaming_one_declaration_fails() {
    let d = data("p", "{a} {b}", vec![arg("a", None), arg("c", None)]);
    let r = MarkdownPrompt::new(d, &BraceFormatter::new(), false);
    assert!(matches!(r, Err(PromptError::ArgumentsMismatch)));
}

#[test]
fn undeclared_reference_fails() {
    let d = data("p", "{a} {b}", vec![arg("a", None)]);
    let r = MarkdownPrompt::new(d, &BraceFormatter::new(), false);
    assert!(matches!(r, Err(PromptError::ArgumentsMismatch)));
}

#[test]
fn unused_declaration_fails() {
    let d = data("p", "{a}", vec![arg("a", None), arg("b", None)]);
    let r = MarkdownPrompt::new(d, &BraceFormatter::new(), false);
    assert!(matches!(r, Err(PromptError::ArgumentsMismatch)));
}

#[test]
fn invalid_declared_name_is_reported_first() {
    let d = data("p", "{a}", vec![arg("a", None), arg("bad-name", None), arg("2x", None)]);
    match MarkdownPrompt::new(d, &BraceFormatter::new(), false) {
        Err(PromptError::InvalidArgumentName(n)) => assert_eq!(n, "bad-name"),
        other => panic!("unexpected {:?}", other),
    }
}

#[test]
fn auto_discovery_rejects_declared_arguments() {
    let d = data("p", "{a}", vec![arg("a", None)]);
    let r = MarkdownPrompt::new(d, &BraceFormatter::new(), true);
    assert!(matches!(r, Err(PromptError::ArgumentsNotEmpty)));
}

#[test]
fn auto_discovery_sorts_arguments() {
    let d = data("p", "$zeta $alpha $Mid $alpha", vec![]);
    let p = MarkdownPrompt::new(d, &DollarFormatter::new(), true).unwrap();
    let names: Vec<&str> = p.arguments.iter().map(|a| a.name.as_str()).collect();
    assert_eq!(names, vec!["Mid", "alpha", "zeta"]);
    assert!(p.arguments.iter().all(|a| a.description.is_empty() && a.default.is_none()));
}

#[test]
fn auto_discovery_of_plain_text() {
    let d = data("p", "no references here", vec![]);
    let p = MarkdownPrompt::new(d, &BraceFormatter::new(), true).unwrap();
    assert!(p.arguments.is_empty());
    assert_eq!(p.render(None, &BraceFormatter::new()).unwrap(), "no references here");
}

#[test]
fn defaults_fill_unsupplied_optional_arguments() {
    let d = data("p", "{req} {opt}", vec![arg("req", None), arg("opt", Some("dflt"))]);
    let f = BraceFormatter::new();
    let p = MarkdownPrompt::new(d, &f, false).unwrap();
    assert_eq!(p.render(vars(&[("req", "R")]), &f).unwrap(), "R dflt");
    assert_eq!(p.render(vars(&[("req", "R"), ("opt", "O")]), &f).unwrap(), "R O");
}

#[test]
fn missing_required_arguments_are_named() {
    let d = data(
        "p",
        "{a} {b} {c}",
        vec![arg("a", None), arg("b", Some("x")), arg("c", None)],
    );
    let f = BraceFormatter::new();
    let p = MarkdownPrompt::new(d, &f, false).unwrap();
    match p.render(None, &f) {
        Err(RenderError::MissingRequiredArguments(m)) => {
            assert_eq!(m, vec!["a".to_string(), "c".to_string()])
        }
        other => panic!("unexpected {:?}", other),
    }
    match p.render(vars(&[("c", "1")]), &f) {
        Err(RenderError::MissingRequiredArguments(m)) => assert_eq!(m, vec!["a".to_string()]),
        other => panic!("unexpected {:?}", other),
    }
}

#[test]
fn prompt_info_lists_arguments() {
    let f = BraceFormatter::new();
    let p = MarkdownPrompt::new(
        data("p", "{a} {b}", vec![arg("a", None), arg("b", Some("x"))]),
        &f,
        false,
    )
    .unwrap();
    let info = p.to_prompt_info();
    assert_eq!(info.name, "p");
    assert_eq!(info.description, "p description");
    let args = info.arguments.unwrap();
    assert_eq!(args.len(), 2);
    assert_eq!(args[0].name, "a");
    assert_eq!(args[0].description, "the a");
    assert!(args[0].required);
    assert!(!args[1].required);

    let q = MarkdownPrompt::new(data("q", "plain", vec![]), &f, false).unwrap();
    assert!(q.to_prompt_info().arguments.is_none());
}

#[test]
fn catalog_drops_invalid_prompts_in_order() {
    let f = get_formatter(FormatterType::Brace);
    let (kept, dropped) = load_prompts(
        vec![
            data("one", "{a}", vec![arg("a", None)]),
            data("bad", "{a}", vec![]),
            data("two", "text", vec![]),
            data("one", "second {b}", vec![arg("b", None)]),
        ],
        &f,
        false,
    );
    let names: Vec<&str> = kept.iter().map(|p| p.name.as_str()).collect();
    assert_eq!(names, vec!["one", "two", "one"]);
    assert_eq!(dropped.len(), 1);
    assert_eq!(find_prompt(&kept, &"one".to_string()), Some(0));
    assert_eq!(find_prompt(&kept, &"two".to_string()), Some(1));
    assert_eq!(find_prompt(&kept, &"three".to_string()), None);
}

#[test]
fn construction_errors_read_as_text() {
    let d = data("p", "{a}", vec![arg("bad name", None)]);
    let e = MarkdownPrompt::new(d, &BraceFormatter::new(), false).unwrap_err();
    assert_eq!(e.message(), "Argument name 'bad name' contains invalid characters");
    let d = data("p", "{a}", vec![arg("a", None)]);
    let e = MarkdownPrompt::new(d, &BraceFormatter::new(), true).unwrap_err();
    assert_eq!(e.message(), "arguments must be empty when auto-discovery is enabled");
    let d = data("p", "{a}", vec![arg("b", None)]);
    let e = MarkdownPrompt::new(d, &BraceFormatter::new(), false).unwrap_err();
    assert_eq!(e.message(), "Content arguments don't match provided arguments");
}

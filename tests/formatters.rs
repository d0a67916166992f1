use shinkuro::cli::FormatterType;
use shinkuro::formatters::{
    extract_variables, get_formatter, substitute, validate_variable_name, BraceFormatter,
    DollarFormatter, Formatter,
};

fn vars(pairs: &[(&str, &str)]) -> Vec<(String, String)> {
    pairs.iter().map(|(k, v)| (k.to_string(), v.to_string())).collect()
}

#[test]
fn test_brace_formatter() {
    let formatter = BraceFormatter::new();
    let content = "Hello {name}, welcome to {project}!";

    let args = formatter.extract_arguments(content).unwrap();
    assert_eq!(args.len(), 2);
    assert!(args.contains(&"name".to_string()));
    assert!(args.contains(&"project".to_string()));

    let vars = vars(&[("name", "Alice"), ("project", "Rust")]);
    let result = formatter.format(content, &vars);
    assert_eq!(result, "Hello Alice, welcome to Rust!");
}

#[test]
fn test_dollar_formatter() {
    let formatter = DollarFormatter::new();
    let content = "Hello $name, welcome to $project!";

    let args = formatter.extract_arguments(content).unwrap();
    assert_eq!(args.len(), 2);
    assert!(args.contains(&"name".to_string()));
    assert!(args.contains(&"project".to_string()));

    let vars = vars(&[("name", "Bob"), ("project", "Python")]);
    let result = formatter.format(content, &vars);
    assert_eq!(result, "Hello Bob, welcome to Python!");
}

#[test]
fn validate_accepts_identifiers_only() {
    assert!(validate_variable_name("name"));
    assert!(validate_variable_name("_x9"));
    assert!(validate_variable_name("A"));
    assert!(!validate_variable_name(""));
    assert!(!validate_variable_name("9lives"));
    assert!(!validate_variable_name("has-dash"));
    assert!(!validate_variable_name("has space"));
}

#[test]
fn extraction_is_sorted_and_deduplicated() {
    let v = extract_variables(FormatterType::Brace, "{b} {a} {b} {_c}");
    assert_eq!(v, vec!["_c".to_string(), "a".to_string(), "b".to_string()]);
}

#[test]
fn brace_ignores_malformed_references() {
    let v = extract_variables(FormatterType::Brace, "{} {9x} {a-b} {ok} {open");
    assert_eq!(v, vec!["ok".to_string()]);
    let out = substitute(FormatterType::Brace, "{} {9x} {ok} {open", &vars(&[("ok", "Y"), ("9x", "Z")]));
    assert_eq!(out, "{} {9x} Y {open");
}

#[test]
fn dollar_takes_longest_name() {
    let v = extract_variables(FormatterType::Dollar, "$ab_1-$c $ $9");
    assert_eq!(v, vec!["ab_1".to_string(), "c".to_string()]);
    let out = substitute(FormatterType::Dollar, "$ab_1-$a", &vars(&[("a", "A"), ("ab_1", "X")]));
    assert_eq!(out, "X-A");
}

#[test]
fn unbound_references_stay_verbatim() {
    let out = substitute(FormatterType::Brace, "{a} and {b}", &vars(&[("a", "1")]));
    assert_eq!(out, "1 and {b}");
    let out = substitute(FormatterType::Dollar, "$a and $b", &vars(&[("b", "2")]));
    assert_eq!(out, "$a and 2");
}

#[test]
fn substitution_is_not_recursive() {
    let out = substitute(FormatterType::Brace, "{a}", &vars(&[("a", "{b}"), ("b", "no")]));
    assert_eq!(out, "{b}");
}

#[test]
fn empty_content() {
    assert!(extract_variables(FormatterType::Dollar, "").is_empty());
    assert_eq!(substitute(FormatterType::Brace, "", &vars(&[("a", "1")])), "");
}

#[test]
fn first_binding_wins() {
    let out = substitute(FormatterType::Brace, "{a}", &vars(&[("a", "first"), ("a", "second")]));
    assert_eq!(out, "first");
}

#[test]
fn fully_bound_template_has_no_references_left() {
    for (style, content) in [
        (FormatterType::Brace, "x {a} y {b} {a}"),
        (FormatterType::Dollar, "x $a y $b $a"),
    ] {
        let b = vars(&[("a", "one"), ("b", "two")]);
        let out = substitute(style, content, &b);
        assert_eq!(out, "x one y two one");
        assert!(extract_variables(style, &out).is_empty());
    }
}

#[test]
fn non_ascii_text_is_kept() {
    let out = substitute(FormatterType::Brace, "héllo {n} — ✓", &vars(&[("n", "wörld")]));
    assert_eq!(out, "héllo wörld — ✓");
}

#[test]
fn selected_formatter_follows_type() {
    let f = get_formatter(FormatterType::Dollar);
    assert_eq!(f.format("$x {x}", &vars(&[("x", "1")])), "1 {x}");
    let f = get_formatter(FormatterType::Brace);
    assert_eq!(f.format("$x {x}", &vars(&[("x", "1")])), "$x 1");
}

use shinkuro::file::{prompt_data_from, split_frontmatter, Frontmatter};
use shinkuro::model::Argument;

#[test]
fn test_parse_markdown_without_frontmatter() {
    let content = "Hello world!";
    assert!(split_frontmatter(content).is_none());
    let result = prompt_data_from("test", "test.md", None, content.to_string());
    assert_eq!(result.name, "test");
    assert_eq!(result.content, "Hello world!");
}

#[test]
fn test_parse_markdown_with_frontmatter() {
    let content = "---
name: greeting
title: Greeting Prompt
description: A simple greeting
arguments:
  - name: user
    description: User name
---
Hello {user}!";

    let (yaml, body) = split_frontmatter(content).unwrap();
    assert_eq!(
        yaml,
        "name: greeting\ntitle: Greeting Prompt\ndescription: A simple greeting\narguments:\n  - name: user\n    description: User name"
    );
    // The fields that the YAML above decodes to.
    let fm = Frontmatter {
        name: Some("greeting".to_string()),
        title: Some("Greeting Prompt".to_string()),
        description: Some("A simple greeting".to_string()),
        arguments: vec![Argument {
            name: "user".to_string(),
            description: "User name".to_string(),
            default: None,
        }],
    };
    let result = prompt_data_from("test", "test.md", Some(fm), body);
    assert_eq!(result.name, "greeting");
    assert_eq!(result.title, "Greeting Prompt");
    assert_eq!(result.content.trim(), "Hello {user}!");
    assert_eq!(result.arguments.len(), 1);
    assert_eq!(result.arguments[0].name, "user");
}

#[test]
fn frontmatter_needs_closing_line() {
    assert!(split_frontmatter("---\nname: x\nno end").is_none());
    assert!(split_frontmatter("---").is_none());
    assert!(split_frontmatter("").is_none());
    assert!(split_frontmatter("text\n---\nx\n---\n").is_none());
}

#[test]
fn frontmatter_line_endings() {
    let (yaml, body) = split_frontmatter("---\r\na: 1\r\n---\r\nline1\r\nline2\r\n").unwrap();
    assert_eq!(yaml, "a: 1");
    assert_eq!(body, "line1\nline2");
    let (yaml, body) = split_frontmatter("---\n---").unwrap();
    assert_eq!(yaml, "");
    assert_eq!(body, "");
    let (yaml, body) = split_frontmatter("---x\na\n---\n---\nb").unwrap();
    assert_eq!(yaml, "a");
    assert_eq!(body, "---\nb");
}

#[test]
fn defaults_without_frontmatter_fields() {
    let fm = Frontmatter { name: None, title: None, description: None, arguments: vec![] };
    let d = prompt_data_from("stem", "sub/stem.md", Some(fm), "body".to_string());
    assert_eq!(d.name, "stem");
    assert_eq!(d.title, "stem");
    assert_eq!(d.description, "Prompt from sub/stem.md");
    let d = prompt_data_from("stem", "sub/stem.md", None, "raw".to_string());
    assert_eq!(d.description, "Prompt from sub/stem.md");
    assert!(d.arguments.is_empty());
    assert_eq!(d.content, "raw");
}

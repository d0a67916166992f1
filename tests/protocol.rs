use serde_json::Value;
use shinkuro::cli::FormatterType;
use shinkuro::formatters::get_formatter;
use shinkuro::model::{Argument, PromptData};
use shinkuro::prompt::load_prompts;
use shinkuro::protocol::{decode_request, handle_request, ReplyBody, Request};

fn catalog() -> Vec<shinkuro::prompt::MarkdownPrompt> {
    let f = get_formatter(FormatterType::Brace);
    let (kept, _) = load_prompts(
        vec![
            PromptData {
                name: "greet".to_string(),
                title: "Greet".to_string(),
                description: "Greets".to_string(),
                arguments: vec![Argument {
                    name: "who".to_string(),
                    description: "whom".to_string(),
                    default: None,
                }],
                content: "Hi {who}".to_string(),
            },
            PromptData {
                name: "plain".to_string(),
                title: "Plain".to_string(),
                description: "No args".to_string(),
                arguments: vec![],
                content: "static".to_string(),
            },
        ],
        &f,
        false,
    );
    kept
}

fn request(method: &str, id: i64, name: Option<&str>, args: Option<Vec<(&str, &str)>>) -> Request {
    decode_request(
        Some(method.to_string()),
        Some(Value::from(id)),
        name.map(|n| n.to_string()),
        args.map(|v| v.into_iter().map(|(k, v)| (k.to_string(), v.to_string())).collect()),
    )
}

#[test]
fn missing_prompt_gives_invalid_params() {
    let f = get_formatter(FormatterType::Brace);
    let r = handle_request(request("prompts/get", 1, Some("missing"), None), &catalog(), &f).unwrap();
    assert_eq!(r.id, Some(Value::from(1)));
    match r.body {
        ReplyBody::Error { code, message } => {
            assert_eq!(code, -32602);
            assert_eq!(message, "Prompt not found: missing");
        }
        other => panic!("unexpected {:?}", other),
    }
}

#[test]
fn initialized_notification_gets_no_reply() {
    let f = get_formatter(FormatterType::Brace);
    let req = decode_request(Some("notifications/initialized".to_string()), None, None, None);
    assert!(matches!(req, Request::InitializedNotification));
    assert!(handle_request(req, &catalog(), &f).is_none());
}

#[test]
fn initialize_announces_server() {
    let f = get_formatter(FormatterType::Brace);
    let r = handle_request(request("initialize", 7, None, None), &catalog(), &f).unwrap();
    assert_eq!(r.id, Some(Value::from(7)));
    match r.body {
        ReplyBody::Initialize { protocol_version, server_name, .. } => {
            assert_eq!(protocol_version, "2024-11-05");
            assert_eq!(server_name, "shinkuro");
        }
        other => panic!("unexpected {:?}", other),
    }
}

#[test]
fn list_shows_every_prompt() {
    let f = get_formatter(FormatterType::Brace);
    let r = handle_request(request("prompts/list", 2, None, None), &catalog(), &f).unwrap();
    match r.body {
        ReplyBody::PromptsList { prompts } => {
            assert_eq!(prompts.len(), 2);
            assert_eq!(prompts[0].name, "greet");
            let args = prompts[0].arguments.as_ref().unwrap();
            assert_eq!(args[0].name, "who");
            assert!(args[0].required);
            assert!(prompts[1].arguments.is_none());
        }
        other => panic!("unexpected {:?}", other),
    }
}

#[test]
fn get_renders_prompt() {
    let f = get_formatter(FormatterType::Brace);
    let r = handle_request(
        request("prompts/get", 3, Some("greet"), Some(vec![("who", "Ann")])),
        &catalog(),
        &f,
    )
    .unwrap();
    match r.body {
        ReplyBody::PromptsGet { description, text } => {
            assert_eq!(description, "Greets");
            assert_eq!(text, "Hi Ann");
        }
        other => panic!("unexpected {:?}", other),
    }
}

#[test]
fn get_without_required_argument_fails() {
    let f = get_formatter(FormatterType::Brace);
    let r = handle_request(request("prompts/get", 4, Some("greet"), None), &catalog(), &f).unwrap();
    match r.body {
        ReplyBody::Error { code, message } => {
            assert_eq!(code, -32602);
            assert_eq!(message, "Failed to render prompt: Missing required arguments: who");
        }
        other => panic!("unexpected {:?}", other),
    }
}

#[test]
fn get_without_name_fails() {
    let f = get_formatter(FormatterType::Brace);
    let r = handle_request(request("prompts/get", 5, None, None), &catalog(), &f).unwrap();
    match r.body {
        ReplyBody::Error { code, message } => {
            assert_eq!(code, -32602);
            assert_eq!(message, "Missing prompt name");
        }
        other => panic!("unexpected {:?}", other),
    }
}

#[test]
fn unknown_method_is_reported() {
    let f = get_formatter(FormatterType::Brace);
    let r = handle_request(request("tools/list", 6, None, None), &catalog(), &f).unwrap();
    match r.body {
        ReplyBody::Error { code, message } => {
            assert_eq!(code, -32601);
            assert_eq!(message, "Method not found: tools/list");
        }
        other => panic!("unexpected {:?}", other),
    }
    let req = decode_request(None, None, None, None);
    let r = handle_request(req, &catalog(), &f).unwrap();
    assert_eq!(r.id, None);
    match r.body {
        ReplyBody::Error { code, message } => {
            assert_eq!(code, -32601);
            assert_eq!(message, "Method not found");
        }
        other => panic!("unexpected {:?}", other),
    }
}

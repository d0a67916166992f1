use vstd::prelude::*;
use crate::formatters::{substituted, Formatter};
use crate::prompt::{
    describes, effective_bindings, find_prompt, missing_names, supplied_view, MarkdownPrompt,
    PromptInfo, RenderError,
};

verus! {

/// A JSON value of the wire, carried through unread (a request's id).
#[verifier::external_type_specification]
#[verifier::external_body]
pub struct ExValue(serde_json::Value);

/// Protocol version announced on `initialize`.
pub const PROTOCOL_VERSION: &'static str = "2024-11-05";

/// Server name announced on `initialize`.
pub const SERVER_NAME: &'static str = "shinkuro";

/// Server version announced on `initialize`.
pub const SERVER_VERSION: &'static str = "0.1.0";

/// Error code for an unknown method.
pub const METHOD_NOT_FOUND: i32 = -32601;

/// Error code for invalid parameters, an unknown prompt or a failed render.
pub const INVALID_PARAMS: i32 = -32602;

/// A decoded request line.
#[derive(Debug)]
pub enum Request {
    Initialize { id: Option<serde_json::Value> },
    /// A notification: it gets no reply.
    InitializedNotification,
    PromptsList { id: Option<serde_json::Value> },
    PromptsGet {
        id: Option<serde_json::Value>,
        name: Option<String>,
        arguments: Option<Vec<(String, String)>>,
    },
    /// Any other method, or none.
    Unknown { id: Option<serde_json::Value>, method: Option<String> },
}

/// What a reply carries.
#[derive(Debug)]
pub enum ReplyBody {
    Initialize { protocol_version: String, server_name: String, server_version: String },
    PromptsList { prompts: Vec<PromptInfo> },
    /// One user message holding the rendered text.
    PromptsGet { description: String, text: String },
    Error { code: i32, message: String },
}

/// One reply line.
#[derive(Debug)]
pub struct Response {
    pub id: Option<serde_json::Value>,
    pub body: ReplyBody,
}

/// The request that a line with these fields stands for.
pub open spec fn request_for(
    method: Option<String>,
    id: Option<serde_json::Value>,
    name: Option<String>,
    arguments: Option<Vec<(String, String)>>,
) -> Request {
    match method {
        Some(m) => if m@ == "initialize"@ {
            Request::Initialize { id }
        } else if m@ == "notifications/initialized"@ {
            Request::InitializedNotification
        } else if m@ == "prompts/list"@ {
            Request::PromptsList { id }
        } else if m@ == "prompts/get"@ {
            Request::PromptsGet { id, name, arguments }
        } else {
            Request::Unknown { id, method: Some(m) }
        },
        None => Request::Unknown { id, method: None },
    }
}

fn str_is(s: &String, lit: &str) -> (r: bool)
    ensures
        r == (s@ == lit@),
{
    *s == String::from_str(lit)
}

/// Routes a request line by its method: `params.name` and
/// `params.arguments` matter to `prompts/get` only.
pub fn decode_request(
    method: Option<String>,
    id: Option<serde_json::Value>,
    name: Option<String>,
    arguments: Option<Vec<(String, String)>>,
) -> (r: Request)
    ensures
        r == request_for(method, id, name, arguments),
{
    match method {
        Some(m) => if str_is(&m, "initialize") {
            Request::Initialize { id }
        } else if str_is(&m, "notifications/initialized") {
            Request::InitializedNotification
        } else if str_is(&m, "prompts/list") {
            Request::PromptsList { id }
        } else if str_is(&m, "prompts/get") {
            Request::PromptsGet { id, name, arguments }
        } else {
            Request::Unknown { id, method: Some(m) }
        },
        None => Request::Unknown { id, method: None },
    }
}

/// The names separated by `", "`.
pub open spec fn joined(names: Seq<Seq<char>>) -> Seq<char>
    decreases names.len(),
{
    if names.len() == 0 {
        Seq::empty()
    } else if names.len() == 1 {
        names[0]
    } else {
        joined(names.drop_last()) + ", "@ + names.last()
    }
}

/// Message of a render that lacked the required arguments `missing`.
pub open spec fn render_failure_message(missing: Seq<Seq<char>>) -> Seq<char> {
    "Failed to render prompt: Missing required arguments: "@ + joined(missing)
}

/// Message for a method that is not served.
pub open spec fn unknown_method_message(method: Option<String>) -> Seq<char> {
    match method {
        Some(m) => "Method not found: "@ + m@,
        None => "Method not found"@,
    }
}

/// `p` is the first prompt of `prompts` named `name`.
pub open spec fn first_named(prompts: Seq<MarkdownPrompt>, name: Seq<char>, j: int) -> bool {
    &&& 0 <= j < prompts.len()
    &&& prompts[j].name@ == name
    &&& forall|k: int| 0 <= k < j ==> (#[trigger] prompts[k]).name@ != name
}

/// `r` answers `prompts/get` for `p` with these supplied arguments.
pub open spec fn get_reply<F: Formatter>(
    formatter: F,
    p: MarkdownPrompt,
    arguments: Option<Vec<(String, String)>>,
    body: ReplyBody,
) -> bool {
    let missing = missing_names(p.arguments@, supplied_view(arguments));
    if missing.len() == 0 {
        match body {
            ReplyBody::PromptsGet { description, text } => description == p.description && text@
                == substituted(
                formatter.style(),
                p.content@,
                effective_bindings(p.arguments@, supplied_view(arguments)),
            ),
            _ => false,
        }
    } else {
        match body {
            ReplyBody::Error { code, message } => code == INVALID_PARAMS && message@
                == render_failure_message(missing),
            _ => false,
        }
    }
}

fn join_names(names: &Vec<String>) -> (r: String)
    ensures
        r@ == joined(crate::formatters::names_of(names@)),
{
    let ghost ns = crate::formatters::names_of(names@);
    let mut out = String::new();
    let mut i: usize = 0;
    assert(ns.take(0) =~= Seq::<Seq<char>>::empty());
    while i < names.len()
        invariant
            i <= names@.len(),
            ns == crate::formatters::names_of(names@),
            out@ == joined(ns.take(i as int)),
        decreases names@.len() - i,
    {
        assert(ns.take(i + 1).drop_last() =~= ns.take(i as int));
        assert(ns.take(i + 1).last() == names@[i as int]@);
        if i > 0 {
            out.append(", ");
        } else {
            assert(out@ =~= Seq::<char>::empty());
        }
        out.append(names[i].as_str());
        if i == 0 {
            assert(out@ =~= names@[0]@);
        }
        i = i + 1;
    }
    assert(ns.take(names@.len() as int) =~= ns);
    out
}

/// Answers one request; a notification gets no reply.
pub fn handle_request<F: Formatter>(
    request: Request,
    prompts: &Vec<MarkdownPrompt>,
    formatter: &F,
) -> (r: Option<Response>)
    ensures
        match request {
            Request::Initialize { id } => r == Some(
                Response {
                    id,
                    body: ReplyBody::Initialize {
                        protocol_version: r->0.body->Initialize_protocol_version,
                        server_name: r->0.body->Initialize_server_name,
                        server_version: r->0.body->Initialize_server_version,
                    },
                },
            ) && r->0.body->Initialize_protocol_version@ == PROTOCOL_VERSION@
                && r->0.body->Initialize_server_name@ == SERVER_NAME@
                && r->0.body->Initialize_server_version@ == SERVER_VERSION@,
            Request::InitializedNotification => r is None,
            Request::PromptsList { id } => r is Some && r->0.id == id && match r->0.body {
                ReplyBody::PromptsList { prompts: v } => v@.len() == prompts@.len() && forall|i: int|
                    0 <= i < v@.len() ==> describes(#[trigger] v@[i], prompts@[i]),
                _ => false,
            },
            Request::PromptsGet { id, name, arguments } => r is Some && r->0.id == id && match name {
                None => r->0.body == (ReplyBody::Error {
                    code: INVALID_PARAMS,
                    message: r->0.body->Error_message,
                }) && r->0.body->Error_message@ == "Missing prompt name"@,
                Some(n) => if exists|j: int| first_named(prompts@, n@, j) {
                    exists|j: int|
                        first_named(prompts@, n@, j) && get_reply(
                            *formatter,
                            #[trigger] prompts@[j],
                            arguments,
                            r->0.body,
                        )
                } else {
                    r->0.body == (ReplyBody::Error {
                        code: INVALID_PARAMS,
                        message: r->0.body->Error_message,
                    }) && r->0.body->Error_message@ == "Prompt not found: "@ + n@
                },
            },
            Request::Unknown { id, method } => r is Some && r->0.id == id && r->0.body == (
            ReplyBody::Error { code: METHOD_NOT_FOUND, message: r->0.body->Error_message })
                && r->0.body->Error_message@ == unknown_method_message(method),
        },
{
    match request {
        Request::Initialize { id } => Some(
            Response {
                id,
                body: ReplyBody::Initialize {
                    protocol_version: String::from_str(PROTOCOL_VERSION),
                    server_name: String::from_str(SERVER_NAME),
                    server_version: String::from_str(SERVER_VERSION),
                },
            },
        ),
        Request::InitializedNotification => None,
        Request::PromptsList { id } => {
            let mut v: Vec<PromptInfo> = Vec::new();
            let mut i: usize = 0;
            while i < prompts.len()
                invariant
                    i <= prompts@.len(),
                    v@.len() == i,
                    forall|k: int| 0 <= k < i ==> describes(#[trigger] v@[k], prompts@[k]),
                decreases prompts@.len() - i,
            {
                v.push(prompts[i].to_prompt_info());
                i = i + 1;
            }
            Some(Response { id, body: ReplyBody::PromptsList { prompts: v } })
        },
        Request::PromptsGet { id, name, arguments } => {
            let n = match name {
                Some(n) => n,
                None => {
                    return Some(
                        Response {
                            id,
                            body: ReplyBody::Error {
                                code: INVALID_PARAMS,
                                message: String::from_str("Missing prompt name"),
                            },
                        },
                    );
                },
            };
            match find_prompt(prompts, &n) {
                None => {
                    let mut message = String::from_str("Prompt not found: ");
                    message.append(n.as_str());
                    proof {
                        assert forall|j: int| !first_named(prompts@, n@, j) by {
                            if 0 <= j < prompts@.len() {
                                assert(prompts@[j].name@ != n@);
                            }
                        }
                    }
                    Some(Response { id, body: ReplyBody::Error { code: INVALID_PARAMS, message } })
                },
                Some(j) => {
                    let p = &prompts[j];
                    assert(first_named(prompts@, n@, j as int));
                    let ghost supplied = arguments;
                    let body = match p.render(arguments, formatter) {
                        Ok(text) => ReplyBody::PromptsGet {
                            description: p.description.clone(),
                            text,
                        },
                        Err(RenderError::MissingRequiredArguments(missing)) => {
                            let mut message = String::from_str(
                                "Failed to render prompt: Missing required arguments: ",
                            );
                            let list = join_names(&missing);
                            message.append(list.as_str());
                            ReplyBody::Error { code: INVALID_PARAMS, message }
                        },
                    };
                    assert(get_reply(*formatter, prompts@[j as int], supplied, body));
                    Some(Response { id, body })
                },
            }
        },
        Request::Unknown { id, method } => {
            let message = match &method {
                Some(m) => {
                    let mut message = String::from_str("Method not found: ");
                    message.append(m.as_str());
                    message
                },
                None => String::from_str("Method not found"),
            };
            Some(Response { id, body: ReplyBody::Error { code: METHOD_NOT_FOUND, message } })
        },
    }
}

} // verus!

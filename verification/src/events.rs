use vstd::prelude::*;
use crate::json::{
    Json, JsonModel, models, entry_map, lemma_models_push, lemma_entry_map_push,
};
use crate::text::same_text;

verus! {

/// A tool that the agent may call back through the Webhook Tool Bridge.
#[derive(Debug, Clone)]
pub struct DynamicTool {
    pub name: String,
    pub description: String,
    pub parameters: Json,
    pub webhook_url: Option<String>,
}

/// The request sent to the agent with the `run` event.
#[derive(Debug, Clone)]
pub struct RunPayload {
    pub message: String,
    pub system_prompt: Option<String>,
    pub tools: Vec<DynamicTool>,
    pub provider: Option<String>,
    pub model: Option<String>,
}

/// A streaming event emitted by the agent runtime.
#[derive(Debug, Clone, PartialEq)]
pub enum GliaEvent {
    /// Agent status transition (e.g. "thinking", "executing_tool", "idle").
    Status { status: String },
    /// Streaming chunk of inner reasoning.
    ThinkingDelta { content: String },
    /// Streaming chunk of user-facing markdown text.
    MessageDelta { content: String },
    /// The agent decided to call a tool.
    ToolCall { name: String, args: Json },
    /// The result of a tool call.
    ToolResult { name: String, result: Json },
    /// The agent finished and returned its final text.
    Done { text: String },
    /// An error occurred during agent execution.
    Error { message: String },
}

/// The mathematical value of a [`GliaEvent`].
pub enum EventModel {
    Status { status: Seq<char> },
    ThinkingDelta { content: Seq<char> },
    MessageDelta { content: Seq<char> },
    ToolCall { name: Seq<char>, args: JsonModel },
    ToolResult { name: Seq<char>, result: JsonModel },
    Done { text: Seq<char> },
    Error { message: Seq<char> },
}

impl View for GliaEvent {
    type V = EventModel;

    open spec fn view(&self) -> EventModel {
        match self {
            GliaEvent::Status { status } => EventModel::Status { status: status@ },
            GliaEvent::ThinkingDelta { content } => EventModel::ThinkingDelta { content: content@ },
            GliaEvent::MessageDelta { content } => EventModel::MessageDelta { content: content@ },
            GliaEvent::ToolCall { name, args } => EventModel::ToolCall { name: name@, args: args@ },
            GliaEvent::ToolResult { name, result } => EventModel::ToolResult {
                name: name@,
                result: result@,
            },
            GliaEvent::Done { text } => EventModel::Done { text: text@ },
            GliaEvent::Error { message } => EventModel::Error { message: message@ },
        }
    }
}

impl EventModel {
    /// Whether the event ends a run: `done` and `error` do.
    pub open spec fn is_terminal(self) -> bool {
        self is Done || self is Error
    }
}

/// The fields with `key` holding the text `value` when there is a value,
/// unchanged when there is none: a field that is left out when absent.
pub open spec fn with_optional(
    fields: Map<Seq<char>, JsonModel>,
    key: Seq<char>,
    value: Option<Seq<char>>,
) -> Map<Seq<char>, JsonModel> {
    match value {
        Some(s) => fields.insert(key, JsonModel::Str(s)),
        None => fields,
    }
}

impl DynamicTool {
    /// The JSON object that stands for the tool: `name`, `description`,
    /// `parameters`, and `webhook_url` when there is one.
    pub open spec fn wire(self) -> JsonModel {
        JsonModel::Object(
            with_optional(
                Map::empty().insert("name"@, JsonModel::Str(self.name@)).insert(
                    "description"@,
                    JsonModel::Str(self.description@),
                ).insert("parameters"@, self.parameters@),
                "webhook_url"@,
                self.webhook_url.deep_view(),
            ),
        )
    }
}

/// The JSON objects that stand for a list of tools.
pub open spec fn tools_wire(tools: Seq<DynamicTool>) -> Seq<JsonModel> {
    tools.map_values(|t: DynamicTool| t.wire())
}

/// The JSON object sent with `run`: `message`, then `system_prompt` when
/// there is one, `tools` when there are any, `provider` and `model` when
/// there are.
pub open spec fn run_payload_wire(
    message: Seq<char>,
    system_prompt: Option<Seq<char>>,
    tools: Seq<DynamicTool>,
    provider: Option<Seq<char>>,
    model: Option<Seq<char>>,
) -> JsonModel {
    let head = with_optional(
        Map::empty().insert("message"@, JsonModel::Str(message)),
        "system_prompt"@,
        system_prompt,
    );
    let with_tools = if tools.len() == 0 {
        head
    } else {
        head.insert("tools"@, JsonModel::Array(tools_wire(tools)))
    };
    JsonModel::Object(
        with_optional(with_optional(with_tools, "provider"@, provider), "model"@, model),
    )
}

impl RunPayload {
    /// The JSON object sent with `run`.
    pub open spec fn wire(self) -> JsonModel {
        run_payload_wire(
            self.message@,
            self.system_prompt.deep_view(),
            self.tools@,
            self.provider.deep_view(),
            self.model.deep_view(),
        )
    }
}

/// Appends `key: value` to `entries` when there is a value.
fn push_optional(entries: &mut Vec<(String, Json)>, key: &str, value: &Option<String>)
    ensures
        entry_map(final(entries)@) == with_optional(
            entry_map(old(entries)@),
            key@,
            value.deep_view(),
        ),
{
    match value {
        Some(v) => {
            let e = (String::from_str(key), Json::Str(v.clone()));
            proof {
                lemma_entry_map_push(entries@, e);
            }
            entries.push(e);
        },
        None => {},
    }
}

impl DynamicTool {
    /// The JSON object that stands for the tool.
    pub fn to_json(&self) -> (j: Json)
        ensures
            j@ == self.wire(),
    {
        let mut entries: Vec<(String, Json)> = Vec::new();
        let e1 = (String::from_str("name"), Json::Str(self.name.clone()));
        proof {
            lemma_entry_map_push(entries@, e1);
        }
        entries.push(e1);
        let e2 = (String::from_str("description"), Json::Str(self.description.clone()));
        proof {
            lemma_entry_map_push(entries@, e2);
        }
        entries.push(e2);
        let e3 = (String::from_str("parameters"), self.parameters.clone());
        proof {
            lemma_entry_map_push(entries@, e3);
        }
        entries.push(e3);
        push_optional(&mut entries, "webhook_url", &self.webhook_url);
        proof {
            assert(entry_map(Seq::<(String, Json)>::empty()) =~= Map::empty());
            assert(entry_map(entries@) =~= self.wire()->Object_0);
        }
        Json::Object(entries)
    }
}

impl RunPayload {
    /// The JSON object sent with `run`.
    pub fn to_json(&self) -> (j: Json)
        ensures
            j@ == self.wire(),
    {
        let mut entries: Vec<(String, Json)> = Vec::new();
        let e1 = (String::from_str("message"), Json::Str(self.message.clone()));
        proof {
            lemma_entry_map_push(entries@, e1);
            assert(entry_map(Seq::<(String, Json)>::empty()) =~= Map::empty());
        }
        entries.push(e1);
        push_optional(&mut entries, "system_prompt", &self.system_prompt);
        if self.tools.len() > 0 {
            let mut items: Vec<Json> = Vec::new();
            let mut i: usize = 0;
            proof {
                assert(models(Seq::<Json>::empty()) =~= Seq::empty());
                assert(tools_wire(self.tools@).take(0) =~= Seq::empty());
            }
            while i < self.tools.len()
                invariant
                    i <= self.tools.len(),
                    models(items@) == tools_wire(self.tools@).take(i as int),
                decreases self.tools.len() - i,
            {
                let t = self.tools[i].to_json();
                proof {
                    lemma_models_push(items@, t);
                    assert(tools_wire(self.tools@).take(i + 1) =~= tools_wire(self.tools@).take(
                        i as int,
                    ).push(t@));
                }
                items.push(t);
                i = i + 1;
            }
            proof {
                assert(tools_wire(self.tools@).take(i as int) =~= tools_wire(self.tools@));
            }
            let e = (String::from_str("tools"), Json::Array(items));
            proof {
                lemma_entry_map_push(entries@, e);
            }
            entries.push(e);
        }
        push_optional(&mut entries, "provider", &self.provider);
        push_optional(&mut entries, "model", &self.model);
        proof {
            assert(entry_map(entries@) =~= self.wire()->Object_0);
        }
        Json::Object(entries)
    }
}

/// The value stored under `key`, or `null` when there is none.
pub open spec fn field_or_null(payload: JsonModel, key: Seq<char>) -> JsonModel {
    match payload.field(key) {
        Some(v) => v,
        None => JsonModel::Null,
    }
}

/// The text stored under `key`, or `default` when there is no text there.
pub open spec fn text_field_or(payload: JsonModel, key: Seq<char>, default: Seq<char>) -> Seq<
    char,
> {
    match payload.text_field(key) {
        Some(t) => t,
        None => default,
    }
}

/// The event that a raw Phoenix event name and payload stand for.
///
/// `status`, `thinking_delta`, `message_delta`, `tool_call` and
/// `tool_result` need their text field (`status`, `content`, `content`,
/// `name`, `name`); `done` and `error` always give an event, with the empty
/// text and "Unknown error" when their text is missing. Any other name gives
/// no event.
pub open spec fn event_of(name: Seq<char>, payload: JsonModel) -> Option<EventModel> {
    if name == "status"@ {
        match payload.text_field("status"@) {
            Some(s) => Some(EventModel::Status { status: s }),
            None => None,
        }
    } else if name == "thinking_delta"@ {
        match payload.text_field("content"@) {
            Some(c) => Some(EventModel::ThinkingDelta { content: c }),
            None => None,
        }
    } else if name == "message_delta"@ {
        match payload.text_field("content"@) {
            Some(c) => Some(EventModel::MessageDelta { content: c }),
            None => None,
        }
    } else if name == "tool_call"@ {
        match payload.text_field("name"@) {
            Some(n) => Some(EventModel::ToolCall { name: n, args: field_or_null(payload, "args"@) }),
            None => None,
        }
    } else if name == "tool_result"@ {
        match payload.text_field("name"@) {
            Some(n) => Some(
                EventModel::ToolResult { name: n, result: field_or_null(payload, "result"@) },
            ),
            None => None,
        }
    } else if name == "done"@ {
        Some(EventModel::Done { text: text_field_or(payload, "text"@, Seq::empty()) })
    } else if name == "error"@ {
        Some(EventModel::Error { message: text_field_or(payload, "message"@, "Unknown error"@) })
    } else {
        None
    }
}

/// The names of the events that the runtime emits.
pub open spec fn known_event_name(name: Seq<char>) -> bool {
    ||| name == "status"@
    ||| name == "thinking_delta"@
    ||| name == "message_delta"@
    ||| name == "tool_call"@
    ||| name == "tool_result"@
    ||| name == "done"@
    ||| name == "error"@
}

/// Only the runtime's event names give events, `done` and `error` always
/// do, and an event of each kind comes only from its own name.
pub proof fn lemma_event_names(name: Seq<char>, payload: JsonModel)
    ensures
        event_of(name, payload) is Some ==> known_event_name(name),
        name == "done"@ ==> event_of(name, payload) is Some,
        name == "error"@ ==> event_of(name, payload) is Some,
        event_of(name, payload) matches Some(e) ==> (e is Done <==> name == "done"@),
        event_of(name, payload) matches Some(e) ==> (e is Error <==> name == "error"@),
        event_of(name, payload) matches Some(e) ==> (e is Status <==> name == "status"@),
{
    reveal_strlit("status");
    reveal_strlit("thinking_delta");
    reveal_strlit("message_delta");
    reveal_strlit("tool_call");
    reveal_strlit("tool_result");
    reveal_strlit("done");
    reveal_strlit("error");
    // the seven names have seven different lengths
    assert("status"@.len() == 6);
    assert("thinking_delta"@.len() == 14);
    assert("message_delta"@.len() == 13);
    assert("tool_call"@.len() == 9);
    assert("tool_result"@.len() == 11);
    assert("done"@.len() == 4);
    assert("error"@.len() == 5);
}

/// The text held under `key` in a payload, when the value there is a string.
pub open spec fn string_at(payload: JsonModel, key: Seq<char>) -> Option<Seq<char>> {
    match payload.field(key) {
        Some(JsonModel::Str(t)) => Some(t),
        _ => None,
    }
}

/// What each event name reads from its payload: `status` its text
/// `status`; `thinking_delta` and `message_delta` their text `content`;
/// `tool_call` its text `name` and, whole, the value under `args`;
/// `tool_result` its text `name` and, whole, the value under `result` (a
/// value that is absent reads as `null`); `done` its text `text`, empty
/// when there is none; `error` its text `message`, "Unknown error" when
/// there is none.
pub proof fn lemma_events_read_their_payload(p: JsonModel)
    ensures
        event_of("status"@, p) == match string_at(p, "status"@) {
            Some(s) => Some(EventModel::Status { status: s }),
            None => None,
        },
        event_of("thinking_delta"@, p) == match string_at(p, "content"@) {
            Some(c) => Some(EventModel::ThinkingDelta { content: c }),
            None => None,
        },
        event_of("message_delta"@, p) == match string_at(p, "content"@) {
            Some(c) => Some(EventModel::MessageDelta { content: c }),
            None => None,
        },
        event_of("tool_call"@, p) == match string_at(p, "name"@) {
            Some(n) => Some(
                EventModel::ToolCall {
                    name: n,
                    args: match p.field("args"@) {
                        Some(a) => a,
                        None => JsonModel::Null,
                    },
                },
            ),
            None => None,
        },
        event_of("tool_result"@, p) == match string_at(p, "name"@) {
            Some(n) => Some(
                EventModel::ToolResult {
                    name: n,
                    result: match p.field("result"@) {
                        Some(r) => r,
                        None => JsonModel::Null,
                    },
                },
            ),
            None => None,
        },
        event_of("done"@, p) == Some(
            EventModel::Done {
                text: match string_at(p, "text"@) {
                    Some(t) => t,
                    None => Seq::empty(),
                },
            },
        ),
        event_of("error"@, p) == Some(
            EventModel::Error {
                message: match string_at(p, "message"@) {
                    Some(m) => m,
                    None => "Unknown error"@,
                },
            },
        ),
{
    reveal_strlit("status");
    reveal_strlit("thinking_delta");
    reveal_strlit("message_delta");
    reveal_strlit("tool_call");
    reveal_strlit("tool_result");
    reveal_strlit("done");
    reveal_strlit("error");
    assert("status"@.len() == 6);
    assert("thinking_delta"@.len() == 14);
    assert("message_delta"@.len() == 13);
    assert("tool_call"@.len() == 9);
    assert("tool_result"@.len() == 11);
    assert("done"@.len() == 4);
    assert("error"@.len() == 5);
}

/// Exactly the `done` and `error` events end a run; every other event is
/// streamed and the run goes on.
pub proof fn lemma_terminal_events(e: EventModel)
    ensures
        e.is_terminal() <==> (e is Done || e is Error),
        e is Status ==> !e.is_terminal(),
        e is ThinkingDelta ==> !e.is_terminal(),
        e is MessageDelta ==> !e.is_terminal(),
        e is ToolCall ==> !e.is_terminal(),
        e is ToolResult ==> !e.is_terminal(),
{
}

/// The object of a tool carries its name, description and parameters, and
/// its webhook URL exactly when it has one.
pub proof fn lemma_tool_fields(t: DynamicTool)
    ensures
        t.wire().field("name"@) == Some(JsonModel::Str(t.name@)),
        t.wire().field("description"@) == Some(JsonModel::Str(t.description@)),
        t.wire().field("parameters"@) == Some(t.parameters@),
        t.wire().field("webhook_url"@) == match t.webhook_url {
            Some(u) => Some(JsonModel::Str(u@)),
            None => None::<JsonModel>,
        },
{
    reveal_strlit("name");
    reveal_strlit("description");
    reveal_strlit("parameters");
    reveal_strlit("webhook_url");
    assert("name"@.len() == 4);
    assert("description"@.len() == 11);
    assert("parameters"@.len() == 10);
    assert("webhook_url"@.len() == 11);
    assert("description"@ != "webhook_url"@) by {
        assert("description"@[0] != "webhook_url"@[0]);
    }
}

/// The `run` payload carries the message, the system prompt, provider and
/// model when given, and every tool: its `tools` array has one object per
/// tool, in order, each the tool's own object; it is left out when there
/// are no tools.
pub proof fn lemma_run_payload_fields(
    message: Seq<char>,
    system_prompt: Option<Seq<char>>,
    tools: Seq<DynamicTool>,
    provider: Option<Seq<char>>,
    model: Option<Seq<char>>,
)
    ensures
        ({
            let w = run_payload_wire(message, system_prompt, tools, provider, model);
            &&& w.field("message"@) == Some(JsonModel::Str(message))
            &&& w.field("system_prompt"@) == match system_prompt {
                Some(t) => Some(JsonModel::Str(t)),
                None => None::<JsonModel>,
            }
            &&& w.field("provider"@) == match provider {
                Some(t) => Some(JsonModel::Str(t)),
                None => None::<JsonModel>,
            }
            &&& w.field("model"@) == match model {
                Some(t) => Some(JsonModel::Str(t)),
                None => None::<JsonModel>,
            }
            &&& tools.len() == 0 ==> w.field("tools"@) is None
            &&& tools.len() > 0 ==> (w.field("tools"@) matches Some(JsonModel::Array(items))
                && items.len() == tools.len() && forall|i: int|
                0 <= i < tools.len() ==> #[trigger] items[i] == tools[i].wire())
        }),
{
    reveal_strlit("message");
    reveal_strlit("system_prompt");
    reveal_strlit("tools");
    reveal_strlit("provider");
    reveal_strlit("model");
    assert("message"@.len() == 7);
    assert("system_prompt"@.len() == 13);
    assert("tools"@.len() == 5);
    assert("provider"@.len() == 8);
    assert("model"@.len() == 5);
    assert("tools"@ != "model"@) by {
        assert("tools"@[0] != "model"@[0]);
    }
}

/// The text stored under `key` in `payload`, copied.
fn text_field(payload: &Json, key: &str) -> (r: Option<String>)
    ensures
        r.deep_view() == payload@.text_field(key@),
{
    match payload.get(key) {
        Some(v) => match v.as_str() {
            Some(s) => Some(String::from_str(s)),
            None => None,
        },
        None => None,
    }
}

/// The value stored under `key` in `payload`, copied, or `null`.
fn field_copy(payload: &Json, key: &str) -> (r: Json)
    ensures
        r@ == field_or_null(payload@, key@),
{
    match payload.get(key) {
        Some(v) => v.clone(),
        None => Json::Null,
    }
}

impl GliaEvent {
    /// Classifies a raw Phoenix event and its payload.
    pub fn parse(event_name: &str, payload: &Json) -> (r: Option<GliaEvent>)
        ensures
            match r {
                Some(e) => event_of(event_name@, payload@) == Some(e@),
                None => event_of(event_name@, payload@) is None,
            },
    {
        if same_text(event_name, "status") {
            match text_field(payload, "status") {
                Some(status) => Some(GliaEvent::Status { status }),
                None => None,
            }
        } else if same_text(event_name, "thinking_delta") {
            match text_field(payload, "content") {
                Some(content) => Some(GliaEvent::ThinkingDelta { content }),
                None => None,
            }
        } else if same_text(event_name, "message_delta") {
            match text_field(payload, "content") {
                Some(content) => Some(GliaEvent::MessageDelta { content }),
                None => None,
            }
        } else if same_text(event_name, "tool_call") {
            match text_field(payload, "name") {
                Some(name) => Some(GliaEvent::ToolCall { name, args: field_copy(payload, "args") }),
                None => None,
            }
        } else if same_text(event_name, "tool_result") {
            match text_field(payload, "name") {
                Some(name) => Some(
                    GliaEvent::ToolResult { name, result: field_copy(payload, "result") },
                ),
                None => None,
            }
        } else if same_text(event_name, "done") {
            let text = match text_field(payload, "text") {
                Some(t) => t,
                None => String::new(),
            };
            Some(GliaEvent::Done { text })
        } else if same_text(event_name, "error") {
            let message = match text_field(payload, "message") {
                Some(m) => m,
                None => String::from_str("Unknown error"),
            };
            Some(GliaEvent::Error { message })
        } else {
            None
        }
    }

    /// Whether the event ends a run.
    pub fn is_terminal(&self) -> (r: bool)
        ensures
            r == self@.is_terminal(),
    {
        match self {
            GliaEvent::Done { .. } => true,
            GliaEvent::Error { .. } => true,
            _ => false,
        }
    }
}

} // verus!

//! Chat messages and the parts of a chat call that do not touch the network:
//! what is sent (endpoint, key, model, messages) and what is made of the reply.
use vstd::prelude::*;

use crate::config::{opt_view, AppConfig};
use crate::error::AiError;
use crate::text::{append_str, chars_of, same_chars, to_string};

verus! {

/// Who wrote a chat message.
#[derive(Debug, Clone, Copy, PartialEq, Eq, Structural)]
pub enum Role {
    System,
    User,
    Assistant,
}

impl Role {
    /// The name shown to the user ("System", "User", "Assistant").
    pub open spec fn spec_display(self) -> Seq<char> {
        match self {
            Role::System => "System"@,
            Role::User => "User"@,
            Role::Assistant => "Assistant"@,
        }
    }

    /// The name shown to the user ("System", "User", "Assistant").
    pub fn display_name(&self) -> (r: &'static str)
        ensures
            r@ == self.spec_display(),
    {
        match self {
            Role::System => "System",
            Role::User => "User",
            Role::Assistant => "Assistant",
        }
    }

    /// The role name that the chat API expects ("system", "user", "assistant").
    pub open spec fn spec_wire(self) -> Seq<char> {
        match self {
            Role::System => "system"@,
            Role::User => "user"@,
            Role::Assistant => "assistant"@,
        }
    }

    /// The role name that the chat API expects ("system", "user", "assistant").
    pub fn wire_name(&self) -> (r: &'static str)
        ensures
            r@ == self.spec_wire(),
    {
        match self {
            Role::System => "system",
            Role::User => "user",
            Role::Assistant => "assistant",
        }
    }
}

/// Chat message
#[derive(Debug, Clone)]
pub struct Message {
    pub role: Role,
    pub content: String,
}

/// A chat message as the specifications see it.
pub struct MessageSpec {
    pub role: Role,
    pub content: Seq<char>,
}

impl View for Message {
    type V = MessageSpec;

    open spec fn view(&self) -> MessageSpec {
        MessageSpec { role: self.role, content: self.content@ }
    }
}

/// The views of a sequence of messages.
pub open spec fn message_views(v: Seq<Message>) -> Seq<MessageSpec> {
    v.map_values(|m: Message| m@)
}

impl Message {
    /// A system message.
    pub fn system(content: &str) -> (m: Message)
        ensures
            m@ == (MessageSpec { role: Role::System, content: content@ }),
    {
        Message { role: Role::System, content: content.to_owned() }
    }

    /// A user message.
    pub fn user(content: &str) -> (m: Message)
        ensures
            m@ == (MessageSpec { role: Role::User, content: content@ }),
    {
        Message { role: Role::User, content: content.to_owned() }
    }

    /// An assistant message.
    pub fn assistant(content: &str) -> (m: Message)
        ensures
            m@ == (MessageSpec { role: Role::Assistant, content: content@ }),
    {
        Message { role: Role::Assistant, content: content.to_owned() }
    }

    /// A copy of this message.
    pub fn duplicate(&self) -> (m: Message)
        ensures
            m@ == self@,
    {
        Message { role: self.role, content: self.content.clone() }
    }
}

/// Model used when the configuration names none.
pub const DEFAULT_MODEL: &'static str = "gpt-3.5-turbo";

/// API base used when the configuration names none.
pub const DEFAULT_API_BASE: &'static str = "https://api.openai.com";

/// Path of the chat endpoint below the API base.
pub const CHAT_PATH: &'static str = "/v1/chat/completions";

/// A message as it is sent: the API role name and the text.
pub struct WireMessage {
    pub role: &'static str,
    pub content: String,
}

/// Everything a chat call sends: where, with which key, to which model, what.
pub struct ChatRequest {
    pub url: String,
    pub api_key: String,
    pub model: String,
    pub messages: Vec<WireMessage>,
}

/// The value of an optional setting, or the given default.
pub open spec fn or_default(o: Option<Seq<char>>, d: Seq<char>) -> Seq<char> {
    match o {
        Some(s) => s,
        None => d,
    }
}

/// The messages of a request hold the API role name and the text of each message, in order.
pub open spec fn wire_matches(wire: Seq<WireMessage>, msgs: Seq<Message>) -> bool {
    &&& wire.len() == msgs.len()
    &&& forall|i: int|
        0 <= i < msgs.len() ==> (#[trigger] wire[i]).role@ == msgs[i].role.spec_wire()
            && wire[i].content@ == msgs[i].content@
}

/// Prepares a chat call: the endpoint is the configured API base (or the
/// OpenAI one) followed by `/v1/chat/completions`, the model is the
/// configured one (or `gpt-3.5-turbo`), the messages keep their order.
/// Fails with `MissingApiKey` exactly when no key is configured.
pub fn chat_request(cfg: &AppConfig, messages: &[Message]) -> (r: Result<ChatRequest, AiError>)
    ensures
        r is Err <==> cfg.api_key is None,
        r matches Err(e) ==> e == AiError::MissingApiKey,
        r matches Ok(req) ==> {
            &&& req.url@ == or_default(opt_view(cfg.api_base), DEFAULT_API_BASE@) + CHAT_PATH@
            &&& req.model@ == or_default(opt_view(cfg.model), DEFAULT_MODEL@)
            &&& Some(req.api_key@) == opt_view(cfg.api_key)
            &&& wire_matches(req.messages@, messages@)
        },
{
    let model = match &cfg.model {
        Some(m) => m.clone(),
        None => DEFAULT_MODEL.to_owned(),
    };
    let mut wire: Vec<WireMessage> = Vec::new();
    let n = messages.len();
    for i in 0..n
        invariant
            n == messages@.len(),
            wire_matches(wire@, messages@.take(i as int)),
    {
        let m = &messages[i];
        wire.push(WireMessage { role: m.role.wire_name(), content: m.content.clone() });
        assert forall|k: int| 0 <= k < i + 1 implies (#[trigger] wire@[k]).role@
            == messages@.take(i + 1)[k].role.spec_wire() && wire@[k].content@ == messages@.take(
            i + 1,
        )[k].content@ by {
            if k < i {
                assert(messages@.take(i + 1)[k] == messages@.take(i as int)[k]);
            }
        }
    }
    assert(messages@.take(n as int) =~= messages@);
    let mut url = match &cfg.api_base {
        Some(b) => chars_of(b.as_str()),
        None => chars_of(DEFAULT_API_BASE),
    };
    append_str(&mut url, CHAT_PATH);
    let url = to_string(&url);
    match &cfg.api_key {
        Some(key) => Ok(ChatRequest { url, api_key: key.clone(), model, messages: wire }),
        None => Err(AiError::MissingApiKey),
    }
}

/// A JSON value, holding what is read of a chat answer.
#[derive(Debug)]
pub enum Json {
    Null,
    Str(String),
    Array(Vec<Json>),
    /// The members of an object, in order, each key once.
    Object(Vec<(String, Json)>),
    /// A boolean or a number; their values are never read.
    Other,
}

/// The value of the first member named `key`.
pub open spec fn lookup(members: Seq<(String, Json)>, key: Seq<char>) -> Option<Json>
    decreases members.len(),
{
    if members.len() == 0 {
        None
    } else if members[0].0@ == key {
        Some(members[0].1)
    } else {
        lookup(members.drop_first(), key)
    }
}

/// The member `key` of an object; `None` for a missing member or a non-object.
pub open spec fn field(v: Json, key: Seq<char>) -> Option<Json> {
    match v {
        Json::Object(members) => lookup(members@, key),
        _ => None,
    }
}

/// The first element of an array; `None` for an empty array or a non-array.
pub open spec fn first_item(v: Json) -> Option<Json> {
    match v {
        Json::Array(items) => if items@.len() > 0 {
            Some(items@[0])
        } else {
            None
        },
        _ => None,
    }
}

/// The string at `choices[0].message.content` of a chat answer, if there is one.
pub open spec fn reply_text(answer: Json) -> Option<Seq<char>> {
    match field(answer, "choices"@) {
        Some(choices) => match first_item(choices) {
            Some(choice) => match field(choice, "message"@) {
                Some(message) => match field(message, "content"@) {
                    Some(Json::Str(text)) => Some(text@),
                    _ => None,
                },
                None => None,
            },
            None => None,
        },
        None => None,
    }
}

/// The member `key` of an object, if it has one.
pub fn get_field<'a>(v: &'a Json, key: &str) -> (r: Option<&'a Json>)
    ensures
        r matches Some(x) ==> field(*v, key@) == Some(*x),
        r is None ==> field(*v, key@) is None,
{
    match v {
        Json::Object(members) => {
            let k = chars_of(key);
            let n = members.len();
            let mut i: usize = 0;
            assert(members@.skip(0) =~= members@);
            while i < n
                invariant
                    i <= n,
                    n == members@.len(),
                    k@ == key@,
                    field(*v, key@) == lookup(members@, key@),
                    lookup(members@, key@) == lookup(members@.skip(i as int), key@),
                decreases n - i,
            {
                assert(members@.skip(i as int)[0] == members@[i as int]);
                assert(members@.skip(i as int).drop_first() =~= members@.skip(i + 1));
                let name = chars_of(members[i].0.as_str());
                if same_chars(&name, &k) {
                    let found = &members[i].1;
                    assert(members@.skip(i as int)[0].0@ == key@);
                    assert(lookup(members@.skip(i as int), key@) == Some(members@[i as int].1));
                    assert(*found == members@[i as int].1);
                    return Some(found);
                }
                i = i + 1;
            }
            None
        },
        _ => None,
    }
}

/// The first element of an array, if it has one.
pub fn get_first(v: &Json) -> (r: Option<&Json>)
    ensures
        r matches Some(x) ==> first_item(*v) == Some(*x),
        r is None ==> first_item(*v) is None,
{
    match v {
        Json::Array(items) => if items.len() > 0 {
            Some(&items[0])
        } else {
            None
        },
        _ => None,
    }
}

/// The reply text of a chat call: the string at `choices[0].message.content`
/// of the answer; otherwise an `InvalidResponse` error that carries `raw`,
/// the whole answer as text.
pub fn chat_reply(answer: &Json, raw: String) -> (r: Result<String, AiError>)
    ensures
        reply_text(*answer) matches Some(t) ==> (r matches Ok(s) && s@ == t),
        reply_text(*answer) is None ==> (r matches Err(AiError::InvalidResponse { reason, raw: body })
            && reason@ == "missing content"@ && body@ == raw@),
{
    let text = match get_field(answer, "choices") {
        Some(choices) => match get_first(choices) {
            Some(choice) => match get_field(choice, "message") {
                Some(message) => match get_field(message, "content") {
                    Some(Json::Str(t)) => Some(t.clone()),
                    _ => None,
                },
                None => None,
            },
            None => None,
        },
        None => None,
    };
    match text {
        Some(c) => Ok(c),
        None => Err(AiError::InvalidResponse { reason: "missing content".to_owned(), raw }),
    }
}

} // verus!

//! Construction of the outbound chat request.
//!
//! A caller hands in a conversation history plus optional model and
//! temperature overrides; the effective request prepends the fixed
//! system-role instruction ahead of the history, applies the defaults where
//! an override is absent, and always asks for a streamed response.

use vstd::prelude::*;

verus! {

/// The author of one message of a conversation.
#[derive(Clone, Copy, Debug, PartialEq, Eq, Structural)]
pub enum Role {
    System,
    User,
    Assistant,
}

/// One message of a conversation, immutable once constructed.
#[derive(Debug)]
pub struct ChatMessage {
    pub role: Role,
    pub content: String,
}

/// The mathematical value of a [`ChatMessage`].
pub struct MessageView {
    pub role: Role,
    pub content: Seq<char>,
}

impl View for ChatMessage {
    type V = MessageView;

    open spec fn view(&self) -> MessageView {
        MessageView { role: self.role, content: self.content@ }
    }
}

/// The views of a sequence of messages, in order.
pub open spec fn msg_views(ms: Seq<ChatMessage>) -> Seq<MessageView> {
    ms.map_values(|m: ChatMessage| m@)
}

/// What a caller supplies: the ordered history, which may be empty, and the
/// optional overrides.  The temperature is carried in thousandths, so that
/// the fractional setting of the remote interface stays a plain integer
/// here; the surrounding application divides by a thousand on the wire.
pub struct ChatInput {
    pub messages: Vec<ChatMessage>,
    pub model: Option<String>,
    pub temperature_milli: Option<u32>,
}

/// The effective request, built once per invocation and never mutated after
/// being sent.
pub struct ChatRequest {
    pub model: String,
    pub messages: Vec<ChatMessage>,
    pub temperature_milli: u32,
    pub stream: bool,
}

/// The default temperature, in thousandths: 1.0 on the wire.
pub const DEFAULT_TEMPERATURE_MILLI: u32 = 1000;

/// The default model identifier.
pub open spec fn default_model() -> Seq<char> {
    "gpt-4.1-mini"@
}

/// The content of the fixed system-role instruction prepended to every
/// conversation.
pub open spec fn system_prompt() -> Seq<char> {
    "あなたは優秀プログラマーです。プログラミングのことを聞かれたらコード例を必ず示してください。エラーの内容があれば解決できるコードを提供すること。Markdown形式で返してください。ユーザーに次に質問することを具体的な質問例など示して誘導してください。改行使って読みやすくしてください。"@
}

/// The fixed system message as a value.
pub open spec fn system_message_view() -> MessageView {
    MessageView { role: Role::System, content: system_prompt() }
}

/// The name a role carries on the wire.
pub open spec fn role_text(role: Role) -> Seq<char> {
    match role {
        Role::System => "system"@,
        Role::User => "user"@,
        Role::Assistant => "assistant"@,
    }
}

/// The wire name of a role.
pub fn role_name(role: &Role) -> (s: String)
    ensures
        s@ == role_text(*role),
{
    match role {
        Role::System => "system".to_owned(),
        Role::User => "user".to_owned(),
        Role::Assistant => "assistant".to_owned(),
    }
}

fn system_prompt_text() -> (s: String)
    ensures
        s@ == system_prompt(),
{
    "あなたは優秀プログラマーです。プログラミングのことを聞かれたらコード例を必ず示してください。エラーの内容があれば解決できるコードを提供すること。Markdown形式で返してください。ユーザーに次に質問することを具体的な質問例など示して誘導してください。改行使って読みやすくしてください。".to_owned()
}

fn default_model_text() -> (s: String)
    ensures
        s@ == default_model(),
{
    "gpt-4.1-mini".to_owned()
}

/// Build the effective request: the fixed system message ahead of the
/// caller's history in its order, the model and temperature overrides
/// applied verbatim where present and the defaults where absent, and the
/// streaming flag fixed to enabled.
pub fn build_request(input: ChatInput) -> (r: ChatRequest)
    ensures
        msg_views(r.messages@) == seq![system_message_view()] + msg_views(input.messages@),
        r.model@ == match input.model {
            Some(m) => m@,
            None => default_model(),
        },
        r.temperature_milli == match input.temperature_milli {
            Some(t) => t,
            None => DEFAULT_TEMPERATURE_MILLI,
        },
        r.stream,
{
    let system = ChatMessage { role: Role::System, content: system_prompt_text() };
    let mut messages = input.messages;
    let ghost history = messages@;
    messages.insert(0, system);
    proof {
        assert(messages@ =~= seq![system] + history);
        assert(msg_views(messages@) =~= seq![system_message_view()] + msg_views(history));
    }
    let model = match input.model {
        Some(m) => m,
        None => default_model_text(),
    };
    let temperature_milli = match input.temperature_milli {
        Some(t) => t,
        None => DEFAULT_TEMPERATURE_MILLI,
    };
    ChatRequest { model, messages, temperature_milli, stream: true }
}

/// Relies on `String::push_str`: appends the slice onto the end of the
/// string.
#[verifier::external_body]
fn string_push_str(s: &mut String, piece: &str)
    ensures
        final(s)@ == old(s)@ + piece@,
{
    s.push_str(piece)
}

/// The greeting of the user interface's smoke check.
pub fn greet(name: &str) -> (r: String)
    ensures
        r@ == "Hello, "@ + name@ + "! You've been greeted from Rust!"@,
{
    let mut r = "Hello, ".to_owned();
    string_push_str(&mut r, name);
    string_push_str(&mut r, "! You've been greeted from Rust!");
    r
}

} // verus!

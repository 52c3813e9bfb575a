//! Requests to OpenAI-compatible chat APIs: reasoning budgets, messages,
//! addresses, headers, the retry rule and the model list of a response.
use vstd::prelude::*;
use crate::text::{
    chars_of, copy_string, is_blank, push_str, str_eq, str_to_string, string_of, trim_end_char,
    trim_end_char_exec,
};

verus! {

/// Extended Thinking / reasoning configuration.
#[derive(Debug, Clone, Copy, PartialEq, Eq, Structural)]
pub struct ReasoningConfig {
    pub enabled: bool,
    /// Reasoning token budget (at least 1024 when enabled).
    pub budget: u32,
}

/// The smallest reasoning budget providers accept.
pub const MIN_REASONING_BUDGET: u32 = 1024;

/// `max(a, b)`.
pub open spec fn max_u32(a: u32, b: u32) -> u32 {
    if a >= b {
        a
    } else {
        b
    }
}

impl Default for ReasoningConfig {
    fn default() -> (r: Self)
        ensures
            r == (ReasoningConfig { enabled: false, budget: 0 }),
    {
        ReasoningConfig { enabled: false, budget: 0 }
    }
}

impl ReasoningConfig {
    /// A configuration; an enabled one gets at least the minimum budget.
    pub fn new(enabled: bool, budget: u32) -> (r: Self)
        ensures
            r.enabled == enabled,
            r.budget == if enabled {
                max_u32(budget, MIN_REASONING_BUDGET)
            } else {
                budget
            },
    {
        ReasoningConfig {
            enabled,
            budget: if enabled {
                if budget >= MIN_REASONING_BUDGET {
                    budget
                } else {
                    MIN_REASONING_BUDGET
                }
            } else {
                budget
            },
        }
    }
}

/// The token limits of a request: with reasoning, the reasoning budget (at
/// least 1024) and a total of `max(4000, budget + 2000)`; without, none.
pub fn token_limits(reasoning: ReasoningConfig) -> (r: (Option<u32>, Option<u32>))
    requires
        reasoning.enabled ==> max_u32(reasoning.budget, MIN_REASONING_BUDGET) + 2000 <= u32::MAX,
    ensures
        reasoning.enabled ==> r == (
            Some(max_u32((max_u32(reasoning.budget, MIN_REASONING_BUDGET) + 2000) as u32, 4000)),
            Some(max_u32(reasoning.budget, MIN_REASONING_BUDGET)),
        ),
        !reasoning.enabled ==> r == (None::<u32>, None::<u32>),
{
    if reasoning.enabled {
        let budget = if reasoning.budget >= MIN_REASONING_BUDGET {
            reasoning.budget
        } else {
            MIN_REASONING_BUDGET
        };
        let sum = budget + 2000;
        let total = if sum >= 4000 {
            sum
        } else {
            4000
        };
        (Some(total), Some(budget))
    } else {
        (None, None)
    }
}

/// A chat message.
#[derive(Debug)]
pub struct ChatMessage {
    pub role: String,
    pub content: String,
}

/// Model of a message list: (role, content) pairs.
pub open spec fn messages_view(v: Seq<ChatMessage>) -> Seq<(Seq<char>, Seq<char>)> {
    v.map_values(|m: ChatMessage| (m.role@, m.content@))
}

/// The messages of a request: the system prompt first, unless blank, then
/// the user prompt.
pub fn chat_messages(system_prompt: String, user_prompt: String) -> (r: Vec<ChatMessage>)
    ensures
        messages_view(r@) == if crate::text::all_ws(system_prompt@) {
            seq![("user"@, user_prompt@)]
        } else {
            seq![("system"@, system_prompt@), ("user"@, user_prompt@)]
        },
{
    let mut v: Vec<ChatMessage> = Vec::new();
    let blank = is_blank(system_prompt.as_str());
    if !blank {
        v.push(ChatMessage { role: str_to_string("system"), content: system_prompt });
    }
    v.push(ChatMessage { role: str_to_string("user"), content: user_prompt });
    proof {
        if blank {
            assert(messages_view(v@) =~= seq![("user"@, user_prompt@)]);
        } else {
            assert(messages_view(v@) =~= seq![("system"@, system_prompt@), ("user"@, user_prompt@)]);
        }
    }
    v
}

/// A trailing slash on the base address makes no difference to the
/// address of a request.
pub proof fn lemma_trailing_slash_ignored(base_url: Seq<char>, path: Seq<char>)
    ensures
        trim_end_char(base_url.push('/'), '/') + path == trim_end_char(base_url, '/') + path,
{
    assert(base_url.push('/').drop_last() =~= base_url);
}

/// `base_url` without trailing slashes, followed by `path`.
pub fn endpoint_url(base_url: &str, path: &str) -> (r: String)
    ensures
        r@ == trim_end_char(base_url@, '/') + path@,
{
    let v = chars_of(base_url);
    let mut t = trim_end_char_exec(v.as_slice(), '/');
    push_str(&mut t, path);
    string_of(t.as_slice())
}

/// The chat completions address of a provider.
pub fn chat_completions_url(base_url: &str) -> (r: String)
    ensures
        r@ == trim_end_char(base_url@, '/') + "/chat/completions"@,
{
    endpoint_url(base_url, "/chat/completions")
}

/// The model list address of a provider.
pub fn models_url(base_url: &str) -> (r: String)
    ensures
        r@ == trim_end_char(base_url@, '/') + "/models"@,
{
    endpoint_url(base_url, "/models")
}

/// A request with reasoning refused as bad (400) is retried without it.
pub fn should_retry_without_reasoning(status: u16, reasoning_enabled: bool) -> (r: bool)
    ensures
        r == (status == 400 && reasoning_enabled),
{
    status == 400 && reasoning_enabled
}

/// Model of a header list.
pub open spec fn headers_view(v: Seq<(String, String)>) -> Seq<(Seq<char>, Seq<char>)> {
    v.map_values(|p: (String, String)| (p.0@, p.1@))
}

/// The headers every request carries.
pub open spec fn common_headers() -> Seq<(Seq<char>, Seq<char>)> {
    seq![
        ("content-type"@, "application/json"@),
        ("referer"@, "https://github.com/cjpais/Handy"@),
        ("user-agent"@, "Handy/1.0 (+https://github.com/cjpais/Handy)"@),
        ("X-Title"@, "Handy"@),
    ]
}

/// The request headers: the common ones, then the key, as `x-api-key` with
/// an API version for Anthropic and as a bearer token otherwise (no key, no
/// authentication headers).
pub open spec fn spec_headers(provider_id: Seq<char>, api_key: Seq<char>) -> Seq<(Seq<char>, Seq<char>)> {
    if api_key.len() == 0 {
        common_headers()
    } else if provider_id == "anthropic"@ {
        common_headers() + seq![("x-api-key"@, api_key), ("anthropic-version"@, "2023-06-01"@)]
    } else {
        common_headers() + seq![("authorization"@, "Bearer "@ + api_key)]
    }
}

fn pair(a: &str, b: &str) -> (r: (String, String))
    ensures
        r.0@ == a@,
        r.1@ == b@,
{
    (str_to_string(a), str_to_string(b))
}

/// The headers of a request to `provider_id` with `api_key`.
pub fn request_headers(provider_id: &str, api_key: &str) -> (r: Vec<(String, String)>)
    ensures
        headers_view(r@) == spec_headers(provider_id@, api_key@),
{
    let mut v: Vec<(String, String)> = Vec::new();
    v.push(pair("content-type", "application/json"));
    v.push(pair("referer", "https://github.com/cjpais/Handy"));
    v.push(pair("user-agent", "Handy/1.0 (+https://github.com/cjpais/Handy)"));
    v.push(pair("X-Title", "Handy"));
    let ghost c = headers_view(v@);
    assert(c =~= common_headers());
    let key_chars = chars_of(api_key);
    if key_chars.len() > 0 {
        if str_eq(provider_id, "anthropic") {
            v.push(pair("x-api-key", api_key));
            v.push(pair("anthropic-version", "2023-06-01"));
            assert(headers_view(v@) =~= common_headers() + seq![("x-api-key"@, api_key@), ("anthropic-version"@, "2023-06-01"@)]);
        } else {
            let mut b = chars_of("Bearer ");
            push_str(&mut b, api_key);
            let bearer = string_of(b.as_slice());
            v.push((str_to_string("authorization"), bearer));
            assert(headers_view(v@) =~= common_headers() + seq![("authorization"@, "Bearer "@ + api_key@)]);
        }
    }
    v
}

/// A JSON value, as a response body parses to.
#[derive(Debug)]
pub enum JsonValue {
    Null,
    Bool(bool),
    /// A number, as written.
    Number(String),
    Str(String),
    Array(Vec<JsonValue>),
    /// The members of an object, each key once.
    Object(Vec<(String, JsonValue)>),
}

/// The member `key` of an object's members.
pub open spec fn member(fields: Seq<(String, JsonValue)>, key: Seq<char>) -> Option<JsonValue>
    decreases fields.len(),
{
    if fields.len() == 0 {
        None
    } else if fields[0].0@ == key {
        Some(fields[0].1)
    } else {
        member(fields.drop_first(), key)
    }
}

/// A string member `key` of a value, if it is an object with one.
pub open spec fn str_member(v: JsonValue, key: Seq<char>) -> Option<Seq<char>> {
    match v {
        JsonValue::Object(fields) => match member(fields@, key) {
            Some(JsonValue::Str(s)) => Some(s@),
            _ => None,
        },
        _ => None,
    }
}

/// The model named by an entry of `data`: its `id`, else its `name`.
pub open spec fn entry_model(e: JsonValue) -> Option<Seq<char>> {
    match str_member(e, "id"@) {
        Some(id) => Some(id),
        None => str_member(e, "name"@),
    }
}

/// The models named by the entries, in order.
pub open spec fn entries_models(items: Seq<JsonValue>) -> Seq<Seq<char>>
    decreases items.len(),
{
    if items.len() == 0 {
        Seq::empty()
    } else {
        let r = entries_models(items.drop_last());
        match entry_model(items.last()) {
            Some(m) => r.push(m),
            None => r,
        }
    }
}

/// The strings among the items, in order.
pub open spec fn string_items(items: Seq<JsonValue>) -> Seq<Seq<char>>
    decreases items.len(),
{
    if items.len() == 0 {
        Seq::empty()
    } else {
        let r = string_items(items.drop_last());
        match items.last() {
            JsonValue::Str(s) => r.push(s@),
            _ => r,
        }
    }
}

/// The models of a model-list response: `{ "data": [ { "id" | "name" } ] }`,
/// or an array of names.
pub open spec fn models_of(v: JsonValue) -> Seq<Seq<char>> {
    match v {
        JsonValue::Object(fields) => match member(fields@, "data"@) {
            Some(JsonValue::Array(items)) => entries_models(items@),
            _ => Seq::empty(),
        },
        JsonValue::Array(items) => string_items(items@),
        _ => Seq::empty(),
    }
}

/// Model of a list of strings.
pub open spec fn strings_view(v: Seq<String>) -> Seq<Seq<char>> {
    v.map_values(|s: String| s@)
}

fn find_member<'a>(fields: &'a Vec<(String, JsonValue)>, key: &str) -> (r: Option<&'a JsonValue>)
    ensures
        match r {
            Some(v) => member(fields@, key@) == Some(*v),
            None => member(fields@, key@) is None,
        },
{
    let mut i: usize = 0;
    assert(fields@.skip(0) =~= fields@);
    while i < fields.len()
        invariant
            0 <= i <= fields.len(),
            member(fields@, key@) == member(fields@.skip(i as int), key@),
        decreases fields.len() - i,
    {
        assert(fields@.skip(i as int)[0] == fields@[i as int]);
        assert(fields@.skip(i as int).drop_first() =~= fields@.skip(i + 1));
        if str_eq(fields[i].0.as_str(), key) {
            return Some(&fields[i].1);
        }
        i = i + 1;
    }
    None
}

fn string_member(v: &JsonValue, key: &str) -> (r: Option<String>)
    ensures
        match r {
            Some(s) => str_member(*v, key@) == Some(s@),
            None => str_member(*v, key@) is None,
        },
{
    match v {
        JsonValue::Object(fields) => match find_member(fields, key) {
            Some(JsonValue::Str(s)) => Some(copy_string(s)),
            _ => None,
        },
        _ => None,
    }
}

/// The model ids listed in a model-list response.
pub fn model_ids(v: &JsonValue) -> (r: Vec<String>)
    ensures
        strings_view(r@) == models_of(*v),
{
    let mut out: Vec<String> = Vec::new();
    match v {
        JsonValue::Object(fields) => {
            match find_member(fields, "data") {
                Some(JsonValue::Array(items)) => {
                    let mut i: usize = 0;
                    assert(items@.take(0) =~= Seq::<JsonValue>::empty());
                    while i < items.len()
                        invariant
                            0 <= i <= items.len(),
                            strings_view(out@) == entries_models(items@.take(i as int)),
                        decreases items.len() - i,
                    {
                        assert(items@.take(i + 1).drop_last() =~= items@.take(i as int));
                        assert(items@.take(i + 1).last() == items@[i as int]);
                        let ghost before = strings_view(out@);
                        match string_member(&items[i], "id") {
                            Some(id) => {
                                out.push(id);
                                assert(strings_view(out@) =~= before.push(entry_model(items@[i as int])->0));
                            },
                            None => match string_member(&items[i], "name") {
                                Some(name) => {
                                    out.push(name);
                                    assert(strings_view(out@) =~= before.push(entry_model(items@[i as int])->0));
                                },
                                None => {},
                            },
                        }
                        i = i + 1;
                    }
                    assert(items@.take(items.len() as int) =~= items@);
                },
                _ => {
                    assert(strings_view(out@) =~= Seq::<Seq<char>>::empty());
                },
            }
        },
        JsonValue::Array(items) => {
            let mut i: usize = 0;
            assert(items@.take(0) =~= Seq::<JsonValue>::empty());
            while i < items.len()
                invariant
                    0 <= i <= items.len(),
                    strings_view(out@) == string_items(items@.take(i as int)),
                decreases items.len() - i,
            {
                assert(items@.take(i + 1).drop_last() =~= items@.take(i as int));
                assert(items@.take(i + 1).last() == items@[i as int]);
                let ghost before = strings_view(out@);
                match &items[i] {
                    JsonValue::Str(s) => {
                        out.push(copy_string(s));
                        assert(strings_view(out@) =~= before.push(s@));
                    },
                    _ => {},
                }
                i = i + 1;
            }
            assert(items@.take(items.len() as int) =~= items@);
        },
        _ => {
            assert(strings_view(out@) =~= Seq::<Seq<char>>::empty());
        },
    }
    out
}

/// The error for a refused request.
pub fn request_failed_message(status: &str, body: &str) -> (r: String)
    ensures
        r@ == "API request failed with status "@ + status@ + ": "@ + body@,
{
    let mut v = chars_of("API request failed with status ");
    push_str(&mut v, status);
    push_str(&mut v, ": ");
    push_str(&mut v, body);
    string_of(v.as_slice())
}

/// The error for a refused model-list request.
pub fn model_list_failed_message(status: &str, body: &str) -> (r: String)
    ensures
        r@ == "Model list request failed ("@ + status@ + "): "@ + body@,
{
    let mut v = chars_of("Model list request failed (");
    push_str(&mut v, status);
    push_str(&mut v, "): ");
    push_str(&mut v, body);
    string_of(v.as_slice())
}

/// Where a chat completion stands: the first request, or the retry
/// without reasoning.
#[derive(Debug, Clone, Copy, PartialEq, Eq, Structural)]
pub enum CompletionPhase {
    First,
    Fallback,
}

/// What came back from a step of a chat completion.
#[derive(Debug)]
pub enum CompletionEvent {
    /// The request could not be sent: the transport's message.
    SendFailed(String),
    /// A reply: its status code, the status as displayed (`400 Bad
    /// Request`) and the body as text.
    Replied { status: u16, status_text: String, body: String },
    /// The successful reply's body parsed: the first choice's content, or
    /// the parser's message.
    Parsed(Result<Option<String>, String>),
}

/// What a chat completion does next.
#[derive(Debug)]
pub enum CompletionAction {
    /// Send the request, with the reasoning parameters or without.
    Send { with_reasoning: bool },
    /// Parse the successful reply's body.
    ParseReply,
    /// The completion is over, with this answer.
    Finish(Result<Option<String>, String>),
}

/// Model of an answer.
pub open spec fn answer_view(r: Result<Option<String>, String>) -> Result<Option<Seq<char>>, Seq<char>> {
    match r {
        Ok(Some(c)) => Ok(Some(c@)),
        Ok(None) => Ok(None),
        Err(e) => Err(e@),
    }
}

/// The decision a chat completion takes on an event: a 400 to a request with
/// reasoning is retried once without it; another failure status ends it
/// with the status and the body; a success is parsed; a send or parse
/// failure ends it with its message.
pub open spec fn completion_step(
    phase: CompletionPhase,
    reasoning_enabled: bool,
    event: CompletionEvent,
) -> (CompletionPhase, Option<bool>, bool, Option<Result<Option<Seq<char>>, Seq<char>>>) {
    match event {
        CompletionEvent::SendFailed(m) => (
            phase,
            None,
            false,
            Some(
                Err(
                    if phase == CompletionPhase::First {
                        "HTTP request failed: "@ + m@
                    } else {
                        "HTTP request failed (fallback): "@ + m@
                    },
                ),
            ),
        ),
        CompletionEvent::Replied { status, status_text, body } => if phase == CompletionPhase::First
            && status == 400 && reasoning_enabled {
            (CompletionPhase::Fallback, Some(false), false, None)
        } else if 200 <= status <= 299 {
            (phase, None, true, None)
        } else {
            (phase, None, false, Some(Err("API request failed with status "@ + status_text@ + ": "@ + body@)))
        },
        CompletionEvent::Parsed(Ok(c)) => (phase, None, false, Some(answer_view(Ok(c)))),
        CompletionEvent::Parsed(Err(e)) => (phase, None, false, Some(Err("Failed to parse API response: "@ + e@))),
    }
}

/// Model of an action: the request to send (with reasoning or not), whether
/// to parse, and the answer it ends with.
pub open spec fn action_view(a: CompletionAction) -> (Option<bool>, bool, Option<
    Result<Option<Seq<char>>, Seq<char>>,
>) {
    match a {
        CompletionAction::Send { with_reasoning } => (Some(with_reasoning), false, None),
        CompletionAction::ParseReply => (None, true, None),
        CompletionAction::Finish(r) => (None, false, Some(answer_view(r))),
    }
}

/// The first step of a chat completion: the request, with reasoning when
/// it is enabled.
pub fn start_completion(reasoning_enabled: bool) -> (r: (CompletionPhase, CompletionAction))
    ensures
        r.0 == CompletionPhase::First,
        action_view(r.1) == (Some(reasoning_enabled), false, None::<Result<Option<Seq<char>>, Seq<char>>>),
{
    (CompletionPhase::First, CompletionAction::Send { with_reasoning: reasoning_enabled })
}

/// The next step of a chat completion after `event`.
pub fn next_completion_step(phase: CompletionPhase, reasoning_enabled: bool, event: CompletionEvent) -> (r: (
    CompletionPhase,
    CompletionAction,
))
    ensures
        ({
            let s = completion_step(phase, reasoning_enabled, event);
            r.0 == s.0 && action_view(r.1) == (s.1, s.2, s.3)
        }),
{
    match event {
        CompletionEvent::SendFailed(m) => {
            let prefix = match phase {
                CompletionPhase::First => "HTTP request failed: ",
                CompletionPhase::Fallback => "HTTP request failed (fallback): ",
            };
            let mut v = chars_of(prefix);
            push_str(&mut v, m.as_str());
            (phase, CompletionAction::Finish(Err(string_of(v.as_slice()))))
        },
        CompletionEvent::Replied { status, status_text, body } => {
            let first = match phase {
                CompletionPhase::First => true,
                CompletionPhase::Fallback => false,
            };
            if first && should_retry_without_reasoning(status, reasoning_enabled) {
                (CompletionPhase::Fallback, CompletionAction::Send { with_reasoning: false })
            } else if 200 <= status && status <= 299 {
                (phase, CompletionAction::ParseReply)
            } else {
                let m = request_failed_message(status_text.as_str(), body.as_str());
                (phase, CompletionAction::Finish(Err(m)))
            }
        },
        CompletionEvent::Parsed(Ok(c)) => (phase, CompletionAction::Finish(Ok(c))),
        CompletionEvent::Parsed(Err(e)) => {
            let mut v = chars_of("Failed to parse API response: ");
            push_str(&mut v, e.as_str());
            (phase, CompletionAction::Finish(Err(string_of(v.as_slice()))))
        },
    }
}

/// A chat completion asks for at most one retry: after the fallback
/// request, no event leads to another send.
pub proof fn lemma_one_retry(reasoning_enabled: bool, event: CompletionEvent)
    ensures
        completion_step(CompletionPhase::Fallback, reasoning_enabled, event).1 is None,
        completion_step(CompletionPhase::First, false, event).1 is None,
{
}


/// An entry of a model list adds its string `id` when it has one; its
/// `name` only when it has no string `id`; nothing when it has neither.
pub proof fn lemma_entry_lists_its_id(items: Seq<JsonValue>, e: JsonValue)
    ensures
        str_member(e, "id"@) is Some ==> entries_models(items.push(e)) == entries_models(items).push(
            str_member(e, "id"@)->0,
        ),
        str_member(e, "id"@) is None && str_member(e, "name"@) is Some ==> entries_models(items.push(e))
            == entries_models(items).push(str_member(e, "name"@)->0),
        str_member(e, "id"@) is None && str_member(e, "name"@) is None ==> entries_models(items.push(e))
            == entries_models(items),
{
    assert(items.push(e).drop_last() =~= items);
    assert(items.push(e).last() == e);
}

/// When every entry of a model list has a string `id`, the models listed
/// are exactly those ids, one per entry and in order (never the display
/// names).
pub proof fn lemma_model_list_is_ids(items: Seq<JsonValue>)
    requires
        forall|i: int| 0 <= i < items.len() ==> (#[trigger] str_member(items[i], "id"@)) is Some,
    ensures
        entries_models(items).len() == items.len(),
        forall|i: int|
            0 <= i < items.len() ==> #[trigger] entries_models(items)[i] == str_member(items[i], "id"@)->0,
    decreases items.len(),
{
    if items.len() > 0 {
        let d = items.drop_last();
        assert forall|i: int| 0 <= i < d.len() implies (#[trigger] str_member(d[i], "id"@)) is Some by {
            assert(d[i] == items[i]);
        }
        lemma_model_list_is_ids(d);
        assert(str_member(items[items.len() - 1], "id"@) is Some);
        lemma_entry_lists_its_id(d, items.last());
        assert(d.push(items.last()) =~= items);
        assert forall|i: int| 0 <= i < items.len() implies #[trigger] entries_models(items)[i] == str_member(
            items[i],
            "id"@,
        )->0 by {
            if i < d.len() {
                assert(d[i] == items[i]);
            }
        }
    }
}


/// A response `{ "data": [...] }` whose entries all have a string `id`
/// lists exactly those ids, one per entry and in order.
pub proof fn lemma_model_response_lists_ids(v: JsonValue, items: Vec<JsonValue>)
    requires
        v is Object,
        member(v->Object_0@, "data"@) == Some(JsonValue::Array(items)),
        forall|i: int| 0 <= i < items@.len() ==> (#[trigger] str_member(items@[i], "id"@)) is Some,
    ensures
        models_of(v).len() == items@.len(),
        forall|i: int| 0 <= i < items@.len() ==> #[trigger] models_of(v)[i] == str_member(items@[i], "id"@)->0,
{
    lemma_model_list_is_ids(items@);
}

/// A response that is an array of strings lists exactly those strings, in
/// order.
pub proof fn lemma_string_array_lists_strings(items: Seq<JsonValue>)
    requires
        forall|i: int| 0 <= i < items.len() ==> (#[trigger] items[i]) is Str,
    ensures
        string_items(items).len() == items.len(),
        forall|i: int| 0 <= i < items.len() ==> #[trigger] string_items(items)[i] == items[i]->Str_0@,
    decreases items.len(),
{
    if items.len() > 0 {
        let d = items.drop_last();
        assert forall|i: int| 0 <= i < d.len() implies (#[trigger] d[i]) is Str by {
            assert(d[i] == items[i]);
        }
        lemma_string_array_lists_strings(d);
        assert(items.last() is Str);
        assert forall|i: int| 0 <= i < items.len() implies #[trigger] string_items(items)[i] == items[i]->Str_0@ by {
            if i < d.len() {
                assert(d[i] == items[i]);
            }
        }
    }
}

} // verus!

//! Local Ollama client: model discovery and streaming chat.
//!
//! The HTTP calls belong to the program around the library. Here are the requests
//! that it sends, and what it makes of the replies. JSON texts are read by the
//! decoders that it passes in.
use crate::json::{
    count_value, flag_value, insert, list_value, no_members, record_value, text_value, Json,
};
use crate::protocol::ModelView;
use crate::text::trim;
use serde_json::Value;
use vstd::prelude::*;
use vstd::string::*;

verus! {

/// A model reported by Ollama's `/api/tags`.
#[derive(Debug, Clone, PartialEq, Eq)]
pub struct OllamaModel {
    /// Model identifier (e.g. `llama3.1:8b`).
    pub name: String,
    /// Model family, if reported.
    pub family: Option<String>,
    /// Parameter size, if reported.
    pub parameter_size: Option<String>,
}

impl View for OllamaModel {
    type V = ModelView;

    open spec fn view(&self) -> ModelView {
        ModelView {
            name: self.name@,
            family: crate::text::text_of(self.family),
            parameter_size: crate::text::text_of(self.parameter_size),
        }
    }
}

/// One streamed event from a chat completion.
#[derive(Debug, Clone, PartialEq, Eq)]
pub enum OllamaEvent {
    /// A text fragment.
    Token(String),
    /// Final token usage for the completion.
    Usage {
        /// Prompt (input) tokens.
        input_tokens: u32,
        /// Completion (output) tokens.
        output_tokens: u32,
    },
}

/// What an event holds.
pub enum EventView {
    Token(Seq<char>),
    Usage { input_tokens: u32, output_tokens: u32 },
}

impl View for OllamaEvent {
    type V = EventView;

    open spec fn view(&self) -> EventView {
        match *self {
            OllamaEvent::Token(text) => EventView::Token(text@),
            OllamaEvent::Usage { input_tokens, output_tokens } => EventView::Usage {
                input_tokens,
                output_tokens,
            },
        }
    }
}

/// What a list of events holds.
pub open spec fn events_of(events: Seq<OllamaEvent>) -> Seq<EventView> {
    events.map_values(|event: OllamaEvent| event@)
}

/// A chat request to run on a local model.
#[derive(Debug, Clone)]
pub struct ChatSpec<N> {
    /// Model to run.
    pub model: String,
    /// Optional system prompt.
    pub system: Option<String>,
    /// Conversation messages as (role, content) pairs.
    pub messages: Vec<(String, String)>,
    /// Sampling temperature, if set.
    pub temperature: Option<N>,
    /// Maximum tokens to generate, if set.
    pub max_tokens: Option<u32>,
}

/// What a chat request holds.
pub struct ChatSpecView<N> {
    pub model: Seq<char>,
    pub system: Option<Seq<char>>,
    pub messages: Seq<(Seq<char>, Seq<char>)>,
    pub temperature: Option<N>,
    pub max_tokens: Option<u32>,
}

/// What conversation messages hold.
pub open spec fn messages_of(messages: Seq<(String, String)>) -> Seq<(Seq<char>, Seq<char>)> {
    messages.map_values(|message: (String, String)| (message.0@, message.1@))
}

impl<N> View for ChatSpec<N> {
    type V = ChatSpecView<N>;

    open spec fn view(&self) -> ChatSpecView<N> {
        ChatSpecView {
            model: self.model@,
            system: crate::text::text_of(self.system),
            messages: messages_of(self.messages@),
            temperature: self.temperature,
            max_tokens: self.max_tokens,
        }
    }
}

/// Errors talking to Ollama.
#[derive(Debug, Clone)]
pub enum OllamaError {
    /// A network or transport failure.
    Transport(String),
    /// Ollama returned a non-success status.
    Provider(String),
}

/// What an error holds.
pub enum ErrorView {
    Transport(Seq<char>),
    Provider(Seq<char>),
}

impl View for OllamaError {
    type V = ErrorView;

    open spec fn view(&self) -> ErrorView {
        match *self {
            OllamaError::Transport(text) => ErrorView::Transport(text@),
            OllamaError::Provider(text) => ErrorView::Provider(text@),
        }
    }
}

/// The text of an error.
pub open spec fn error_message(error: ErrorView) -> Seq<char> {
    match error {
        ErrorView::Transport(text) => "ollama transport error: "@ + text,
        ErrorView::Provider(text) => "ollama returned an error: "@ + text,
    }
}

impl OllamaError {
    /// The error in words.
    pub fn message(&self) -> (text: String)
        ensures
            text@ == error_message(self@),
    {
        match self {
            OllamaError::Transport(text) => "ollama transport error: ".to_owned().concat(
                text.as_str(),
            ),
            OllamaError::Provider(text) => "ollama returned an error: ".to_owned().concat(
                text.as_str(),
            ),
        }
    }
}

// ---- Ollama's JSON shapes ----
/// The body of a reply from `/api/tags`.
#[derive(Debug)]
pub struct TagsResponse {
    pub models: Vec<TagModel>,
}

/// A model in a reply from `/api/tags`.
#[derive(Debug)]
pub struct TagModel {
    pub name: String,
    pub details: Option<TagDetails>,
}

/// The details of a model in a reply from `/api/tags`.
#[derive(Debug)]
pub struct TagDetails {
    pub family: Option<String>,
    pub parameter_size: Option<String>,
}

/// One line of a reply from `/api/chat`.
#[derive(Debug)]
pub struct ChatChunk {
    pub message: Option<ChatMessageChunk>,
    pub done: bool,
    pub prompt_eval_count: Option<u32>,
    pub eval_count: Option<u32>,
}

/// The message in a line of a reply from `/api/chat`.
#[derive(Debug)]
pub struct ChatMessageChunk {
    pub content: String,
}

/// The model that an entry of a tags reply describes: without details neither
/// family nor size is known.
pub open spec fn tagged_model(model: TagModel) -> ModelView {
    ModelView {
        name: model.name@,
        family: match model.details {
            Some(details) => crate::text::text_of(details.family),
            None => None,
        },
        parameter_size: match model.details {
            Some(details) => crate::text::text_of(details.parameter_size),
            None => None,
        },
    }
}

/// What a list of models holds.
pub open spec fn models_of(models: Seq<OllamaModel>) -> Seq<ModelView> {
    models.map_values(|model: OllamaModel| model@)
}

/// What a decoded tags reply amounts to: its models in their order, or an error of
/// the provider in the words of the decoder.
pub open spec fn tags_outcome(decoded: Result<TagsResponse, String>) -> Result<
    Seq<ModelView>,
    ErrorView,
> {
    match decoded {
        Ok(response) => Ok(response.models@.map_values(|model: TagModel| tagged_model(model))),
        Err(text) => Err(ErrorView::Provider(text@)),
    }
}

/// What a result of listing models holds.
pub open spec fn listing_of(result: Result<Vec<OllamaModel>, OllamaError>) -> Result<
    Seq<ModelView>,
    ErrorView,
> {
    match result {
        Ok(models) => Ok(models_of(models@)),
        Err(error) => Err(error@),
    }
}

/// The models of a tags reply that was decoded, or why it was not.
pub fn models_from_tags(decoded: Result<TagsResponse, String>) -> (result: Result<
    Vec<OllamaModel>,
    OllamaError,
>)
    ensures
        listing_of(result) == tags_outcome(decoded),
{
    let tags: Vec<TagModel> = match decoded {
        Ok(response) => response.models,
        Err(text) => {
            return Err(OllamaError::Provider(text));
        },
    };
    let ghost all = tags@.map_values(|model: TagModel| tagged_model(model));
    let mut models: Vec<OllamaModel> = Vec::new();
    for tag in it: tags
        invariant
            all == it.seq().map_values(|model: TagModel| tagged_model(model)),
            models_of(models@) == all.take(it.index()),
    {
        let ghost entry = tag;
        let ghost before = models@;
        let (family, parameter_size) = match tag.details {
            Some(details) => (details.family, details.parameter_size),
            None => (None, None),
        };
        models.push(OllamaModel { name: tag.name, family, parameter_size });
        assert(models_of(models@) =~= models_of(before).push(tagged_model(entry)));
        assert(all.take(it.index() + 1) =~= all.take(it.index()).push(all[it.index()]));
    }
    assert(all.take(all.len() as int) =~= all);
    Ok(models)
}

/// Parse the `/api/tags` body into models, with the decoder of tags replies.
pub fn parse_tags<F: Fn(&str) -> Result<TagsResponse, String>>(body: &str, decode: &F) -> (result:
    Result<Vec<OllamaModel>, OllamaError>)
    requires
        forall|text: &str| text@ == body@ ==> #[trigger] call_requires(*decode, (text,)),
    ensures
        tags_parsed(*decode, body@, listing_of(result)),
{
    let decoded = decode(body);
    assert(call_ensures(*decode, (body,), decoded));
    models_from_tags(decoded)
}

/// `listing` is what a tags body amounts to by what the decoder made of it.
pub open spec fn tags_parsed<F: Fn(&str) -> Result<TagsResponse, String>>(
    decode: F,
    body: Seq<char>,
    listing: Result<Seq<ModelView>, ErrorView>,
) -> bool {
    exists|text: &str, decoded: Result<TagsResponse, String>|
        text@ == body && #[trigger] call_ensures(decode, (text,), decoded) && listing
            == tags_outcome(decoded)
}

/// The token count, zero where it is not reported.
pub open spec fn count_or_zero(count: Option<u32>) -> u32 {
    match count {
        Some(count) => count,
        None => 0,
    }
}

/// The events of a chat line: a token where the line has a message that is not
/// empty, and the usage where it is the last. A line that is no JSON of that shape
/// has none.
pub open spec fn chunk_events(chunk: Option<ChatChunk>) -> Seq<EventView> {
    match chunk {
        None => Seq::empty(),
        Some(chunk) => token_events(chunk) + usage_events(chunk),
    }
}

/// The token of a chat line.
pub open spec fn token_events(chunk: ChatChunk) -> Seq<EventView> {
    match chunk.message {
        Some(message) if message.content@.len() > 0 => seq![EventView::Token(message.content@)],
        _ => Seq::empty(),
    }
}

/// The usage report of a chat line.
pub open spec fn usage_events(chunk: ChatChunk) -> Seq<EventView> {
    if chunk.done {
        seq![
            EventView::Usage {
                input_tokens: count_or_zero(chunk.prompt_eval_count),
                output_tokens: count_or_zero(chunk.eval_count),
            },
        ]
    } else {
        Seq::empty()
    }
}

/// The events of a chat line that was decoded, or could not be.
pub fn events_from_chunk(chunk: Option<ChatChunk>) -> (events: Vec<OllamaEvent>)
    ensures
        events_of(events@) == chunk_events(chunk),
{
    let mut events: Vec<OllamaEvent> = Vec::new();
    let chunk = match chunk {
        Some(chunk) => chunk,
        None => {
            assert(events_of(events@) =~= Seq::empty());
            return events;
        },
    };
    let ghost whole = chunk;
    if let Some(message) = chunk.message {
        if !message.content.as_str().is_empty() {
            events.push(OllamaEvent::Token(message.content));
        }
    }
    assert(events_of(events@) =~= token_events(whole));
    let ghost tokens = events@;
    if chunk.done {
        let input_tokens: u32 = match chunk.prompt_eval_count {
            Some(count) => count,
            None => 0,
        };
        let output_tokens: u32 = match chunk.eval_count {
            Some(count) => count,
            None => 0,
        };
        events.push(OllamaEvent::Usage { input_tokens, output_tokens });
    }
    assert(events_of(events@) =~= events_of(tokens) + usage_events(whole));
    events
}

/// The text to decode of a chat line: what white space surrounds, unless that is
/// nothing.
pub fn chunk_text(line: &str) -> (text: Option<&str>)
    ensures
        match text {
            Some(text) => text@ == crate::text::trimmed(line@) && text@.len() > 0,
            None => crate::text::trimmed(line@).len() == 0,
        },
{
    let trimmed = trim(line);
    if trimmed.is_empty() {
        None
    } else {
        Some(trimmed)
    }
}

/// `events` are the events of a chat line by what the decoder made of it: none of
/// a blank line, which is not decoded.
pub open spec fn line_yields<F: Fn(&str) -> Option<ChatChunk>>(
    decode: F,
    line: Seq<char>,
    events: Seq<EventView>,
) -> bool {
    let inner = crate::text::trimmed(line);
    if inner.len() == 0 {
        events == Seq::<EventView>::empty()
    } else {
        exists|text: &str, chunk: Option<ChatChunk>|
            text@ == inner && #[trigger] call_ensures(decode, (text,), chunk) && events
                == chunk_events(chunk)
    }
}

/// Parse one NDJSON chat chunk line into its events, with the decoder of chat
/// lines. A line may hold a token, a final usage report (on `done`), both, or
/// neither.
pub fn parse_chat_chunk<F: Fn(&str) -> Option<ChatChunk>>(line: &str, decode: &F) -> (events: Vec<
    OllamaEvent,
>)
    requires
        forall|text: &str|
            text@ == crate::text::trimmed(line@) ==> #[trigger] call_requires(*decode, (text,)),
    ensures
        line_yields(*decode, line@, events_of(events@)),
{
    match chunk_text(line) {
        Some(text) => {
            let chunk = decode(text);
            assert(call_ensures(*decode, (text,), chunk));
            events_from_chunk(chunk)
        },
        None => {
            let events: Vec<OllamaEvent> = Vec::new();
            assert(events_of(events@) =~= Seq::empty());
            events
        },
    }
}

/// A blank line has no events, whatever the decoder is.
pub proof fn law_blank_line_has_no_events<F: Fn(&str) -> Option<ChatChunk>>(
    decode: F,
    line: Seq<char>,
    events: Seq<EventView>,
)
    requires
        line_yields(decode, line, events),
        forall|i: int| 0 <= i < line.len() ==> crate::text::is_white_space(#[trigger] line[i]),
    ensures
        events == Seq::<EventView>::empty(),
{
    crate::text::lemma_blank_is_trimmed_to_nothing(line);
}

/// A chat line has at most two events: a token that is not empty, then the usage,
/// which only the last line reports.
pub proof fn law_chunk_events_in_order(chunk: Option<ChatChunk>)
    ensures
        chunk_events(chunk).len() <= 2,
        forall|i: int|
            0 <= i < chunk_events(chunk).len() ==> match #[trigger] chunk_events(chunk)[i] {
                EventView::Token(text) => i == 0 && text.len() > 0,
                EventView::Usage { .. } => i == chunk_events(chunk).len() - 1 && chunk->0.done,
            },
        chunk is Some && chunk->0.done <==> chunk_events(chunk).len() > 0
            && chunk_events(chunk).last() is Usage,
{
}

// ---- Requests ----
/// The path of the models endpoint.
pub open spec fn tags_endpoint(base_url: Seq<char>) -> Seq<char> {
    base_url + "/api/tags"@
}

/// The path of the chat endpoint.
pub open spec fn chat_endpoint(base_url: Seq<char>) -> Seq<char> {
    base_url + "/api/chat"@
}

/// The URL that lists the models of the runtime at `base_url`.
pub fn tags_url(base_url: &str) -> (url: String)
    ensures
        url@ == tags_endpoint(base_url@),
{
    base_url.to_owned().concat("/api/tags")
}

/// The URL that chats with the runtime at `base_url`.
pub fn chat_url(base_url: &str) -> (url: String)
    ensures
        url@ == chat_endpoint(base_url@),
{
    base_url.to_owned().concat("/api/chat")
}

/// A slash at the end of the configured base URL makes no difference to the
/// endpoints.
pub proof fn law_endpoints_ignore_trailing_slash(base_url: Seq<char>)
    ensures
        tags_endpoint(crate::text::without_trailing_slashes(base_url.push('/'))) == tags_endpoint(
            crate::text::without_trailing_slashes(base_url),
        ),
        chat_endpoint(crate::text::without_trailing_slashes(base_url.push('/'))) == chat_endpoint(
            crate::text::without_trailing_slashes(base_url),
        ),
{
    assert(base_url.push('/').drop_last() =~= base_url);
}

/// A chat message as JSON.
pub open spec fn message_json(role: Seq<char>, content: Seq<char>) -> Json {
    Json::Record(
        Map::empty().insert("role"@, Json::Text(role)).insert("content"@, Json::Text(content)),
    )
}

/// The messages of a chat request as JSON: the system prompt, if there is one, then
/// the conversation in its order.
pub open spec fn messages_json(
    system: Option<Seq<char>>,
    messages: Seq<(Seq<char>, Seq<char>)>,
) -> Seq<Json> {
    (match system {
        Some(prompt) => seq![message_json("system"@, prompt)],
        None => Seq::empty(),
    }) + messages.map_values(
        |message: (Seq<char>, Seq<char>)| message_json(message.0, message.1),
    )
}

/// The options of a chat request as JSON: those that are set.
pub open spec fn options_json(temperature: Option<Json>, max_tokens: Option<u32>) -> Map<
    Seq<char>,
    Json,
> {
    let none = Map::<Seq<char>, Json>::empty();
    let sampling = match temperature {
        Some(number) => none.insert("temperature"@, number),
        None => none,
    };
    match max_tokens {
        Some(count) => sampling.insert("num_predict"@, Json::Count(count as nat)),
        None => sampling,
    }
}

/// The body of a chat request as JSON, with the JSON of its temperature.
pub open spec fn body_json<N>(spec: ChatSpecView<N>, temperature: Option<Json>) -> Json {
    Json::Record(
        Map::empty().insert("model"@, Json::Text(spec.model)).insert(
            "messages"@,
            Json::List(messages_json(spec.system, spec.messages)),
        ).insert("stream"@, Json::Flag(true)).insert(
            "options"@,
            Json::Record(options_json(temperature, spec.max_tokens)),
        ),
    )
}

/// A chat message as JSON.
fn message_value(role: &str, content: &str) -> (value: Value)
    ensures
        crate::json::json_of(value) == message_json(role@, content@),
{
    let mut message = no_members();
    insert(&mut message, "role", text_value(role));
    insert(&mut message, "content", text_value(content));
    record_value(message)
}

/// Build the `/api/chat` request body for a spec whose temperature is already a
/// JSON value.
pub fn chat_body_with<N>(spec: &ChatSpec<N>, temperature: Option<Value>) -> (body: Value)
    ensures
        crate::json::json_of(body) == body_json(spec@, opt_json(temperature)),
{
    let mut messages: Vec<Value> = Vec::new();
    let ghost prompt = match spec@.system {
        Some(prompt) => seq![message_json("system"@, prompt)],
        None => Seq::<Json>::empty(),
    };
    if let Some(system) = &spec.system {
        messages.push(message_value("system", system.as_str()));
    }
    assert(values_json(messages@) =~= prompt);
    let ghost turns = spec@.messages.map_values(
        |message: (Seq<char>, Seq<char>)| message_json(message.0, message.1),
    );
    assert(prompt + turns.take(0) =~= prompt);
    let mut at: usize = 0;
    while at < spec.messages.len()
        invariant
            at <= spec.messages.len(),
            turns == spec@.messages.map_values(
                |message: (Seq<char>, Seq<char>)| message_json(message.0, message.1),
            ),
            values_json(messages@) == prompt + turns.take(at as int),
        decreases spec.messages.len() - at,
    {
        let ghost before = messages@;
        let message = &spec.messages[at];
        messages.push(message_value(message.0.as_str(), message.1.as_str()));
        assert(values_json(messages@) =~= values_json(before).push(turns[at as int]));
        assert(turns.take(at + 1) =~= turns.take(at as int).push(turns[at as int]));
        at = at + 1;
    }
    assert(turns.take(at as int) =~= turns);
    let mut options = no_members();
    if let Some(number) = temperature {
        insert(&mut options, "temperature", number);
    }
    if let Some(max_tokens) = spec.max_tokens {
        insert(&mut options, "num_predict", count_value(max_tokens));
    }
    let mut body = no_members();
    insert(&mut body, "model", text_value(spec.model.as_str()));
    insert(&mut body, "messages", list_value(messages));
    insert(&mut body, "stream", flag_value(true));
    insert(&mut body, "options", record_value(options));
    record_value(body)
}

/// What optional JSON holds.
pub open spec fn opt_json(value: Option<Value>) -> Option<Json> {
    match value {
        Some(value) => Some(crate::json::json_of(value)),
        None => None,
    }
}

/// What JSON values hold.
pub open spec fn values_json(values: Seq<Value>) -> Seq<Json> {
    values.map_values(|value: Value| crate::json::json_of(value))
}

/// `value` is the JSON that the number type makes of the temperature, if it is set.
pub open spec fn is_json_of<N: Into<Value>>(temperature: Option<N>, value: Option<Value>) -> bool {
    match temperature {
        Some(number) => value is Some && call_ensures(
            <N as Into<Value>>::into,
            (number,),
            value->0,
        ),
        None => value is None,
    }
}

/// Build the `/api/chat` request body for a spec.
pub fn chat_body<N: Copy + Into<Value>>(spec: &ChatSpec<N>) -> (body: Value)
    ensures
        exists|temperature: Option<Value>| #[trigger]
            is_json_of(spec.temperature, temperature) && crate::json::json_of(body) == body_json(
                spec@,
                opt_json(temperature),
            ),
{
    let temperature: Option<Value> = match spec.temperature {
        Some(number) => Some(number.into()),
        None => None,
    };
    assert(is_json_of(spec.temperature, temperature));
    chat_body_with(spec, temperature)
}

/// The options of a request hold a temperature and a token limit exactly where
/// they are set, and nothing else.
pub proof fn law_absent_options_are_omitted(temperature: Option<Json>, max_tokens: Option<u32>)
    ensures
        ({
            let options = options_json(temperature, max_tokens);
            &&& options.contains_key("temperature"@) <==> temperature is Some
            &&& options.contains_key("num_predict"@) <==> max_tokens is Some
            &&& temperature is Some ==> options["temperature"@] == temperature->0
            &&& max_tokens is Some ==> options["num_predict"@] == Json::Count(
                max_tokens->0 as nat,
            )
            &&& forall|name: Seq<char>| #[trigger]
                options.contains_key(name) ==> name == "temperature"@ || name == "num_predict"@
        }),
{
    reveal_strlit("temperature");
    reveal_strlit("num_predict");
    assert("temperature"@[0] != "num_predict"@[0]);
}

/// The system prompt leads the messages of a request, and the conversation follows
/// in its order.
pub proof fn law_system_prompt_leads(
    system: Seq<char>,
    messages: Seq<(Seq<char>, Seq<char>)>,
)
    ensures
        messages_json(None, messages) == messages.map_values(
            |message: (Seq<char>, Seq<char>)| message_json(message.0, message.1),
        ),
        messages_json(Some(system), messages) == seq![message_json("system"@, system)]
            + messages_json(None, messages),
{
    let turns = messages.map_values(
        |message: (Seq<char>, Seq<char>)| message_json(message.0, message.1),
    );
    assert(Seq::empty() + turns =~= turns);
}

// ---- What results hold ----
/// The models of a tags reply are listed one for one and in their order, each with
/// the name, family and size that the reply gives it.
pub proof fn law_each_tag_is_listed(
    response: TagsResponse,
    result: Result<Vec<OllamaModel>, OllamaError>,
)
    requires
        listing_of(result) == tags_outcome(Ok(response)),
    ensures
        result is Ok,
        ({
            let tags = response.models@;
            let models = result->Ok_0@;
            &&& models.len() == tags.len()
            &&& forall|i: int|
                0 <= i < tags.len() ==> {
                    let (model, tag) = (#[trigger] models[i], tags[i]);
                    &&& model.name@ == tag.name@
                    &&& tag.details is None ==> model.family is None && model.parameter_size is None
                    &&& tag.details is Some ==> {
                        let details = tag.details->0;
                        &&& model.family is Some <==> details.family is Some
                        &&& model.family is Some ==> model.family->0@ == details.family->0@
                        &&& model.parameter_size is Some <==> details.parameter_size is Some
                        &&& model.parameter_size is Some ==> model.parameter_size->0@
                            == details.parameter_size->0@
                    }
                }
        }),
{
    let tags = response.models@;
    let models = result->Ok_0@;
    let views = models_of(models);
    assert(views.len() == models.len());
    assert(views == tags.map_values(|model: TagModel| tagged_model(model)));
    assert forall|i: int| 0 <= i < tags.len() implies (#[trigger] models[i])@ == tagged_model(
        tags[i],
    ) by {
        assert(views[i] == models[i]@);
    }
}

/// A tags reply that could not be decoded is an error of the provider in the words of
/// the decoder.
pub proof fn law_undecodable_tags_are_the_providers_error(
    text: String,
    result: Result<Vec<OllamaModel>, OllamaError>,
)
    requires
        listing_of(result) == tags_outcome(Err(text)),
    ensures
        result matches Err(OllamaError::Provider(words)) && words@ == text@,
{
}

/// A chat line has a token exactly where its message is not empty, and that token is
/// the message, character for character. It has a usage report exactly where it is the
/// last, with the counts that it gives, and zero for those that it does not. The token
/// comes first, and there is nothing else.
pub proof fn law_events_tell_what_the_line_holds(
    chunk: Option<ChatChunk>,
    events: Seq<OllamaEvent>,
)
    requires
        events_of(events) == chunk_events(chunk),
    ensures
        chunk is None ==> events.len() == 0,
        chunk matches Some(line) ==> {
            let speaks = line.message is Some && line.message->0.content@.len() > 0;
            let tokens: int = if speaks {
                1
            } else {
                0
            };
            &&& events.len() == tokens + if line.done {
                1int
            } else {
                0
            }
            &&& speaks ==> (events[0] matches OllamaEvent::Token(text) && text@
                == line.message->0.content@)
            &&& line.done ==> (events[tokens] matches OllamaEvent::Usage {
                input_tokens,
                output_tokens,
            } && (line.prompt_eval_count matches Some(count) ==> input_tokens == count) && (
            line.prompt_eval_count is None ==> input_tokens == 0) && (
            line.eval_count matches Some(count) ==> output_tokens == count) && (
            line.eval_count is None ==> output_tokens == 0))
        },
{
    let views = events_of(events);
    assert(views.len() == events.len());
    assert forall|i: int| 0 <= i < events.len() implies views[i] == (#[trigger] events[i])@ by {}
    if chunk is Some {
        let line = chunk->0;
        let speaks = line.message is Some && line.message->0.content@.len() > 0;
        if speaks {
            assert(views[0] == events[0]@);
            if line.done {
                assert(views[1] == events[1]@);
            }
        } else if line.done {
            assert(views[0] == events[0]@);
        }
    }
}

/// The message of a line that is no more than a fragment is relayed with the white
/// space around it: fragments one after the other make up the reply.
pub proof fn law_fragments_make_up_the_reply(
    first: ChatChunk,
    first_events: Seq<OllamaEvent>,
    second: ChatChunk,
    second_events: Seq<OllamaEvent>,
)
    requires
        first.message is Some && second.message is Some,
        events_of(first_events) == chunk_events(Some(first)),
        events_of(second_events) == chunk_events(Some(second)),
    ensures
        text_told(first_events) + text_told(second_events) == first.message->0.content@
            + second.message->0.content@,
{
    law_events_tell_what_the_line_holds(Some(first), first_events);
    law_events_tell_what_the_line_holds(Some(second), second_events);
    lemma_text_told(first, first_events);
    lemma_text_told(second, second_events);
}

/// The text of the tokens among events, one after the other.
pub open spec fn text_told(events: Seq<OllamaEvent>) -> Seq<char>
    decreases events.len(),
{
    if events.len() == 0 {
        Seq::empty()
    } else {
        text_told(events.drop_last()) + match events.last() {
            OllamaEvent::Token(text) => text@,
            OllamaEvent::Usage { .. } => Seq::empty(),
        }
    }
}

/// The events of a line tell the text of its message.
proof fn lemma_text_told(line: ChatChunk, events: Seq<OllamaEvent>)
    requires
        line.message is Some,
        events_of(events) == chunk_events(Some(line)),
    ensures
        text_told(events) == line.message->0.content@,
{
    law_events_tell_what_the_line_holds(Some(line), events);
    reveal_with_fuel(text_told, 3);
    assert(text_told(events) =~= line.message->0.content@);
}

/// A line that holds more than white space has the events of what the decoder makes of
/// it, where white space around the line is left out. A blank line has none.
pub proof fn law_line_has_the_events_of_its_chunk<F: Fn(&str) -> Option<ChatChunk>>(
    decode: F,
    line: Seq<char>,
    chunk: Option<ChatChunk>,
    events: Seq<OllamaEvent>,
)
    requires
        line_yields(decode, line, events_of(events)),
        forall|text: &str, decoded: Option<ChatChunk>|
            text@ == crate::text::trimmed(line) && #[trigger] call_ensures(decode, (text,), decoded)
                ==> decoded == chunk,
    ensures
        (forall|i: int| 0 <= i < line.len() ==> crate::text::is_white_space(#[trigger] line[i]))
            ==> events.len() == 0,
        !(forall|i: int| 0 <= i < line.len() ==> crate::text::is_white_space(#[trigger] line[i]))
            ==> events_of(events) == chunk_events(chunk) && (exists|text: &str|
            text@ == crate::text::trimmed(line) && #[trigger] call_ensures(decode, (text,), chunk)),
{
    assert(events_of(events).len() == events.len());
    if forall|i: int| 0 <= i < line.len() ==> crate::text::is_white_space(#[trigger] line[i]) {
        law_blank_line_has_no_events(decode, line, events_of(events));
    } else {
        crate::text::law_trimming_removes_the_white_space_around(line);
        let inner = crate::text::trimmed(line);
        if inner.len() == 0 {
            let (start, end) = choose|start: int, end: int|
                0 <= start <= end <= line.len() && inner == #[trigger] line.subrange(start, end)
                    && forall|i: int|
                    0 <= i < start || end <= i < line.len() ==> crate::text::is_white_space(
                        #[trigger] line[i],
                    );
            assert(start == end);
            assert(false);
        }
    }
}

/// A tags body is read by what the decoder makes of it, all of it and as it is.
pub proof fn law_tags_body_is_decoded_as_it_is<F: Fn(&str) -> Result<TagsResponse, String>>(
    decode: F,
    body: Seq<char>,
    decoded: Result<TagsResponse, String>,
    result: Result<Vec<OllamaModel>, OllamaError>,
)
    requires
        tags_parsed(decode, body, listing_of(result)),
        forall|text: &str, made: Result<TagsResponse, String>|
            text@ == body && #[trigger] call_ensures(decode, (text,), made) ==> made == decoded,
    ensures
        listing_of(result) == tags_outcome(decoded),
        exists|text: &str| text@ == body && #[trigger] call_ensures(decode, (text,), decoded),
{
}

/// The endpoints are the base URL with their paths behind it.
pub proof fn law_endpoints_follow_the_base_url(base_url: Seq<char>)
    ensures
        tags_endpoint(base_url) == base_url + "/api/tags"@,
        chat_endpoint(base_url) == base_url + "/api/chat"@,
{
}

/// The words of an error say whose it is and tell its text.
pub proof fn law_errors_tell_their_text(error: OllamaError)
    ensures
        error_message(error@) == match error {
            OllamaError::Transport(text) => "ollama transport error: "@ + text@,
            OllamaError::Provider(text) => "ollama returned an error: "@ + text@,
        },
{
}

/// A chat message is a record of its role and its content, and nothing else.
pub proof fn law_a_message_holds_role_and_content(role: Seq<char>, content: Seq<char>)
    ensures
        message_json(role, content) matches Json::Record(members) && members.dom() == set![
            "role"@,
            "content"@,
        ] && members["role"@] == Json::Text(role) && members["content"@] == Json::Text(content),
{
    reveal_strlit("role");
    reveal_strlit("content");
    assert("role"@.len() != "content"@.len());
    let members = message_json(role, content)->Record_0;
    assert(members.dom() =~= set!["role"@, "content"@]);
}

/// The body of a request is a record of four members. It names the model, asks for a
/// stream, and holds the options. Its messages are the system prompt, if there is one,
/// then each message of the conversation with its role and content, in their order,
/// whether or not there is a system prompt.
pub proof fn law_body_holds_the_request<N>(
    spec: ChatSpec<N>,
    temperature: Option<Value>,
    body: Value,
)
    requires
        crate::json::json_of(body) == body_json(spec@, opt_json(temperature)),
    ensures
        ({
            let json = crate::json::json_of(body);
            let members = json->Record_0;
            let messages = members["messages"@]->List_0;
            let prompts: int = if spec.system is Some {
                1
            } else {
                0
            };
            &&& json is Record
            &&& members.dom() == set!["model"@, "messages"@, "stream"@, "options"@]
            &&& members["model"@] == Json::Text(spec.model@)
            &&& members["stream"@] == Json::Flag(true)
            &&& members["messages"@] is List
            &&& messages.len() == prompts + spec.messages@.len()
            &&& spec.system is Some ==> (messages[0] matches Json::Record(message)
                && message.dom() == set!["role"@, "content"@] && message["role"@] == Json::Text(
                "system"@,
            ) && message["content"@] == Json::Text(spec.system->0@))
            &&& forall|i: int|
                0 <= i < spec.messages@.len() ==> (#[trigger] messages[prompts
                    + i] matches Json::Record(message) && message.dom() == set![
                    "role"@,
                    "content"@,
                ] && message["role"@] == Json::Text(spec.messages@[i].0@) && message["content"@]
                    == Json::Text(spec.messages@[i].1@))
            &&& members["options"@] is Record
        }),
{
    reveal_strlit("model");
    reveal_strlit("messages");
    reveal_strlit("stream");
    reveal_strlit("options");
    assert("model"@.len() == 5 && "messages"@.len() == 8 && "stream"@.len() == 6
        && "options"@.len() == 7);
    let members = crate::json::json_of(body)->Record_0;
    assert(members.dom() =~= set!["model"@, "messages"@, "stream"@, "options"@]);
    let messages = members["messages"@]->List_0;
    assert(messages == messages_json(spec@.system, spec@.messages));
    if spec.system is Some {
        law_a_message_holds_role_and_content("system"@, spec.system->0@);
    }
    let prompts: int = if spec.system is Some {
        1
    } else {
        0
    };
    assert forall|i: int| 0 <= i < spec.messages@.len() implies (#[trigger] messages[prompts
        + i] matches Json::Record(message) && message.dom() == set!["role"@, "content"@]
        && message["role"@] == Json::Text(spec.messages@[i].0@) && message["content"@]
        == Json::Text(spec.messages@[i].1@)) by {
        law_a_message_holds_role_and_content(spec.messages@[i].0@, spec.messages@[i].1@);
        assert(spec@.messages[i] == (spec.messages@[i].0@, spec.messages@[i].1@));
    }
}

/// The options of a request's body hold the temperature and the token limit exactly
/// where they are set, as they are set, and nothing else.
pub proof fn law_body_holds_the_options<N>(
    spec: ChatSpec<N>,
    temperature: Option<Value>,
    body: Value,
)
    requires
        crate::json::json_of(body) == body_json(spec@, opt_json(temperature)),
    ensures
        ({
            let options = crate::json::json_of(body)->Record_0["options"@]->Record_0;
            &&& options.contains_key("temperature"@) <==> temperature is Some
            &&& temperature is Some ==> options["temperature"@] == crate::json::json_of(
                temperature->0,
            )
            &&& options.contains_key("num_predict"@) <==> spec.max_tokens is Some
            &&& spec.max_tokens is Some ==> options["num_predict"@] == Json::Count(
                spec.max_tokens->0 as nat,
            )
            &&& forall|name: Seq<char>| #[trigger]
                options.contains_key(name) ==> name == "temperature"@ || name == "num_predict"@
        }),
{
    reveal_strlit("messages");
    reveal_strlit("stream");
    reveal_strlit("model");
    reveal_strlit("options");
    reveal_strlit("temperature");
    reveal_strlit("num_predict");
    assert("temperature"@[0] != "num_predict"@[0]);
}

/// The temperature of a request's body is what the number type makes of the one that
/// is set; where none is set there is none.
pub proof fn law_temperature_is_converted_as_it_is<N: Into<Value>>(
    temperature: Option<N>,
    value: Option<Value>,
)
    requires
        is_json_of(temperature, value),
    ensures
        temperature is Some <==> value is Some,
        temperature is Some ==> call_ensures(
            <N as Into<Value>>::into,
            (temperature->0,),
            value->0,
        ),
{
}

} // verus!

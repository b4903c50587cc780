//! The link to the backend: how the agent presents itself, and what it makes of
//! the messages that the socket delivers.
use crate::protocol::ServerFrame;
use tokio_tungstenite::tungstenite::client::IntoClientRequest;
use tokio_tungstenite::tungstenite::http::header::{InvalidHeaderValue, AUTHORIZATION};
use tokio_tungstenite::tungstenite::http::{HeaderValue, Request};
use vstd::prelude::*;
use vstd::string::*;

verus! {

/// A header value of the `http` types that the websocket client uses.
#[verifier::external_type_specification]
#[verifier::external_body]
pub struct ExHeaderValue(tokio_tungstenite::tungstenite::http::HeaderValue);

/// The error of a header value that cannot be sent.
#[verifier::external_type_specification]
#[verifier::external_body]
pub struct ExInvalidHeaderValue(tokio_tungstenite::tungstenite::http::header::InvalidHeaderValue);

/// The bytes of a header value.
pub uninterp spec fn header_bytes(value: HeaderValue) -> Seq<u8>;

/// Bytes that a header can carry: no control characters but the tab.
pub open spec fn can_be_sent(bytes: Seq<u8>) -> bool {
    forall|i: int| 0 <= i < bytes.len() ==> (#[trigger] bytes[i] >= 32 && bytes[i] != 127)
        || bytes[i] == 9
}

/// [`HeaderValue::from_str`] gives the header value that holds the bytes of the
/// text, or an error exactly where they hold a control character other than the
/// tab.
pub assume_specification[ HeaderValue::from_str ](src: &str) -> (result: Result<
    HeaderValue,
    InvalidHeaderValue,
>)
    ensures
        result is Ok <==> can_be_sent(src.spec_bytes()),
        result is Ok ==> header_bytes(result->Ok_0) == src.spec_bytes(),
;

/// The words of an [`InvalidHeaderValue`].
pub open spec fn invalid_header_words() -> Seq<char> {
    "failed to parse header value"@
}

/// Formats an [`InvalidHeaderValue`] with its `Display`, which is the same text for
/// every such error.
#[verifier::external_body]
fn invalid_header_text(error: &InvalidHeaderValue) -> (text: String)
    ensures
        text@ == invalid_header_words(),
{
    error.to_string()
}

/// A request of the `http` types that the websocket client uses.
#[verifier::external_type_specification]
#[verifier::external_body]
#[verifier::reject_recursive_types(T)]
pub struct ExRequest<T>(tokio_tungstenite::tungstenite::http::Request<T>);

/// The text of the URI that a request goes to.
pub uninterp spec fn uri_of(request: Request<()>) -> Seq<char>;

/// The method of a request.
pub uninterp spec fn method_of(request: Request<()>) -> Seq<char>;

/// The headers of a request: by each name, in lower case, its values in their order.
pub uninterp spec fn headers_of(request: Request<()>) -> Map<Seq<char>, Seq<Seq<u8>>>;

/// What `into_client_request` makes of the text of a URL: the text of the URI that
/// the request goes to and the bytes of the host that it names, or the text of the
/// error where it makes no request.
pub uninterp spec fn client_target(url: Seq<char>) -> Result<(Seq<char>, Seq<u8>), Seq<char>>;

/// The header of that name has that one value.
pub open spec fn has_header(
    headers: Map<Seq<char>, Seq<Seq<u8>>>,
    name: Seq<char>,
    value: Seq<char>,
) -> bool {
    headers.contains_key(name) && headers[name] == seq![vstd::utf8::encode_utf8(value)]
}

/// The headers by which a request asks to become a websocket.
pub open spec fn asks_for_websocket(headers: Map<Seq<char>, Seq<Seq<u8>>>) -> bool {
    &&& has_header(headers, "connection"@, "Upgrade"@)
    &&& has_header(headers, "upgrade"@, "websocket"@)
    &&& has_header(headers, "sec-websocket-version"@, "13"@)
}

/// Calls `into_client_request` of tungstenite on the text of a URL: a `GET` request
/// to the URI that the text spells, with the headers of a websocket handshake, five
/// in all and no `Authorization` among them, or an error. Which URI and which host
/// those are, and on which texts it fails with what words, depends on the text
/// alone. Of the handshake key, which is random, nothing is said.
#[verifier::external_body]
fn upgrade_request(url: &str) -> (result: Result<Request<()>, String>)
    ensures
        result is Ok <==> client_target(url@) is Ok,
        result is Ok ==> uri_of(result->Ok_0) == client_target(url@)->Ok_0.0,
        result is Ok ==> method_of(result->Ok_0) == "GET"@,
        result is Ok ==> headers_of(result->Ok_0).contains_key("host"@),
        result is Ok ==> headers_of(result->Ok_0)["host"@] == seq![client_target(url@)->Ok_0.1],
        result is Ok ==> asks_for_websocket(headers_of(result->Ok_0)),
        result is Ok ==> headers_of(result->Ok_0).len() == 5,
        result is Ok ==> !headers_of(result->Ok_0).contains_key("authorization"@),
        result is Err ==> result->Err_0@ == client_target(url@)->Err_0,
{
    match url.into_client_request() {
        Ok(request) => Ok(request),
        Err(error) => Err(error.to_string()),
    }
}

/// Calls `HeaderMap::insert` on the headers of a request: the `Authorization` header
/// has that one value, and the other headers, the method and the URI stay. It panics on a map of
/// tens of thousands of headers, so the request has few.
#[verifier::external_body]
fn insert_authorization(request: &mut Request<()>, value: HeaderValue)
    requires
        headers_of(*old(request)).len() < 100,
    ensures
        uri_of(*final(request)) == uri_of(*old(request)),
        method_of(*final(request)) == method_of(*old(request)),
        headers_of(*final(request)) == headers_of(*old(request)).insert(
            "authorization"@,
            seq![header_bytes(value)],
        ),
{
    request.headers_mut().insert(AUTHORIZATION, value);
}

/// Why a connection cannot be attempted.
#[derive(Debug, Clone, PartialEq, Eq)]
pub enum LinkError {
    /// The backend URL is none that a websocket can be opened to, in words.
    InvalidUrl(String),
    /// The token cannot be sent in a header, in words.
    InvalidToken(String),
}

/// What an error of the link holds.
pub enum LinkErrorView {
    InvalidUrl(Seq<char>),
    InvalidToken(Seq<char>),
}

impl View for LinkError {
    type V = LinkErrorView;

    open spec fn view(&self) -> LinkErrorView {
        match *self {
            LinkError::InvalidUrl(text) => LinkErrorView::InvalidUrl(text@),
            LinkError::InvalidToken(text) => LinkErrorView::InvalidToken(text@),
        }
    }
}

/// The text of an error of the link.
pub open spec fn link_error_message(error: LinkErrorView) -> Seq<char> {
    match error {
        LinkErrorView::InvalidUrl(text) => text,
        LinkErrorView::InvalidToken(text) => text,
    }
}

impl LinkError {
    /// The error in words.
    pub fn message(&self) -> (text: String)
        ensures
            text@ == link_error_message(self@),
    {
        match self {
            LinkError::InvalidUrl(text) => text.as_str().to_owned(),
            LinkError::InvalidToken(text) => text.as_str().to_owned(),
        }
    }
}

/// The text of the `Authorization` header that presents a token.
pub open spec fn bearer(token: Seq<char>) -> Seq<char> {
    "Bearer "@ + token
}

/// The `Authorization` header that presents a bridge token. Fails where the token
/// holds a control character other than the tab.
pub fn authorization(token: &str) -> (result: Result<HeaderValue, LinkError>)
    ensures
        match result {
            Ok(value) => can_be_sent(vstd::utf8::encode_utf8(bearer(token@))) && header_bytes(value)
                == vstd::utf8::encode_utf8(bearer(token@)),
            Err(error) => !can_be_sent(vstd::utf8::encode_utf8(bearer(token@))) && error@
                == LinkErrorView::InvalidToken(invalid_header_words()),
        },
{
    let text = "Bearer ".to_owned().concat(token);
    match HeaderValue::from_str(text.as_str()) {
        Ok(value) => Ok(value),
        Err(error) => Err(LinkError::InvalidToken(invalid_header_text(&error))),
    }
}

/// Why no request is made to a URL with a token, if none is: the first error, of the
/// URL and then of the token.
pub open spec fn link_error(url: Seq<char>, token: Seq<char>) -> Option<LinkErrorView> {
    match client_target(url) {
        Err(text) => Some(LinkErrorView::InvalidUrl(text)),
        Ok(_) => if can_be_sent(vstd::utf8::encode_utf8(bearer(token))) {
            None
        } else {
            Some(LinkErrorView::InvalidToken(invalid_header_words()))
        },
    }
}

/// A request is the websocket handshake with a URL that presents a token, once, as a
/// bearer credential.
pub open spec fn opens_link(request: Request<()>, url: Seq<char>, token: Seq<char>) -> bool {
    let (uri, host) = client_target(url)->Ok_0;
    let headers = headers_of(request);
    &&& uri_of(request) == uri
    &&& method_of(request) == "GET"@
    &&& headers.contains_key("host"@) && headers["host"@] == seq![host]
    &&& asks_for_websocket(headers)
    &&& has_header(headers, "authorization"@, bearer(token))
}

/// The request that opens the link to the backend.
pub fn client_request(url: &str, token: &str) -> (result: Result<Request<()>, LinkError>)
    ensures
        match result {
            Ok(request) => link_error(url@, token@) is None && opens_link(request, url@, token@),
            Err(error) => link_error(url@, token@) == Some(error@),
        },
{
    let mut request = match upgrade_request(url) {
        Ok(request) => request,
        Err(text) => {
            return Err(LinkError::InvalidUrl(text));
        },
    };
    let credential = match authorization(token) {
        Ok(credential) => credential,
        Err(error) => {
            return Err(error);
        },
    };
    insert_authorization(&mut request, credential);
    proof {
        reveal_strlit("authorization");
        reveal_strlit("host");
        reveal_strlit("connection");
        reveal_strlit("upgrade");
        reveal_strlit("sec-websocket-version");
    }
    Ok(request)
}

/// A request is made exactly where the URL is one that a websocket can be opened to
/// and the token can be sent in a header.
pub proof fn law_link_needs_a_url_and_a_token(url: Seq<char>, token: Seq<char>)
    ensures
        link_error(url, token) is None <==> client_target(url) is Ok && can_be_sent(
            vstd::utf8::encode_utf8(bearer(token)),
        ),
{
}

/// A token of visible ASCII characters and spaces can be presented.
pub proof fn law_printable_token_can_be_presented(token: Seq<char>)
    requires
        forall|i: int| 0 <= i < token.len() ==> ' ' <= #[trigger] token[i] <= '~',
    ensures
        can_be_sent(vstd::utf8::encode_utf8(bearer(token))),
{
    reveal_strlit("Bearer ");
    let text = bearer(token);
    assert forall|i: int| 0 <= i < text.len() implies ' ' <= #[trigger] text[i] <= '~' by {
        if i >= 7 {
            assert(text[i] == token[i - 7]);
        }
    }
    assert(vstd::utf8::is_ascii_chars(text));
    vstd::utf8::is_ascii_chars_encode_utf8(text);
}

/// A token that holds a line break cannot be presented.
pub proof fn law_line_break_cannot_be_presented(token: Seq<char>, at: int)
    requires
        0 <= at < token.len(),
        token[at] == '\n' || token[at] == '\r',
    ensures
        !can_be_sent(vstd::utf8::encode_utf8(bearer(token))),
{
    let text = bearer(token);
    let before = "Bearer "@ + token.take(at);
    let line_break = seq![token[at]];
    let after = token.skip(at + 1);
    assert(text =~= before + line_break + after);
    crate::text::lemma_encoding_concatenates(before, line_break);
    crate::text::lemma_encoding_concatenates(before + line_break, after);
    assert(vstd::utf8::is_ascii_chars(line_break));
    vstd::utf8::is_ascii_chars_encode_utf8(line_break);
    let i = vstd::utf8::encode_utf8(before).len() as int;
    assert(vstd::utf8::encode_utf8(text)[i] == token[at] as u8);
}

/// What a socket delivers.
#[derive(Debug)]
pub enum SocketMessage {
    /// A text message.
    Text(String),
    /// The other side closed the socket.
    Closed,
    /// Reading failed.
    Failed,
    /// A message of another kind.
    Other,
}

/// What to do with a message of the socket.
#[derive(Debug)]
pub enum Reaction<N> {
    /// Hand a frame to the session, and stop reading if the session is gone.
    Deliver(ServerFrame<N>),
    /// Read the next message.
    Skip,
    /// Stop reading.
    Stop,
}

/// What to do with a text message that was decoded, or could not be: a frame is
/// delivered, and a text that is no frame is skipped.
pub open spec fn decoded_reaction<N>(decoded: Option<ServerFrame<N>>) -> Reaction<N> {
    match decoded {
        Some(frame) => Reaction::Deliver(frame),
        None => Reaction::Skip,
    }
}

/// Which frame, or none, a text can be decoded to.
pub type FrameRelation<N> = spec_fn(Seq<char>, Option<ServerFrame<N>>) -> bool;

/// What a decoder can make of a text.
pub open spec fn by_decoder<N, F: Fn(&str) -> Option<ServerFrame<N>>>(decode: F) -> FrameRelation<
    N,
> {
    |body: Seq<char>, decoded: Option<ServerFrame<N>>|
        exists|text: &str| text@ == body && #[trigger] call_ensures(decode, (text,), decoded)
}

/// `reaction` is what to do with a message, by what its text was decoded to.
pub open spec fn reacts<N>(
    decodes: FrameRelation<N>,
    message: SocketMessage,
    reaction: Reaction<N>,
) -> bool {
    match message {
        SocketMessage::Text(body) => exists|decoded: Option<ServerFrame<N>>| #[trigger]
            decodes(body@, decoded) && reaction == decoded_reaction(decoded),
        SocketMessage::Closed | SocketMessage::Failed => reaction is Stop,
        SocketMessage::Other => reaction is Skip,
    }
}

/// `frames` are what the reader delivers of messages one after the other: it acts on
/// each reaction in turn, and reads no further once one is to stop.
pub open spec fn delivers<N>(
    decodes: FrameRelation<N>,
    messages: Seq<SocketMessage>,
    frames: Seq<ServerFrame<N>>,
) -> bool
    decreases messages.len(),
{
    if messages.len() == 0 {
        frames == Seq::<ServerFrame<N>>::empty()
    } else {
        exists|reaction: Reaction<N>| #[trigger]
            reacts(decodes, messages[0], reaction) && match reaction {
                Reaction::Deliver(frame) => frames.len() > 0 && frames[0] == frame && delivers(
                    decodes,
                    messages.drop_first(),
                    frames.drop_first(),
                ),
                Reaction::Skip => delivers(decodes, messages.drop_first(), frames),
                Reaction::Stop => frames == Seq::<ServerFrame<N>>::empty(),
            }
    }
}

/// The texts of the text messages before the first that ends the link: a close, or a
/// failure of reading.
pub open spec fn texts_before_end(messages: Seq<SocketMessage>) -> Seq<Seq<char>>
    decreases messages.len(),
{
    if messages.len() == 0 {
        Seq::empty()
    } else {
        match messages[0] {
            SocketMessage::Text(body) => seq![body@] + texts_before_end(messages.drop_first()),
            SocketMessage::Other => texts_before_end(messages.drop_first()),
            SocketMessage::Closed | SocketMessage::Failed => Seq::empty(),
        }
    }
}

/// `decoded` are what texts were decoded to, one for each.
pub open spec fn were_decoded<N>(
    decodes: FrameRelation<N>,
    texts: Seq<Seq<char>>,
    decoded: Seq<Option<ServerFrame<N>>>,
) -> bool {
    &&& decoded.len() == texts.len()
    &&& forall|i: int|
        0 <= i < texts.len() ==> decodes(texts[i], #[trigger] decoded[i])
}

/// The frames among what texts were decoded to, in their order.
pub open spec fn frames_among<N>(decoded: Seq<Option<ServerFrame<N>>>) -> Seq<ServerFrame<N>>
    decreases decoded.len(),
{
    if decoded.len() == 0 {
        Seq::empty()
    } else {
        (match decoded[0] {
            Some(frame) => seq![frame],
            None => Seq::empty(),
        }) + frames_among(decoded.drop_first())
    }
}

/// The session gets exactly the frames that were decoded from the text messages
/// before the first close or failure, in their order. Texts that are no frames and
/// messages of other kinds are skipped, and end nothing.
pub proof fn law_session_gets_the_frames_before_the_end<N>(
    decodes: FrameRelation<N>,
    messages: Seq<SocketMessage>,
    frames: Seq<ServerFrame<N>>,
)
    requires
        delivers(decodes, messages, frames),
    ensures
        exists|decoded: Seq<Option<ServerFrame<N>>>| #[trigger]
            were_decoded(decodes, texts_before_end(messages), decoded) && frames == frames_among(
                decoded,
            ),
    decreases messages.len(),
{
    let none = Seq::<Option<ServerFrame<N>>>::empty();
    if messages.len() == 0 {
        assert(were_decoded(decodes, texts_before_end(messages), none));
    } else {
        let later = messages.drop_first();
        let reaction = choose|reaction: Reaction<N>| #[trigger]
            reacts(decodes, messages[0], reaction) && match reaction {
                Reaction::Deliver(frame) => frames.len() > 0 && frames[0] == frame && delivers(
                    decodes,
                    later,
                    frames.drop_first(),
                ),
                Reaction::Skip => delivers(decodes, later, frames),
                Reaction::Stop => frames == Seq::<ServerFrame<N>>::empty(),
            };
        match messages[0] {
            SocketMessage::Text(body) => {
                let one = choose|decoded: Option<ServerFrame<N>>| #[trigger]
                    decodes(body@, decoded) && reaction == decoded_reaction(decoded);
                let rest = if one is Some {
                    frames.drop_first()
                } else {
                    frames
                };
                law_session_gets_the_frames_before_the_end(decodes, later, rest);
                let decoded = choose|decoded: Seq<Option<ServerFrame<N>>>| #[trigger]
                    were_decoded(decodes, texts_before_end(later), decoded) && rest == frames_among(
                        decoded,
                    );
                let all = seq![one] + decoded;
                assert(all.drop_first() =~= decoded);
                assert forall|i: int| 0 <= i < all.len() implies decodes(
                    texts_before_end(messages)[i],
                    #[trigger] all[i],
                ) by {
                    if i > 0 {
                        assert(all[i] == decoded[i - 1]);
                        assert(texts_before_end(messages)[i] == texts_before_end(later)[i - 1]);
                    }
                }
                assert(were_decoded(decodes, texts_before_end(messages), all));
                assert(frames =~= frames_among(all));
            },
            SocketMessage::Other => {
                law_session_gets_the_frames_before_the_end(decodes, later, frames);
            },
            SocketMessage::Closed | SocketMessage::Failed => {
                assert(were_decoded(decodes, texts_before_end(messages), none));
            },
        }
    }
}

/// Texts that can be decoded to nothing but one frame each give those frames: where
/// the decoder reads back what was written, the session gets what was sent.
pub proof fn law_frames_that_read_back_arrive<N>(
    decodes: FrameRelation<N>,
    messages: Seq<SocketMessage>,
    written: Seq<ServerFrame<N>>,
    frames: Seq<ServerFrame<N>>,
)
    requires
        texts_before_end(messages).len() == written.len(),
        forall|i: int, decoded: Option<ServerFrame<N>>|
            0 <= i < written.len() && #[trigger] decodes(texts_before_end(messages)[i], decoded)
                ==> decoded == Some(written[i]),
        delivers(decodes, messages, frames),
    ensures
        frames == written,
{
    law_session_gets_the_frames_before_the_end(decodes, messages, frames);
    let decoded = choose|decoded: Seq<Option<ServerFrame<N>>>| #[trigger]
        were_decoded(decodes, texts_before_end(messages), decoded) && frames == frames_among(
            decoded,
        );
    assert forall|i: int| 0 <= i < written.len() implies decoded[i] == Some(written[i]) by {
        assert(decodes(texts_before_end(messages)[i], decoded[i]));
    }
    lemma_all_are_frames(decoded, written);
}

/// Where every text was a frame, the frames are all of them.
proof fn lemma_all_are_frames<N>(
    decoded: Seq<Option<ServerFrame<N>>>,
    frames: Seq<ServerFrame<N>>,
)
    requires
        decoded.len() == frames.len(),
        forall|i: int| 0 <= i < frames.len() ==> #[trigger] decoded[i] == Some(frames[i]),
    ensures
        frames_among(decoded) == frames,
    decreases frames.len(),
{
    if frames.len() > 0 {
        lemma_all_are_frames(decoded.drop_first(), frames.drop_first());
    }
    assert(frames_among(decoded) =~= frames);
}

/// Messages after a close or a failure make no difference.
pub proof fn law_nothing_is_read_after_the_end(
    before: Seq<SocketMessage>,
    end: SocketMessage,
    after: Seq<SocketMessage>,
)
    requires
        end is Closed || end is Failed,
    ensures
        texts_before_end(before + seq![end] + after) == texts_before_end(before),
    decreases before.len(),
{
    let all = before + seq![end] + after;
    if before.len() > 0 {
        law_nothing_is_read_after_the_end(before.drop_first(), end, after);
        assert(all.drop_first() =~= before.drop_first() + seq![end] + after);
        assert(all[0] == before[0]);
    } else {
        assert(all[0] == end);
    }
}

/// Decides what to do with a text message that was decoded, or could not be.
pub fn react_to_frame<N>(decoded: Option<ServerFrame<N>>) -> (reaction: Reaction<N>)
    ensures
        reaction == decoded_reaction(decoded),
{
    match decoded {
        Some(frame) => Reaction::Deliver(frame),
        None => Reaction::Skip,
    }
}

/// Decides what to do with a message of the socket, with the decoder of frames.
pub fn react<N, F: Fn(&str) -> Option<ServerFrame<N>>>(message: SocketMessage, decode: &F) -> (
reaction: Reaction<N>)
    requires
        forall|text: &str|
            message is Text && text@ == message->Text_0@ ==> #[trigger] call_requires(
                *decode,
                (text,),
            ),
    ensures
        reacts(by_decoder(*decode), message, reaction),
{
    match message {
        SocketMessage::Text(body) => {
            let text = body.as_str();
            let decoded = decode(text);
            assert(by_decoder(*decode)(body@, decoded)) by {
                assert(call_ensures(*decode, (text,), decoded));
            }
            react_to_frame(decoded)
        },
        SocketMessage::Closed => Reaction::Stop,
        SocketMessage::Failed => Reaction::Stop,
        SocketMessage::Other => Reaction::Skip,
    }
}

// ---- What results hold ----
/// The credential is the word `Bearer`, a space and the token as it is.
pub proof fn law_the_token_follows_the_scheme(token: Seq<char>)
    ensures
        bearer(token) == "Bearer "@ + token,
        bearer(token).len() == 7 + token.len(),
        bearer(token).skip(7) == token,
{
    reveal_strlit("Bearer ");
    assert(bearer(token).skip(7) =~= token);
}

/// A header can carry exactly the bytes that are no control characters, and the tab.
pub proof fn law_only_control_characters_cannot_be_sent(bytes: Seq<u8>)
    ensures
        can_be_sent(bytes) <==> forall|i: int|
            0 <= i < bytes.len() ==> #[trigger] bytes[i] == 9 || 32 <= bytes[i] <= 126 || bytes[i]
                >= 128,
{
    if can_be_sent(bytes) {
        assert forall|i: int| 0 <= i < bytes.len() implies #[trigger] bytes[i] == 9 || 32
            <= bytes[i] <= 126 || bytes[i] >= 128 by {}
    }
}

/// A request that opens the link is a `GET` to the target of the URL that names its host
/// and asks for a websocket, with one credential: the token as a bearer.
pub proof fn law_a_request_opens_the_link(request: Request<()>, url: Seq<char>, token: Seq<char>)
    requires
        opens_link(request, url, token),
    ensures
        ({
            let headers = headers_of(request);
            let utf8 = |text: Seq<char>| vstd::utf8::encode_utf8(text);
            &&& uri_of(request) == client_target(url)->Ok_0.0
            &&& method_of(request) == "GET"@
            &&& headers.contains_key("host"@) && headers["host"@] == seq![
                client_target(url)->Ok_0.1,
            ]
            &&& headers.contains_key("connection"@) && headers["connection"@] == seq![
                utf8("Upgrade"@),
            ]
            &&& headers.contains_key("upgrade"@) && headers["upgrade"@] == seq![utf8("websocket"@)]
            &&& headers.contains_key("sec-websocket-version"@) && headers["sec-websocket-version"@]
                == seq![utf8("13"@)]
            &&& headers.contains_key("authorization"@) && headers["authorization"@] == seq![
                utf8("Bearer "@ + token),
            ]
        }),
{
}

/// A URL that no websocket can be opened to is told of first, in the words of its error,
/// and then a token that cannot be sent.
pub proof fn law_the_first_fault_of_the_link_is_told(
    url: Seq<char>,
    token: Seq<char>,
    error: LinkError,
)
    requires
        link_error(url, token) == Some(error@),
    ensures
        client_target(url) matches Err(text) ==> (error matches LinkError::InvalidUrl(words)
            && words@ == text),
        client_target(url) is Ok ==> (error matches LinkError::InvalidToken(words) && words@
            == "failed to parse header value"@) && !can_be_sent(
            vstd::utf8::encode_utf8("Bearer "@ + token),
        ),
{
}

/// The words of an error are those that it carries.
pub proof fn law_link_errors_tell_their_words(error: LinkError)
    ensures
        link_error_message(error@) == match error {
            LinkError::InvalidUrl(words) => words@,
            LinkError::InvalidToken(words) => words@,
        },
{
}

/// A text that is a frame is delivered as that frame, and one that is none is skipped.
/// A close and a failure stop the reading, and any other message is skipped.
pub proof fn law_a_message_is_delivered_skipped_or_the_end<N>(
    decodes: FrameRelation<N>,
    message: SocketMessage,
    decoded: Option<ServerFrame<N>>,
    reaction: Reaction<N>,
)
    requires
        reacts(decodes, message, reaction),
        message matches SocketMessage::Text(body) ==> forall|made: Option<ServerFrame<N>>|
            #[trigger] decodes(body@, made) ==> made == decoded,
    ensures
        message is Text && decoded is Some ==> (reaction matches Reaction::Deliver(frame) && frame
            == decoded->0),
        message is Text && decoded is None ==> reaction is Skip,
        message is Closed || message is Failed ==> reaction is Stop,
        message is Other ==> reaction is Skip,
{
}

/// What a text is decoded to is what the decoder makes of it, all of it and as it is.
pub proof fn law_a_text_is_decoded_as_it_is<N, F: Fn(&str) -> Option<ServerFrame<N>>>(
    decode: F,
    body: Seq<char>,
    decoded: Option<ServerFrame<N>>,
)
    ensures
        by_decoder(decode)(body, decoded) <==> exists|text: &str|
            text@ == body && #[trigger] call_ensures(decode, (text,), decoded),
{
}

/// One more text before the end is one more text to decode, and a message of another
/// kind is none.
pub proof fn law_one_more_text_is_read(messages: Seq<SocketMessage>, message: SocketMessage)
    requires
        forall|i: int|
            0 <= i < messages.len() ==> #[trigger] messages[i] is Text || messages[i] is Other,
    ensures
        texts_before_end(Seq::empty()).len() == 0,
        message matches SocketMessage::Text(body) ==> texts_before_end(messages.push(message))
            == texts_before_end(messages).push(body@),
        !(message is Text) ==> texts_before_end(messages.push(message)) == texts_before_end(
            messages,
        ),
    decreases messages.len(),
{
    let all = messages.push(message);
    if messages.len() == 0 {
        assert(all.drop_first() =~= Seq::empty());
        assert(texts_before_end(all.drop_first()) =~= Seq::empty());
        if message is Text {
            assert(texts_before_end(all) =~= texts_before_end(messages).push(message->Text_0@));
        }
    } else {
        let later = messages.drop_first();
        assert(later.push(message) =~= all.drop_first());
        assert(all[0] == messages[0]);
        assert forall|i: int| 0 <= i < later.len() implies #[trigger] later[i] is Text
            || later[i] is Other by {
            assert(later[i] == messages[i + 1]);
        }
        law_one_more_text_is_read(later, message);
        if message is Text {
            assert(texts_before_end(all) =~= texts_before_end(messages).push(message->Text_0@));
        }
    }
}

/// One more text that is a frame is one more frame, at the end, and one that is none
/// makes no difference.
pub proof fn law_one_more_frame_is_delivered<N>(
    decoded: Seq<Option<ServerFrame<N>>>,
    one: Option<ServerFrame<N>>,
)
    ensures
        frames_among(Seq::<Option<ServerFrame<N>>>::empty()).len() == 0,
        one matches Some(frame) ==> frames_among(decoded.push(one)) == frames_among(decoded).push(
            frame,
        ),
        one is None ==> frames_among(decoded.push(one)) == frames_among(decoded),
    decreases decoded.len(),
{
    let all = decoded.push(one);
    if decoded.len() == 0 {
        assert(all.drop_first() =~= Seq::empty());
        assert(frames_among(all.drop_first()) =~= Seq::empty());
        if one is Some {
            assert(frames_among(all) =~= frames_among(decoded).push(one->0));
        }
    } else {
        let later = decoded.drop_first();
        assert(later.push(one) =~= all.drop_first());
        assert(all[0] == decoded[0]);
        law_one_more_frame_is_delivered(later, one);
        if one is Some {
            assert(frames_among(all) =~= frames_among(decoded).push(one->0));
        }
    }
}

} // verus!

//! Replies of the Ollama runtime over HTTP: what a call amounts to once the
//! request was sent, or could not be.
use crate::ollama::{parse_tags, ErrorView, OllamaError, OllamaModel, TagsResponse};
use crate::protocol::ModelView;
use vstd::prelude::*;

verus! {

/// A status code that an HTTP reply can have.
pub open spec fn is_status(code: u16) -> bool {
    100 <= code <= 999
}

/// The text of a status code in an HTTP client: the code and its reason.
pub uninterp spec fn status_line(code: u16) -> Seq<char>;

/// Calls [`reqwest::StatusCode::is_success`]: true of the codes from 200 to 299.
#[verifier::external_body]
fn status_is_success(code: u16) -> (success: bool)
    requires
        is_status(code),
    ensures
        success == (200 <= code <= 299),
{
    reqwest::StatusCode::from_u16(code).unwrap().is_success()
}

/// Formats a [`reqwest::StatusCode`] with its `Display`: the text depends on the
/// code alone.
#[verifier::external_body]
fn status_text(code: u16) -> (text: String)
    requires
        is_status(code),
    ensures
        text@ == status_line(code),
{
    reqwest::StatusCode::from_u16(code).unwrap().to_string()
}

/// What sending a request amounts to, given the status of the reply or the error
/// that kept it from being sent: a transport error, an error of the provider where
/// the status is no success, or a reply whose body can be read.
pub open spec fn opening(sent: Result<u16, String>) -> Result<(), ErrorView> {
    match sent {
        Err(text) => Err(ErrorView::Transport(text@)),
        Ok(code) => if 200 <= code <= 299 {
            Ok(())
        } else {
            Err(ErrorView::Provider(status_line(code)))
        },
    }
}

/// What a result holds whose success has nothing to tell.
pub open spec fn opened(result: Result<(), OllamaError>) -> Result<(), ErrorView> {
    match result {
        Ok(()) => Ok(()),
        Err(error) => Err(error@),
    }
}

/// Decides whether the body of a reply is read, given the status of the reply, or
/// the error in sending the request.
pub fn open_reply(sent: Result<u16, String>) -> (result: Result<(), OllamaError>)
    requires
        sent is Ok ==> is_status(sent->Ok_0),
    ensures
        opened(result) == opening(sent),
{
    match sent {
        Err(text) => Err(OllamaError::Transport(text)),
        Ok(code) => if status_is_success(code) {
            Ok(())
        } else {
            Err(OllamaError::Provider(status_text(code)))
        },
    }
}

/// `listing` is what reading the body of a tags reply amounts to: a transport error
/// where it could not be read, else what the decoder made of it.
pub open spec fn tags_read<F: Fn(&str) -> Result<TagsResponse, String>>(
    decode: F,
    body: Result<String, String>,
    listing: Result<Seq<ModelView>, ErrorView>,
) -> bool {
    match body {
        Err(text) => listing == Err::<Seq<ModelView>, ErrorView>(ErrorView::Transport(text@)),
        Ok(body) => crate::ollama::tags_parsed(decode, body@, listing),
    }
}

/// The models that a tags reply lists, given its body, or the error in reading it.
pub fn read_tags<F: Fn(&str) -> Result<TagsResponse, String>>(
    body: Result<String, String>,
    decode: &F,
) -> (result: Result<Vec<OllamaModel>, OllamaError>)
    requires
        forall|text: &str|
            body is Ok && text@ == body->Ok_0@ ==> #[trigger] call_requires(*decode, (text,)),
    ensures
        tags_read(*decode, body, crate::ollama::listing_of(result)),
{
    match body {
        Err(text) => Err(OllamaError::Transport(text)),
        Ok(body) => parse_tags(body.as_str(), decode),
    }
}

/// A reply is read only where the request was sent and the status is a success,
/// and each failure says whose it is: the transport's where the request was not
/// sent, the provider's otherwise.
pub proof fn law_failures_are_told_apart(sent: Result<u16, String>)
    ensures
        opening(sent) is Ok <==> (sent is Ok && 200 <= sent->Ok_0 <= 299),
        opening(sent) is Err && opening(sent)->Err_0 is Transport <==> sent is Err,
{
}

/// A request that was not sent is a transport error in the words of its error. A reply
/// without success is an error of the provider in the words of its status. Any other
/// is read.
pub proof fn law_reply_is_opened_or_told_why_not(
    sent: Result<u16, String>,
    result: Result<(), OllamaError>,
)
    requires
        opened(result) == opening(sent),
    ensures
        sent matches Err(text) ==> (result matches Err(OllamaError::Transport(words)) && words@
            == text@),
        sent matches Ok(code) ==> if 200 <= code <= 299 {
            result is Ok
        } else {
            result matches Err(OllamaError::Provider(words)) && words@ == status_line(code)
        },
{
}

/// A body that could not be read is a transport error in the words of its error.
pub proof fn law_unreadable_body_is_a_transport_error<
    F: Fn(&str) -> Result<TagsResponse, String>,
>(decode: F, text: String, result: Result<Vec<OllamaModel>, OllamaError>)
    requires
        tags_read(decode, Err(text), crate::ollama::listing_of(result)),
    ensures
        result matches Err(OllamaError::Transport(words)) && words@ == text@,
{
}

/// A body that was read lists what the decoder makes of it.
pub proof fn law_read_body_is_decoded<F: Fn(&str) -> Result<TagsResponse, String>>(
    decode: F,
    body: String,
    decoded: Result<TagsResponse, String>,
    result: Result<Vec<OllamaModel>, OllamaError>,
)
    requires
        tags_read(decode, Ok(body), crate::ollama::listing_of(result)),
        forall|text: &str, made: Result<TagsResponse, String>|
            text@ == body@ && #[trigger] call_ensures(decode, (text,), made) ==> made == decoded,
    ensures
        crate::ollama::listing_of(result) == crate::ollama::tags_outcome(decoded),
{
}

} // verus!

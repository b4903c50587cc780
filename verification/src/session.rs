//! Drives one connected session: announce models, then serve inference frames.
//!
//! The program around the library moves frames, runs inferences as tasks and
//! aborts them. It tells the session what happened, and the session answers with
//! what to do.
use crate::ollama::{
    ChatSpec, ChatSpecView, ErrorView, EventView, OllamaError, OllamaEvent, OllamaModel,
};
use crate::protocol::{
    ClientFrame, ClientFrameView, ModelView, ServerFrame, ServerFrameView, WireMessage, WireModel,
    PROTOCOL_VERSION,
};
use std::collections::HashMap;
use vstd::prelude::*;
use vstd::string::*;

verus! {

broadcast use vstd::std_specs::hash::group_hash_axioms;

/// What ends a session with an error.
#[derive(Debug, Clone, PartialEq, Eq)]
pub enum SessionError {
    /// The server rejected the handshake.
    Rejected {
        /// Machine-readable reason code.
        code: String,
        /// Human-readable detail.
        message: String,
    },
}

/// What an error of a session holds.
pub enum SessionErrorView {
    Rejected { code: Seq<char>, message: Seq<char> },
}

impl View for SessionError {
    type V = SessionErrorView;

    open spec fn view(&self) -> SessionErrorView {
        match *self {
            SessionError::Rejected { code, message } => SessionErrorView::Rejected {
                code: code@,
                message: message@,
            },
        }
    }
}

/// The text of an error of a session.
pub open spec fn session_error_message(error: SessionErrorView) -> Seq<char> {
    match error {
        SessionErrorView::Rejected { code, message } => "server rejected the connection ("@ + code
            + "): "@ + message,
    }
}

impl SessionError {
    /// The error in words.
    pub fn message(&self) -> (text: String)
        ensures
            text@ == session_error_message(self@),
    {
        match self {
            SessionError::Rejected { code, message } => {
                let head = "server rejected the connection (".to_owned().concat(code.as_str());
                head.concat("): ").concat(message.as_str())
            },
        }
    }
}

/// What the program around the library does next. `N` is the number type of
/// temperatures, `H` what it holds to abort a running inference.
#[derive(Debug)]
pub enum Action<N, H> {
    /// Wait for the next event.
    Wait,
    /// Send a frame to the cloud.
    Send(ClientFrame),
    /// Send a frame to the cloud, list the local models, and tell the session what
    /// came of it.
    Greet(ClientFrame),
    /// Run an inference as a task, and hand what aborts it to
    /// [`Session::started`].
    Start {
        /// The inference.
        correlation: u128,
        /// What to ask of the local model.
        spec: ChatSpec<N>,
    },
    /// Abort a running inference.
    Abort(H),
    /// Abort these inferences and end the session.
    Stop(Vec<H>),
}

/// What happens to a session.
#[derive(Debug)]
pub enum Event<N> {
    /// The link to the cloud is open.
    Opened {
        /// The agent's own version.
        agent_version: String,
    },
    /// The local models were listed, or could not be.
    Listed(Result<Vec<OllamaModel>, OllamaError>),
    /// A frame arrived.
    Frame(ServerFrame<N>),
    /// An inference came to its end.
    Finished {
        /// The inference.
        correlation: u128,
    },
    /// The link to the cloud is gone.
    Closed,
}

/// What happened to a session.
pub enum HappeningView<N> {
    Opened { agent_version: Seq<char> },
    Listed(Result<Seq<ModelView>, ErrorView>),
    Frame(ServerFrameView<N>),
    Finished { correlation: u128 },
    Closed,
}

impl<N> View for Event<N> {
    type V = HappeningView<N>;

    open spec fn view(&self) -> HappeningView<N> {
        match *self {
            Event::Opened { agent_version } => HappeningView::Opened {
                agent_version: agent_version@,
            },
            Event::Listed(listing) => HappeningView::Listed(crate::ollama::listing_of(listing)),
            Event::Frame(frame) => HappeningView::Frame(frame@),
            Event::Finished { correlation } => HappeningView::Finished { correlation },
            Event::Closed => HappeningView::Closed,
        }
    }
}

/// What an action holds.
pub enum AnswerView<N, H> {
    Wait,
    Send(ClientFrameView),
    Greet(ClientFrameView),
    Start { correlation: u128, spec: ChatSpecView<N> },
    Abort(H),
    Stop(Seq<H>),
}

impl<N, H> View for Action<N, H> {
    type V = AnswerView<N, H>;

    open spec fn view(&self) -> AnswerView<N, H> {
        match *self {
            Action::Wait => AnswerView::Wait,
            Action::Send(frame) => AnswerView::Send(frame@),
            Action::Greet(frame) => AnswerView::Greet(frame@),
            Action::Start { correlation, spec } => AnswerView::Start { correlation, spec: spec@ },
            Action::Abort(handle) => AnswerView::Abort(handle),
            Action::Stop(handles) => AnswerView::Stop(handles@),
        }
    }
}

/// What a result of handling an event holds.
pub open spec fn answer_of<N, H>(result: Result<Action<N, H>, SessionError>) -> Result<
    AnswerView<N, H>,
    SessionErrorView,
> {
    match result {
        Ok(action) => Ok(action@),
        Err(error) => Err(error@),
    }
}

/// The answer to a frame, given what aborts the running inferences.
pub open spec fn frame_answer<N, H>(
    running: Map<u128, H>,
    frame: ServerFrameView<N>,
) -> Result<AnswerView<N, H>, SessionErrorView> {
    match frame {
        ServerFrameView::Welcome { .. } => Ok(AnswerView::Wait),
        ServerFrameView::Reject { code, message } => Err(
            SessionErrorView::Rejected { code, message },
        ),
        ServerFrameView::Ping => Ok(AnswerView::Send(ClientFrameView::Pong)),
        ServerFrameView::Infer { correlation, model, system, messages, params } => Ok(
            AnswerView::Start {
                correlation,
                spec: ChatSpecView {
                    model,
                    system,
                    messages,
                    temperature: params.temperature,
                    max_tokens: params.max_tokens,
                },
            },
        ),
        ServerFrameView::Cancel { correlation } => Ok(
            if running.contains_key(correlation) {
                AnswerView::Abort(running[correlation])
            } else {
                AnswerView::Wait
            },
        ),
    }
}

/// The running inferences after a frame.
pub open spec fn running_after_frame<N, H>(
    running: Map<u128, H>,
    frame: ServerFrameView<N>,
) -> Map<u128, H> {
    match frame {
        ServerFrameView::Cancel { correlation } => running.remove(correlation),
        _ => running,
    }
}

/// `handles` are what aborts the running inferences, one for each, in some order.
pub open spec fn aborts_all<H>(running: Map<u128, H>, handles: Seq<H>) -> bool {
    exists|order: Seq<u128>|
        #![trigger order.no_duplicates()]
        order.no_duplicates() && order.to_set() == running.dom() && handles == order.map_values(
            |correlation: u128| running[correlation],
        )
}

/// The first frame of a session: the protocol version and the agent's own.
pub open spec fn hello_frame(agent_version: Seq<char>) -> ClientFrameView {
    ClientFrameView::Hello { protocol_version: PROTOCOL_VERSION, agent_version }
}

/// The frame that announces the local models, given what listing them amounted to:
/// none where it failed.
pub open spec fn models_frame(listing: Result<Seq<ModelView>, ErrorView>) -> ClientFrameView {
    ClientFrameView::Models {
        models: match listing {
            Ok(models) => models,
            Err(_) => Seq::empty(),
        },
    }
}

/// `answer` is the answer to what happened, given what aborts the running
/// inferences.
pub open spec fn answers<N, H>(
    running: Map<u128, H>,
    happened: HappeningView<N>,
    answer: Result<AnswerView<N, H>, SessionErrorView>,
) -> bool {
    match happened {
        HappeningView::Opened { agent_version } => answer == Ok::<
            AnswerView<N, H>,
            SessionErrorView,
        >(AnswerView::Greet(hello_frame(agent_version))),
        HappeningView::Listed(listing) => answer == Ok::<AnswerView<N, H>, SessionErrorView>(
            AnswerView::Send(models_frame(listing)),
        ),
        HappeningView::Frame(frame) => answer == frame_answer(running, frame),
        HappeningView::Finished { .. } => answer == Ok::<AnswerView<N, H>, SessionErrorView>(
            AnswerView::Wait,
        ),
        HappeningView::Closed => answer matches Ok(AnswerView::Stop(handles)) && aborts_all(
            running,
            handles,
        ),
    }
}

/// The running inferences after what happened.
pub open spec fn running_after<N, H>(
    running: Map<u128, H>,
    happened: HappeningView<N>,
) -> Map<u128, H> {
    match happened {
        HappeningView::Frame(frame) => running_after_frame(running, frame),
        HappeningView::Finished { correlation } => running.remove(correlation),
        HappeningView::Closed => Map::empty(),
        _ => running,
    }
}

/// What ends a session: a rejection, or the link being gone.
pub open spec fn ends_session<N>(happened: HappeningView<N>) -> bool {
    happened is Closed || (happened matches HappeningView::Frame(frame) && frame is Reject)
}

/// The messages of a frame as those of a chat request.
fn chat_messages(messages: Vec<WireMessage>) -> (pairs: Vec<(String, String)>)
    ensures
        crate::ollama::messages_of(pairs@) == messages@.map_values(|message: WireMessage| message@),
{
    let ghost all = messages@.map_values(|message: WireMessage| message@);
    let mut pairs: Vec<(String, String)> = Vec::new();
    assert(crate::ollama::messages_of(pairs@) =~= all.take(0));
    for message in it: messages
        invariant
            all == it.seq().map_values(|message: WireMessage| message@),
            crate::ollama::messages_of(pairs@) == all.take(it.index()),
    {
        let ghost entry = message;
        let ghost before = pairs@;
        pairs.push((message.role, message.content));
        assert(crate::ollama::messages_of(pairs@) =~= crate::ollama::messages_of(before).push(
            entry@,
        ));
        assert(all.take(it.index() + 1) =~= all.take(it.index()).push(all[it.index()]));
    }
    assert(all.take(all.len() as int) =~= all);
    pairs
}

/// A session: the inferences that are running, by what aborts each, and whether the
/// session is over.
#[derive(Debug)]
pub struct Session<H> {
    tasks: HashMap<u128, H>,
    over: bool,
}

impl<H> View for Session<H> {
    type V = Map<u128, H>;

    closed spec fn view(&self) -> Map<u128, H> {
        self.tasks@
    }
}

impl<H> Session<H> {
    /// Whether the session is over.
    pub closed spec fn over(self) -> bool {
        self.over
    }

    /// A session in which no inference is running.
    pub fn new() -> (session: Session<H>)
        ensures
            session@ == Map::<u128, H>::empty(),
            !session.over(),
    {
        Session { tasks: HashMap::new(), over: false }
    }

    /// Whether the session is over: it was rejected, or the link is gone.
    pub fn is_over(&self) -> (over: bool)
        ensures
            over == self.over(),
    {
        self.over
    }

    /// Handle one server frame. A rejection ends the session.
    fn handle_frame<N>(&mut self, frame: ServerFrame<N>) -> (result: Result<
        Action<N, H>,
        SessionError,
    >)
        ensures
            answer_of(result) == frame_answer(old(self)@, frame@),
            final(self)@ == running_after_frame(old(self)@, frame@),
            final(self).over() == (old(self).over() || frame@ is Reject),
    {
        match frame {
            ServerFrame::Welcome { .. } => Ok(Action::Wait),
            ServerFrame::Reject { code, message } => {
                self.over = true;
                Err(SessionError::Rejected { code, message })
            },
            ServerFrame::Ping => Ok(Action::Send(ClientFrame::Pong)),
            ServerFrame::Infer { correlation, model, system, messages, params } => {
                let spec = ChatSpec {
                    model,
                    system,
                    messages: chat_messages(messages),
                    temperature: params.temperature,
                    max_tokens: params.max_tokens,
                };
                Ok(Action::Start { correlation, spec })
            },
            ServerFrame::Cancel { correlation } => match self.tasks.remove(&correlation) {
                Some(handle) => Ok(Action::Abort(handle)),
                None => {
                    assert(self@ =~= old(self)@.remove(correlation));
                    Ok(Action::Wait)
                },
            },
        }
    }

    /// An inference was started; `handle` aborts it. It takes the place of what
    /// aborted an earlier inference of the same correlation.
    pub fn started(&mut self, correlation: u128, handle: H)
        ensures
            final(self)@ == old(self)@.insert(correlation, handle),
            final(self).over() == old(self).over(),
    {
        self.tasks.insert(correlation, handle);
    }

    /// An inference came to its end.
    pub fn finished(&mut self, correlation: u128)
        ensures
            final(self)@ == old(self)@.remove(correlation),
            final(self).over() == old(self).over(),
    {
        self.tasks.remove(&correlation);
    }

    /// The link is gone, and the session is over: what aborts the inferences that are
    /// still running.
    pub fn close(&mut self) -> (handles: Vec<H>)
        ensures
            final(self).over(),
            aborts_all(old(self)@, handles@),
            final(self)@ == Map::<u128, H>::empty(),
    {
        let ghost running = self@;
        let mut correlations: Vec<u128> = Vec::new();
        for correlation in it: self.tasks.keys()
            invariant
                running == self.tasks@,
                it.seq().unref().to_set() == running.dom(),
                it.seq().no_duplicates(),
                correlations@ == it.seq().unref().take(it.index()),
                correlations@.no_duplicates(),
                it.index() == it.seq().len() ==> correlations@.to_set() == running.dom(),
        {
            correlations.push(*correlation);
            assert(correlations@ =~= it.seq().unref().take(it.index() + 1));
            assert(it.seq().unref().take(it.seq().len() as int) =~= it.seq().unref());
            assert forall|i: int, j: int| 0 <= i < j < correlations@.len() implies correlations@[i]
                != correlations@[j] by {
                assert(it.seq()[i] != it.seq()[j]);
            }
        }
        let ghost order = correlations@;
        let mut handles: Vec<H> = Vec::new();
        let mut at: usize = 0;
        assert forall|i: int| 0 <= i < order.len() implies #[trigger] self@.contains_key(
            order[i],
        ) by {
            assert(order.to_set().contains(order[i]));
        }
        assert forall|correlation: u128| #[trigger]
            self@.contains_key(correlation) implies order.skip(0).contains(correlation) by {
            assert(order.to_set().contains(correlation));
            assert(order.skip(0) =~= order);
        }
        while at < correlations.len()
            invariant
                at <= correlations.len(),
                order == correlations@,
                order.no_duplicates(),
                order.to_set() == running.dom(),
                forall|i: int|
                    at <= i < order.len() ==> #[trigger] self@.contains_key(order[i])
                        && self@[order[i]] == running[order[i]],
                forall|correlation: u128| #[trigger]
                    self@.contains_key(correlation) ==> order.skip(at as int).contains(correlation),
                handles@ == order.take(at as int).map_values(
                    |correlation: u128| running[correlation],
                ),
            decreases correlations.len() - at,
        {
            let ghost before = self@;
            assert(before.contains_key(order[at as int]));
            if let Some(handle) = self.tasks.remove(&correlations[at]) {
                handles.push(handle);
            }
            proof {
                assert(handles@ =~= order.take(at + 1).map_values(
                    |correlation: u128| running[correlation],
                ));
                assert forall|i: int| at + 1 <= i < order.len() implies (
                #[trigger] self@.contains_key(order[i])) && self@[order[i]]
                    == running[order[i]] by {
                    assert(before.contains_key(order[i]));
                    assert(order[i] != order[at as int]);
                }
                assert forall|correlation: u128| #[trigger]
                    self@.contains_key(correlation) implies order.skip(at + 1).contains(
                    correlation,
                ) by {
                    assert(before.contains_key(correlation));
                    let i = choose|i: int|
                        0 <= i < order.skip(at as int).len() && order.skip(at as int)[i]
                            == correlation;
                    assert(order.skip(at + 1)[i - 1] == correlation);
                }
            }
            at = at + 1;
        }
        proof {
            assert(order.take(at as int) =~= order);
            assert forall|correlation: u128| !#[trigger] self@.contains_key(correlation) by {
                if self@.contains_key(correlation) {
                    assert(order.skip(at as int).contains(correlation));
                }
            }
            assert(self@ =~= Map::empty());
        }
        self.over = true;
        handles
    }

    /// Handle what happened to the session. A rejection ends the session with an
    /// error, and leaves the running inferences alone. A session that is over does
    /// nothing more.
    pub fn step<N>(&mut self, event: Event<N>) -> (result: Result<Action<N, H>, SessionError>)
        ensures
            final(self).over() == (old(self).over() || ends_session(event@)),
            old(self).over() ==> answer_of(result) == Ok::<AnswerView<N, H>, SessionErrorView>(
                AnswerView::Wait,
            ) && final(self)@ == old(self)@,
            !old(self).over() ==> answers(old(self)@, event@, answer_of(result)) && final(self)@
                == running_after(old(self)@, event@),
    {
        if self.over {
            return Ok(Action::Wait);
        }
        match event {
            Event::Opened { agent_version } => Ok(Action::Greet(hello(agent_version))),
            Event::Listed(listing) => Ok(Action::Send(announce(listing))),
            Event::Frame(frame) => self.handle_frame(frame),
            Event::Finished { correlation } => {
                self.finished(correlation);
                Ok(Action::Wait)
            },
            Event::Closed => Ok(Action::Stop(self.close())),
        }
    }
}

/// A frame ends the session with an error exactly where it rejects the handshake,
/// and the error tells its code and message.
pub proof fn law_only_reject_ends_with_an_error<N, H>(
    running: Map<u128, H>,
    frame: ServerFrameView<N>,
)
    ensures
        match frame {
            ServerFrameView::Reject { code, message } => frame_answer(running, frame) == Err::<
                AnswerView<N, H>,
                SessionErrorView,
            >(SessionErrorView::Rejected { code, message }),
            _ => frame_answer(running, frame) is Ok,
        },
{
}

/// A ping is answered with a pong, and nothing else is.
pub proof fn law_ping_is_answered_with_pong<N, H>(running: Map<u128, H>, frame: ServerFrameView<N>)
    ensures
        frame is Ping <==> (frame_answer(running, frame) matches Ok(AnswerView::Send(_))),
        frame is Ping ==> frame_answer(running, frame) == Ok::<AnswerView<N, H>, SessionErrorView>(
            AnswerView::Send(ClientFrameView::Pong),
        ),
{
}

/// Only a cancellation changes the running inferences, and only its own.
pub proof fn law_frames_leave_other_inferences_alone<N, H>(
    running: Map<u128, H>,
    frame: ServerFrameView<N>,
    other: u128,
)
    requires
        frame matches ServerFrameView::Cancel { correlation } ==> correlation != other,
    ensures
        running_after_frame(running, frame).contains_key(other) == running.contains_key(other),
        running.contains_key(other) ==> running_after_frame(running, frame)[other]
            == running[other],
{
}

/// A cancellation aborts the inference if it is running, and it no longer is: to
/// cancel again does nothing.
pub proof fn law_cancelling_again_does_nothing<N, H>(running: Map<u128, H>, correlation: u128)
    ensures
        ({
            let frame = ServerFrameView::<N>::Cancel { correlation };
            let after = running_after_frame(running, frame);
            &&& running.contains_key(correlation) ==> frame_answer(running, frame) == Ok::<
                AnswerView<N, H>,
                SessionErrorView,
            >(AnswerView::Abort(running[correlation]))
            &&& !after.contains_key(correlation)
            &&& frame_answer(after, frame) == Ok::<AnswerView<N, H>, SessionErrorView>(
                AnswerView::Wait,
            )
            &&& running_after_frame(after, frame) == after
        }),
{
    assert(running.remove(correlation).remove(correlation) =~= running.remove(correlation));
}

/// An inference that was started and finished leaves the session as it was, if no
/// other of its correlation was running.
pub proof fn law_finishing_undoes_starting<H>(running: Map<u128, H>, correlation: u128, handle: H)
    requires
        !running.contains_key(correlation),
    ensures
        running.insert(correlation, handle).remove(correlation) == running,
{
    assert(running.insert(correlation, handle).remove(correlation) =~= running);
}

/// When the link is gone, what aborts each running inference is given out, once
/// for each, and nothing else is.
pub proof fn law_closing_aborts_what_is_running<H>(running: Map<u128, H>, handles: Seq<H>)
    requires
        aborts_all(running, handles),
    ensures
        forall|correlation: u128| #[trigger]
            running.contains_key(correlation) ==> handles.contains(running[correlation]),
        forall|handle: H| #[trigger]
            handles.contains(handle) ==> exists|correlation: u128| #[trigger]
                running.contains_key(correlation) && running[correlation] == handle,
        handles.len() == running.dom().len(),
{
    let order = choose|order: Seq<u128>|
        #![trigger order.no_duplicates()]
        order.no_duplicates() && order.to_set() == running.dom() && handles == order.map_values(
            |correlation: u128| running[correlation],
        );
    assert forall|correlation: u128| #[trigger]
        running.contains_key(correlation) implies handles.contains(running[correlation]) by {
        assert(order.to_set().contains(correlation));
        let i = choose|i: int| 0 <= i < order.len() && order[i] == correlation;
        assert(handles[i] == running[correlation]);
    }
    assert forall|handle: H| #[trigger] handles.contains(handle) implies exists|correlation: u128|
     #[trigger]
        running.contains_key(correlation) && running[correlation] == handle by {
        let i = choose|i: int| 0 <= i < handles.len() && handles[i] == handle;
        assert(order.to_set().contains(order[i]));
        assert(running.contains_key(order[i]));
    }
    order.unique_seq_to_set();
}

/// The frames that an answer sends.
pub open spec fn frames_of<N, H>(answer: Result<AnswerView<N, H>, SessionErrorView>) -> Seq<
    ClientFrameView,
> {
    match answer {
        Ok(AnswerView::Send(frame)) => seq![frame],
        Ok(AnswerView::Greet(frame)) => seq![frame],
        _ => Seq::empty(),
    }
}

/// Whether a session is over after a history.
pub open spec fn has_ended<N>(history: Seq<HappeningView<N>>) -> bool {
    exists|i: int| 0 <= i < history.len() && ends_session(#[trigger] history[i])
}

/// A history up to what first ended the session, that included.
pub open spec fn until_end<N>(history: Seq<HappeningView<N>>) -> Seq<HappeningView<N>>
    decreases history.len(),
{
    if history.len() > 0 && has_ended(history.drop_last()) {
        until_end(history.drop_last())
    } else {
        history
    }
}

/// `sent` are the frames that the answers to a history send, one after the other,
/// whatever is running meanwhile. Nothing is answered once the session is over.
pub open spec fn sends<N, H>(history: Seq<HappeningView<N>>, sent: Seq<ClientFrameView>) -> bool
    decreases history.len(),
{
    if history.len() == 0 {
        sent == Seq::<ClientFrameView>::empty()
    } else if has_ended(history.drop_last()) {
        sends::<N, H>(history.drop_last(), sent)
    } else {
        exists|
            before: Seq<ClientFrameView>,
            running: Map<u128, H>,
            answer: Result<AnswerView<N, H>, SessionErrorView>,
        |
            #![trigger before + frames_of(answer), answers(running, history.last(), answer)]
            sent == before + frames_of(answer) && sends::<N, H>(history.drop_last(), before)
                && answers(running, history.last(), answer)
    }
}

/// The number of pings in a history.
pub open spec fn pings<N>(history: Seq<HappeningView<N>>) -> nat
    decreases history.len(),
{
    if history.len() == 0 {
        0
    } else if history.last() matches HappeningView::Frame(frame) && frame is Ping {
        pings(history.drop_last()) + 1
    } else {
        pings(history.drop_last())
    }
}

/// What happens once the handshake is over.
pub open spec fn is_serving<N>(happened: HappeningView<N>) -> bool {
    happened is Frame || happened is Finished || happened is Closed
}

/// A rejection or the link being gone ends a session for good: whatever happens after
/// it is not answered.
pub proof fn law_nothing_follows_the_end_of_a_session<N, H>(
    history: Seq<HappeningView<N>>,
    more: Seq<HappeningView<N>>,
    sent: Seq<ClientFrameView>,
)
    requires
        has_ended(history),
        sends::<N, H>(history + more, sent),
    ensures
        has_ended(history + more),
        until_end(history + more) == until_end(history),
        sends::<N, H>(history, sent),
    decreases more.len(),
{
    let all = history + more;
    let end = choose|i: int| 0 <= i < history.len() && ends_session(#[trigger] history[i]);
    assert(ends_session(all[end]));
    if more.len() == 0 {
        assert(all =~= history);
    } else {
        let earlier = history + more.drop_last();
        assert(all.drop_last() =~= earlier);
        assert(ends_session(earlier[end]));
        law_nothing_follows_the_end_of_a_session::<N, H>(history, more.drop_last(), sent);
    }
}

/// A history up to the end of the session is a beginning of it in which nothing but
/// the last can end the session, and what is cut off follows an end.
pub proof fn law_cut_is_at_the_first_end<N>(history: Seq<HappeningView<N>>)
    ensures
        ({
            let kept = until_end(history);
            &&& kept.len() <= history.len()
            &&& kept == history.take(kept.len() as int)
            &&& forall|i: int| 0 <= i < kept.len() - 1 ==> !ends_session(#[trigger] kept[i])
            &&& kept.len() < history.len() ==> kept.len() > 0 && ends_session(kept.last())
        }),
    decreases history.len(),
{
    if history.len() > 0 && has_ended(history.drop_last()) {
        let shorter = history.drop_last();
        law_cut_is_at_the_first_end(shorter);
        let kept = until_end(shorter);
        assert(kept =~= history.take(kept.len() as int));
        if kept.len() == shorter.len() {
            let end = choose|i: int| 0 <= i < shorter.len() && ends_session(#[trigger] shorter[i]);
            assert(kept =~= shorter);
            assert(ends_session(kept[end]));
        }
    } else {
        assert(history.take(history.len() as int) =~= history);
        assert forall|i: int| 0 <= i < history.len() - 1 implies !ends_session(
            #[trigger] history[i],
        ) by {
            assert(history.drop_last()[i] == history[i]);
        }
    }
}

/// A session says hello first, then announces the models. From then on it sends a
/// pong for each ping until it is over, and nothing else: the rest is sent by the
/// inferences.
pub proof fn law_handshake_comes_first<N, H>(
    agent_version: Seq<char>,
    listing: Result<Seq<ModelView>, ErrorView>,
    served: Seq<HappeningView<N>>,
    sent: Seq<ClientFrameView>,
)
    requires
        forall|i: int| 0 <= i < served.len() ==> is_serving(#[trigger] served[i]),
        sends::<N, H>(
            seq![HappeningView::Opened { agent_version }, HappeningView::Listed(listing)] + served,
            sent,
        ),
    ensures
        sent == seq![hello_frame(agent_version), models_frame(listing)] + Seq::new(
            pings(until_end(served)),
            |i: int| ClientFrameView::Pong,
        ),
    decreases served.len(),
{
    let opened = HappeningView::<N>::Opened { agent_version };
    let listed = HappeningView::<N>::Listed(listing);
    let history = seq![opened, listed] + served;
    if served.len() == 0 {
        reveal_with_fuel(sends, 4);
        assert(history.last() == listed);
        assert(history.drop_last() =~= seq![opened]);
        assert(seq![opened].drop_last() =~= Seq::empty());
        assert(!has_ended(history.drop_last()));
        let (before, running, answer) = choose|
            before: Seq<ClientFrameView>,
            running: Map<u128, H>,
            answer: Result<AnswerView<N, H>, SessionErrorView>,
        |
            #![trigger before + frames_of(answer), answers(running, history.last(), answer)]
            sent == before + frames_of(answer) && sends::<N, H>(history.drop_last(), before)
                && answers(running, history.last(), answer);
        assert(before =~= seq![hello_frame(agent_version)]);
        assert(sent =~= seq![hello_frame(agent_version), models_frame(listing)] + Seq::new(
            pings(until_end(served)),
            |i: int| ClientFrameView::Pong,
        ));
    } else {
        let earlier = served.drop_last();
        assert(history.last() == served.last());
        assert(history.drop_last() =~= seq![opened, listed] + earlier);
        lemma_handshake_ends_nothing(opened, listed, earlier);
        assert(is_serving(served[served.len() - 1]));
        if has_ended(earlier) {
            law_handshake_comes_first::<N, H>(agent_version, listing, earlier, sent);
        } else {
            let (before, running, answer) = choose|
                before: Seq<ClientFrameView>,
                running: Map<u128, H>,
                answer: Result<AnswerView<N, H>, SessionErrorView>,
            |
                #![trigger before + frames_of(answer), answers(running, history.last(), answer)]
                sent == before + frames_of(answer) && sends::<N, H>(history.drop_last(), before)
                    && answers(running, history.last(), answer);
            law_handshake_comes_first::<N, H>(agent_version, listing, earlier, before);
            lemma_not_ended_is_not_cut(earlier);
            assert(sent =~= seq![hello_frame(agent_version), models_frame(listing)] + Seq::new(
                pings(until_end(served)),
                |i: int| ClientFrameView::Pong,
            ));
        }
    }
}

/// A history that did not end the session is not cut.
proof fn lemma_not_ended_is_not_cut<N>(history: Seq<HappeningView<N>>)
    requires
        !has_ended(history),
    ensures
        until_end(history) == history,
{
    if history.len() > 0 && has_ended(history.drop_last()) {
        let shorter = history.drop_last();
        let end = choose|i: int| 0 <= i < shorter.len() && ends_session(#[trigger] shorter[i]);
        assert(ends_session(history[end]));
    }
}

/// The handshake does not end a session.
proof fn lemma_handshake_ends_nothing<N>(
    opened: HappeningView<N>,
    listed: HappeningView<N>,
    served: Seq<HappeningView<N>>,
)
    requires
        opened is Opened,
        listed is Listed,
    ensures
        has_ended(seq![opened, listed] + served) == has_ended(served),
{
    let history = seq![opened, listed] + served;
    if has_ended(served) {
        let end = choose|i: int| 0 <= i < served.len() && ends_session(#[trigger] served[i]);
        assert(ends_session(history[end + 2]));
    }
    if has_ended(history) {
        let end = choose|i: int| 0 <= i < history.len() && ends_session(#[trigger] history[i]);
        assert(ends_session(served[end - 2]));
    }
}

// ---- Handshake ----
/// The first frame of a session: the protocol version and the agent's own.
pub fn hello(agent_version: String) -> (frame: ClientFrame)
    ensures
        frame@ == hello_frame(agent_version@),
{
    ClientFrame::Hello { protocol_version: PROTOCOL_VERSION, agent_version }
}

/// The frame that announces the local models: none where they could not be listed.
pub fn announce(listing: Result<Vec<OllamaModel>, OllamaError>) -> (frame: ClientFrame)
    ensures
        frame@ == models_frame(crate::ollama::listing_of(listing)),
{
    let mut wire_models: Vec<WireModel> = Vec::new();
    if let Ok(models) = listing {
        let ghost all = crate::ollama::models_of(models@);
        assert(wire_models_of(wire_models@) =~= all.take(0));
        for model in it: models
            invariant
                all == crate::ollama::models_of(it.seq()),
                wire_models_of(wire_models@) == all.take(it.index()),
        {
            let ghost entry = model;
            let ghost before = wire_models@;
            wire_models.push(
                WireModel {
                    name: model.name,
                    family: model.family,
                    parameter_size: model.parameter_size,
                },
            );
            assert(wire_models_of(wire_models@) =~= wire_models_of(before).push(entry@));
            assert(all.take(it.index() + 1) =~= all.take(it.index()).push(all[it.index()]));
        }
        assert(all.take(all.len() as int) =~= all);
    } else {
        assert(wire_models_of(wire_models@) =~= Seq::empty());
    }
    ClientFrame::Models { models: wire_models }
}

/// What a list of wire models holds.
pub open spec fn wire_models_of(models: Seq<WireModel>) -> Seq<ModelView> {
    models.map_values(|model: WireModel| model@)
}

// ---- Inference ----
/// What is read of the local model's answer.
#[derive(Debug)]
pub enum Reading {
    /// The chat could not be started.
    Refused(OllamaError),
    /// The next item of the stream.
    Item(Result<OllamaEvent, OllamaError>),
    /// The stream is at its end.
    Ended,
}

/// What a reading holds.
pub enum ReadingView {
    Refused(ErrorView),
    Item(Result<EventView, ErrorView>),
    Ended,
}

impl View for Reading {
    type V = ReadingView;

    open spec fn view(&self) -> ReadingView {
        match *self {
            Reading::Refused(error) => ReadingView::Refused(error@),
            Reading::Item(item) => ReadingView::Item(crate::stream::item_of(item)),
            Reading::Ended => ReadingView::Ended,
        }
    }
}

/// The frame that relays a reading: tokens and usage as they come, `Failed` on an
/// error, and `Done` at the end.
pub open spec fn relayed(correlation: u128, reading: ReadingView) -> ClientFrameView {
    match reading {
        ReadingView::Refused(error) => ClientFrameView::Failed {
            correlation,
            message: crate::ollama::error_message(error),
        },
        ReadingView::Item(Err(error)) => ClientFrameView::Failed {
            correlation,
            message: crate::ollama::error_message(error),
        },
        ReadingView::Item(Ok(EventView::Token(text))) => ClientFrameView::Token {
            correlation,
            text,
        },
        ReadingView::Item(Ok(EventView::Usage { input_tokens, output_tokens })) =>
            ClientFrameView::Usage { correlation, input_tokens, output_tokens },
        ReadingView::Ended => ClientFrameView::Done { correlation },
    }
}

/// A reading after which nothing more is read.
pub open spec fn is_last(reading: ReadingView) -> bool {
    match reading {
        ReadingView::Item(Ok(_)) => false,
        _ => true,
    }
}

/// Whether an inference is over after readings one after the other.
pub open spec fn over_after(readings: Seq<ReadingView>) -> bool {
    exists|i: int| 0 <= i < readings.len() && is_last(#[trigger] readings[i])
}

/// The frames of an inference after readings one after the other.
pub open spec fn frames_after(correlation: u128, readings: Seq<ReadingView>) -> Seq<ClientFrameView>
    decreases readings.len(),
{
    if readings.len() == 0 {
        Seq::empty()
    } else if over_after(readings.drop_last()) {
        frames_after(correlation, readings.drop_last())
    } else {
        frames_after(correlation, readings.drop_last()).push(relayed(correlation, readings.last()))
    }
}

/// One inference, relayed to the cloud as the local model answers.
#[derive(Debug)]
pub struct Inference {
    correlation: u128,
    over: bool,
}

impl Inference {
    /// The inference that the frames belong to.
    pub closed spec fn correlation(self) -> u128 {
        self.correlation
    }

    /// Whether the inference is over.
    pub closed spec fn over(self) -> bool {
        self.over
    }

    /// An inference whose answer was not read yet.
    pub fn new(correlation: u128) -> (inference: Inference)
        ensures
            inference.correlation() == correlation,
            !inference.over(),
    {
        Inference { correlation, over: false }
    }

    /// Whether the inference is over: nothing more is read, and the session is told
    /// that it finished.
    pub fn is_over(&self) -> (over: bool)
        ensures
            over == self.over(),
    {
        self.over
    }

    /// Relays a reading. An inference that is over relays nothing more.
    pub fn step(&mut self, reading: Reading) -> (frame: Option<ClientFrame>)
        ensures
            final(self).correlation() == old(self).correlation(),
            old(self).over() ==> frame is None && final(self).over(),
            !old(self).over() ==> frame is Some && frame->0@ == relayed(
                old(self).correlation(),
                reading@,
            ) && final(self).over() == is_last(reading@),
            forall|readings: Seq<ReadingView>|
                #![trigger readings.push(reading@)]
                old(self).over() == over_after(readings) ==> {
                    &&& final(self).over() == over_after(readings.push(reading@))
                    &&& frames_after(old(self).correlation(), readings.push(reading@)) == (
                    match frame {
                        Some(frame) => frames_after(old(self).correlation(), readings).push(frame@),
                        None => frames_after(old(self).correlation(), readings),
                    })
                },
    {
        proof {
            assert forall|readings: Seq<ReadingView>| #[trigger] over_after(
                readings.push(reading@),
            ) == (over_after(readings) || is_last(reading@)) by {
                lemma_over_after_push(readings, reading@);
            }
            assert forall|readings: Seq<ReadingView>| (#[trigger] readings.push(
                reading@,
            )).drop_last() == readings by {
                assert(readings.push(reading@).drop_last() =~= readings);
            }
        }
        if self.over {
            return None;
        }
        let correlation = self.correlation;
        let frame = match reading {
            Reading::Refused(error) => {
                self.over = true;
                ClientFrame::Failed { correlation, message: error.message() }
            },
            Reading::Item(Err(error)) => {
                self.over = true;
                ClientFrame::Failed { correlation, message: error.message() }
            },
            Reading::Item(Ok(OllamaEvent::Token(text))) => ClientFrame::Token { correlation, text },
            Reading::Item(Ok(OllamaEvent::Usage { input_tokens, output_tokens })) =>
                ClientFrame::Usage { correlation, input_tokens, output_tokens },
            Reading::Ended => {
                self.over = true;
                ClientFrame::Done { correlation }
            },
        };
        Some(frame)
    }
}

/// One more reading ends an inference if it is a last one.
proof fn lemma_over_after_push(readings: Seq<ReadingView>, reading: ReadingView)
    ensures
        over_after(readings.push(reading)) == (over_after(readings) || is_last(reading)),
{
    let more = readings.push(reading);
    if over_after(readings) {
        let i = choose|i: int| 0 <= i < readings.len() && is_last(#[trigger] readings[i]);
        assert(is_last(more[i]));
    }
    if is_last(reading) {
        assert(is_last(more[readings.len() as int]));
    }
    if over_after(more) && !is_last(reading) {
        let i = choose|i: int| 0 <= i < more.len() && is_last(#[trigger] more[i]);
        assert(is_last(readings[i]));
    }
}

/// An inference ends with exactly one final frame, `Done` or `Failed`: none comes
/// before the end, so that one that is broken off has none, and nothing follows it.
/// Every frame names the inference.
pub proof fn law_one_final_frame_at_the_end(correlation: u128, readings: Seq<ReadingView>)
    ensures
        ({
            let frames = frames_after(correlation, readings);
            &&& forall|i: int|
                0 <= i < frames.len() ==> crate::protocol::correlation_of(#[trigger] frames[i])
                    == Some(correlation)
            &&& forall|i: int|
                0 <= i < frames.len() - 1 ==> !crate::protocol::is_final(#[trigger] frames[i])
            &&& over_after(readings) <==> frames.len() > 0 && crate::protocol::is_final(
                frames.last(),
            )
        }),
    decreases readings.len(),
{
    if readings.len() > 0 {
        let before = readings.drop_last();
        law_one_final_frame_at_the_end(correlation, before);
        assert(before.push(readings.last()) =~= readings);
        lemma_over_after_push(before, readings.last());
    }
}

/// Readings up to the last are relayed one for one and in their order.
pub proof fn law_readings_are_relayed_in_order(correlation: u128, readings: Seq<ReadingView>)
    requires
        readings.len() > 0 ==> !over_after(readings.drop_last()),
    ensures
        frames_after(correlation, readings) == readings.map_values(
            |reading: ReadingView| relayed(correlation, reading),
        ),
    decreases readings.len(),
{
    if readings.len() > 0 {
        let before = readings.drop_last();
        if before.len() > 0 {
            assert(before.drop_last().push(before.last()) =~= before);
            lemma_over_after_push(before.drop_last(), before.last());
        }
        law_readings_are_relayed_in_order(correlation, before);
        assert(before.push(readings.last()) =~= readings);
    }
    assert(frames_after(correlation, readings) =~= readings.map_values(
        |reading: ReadingView| relayed(correlation, reading),
    ));
}

/// Readings after the last make no difference.
pub proof fn law_nothing_follows_the_end(
    correlation: u128,
    readings: Seq<ReadingView>,
    more: Seq<ReadingView>,
)
    requires
        over_after(readings),
    ensures
        over_after(readings + more),
        frames_after(correlation, readings + more) == frames_after(correlation, readings),
    decreases more.len(),
{
    if more.len() == 0 {
        assert(readings + more =~= readings);
    } else {
        law_nothing_follows_the_end(correlation, readings, more.drop_last());
        assert((readings + more).drop_last() =~= readings + more.drop_last());
        assert((readings + more.drop_last()).push(more.last()) =~= readings + more);
        lemma_over_after_push(readings + more.drop_last(), more.last());
    }
}

/// An inference ends with `Done` where its stream came to its end, and with `Failed`
/// and the words of the error where the chat was refused or the stream broke off.
pub proof fn law_final_frame_tells_the_outcome(
    correlation: u128,
    readings: Seq<ReadingView>,
    last: ReadingView,
)
    requires
        !over_after(readings),
        is_last(last),
    ensures
        frames_after(correlation, readings.push(last)).last() == match last {
            ReadingView::Refused(error) => ClientFrameView::Failed {
                correlation,
                message: crate::ollama::error_message(error),
            },
            ReadingView::Item(Err(error)) => ClientFrameView::Failed {
                correlation,
                message: crate::ollama::error_message(error),
            },
            _ => ClientFrameView::Done { correlation },
        },
{
    assert(readings.push(last).drop_last() =~= readings);
}

// ---- What results hold ----
/// An inference is started as it is asked for: with the frame's own correlation, and a
/// chat request whose model, system prompt, messages, temperature and token limit are
/// each those of the frame, whatever is running.
pub proof fn law_an_inference_is_started_as_asked<N, H>(
    running: Map<u128, H>,
    frame: ServerFrame<N>,
    result: Result<Action<N, H>, SessionError>,
)
    requires
        frame is Infer,
        answers(running, Event::Frame(frame)@, answer_of(result)),
    ensures
        result matches Ok(Action::Start { correlation, spec }) && {
            let asked = frame->messages@;
            let pairs = spec.messages@;
            &&& correlation == frame->Infer_correlation
            &&& spec.model@ == frame->model@
            &&& spec.system is Some <==> frame->system is Some
            &&& spec.system is Some ==> spec.system->0@ == frame->system->0@
            &&& spec.temperature == frame->params.temperature
            &&& spec.max_tokens == frame->params.max_tokens
            &&& pairs.len() == asked.len()
            &&& forall|i: int|
                0 <= i < asked.len() ==> (#[trigger] pairs[i]).0@ == asked[i].role@ && pairs[i].1@
                    == asked[i].content@
        },
{
    let spec = result->Ok_0->spec;
    let asked = frame->messages@;
    let views = crate::ollama::messages_of(spec.messages@);
    assert(views == asked.map_values(|message: WireMessage| message@));
    assert(views.len() == spec.messages@.len());
    assert forall|i: int| 0 <= i < asked.len() implies (#[trigger] spec.messages@[i]).0@
        == asked[i].role@ && spec.messages@[i].1@ == asked[i].content@ by {
        assert(views[i] == (spec.messages@[i].0@, spec.messages@[i].1@));
        assert(views[i] == asked[i]@);
    }
}

/// What the other frames are answered: a welcome with nothing, a ping with a pong, a
/// rejection with an error of its code and message, and a cancellation by aborting the
/// inference that it names, if that is running.
pub proof fn law_other_frames_are_answered_in_kind<N, H>(
    running: Map<u128, H>,
    frame: ServerFrame<N>,
    result: Result<Action<N, H>, SessionError>,
)
    requires
        answers(running, Event::Frame(frame)@, answer_of(result)),
    ensures
        frame is Welcome ==> (result matches Ok(Action::Wait)),
        frame is Ping ==> (result matches Ok(Action::Send(ClientFrame::Pong))),
        frame is Reject ==> (result matches Err(SessionError::Rejected { code, message }) && code@
            == frame->code@ && message@ == frame->message@),
        frame is Cancel && running.contains_key(frame->Cancel_correlation) ==> (result matches Ok(
            Action::Abort(handle),
        ) && handle == running[frame->Cancel_correlation]),
        frame is Cancel && !running.contains_key(frame->Cancel_correlation) ==> (result matches Ok(
            Action::Wait,
        )),
{
}

/// The link being open is answered with a hello of protocol version one and the agent's
/// version, a listing with the models, the end of an inference with nothing, and the
/// link being gone by aborting what is running.
pub proof fn law_other_events_are_answered_in_kind<N, H>(
    running: Map<u128, H>,
    event: Event<N>,
    result: Result<Action<N, H>, SessionError>,
)
    requires
        answers(running, event@, answer_of(result)),
    ensures
        event matches Event::Opened { agent_version } ==> (result matches Ok(
            Action::Greet(ClientFrame::Hello { protocol_version, agent_version: told }),
        ) && protocol_version == 1 && told@ == agent_version@),
        event matches Event::Listed(listing) ==> (result matches Ok(Action::Send(frame)) && frame@
            == models_frame(crate::ollama::listing_of(listing))),
        event is Finished ==> (result matches Ok(Action::Wait)),
        event is Closed ==> (result matches Ok(Action::Stop(handles)) && aborts_all(
            running,
            handles@,
        )),
{
}

/// Each model that was listed is announced as it is, and none where listing failed.
pub proof fn law_each_model_is_announced(
    listing: Result<Vec<OllamaModel>, OllamaError>,
    frame: ClientFrame,
)
    requires
        frame@ == models_frame(crate::ollama::listing_of(listing)),
    ensures
        frame matches ClientFrame::Models { models: told } && match listing {
            Err(_) => told@.len() == 0,
            Ok(models) => told@.len() == models@.len() && forall|i: int|
                0 <= i < told@.len() ==> {
                    let (wire, model) = (#[trigger] told@[i], models@[i]);
                    &&& wire.name@ == model.name@
                    &&& wire.family is Some <==> model.family is Some
                    &&& wire.family is Some ==> wire.family->0@ == model.family->0@
                    &&& wire.parameter_size is Some <==> model.parameter_size is Some
                    &&& wire.parameter_size is Some ==> wire.parameter_size->0@
                        == model.parameter_size->0@
                },
        },
{
    let told = frame->models@;
    let views = wire_models_of(told);
    assert(views.len() == told.len());
    if listing is Ok {
        let models = listing->Ok_0@;
        assert(views =~= crate::ollama::models_of(models));
        assert forall|i: int| 0 <= i < told.len() implies (#[trigger] told[i])@ == models[i]@ by {
            assert(views[i] == told[i]@);
        }
    }
}

/// The first frame tells protocol version one and the agent's version.
pub proof fn law_hello_tells_the_versions(agent_version: String, frame: ClientFrame)
    requires
        frame@ == hello_frame(agent_version@),
    ensures
        frame matches ClientFrame::Hello { protocol_version, agent_version: told }
            && protocol_version == 1 && told@ == agent_version@,
{
}

/// What is running changes only by what ends it: a cancellation and the end of an
/// inference take out their own, the link being gone all, and anything else nothing.
pub proof fn law_only_what_ends_an_inference_takes_it_out<N, H>(
    running: Map<u128, H>,
    event: Event<N>,
    correlation: u128,
)
    ensures
        ({
            let after = running_after(running, event@);
            let own = match event {
                Event::Frame(ServerFrame::Cancel { correlation: named }) => named == correlation,
                Event::Finished { correlation: named } => named == correlation,
                Event::Closed => true,
                _ => false,
            };
            &&& after.contains_key(correlation) <==> running.contains_key(correlation) && !own
            &&& after.contains_key(correlation) ==> after[correlation] == running[correlation]
        }),
{
}

/// A session is ended by a rejection and by the link being gone, and by nothing else.
pub proof fn law_only_a_rejection_or_closing_ends_a_session<N>(event: Event<N>)
    ensures
        ends_session(event@) <==> (event is Closed || (event matches Event::Frame(frame)
            && frame is Reject)),
{
}

/// The words of a rejection tell its code and its message.
pub proof fn law_a_rejection_tells_code_and_message(error: SessionError)
    ensures
        error matches SessionError::Rejected { code, message } && session_error_message(error@)
            == "server rejected the connection ("@ + code@ + "): "@ + message@,
{
}

/// Each handle is given out as often as there are inferences running that it aborts.
pub proof fn law_closing_aborts_each_inference_once<H>(
    running: Map<u128, H>,
    handles: Seq<H>,
    handle: H,
)
    requires
        aborts_all(running, handles),
    ensures
        handles.to_multiset().count(handle) == running.dom().filter(
            |correlation: u128| running[correlation] == handle,
        ).len(),
{
    let order = choose|order: Seq<u128>|
        #![trigger order.no_duplicates()]
        order.no_duplicates() && order.to_set() == running.dom() && handles == order.map_values(
            |correlation: u128| running[correlation],
        );
    lemma_handles_are_counted(running, order, handle);
}

/// Handles in the order of correlations are as many as the correlations that have them.
proof fn lemma_handles_are_counted<H>(running: Map<u128, H>, order: Seq<u128>, handle: H)
    requires
        order.no_duplicates(),
    ensures
        order.map_values(|correlation: u128| running[correlation]).to_multiset().count(handle)
            == order.to_set().filter(|correlation: u128| running[correlation] == handle).len(),
    decreases order.len(),
{
    broadcast use vstd::seq_lib::group_to_multiset_ensures;

    let aborts = |correlation: u128| running[correlation];
    let has_it = |correlation: u128| running[correlation] == handle;
    let handles = order.map_values(aborts);
    if order.len() == 0 {
        assert(order.to_set().filter(has_it) =~= Set::empty());
        assert(handles =~= Seq::empty());
    } else {
        let earlier = order.drop_last();
        let last = order.last();
        lemma_handles_are_counted(running, earlier, handle);
        assert(handles =~= earlier.map_values(aborts).push(running[last]));
        vstd::seq_lib::seq_to_set_is_finite(earlier);
        assert(!earlier.to_set().contains(last)) by {
            if earlier.to_set().contains(last) {
                let i = choose|i: int| 0 <= i < earlier.len() && earlier[i] == last;
                assert(order[i] == order[order.len() - 1]);
            }
        }
        assert(order.to_set() =~= earlier.to_set().insert(last)) by {
            assert forall|c: u128| #[trigger]
                order.to_set().contains(c) implies earlier.to_set().insert(last).contains(c) by {
                let i = choose|i: int| 0 <= i < order.len() && order[i] == c;
                if i < earlier.len() {
                    assert(earlier[i] == c);
                }
            }
            assert forall|c: u128| #[trigger] earlier.to_set().insert(last).contains(
                c,
            ) implies order.to_set().contains(c) by {
                if c != last {
                    let i = choose|i: int| 0 <= i < earlier.len() && earlier[i] == c;
                    assert(order[i] == c);
                } else {
                    assert(order[order.len() - 1] == c);
                }
            }
        }
        let before = earlier.to_set().filter(has_it);
        if running[last] == handle {
            assert(order.to_set().filter(has_it) =~= before.insert(last));
        } else {
            assert(order.to_set().filter(has_it) =~= before);
        }
    }
}

/// What is read of the local model is relayed as it is: a token with its text, a usage
/// report with its two counts, an error in its words, and the end as done. Every frame
/// names the inference.
pub proof fn law_a_reading_is_relayed_as_it_is(
    correlation: u128,
    reading: Reading,
    frame: ClientFrame,
)
    requires
        frame@ == relayed(correlation, reading@),
    ensures
        match reading {
            Reading::Item(Ok(OllamaEvent::Token(text))) => frame matches ClientFrame::Token {
                correlation: named,
                text: told,
            } && named == correlation && told@ == text@,
            Reading::Item(Ok(OllamaEvent::Usage { input_tokens, output_tokens })) =>
                frame matches ClientFrame::Usage {
                correlation: named,
                input_tokens: input_told,
                output_tokens: output_told,
            } && named == correlation && input_told == input_tokens && output_told
                == output_tokens,
            Reading::Ended => frame matches ClientFrame::Done { correlation: named } && named
                == correlation,
            Reading::Refused(error) => frame matches ClientFrame::Failed {
                correlation: named,
                message,
            } && named == correlation && (error matches OllamaError::Transport(text) ==> message@
                == "ollama transport error: "@ + text@) && (
            error matches OllamaError::Provider(text) ==> message@ == "ollama returned an error: "@
                + text@),
            Reading::Item(Err(error)) => frame matches ClientFrame::Failed {
                correlation: named,
                message,
            } && named == correlation && (error matches OllamaError::Transport(text) ==> message@
                == "ollama transport error: "@ + text@) && (
            error matches OllamaError::Provider(text) ==> message@ == "ollama returned an error: "@
                + text@),
        },
{
}

/// An inference goes on after an event, and is over after anything else.
pub proof fn law_only_an_event_goes_on(reading: Reading)
    ensures
        is_last(reading@) <==> !(reading matches Reading::Item(Ok(_))),
{
}

/// An inference relays the next reading unless it is over: as many frames as readings
/// up to the last, each of its own reading.
pub proof fn law_one_more_reading_is_relayed(
    correlation: u128,
    readings: Seq<ReadingView>,
    reading: ReadingView,
)
    ensures
        (forall|i: int|
            0 <= i < readings.len() ==> #[trigger] readings[i] matches ReadingView::Item(Ok(_)))
            ==> frames_after(correlation, readings.push(reading)) == frames_after(
            correlation,
            readings,
        ).push(relayed(correlation, reading)),
        !(forall|i: int|
            0 <= i < readings.len() ==> #[trigger] readings[i] matches ReadingView::Item(Ok(_)))
            ==> frames_after(correlation, readings.push(reading)) == frames_after(
            correlation,
            readings,
        ),
        frames_after(correlation, Seq::empty()) == Seq::<ClientFrameView>::empty(),
{
    assert(readings.push(reading).drop_last() =~= readings);
    if forall|i: int|
        0 <= i < readings.len() ==> #[trigger] readings[i] matches ReadingView::Item(Ok(_)) {
        assert(!over_after(readings)) by {
            if over_after(readings) {
                let i = choose|i: int| 0 <= i < readings.len() && is_last(#[trigger] readings[i]);
                assert(readings[i] matches ReadingView::Item(Ok(_)));
            }
        }
    } else {
        let i = choose|i: int|
            0 <= i < readings.len() && !(#[trigger] readings[i] matches ReadingView::Item(Ok(_)));
        assert(is_last(readings[i]));
    }
}

} // verus!

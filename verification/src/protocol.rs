//! Wire protocol between the local bridge agent and the backend.
//!
//! The agent announces [`PROTOCOL_VERSION`] in its [`ClientFrame::Hello`] and the
//! backend rejects a mismatch. On the wire frames are JSON, tagged by a `type`
//! field; here they are plain data. An identifier (a UUID on the wire) is its
//! 128-bit value. The library carries sampling temperatures without reading them:
//! they have the number type `N` of the program around it.
use vstd::prelude::*;

verus! {

/// The wire protocol version. Bumped on any breaking frame change.
pub const PROTOCOL_VERSION: u16 = 1;

/// One chat message forwarded to the agent.
#[derive(Debug, Clone, PartialEq, Eq)]
pub struct WireMessage {
    /// Author role: `system`, `user`, or `assistant`.
    pub role: String,
    /// Message text.
    pub content: String,
}

impl View for WireMessage {
    type V = (Seq<char>, Seq<char>);

    open spec fn view(&self) -> (Seq<char>, Seq<char>) {
        (self.role@, self.content@)
    }
}

/// Sampling and length parameters for an inference.
#[derive(Debug, Clone, Copy, PartialEq)]
pub struct WireParams<N> {
    /// Sampling temperature, if set.
    pub temperature: Option<N>,
    /// Maximum number of tokens to generate, if set.
    pub max_tokens: Option<u32>,
}

/// A model a connected agent offers.
#[derive(Debug, Clone, PartialEq, Eq)]
pub struct WireModel {
    /// Model identifier as the local runtime reports it (e.g. `llama3.1:8b`).
    pub name: String,
    /// Model family, if known (e.g. `llama`).
    pub family: Option<String>,
    /// Human-readable parameter size, if known (e.g. `8B`).
    pub parameter_size: Option<String>,
}

/// What the description of a model holds.
pub struct ModelView {
    pub name: Seq<char>,
    pub family: Option<Seq<char>>,
    pub parameter_size: Option<Seq<char>>,
}

impl View for WireModel {
    type V = ModelView;

    open spec fn view(&self) -> ModelView {
        ModelView {
            name: self.name@,
            family: crate::text::text_of(self.family),
            parameter_size: crate::text::text_of(self.parameter_size),
        }
    }
}

/// A frame the cloud sends down to the agent.
#[derive(Debug, Clone, PartialEq)]
pub enum ServerFrame<N> {
    /// The handshake was accepted; the session is open.
    Welcome {
        /// The opaque session id (informational; the agent need not act on it).
        session_id: u128,
    },
    /// The handshake was rejected (e.g. protocol mismatch); the socket closes.
    Reject {
        /// Machine-readable reason code.
        code: String,
        /// Human-readable detail.
        message: String,
    },
    /// Run an inference on the local model.
    Infer {
        /// Correlates the agent's reply frames to this request.
        correlation: u128,
        /// The model to run.
        model: String,
        /// Optional system prompt.
        system: Option<String>,
        /// Conversation messages, oldest first.
        messages: Vec<WireMessage>,
        /// Sampling/length parameters.
        params: WireParams<N>,
    },
    /// Stop an in-flight inference.
    Cancel {
        /// The inference to cancel.
        correlation: u128,
    },
    /// Liveness probe; the agent replies with [`ClientFrame::Pong`].
    Ping,
}

/// What a frame from the cloud holds.
pub enum ServerFrameView<N> {
    Welcome { session_id: u128 },
    Reject { code: Seq<char>, message: Seq<char> },
    Infer {
        correlation: u128,
        model: Seq<char>,
        system: Option<Seq<char>>,
        messages: Seq<(Seq<char>, Seq<char>)>,
        params: WireParams<N>,
    },
    Cancel { correlation: u128 },
    Ping,
}

impl<N> View for ServerFrame<N> {
    type V = ServerFrameView<N>;

    open spec fn view(&self) -> ServerFrameView<N> {
        match *self {
            ServerFrame::Welcome { session_id } => ServerFrameView::Welcome { session_id },
            ServerFrame::Reject { code, message } => ServerFrameView::Reject {
                code: code@,
                message: message@,
            },
            ServerFrame::Infer { correlation, model, system, messages, params } =>
                ServerFrameView::Infer {
                correlation,
                model: model@,
                system: crate::text::text_of(system),
                messages: messages@.map_values(|message: WireMessage| message@),
                params,
            },
            ServerFrame::Cancel { correlation } => ServerFrameView::Cancel { correlation },
            ServerFrame::Ping => ServerFrameView::Ping,
        }
    }
}

/// A frame the agent sends up to the cloud.
#[derive(Debug, Clone, PartialEq)]
pub enum ClientFrame {
    /// First frame after connecting: announce protocol and agent version.
    Hello {
        /// The protocol version the agent speaks.
        protocol_version: u16,
        /// The agent's own version string (informational).
        agent_version: String,
    },
    /// Report (or update) the models the agent currently offers.
    Models {
        /// The offered models.
        models: Vec<WireModel>,
    },
    /// A text fragment of a completion.
    Token {
        /// The inference this fragment belongs to.
        correlation: u128,
        /// The text fragment.
        text: String,
    },
    /// The final token usage for a completion.
    Usage {
        /// The inference this usage belongs to.
        correlation: u128,
        /// Prompt (input) token count.
        input_tokens: u32,
        /// Completion (output) token count.
        output_tokens: u32,
    },
    /// A completion finished successfully.
    Done {
        /// The inference that finished.
        correlation: u128,
    },
    /// A completion failed on the agent's side.
    Failed {
        /// The inference that failed.
        correlation: u128,
        /// A human-readable reason.
        message: String,
    },
    /// Reply to a [`ServerFrame::Ping`].
    Pong,
}

/// What a frame to the cloud holds.
pub enum ClientFrameView {
    Hello { protocol_version: u16, agent_version: Seq<char> },
    Models { models: Seq<ModelView> },
    Token { correlation: u128, text: Seq<char> },
    Usage { correlation: u128, input_tokens: u32, output_tokens: u32 },
    Done { correlation: u128 },
    Failed { correlation: u128, message: Seq<char> },
    Pong,
}

impl View for ClientFrame {
    type V = ClientFrameView;

    open spec fn view(&self) -> ClientFrameView {
        match *self {
            ClientFrame::Hello { protocol_version, agent_version } => ClientFrameView::Hello {
                protocol_version,
                agent_version: agent_version@,
            },
            ClientFrame::Models { models } => ClientFrameView::Models {
                models: models@.map_values(|model: WireModel| model@),
            },
            ClientFrame::Token { correlation, text } => ClientFrameView::Token {
                correlation,
                text: text@,
            },
            ClientFrame::Usage { correlation, input_tokens, output_tokens } =>
                ClientFrameView::Usage { correlation, input_tokens, output_tokens },
            ClientFrame::Done { correlation } => ClientFrameView::Done { correlation },
            ClientFrame::Failed { correlation, message } => ClientFrameView::Failed {
                correlation,
                message: message@,
            },
            ClientFrame::Pong => ClientFrameView::Pong,
        }
    }
}

/// The inference that a frame to the cloud belongs to, if it belongs to one.
pub open spec fn correlation_of(frame: ClientFrameView) -> Option<u128> {
    match frame {
        ClientFrameView::Token { correlation, .. } => Some(correlation),
        ClientFrameView::Usage { correlation, .. } => Some(correlation),
        ClientFrameView::Done { correlation } => Some(correlation),
        ClientFrameView::Failed { correlation, .. } => Some(correlation),
        _ => None,
    }
}

/// A frame that ends an inference.
pub open spec fn is_final(frame: ClientFrameView) -> bool {
    frame is Done || frame is Failed
}

} // verus!

# penfreely-bridge

An agent that runs language models on your own machine, through
[Ollama](https://ollama.com), for a hosted writing service. It opens one outbound
websocket, announces the local models, streams the answers of inferences back, and
reconnects with backoff when the link drops.

What the agent decides is a library verified with
[Verus](https://github.com/verus-lang/verus); sockets, HTTP and tasks are ordinary
Rust around it.

| Path | What it holds |
|------|---------------|
| `src/config.rs` | the configuration, from environment variables |
| `src/backoff.rs`, `src/duration.rs` | the delays between connection attempts |
| `src/protocol.rs` | the frames of the wire protocol |
| `src/link.rs` | the request that opens the link, and what to do with each socket message |
| `src/session.rs` | a session: frames, running inferences, and their relay |
| `src/ollama.rs`, `src/reply.rs`, `src/stream.rs` | requests to and replies from Ollama |
| `src/text.rs`, `src/json.rs` | text, and JSON values of `serde_json` |
| `tests/` | tests of the library |
| `app/` | the program: environment, HTTP, websocket, tasks, JSON decoding |

The contracts say what each function returns or changes; the proof functions named
`law_..` state what holds across functions. What is taken on trust from other
crates and from the standard library stands in `text.rs`, `json.rs`, `reply.rs` and
`link.rs`, on functions marked `external_body`, types marked
`external_type_specification` and one `assume_specification`, each with a comment
that says what is claimed.

## Configuration

| Variable | Required | Default | Purpose |
|----------|:--------:|---------|---------|
| `PENFREELY_BRIDGE_TOKEN` | yes | | Bridge token from the service |
| `PENFREELY_BACKEND_WS_URL` | no | `ws://localhost:8080/bridge/connect` | Backend websocket |
| `PENFREELY_OLLAMA_URL` | no | `http://localhost:11434` | Local Ollama address |
| `PENFREELY_RECONNECT_INITIAL_MS` | no | `1000` | Initial reconnect backoff |
| `PENFREELY_RECONNECT_MAX_MS` | no | `30000` | Maximum reconnect backoff |
| `RUST_LOG` | no | `info` | Log level |

use penfreely_bridge::link::{
    authorization, client_request, react, react_to_frame, LinkError, Reaction, SocketMessage,
};
use penfreely_bridge::ollama::{OllamaError, OllamaEvent, OllamaModel};
use penfreely_bridge::protocol::{
    ClientFrame, ServerFrame, WireMessage, WireParams, PROTOCOL_VERSION,
};
use penfreely_bridge::session::{
    announce, hello, Action, Event, Inference, Reading, Session, SessionError,
};

type Frame = ServerFrame<f32>;

fn infer(correlation: u128) -> Frame {
    ServerFrame::Infer {
        correlation,
        model: "m".to_owned(),
        system: None,
        messages: vec![WireMessage {
            role: "user".to_owned(),
            content: "hi".to_owned(),
        }],
        params: WireParams {
            temperature: None,
            max_tokens: None,
        },
    }
}

fn frame(session: &mut Session<u8>, frame: Frame) -> Result<Action<f32, u8>, SessionError> {
    session.step(Event::Frame(frame))
}

/// The frames that an inference relays of these readings.
fn relay(correlation: u128, readings: Vec<Reading>) -> Vec<ClientFrame> {
    let mut inference = Inference::new(correlation);
    readings
        .into_iter()
        .filter_map(|reading| inference.step(reading))
        .collect()
}

#[test]
fn announces_hello_and_models_on_start() {
    let mut session = Session::<u8>::new();
    assert!(matches!(
        session.step::<f32>(Event::Opened { agent_version: "0.1.0".to_owned() }),
        Ok(Action::Greet(ClientFrame::Hello { protocol_version, .. }))
            if protocol_version == PROTOCOL_VERSION
    ));
    match session.step::<f32>(Event::Listed(Ok(vec![OllamaModel {
        name: "llama3.1:8b".to_owned(),
        family: None,
        parameter_size: None,
    }]))) {
        Ok(Action::Send(ClientFrame::Models { models })) => {
            assert_eq!(models[0].name, "llama3.1:8b");
        }
        other => panic!("expected models, got {other:?}"),
    }
}

#[test]
fn a_session_sends_its_handshake_then_pongs() {
    let mut session = Session::<u8>::new();
    let happenings: Vec<Event<f32>> = vec![
        Event::Opened {
            agent_version: "1.2.3".to_owned(),
        },
        Event::Listed(Err(OllamaError::Transport("down".to_owned()))),
        Event::Frame(ServerFrame::Welcome { session_id: 1 }),
        Event::Frame(ServerFrame::Ping),
        Event::Frame(ServerFrame::Cancel { correlation: 9 }),
        Event::Frame(ServerFrame::Ping),
        Event::Finished { correlation: 9 },
        Event::Closed,
    ];
    let mut sent = Vec::new();
    for event in happenings {
        match session.step(event) {
            Ok(Action::Send(frame)) | Ok(Action::Greet(frame)) => sent.push(frame),
            _ => {}
        }
    }
    assert_eq!(
        sent,
        vec![
            ClientFrame::Hello {
                protocol_version: 1,
                agent_version: "1.2.3".to_owned()
            },
            ClientFrame::Models { models: vec![] },
            ClientFrame::Pong,
            ClientFrame::Pong,
        ]
    );
}

#[test]
fn an_infer_streams_token_usage_then_done() {
    let mut session = Session::new();
    let correlation = 7;
    match frame(&mut session, infer(correlation)) {
        Ok(Action::Start {
            correlation: started,
            spec,
        }) => {
            assert_eq!(started, correlation);
            assert_eq!(spec.model, "m");
            assert_eq!(spec.messages, vec![("user".to_owned(), "hi".to_owned())]);
        }
        other => panic!("expected a start, got {other:?}"),
    }
    session.started(correlation, 1);

    let frames = relay(
        correlation,
        vec![
            Reading::Item(Ok(OllamaEvent::Token("Hi".to_owned()))),
            Reading::Item(Ok(OllamaEvent::Usage {
                input_tokens: 3,
                output_tokens: 1,
            })),
            Reading::Ended,
        ],
    );
    assert_eq!(frames.len(), 3);
    assert!(matches!(
        &frames[0],
        ClientFrame::Token { text, .. } if text == "Hi"
    ));
    assert!(matches!(
        frames[1],
        ClientFrame::Usage {
            input_tokens: 3,
            ..
        }
    ));
    assert!(matches!(frames[2], ClientFrame::Done { .. }));

    assert!(matches!(
        session.step::<f32>(Event::Finished { correlation }),
        Ok(Action::Wait)
    ));
    assert!(session.close().is_empty());
}

#[test]
fn a_chat_error_surfaces_as_failed() {
    let frames = relay(
        1,
        vec![Reading::Item(Err(OllamaError::Provider("boom".to_owned())))],
    );
    assert_eq!(frames.len(), 1);
    assert!(matches!(frames[0], ClientFrame::Failed { .. }));
}

#[test]
fn ping_is_answered_with_pong() {
    let mut session = Session::new();
    assert!(matches!(
        frame(&mut session, ServerFrame::Ping),
        Ok(Action::Send(ClientFrame::Pong))
    ));
}

#[test]
fn a_reject_frame_ends_the_session_with_an_error() {
    let mut session = Session::new();
    let result = frame(
        &mut session,
        ServerFrame::Reject {
            code: "protocol_version_mismatch".to_owned(),
            message: "old".to_owned(),
        },
    );
    assert!(result.is_err());
    assert_eq!(
        result.unwrap_err().message(),
        "server rejected the connection (protocol_version_mismatch): old"
    );
}

#[test]
fn nothing_follows_the_end_of_a_session() {
    let ends: Vec<fn() -> Event<f32>> = vec![
        || {
            Event::Frame(ServerFrame::Reject {
                code: "c".to_owned(),
                message: "m".to_owned(),
            })
        },
        || Event::Closed,
    ];
    for end in ends {
        let mut session = Session::<u8>::new();
        assert!(matches!(
            frame(&mut session, ServerFrame::Ping),
            Ok(Action::Send(ClientFrame::Pong))
        ));
        assert!(!session.is_over());
        let answer = session.step(end());
        assert!(answer.is_err() || matches!(answer, Ok(Action::Stop(_))));
        assert!(session.is_over());
        for event in [
            Event::Frame(ServerFrame::Ping),
            Event::Frame(infer(1)),
            end(),
            Event::Finished { correlation: 1 },
        ] {
            assert!(matches!(session.step(event), Ok(Action::Wait)));
        }
        assert!(session.is_over());
    }
}

#[test]
fn a_rejected_session_leaves_its_inferences_alone() {
    let mut session = Session::new();
    session.started(1, 10);
    assert!(frame(
        &mut session,
        ServerFrame::Reject {
            code: "c".to_owned(),
            message: "m".to_owned(),
        },
    )
    .is_err());
    assert_eq!(session.close(), vec![10]);
}

#[test]
fn a_welcome_is_awaited_no_further() {
    let mut session = Session::new();
    assert!(matches!(
        frame(&mut session, ServerFrame::Welcome { session_id: 5 }),
        Ok(Action::Wait)
    ));
}

#[test]
fn an_infer_hands_on_what_it_asks() {
    let mut session = Session::<u8>::new();
    let asked = ServerFrame::Infer {
        correlation: u128::MAX,
        model: "llama3.1:8b".to_owned(),
        system: Some("be terse".to_owned()),
        messages: vec![
            WireMessage {
                role: "user".to_owned(),
                content: "a".to_owned(),
            },
            WireMessage {
                role: "assistant".to_owned(),
                content: "b".to_owned(),
            },
        ],
        params: WireParams {
            temperature: Some(0.7f32),
            max_tokens: Some(256),
        },
    };
    match session.step(Event::Frame(asked)) {
        Ok(Action::Start { correlation, spec }) => {
            assert_eq!(correlation, u128::MAX);
            assert_eq!(spec.model, "llama3.1:8b");
            assert_eq!(spec.system.as_deref(), Some("be terse"));
            assert_eq!(
                spec.messages,
                vec![
                    ("user".to_owned(), "a".to_owned()),
                    ("assistant".to_owned(), "b".to_owned())
                ]
            );
            assert_eq!(spec.temperature, Some(0.7));
            assert_eq!(spec.max_tokens, Some(256));
        }
        other => panic!("expected a start, got {other:?}"),
    }
}

#[test]
fn a_cancel_aborts_its_own_inference_once() {
    let mut session = Session::new();
    session.started(1, 10);
    session.started(2, 20);
    assert!(matches!(
        frame(&mut session, ServerFrame::Cancel { correlation: 1 }),
        Ok(Action::Abort(10))
    ));
    assert!(matches!(
        frame(&mut session, ServerFrame::Cancel { correlation: 1 }),
        Ok(Action::Wait)
    ));
    assert!(matches!(
        frame(&mut session, ServerFrame::Cancel { correlation: 3 }),
        Ok(Action::Wait)
    ));
    assert_eq!(session.close(), vec![20]);
}

#[test]
fn a_second_inference_of_a_correlation_takes_the_place_of_the_first() {
    let mut session = Session::new();
    session.started(1, 10);
    session.started(1, 11);
    assert!(matches!(
        frame(&mut session, ServerFrame::Cancel { correlation: 1 }),
        Ok(Action::Abort(11))
    ));
    assert!(session.close().is_empty());
}

#[test]
fn finishing_undoes_starting() {
    let mut session = Session::new();
    session.started(1, 10);
    session.started(2, 20);
    session.finished(2);
    session.finished(9);
    assert_eq!(session.close(), vec![10]);
}

#[test]
fn closing_aborts_what_is_running() {
    let mut session = Session::new();
    for correlation in 0..50u8 {
        session.started(u128::from(correlation), correlation);
    }
    match session.step::<f32>(Event::Closed) {
        Ok(Action::Stop(mut handles)) => {
            handles.sort();
            assert_eq!(handles, (0..50u8).collect::<Vec<_>>());
        }
        other => panic!("expected a stop, got {other:?}"),
    }
    assert!(session.close().is_empty());
}

#[test]
fn a_refused_chat_fails_with_the_words_of_the_error() {
    assert_eq!(
        relay(
            4,
            vec![
                Reading::Refused(OllamaError::Transport("down".to_owned())),
                Reading::Ended,
            ],
        ),
        vec![ClientFrame::Failed {
            correlation: 4,
            message: "ollama transport error: down".to_owned()
        }]
    );
}

#[test]
fn one_final_frame_ends_an_inference() {
    assert_eq!(
        relay(
            4,
            vec![
                Reading::Item(Ok(OllamaEvent::Token("a".to_owned()))),
                Reading::Item(Err(OllamaError::Provider("boom".to_owned()))),
                Reading::Item(Ok(OllamaEvent::Token("b".to_owned()))),
                Reading::Ended,
            ],
        ),
        vec![
            ClientFrame::Token {
                correlation: 4,
                text: "a".to_owned()
            },
            ClientFrame::Failed {
                correlation: 4,
                message: "ollama returned an error: boom".to_owned()
            },
        ]
    );
    let mut inference = Inference::new(1);
    assert!(!inference.is_over());
    inference.step(Reading::Item(Ok(OllamaEvent::Token(String::new()))));
    assert!(!inference.is_over());
    assert_eq!(
        inference.step(Reading::Ended),
        Some(ClientFrame::Done { correlation: 1 })
    );
    assert!(inference.is_over());
    assert_eq!(inference.step(Reading::Ended), None);
}

#[test]
fn models_that_cannot_be_listed_are_announced_as_none() {
    assert_eq!(
        announce(Err(OllamaError::Transport("down".to_owned()))),
        ClientFrame::Models { models: vec![] }
    );
    match announce(Ok(vec![
        OllamaModel {
            name: "a".to_owned(),
            family: Some("f".to_owned()),
            parameter_size: Some("8B".to_owned()),
        },
        OllamaModel {
            name: "b".to_owned(),
            family: None,
            parameter_size: None,
        },
    ])) {
        ClientFrame::Models { models } => {
            assert_eq!(models.len(), 2);
            assert_eq!(models[0].family.as_deref(), Some("f"));
            assert_eq!(models[0].parameter_size.as_deref(), Some("8B"));
            assert_eq!(models[1].name, "b");
        }
        other => panic!("expected models, got {other:?}"),
    }
    assert_eq!(
        hello("1.2.3".to_owned()),
        ClientFrame::Hello {
            protocol_version: 1,
            agent_version: "1.2.3".to_owned()
        }
    );
}

#[test]
fn a_token_is_presented_as_a_bearer() {
    assert_eq!(authorization("id.secret").unwrap(), "Bearer id.secret");
    assert_eq!(authorization("").unwrap(), "Bearer ");
    assert_eq!(authorization("a\tb").unwrap(), "Bearer a\tb");
    assert_eq!(
        authorization("caf\u{e9}").unwrap().as_bytes(),
        "Bearer caf\u{e9}".as_bytes()
    );
    for token in ["a\nb", "a\r", "\u{0}", "\u{7f}", "\u{1f}"] {
        let error = authorization(token).unwrap_err();
        assert!(matches!(error, LinkError::InvalidToken(_)));
        assert_eq!(error.message(), "failed to parse header value");
    }
}

#[test]
fn a_request_goes_to_the_url_and_presents_the_token_once() {
    let request = client_request("ws://localhost:8080/bridge/connect", "id.secret").unwrap();
    assert_eq!(
        request.uri().to_string(),
        "ws://localhost:8080/bridge/connect"
    );
    assert_eq!(request.method().as_str(), "GET");
    let credentials: Vec<&[u8]> = request
        .headers()
        .get_all("Authorization")
        .iter()
        .map(|value| value.as_bytes())
        .collect();
    assert_eq!(credentials, vec![b"Bearer id.secret" as &[u8]]);
    assert_eq!(request.headers()["connection"], "Upgrade");
    assert_eq!(request.headers()["upgrade"], "websocket");
    assert_eq!(request.headers()["sec-websocket-version"], "13");
    assert_eq!(request.headers()["host"], "localhost:8080");
    assert_eq!(request.headers().len(), 6);

    let request = client_request("wss://app.example.com", "t").unwrap();
    assert_eq!(request.uri().to_string(), "wss://app.example.com/");
}

#[test]
fn a_request_needs_a_url_and_then_a_token() {
    for (url, text) in [
        ("", "empty string"),
        ("/bridge/connect", "URL error: No host name in the URL"),
        ("ws://user@/x", "invalid"),
        ("ws://a b/", "invalid uri character"),
    ] {
        for token in ["t", "a\nb"] {
            match client_request(url, token) {
                Err(LinkError::InvalidUrl(words)) => {
                    assert!(words.contains(text), "{words}");
                    assert_eq!(LinkError::InvalidUrl(words.clone()).message(), words);
                }
                other => panic!("expected an invalid URL, got {other:?}"),
            }
        }
    }
    assert_eq!(
        client_request("ws://localhost/", "a\nb").unwrap_err(),
        LinkError::InvalidToken("failed to parse header value".to_owned())
    );
}

#[test]
fn the_session_gets_the_frames_before_the_end() {
    let decode = |text: &str| -> Option<Frame> {
        text.parse::<u128>()
            .ok()
            .map(|correlation| ServerFrame::Cancel { correlation })
    };
    let read = |end: SocketMessage| -> Vec<Frame> {
        let messages = vec![
            SocketMessage::Text("1".to_owned()),
            SocketMessage::Other,
            SocketMessage::Text("noise".to_owned()),
            SocketMessage::Text("2".to_owned()),
            end,
            SocketMessage::Text("3".to_owned()),
        ];
        let mut frames = Vec::new();
        for message in messages {
            match react(message, &decode) {
                Reaction::Deliver(frame) => frames.push(frame),
                Reaction::Skip => {}
                Reaction::Stop => break,
            }
        }
        frames
    };
    let cancel = |correlation: u128| -> Frame { ServerFrame::Cancel { correlation } };
    assert_eq!(read(SocketMessage::Closed), vec![cancel(1), cancel(2)]);
    assert_eq!(read(SocketMessage::Failed), vec![cancel(1), cancel(2)]);
    assert_eq!(
        read(SocketMessage::Other),
        vec![cancel(1), cancel(2), cancel(3)]
    );
}

#[test]
fn the_reader_delivers_frames_and_stops_at_the_end() {
    let decode = |text: &str| -> Option<Frame> {
        if text == "ping" {
            Some(ServerFrame::Ping)
        } else {
            None
        }
    };
    assert!(matches!(
        react(SocketMessage::Text("ping".to_owned()), &decode),
        Reaction::Deliver(ServerFrame::Ping)
    ));
    assert!(matches!(
        react(SocketMessage::Text("?".to_owned()), &decode),
        Reaction::Skip
    ));
    assert!(matches!(react(SocketMessage::Other, &decode), Reaction::Skip));
    assert!(matches!(react(SocketMessage::Closed, &decode), Reaction::Stop));
    assert!(matches!(react(SocketMessage::Failed, &decode), Reaction::Stop));
    assert!(matches!(react_to_frame::<f32>(None), Reaction::Skip));
}

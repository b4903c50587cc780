use penfreely_bridge::config::{
    present, AgentConfig, ConfigError, EnvSource, Settings, DEFAULT_BACKEND_WS_URL,
    DEFAULT_BACKOFF_INITIAL_SECS, DEFAULT_BACKOFF_MAX_SECS, DEFAULT_OLLAMA_URL, ENV_BACKEND_WS_URL,
    ENV_BACKOFF_INITIAL_MS, ENV_BACKOFF_MAX_MS, ENV_OLLAMA_URL, ENV_TOKEN,
};
use penfreely_bridge::duration::Duration;
use std::cell::RefCell;
use std::collections::HashMap;

struct MapEnv(HashMap<&'static str, &'static str>);

impl EnvSource for MapEnv {
    fn get(&self, key: &str) -> Option<String> {
        self.0.get(key).map(|value| (*value).to_owned())
    }
}

fn env(pairs: &[(&'static str, &'static str)]) -> MapEnv {
    MapEnv(pairs.iter().copied().collect())
}

#[test]
fn requires_a_token() {
    let result = AgentConfig::from_env(&env(&[]));
    assert_eq!(result.unwrap_err(), ConfigError::MissingToken(ENV_TOKEN));
}

#[test]
fn applies_defaults_with_only_a_token() {
    let config = AgentConfig::from_env(&env(&[(ENV_TOKEN, "id.secret")])).unwrap();

    assert_eq!(config.token, "id.secret");
    assert_eq!(config.backend_ws_url, DEFAULT_BACKEND_WS_URL);
    assert_eq!(config.ollama_url, DEFAULT_OLLAMA_URL);
    assert_eq!(
        config.backoff_initial,
        Duration::from_secs(DEFAULT_BACKOFF_INITIAL_SECS)
    );
    assert_eq!(config.backoff_max, Duration::from_secs(DEFAULT_BACKOFF_MAX_SECS));
}

#[test]
fn overrides_values_and_trims_the_ollama_url() {
    let config = AgentConfig::from_env(&env(&[
        (ENV_TOKEN, "t"),
        (ENV_BACKEND_WS_URL, "wss://app.example.com/bridge/connect"),
        (ENV_OLLAMA_URL, "http://127.0.0.1:11434/"),
        (ENV_BACKOFF_INITIAL_MS, "500"),
        (ENV_BACKOFF_MAX_MS, "60000"),
    ]))
    .unwrap();

    assert_eq!(
        config.backend_ws_url,
        "wss://app.example.com/bridge/connect"
    );
    assert_eq!(config.ollama_url, "http://127.0.0.1:11434");
    assert_eq!(config.backoff_initial, Duration::from_millis(500));
    assert_eq!(config.backoff_max, Duration::from_secs(60));
}

#[test]
fn rejects_a_non_numeric_backoff() {
    let result = AgentConfig::from_env(&env(&[(ENV_TOKEN, "t"), (ENV_BACKOFF_MAX_MS, "soon")]));
    assert_eq!(
        result.unwrap_err(),
        ConfigError::InvalidDuration {
            key: ENV_BACKOFF_MAX_MS
        }
    );
}

#[test]
fn the_documented_defaults_and_names_hold() {
    let config = AgentConfig::from_env(&env(&[("PENFREELY_BRIDGE_TOKEN", "t")])).unwrap();
    assert_eq!(config.backend_ws_url, "ws://localhost:8080/bridge/connect");
    assert_eq!(config.ollama_url, "http://localhost:11434");
    assert_eq!(config.backoff_initial, Duration::from_millis(1000));
    assert_eq!(config.backoff_max, Duration::from_millis(30000));
    let config = AgentConfig::from_env(&env(&[
        ("PENFREELY_BRIDGE_TOKEN", "t"),
        ("PENFREELY_BACKEND_WS_URL", "a"),
        ("PENFREELY_OLLAMA_URL", "b"),
        ("PENFREELY_RECONNECT_INITIAL_MS", "1"),
        ("PENFREELY_RECONNECT_MAX_MS", "2"),
    ]))
    .unwrap();
    assert_eq!(config.backend_ws_url, "a");
    assert_eq!(config.ollama_url, "b");
    assert_eq!(config.backoff_initial, Duration::from_millis(1));
    assert_eq!(config.backoff_max, Duration::from_millis(2));
}

/// The delay that a text stands for, read from the given value.
fn initial(value: &'static str) -> Result<Duration, ConfigError> {
    AgentConfig::from_env(&env(&[(ENV_TOKEN, "t"), (ENV_BACKOFF_INITIAL_MS, value)]))
        .map(|config| config.backoff_initial)
}

#[test]
fn whole_numbers_are_read_as_std_reads_them() {
    for value in [
        "0", "7", "+7", "007", "18446744073709551615", "18446744073709551616",
        "000000000000000000000000000000001", "", "+", "++1", "-0", "-1", " 1", "1 ", "1_000", "1.0",
        "1e3", "99999999999999999999x", "\u{0661}", "+18446744073709551615",
    ] {
        match value.parse::<u64>() {
            Ok(millis) => assert_eq!(initial(value), Ok(Duration::from_millis(millis))),
            Err(_) => assert_eq!(
                initial(value),
                Err(ConfigError::InvalidDuration {
                    key: ENV_BACKOFF_INITIAL_MS
                })
            ),
        }
    }
}

#[test]
fn every_trailing_slash_of_the_ollama_url_is_trimmed() {
    for url in ["http://h//", "http://h/a/", "/", "///", "", "h\u{e9}/", "a/b"] {
        let config =
            AgentConfig::from_env(&env(&[(ENV_TOKEN, "t"), (ENV_OLLAMA_URL, url)])).unwrap();
        assert_eq!(config.ollama_url, url.trim_end_matches('/'));
    }
}

#[test]
fn the_first_error_is_reported() {
    let result = AgentConfig::from_env(&env(&[
        (ENV_TOKEN, "t"),
        (ENV_BACKOFF_INITIAL_MS, "x"),
        (ENV_BACKOFF_MAX_MS, "y"),
    ]));
    assert_eq!(
        result.unwrap_err(),
        ConfigError::InvalidDuration {
            key: ENV_BACKOFF_INITIAL_MS
        }
    );
    let result = AgentConfig::from_env(&env(&[(ENV_BACKOFF_INITIAL_MS, "x")]));
    assert_eq!(result.unwrap_err(), ConfigError::MissingToken(ENV_TOKEN));
}

struct Recorder {
    token: Option<&'static str>,
    initial: &'static str,
    keys: RefCell<Vec<String>>,
}

impl EnvSource for Recorder {
    fn get(&self, key: &str) -> Option<String> {
        self.keys.borrow_mut().push(key.to_owned());
        if key == ENV_TOKEN {
            self.token.map(str::to_owned)
        } else if key == ENV_BACKOFF_INITIAL_MS {
            Some(self.initial.to_owned())
        } else {
            None
        }
    }
}

#[test]
fn reading_stops_at_the_first_error() {
    let recorder = |token, initial| {
        let recorder = Recorder {
            token,
            initial,
            keys: RefCell::new(Vec::new()),
        };
        let _ = AgentConfig::from_env(&recorder);
        recorder.keys.into_inner()
    };
    assert_eq!(recorder(None, "1"), vec![ENV_TOKEN]);
    assert_eq!(
        recorder(Some("t"), "x"),
        vec![
            ENV_TOKEN,
            ENV_BACKEND_WS_URL,
            ENV_OLLAMA_URL,
            ENV_BACKOFF_INITIAL_MS
        ]
    );
    assert_eq!(recorder(Some("t"), "1").len(), 5);
}

#[test]
fn settings_make_up_a_configuration() {
    let config = AgentConfig::from_settings(Settings {
        token: present(Some("t".to_owned())),
        backend_ws_url: present(Some(String::new())),
        ollama_url: None,
        backoff_initial: Some("2".to_owned()),
        backoff_max: None,
    })
    .unwrap();
    assert_eq!(config.token, "t");
    assert_eq!(config.backend_ws_url, DEFAULT_BACKEND_WS_URL);
    assert_eq!(config.backoff_initial, Duration::from_millis(2));
    let error = AgentConfig::from_settings(Settings {
        token: present(Some(String::new())),
        backend_ws_url: None,
        ollama_url: None,
        backoff_initial: None,
        backoff_max: None,
    })
    .unwrap_err();
    assert_eq!(error, ConfigError::MissingToken(ENV_TOKEN));
    assert_eq!(present(None), None);
}

#[test]
fn configuration_errors_name_the_variable() {
    assert_eq!(
        ConfigError::MissingToken(ENV_TOKEN).message(),
        "PENFREELY_BRIDGE_TOKEN is required (the bridge token from the service)"
    );
    assert_eq!(
        ConfigError::InvalidDuration {
            key: ENV_BACKOFF_MAX_MS
        }
        .message(),
        "PENFREELY_RECONNECT_MAX_MS must be a whole number of milliseconds"
    );
}

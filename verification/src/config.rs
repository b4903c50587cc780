//! Agent configuration, read from the environment.
//!
//! Every value is configurable; only the bridge token is required. Defaults
//! target the common case: a local Ollama on the same machine.
use crate::duration::{Duration, MAX_NANOS, NANOS_PER_MILLI, NANOS_PER_SEC};
use crate::text::{parse_whole_number, trim_trailing_slashes};
use vstd::prelude::*;
use vstd::string::*;

verus! {

/// Environment variable holding the bridge access token (required).
pub const ENV_TOKEN: &'static str = "PENFREELY_BRIDGE_TOKEN";

/// Environment variable for the backend websocket URL.
pub const ENV_BACKEND_WS_URL: &'static str = "PENFREELY_BACKEND_WS_URL";

/// Environment variable for the local Ollama base URL.
pub const ENV_OLLAMA_URL: &'static str = "PENFREELY_OLLAMA_URL";

/// Environment variable for the initial reconnect backoff in milliseconds.
pub const ENV_BACKOFF_INITIAL_MS: &'static str = "PENFREELY_RECONNECT_INITIAL_MS";

/// Environment variable for the maximum reconnect backoff in milliseconds.
pub const ENV_BACKOFF_MAX_MS: &'static str = "PENFREELY_RECONNECT_MAX_MS";

/// Default backend websocket URL (local development backend).
pub const DEFAULT_BACKEND_WS_URL: &'static str = "ws://localhost:8080/bridge/connect";

/// Default Ollama URL: the local runtime on the same machine.
pub const DEFAULT_OLLAMA_URL: &'static str = "http://localhost:11434";

/// Default initial reconnect backoff, in seconds.
pub const DEFAULT_BACKOFF_INITIAL_SECS: u64 = 1;

/// Default maximum reconnect backoff, in seconds.
pub const DEFAULT_BACKOFF_MAX_SECS: u64 = 30;

/// Validated agent configuration.
#[derive(Debug, Clone)]
pub struct AgentConfig {
    /// Bridge access token presented as a bearer credential.
    pub token: String,
    /// Backend websocket URL to connect to.
    pub backend_ws_url: String,
    /// Local Ollama base URL (no trailing slash).
    pub ollama_url: String,
    /// Initial delay before the first reconnect attempt.
    pub backoff_initial: Duration,
    /// Upper bound on the reconnect delay.
    pub backoff_max: Duration,
}

/// What a configuration holds: texts, and durations in nanoseconds.
pub struct ConfigView {
    pub token: Seq<char>,
    pub backend_ws_url: Seq<char>,
    pub ollama_url: Seq<char>,
    pub backoff_initial: nat,
    pub backoff_max: nat,
}

impl View for AgentConfig {
    type V = ConfigView;

    open spec fn view(&self) -> ConfigView {
        ConfigView {
            token: self.token@,
            backend_ws_url: self.backend_ws_url@,
            ollama_url: self.ollama_url@,
            backoff_initial: self.backoff_initial@,
            backoff_max: self.backoff_max@,
        }
    }
}

/// A reader of environment variables. Abstracted so the parser is testable
/// without touching the process environment.
pub trait EnvSource {
    /// Read a variable, returning `None` if unset or empty.
    fn get(&self, key: &str) -> Option<String>;
}

/// Why configuration could not be assembled.
#[derive(Debug, PartialEq, Eq)]
pub enum ConfigError {
    /// The required bridge token was not set.
    MissingToken(&'static str),
    /// A duration variable was not a valid non-negative integer.
    InvalidDuration {
        /// The offending variable name.
        key: &'static str,
    },
}

/// What a configuration error holds: the name of the variable.
pub enum ConfigErrorView {
    MissingToken(Seq<char>),
    InvalidDuration(Seq<char>),
}

impl View for ConfigError {
    type V = ConfigErrorView;

    open spec fn view(&self) -> ConfigErrorView {
        match self {
            ConfigError::MissingToken(key) => ConfigErrorView::MissingToken(key@),
            ConfigError::InvalidDuration { key } => ConfigErrorView::InvalidDuration(key@),
        }
    }
}

/// The text of a configuration error.
pub open spec fn config_error_message(error: ConfigErrorView) -> Seq<char> {
    match error {
        ConfigErrorView::MissingToken(key) => key
            + " is required (the bridge token from the service)"@,
        ConfigErrorView::InvalidDuration(key) => key
            + " must be a whole number of milliseconds"@,
    }
}

impl ConfigError {
    /// The error in words.
    pub fn message(&self) -> (text: String)
        ensures
            text@ == config_error_message(self@),
    {
        match self {
            ConfigError::MissingToken(key) => (*key).to_owned().concat(
                " is required (the bridge token from the service)",
            ),
            ConfigError::InvalidDuration { key } => (*key).to_owned().concat(
                " must be a whole number of milliseconds",
            ),
        }
    }
}

/// The values that were read, one for each variable.
pub struct Settings {
    pub token: Option<String>,
    pub backend_ws_url: Option<String>,
    pub ollama_url: Option<String>,
    pub backoff_initial: Option<String>,
    pub backoff_max: Option<String>,
}

/// The duration, in nanoseconds, that a variable of milliseconds stands for, or
/// `default` where it is absent. `None` where it is not a whole number.
pub open spec fn millis_or(value: Option<Seq<char>>, default: nat) -> Option<nat> {
    match value {
        None => Some(default),
        Some(text) => match crate::text::whole_number(text) {
            Some(millis) => Some((millis * NANOS_PER_MILLI) as nat),
            None => None,
        },
    }
}

/// The default of the initial delay, in nanoseconds.
pub open spec fn default_backoff_initial() -> nat {
    (DEFAULT_BACKOFF_INITIAL_SECS * NANOS_PER_SEC) as nat
}

/// The default of the maximum delay, in nanoseconds.
pub open spec fn default_backoff_max() -> nat {
    (DEFAULT_BACKOFF_MAX_SECS * NANOS_PER_SEC) as nat
}

/// The text, or `default` where it is absent.
pub open spec fn text_or(value: Option<Seq<char>>, default: Seq<char>) -> Seq<char> {
    match value {
        Some(text) => text,
        None => default,
    }
}

/// The configuration that settings make up, or the first error in them: the token,
/// the initial delay, the maximum delay.
pub open spec fn config_of(settings: Settings) -> Result<ConfigView, ConfigErrorView> {
    match (
        crate::text::text_of(settings.token),
        millis_or(crate::text::text_of(settings.backoff_initial), default_backoff_initial()),
        millis_or(crate::text::text_of(settings.backoff_max), default_backoff_max()),
    ) {
        (None, _, _) => Err(ConfigErrorView::MissingToken(ENV_TOKEN@)),
        (_, None, _) => Err(ConfigErrorView::InvalidDuration(ENV_BACKOFF_INITIAL_MS@)),
        (_, _, None) => Err(ConfigErrorView::InvalidDuration(ENV_BACKOFF_MAX_MS@)),
        (Some(token), Some(backoff_initial), Some(backoff_max)) => Ok(
            ConfigView {
                token,
                backend_ws_url: text_or(
                    crate::text::text_of(settings.backend_ws_url),
                    DEFAULT_BACKEND_WS_URL@,
                ),
                ollama_url: crate::text::without_trailing_slashes(
                    text_or(crate::text::text_of(settings.ollama_url), DEFAULT_OLLAMA_URL@),
                ),
                backoff_initial,
                backoff_max,
            },
        ),
    }
}

/// What a result of reading the configuration holds.
pub open spec fn outcome_of(result: Result<AgentConfig, ConfigError>) -> Result<
    ConfigView,
    ConfigErrorView,
> {
    match result {
        Ok(config) => Ok(config@),
        Err(error) => Err(error@),
    }
}

/// `value` is what the environment gave when it was asked for `key`.
pub open spec fn was_read<E: EnvSource>(env: &E, key: &'static str, value: Option<String>) -> bool {
    call_ensures(E::get, (env, key), value)
}

/// The settings hold what the environment gave for each variable, as far as the
/// variables were read: nothing after a missing token, and not the maximum delay
/// after an initial delay that is no whole number.
pub open spec fn were_read<E: EnvSource>(env: &E, settings: Settings) -> bool {
    &&& was_read(env, ENV_TOKEN, settings.token)
    &&& settings.token is Some ==> {
        &&& was_read(env, ENV_BACKEND_WS_URL, settings.backend_ws_url)
        &&& was_read(env, ENV_OLLAMA_URL, settings.ollama_url)
        &&& was_read(env, ENV_BACKOFF_INITIAL_MS, settings.backoff_initial)
        &&& millis_or(
            crate::text::text_of(settings.backoff_initial),
            default_backoff_initial(),
        ) is Some ==> was_read(env, ENV_BACKOFF_MAX_MS, settings.backoff_max)
    }
}

/// The value of a variable, unless it is empty.
pub open spec fn unless_empty(value: Option<String>) -> Option<String> {
    if value is Some && value->0@.len() > 0 {
        value
    } else {
        None
    }
}

/// Keeps a value that was read unless it is empty: an empty variable counts as
/// unset.
pub fn present(value: Option<String>) -> (kept: Option<String>)
    ensures
        kept == unless_empty(value),
{
    match value {
        Some(text) => if text.as_str().is_empty() {
            None
        } else {
            Some(text)
        },
        None => None,
    }
}

/// The duration that a variable of milliseconds stands for, given what was read of
/// it, or `default` where it is absent.
pub fn duration_from(
    value: Option<String>,
    key: &'static str,
    default: Duration,
) -> (result: Result<Duration, ConfigError>)
    ensures
        match millis_or(crate::text::text_of(value), default@) {
            Some(nanos) => result is Ok && result->Ok_0@ == nanos,
            None => result == Err::<Duration, ConfigError>(ConfigError::InvalidDuration { key }),
        },
{
    match value {
        None => Ok(default),
        Some(text) => match parse_whole_number(text.as_str()) {
            Some(millis) => Ok(Duration::from_millis(millis)),
            None => Err(ConfigError::InvalidDuration { key }),
        },
    }
}

/// Whether a variable of milliseconds is absent or a whole number.
fn is_duration(value: &Option<String>) -> (valid: bool)
    ensures
        forall|default: nat|
            valid == (#[trigger] millis_or(crate::text::text_of(*value), default) is Some),
{
    match value {
        None => true,
        Some(text) => parse_whole_number(text.as_str()).is_some(),
    }
}

impl AgentConfig {
    /// Build the configuration from the values of the variables.
    ///
    /// Fails with [`ConfigError::MissingToken`] if the token is unset, or
    /// [`ConfigError::InvalidDuration`] if a backoff value is not a number.
    pub fn from_settings(settings: Settings) -> (result: Result<AgentConfig, ConfigError>)
        ensures
            outcome_of(result) == config_of(settings),
    {
        let token = match settings.token {
            Some(token) => token,
            None => {
                return Err(ConfigError::MissingToken(ENV_TOKEN));
            },
        };
        let backoff_initial = match duration_from(
            settings.backoff_initial,
            ENV_BACKOFF_INITIAL_MS,
            Duration::from_secs(DEFAULT_BACKOFF_INITIAL_SECS),
        ) {
            Ok(delay) => delay,
            Err(error) => {
                return Err(error);
            },
        };
        let backoff_max = match duration_from(
            settings.backoff_max,
            ENV_BACKOFF_MAX_MS,
            Duration::from_secs(DEFAULT_BACKOFF_MAX_SECS),
        ) {
            Ok(delay) => delay,
            Err(error) => {
                return Err(error);
            },
        };
        let backend_ws_url = match settings.backend_ws_url {
            Some(url) => url,
            None => DEFAULT_BACKEND_WS_URL.to_owned(),
        };
        let ollama_url = match settings.ollama_url {
            Some(url) => url,
            None => DEFAULT_OLLAMA_URL.to_owned(),
        };
        Ok(
            AgentConfig {
                token,
                backend_ws_url,
                ollama_url: trim_trailing_slashes(ollama_url.as_str()),
                backoff_initial,
                backoff_max,
            },
        )
    }

    /// Build the configuration from an environment source.
    ///
    /// Fails with [`ConfigError::MissingToken`] if the token is unset, or
    /// [`ConfigError::InvalidDuration`] if a backoff value is not a number.
    pub fn from_env<E: EnvSource>(env: &E) -> (result: Result<AgentConfig, ConfigError>)
        ensures
            exists|settings: Settings| #[trigger]
                were_read(env, settings) && outcome_of(result) == config_of(settings),
    {
        let mut settings = Settings {
            token: env.get(ENV_TOKEN),
            backend_ws_url: None,
            ollama_url: None,
            backoff_initial: None,
            backoff_max: None,
        };
        if settings.token.is_some() {
            settings.backend_ws_url = env.get(ENV_BACKEND_WS_URL);
            settings.ollama_url = env.get(ENV_OLLAMA_URL);
            settings.backoff_initial = env.get(ENV_BACKOFF_INITIAL_MS);
            if is_duration(&settings.backoff_initial) {
                settings.backoff_max = env.get(ENV_BACKOFF_MAX_MS);
            }
        }
        assert(were_read(env, settings));
        AgentConfig::from_settings(settings)
    }
}

/// Only the token is required: where no other variable is set, the defaults make
/// up a configuration.
pub proof fn law_only_the_token_is_required(settings: Settings)
    requires
        settings.token is Some,
        settings.backend_ws_url is None,
        settings.ollama_url is None,
        settings.backoff_initial is None,
        settings.backoff_max is None,
    ensures
        config_of(settings) == Ok::<ConfigView, ConfigErrorView>(
            ConfigView {
                token: settings.token->0@,
                backend_ws_url: DEFAULT_BACKEND_WS_URL@,
                ollama_url: DEFAULT_OLLAMA_URL@,
                backoff_initial: default_backoff_initial(),
                backoff_max: default_backoff_max(),
            },
        ),
{
    reveal_strlit("http://localhost:11434");
}

/// Without a token there is no configuration, whatever else is set.
pub proof fn law_token_is_required(settings: Settings)
    requires
        settings.token is None,
    ensures
        config_of(settings) == Err::<ConfigView, ConfigErrorView>(
            ConfigErrorView::MissingToken(ENV_TOKEN@),
        ),
{
}

/// A token that is set but empty is missing, and the token of a configuration is
/// never empty, where empty variables count as unset.
pub proof fn law_empty_token_is_missing(read: Option<String>, settings: Settings)
    requires
        settings.token == unless_empty(read),
    ensures
        read is Some && read->0@.len() == 0 ==> config_of(settings) == Err::<
            ConfigView,
            ConfigErrorView,
        >(ConfigErrorView::MissingToken(ENV_TOKEN@)),
        config_of(settings) matches Ok(config) ==> config.token.len() > 0,
{
}

/// The Ollama URL of a configuration ends in no slash.
pub proof fn law_ollama_url_has_no_trailing_slash(settings: Settings)
    ensures
        config_of(settings) matches Ok(config) ==> config.ollama_url.len() > 0
            ==> config.ollama_url.last() != '/',
{
    crate::text::law_trimming_removes_trailing_slashes(
        text_or(crate::text::text_of(settings.ollama_url), DEFAULT_OLLAMA_URL@),
    );
}

/// The delays of a configuration can be doubled as often as the backoff asks:
/// reconnecting with them never overflows.
pub proof fn law_configured_delays_never_overflow(settings: Settings, earlier: nat)
    ensures
        config_of(settings) matches Ok(config) ==> 2 * crate::backoff::delay_after(
            config.backoff_initial,
            config.backoff_max,
            earlier,
        ) <= MAX_NANOS,
{
    if config_of(settings) is Ok {
        let config = config_of(settings)->Ok_0;
        crate::backoff::law_delay_can_always_double(
            config.backoff_initial,
            config.backoff_max,
            earlier,
        );
    }
}

/// Each setting is taken over on its own: the token and the backend URL as they are
/// set, the Ollama URL without the slashes at its end, and the delays in milliseconds.
/// What is not set has its default, whatever else is set.
pub proof fn law_configuration_holds_each_setting(
    settings: Settings,
    result: Result<AgentConfig, ConfigError>,
)
    requires
        outcome_of(result) == config_of(settings),
    ensures
        result matches Ok(config) ==> {
            &&& settings.token is Some && config.token@ == settings.token->0@
            &&& settings.backend_ws_url is Some ==> config.backend_ws_url@
                == settings.backend_ws_url->0@
            &&& settings.backend_ws_url is None ==> config.backend_ws_url@
                == "ws://localhost:8080/bridge/connect"@
            &&& settings.ollama_url is None ==> config.ollama_url@ == "http://localhost:11434"@
            &&& settings.ollama_url is Some ==> {
                let url = settings.ollama_url->0@;
                let kept = config.ollama_url@;
                &&& kept.len() <= url.len() && kept == url.take(kept.len() as int)
                &&& kept.len() > 0 ==> kept.last() != '/'
                &&& forall|i: int| kept.len() <= i < url.len() ==> #[trigger] url[i] == '/'
            }
            &&& settings.backoff_initial is None ==> config.backoff_initial@ == 1_000_000_000
            &&& settings.backoff_initial is Some ==> {
                let millis = crate::text::whole_number(settings.backoff_initial->0@);
                millis is Some && config.backoff_initial@ == millis->0 * 1_000_000
            }
            &&& settings.backoff_max is None ==> config.backoff_max@ == 30_000_000_000
            &&& settings.backoff_max is Some ==> {
                let millis = crate::text::whole_number(settings.backoff_max->0@);
                millis is Some && config.backoff_max@ == millis->0 * 1_000_000
            }
        },
{
    reveal_strlit("http://localhost:11434");
    if settings.ollama_url is Some {
        crate::text::law_trimming_removes_trailing_slashes(settings.ollama_url->0@);
    }
}

/// There is a configuration exactly where the token is set and each delay that is set
/// is a whole number. Otherwise the error names the first variable that is at fault:
/// the token, the initial delay, the maximum delay.
pub proof fn law_configuration_fails_at_the_first_fault(
    settings: Settings,
    result: Result<AgentConfig, ConfigError>,
)
    requires
        outcome_of(result) == config_of(settings),
    ensures
        ({
            let no_token = settings.token is None;
            let bad_initial = settings.backoff_initial is Some && crate::text::whole_number(
                settings.backoff_initial->0@,
            ) is None;
            let bad_max = settings.backoff_max is Some && crate::text::whole_number(
                settings.backoff_max->0@,
            ) is None;
            &&& result is Ok <==> !no_token && !bad_initial && !bad_max
            &&& no_token ==> (result matches Err(ConfigError::MissingToken(key)) && key@
                == "PENFREELY_BRIDGE_TOKEN"@)
            &&& !no_token && bad_initial ==> (result matches Err(
                ConfigError::InvalidDuration { key },
            ) && key@ == "PENFREELY_RECONNECT_INITIAL_MS"@)
            &&& !no_token && !bad_initial && bad_max ==> (result matches Err(
                ConfigError::InvalidDuration { key },
            ) && key@ == "PENFREELY_RECONNECT_MAX_MS"@)
        }),
{
}

/// Each setting holds what the environment gave for the variable of its name.
pub proof fn law_each_variable_is_read_by_its_name<E: EnvSource>(env: &E, settings: Settings)
    requires
        were_read(env, settings),
    ensures
        call_ensures(E::get, (env, "PENFREELY_BRIDGE_TOKEN"), settings.token),
        settings.token is Some ==> {
            &&& call_ensures(E::get, (env, "PENFREELY_BACKEND_WS_URL"), settings.backend_ws_url)
            &&& call_ensures(E::get, (env, "PENFREELY_OLLAMA_URL"), settings.ollama_url)
            &&& call_ensures(
                E::get,
                (env, "PENFREELY_RECONNECT_INITIAL_MS"),
                settings.backoff_initial,
            )
            &&& settings.backoff_initial is None || crate::text::whole_number(
                settings.backoff_initial->0@,
            ) is Some ==> call_ensures(
                E::get,
                (env, "PENFREELY_RECONNECT_MAX_MS"),
                settings.backoff_max,
            )
        },
{
}

/// A variable that is set keeps its value, character for character, unless that is
/// empty; then it counts as unset.
pub proof fn law_only_an_empty_variable_counts_as_unset(value: Option<String>)
    ensures
        unless_empty(value) is Some <==> value is Some && value->0@.len() > 0,
        unless_empty(value) is Some ==> unless_empty(value)->0@ == value->0@,
{
}

/// A delay that is set is that many milliseconds, and one that is not set is the
/// default.
pub proof fn law_a_delay_is_its_milliseconds(value: Option<String>, default: nat)
    ensures
        value is None ==> millis_or(crate::text::text_of(value), default) == Some(default),
        value is Some ==> match crate::text::whole_number(value->0@) {
            Some(millis) => millis_or(crate::text::text_of(value), default) == Some(
                (millis * 1_000_000) as nat,
            ),
            None => millis_or(crate::text::text_of(value), default) is None,
        },
{
}

/// The words of an error name the variable and say what is wrong with it.
pub proof fn law_configuration_errors_name_the_variable(error: ConfigError)
    ensures
        config_error_message(error@) == match error {
            ConfigError::MissingToken(key) => key@
                + " is required (the bridge token from the service)"@,
            ConfigError::InvalidDuration { key } => key@
                + " must be a whole number of milliseconds"@,
        },
{
}

} // verus!

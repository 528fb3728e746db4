//! The configuration of the proxy.

use crate::text::blank;
use crate::text::is_blank;
use crate::text::is_white_space;
use crate::text::string_view;
use crate::text::trim_end;
use crate::text::trimmed_end;
use crate::text::CharClass;
use crate::text_laws::has_ink;
use vstd::prelude::*;
use vstd::string::StringExecFns;

verus! {

/// The upstream where none is given.
pub const DEFAULT_UPSTREAM_BASE_URL: &'static str = "https://integrate.api.nvidia.com/v1";

/// The local port where none is given.
pub const DEFAULT_PROXY_PORT: u16 = 8765;

/// The model that every request goes to where none is given.
pub const DEFAULT_BACKEND_MODEL: &'static str = "thinkingmachines/inkling";

/// The environment variable that holds the API key.
pub const NIM_API_KEY_ENV: &'static str = "NVIDIA_API_KEY";

/// The address that the proxy listens on.
#[derive(Debug, Clone, Copy, PartialEq, Eq)]
pub struct BindAddr {
    pub host: [u8; 4],
    pub port: u16,
}

#[derive(Debug, Clone)]
pub struct ProxyConfig {
    pub bind_addr: BindAddr,
    pub upstream_base_url: String,
    pub api_key: String,
    pub request_timeout_secs: u64,
    pub verbose: bool,
    /// The most requests per minute that are sent to the upstream; 0 is no limit.
    pub rpm: u32,
    /// The model that every request goes to, whatever model it names.
    pub backend_model: String,
    /// Whether models that can reason are told to.
    pub enable_thinking: bool,
}

/// A configuration.
pub struct ConfigModel {
    pub host: Seq<u8>,
    pub port: u16,
    pub upstream_base_url: Seq<char>,
    pub api_key: Seq<char>,
    pub request_timeout_secs: u64,
    pub verbose: bool,
    pub rpm: u32,
    pub backend_model: Seq<char>,
    pub enable_thinking: bool,
}

impl View for ProxyConfig {
    type V = ConfigModel;

    open spec fn view(&self) -> ConfigModel {
        ConfigModel {
            host: self.bind_addr.host@,
            port: self.bind_addr.port,
            upstream_base_url: self.upstream_base_url@,
            api_key: self.api_key@,
            request_timeout_secs: self.request_timeout_secs,
            verbose: self.verbose,
            rpm: self.rpm,
            backend_model: self.backend_model@,
            enable_thinking: self.enable_thinking,
        }
    }
}

/// What the command line says.
#[derive(Debug)]
pub struct Args {
    pub port: u16,
    pub upstream_base_url: Option<String>,
    pub api_key: Option<String>,
    pub backend_model: String,
    pub enable_thinking: bool,
    pub rpm: u32,
    pub verbose: bool,
}

/// Why a configuration cannot be made.
#[derive(Debug, Clone, Copy, PartialEq, Eq, Structural)]
pub enum ConfigError {
    /// There is no API key.
    MissingApiKey,
}

impl ConfigError {
    /// What the error says.
    pub open spec fn text(self) -> Seq<char> {
        match self {
            ConfigError::MissingApiKey => {
                "NVIDIA NIM API key not found. Set the "@ + NIM_API_KEY_ENV@
                    + " environment variable to your `nvapi-...` key, or pass --api-key."@
            },
        }
    }

    /// Says what went wrong.
    pub fn message(&self) -> (r: String)
        ensures
            r@ == self.text(),
    {
        match self {
            ConfigError::MissingApiKey => {
                let mut out = "NVIDIA NIM API key not found. Set the ".to_string();
                out.append(NIM_API_KEY_ENV);
                out.append(" environment variable to your `nvapi-...` key, or pass --api-key.");
                out
            },
        }
    }
}

/// A key that can be used: one that is there and is more than white space.
pub open spec fn usable_key(key: Option<Seq<char>>) -> bool {
    key is Some && !is_blank(key->0)
}

/// The API key: the one that was given, else the one of the environment.
pub open spec fn chosen_key(given: Option<Seq<char>>, env: Option<Seq<char>>) -> Option<Seq<char>> {
    if usable_key(given) {
        given
    } else if usable_key(env) {
        env
    } else {
        None
    }
}

/// `text`, or `default` where it is not given.
pub open spec fn given_or(text: Option<Seq<char>>, default: Seq<char>) -> Seq<char> {
    match text {
        Some(t) => t,
        None => default,
    }
}

/// Whether `cfg` is what is made from what was given.
pub open spec fn resolves_to(
    port: u16,
    upstream_base_url: Option<Seq<char>>,
    api_key: Option<Seq<char>>,
    verbose: bool,
    rpm: u32,
    backend_model: Option<Seq<char>>,
    enable_thinking: bool,
    env_api_key: Option<Seq<char>>,
    cfg: ConfigModel,
) -> bool {
    &&& chosen_key(api_key, env_api_key) == Some(cfg.api_key)
    &&& cfg.host == seq![127u8, 0u8, 0u8, 1u8]
    &&& cfg.port == port
    &&& cfg.upstream_base_url == trimmed_end(
        given_or(upstream_base_url, DEFAULT_UPSTREAM_BASE_URL@),
        CharClass::Slash,
    )
    &&& cfg.request_timeout_secs == 600
    &&& cfg.verbose == verbose
    &&& cfg.rpm == rpm
    &&& cfg.backend_model == given_or(backend_model, DEFAULT_BACKEND_MODEL@)
    &&& cfg.enable_thinking == enable_thinking
}

/// Picks a key that can be used.
fn choose_key(given: Option<String>, env: Option<String>) -> (r: Option<String>)
    ensures
        string_view(r) == chosen_key(string_view(given), string_view(env)),
{
    if let Some(k) = given {
        if !blank(k.as_str()) {
            return Some(k);
        }
    }
    if let Some(k) = env {
        if !blank(k.as_str()) {
            return Some(k);
        }
    }
    None
}

impl ProxyConfig {
    /// Makes a configuration from what was given; `env_api_key` is what the
    /// environment holds as the API key.
    pub fn resolve(
        port: u16,
        upstream_base_url: Option<String>,
        api_key_override: Option<String>,
        verbose: bool,
        rpm: u32,
        backend_model: Option<String>,
        enable_thinking: bool,
        env_api_key: Option<String>,
    ) -> (r: Result<Self, ConfigError>)
        ensures
            match r {
                Ok(cfg) => resolves_to(
                    port,
                    string_view(upstream_base_url),
                    string_view(api_key_override),
                    verbose,
                    rpm,
                    string_view(backend_model),
                    enable_thinking,
                    string_view(env_api_key),
                    cfg@,
                ),
                Err(e) => {
                    &&& e == ConfigError::MissingApiKey
                    &&& chosen_key(string_view(api_key_override), string_view(env_api_key)) is None
                },
            },
    {
        let base = match upstream_base_url {
            Some(url) => url,
            None => DEFAULT_UPSTREAM_BASE_URL.to_string(),
        };
        let api_key = match choose_key(api_key_override, env_api_key) {
            Some(k) => k,
            None => {
                return Err(ConfigError::MissingApiKey);
            },
        };
        let model = match backend_model {
            Some(m) => m,
            None => DEFAULT_BACKEND_MODEL.to_string(),
        };
        let cfg = ProxyConfig {
            bind_addr: BindAddr { host: [127, 0, 0, 1], port },
            upstream_base_url: trim_end(base.as_str(), CharClass::Slash).to_string(),
            api_key,
            request_timeout_secs: 600,
            verbose,
            rpm,
            backend_model: model,
            enable_thinking,
        };
        proof {
            assert(cfg@.host =~= seq![127u8, 0u8, 0u8, 1u8]);
        }
        Ok(cfg)
    }

    /// Makes a configuration from the command line and the API key of the
    /// environment.
    pub fn from_args(args: Args, env_api_key: Option<String>) -> (r: Result<Self, ConfigError>)
        ensures
            match r {
                Ok(cfg) => resolves_to(
                    args.port,
                    string_view(args.upstream_base_url),
                    string_view(args.api_key),
                    args.verbose,
                    args.rpm,
                    Some(args.backend_model@),
                    args.enable_thinking,
                    string_view(env_api_key),
                    cfg@,
                ),
                Err(e) => {
                    &&& e == ConfigError::MissingApiKey
                    &&& chosen_key(string_view(args.api_key), string_view(env_api_key)) is None
                },
            },
    {
        Self::resolve(
            args.port,
            args.upstream_base_url,
            args.api_key,
            args.verbose,
            args.rpm,
            Some(args.backend_model),
            args.enable_thinking,
            env_api_key,
        )
    }

    /// Where chat requests go.
    pub fn upstream_chat_url(&self) -> (r: String)
        ensures
            r@ == self@.upstream_base_url + "/chat/completions"@,
    {
        let mut url = self.upstream_base_url.clone();
        url.append("/chat/completions");
        url
    }

    /// Where the models are listed.
    pub fn upstream_models_url(&self) -> (r: String)
        ensures
            r@ == self@.upstream_base_url + "/models"@,
    {
        let mut url = self.upstream_base_url.clone();
        url.append("/models");
        url
    }
}

/// Which messages are logged where the environment does not say.
pub fn log_filter(verbose: bool) -> (r: &'static str)
    ensures
        r@ == if verbose {
            "codex_nim_proxy=debug,info"@
        } else {
            "codex_nim_proxy=info,warn"@
        },
{
    if verbose {
        "codex_nim_proxy=debug,info"
    } else {
        "codex_nim_proxy=info,warn"
    }
}

/// A base URL that was resolved does not end in a slash, and what was cut off it
/// are slashes alone.
pub proof fn trailing_slashes_are_trimmed(url: Seq<char>)
    ensures
        ({
            let base = trimmed_end(url, CharClass::Slash);
            &&& base.len() > 0 ==> base.last() != '/'
            &&& base.is_prefix_of(url)
            &&& forall|i: int| base.len() <= i < url.len() ==> #[trigger] url[i] == '/'
            &&& trimmed_end(base, CharClass::Slash) == base
        }),
    decreases url.len(),
{
    if url.len() > 0 && url.last() == '/' {
        let shorter = url.drop_last();
        trailing_slashes_are_trimmed(shorter);
        let base = trimmed_end(url, CharClass::Slash);
        assert forall|i: int| base.len() <= i < url.len() implies #[trigger] url[i] == '/' by {
            if i < shorter.len() {
                assert(shorter[i] == url[i]);
            }
        }
        assert(base.is_prefix_of(url)) by {
            assert(url.subrange(0, base.len() as int) =~= shorter.subrange(
                0,
                base.len() as int,
            ));
        }
    } else {
        assert(url.subrange(0, url.len() as int) =~= url);
    }
}

/// The key is the one that was given, where it is more than white space; else the
/// one of the environment, where that is; else there is none.
pub proof fn the_given_key_comes_first(given: Option<Seq<char>>, env: Option<Seq<char>>)
    ensures
        given is Some && has_ink(given->0) ==> chosen_key(given, env) == given,
        !(given is Some && has_ink(given->0)) && env is Some && has_ink(env->0) ==> chosen_key(
            given,
            env,
        ) == env,
        !(given is Some && has_ink(given->0)) && !(env is Some && has_ink(env->0))
            ==> chosen_key(given, env) is None,
{
    assert forall|k: Seq<char>| #[trigger] is_blank(k) <==> !has_ink(k) by {
        if has_ink(k) {
            let i = choose|i: int| 0 <= i < k.len() && !is_white_space(#[trigger] k[i]);
            assert(!is_white_space(k[i]));
        }
    }
    if given is Some {
        assert(is_blank(given->0) <==> !has_ink(given->0));
    }
    if env is Some {
        assert(is_blank(env->0) <==> !has_ink(env->0));
    }
}

/// Whether `base` is `url` without the slashes that it ends with.
pub open spec fn is_without_slashes(base: Seq<char>, url: Seq<char>) -> bool {
    &&& base.len() <= url.len()
    &&& url.take(base.len() as int) == base
    &&& base.len() > 0 ==> base.last() != '/'
    &&& forall|i: int| base.len() <= i < url.len() ==> #[trigger] url[i] == '/'
}

/// A configuration holds what was given: each setting as it is, the address of
/// the upstream without the slashes at its end, and for what was not given what
/// is documented. The proxy listens on this machine alone.
pub proof fn a_configuration_holds_what_was_given(
    port: u16,
    upstream_base_url: Option<Seq<char>>,
    api_key: Option<Seq<char>>,
    verbose: bool,
    rpm: u32,
    backend_model: Option<Seq<char>>,
    enable_thinking: bool,
    env_api_key: Option<Seq<char>>,
    cfg: ConfigModel,
)
    requires
        resolves_to(
            port,
            upstream_base_url,
            api_key,
            verbose,
            rpm,
            backend_model,
            enable_thinking,
            env_api_key,
            cfg,
        ),
    ensures
        cfg.port == port,
        cfg.verbose == verbose,
        cfg.rpm == rpm,
        cfg.enable_thinking == enable_thinking,
        cfg.host == seq![127u8, 0u8, 0u8, 1u8],
        cfg.request_timeout_secs == 600,
        cfg.backend_model == match backend_model {
            Some(b) => b,
            None => "thinkingmachines/inkling"@,
        },
        is_without_slashes(
            cfg.upstream_base_url,
            match upstream_base_url {
                Some(url) => url,
                None => "https://integrate.api.nvidia.com/v1"@,
            },
        ),
        has_ink(cfg.api_key),
        api_key is Some && has_ink(api_key->0) ==> cfg.api_key == api_key->0,
        !(api_key is Some && has_ink(api_key->0)) ==> env_api_key == Some(cfg.api_key),
{
    the_given_key_comes_first(api_key, env_api_key);
    let url = match upstream_base_url {
        Some(url) => url,
        None => "https://integrate.api.nvidia.com/v1"@,
    };
    trailing_slashes_are_trimmed(url);
    let base = cfg.upstream_base_url;
    assert(url.take(base.len() as int) =~= url.subrange(0, base.len() as int));
}

} // verus!

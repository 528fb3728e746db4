//! The configuration.

use codex_nim_proxy::config::log_filter;
use codex_nim_proxy::config::BindAddr;
use codex_nim_proxy::config::ConfigError;
use codex_nim_proxy::config::DEFAULT_BACKEND_MODEL;
use codex_nim_proxy::config::DEFAULT_PROXY_PORT;
use codex_nim_proxy::config::DEFAULT_UPSTREAM_BASE_URL;
use codex_nim_proxy::ProxyConfig;

fn resolved(
    url: Option<&str>,
    key: Option<&str>,
    env: Option<&str>,
) -> Result<ProxyConfig, ConfigError> {
    ProxyConfig::resolve(
        DEFAULT_PROXY_PORT,
        url.map(str::to_string),
        key.map(str::to_string),
        true,
        7,
        Some("backend".to_string()),
        true,
        env.map(str::to_string),
    )
}

#[test]
fn chat_url_is_built_correctly() {
    let cfg = ProxyConfig {
        bind_addr: BindAddr {
            host: [127, 0, 0, 1],
            port: 0,
        },
        upstream_base_url: "https://example.com/v1".to_string(),
        api_key: "k".to_string(),
        request_timeout_secs: 1,
        verbose: false,
        rpm: 40,
        backend_model: "qwen/qwen3".to_string(),
        enable_thinking: false,
    };
    assert_eq!(cfg.upstream_chat_url(), "https://example.com/v1/chat/completions");
    assert_eq!(cfg.upstream_models_url(), "https://example.com/v1/models");
}

#[test]
fn trailing_slash_is_trimmed() {
    let r = ProxyConfig::resolve(
        DEFAULT_PROXY_PORT,
        Some("https://example.com/v1/".to_string()),
        Some("k".to_string()),
        false,
        40,
        None,
        false,
        None,
    )
    .expect("resolve");
    assert_eq!(r.upstream_base_url, "https://example.com/v1");
    assert_eq!(r.backend_model, DEFAULT_BACKEND_MODEL);
}

#[test]
fn what_is_given_is_taken() {
    let cfg = resolved(Some("http://h///"), Some(" key "), Some("other")).unwrap();
    assert_eq!(cfg.bind_addr, BindAddr { host: [127, 0, 0, 1], port: 8765 });
    assert_eq!(cfg.upstream_base_url, "http://h");
    assert_eq!(cfg.api_key, " key ");
    assert_eq!(cfg.request_timeout_secs, 600);
    assert!(cfg.verbose);
    assert_eq!(cfg.rpm, 7);
    assert_eq!(cfg.backend_model, "backend");
    assert!(cfg.enable_thinking);
}

#[test]
fn the_environment_gives_the_key_where_none_is_given() {
    assert_eq!(resolved(None, None, Some("env")).unwrap().api_key, "env");
    assert_eq!(resolved(None, Some(" \t\u{3000}"), Some("env")).unwrap().api_key, "env");
    assert_eq!(
        resolved(None, None, Some("env")).unwrap().upstream_base_url,
        DEFAULT_UPSTREAM_BASE_URL
    );
}

#[test]
fn a_missing_key_is_an_error() {
    for (key, env) in [(None, None), (Some(""), None), (Some(" "), Some("\n"))] {
        let e = resolved(None, key, env).unwrap_err();
        assert_eq!(e, ConfigError::MissingApiKey);
        assert_eq!(
            e.message(),
            "NVIDIA NIM API key not found. Set the NVIDIA_API_KEY environment variable to your \
             `nvapi-...` key, or pass --api-key."
        );
    }
}

#[test]
fn verbose_logs_more() {
    assert_eq!(log_filter(true), "codex_nim_proxy=debug,info");
    assert_eq!(log_filter(false), "codex_nim_proxy=info,warn");
}

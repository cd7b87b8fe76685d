use switchyard::chat::{last_user_prompt, ChatTurn};
use switchyard::proxy::{
    default_host, default_port, Backend, Capability, Config, ConfigError, RouterConfig,
    ServerConfig, Usage,
};

fn proxy_config(names: &[&str], fallback: &str) -> Config {
    Config {
        server: ServerConfig { host: default_host(), port: default_port() },
        router: RouterConfig {
            embedding_model: "all-MiniLM-L6-v2".to_string(),
            threshold_bits: 0.25f32.to_bits(),
            fallback: fallback.to_string(),
            capabilities: vec![Capability { name: "general".to_string(), examples: vec![] }],
        },
        backends: names
            .iter()
            .map(|n| Backend {
                name: n.to_string(),
                provider: "ollama".to_string(),
                base_url: "http://localhost:11434/v1".to_string(),
                api_key: None,
                model: "llama3".to_string(),
            })
            .collect(),
    }
}

fn turn(role: &str, content: Option<&str>) -> ChatTurn {
    ChatTurn { role: role.to_string(), content: content.map(|c| c.to_string()) }
}

#[test]
fn proxy_defaults() {
    assert_eq!(default_host(), "0.0.0.0");
    assert_eq!(default_port(), 8420);
    let u = Usage { prompt_tokens: 3, completion_tokens: 4, total_tokens: 7 };
    assert_eq!(u.prompt_tokens + u.completion_tokens, u.total_tokens);
}

#[test]
fn proxy_backend_lookup() {
    let c = proxy_config(&["tool_call", "general"], "general");
    assert_eq!(c.find_backend("general").unwrap().name, "general");
    assert_eq!(c.backend_for("other").unwrap().name, "tool_call");
    assert_eq!(c.backend_for("general").unwrap().name, "general");
    assert_eq!(c.fallback_backend().ok().unwrap().name, "general");
    let c = proxy_config(&["tool_call"], "general");
    assert!(matches!(c.fallback_backend(), Err(ConfigError::FallbackNotFound(_))));
    assert_eq!(c.backend_for("other").unwrap().name, "tool_call");
    let c = proxy_config(&[], "general");
    assert!(c.backend_for("other").is_none());
}

#[test]
fn prompt_is_last_user_message() {
    let turns = vec![
        turn("system", Some("be brief")),
        turn("user", Some("first")),
        turn("assistant", Some("ok")),
        turn("user", Some("second")),
        turn("tool", Some("result")),
    ];
    assert_eq!(last_user_prompt(&turns), "second");
}

#[test]
fn prompt_is_empty_without_user_or_content() {
    assert_eq!(last_user_prompt(&vec![turn("system", Some("x"))]), "");
    assert_eq!(last_user_prompt(&vec![]), "");
    // The last user message has no content: the prompt is empty, earlier ones are not used.
    let turns = vec![turn("user", Some("earlier")), turn("user", None)];
    assert_eq!(last_user_prompt(&turns), "");
    assert_eq!(last_user_prompt(&vec![turn("User", Some("case matters"))]), "");
}

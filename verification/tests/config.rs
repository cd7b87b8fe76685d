use switchyard::config::{
    default_db_path, default_host, default_port, Backend, Capability, Config, ConfigError,
    DashboardConfig, RouterConfig, ServerConfig,
};

fn backend(name: &str, key: Option<&str>) -> Backend {
    Backend {
        name: name.to_string(),
        provider: "openai".to_string(),
        base_url: format!("https://{}.example/v1", name),
        api_key: key.map(|k| k.to_string()),
        model: format!("{}-model", name),
        cost_per_1m_input_tokens_bits: 3.0f64.to_bits(),
        cost_per_1m_output_tokens_bits: 15.0f64.to_bits(),
    }
}

fn config(names: &[&str], fallback: &str) -> Config {
    Config {
        server: ServerConfig { host: default_host(), port: default_port() },
        router: RouterConfig {
            embedding_model: "all-MiniLM-L6-v2".to_string(),
            threshold_bits: 0.25f32.to_bits(),
            fallback: fallback.to_string(),
            capabilities: vec![Capability {
                name: "tool_call".to_string(),
                examples: vec!["search for files".to_string()],
            }],
        },
        backends: names.iter().map(|n| backend(n, None)).collect(),
        dashboard: DashboardConfig::default(),
    }
}

#[test]
fn defaults() {
    assert_eq!(default_host(), "0.0.0.0");
    assert_eq!(default_port(), 8420);
    assert_eq!(default_db_path(), "switchyard.db");
    assert_eq!(DashboardConfig::default().db_path, "switchyard.db");
}

#[test]
fn find_backend_gives_first_with_the_name() {
    let mut c = config(&["tool_call", "general", "tool_call"], "general");
    c.backends[2].model = "second".to_string();
    let b = c.find_backend("tool_call").unwrap();
    assert_eq!(b.model, "tool_call-model");
    assert!(c.find_backend("nope").is_none());
    assert!(c.find_backend("").is_none());
}

#[test]
fn fallback_backend_found_or_error() {
    let c = config(&["tool_call", "general"], "general");
    assert_eq!(c.fallback_backend().ok().unwrap().name, "general");
    let c = config(&["tool_call"], "general");
    match c.fallback_backend() {
        Err(ConfigError::FallbackNotFound(n)) => assert_eq!(n, "general"),
        _ => panic!("expected a missing fallback"),
    }
}

#[test]
fn backend_for_prefers_category_then_first_backend() {
    let c = config(&["tool_call", "general"], "general");
    assert_eq!(c.backend_for("tool_call").unwrap().name, "tool_call");
    assert_eq!(c.backend_for("general").unwrap().name, "general");
    assert_eq!(c.backend_for("unknown").unwrap().name, "tool_call");
    let c = config(&[], "general");
    assert!(c.backend_for("unknown").is_none());
}

#[test]
fn add_backend_drops_the_key() {
    let mut c = config(&["a"], "a");
    c.add_backend(backend("b", Some("sk-1")));
    assert_eq!(c.backends.len(), 2);
    assert_eq!(c.backends[1].name, "b");
    assert!(c.backends[1].api_key.is_none());
    assert_eq!(f64::from_bits(c.backends[1].cost_per_1m_input_tokens_bits), 3.0);
}

#[test]
fn replace_backend_in_range_and_out() {
    let mut c = config(&["a", "b"], "a");
    let old = c.replace_backend(1, backend("c", Some("k"))).ok().unwrap();
    assert_eq!(old, "b");
    assert_eq!(c.backends[1].name, "c");
    assert!(c.backends[1].api_key.is_none());
    assert_eq!(c.backends[0].name, "a");
    assert!(matches!(c.replace_backend(2, backend("d", None)), Err(ConfigError::IndexOutOfRange)));
    assert_eq!(c.backends.len(), 2);
}

#[test]
fn remove_backend_in_range_and_out() {
    let mut c = config(&["a", "b", "c"], "a");
    let removed = c.remove_backend(1).ok().unwrap();
    assert_eq!(removed.name, "b");
    let names: Vec<String> = c.backends.iter().map(|b| b.name.clone()).collect();
    assert_eq!(names, vec!["a".to_string(), "c".to_string()]);
    assert!(matches!(c.remove_backend(5), Err(ConfigError::IndexOutOfRange)));
    assert_eq!(c.backends.len(), 2);
}

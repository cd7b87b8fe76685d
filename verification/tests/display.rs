use switchyard::cli::{
    category_cell, default_routes_limit, prompt_cell, routes_limit, status_cell, Tint,
};
use switchyard::dashboard::{
    category_tag, default_limit, provider_form_complete, route_prompt, status_tag, time_of_day,
    Provider, RouteQuery, TagColor,
};
use switchyard::vector::{
    known_embedding_model, needs_pruning, seed_examples, select_for_pruning,
    EmbeddingModelChoice, MAX_EXAMPLES, VECTOR_DIM,
};

#[test]
fn category_cells() {
    let c = category_cell("tool_call", false);
    assert_eq!(c.text, "tool_call");
    assert!(matches!(c.tint, Tint::Blue));
    let c = category_cell("general", false);
    assert!(matches!(c.tint, Tint::Green));
    let c = category_cell("general", true);
    assert_eq!(c.text, "general (fb)");
    assert!(matches!(c.tint, Tint::Orange));
}

#[test]
fn status_cells() {
    assert!(matches!(status_cell("ok").tint, Tint::Green));
    let c = status_cell("error");
    assert_eq!(c.text, "error");
    assert!(matches!(c.tint, Tint::Red));
}

#[test]
fn prompt_cells() {
    let long = "a".repeat(51);
    assert_eq!(prompt_cell(&long), format!("{}...", "a".repeat(47)));
    let fifty = "b".repeat(50);
    assert_eq!(prompt_cell(&fifty), fifty);
    assert_eq!(prompt_cell(""), "");
    // The cell counts bytes: twenty `é` and eleven `a` take 51 bytes.
    let mixed = format!("{}{}", "é".repeat(20), "a".repeat(11));
    assert_eq!(prompt_cell(&mixed), format!("{}{}...", "é".repeat(20), "a".repeat(7)));
    assert_eq!(prompt_cell(&"é".repeat(25)), "é".repeat(25));
    // A cut that would split a character stops before it.
    assert_eq!(prompt_cell(&"é".repeat(26)), format!("{}...", "é".repeat(23)));
    let emoji = format!("{}{}", "a".repeat(45), "🙂🙂");
    assert_eq!(prompt_cell(&emoji), format!("{}...", "a".repeat(45)));
}

#[test]
fn routes_limits() {
    assert_eq!(default_routes_limit(), 10);
    assert_eq!(routes_limit(20), 20);
    assert_eq!(routes_limit(100), 100);
    assert_eq!(routes_limit(500), 100);
}

#[test]
fn dashboard_values() {
    assert_eq!(default_limit(), 50);
    assert_eq!(switchyard::cli::default_limit(), 50);
    let q = RouteQuery { limit: default_limit() };
    assert_eq!(q.limit, 50);
    let p = Provider {
        name: "n".to_string(),
        provider: "p".to_string(),
        model: "m".to_string(),
        base_url: "u".to_string(),
    };
    assert_eq!(p.name, "n");
}

#[test]
fn embedding_models() {
    assert!(matches!(known_embedding_model("all-MiniLM-L6-v2"), Some(EmbeddingModelChoice::AllMiniLML6V2)));
    assert!(matches!(known_embedding_model("bge-small-en-v1.5"), Some(EmbeddingModelChoice::BGESmallENV15)));
    assert!(matches!(known_embedding_model("bge-base-en-v1.5"), Some(EmbeddingModelChoice::BGEBaseENV15)));
    assert!(matches!(known_embedding_model("bge-large-en-v1.5"), Some(EmbeddingModelChoice::BGELargeENV15)));
    assert!(matches!(known_embedding_model("nomic-embed-text"), Some(EmbeddingModelChoice::NomicEmbedTextV1)));
    assert!(known_embedding_model("gpt-embed").is_none());
    assert_eq!(VECTOR_DIM, 384);
}

#[test]
fn pruning() {
    assert!(!needs_pruning(MAX_EXAMPLES));
    assert!(needs_pruning(MAX_EXAMPLES + 1));
    assert_eq!(select_for_pruning(MAX_EXAMPLES + 2, vec![1u64, 2, 3, 4]), vec![1, 2]);
    assert_eq!(select_for_pruning(MAX_EXAMPLES + 9, vec![1u64, 2, 3]), vec![1, 2, 3]);
}

#[test]
fn seeds() {
    let s = seed_examples();
    assert_eq!(s.len(), 28);
    assert_eq!(s.iter().filter(|(_, c)| *c == "tool_call").count(), 13);
    assert_eq!(s.iter().filter(|(_, c)| *c == "general").count(), 15);
    assert_eq!(s[0], ("search the web for latest news", "tool_call"));
}

#[test]
fn dashboard_time_of_day() {
    assert_eq!(time_of_day("2025-01-15T12:34:56.789Z"), "12:34:56");
    assert_eq!(time_of_day("2025-01-15T12:34:56+00:00"), "12:34:56+00:00");
    assert_eq!(time_of_day("no-time-here.5"), "no-time-here");
    assert_eq!(time_of_day("aTbTc"), "b");
    assert_eq!(time_of_day(""), "");
    for ts in ["2025-01-15T12:34:56.789Z", "x", "aTb.cTd", "T.", "..T"] {
        let expected = ts.split('T').nth(1).unwrap_or(ts).split('.').next().unwrap_or(ts);
        assert_eq!(time_of_day(ts), expected, "{}", ts);
    }
}

#[test]
fn dashboard_route_prompt() {
    let sixty = "x".repeat(60);
    assert_eq!(route_prompt(&sixty), sixty);
    let long = "x".repeat(61);
    assert_eq!(route_prompt(&long), format!("{}...", "x".repeat(60)));
    assert_eq!(route_prompt(&"ü".repeat(61)), format!("{}...", "ü".repeat(60)));
    assert_eq!(route_prompt("short"), "short");
}

#[test]
fn dashboard_tags() {
    let (t, k) = category_tag("general", true);
    assert_eq!(t, "general (fb)");
    assert!(matches!(k, TagColor::Yellow));
    let (t, k) = category_tag("tool_call", false);
    assert_eq!(t, "tool_call");
    assert!(matches!(k, TagColor::Green));
    let (_, k) = category_tag("general", false);
    assert!(matches!(k, TagColor::Blue));
    assert!(matches!(status_tag("ok"), TagColor::Green));
    assert!(matches!(status_tag("error"), TagColor::Red));
}

#[test]
fn dashboard_provider_form() {
    assert!(provider_form_complete("a", "b", "c", "d"));
    assert!(!provider_form_complete("a", "", "c", "d"));
    assert!(!provider_form_complete("", "", "", ""));
}

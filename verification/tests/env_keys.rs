use switchyard::env_file::{parse_env_keys, render_env_keys, EnvKeys};
use switchyard::keys::{
    env_key_name, key_label, key_name_from_upper, key_to_store, load_backend_key, mask_key, remove_backend_key,
    rename_backend_key, save_backend_key,
};

fn get(keys: &EnvKeys, k: &str) -> Option<String> {
    keys.get(&k.to_string())
}

#[test]
fn parse_reads_key_value_lines() {
    let keys = parse_env_keys("OPENAI_KEY=sk-123\nOLLAMA_KEY=abc\n");
    assert_eq!(keys.len(), 2);
    assert_eq!(get(&keys, "OPENAI_KEY"), Some("sk-123".to_string()));
    assert_eq!(get(&keys, "OLLAMA_KEY"), Some("abc".to_string()));
}

#[test]
fn parse_skips_blank_comment_and_bare_lines() {
    let keys = parse_env_keys("# a comment\n\n   \nNOT_A_PAIR\n  # indented comment\nA=1");
    assert_eq!(keys.len(), 1);
    assert_eq!(get(&keys, "A"), Some("1".to_string()));
    assert_eq!(get(&keys, "NOT_A_PAIR"), None);
}

#[test]
fn parse_trims_and_splits_at_first_equals() {
    let keys = parse_env_keys("  KEY  =  a=b=c  \r\nEMPTY=\n=lonely\n");
    assert_eq!(get(&keys, "KEY"), Some("a=b=c".to_string()));
    assert_eq!(get(&keys, "EMPTY"), Some("".to_string()));
    assert_eq!(get(&keys, ""), Some("lonely".to_string()));
    assert_eq!(keys.len(), 3);
}

#[test]
fn parse_later_line_overrides_earlier() {
    let keys = parse_env_keys("X=1\nY=2\nX=3\n");
    assert_eq!(keys.len(), 2);
    assert_eq!(get(&keys, "X"), Some("3".to_string()));
}

#[test]
fn parse_unicode_whitespace_is_trimmed() {
    let keys = parse_env_keys("\u{3000}K\u{a0}=\u{2003}v\u{85}\n");
    assert_eq!(get(&keys, "K"), Some("v".to_string()));
}

#[test]
fn parse_empty_text_has_no_keys() {
    assert_eq!(parse_env_keys("").len(), 0);
    assert_eq!(parse_env_keys("\n\n").len(), 0);
}

#[test]
fn render_sorts_lines_and_ends_with_newline() {
    let keys = parse_env_keys("B_KEY=2\nA_KEY=1\nC=3\n");
    assert_eq!(render_env_keys(&keys), "A_KEY=1\nB_KEY=2\nC=3\n");
}

#[test]
fn render_sorts_whole_lines_not_keys() {
    // '+' sorts before '=', so "A+=2" comes before "A=1".
    let mut keys = EnvKeys::new();
    keys.insert("A".to_string(), "1".to_string());
    keys.insert("A+".to_string(), "2".to_string());
    assert_eq!(render_env_keys(&keys), "A+=2\nA=1\n");
}

#[test]
fn render_of_no_keys_is_a_lone_newline() {
    assert_eq!(render_env_keys(&EnvKeys::new()), "\n");
}

#[test]
fn round_trip_through_text_keeps_keys() {
    let text = "# keys\nZ_KEY = zz \nA_KEY=a=b\n\nM_KEY=\n";
    let keys = parse_env_keys(text);
    let written = render_env_keys(&keys);
    assert_eq!(written, "A_KEY=a=b\nM_KEY=\nZ_KEY=zz\n");
    let again = parse_env_keys(&written);
    assert_eq!(again.len(), keys.len());
    for k in ["A_KEY", "M_KEY", "Z_KEY"] {
        assert_eq!(get(&again, k), get(&keys, k));
    }
    assert_eq!(render_env_keys(&again), written);
}

#[test]
fn env_key_name_uppercases_and_replaces_dashes() {
    assert_eq!(env_key_name("openrouter"), "OPENROUTER_KEY");
    assert_eq!(env_key_name("my-local-llm"), "MY_LOCAL_LLM_KEY");
    assert_eq!(env_key_name(""), "_KEY");
    assert_eq!(env_key_name("straße"), "STRASSE_KEY");
}

#[test]
fn mask_key_shows_ends_of_long_keys() {
    assert_eq!(mask_key("sk-abcdefgh1234"), "sk-...1234");
    assert_eq!(mask_key("12345678"), "123...5678");
    assert_eq!(mask_key("é1234567"), "é12...4567");
    assert_eq!(mask_key("clé-secrète"), "clé...rète");
}

#[test]
fn mask_key_stars_short_keys() {
    assert_eq!(mask_key("1234567"), "*******");
    assert_eq!(mask_key(""), "");
    assert_eq!(mask_key("é"), "*");
    assert_eq!(mask_key("ééé"), "***");
}

#[test]
fn key_label_says_no_key() {
    assert_eq!(key_label(None), "no key");
    assert_eq!(key_label(Some("sk-abcdefgh1234".to_string())), "sk-...1234");
}

#[test]
fn key_to_store_skips_empty_keys() {
    assert_eq!(key_to_store(&None), None);
    assert_eq!(key_to_store(&Some(String::new())), None);
    assert_eq!(key_to_store(&Some("k".to_string())), Some("k".to_string()));
}

#[test]
fn save_then_load_gives_the_key() {
    let mut keys = parse_env_keys("OTHER_KEY=o\n");
    save_backend_key(&mut keys, "open-ai", "sk-1");
    assert_eq!(load_backend_key(&keys, "open-ai"), Some("sk-1".to_string()));
    assert_eq!(get(&keys, "OPEN_AI_KEY"), Some("sk-1".to_string()));
    assert_eq!(get(&keys, "OTHER_KEY"), Some("o".to_string()));
    save_backend_key(&mut keys, "open-ai", "sk-2");
    assert_eq!(load_backend_key(&keys, "open-ai"), Some("sk-2".to_string()));
    assert_eq!(keys.len(), 2);
}

#[test]
fn saved_key_survives_writing_and_reading_the_file() {
    let before = "# my keys\nOLLAMA_KEY=x\n";
    let mut keys = parse_env_keys(before);
    save_backend_key(&mut keys, "openai", "sk-secret");
    let text = render_env_keys(&keys);
    let reread = parse_env_keys(&text);
    assert_eq!(load_backend_key(&reread, "openai"), Some("sk-secret".to_string()));
    assert_eq!(load_backend_key(&reread, "ollama"), Some("x".to_string()));
}

#[test]
fn remove_then_load_gives_none() {
    let mut keys = parse_env_keys("OPENAI_KEY=a\nOLLAMA_KEY=b\n");
    remove_backend_key(&mut keys, "openai");
    assert_eq!(load_backend_key(&keys, "openai"), None);
    assert_eq!(load_backend_key(&keys, "ollama"), Some("b".to_string()));
    remove_backend_key(&mut keys, "missing");
    assert_eq!(keys.len(), 1);
    let text = render_env_keys(&keys);
    assert_eq!(text, "OLLAMA_KEY=b\n");
    assert_eq!(load_backend_key(&parse_env_keys(&text), "openai"), None);
}

#[test]
fn render_does_not_depend_on_insertion_order() {
    let mut a = EnvKeys::new();
    a.insert("Z".to_string(), "1".to_string());
    a.insert("M".to_string(), "2".to_string());
    a.insert("A".to_string(), "3".to_string());
    let mut b = EnvKeys::new();
    b.insert("A".to_string(), "3".to_string());
    b.insert("Z".to_string(), "0".to_string());
    b.insert("M".to_string(), "2".to_string());
    b.insert("Z".to_string(), "1".to_string());
    assert_eq!(render_env_keys(&a), render_env_keys(&b));
    assert_eq!(render_env_keys(&a), "A=3\nM=2\nZ=1\n");
}

#[test]
fn remove_of_absent_key_changes_nothing() {
    let mut keys = parse_env_keys("A=1\n");
    keys.remove(&"B".to_string());
    assert_eq!(keys.len(), 1);
    assert_eq!(render_env_keys(&keys), "A=1\n");
}

#[test]
fn rename_moves_the_key_to_the_new_name() {
    let mut keys = parse_env_keys("OLD_KEY=a\nOTHER_KEY=o\n");
    rename_backend_key(&mut keys, "old", "new", Some("b"));
    assert_eq!(load_backend_key(&keys, "old"), None);
    assert_eq!(load_backend_key(&keys, "new"), Some("b".to_string()));
    assert_eq!(load_backend_key(&keys, "other"), Some("o".to_string()));
}

#[test]
fn rename_without_new_key_moves_the_existing_key() {
    let mut keys = parse_env_keys("OLD_KEY=a\nOTHER_KEY=o\n");
    rename_backend_key(&mut keys, "old", "new", None);
    assert_eq!(load_backend_key(&keys, "old"), None);
    assert_eq!(load_backend_key(&keys, "new"), Some("a".to_string()));
    rename_backend_key(&mut keys, "new", "newer", Some(""));
    assert_eq!(load_backend_key(&keys, "new"), None);
    assert_eq!(load_backend_key(&keys, "newer"), Some("a".to_string()));
    assert_eq!(load_backend_key(&keys, "other"), Some("o".to_string()));
    assert_eq!(keys.len(), 2);
}

#[test]
fn rename_of_a_backend_without_key_changes_nothing() {
    let mut keys = parse_env_keys("OTHER_KEY=o\n");
    rename_backend_key(&mut keys, "old", "new", None);
    assert_eq!(load_backend_key(&keys, "new"), None);
    assert_eq!(render_env_keys(&keys), "OTHER_KEY=o\n");
}

#[test]
fn same_name_keeps_or_replaces_the_key() {
    let mut keys = parse_env_keys("OLD_KEY=a\n");
    rename_backend_key(&mut keys, "old", "old", None);
    assert_eq!(load_backend_key(&keys, "old"), Some("a".to_string()));
    rename_backend_key(&mut keys, "old", "old", Some("z"));
    assert_eq!(load_backend_key(&keys, "old"), Some("z".to_string()));
    assert_eq!(keys.len(), 1);
}

#[test]
fn key_name_from_upper_turns_dashes_and_adds_suffix() {
    assert_eq!(key_name_from_upper("OPEN-AI"), "OPEN_AI_KEY");
    assert_eq!(key_name_from_upper(""), "_KEY");
    assert_eq!(key_name_from_upper("a-b"), "a_b_KEY");
}

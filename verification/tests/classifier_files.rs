use switchyard::labels::{build_complexities, build_labels, load_labels, parse_index, LabelsError};
use switchyard::weights::{parse_weights_layout, sizes_can_be_computed, WeightsError};

fn header(nl: i32, e: i32, h: i32, nc: i32) -> Vec<u8> {
    let mut v = Vec::new();
    for x in [nl, e, h, nc] {
        v.extend_from_slice(&x.to_le_bytes());
    }
    v
}

#[test]
fn layout_of_a_small_file() {
    let mut data = header(2, 3, 4, 3);
    // 3*4 + 4 + 4*2 + 2 + 4*3 + 3 = 41 floats
    data.extend(std::iter::repeat(0u8).take(41 * 4));
    assert!(sizes_can_be_computed(&data));
    let l = parse_weights_layout(&data).ok().unwrap();
    assert_eq!((l.num_labels, l.embedding_dim, l.hidden_dim, l.num_complexities), (2, 3, 4, 3));
    assert_eq!((l.shared_w.offset, l.shared_w.count), (16, 12));
    assert_eq!((l.shared_b.offset, l.shared_b.count), (64, 4));
    assert_eq!((l.cat_w.offset, l.cat_w.count), (80, 8));
    assert_eq!((l.cat_b.offset, l.cat_b.count), (112, 2));
    assert_eq!((l.complexity_w.offset, l.complexity_w.count), (120, 12));
    assert_eq!((l.complexity_b.offset, l.complexity_b.count), (168, 3));
    assert_eq!(l.complexity_b.offset + 4 * l.complexity_b.count, data.len());
}

#[test]
fn too_small_file() {
    assert!(matches!(parse_weights_layout(&[0u8; 15]), Err(WeightsError::TooSmall)));
    assert!(matches!(parse_weights_layout(&[]), Err(WeightsError::TooSmall)));
}

#[test]
fn truncated_file() {
    let mut data = header(1, 1, 1, 1);
    data.extend([0u8; 8]);
    match parse_weights_layout(&data) {
        Err(WeightsError::Truncated { expected, got }) => {
            assert_eq!(expected, 16 + 6 * 4);
            assert_eq!(got, 24);
        }
        _ => panic!("expected a truncated file"),
    }
}

#[test]
fn negative_sizes_cannot_be_computed() {
    let data = header(-1, 2, 2, 2);
    assert!(!sizes_can_be_computed(&data));
    assert!(sizes_can_be_computed(&header(0, 0, 0, 0)));
    assert!(parse_weights_layout(&header(0, 0, 0, 0)).is_ok());
}

#[test]
fn parse_index_as_usize_from_str() {
    for s in ["0", "7", "+12", "007", "18446744073709551615", "", "+", "-1", " 1", "1a", "18446744073709551616"] {
        assert_eq!(parse_index(s), s.parse::<usize>().ok(), "{}", s);
    }
}

fn entries(pairs: &[(&str, Option<&str>)]) -> Vec<(String, Option<String>)> {
    pairs.iter().map(|(k, v)| (k.to_string(), v.map(|s| s.to_string()))).collect()
}

#[test]
fn labels_are_placed_by_index() {
    let es = entries(&[("1", Some("general")), ("0", Some("tool_call")), ("5", Some("ignored"))]);
    let labels = build_labels(3, Some(es)).ok().unwrap();
    assert_eq!(labels, vec!["tool_call".to_string(), "general".to_string(), String::new()]);
}

#[test]
fn label_without_string_is_unknown() {
    let es = entries(&[("0", None)]);
    assert_eq!(build_labels(1, Some(es)).ok().unwrap(), vec!["unknown".to_string()]);
}

#[test]
fn labels_missing_or_bad_index() {
    assert!(matches!(build_labels(2, None), Err(LabelsError::MissingLabels)));
    let es = entries(&[("0", Some("a")), ("x", Some("b"))]);
    assert!(matches!(build_labels(2, Some(es)), Err(LabelsError::InvalidLabelIndex)));
}

#[test]
fn complexities_default_and_given() {
    assert_eq!(
        build_complexities(3, None),
        vec!["low".to_string(), "medium".to_string(), "high".to_string()]
    );
    let es = entries(&[("1", Some("hard")), ("x", Some("easy")), ("9", Some("no"))]);
    assert_eq!(build_complexities(2, Some(es)), vec!["easy".to_string(), "hard".to_string()]);
}

#[test]
fn labels_file_is_read_from_json() {
    let text = r#"{"id2label": {"0": "tool_call", "1": "general", "2": 7},
                   "id2complexity": {"0": "easy", "1": "hard"}}"#;
    let (labels, complexities) = load_labels(text, 3, 2).ok().unwrap();
    assert_eq!(labels, vec!["tool_call".to_string(), "general".to_string(), "unknown".to_string()]);
    assert_eq!(complexities, vec!["easy".to_string(), "hard".to_string()]);
}

#[test]
fn labels_file_without_complexities_uses_defaults() {
    let (labels, complexities) = load_labels(r#"{"id2label": {"1": "b"}}"#, 2, 3).ok().unwrap();
    assert_eq!(labels, vec![String::new(), "b".to_string()]);
    assert_eq!(complexities, vec!["low".to_string(), "medium".to_string(), "high".to_string()]);
    let (_, complexities) =
        load_labels(r#"{"id2label": {}, "id2complexity": "x"}"#, 0, 3).ok().unwrap();
    assert_eq!(complexities, vec!["low".to_string(), "medium".to_string(), "high".to_string()]);
}

#[test]
fn labels_file_errors() {
    assert!(matches!(load_labels("not json", 1, 1), Err(LabelsError::NotJson)));
    assert!(matches!(load_labels("{}", 1, 1), Err(LabelsError::MissingLabels)));
    assert!(matches!(load_labels(r#"{"id2label": ["a"]}"#, 1, 1), Err(LabelsError::MissingLabels)));
    assert!(matches!(
        load_labels(r#"{"id2label": {"zero": "a"}}"#, 1, 1),
        Err(LabelsError::InvalidLabelIndex)
    ));
}

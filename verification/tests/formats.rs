use valis_core::formats::yaml::{
    describe, get_yaml_value, update_yaml_value_in_place, YamlError, YamlNode,
};
use valis_core::script::repl::completions;

fn text(s: &str) -> YamlNode {
    YamlNode::Text(s.to_string())
}

fn mapping(entries: Vec<(&str, YamlNode)>) -> YamlNode {
    YamlNode::Mapping(entries.into_iter().map(|(k, v)| (text(k), v)).collect())
}

fn sample() -> YamlNode {
    mapping(vec![
        ("name", text("valis")),
        (
            "image",
            mapping(vec![("repository", text("example/app")), ("tag", text("1.0")), ("pull", YamlNode::Bool(true))]),
        ),
        ("replicas", YamlNode::Number("3".to_string())),
        ("ports", YamlNode::Sequence(vec![YamlNode::Number("80".to_string())])),
        ("", mapping(vec![("", text("empty keys"))])),
    ])
}

#[test]
fn text_is_found_at_the_end_of_a_path() {
    let doc = sample();
    assert_eq!(get_yaml_value(&doc, "name"), Ok("valis".to_string()));
    assert_eq!(get_yaml_value(&doc, "image.tag"), Ok("1.0".to_string()));
    assert_eq!(get_yaml_value(&doc, "."), Ok("empty keys".to_string()));
    assert_eq!(get_yaml_value(&text("alone"), ""), Err(YamlError::NotAMapping(0)));
}

#[test]
fn paths_that_lead_nowhere_say_where_they_stop() {
    let doc = sample();
    assert_eq!(get_yaml_value(&doc, "missing"), Err(YamlError::KeyNotFound(0)));
    assert_eq!(get_yaml_value(&doc, "image.missing"), Err(YamlError::KeyNotFound(1)));
    assert_eq!(get_yaml_value(&doc, "name.first"), Err(YamlError::NotAMapping(1)));
    assert_eq!(get_yaml_value(&doc, "ports.0"), Err(YamlError::NotAMapping(1)));
    assert_eq!(get_yaml_value(&doc, "image"), Err(YamlError::NotAString));
    assert_eq!(get_yaml_value(&doc, "replicas"), Err(YamlError::NotAString));
    assert_eq!(get_yaml_value(&doc, "image.pull"), Err(YamlError::NotAString));
    assert_eq!(get_yaml_value(&doc, "Name"), Err(YamlError::KeyNotFound(0)));
}

#[test]
fn a_value_is_replaced_by_text() {
    let mut doc = sample();
    assert_eq!(update_yaml_value_in_place(&mut doc, "image.tag", "2.0"), Ok(()));
    assert_eq!(get_yaml_value(&doc, "image.tag"), Ok("2.0".to_string()));
    assert_eq!(get_yaml_value(&doc, "image.repository"), Ok("example/app".to_string()));
    assert_eq!(update_yaml_value_in_place(&mut doc, "replicas", "5"), Ok(()));
    assert_eq!(get_yaml_value(&doc, "replicas"), Ok("5".to_string()));
    assert_eq!(update_yaml_value_in_place(&mut doc, "image", "flat"), Ok(()));
    assert_eq!(get_yaml_value(&doc, "image"), Ok("flat".to_string()));
    assert_eq!(get_yaml_value(&doc, "name"), Ok("valis".to_string()));
}

#[test]
fn a_document_stays_as_it_is_where_the_path_leads_nowhere() {
    let mut doc = sample();
    assert_eq!(update_yaml_value_in_place(&mut doc, "image.none", "x"), Err(YamlError::InvalidSegment(1)));
    assert_eq!(update_yaml_value_in_place(&mut doc, "name.deep", "x"), Err(YamlError::InvalidSegment(1)));
    assert_eq!(update_yaml_value_in_place(&mut doc, "none", "x"), Err(YamlError::InvalidSegment(0)));
    assert_eq!(format!("{:?}", doc), format!("{:?}", sample()));
}

#[test]
fn commands_that_begin_with_the_line_are_offered() {
    let commands = vec!["git_clone".to_string(), "run".to_string(), "git_pull".to_string()];
    assert_eq!(
        completions(&commands, "git", 3),
        vec![
            ("git_clone".to_string(), "_clone".to_string()),
            ("git_pull".to_string(), "_pull".to_string()),
        ]
    );
    assert_eq!(
        completions(&commands, "", 0),
        vec![
            ("git_clone".to_string(), "git_clone".to_string()),
            ("run".to_string(), "run".to_string()),
            ("git_pull".to_string(), "git_pull".to_string()),
        ]
    );
    assert_eq!(completions(&commands, "run", 1), vec![("run".to_string(), "un".to_string())]);
    assert!(completions(&commands, "x", 1).is_empty());
    assert!(completions(&commands, "runs", 4).is_empty());
}

#[test]
fn errors_are_described_in_words() {
    assert_eq!(
        describe(YamlError::KeyNotFound(1), "image.missing.tag"),
        "Key 'missing' not found in YAML key path: image.missing.tag"
    );
    assert_eq!(describe(YamlError::KeyNotFound(7), "a.b"), "Key '' not found in YAML key path: a.b");
    assert_eq!(describe(YamlError::NotAMapping(1), "name.first"), "Invalid YAML key path: name.first");
    assert_eq!(describe(YamlError::NotAString, "image"), "The retrieved YAML value is not a string.");
    assert_eq!(describe(YamlError::InvalidSegment(0), "none.x"), "Invalid path segment: none");
}

use org_render::export::extract_metadata;
use org_render::metadata::MetadataCollector;
use org_render::tree::{Container, Event, Keyword, Kind, Node};

fn branch(kind: Kind, children: Vec<Node>) -> Node {
    Node::Container(Container { kind, children })
}

fn keyword(key: &str, value: &str) -> Node {
    branch(Kind::Keyword(Keyword { key: key.to_string(), value: value.to_string() }), vec![])
}

#[test]
fn first_title_wins() {
    let doc = branch(Kind::Document, vec![keyword("TITLE", " First"), keyword("TITLE", " Second")]);
    let meta = extract_metadata(&doc);
    assert_eq!(meta.title, Some(" First".to_string()));
}

#[test]
fn all_fields_are_collected_whatever_the_case_of_the_key() {
    let doc = branch(
        Kind::Document,
        vec![
            keyword("title", " Test Post"),
            keyword("Date", " 2024-01-26"),
            branch(Kind::Section, vec![keyword("DESCRIPTION", " Test parser")]),
            keyword("filetags", " test  rust\t\tverus "),
            keyword("date", " later"),
            keyword("description", " later"),
            keyword("FILETAGS", " later"),
        ],
    );
    let meta = extract_metadata(&doc);
    assert_eq!(meta.title, Some(" Test Post".to_string()));
    assert_eq!(meta.date, Some(" 2024-01-26".to_string()));
    assert_eq!(meta.description, Some(" Test parser".to_string()));
    assert_eq!(meta.tags, vec!["test".to_string(), "rust".to_string(), "verus".to_string()]);
}

#[test]
fn document_without_keywords_has_no_metadata() {
    let doc = branch(Kind::Document, vec![Node::Text("TITLE".to_string())]);
    let meta = extract_metadata(&doc);
    assert_eq!(meta.title, None);
    assert_eq!(meta.date, None);
    assert_eq!(meta.description, None);
    assert!(meta.tags.is_empty());
}

#[test]
fn first_tags_keyword_wins_even_without_a_word() {
    let doc = branch(Kind::Document, vec![keyword("FILETAGS", "   "), keyword("FILETAGS", "a b")]);
    let meta = extract_metadata(&doc);
    assert!(meta.tags.is_empty());
    assert!(meta.tags_set);
    let exported = meta.export();
    assert_eq!(exported.tags, None);
    assert_eq!(exported.tags_count, 0);
}

#[test]
fn first_tags_keyword_wins() {
    let doc = branch(Kind::Document, vec![keyword("filetags", "a b"), keyword("FILETAGS", "c")]);
    let meta = extract_metadata(&doc);
    assert_eq!(meta.tags, vec!["a".to_string(), "b".to_string()]);
    assert!(meta.tags_set);
    assert!(!extract_metadata(&branch(Kind::Document, vec![])).tags_set);
}

#[test]
fn only_entering_a_keyword_counts() {
    let kw = Container {
        kind: Kind::Keyword(Keyword { key: "TITLE".to_string(), value: "T".to_string() }),
        children: vec![],
    };
    let mut collector = MetadataCollector::new();
    collector.collect_from_event(Event::Leave(&kw));
    collector.collect_from_event(Event::Rule);
    assert_eq!(collector.title, None);
    collector.collect_from_event(Event::Enter(&kw));
    assert_eq!(collector.title, Some("T".to_string()));
}

#[test]
fn exported_metadata_is_trimmed_and_joined() {
    let doc = branch(
        Kind::Document,
        vec![
            keyword("TITLE", "  My Title \t"),
            keyword("DATE", " 2024-01-26"),
            keyword("FILETAGS", " test  rust "),
        ],
    );
    let exported = extract_metadata(&doc).export();
    assert_eq!(exported.title, Some("My Title".to_string()));
    assert_eq!(exported.date, Some("2024-01-26".to_string()));
    assert_eq!(exported.description, None);
    assert_eq!(exported.tags, Some("test rust".to_string()));
    assert_eq!(exported.tags_array, vec!["test".to_string(), "rust".to_string()]);
    assert_eq!(exported.tags_count, 2);
}

#[test]
fn exported_metadata_without_tags_has_no_joined_tags() {
    let exported = extract_metadata(&branch(Kind::Document, vec![])).export();
    assert_eq!(exported.tags, None);
    assert!(exported.tags_array.is_empty());
    assert_eq!(exported.tags_count, 0);
}

#[test]
fn optional_text_is_trimmed() {
    assert_eq!(org_render::metadata::trim_optional(&Some(" a b ".to_string())), Some("a b".to_string()));
    assert_eq!(org_render::metadata::trim_optional(&Some("   ".to_string())), Some(String::new()));
    assert_eq!(org_render::metadata::trim_optional(&None), None);
}

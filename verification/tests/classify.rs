use uprava::report::{classify_term, RelationKind};
use uprava::report_data::resolve_term;

#[test]
fn dependance_for_is_dependance_forward() {
    assert_eq!(classify_term("dependance for"), Some((RelationKind::Dependance, false)));
}

#[test]
fn depends_on_is_dependance_reversed() {
    assert_eq!(classify_term("depends on"), Some((RelationKind::Dependance, true)));
}

#[test]
fn mentioned_in_is_mention_forward() {
    assert_eq!(classify_term("mentioned in"), Some((RelationKind::Mention, false)));
}

#[test]
fn relates_to_is_mention_forward() {
    assert_eq!(classify_term("relates to"), Some((RelationKind::Mention, false)));
}

#[test]
fn mentions_is_mention_reversed() {
    assert_eq!(classify_term("mentions"), Some((RelationKind::Mention, true)));
}

#[test]
fn blocks_is_block_forward() {
    assert_eq!(classify_term("blocks"), Some((RelationKind::Block, false)));
}

#[test]
fn is_blocked_by_is_block_reversed() {
    assert_eq!(classify_term("is blocked by"), Some((RelationKind::Block, true)));
}

#[test]
fn unrecognized_terms_produce_no_relation() {
    assert_eq!(classify_term("duplicates"), None);
    assert_eq!(classify_term(""), None);
    assert_eq!(classify_term("Blocks"), None);
    assert_eq!(classify_term("blocks "), None);
}

#[test]
fn remap_rewrites_the_first_match() {
    let map = vec![
        ("is required by".to_string(), "blocks".to_string()),
        ("is required by".to_string(), "mentions".to_string()),
    ];
    assert_eq!(resolve_term(&map, "is required by"), "blocks");
}

#[test]
fn remap_passes_unmatched_terms_through() {
    let map = vec![("is required by".to_string(), "blocks".to_string())];
    assert_eq!(resolve_term(&map, "depends on"), "depends on");
    let empty: Vec<(String, String)> = vec![];
    assert_eq!(resolve_term(&empty, "anything"), "anything");
}

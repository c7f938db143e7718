use uprava::confluence::wiki_escape;
use uprava::report_dependency_graph::DependencyGraph;
use uprava::text::str_eq;

#[test]
fn wiki_escape_trims_and_replaces() {
    assert_eq!(wiki_escape("  hello  "), "hello");
    assert_eq!(wiki_escape("a\nb"), "a\\\\b");
    assert_eq!(wiki_escape("{color}"), "color");
    assert_eq!(wiki_escape("a\r\nb"), "a\\\\b");
    assert_eq!(wiki_escape("   "), "");
    assert_eq!(wiki_escape(""), "");
    assert_eq!(wiki_escape("x {y} z"), "x y z");
}

#[test]
fn wiki_escape_trims_before_replacing() {
    // the trailing line feed is whitespace and is trimmed, not replaced
    assert_eq!(wiki_escape("a\n"), "a");
    assert_eq!(wiki_escape("\na"), "a");
}

#[test]
fn double_string_escape_quotes_literals() {
    assert_eq!(DependencyGraph::double_string_escape("a\\b\"c"), "a\\\\b\\\"c");
    assert_eq!(DependencyGraph::double_string_escape("plain"), "plain");
}

#[test]
fn html_string_escape_replaces_markup() {
    assert_eq!(DependencyGraph::html_string_escape("a&<b>"), "a&amp;&lt;b&gt;");
    assert_eq!(DependencyGraph::html_string_escape("plain"), "plain");
}

#[test]
fn str_eq_compares_by_characters() {
    assert!(str_eq("", ""));
    assert!(str_eq("абв", "абв"));
    assert!(!str_eq("абв", "абг"));
    assert!(!str_eq("a", "ab"));
}

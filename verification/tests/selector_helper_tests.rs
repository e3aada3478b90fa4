use semantic_edit_mcp::operations::selector::{
    byte_position_to_line_column, get_context_around_byte_position, levenshtein_distance,
    suggest_ancestor_type, truncate,
};

#[test]
fn edit_distances() {
    assert_eq!(levenshtein_distance("kitten", "sitting"), 3);
    assert_eq!(levenshtein_distance("", "abc"), 3);
    assert_eq!(levenshtein_distance("flaw", "lawn"), 2);
    assert_eq!(levenshtein_distance("same", "same"), 0);
}

#[test]
fn truncation_cuts_before_the_last_word_character() {
    assert_eq!(truncate("hello world".to_string(), 5), "hell...");
    assert_eq!(truncate("hi".to_string(), 5), "hi");
    assert_eq!(truncate("ab   cdef".to_string(), 4), "a...");
    assert_eq!(truncate("    xyz".to_string(), 3), "   ...");
}

#[test]
fn ancestor_suggestions() {
    let available = vec!["function_item".to_string(), "impl_item".to_string()];
    assert_eq!(suggest_ancestor_type(&available, "Function"), Some("function_item".to_string()));
    assert_eq!(suggest_ancestor_type(&available, "fucntion_item"), Some("function_item".to_string()));
    assert_eq!(suggest_ancestor_type(&available, "zzz"), None);
}

#[test]
fn context_is_escaped() {
    assert_eq!(get_context_around_byte_position("ab\ncd\tef", 3, 2), "b\\ncd");
    assert_eq!(get_context_around_byte_position("ab\tc", 0, 10), "ab\\tc");
}

#[test]
fn line_and_column_of_a_byte() {
    assert_eq!(byte_position_to_line_column("ab\ncd", 4), (2, 2));
    assert_eq!(byte_position_to_line_column("ab\ncd", 0), (1, 1));
}

use semantic_edit_mcp::editor::edit::Edit;
use semantic_edit_mcp::editor::EditPosition;
use semantic_edit_mcp::languages::toml::sort_least_destructive;

fn edit(start: usize, end: Option<usize>, content: &str) -> Edit {
    Edit {
        position: EditPosition { start_byte: start, end_byte: end },
        content: content.to_string(),
        anchor_hit: None,
        nodes: None,
        annotation: None,
    }
}

#[test]
fn placements_deleting_less_come_first_and_ties_keep_their_order() {
    let sorted = sort_least_destructive(vec![
        edit(0, Some(10), "a"),
        edit(3, None, "b"),
        edit(2, Some(4), "c"),
        edit(5, Some(7), "d"),
        edit(1, None, "e"),
    ]);
    let order: Vec<&str> = sorted.iter().map(|e| e.content.as_str()).collect();
    assert_eq!(order, vec!["b", "e", "c", "d", "a"]);
}

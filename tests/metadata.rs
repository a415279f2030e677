use aeon_bridge::layout::{Layout, LayoutEntry};
use aeon_bridge::metadata::{extract_metadata, layout_to_metadata, MetadataTree};

fn leaves(tree: &MetadataTree) -> Vec<(Vec<String>, String)> {
    tree.entries.iter().map(|e| (e.path.clone(), e.value.clone())).collect()
}

fn path(keys: &[&str]) -> Vec<String> {
    keys.iter().map(|k| k.to_string()).collect()
}

#[test]
fn sibling_directives_share_a_branch() {
    let tree = extract_metadata("#a:b:1\n#a:c:2\n");
    assert_eq!(
        leaves(&tree),
        vec![(path(&["a", "b"]), "1".to_string()), (path(&["a", "c"]), "2".to_string())]
    );
}

#[test]
fn position_directive_becomes_position_subtree() {
    let tree = extract_metadata("  #position:v_1:1.5,-2  \n");
    assert_eq!(leaves(&tree), vec![(path(&["position", "v_1"]), "1.5,-2".to_string())]);
}

#[test]
fn single_segment_and_plain_lines_are_ignored() {
    let tree = extract_metadata("# just a comment\na -> b\n#\n");
    assert!(tree.entries.is_empty());
}

#[test]
fn later_value_replaces_earlier() {
    let tree = extract_metadata("#name:first\n#name:second\n");
    assert_eq!(leaves(&tree), vec![(path(&["name"]), "second".to_string())]);
}

#[test]
fn kind_of_key_is_fixed_by_first_directive() {
    let tree = extract_metadata("#a:1\n#a:b:2\n#c:d:3\n#c:4\n");
    assert_eq!(
        leaves(&tree),
        vec![(path(&["a"]), "1".to_string()), (path(&["c", "d"]), "3".to_string())]
    );
}

#[test]
fn layout_becomes_position_subtree() {
    let layout = Layout {
        entries: vec![
            LayoutEntry { name: "a".to_string(), x: "1".to_string(), y: "2".to_string() },
            LayoutEntry { name: "b".to_string(), x: "3.5".to_string(), y: "-4".to_string() },
        ],
    };
    let tree = layout_to_metadata(&layout);
    assert_eq!(
        leaves(&tree),
        vec![
            (path(&["position", "a"]), "1,2".to_string()),
            (path(&["position", "b"]), "3.5,-4".to_string())
        ]
    );
}

#[test]
fn empty_layout_keeps_position_subtree() {
    let tree = layout_to_metadata(&Layout { entries: vec![] });
    assert!(tree.entries.is_empty());
    assert_eq!(tree.branches, vec![path(&["position"])]);
}

use aeon_bridge::layout::{coordinate_check, encode_layout, read_layout, Layout, LayoutEntry};

fn entries(layout: &Layout) -> Vec<(String, String, String)> {
    layout.entries.iter().map(|e| (e.name.clone(), e.x.clone(), e.y.clone())).collect()
}

fn triple(n: &str, x: &str, y: &str) -> (String, String, String) {
    (n.to_string(), x.to_string(), y.to_string())
}

#[test]
fn reads_position_directives() {
    let layout = read_layout("a -> b\n#position:a:1,2\n  #position:b:3.25,-4e2 \r\n");
    assert_eq!(entries(&layout), vec![triple("a", "1", "2"), triple("b", "3.25", "-4e2")]);
}

#[test]
fn malformed_coordinate_is_skipped() {
    let layout = read_layout("#position:a:1,2\n#position:b:x,2\n#position:c:5,6\n");
    assert_eq!(entries(&layout), vec![triple("a", "1", "2"), triple("c", "5", "6")]);
}

#[test]
fn malformed_ids_are_skipped() {
    let layout = read_layout("#position::1,2\n#position:a-b:1,2\n#position:c:1\n#position:d:1,\n");
    assert!(layout.entries.is_empty());
}

#[test]
fn last_directive_for_a_name_wins() {
    let layout = read_layout("#position:a:1,2\n#position:b:0,0\n#position:a:7,8\n");
    assert_eq!(entries(&layout), vec![triple("a", "7", "8"), triple("b", "0", "0")]);
}

#[test]
fn encode_then_read_gives_the_layout() {
    let layout = Layout {
        entries: vec![
            LayoutEntry { name: "x1".to_string(), x: "0.5".to_string(), y: "-12".to_string() },
            LayoutEntry { name: "y_2".to_string(), x: "1e3".to_string(), y: ".25".to_string() },
        ],
    };
    let text = encode_layout(&layout);
    assert_eq!(text, "#position:x1:0.5,-12\n#position:y_2:1e3,.25\n");
    assert_eq!(entries(&read_layout(&text)), entries(&layout));
}

#[test]
fn encode_empty_layout() {
    assert_eq!(encode_layout(&Layout { entries: vec![] }), "");
}

#[test]
fn coordinate_grammar() {
    for ok in ["1", "-1", "+1.5", "1.", ".5", "1e5", "1E-5", "2.5e+3", "inf", "-Infinity", "NaN"] {
        assert!(coordinate_check(&ok.chars().collect()), "{}", ok);
        assert!(ok.parse::<f64>().is_ok());
    }
    for bad in ["", ".", "+", "e5", "1e", "1.2.3", "1,2", " 1", "abc", "in", "--1"] {
        assert!(!coordinate_check(&bad.chars().collect()), "{}", bad);
        assert!(bad.parse::<f64>().is_err());
    }
}

#[test]
fn sorted_layout_orders_by_name() {
    let layout = read_layout("#position:b:1,1\n#position:B:2,2\n#position:a1:3,3\n#position:a:4,4\n");
    let sorted = aeon_bridge::layout::sorted_layout(&layout);
    let names: Vec<&str> = sorted.entries.iter().map(|e| e.name.as_str()).collect();
    assert_eq!(names, vec!["B", "a", "a1", "b"]);
}

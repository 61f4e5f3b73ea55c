use gallery::pack::pack;
use gallery::pack::ImageEntry;
use gallery::order::is_reserved;
use gallery::order::lex_le_str;
use gallery::order::order_entries;

fn entry(name: &str, width: u32, height: u32) -> ImageEntry {
    ImageEntry { filename: name.to_string(), width, height }
}

#[test]
fn pack_example_scenario() {
    // d, c, b seed columns 0, 1, 2; a joins the most under-loaded column 1.
    let entries = vec![
        entry("d.jpg", 100, 100),
        entry("c.jpg", 50, 100),
        entry("b.jpg", 200, 100),
        entry("a.jpg", 100, 100),
    ];
    let plan = pack(&entries);
    let order: Vec<&str> = plan.order.iter().map(|s| s.as_str()).collect();
    assert_eq!(order, vec!["d.jpg", "c.jpg", "a.jpg", "b.jpg"]);
    assert_eq!(plan.a1, 1);
    assert_eq!(plan.a2, 2);
}

#[test]
fn pack_boundary_arithmetic() {
    let entries = vec![
        entry("e.jpg", 10, 10),
        entry("d.jpg", 20, 10),
        entry("c.jpg", 30, 10),
        entry("b.jpg", 40, 10),
        entry("a.jpg", 50, 10),
    ];
    let plan = pack(&entries);
    assert_eq!(plan.order.len(), entries.len());
    let col2 = plan.order.len() as u32 - plan.a1 - plan.a2;
    assert_eq!(plan.a1 + plan.a2 + col2, entries.len() as u32);
    assert!(plan.a1 >= 1);
    assert!(plan.a2 >= 1);
}

#[test]
fn pack_two_images_seeds_two_columns() {
    let entries = vec![entry("b.jpg", 100, 100), entry("a.jpg", 100, 100)];
    let plan = pack(&entries);
    let order: Vec<&str> = plan.order.iter().map(|s| s.as_str()).collect();
    assert_eq!(order, vec!["b.jpg", "a.jpg"]);
    assert_eq!(plan.a1, 1);
    assert_eq!(plan.a2, 1);
}

#[test]
fn pack_empty_gallery() {
    let entries: Vec<ImageEntry> = Vec::new();
    let plan = pack(&entries);
    assert!(plan.order.is_empty());
    assert_eq!(plan.a1, 0);
    assert_eq!(plan.a2, 0);
}

#[test]
fn pack_partition_is_complete() {
    let entries = vec![
        entry("f.jpg", 300, 100),
        entry("e.jpg", 100, 100),
        entry("d.jpg", 700, 100),
        entry("c.jpg", 50, 100),
        entry("b.jpg", 220, 100),
        entry("a.jpg", 90, 100),
    ];
    let plan = pack(&entries);
    let mut packed: Vec<String> = plan.order.clone();
    packed.sort();
    let mut names: Vec<String> = entries.iter().map(|e| e.filename.clone()).collect();
    names.sort();
    assert_eq!(packed, names);
}

#[test]
fn pack_tie_break_favours_column_two() {
    // Equal accumulated widths everywhere: the fourth image must fall
    // through to column 2.
    let entries = vec![
        entry("d.jpg", 100, 100),
        entry("c.jpg", 100, 100),
        entry("b.jpg", 100, 100),
        entry("a.jpg", 100, 100),
    ];
    let plan = pack(&entries);
    let order: Vec<&str> = plan.order.iter().map(|s| s.as_str()).collect();
    assert_eq!(order, vec!["d.jpg", "c.jpg", "b.jpg", "a.jpg"]);
    assert_eq!(plan.a1, 1);
    assert_eq!(plan.a2, 1);
}

#[test]
fn order_entries_sorts_descending() {
    let names = vec![
        "b.jpg".to_string(),
        "d.jpg".to_string(),
        "a.jpg".to_string(),
        "c.jpg".to_string(),
    ];
    let sorted = order_entries(names);
    let got: Vec<&str> = sorted.iter().map(|s| s.as_str()).collect();
    assert_eq!(got, vec!["d.jpg", "c.jpg", "b.jpg", "a.jpg"]);
}

#[test]
fn order_entries_keeps_duplicates() {
    let names = vec!["a.jpg".to_string(), "b.jpg".to_string(), "a.jpg".to_string()];
    let sorted = order_entries(names);
    let got: Vec<&str> = sorted.iter().map(|s| s.as_str()).collect();
    assert_eq!(got, vec!["b.jpg", "a.jpg", "a.jpg"]);
}

#[test]
fn lex_le_orders_names() {
    assert!(lex_le_str("a.jpg", "b.jpg"));
    assert!(!lex_le_str("b.jpg", "a.jpg"));
    assert!(lex_le_str("a.jpg", "a.jpg"));
    assert!(lex_le_str("a", "a.jpg"));
    assert!(!lex_le_str("a.jpg", "a"));
}

#[test]
fn reserved_assets_are_recognised() {
    assert!(is_reserved("main.css"));
    assert!(is_reserved("each.css"));
    assert!(is_reserved("f.ico"));
    assert!(!is_reserved("a.jpg"));
    assert!(!is_reserved("main.cs"));
    assert!(!is_reserved(""));
}

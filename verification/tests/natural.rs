use koharu::natural::{sort_names, sort_paths};

fn numbered(names: &[&str]) -> Vec<(usize, String)> {
    let mut items = Vec::new();
    for name in names {
        items.push((items.len(), name.to_string()));
    }
    items
}

#[test]
fn sorts_numbers_by_value() {
    let mut items = numbered(&["page-10.png", "page-2.png", "page-02.png", "a", "page-2.png"]);
    sort_names(&mut items);
    let order: Vec<(usize, &str)> = items.iter().map(|(i, name)| (*i, name.as_str())).collect();
    assert_eq!(
        order,
        [
            (3, "a"),
            (1, "page-2.png"),
            (4, "page-2.png"),
            (2, "page-02.png"),
            (0, "page-10.png"),
        ]
    );
}

#[test]
fn leading_numbers_decide() {
    let mut items = numbered(&["0010_a", "9_z", "0009_b", "100", "0_x", "099_y"]);
    sort_names(&mut items);
    let order: Vec<&str> = items.iter().map(|item| item.1.as_str()).collect();
    assert_eq!(order, ["0_x", "0009_b", "9_z", "0010_a", "099_y", "100"]);
}

#[test]
fn sorts_paths_by_value() {
    let mut items = numbered(&["b/10.png", "b/9.png", "a/11.png"]);
    sort_paths(&mut items);
    let order: Vec<usize> = items.iter().map(|item| item.0).collect();
    assert_eq!(order, [2, 1, 0]);
}

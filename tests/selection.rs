use rbr_sync::{filtered_stages, is_chosen, toggle_tag, unique_tags, Stage};

fn stage(id: i32, title: &str, tags: &[&str]) -> Stage {
    Stage { id, title: title.to_string(), tags: tags.iter().map(|t| t.to_string()).collect() }
}

fn strings(v: &[&str]) -> Vec<String> {
    v.iter().map(|s| s.to_string()).collect()
}

#[test]
fn filter_keeps_included_drops_excluded_and_sorts_by_title() {
    let stages = vec![
        stage(1, "Zeta", &["gravel"]),
        stage(2, "Alpha", &["gravel", "night"]),
        stage(3, "Mid", &["tarmac"]),
        stage(4, "Beta", &["gravel"]),
        stage(5, "Alpha", &["gravel"]),
    ];
    let chosen = filtered_stages(&stages, &strings(&["gravel"]), &strings(&["night"]));
    let ids: Vec<i32> = chosen.iter().map(|&i| stages[i].id).collect();
    assert_eq!(ids, vec![5, 4, 1]);
}

#[test]
fn filter_without_included_tags_chooses_nothing() {
    let stages = vec![stage(1, "A", &["gravel"])];
    assert!(filtered_stages(&stages, &vec![], &vec![]).is_empty());
    assert!(!is_chosen(&stages[0], &vec![], &vec![]));
}

#[test]
fn filter_orders_titles_bytewise() {
    let stages = vec![stage(1, "b", &["t"]), stage(2, "B", &["t"]), stage(3, "ab", &["t"]), stage(4, "a", &["t"])];
    let chosen = filtered_stages(&stages, &strings(&["t"]), &vec![]);
    let titles: Vec<&str> = chosen.iter().map(|&i| stages[i].title.as_str()).collect();
    assert_eq!(titles, vec!["B", "a", "ab", "b"]);
}

#[test]
fn toggle_cycles_included_excluded_neutral() {
    let mut included = Vec::new();
    let mut excluded = Vec::new();
    let tag = "gravel".to_string();
    toggle_tag(&mut included, &mut excluded, &tag);
    assert_eq!((included.clone(), excluded.clone()), (strings(&["gravel"]), vec![]));
    toggle_tag(&mut included, &mut excluded, &tag);
    assert_eq!((included.clone(), excluded.clone()), (vec![], strings(&["gravel"])));
    toggle_tag(&mut included, &mut excluded, &tag);
    assert_eq!((included, excluded), (Vec::<String>::new(), Vec::<String>::new()));
}

#[test]
fn unique_tags_are_distinct_and_sorted() {
    let stages = vec![
        stage(1, "A", &["night", "gravel"]),
        stage(2, "B", &["gravel", "Snow", "night"]),
        stage(3, "C", &[]),
    ];
    assert_eq!(unique_tags(&stages), strings(&["Snow", "gravel", "night"]));
    assert!(unique_tags(&vec![]).is_empty());
}

#[test]
fn filter_keeps_equal_titles_in_original_order() {
    let stages = vec![
        stage(1, "Same", &["t"]),
        stage(2, "A", &["t"]),
        stage(3, "Same", &["t"]),
        stage(4, "Same", &["t"]),
    ];
    let chosen = filtered_stages(&stages, &strings(&["t"]), &vec![]);
    assert_eq!(chosen, vec![1, 0, 2, 3]);
}

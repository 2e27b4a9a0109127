use improve_command::counts::{
    format_count_entries, increment_count, merge_counts, render_count_section, top_counts,
    top_entries, CountMap,
};

fn counts(entries: &[(&str, usize)]) -> CountMap {
    let mut map = CountMap::new();
    for (name, count) in entries {
        for _ in 0..*count {
            increment_count(&mut map, name.to_string());
        }
    }
    map
}

fn pairs(entries: &[(&str, usize)]) -> Vec<(String, usize)> {
    entries.iter().map(|(name, count)| (name.to_string(), *count)).collect()
}

#[test]
fn names_are_counted() {
    let map = counts(&[("a", 2), ("b", 1), ("", 3)]);
    assert_eq!(map.len(), 3);
    assert_eq!(map.get("a"), 2);
    assert_eq!(map.get("b"), 1);
    assert_eq!(map.get(""), 3);
    assert_eq!(map.get("c"), 0);
    assert_eq!(CountMap::new().len(), 0);
}

#[test]
fn counting_one_name_changes_no_other() {
    let mut map = counts(&[("a", 2), ("b", 1)]);
    increment_count(&mut map, "b".to_string());
    assert_eq!((map.get("a"), map.get("b")), (2, 2));
}

#[test]
fn counts_are_merged_by_name() {
    let mut target = counts(&[("a", 2), ("b", 1)]);
    merge_counts(&mut target, &counts(&[("b", 4), ("c", 1)]));
    assert_eq!(top_counts(&target, 9), pairs(&[("b", 5), ("a", 2), ("c", 1)]));
}

#[test]
fn merging_does_not_depend_on_the_order() {
    let mut left = counts(&[("a", 2), ("b", 1)]);
    merge_counts(&mut left, &counts(&[("b", 4), ("c", 1)]));
    let mut right = counts(&[("b", 4), ("c", 1)]);
    merge_counts(&mut right, &counts(&[("a", 2), ("b", 1)]));
    assert_eq!(top_counts(&left, 9), top_counts(&right, 9));
    merge_counts(&mut left, &CountMap::new());
    assert_eq!(top_counts(&left, 9), top_counts(&right, 9));
}

#[test]
fn top_counts_go_by_count_and_then_by_name() {
    let map = counts(&[("pear", 2), ("fig", 5), ("apple", 2), ("Zebra", 2), ("nut", 1)]);
    assert_eq!(
        top_counts(&map, 4),
        pairs(&[("fig", 5), ("Zebra", 2), ("apple", 2), ("pear", 2)])
    );
    assert_eq!(top_counts(&map, 0), pairs(&[]));
    assert_eq!(top_counts(&map, 100).len(), 5);
    assert_eq!(top_counts(&CountMap::new(), 3), pairs(&[]));
}

#[test]
fn what_is_left_out_ranks_below_what_is_shown() {
    let map = counts(&[("a", 1), ("b", 7), ("c", 3), ("d", 3), ("e", 2), ("f", 7)]);
    let all = top_counts(&map, usize::MAX);
    for limit in 0..=6usize {
        assert_eq!(top_counts(&map, limit), all[..limit].to_vec());
    }
}

#[test]
fn entries_are_ranked_as_given() {
    let entries = pairs(&[("b", 1), ("a", 1), ("c", 0)]);
    assert_eq!(top_entries(&entries, 2), pairs(&[("a", 1), ("b", 1)]));
}

#[test]
fn entries_are_formatted_on_one_line() {
    assert_eq!(format_count_entries(pairs(&[("rg", 12), ("cargo test", 3)])), "rg x12, cargo test x3");
    assert_eq!(format_count_entries(pairs(&[("rg", 1)])), "rg x1");
    assert_eq!(format_count_entries(pairs(&[])), "");
}

#[test]
fn sections_list_entries_or_say_that_there_are_none() {
    assert_eq!(
        render_count_section(&pairs(&[("rg", 12), ("ls", 0)])),
        vec!["- rg: 12".to_string(), "- ls: 0".to_string()]
    );
    assert_eq!(
        render_count_section(&[]),
        vec!["- None recorded in the sampled sessions.".to_string()]
    );
}

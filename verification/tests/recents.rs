use improve_command::recent::{
    collect_recent_sessions, fetch_limit, listing_error, PathComponent, RolloutPath, ThreadItem,
    DEFAULT_IMPROVE_SESSION_LIMIT,
};

fn path(text: &str) -> RolloutPath {
    let mut components = vec![PathComponent { rank: 6, name: Vec::new() }];
    for name in text.split('/').filter(|name| !name.is_empty()) {
        components.push(PathComponent { rank: 9, name: name.as_bytes().to_vec() });
    }
    RolloutPath { components }
}

fn thread(at: &str, created_at: Option<&str>) -> ThreadItem {
    ThreadItem {
        path: path(at),
        created_at: created_at.map(|time| time.to_string()),
        first_user_message: None,
        cwd: None,
    }
}

fn titled(at: &str, created_at: &str, title: &str) -> ThreadItem {
    let mut item = thread(at, Some(created_at));
    item.first_user_message = Some(title.to_string());
    item
}

#[test]
fn the_newest_sessions_of_both_listings_come_first() {
    let found = collect_recent_sessions(
        vec![thread("/s/b", Some("2026-03-11")), thread("/s/a", Some("2026-03-09"))],
        vec![thread("/x/c", Some("2026-03-10")), thread("/x/d", Some("2026-03-12"))],
        None,
        3,
    );
    assert_eq!(
        found,
        vec![
            thread("/x/d", Some("2026-03-12")),
            thread("/s/b", Some("2026-03-11")),
            thread("/x/c", Some("2026-03-10")),
        ]
    );
}

#[test]
fn the_current_session_is_left_out() {
    let current = path("/s/b");
    let found = collect_recent_sessions(
        vec![thread("/s/b", Some("2")), thread("/s/a", Some("1"))],
        vec![thread("/s/b", Some("3"))],
        Some(&current),
        DEFAULT_IMPROVE_SESSION_LIMIT,
    );
    assert_eq!(found, vec![thread("/s/a", Some("1"))]);
}

#[test]
fn a_path_that_is_listed_twice_is_kept_as_listed_first() {
    let found = collect_recent_sessions(
        vec![titled("/s/a", "1", "first"), titled("/s/a", "5", "second")],
        vec![titled("/s/a", "9", "third"), titled("/s/b", "2", "other")],
        None,
        10,
    );
    assert_eq!(found, vec![titled("/s/b", "2", "other"), titled("/s/a", "1", "first")]);
}

#[test]
fn sessions_of_one_time_go_by_descending_path() {
    let found = collect_recent_sessions(
        vec![
            thread("/s/a", Some("1")),
            thread("/s/a/b", Some("1")),
            thread("/s/b", Some("1")),
            thread("/s/a.b", Some("1")),
        ],
        vec![],
        None,
        10,
    );
    let order: Vec<ThreadItem> = ["/s/b", "/s/a.b", "/s/a/b", "/s/a"]
        .iter()
        .map(|at| thread(at, Some("1")))
        .collect();
    assert_eq!(found, order);
}

#[test]
fn sessions_of_unknown_time_come_last() {
    let found = collect_recent_sessions(
        vec![thread("/s/z", None), thread("/s/a", Some(""))],
        vec![thread("/s/y", None)],
        None,
        10,
    );
    assert_eq!(found, vec![thread("/s/a", Some("")), thread("/s/z", None), thread("/s/y", None)]);
}

#[test]
fn no_more_sessions_come_than_asked_for() {
    let page: Vec<ThreadItem> =
        (0..9).map(|i| thread(&format!("/s/{}", i), Some(&format!("t{}", i)))).collect();
    for limit in 0..12usize {
        let found = collect_recent_sessions(page.clone(), vec![], None, limit);
        assert_eq!(found.len(), limit.min(9));
        for (i, item) in found.iter().enumerate() {
            assert_eq!(item, &page[8 - i]);
        }
    }
    assert_eq!(collect_recent_sessions(vec![], vec![], None, 5), vec![]);
}

#[test]
fn enough_sessions_are_fetched() {
    assert_eq!(fetch_limit(0), 1);
    assert_eq!(fetch_limit(1), 2);
    assert_eq!(fetch_limit(2), 4);
    assert_eq!(fetch_limit(DEFAULT_IMPROVE_SESSION_LIMIT), 100);
    assert_eq!(fetch_limit(usize::MAX / 2), usize::MAX - 1);
    assert_eq!(fetch_limit(usize::MAX / 2 + 1), usize::MAX);
    assert_eq!(fetch_limit(usize::MAX), usize::MAX);
}

#[test]
fn a_failed_listing_is_named() {
    assert_eq!(listing_error(false, "disk gone"), "failed to list recent sessions: disk gone");
    assert_eq!(listing_error(true, ""), "failed to list archived sessions: ");
}

#[test]
fn paths_are_compared_by_components() {
    assert!(path("/s/a").same_as(&path("/s//a")));
    assert!(!path("/s/a").same_as(&path("/s/b")));
    assert!(!path("/s/a").same_as(&path("/s")));
    assert!(path("/s").precedes(&path("/s/a")));
    assert!(path("/s/a/b").precedes(&path("/s/a.b")));
    assert!(!path("/s/a").precedes(&path("/s/a")));
    let here = RolloutPath { components: vec![PathComponent { rank: 7, name: Vec::new() }] };
    assert!(path("/z").precedes(&here));
    assert!(!here.precedes(&path("/z")));
}

#[test]
fn paths_are_ordered_like_std_paths() {
    let texts = ["/", "/a", "/a/b", "/ab", "/a.b", "/b", "/é/x", "/a/b/c", "/B"];
    for a in texts {
        for b in texts {
            let (left, right) = (std::path::Path::new(a), std::path::Path::new(b));
            assert_eq!(path(a).precedes(&path(b)), left < right, "{} {}", a, b);
            assert_eq!(path(a).same_as(&path(b)), left == right);
        }
    }
}

#[test]
fn what_is_listed_of_the_current_session_makes_no_difference() {
    let current = path("/s/now");
    let others = vec![thread("/s/a", Some("1")), thread("/s/b", Some("3"))];
    let mut listed = others.clone();
    listed.insert(1, thread("/s/now", Some("9")));
    for limit in 0..4usize {
        assert_eq!(
            collect_recent_sessions(listed.clone(), listed.clone(), Some(&current), limit),
            collect_recent_sessions(others.clone(), vec![], Some(&current), limit)
        );
    }
}

#[test]
fn the_order_of_the_listings_makes_no_difference() {
    let first = vec![thread("/s/a", Some("1")), thread("/s/b", Some("3"))];
    let second = vec![thread("/x/c", Some("2")), thread("/x/d", None)];
    for limit in 0..5usize {
        assert_eq!(
            collect_recent_sessions(first.clone(), second.clone(), None, limit),
            collect_recent_sessions(second.clone(), first.clone(), None, limit)
        );
    }
}

#[test]
fn the_newest_of_each_listing_are_enough() {
    let first: Vec<ThreadItem> = (0..9)
        .map(|i| thread(&format!("/s/{}", i), Some(&format!("t{:02}", 40 - 2 * i))))
        .collect();
    let second: Vec<ThreadItem> = (0..9)
        .map(|i| thread(&format!("/x/{}", i), Some(&format!("t{:02}", 39 - 2 * i))))
        .collect();
    let current = path("/s/0");
    for limit in 0..9usize {
        let fetched = fetch_limit(limit).min(9);
        assert_eq!(
            collect_recent_sessions(
                first[..fetched].to_vec(),
                second[..fetched].to_vec(),
                Some(&current),
                limit
            ),
            collect_recent_sessions(first.clone(), second.clone(), Some(&current), limit)
        );
    }
}

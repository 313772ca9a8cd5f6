use dscvr::duplicates::group_duplicates;
use dscvr::metadata_store::MetaRow;
use dscvr::scanning::{split_vec_into_chunks, ShouldBeVisited};

fn row(path: &str, hash: &str, size: u64) -> MetaRow {
    MetaRow {
        path: path.to_string(),
        hash: hash.to_string(),
        size,
    }
}

#[test]
fn test_groups_carry_exact_fields_in_size_order() {
    let rows = vec![
        row("/a/1", "bbbb", 10),
        row("/a/2", "aaaa", 5),
        row("/a/3", "bbbb", 20),
        row("/a/4", "aaaa", 5),
        row("/a/5", "aaaa", 5),
        row("/a/6", "cccc", 99),
    ];
    let groups = group_duplicates(&rows, 0);
    // "cccc" has a single row and never forms a group.
    assert_eq!(groups.len(), 2);

    assert_eq!(groups[0].hash, "bbbb");
    assert_eq!(groups[0].duplicates, 2);
    assert_eq!(groups[0].aggregated_size, 30);
    assert_eq!(groups[0].paths, vec!["/a/1".to_string(), "/a/3".to_string()]);

    assert_eq!(groups[1].hash, "aaaa");
    assert_eq!(groups[1].duplicates, 3);
    assert_eq!(groups[1].aggregated_size, 15);
    assert_eq!(
        groups[1].paths,
        vec!["/a/2".to_string(), "/a/4".to_string(), "/a/5".to_string()]
    );
}

#[test]
fn test_size_ties_break_by_hash() {
    let rows = vec![
        row("/a/1", "beta", 8),
        row("/a/2", "beta", 8),
        row("/a/3", "alfa", 8),
        row("/a/4", "alfa", 8),
    ];
    let groups = group_duplicates(&rows, 0);
    assert_eq!(groups.len(), 2);
    assert_eq!(groups[0].hash, "alfa");
    assert_eq!(groups[1].hash, "beta");
}

#[test]
fn test_no_group_smaller_than_two() {
    let rows = vec![row("/a/1", "solo", 1), row("/a/2", "duo", 2), row("/a/3", "duo", 3)];
    let groups = group_duplicates(&rows, 0);
    assert_eq!(groups.len(), 1);
    assert!(groups.iter().all(|g| g.duplicates >= 2));
    assert!(groups.iter().all(|g| g.duplicates as usize == g.paths.len()));
}

#[test]
fn test_aggregated_size_saturates() {
    let rows = vec![row("/a/1", "huge", u64::MAX), row("/a/2", "huge", 5)];
    let groups = group_duplicates(&rows, 0);
    assert_eq!(groups.len(), 1);
    assert_eq!(groups[0].aggregated_size, u64::MAX);
}

#[test]
fn test_pagination_windows_of_five_hundred() {
    // 502 duplicate groups with equal sizes: the order is by hash.
    let mut rows = Vec::new();
    for i in 0..502u32 {
        let hash = format!("h{:04}", i);
        rows.push(row(&format!("/a/{}-left", i), &hash, 7));
        rows.push(row(&format!("/a/{}-right", i), &hash, 7));
    }
    let page0 = group_duplicates(&rows, 0);
    assert_eq!(page0.len(), 500);
    assert_eq!(page0[0].hash, "h0000");
    assert_eq!(page0[499].hash, "h0499");

    let page1 = group_duplicates(&rows, 1);
    assert_eq!(page1.len(), 2);
    assert_eq!(page1[0].hash, "h0500");
    assert_eq!(page1[1].hash, "h0501");

    assert!(group_duplicates(&rows, 2).is_empty());
}

#[test]
fn test_default_visit_filter() {
    let filter = ShouldBeVisited::default();
    assert!(!filter.should_be_visited("/home/user/project/node_modules"));
    assert!(!filter.should_be_visited("/home/user/.cache"));
    assert!(!filter.should_be_visited("/var/cache"));
    assert!(filter.should_be_visited("/home/user/project/src"));
    assert!(filter.should_be_visited("/home/user/notes.txt"));
}

#[test]
fn test_custom_visit_filter() {
    let filter = ShouldBeVisited::new(vec!["target".to_string()]);
    assert!(!filter.should_be_visited("/repo/target"));
    assert!(filter.should_be_visited("/repo/node_modules"));
    // A path with an empty final component is never visited.
    assert!(!filter.should_be_visited("/repo/"));
}

#[test]
fn test_chunking_preserves_every_path_in_order() {
    let paths: Vec<String> = (0..10).map(|i| format!("/p/{}", i)).collect();
    let chunks = split_vec_into_chunks(paths.clone(), 3);
    assert_eq!(chunks.len(), 4);
    assert_eq!(chunks[0].len(), 3);
    assert_eq!(chunks[3].len(), 1);
    let flattened: Vec<String> = chunks.into_iter().flatten().collect();
    assert_eq!(flattened, paths);
}

#[test]
fn test_chunking_keeps_small_input_whole() {
    let paths: Vec<String> = vec!["/p/a".to_string(), "/p/b".to_string()];
    let chunks = split_vec_into_chunks(paths.clone(), 8);
    assert_eq!(chunks.len(), 1);
    assert_eq!(chunks[0], paths);
}

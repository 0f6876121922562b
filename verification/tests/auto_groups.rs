use realraw::task::autogroup::{auto_group, lex_order};
use realraw::task::manager::TaskManager;
use realraw::task::task::Task;

#[test]
fn string_order_matches_std() {
    let words = ["", "a", "ab", "b", "B", "é", "Sidecar", "Build proxy"];
    for x in words {
        for y in words {
            let xa: Vec<char> = x.chars().collect();
            let ya: Vec<char> = y.chars().collect();
            let o = lex_order(&xa, &ya);
            let expected = match x.cmp(y) {
                std::cmp::Ordering::Less => -1,
                std::cmp::Ordering::Equal => 0,
                std::cmp::Ordering::Greater => 1,
            };
            assert_eq!(o.signum(), expected, "{x:?} vs {y:?}");
        }
    }
}

#[test]
fn ungrouped_tasks_bucket_by_prefix_in_order() {
    let mut mgr = TaskManager::new();
    let g = mgr.add_group("g", None);
    mgr.add_task(Task::new("Sidecar::verify 0", ""));
    mgr.add_task(Task::new("Build proxy::video 0", ""));
    mgr.add_task(Task::new("plain", ""));
    mgr.add_task(Task::new("Sidecar::verify 1", ""));
    mgr.add_task(Task::new("Sidecar::grouped", "").group(g));
    mgr.add_task(Task::new("dir/file", ""));
    assert!(mgr.complete(4));
    let grouping = auto_group(mgr.tasks_in_order());
    let heads: Vec<&str> = grouping.buckets.iter().map(|b| b.prefix.as_str()).collect();
    assert_eq!(heads, vec!["Build proxy", "Sidecar", "dir"]);
    assert_eq!(grouping.buckets[0].members, vec![1]);
    assert_eq!(grouping.buckets[1].members, vec![0, 3]);
    assert_eq!(grouping.buckets[1].completed, 1);
    assert_eq!(grouping.buckets[2].members, vec![5]);
    assert_eq!(grouping.loose, vec![2]);
}

#[test]
fn no_tasks_no_buckets() {
    let grouping = auto_group(&[]);
    assert!(grouping.buckets.is_empty());
    assert!(grouping.loose.is_empty());
}

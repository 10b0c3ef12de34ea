use std::str::FromStr;

use hoover3::status_tree::{count_get, same_status, status_of_group, StatusTreeWalk, TREE_NODE_LIMIT};
use hoover3::tasks::UiWorkflowStatusCode;

#[test]
fn status_names_parse_back() {
    let all = [
        UiWorkflowStatusCode::Running,
        UiWorkflowStatusCode::Completed,
        UiWorkflowStatusCode::Failed,
        UiWorkflowStatusCode::Canceled,
        UiWorkflowStatusCode::Terminated,
        UiWorkflowStatusCode::ContinuedAsNew,
        UiWorkflowStatusCode::TimedOut,
    ];
    for c in all {
        assert_eq!(UiWorkflowStatusCode::from_str(&c.name()), Ok(c));
    }
    assert!(UiWorkflowStatusCode::from_str("Unspecified").is_err());
    assert!(UiWorkflowStatusCode::from_str("running").is_err());
    assert!(UiWorkflowStatusCode::from_name("").is_err());
}

#[test]
fn status_display_is_quoted_name() {
    assert_eq!(UiWorkflowStatusCode::Running.to_display_string(), "\"Running\"");
    assert_eq!(UiWorkflowStatusCode::Unspecified.to_display_string(), "\"Unspecified\"");
    assert_eq!(UiWorkflowStatusCode::ContinuedAsNew.name(), "ContinuedAsNew");
}

#[test]
fn group_names_that_are_no_status_count_as_unspecified() {
    assert_eq!(status_of_group("Failed"), UiWorkflowStatusCode::Failed);
    assert_eq!(status_of_group("Nope"), UiWorkflowStatusCode::Unspecified);
    assert!(same_status(UiWorkflowStatusCode::TimedOut, UiWorkflowStatusCode::TimedOut));
    assert!(!same_status(UiWorkflowStatusCode::TimedOut, UiWorkflowStatusCode::Running));
}

#[test]
fn count_get_takes_the_last_entry() {
    let totals = vec![
        (UiWorkflowStatusCode::Running, 1),
        (UiWorkflowStatusCode::Completed, 4),
        (UiWorkflowStatusCode::Running, 7),
    ];
    assert_eq!(count_get(&totals, UiWorkflowStatusCode::Running), 7);
    assert_eq!(count_get(&totals, UiWorkflowStatusCode::Completed), 4);
    assert_eq!(count_get(&totals, UiWorkflowStatusCode::Failed), 0);
}

#[test]
fn status_tree_walk_expands_smallest_ids_first() {
    let mut walk = StatusTreeWalk::new("root".to_string(), UiWorkflowStatusCode::Running);
    assert_eq!(walk.next_parent(), Some("root".to_string()));
    walk.record_children(
        "root".to_string(),
        vec![
            ("c_b".to_string(), UiWorkflowStatusCode::Completed),
            ("c_a".to_string(), UiWorkflowStatusCode::Running),
        ],
        vec![("Completed".to_string(), 1), ("Running".to_string(), 1)],
    );
    assert_eq!(walk.next_parent(), Some("c_a".to_string()));
    walk.record_children("c_a".to_string(), vec![], vec![("Bogus".to_string(), 3)]);
    assert_eq!(walk.next_parent(), Some("c_b".to_string()));
    assert_eq!(walk.next_parent(), None);
    assert_eq!(walk.expanded_count(), 3);
    let tree = walk.finish();
    assert_eq!(tree.root_workflow_id, "root");
    assert_eq!(tree.nodes.len(), 3);
    assert_eq!(tree.parent, vec![("c_b".to_string(), "root".to_string()), ("c_a".to_string(), "root".to_string())]);
    assert_eq!(tree.children[0], ("root".to_string(), vec!["c_b".to_string(), "c_a".to_string()]));
    assert_eq!(tree.children[1], ("c_a".to_string(), vec![]));
    assert_eq!(tree.counts[2].1, vec![(UiWorkflowStatusCode::Unspecified, 3)]);
    // root counted once, each child once, each group count once more
    assert_eq!(count_get(&tree.total_counts, UiWorkflowStatusCode::Running), 3);
    assert_eq!(count_get(&tree.total_counts, UiWorkflowStatusCode::Completed), 2);
    assert_eq!(count_get(&tree.total_counts, UiWorkflowStatusCode::Unspecified), 3);
}

#[test]
fn status_tree_walk_stops_at_the_node_limit() {
    let mut walk = StatusTreeWalk::new("w00".to_string(), UiWorkflowStatusCode::Running);
    let mut children = Vec::new();
    for i in 1..40 {
        children.push((format!("w{:02}", i), UiWorkflowStatusCode::Running));
    }
    let first = walk.next_parent();
    assert_eq!(first, Some("w00".to_string()));
    walk.record_children("w00".to_string(), children, vec![]);
    let mut expanded = 1;
    while let Some(_) = walk.next_parent() {
        expanded += 1;
    }
    assert_eq!(expanded, TREE_NODE_LIMIT);
    assert_eq!(walk.expanded_count(), TREE_NODE_LIMIT);
}

#[test]
fn walk_tree_keeps_its_shape() {
    let mut walk = StatusTreeWalk::new("root".to_string(), UiWorkflowStatusCode::Running);
    let p = walk.next_parent().unwrap();
    walk.record_children(
        p,
        vec![("kid1".to_string(), UiWorkflowStatusCode::Completed), ("kid2".to_string(), UiWorkflowStatusCode::Failed)],
        vec![],
    );
    let p = walk.next_parent().unwrap();
    walk.record_children(p, vec![("grandkid".to_string(), UiWorkflowStatusCode::Running)], vec![]);
    let tree = walk.finish();
    assert_eq!(tree.root_workflow_id, "root");
    for (child, parent) in &tree.parent {
        assert!(tree.nodes.iter().any(|(n, _)| n == child));
        let kids = &tree.children.iter().rev().find(|(p, _)| p == parent).unwrap().1;
        assert!(kids.contains(child));
    }
    assert_eq!(tree.children.len(), 2);
}

#[test]
fn walk_of_a_true_tree_gives_the_root_no_parent() {
    let mut walk = StatusTreeWalk::new("r".to_string(), UiWorkflowStatusCode::Running);
    let p = walk.next_parent().unwrap();
    walk.record_children(p, vec![("k".to_string(), UiWorkflowStatusCode::Completed)], vec![]);
    let tree = walk.finish();
    assert!(!tree.parent.iter().any(|(c, _)| c == "r"));
    assert_eq!(tree.children[0].1, vec!["k".to_string()]);
}

use rfdb::graph::traversal::{bfs, dfs};
use std::collections::HashMap;

#[test]
fn test_bfs_simple_graph() {
    // Graph: 1 -> 2 -> 3
    //        1 -> 4
    let edges: HashMap<u128, Vec<u128>> = [
        (1, vec![2, 4]),
        (2, vec![3]),
        (3, vec![]),
        (4, vec![]),
    ]
    .iter()
    .cloned()
    .collect();

    let result = bfs(&[1], 10, |id| {
        edges.get(&id).cloned().unwrap_or_default()
    });

    assert_eq!(result.len(), 4);
    assert!(result.contains(&1));
    assert!(result.contains(&2));
    assert!(result.contains(&3));
    assert!(result.contains(&4));
}

#[test]
fn test_bfs_max_depth() {
    // Graph: 1 -> 2 -> 3 -> 4
    let edges: HashMap<u128, Vec<u128>> = [
        (1, vec![2]),
        (2, vec![3]),
        (3, vec![4]),
        (4, vec![]),
    ]
    .iter()
    .cloned()
    .collect();

    let result = bfs(&[1], 2, |id| {
        edges.get(&id).cloned().unwrap_or_default()
    });

    // depth 2 reaches 1, 2, 3
    assert_eq!(result.len(), 3);
    assert!(!result.contains(&4));
}

#[test]
fn bfs_depth_zero_gives_the_start() {
    let result = bfs(&[7], 0, |id| vec![id + 1]);
    assert_eq!(result, vec![7]);
}

#[test]
fn bfs_is_in_order_of_first_discovery() {
    // 1 -> 3, 2; 3 -> 4; 2 -> 4, 1
    let next = |id: u128| match id {
        1 => vec![3, 2],
        3 => vec![4],
        2 => vec![4, 1],
        _ => vec![],
    };
    assert_eq!(bfs(&[1], 10, next), vec![1, 3, 2, 4]);
    assert_eq!(bfs(&[1], 1, next), vec![1, 3, 2]);
    assert_eq!(bfs(&[1, 1, 4], 0, next), vec![1, 4]);
}

#[test]
fn dfs_visits_each_node_once() {
    let next = |id: u128| match id {
        1 => vec![2, 3],
        2 => vec![4],
        3 => vec![4],
        4 => vec![1],
        _ => vec![],
    };
    // the last neighbour is on top of the stack
    assert_eq!(dfs(&[1], 10, next), vec![1, 3, 4, 2]);
    assert_eq!(dfs(&[1], 0, next), vec![1]);
    assert_eq!(dfs(&[1], 1, next), vec![1, 3, 2]);
}

#[test]
fn dfs_visits_every_node_within_the_depth() {
    // 1 -> 2 -> 3 -> 4 and 1 -> 3: node 4 lies two steps from 1, by way of 3
    let next = |id: u128| match id {
        1 => vec![3, 2],
        2 => vec![3],
        3 => vec![4],
        _ => vec![],
    };
    assert_eq!(bfs(&[1], 2, next), vec![1, 3, 2, 4]);
    // the walk comes to 3 first by way of 2, and still goes on to 4
    assert_eq!(dfs(&[1], 2, next), vec![1, 2, 3, 4]);

    // 1 -> 2, 3; 3 -> 2; 2 -> 4
    let next = |id: u128| match id {
        1 => vec![2, 3],
        3 => vec![2],
        2 => vec![4],
        _ => vec![],
    };
    let found = dfs(&[1], 2, next);
    assert_eq!(found.len(), 4);
    let mut sorted = found.clone();
    sorted.sort();
    assert_eq!(sorted, vec![1, 2, 3, 4]);
    let mut wide = bfs(&[1], 2, next);
    wide.sort();
    assert_eq!(sorted, wide);
}

#[test]
fn dfs_stops_at_the_depth() {
    // 1 -> 2 -> 3 -> 4
    let next = |id: u128| match id {
        1 => vec![2],
        2 => vec![3],
        3 => vec![4],
        _ => vec![],
    };
    assert_eq!(dfs(&[1], 2, next), vec![1, 2, 3]);
    assert_eq!(dfs(&[1], 3, next), vec![1, 2, 3, 4]);
    assert_eq!(dfs(&[4, 1], 1, next), vec![1, 2, 4]);
}

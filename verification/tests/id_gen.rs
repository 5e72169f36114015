use rfdb::graph::{compute_node_id, compute_stable_id, string_id_to_u128};

#[test]
fn test_deterministic_id() {
    let id1 = compute_node_id("FUNCTION", "getUserById", "MODULE:users.js", "src/api/users.js");
    let id2 = compute_node_id("FUNCTION", "getUserById", "MODULE:users.js", "src/api/users.js");
    assert_eq!(id1, id2);
}

#[test]
fn test_different_names_different_ids() {
    let id1 = compute_node_id("FUNCTION", "getUserById", "MODULE:users.js", "src/api/users.js");
    let id2 = compute_node_id("FUNCTION", "getOrderById", "MODULE:users.js", "src/api/users.js");
    assert_ne!(id1, id2);
}

#[test]
fn test_different_types_different_ids() {
    let id1 = compute_node_id("FUNCTION", "handler", "MODULE:api.js", "src/api.js");
    let id2 = compute_node_id("http:route", "handler", "MODULE:api.js", "src/api.js");
    assert_ne!(id1, id2);
}

#[test]
fn test_stable_id_function() {
    let stable = compute_stable_id("FUNCTION", "getUserById", "src/api/users.js");
    assert_eq!(stable, "FUNCTION#getUserById#src/api/users.js");
}

#[test]
fn test_stable_id_with_namespace() {
    let stable = compute_stable_id("http:route", "/api/users", "src/routes.js");
    assert_eq!(stable, "http:route#src/routes.js#/api/users#??");
}

#[test]
fn test_string_id_to_u128() {
    let id1 = string_id_to_u128("SERVICE:my-service");
    let id2 = string_id_to_u128("SERVICE:my-service");
    assert_eq!(id1, id2);

    let id3 = string_id_to_u128("SERVICE:other-service");
    assert_ne!(id1, id3);
}

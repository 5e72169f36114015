use rfdb::datalog::{Bindings, Value};

#[test]
fn test_bindings_empty() {
    let bindings = Bindings::new();
    assert!(bindings.is_empty());
    assert_eq!(bindings.get("X"), None);
}

#[test]
fn test_bindings_set_get() {
    let mut bindings = Bindings::new();
    bindings.set("X", Value::Id(123));
    assert_eq!(bindings.get("X"), Some(&Value::Id(123)));
}

#[test]
fn test_bindings_extend() {
    let mut b1 = Bindings::new();
    b1.set("X", Value::Id(1));

    let mut b2 = Bindings::new();
    b2.set("Y", Value::Id(2));

    let merged = b1.extend(&b2);
    assert!(merged.is_some());
    let merged = merged.unwrap();
    assert_eq!(merged.get("X"), Some(&Value::Id(1)));
    assert_eq!(merged.get("Y"), Some(&Value::Id(2)));
}

#[test]
fn test_bindings_conflict() {
    let mut b1 = Bindings::new();
    b1.set("X", Value::Id(1));

    let mut b2 = Bindings::new();
    b2.set("X", Value::Id(2)); // conflict!

    let merged = b1.extend(&b2);
    assert!(merged.is_none());
}

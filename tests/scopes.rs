use syntax_lab::scope::{ScopeError, Scopes};

#[test]
fn shadowing_keeps_only_the_latest() {
    let mut s = Scopes::new();
    s.declare("z", 100, false);
    assert_eq!(s.get("z"), Some(100));
    s.declare("z", 99, false);
    assert_eq!(s.get("z"), Some(99));
    s.enter();
    s.declare("z", 888, false);
    assert_eq!(s.get("z"), Some(888));
    assert!(s.exit());
    assert_eq!(s.get("z"), Some(99));
}

#[test]
fn frozen_in_inner_scope() {
    let mut s = Scopes::new();
    s.declare("m", 7, true);
    s.enter();
    s.declare("m", 7, false);
    assert_eq!(s.assign("m", 50), Err(ScopeError::Immutable));
    assert_eq!(s.get("m"), Some(7));
    assert!(s.exit());
    assert_eq!(s.assign("m", 3), Ok(()));
    assert_eq!(s.get("m"), Some(3));
}

#[test]
fn mutable_binding_changes() {
    let mut s = Scopes::new();
    s.declare("y", 6, true);
    assert_eq!(s.assign("y", 100), Ok(()));
    assert_eq!(s.get("y"), Some(100));
    s.declare("x", 5, false);
    assert_eq!(s.assign("x", 6), Err(ScopeError::Immutable));
    assert_eq!(s.get("x"), Some(5));
}

#[test]
fn unbound_and_outermost() {
    let mut s = Scopes::new();
    assert_eq!(s.get("q"), None);
    assert_eq!(s.assign("q", 1), Err(ScopeError::Unbound));
    assert!(!s.exit());
    assert_eq!(s.depth(), 0);
    s.enter();
    s.declare("q", 1, true);
    assert_eq!(s.depth(), 1);
    assert!(s.exit());
    assert_eq!(s.get("q"), None);
}

use crush_core::data::Cell;
use crush_core::errors::Error;
use crush_core::scope::ScopeArena;

fn num(n: i64) -> Cell {
    Cell::Numeric(n)
}

fn name(s: &str) -> String {
    String::from(s)
}

#[test]
fn declare_then_lookup_resolves_locally() {
    let mut arena = ScopeArena::new();
    let root = arena.create_root();
    arena.declare(root, name("x"), num(1));
    assert_eq!(arena.lookup(root, &name("x")), Ok(num(1)));
}

#[test]
fn declare_overwrites_the_local_binding() {
    let mut arena = ScopeArena::new();
    let root = arena.create_root();
    arena.declare(root, name("x"), num(1));
    arena.declare(root, name("x"), num(2));
    assert_eq!(arena.lookup(root, &name("x")), Ok(num(2)));
}

#[test]
fn lookup_falls_through_to_the_parent() {
    let mut arena = ScopeArena::new();
    let root = arena.create_root();
    arena.declare(root, name("x"), num(1));
    let child = arena.create_child(root);
    assert_eq!(arena.lookup(child, &name("x")), Ok(num(1)));
}

#[test]
fn lookup_resolves_dynamically_not_at_child_creation() {
    let mut arena = ScopeArena::new();
    let root = arena.create_root();
    let child = arena.create_child(root);
    arena.declare(root, name("x"), num(9));
    assert_eq!(arena.lookup(child, &name("x")), Ok(num(9)));
}

#[test]
fn scope_isolation_child_writes_never_reach_parent_or_siblings() {
    let mut arena = ScopeArena::new();
    let p = arena.create_root();
    arena.declare(p, name("x"), num(1));
    let c = arena.create_child(p);
    assert_eq!(arena.lookup(c, &name("x")), Ok(num(1)));
    arena.declare(c, name("x"), num(2));
    assert_eq!(arena.lookup(c, &name("x")), Ok(num(2)));
    assert_eq!(arena.lookup(p, &name("x")), Ok(num(1)));
    let sibling = arena.create_child(p);
    assert_eq!(arena.lookup(sibling, &name("x")), Ok(num(1)));
}

#[test]
fn unresolved_lookup_fails_with_name_error() {
    let mut arena = ScopeArena::new();
    let root = arena.create_root();
    let child = arena.create_child(root);
    assert_eq!(arena.lookup(child, &name("missing")), Err(Error::NameError));
}

#[test]
fn lookup_of_a_live_stream_binding_fails_with_clone_error() {
    let mut arena = ScopeArena::new();
    let root = arena.create_root();
    let stream = Cell::Stream(crush_core::stream::empty_channel());
    arena.declare(root, name("s"), stream);
    assert_eq!(arena.lookup(root, &name("s")), Err(Error::CloneError));
}

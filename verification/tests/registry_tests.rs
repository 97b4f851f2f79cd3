use zero_ecs::scripts::{ScriptRegistry, ScriptTagRegistry};
use zero_ecs::tag::TagRegistry;

#[test]
fn tag_registry_assigns_consecutive_ids_from_zero() {
    let mut r = TagRegistry::new();
    let a = r.intern("player");
    let b = r.intern("enemy");
    assert_eq!(a, 0);
    assert_eq!(b, 1);
    // Interning again is stable.
    assert_eq!(r.intern("player"), 0);
    assert_eq!(r.get_or_create("enemy"), 1);
    assert_eq!(r.get_or_create("scenery"), 2);
}

#[test]
fn tag_registry_lookup_does_not_intern() {
    let mut r = TagRegistry::new();
    assert_eq!(r.lookup("ghost"), None);
    let id = r.intern("ghost");
    assert_eq!(r.lookup("ghost"), Some(id));
    assert_eq!(r.lookup("other"), None);
}

#[test]
fn script_tag_registry_starts_at_one() {
    let mut r = ScriptTagRegistry::new();
    assert_eq!(r.get_or_create("a.wasm"), 1);
    assert_eq!(r.get_or_create("b.wasm"), 2);
    assert_eq!(r.get_or_create("a.wasm"), 1);
}

#[test]
fn script_registry_resolves_interned_paths() {
    let mut r = ScriptRegistry::new();
    let a = r.get_or_create("scripts/mover.wasm");
    let b = r.get_or_create("scripts/spinner.wasm");
    assert_ne!(a, b);
    assert_eq!(r.resolve(a).unwrap(), "scripts/mover.wasm");
    assert_eq!(r.resolve(b).unwrap(), "scripts/spinner.wasm");
    assert!(r.resolve(99).is_none());
    assert!(r.resolve(0).is_none());
}

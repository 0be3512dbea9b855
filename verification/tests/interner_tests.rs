//! String interner behaviour: equal contents share one storage entry.

use nara::interner::StringInterner;

#[test]
fn test_intern_same_string() {
    let mut interner = StringInterner::new();
    let s1 = interner.intern("hello");
    let s2 = interner.intern("hello");

    assert_eq!(s1, s2);
    // handles are indices into the shared pool: equality is identity
    assert!(s1 == s2);
}

#[test]
fn test_intern_different_strings() {
    let mut interner = StringInterner::new();
    let s1 = interner.intern("hello");
    let s2 = interner.intern("world");

    assert_ne!(s1, s2);
    assert!(s1 != s2);
}

#[test]
fn test_interner_len() {
    let mut interner = StringInterner::new();
    assert_eq!(interner.len(), 0);

    interner.intern("hello");
    assert_eq!(interner.len(), 1);

    interner.intern("hello");
    assert_eq!(interner.len(), 1);

    interner.intern("world");
    assert_eq!(interner.len(), 2);
}

#[test]
fn test_interner_is_empty() {
    let mut interner = StringInterner::new();
    assert!(interner.is_empty());
    interner.intern("x");
    assert!(!interner.is_empty());
}

#[test]
fn test_interner_get_returns_content() {
    let mut interner = StringInterner::new();
    let id = interner.intern("hello");
    assert_eq!(interner.get(id), "hello".to_string());
}

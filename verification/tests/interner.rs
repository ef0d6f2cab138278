use textparse::interner::{Id, Interner};

#[test]
fn correct_access() {
    let mut interner = Interner::new();

    let a = interner.insert("a");
    let b = interner.insert("b");

    assert_eq!(interner.resolve(a), "a");
    assert_eq!(interner.resolve(b), "b");
}

#[test]
fn correct_access_unchecked() {
    let mut interner = Interner::new();

    let a = interner.insert("a");
    let b = interner.insert("b");

    assert_eq!(interner.resolve_unchecked(a), "a");
    assert_eq!(interner.resolve_unchecked(b), "b");
}

#[test]
fn correct_len() {
    let mut interner = Interner::new();

    let _a = interner.insert("a");
    let _b = interner.insert("b");

    assert_eq!(interner.len(), 2);
    assert!(!interner.is_empty());
}

#[test]
fn correct_is_empty() {
    let interner = Interner::new();

    assert!(interner.is_empty());
}

#[test]
fn double_insert() {
    let mut interner = Interner::new();

    let a = interner.insert("hello");
    let b = interner.insert("hello");

    assert_eq!(a, b);

    assert_eq!(interner.len(), 1);

    assert_eq!(interner.resolve(a), "hello");
    assert_eq!(interner.resolve(b), "hello");
}

#[test]
fn correct_reference_behaviour() {
    let mut interner = Interner::new();

    let mut string = String::from("hello");

    let a = interner.insert(&string);

    string.clear();

    assert_eq!(interner.resolve(a), "hello");
}

#[test]
fn ids_are_dense_and_stable() {
    let mut interner = Interner::default();
    assert_eq!(interner.len(), 0);
    let words = ["delta", "alpha", "", "delta", "beta", "alpha", "\u{1F389}"];
    let ids: Vec<Id> = words.iter().map(|w| interner.insert(w)).collect();
    assert_eq!(ids[0], Id::from_usize(0));
    assert_eq!(ids[1], Id::from_usize(1));
    assert_eq!(ids[2], Id::from_usize(2));
    assert_eq!(ids[3], ids[0]);
    assert_eq!(ids[4], Id::from_usize(3));
    assert_eq!(ids[5], ids[1]);
    assert_eq!(ids[6], Id::from_usize(4));
    assert_eq!(interner.len(), 5);
    for (word, id) in words.iter().zip(ids.iter()) {
        assert_eq!(interner.resolve(*id), *word);
    }
    assert_ne!(ids[0], ids[1]);
}

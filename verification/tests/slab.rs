use bark::slab::Slab;

#[test]
fn slab_gives_back_what_was_put_in() {
    let mut slab = Slab::new();
    let a = slab.insert("a");
    let b = slab.insert("b");
    assert_ne!(a, b);
    assert_eq!(*slab.get(a), "a");
    *slab.get_mut(b) = "c";
    assert_eq!(*slab.get(b), "c");
    assert_eq!(*slab.get(a), "a");
    assert_eq!(slab.remove(a), "a");
    assert_eq!(*slab.get(b), "c");
}

#[test]
fn slab_uses_freed_keys_again() {
    let mut slab = Slab::new();
    let a = slab.insert(1);
    let b = slab.insert(2);
    assert_eq!(slab.remove(a), 1);
    let c = slab.insert(3);
    assert_eq!(c, a);
    assert_eq!(*slab.get(b), 2);
    assert_eq!(*slab.get(c), 3);
}

#[test]
fn slab_does_not_grow_while_keys_are_free() {
    let mut slab = Slab::new();
    let first = slab.insert(0);
    let second = slab.insert(0);
    for i in 1..1000 {
        assert_eq!(slab.remove(first), i - 1);
        assert_eq!(slab.insert(i), first);
    }
    let third = slab.insert(0);
    assert!(third != first && third != second);
}

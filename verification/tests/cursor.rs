use toyvec::{Iter, ToyVec};

fn drain<'vec, T>(mut it: Iter<'vec, T>) -> Vec<&'vec T> {
    let mut out = Vec::new();
    while let Some(e) = it.next() {
        out.push(e);
    }
    out
}

#[test]
fn iter_yields_what_is_left_in_push_order() {
    let mut v = ToyVec::new();
    v.push('a');
    v.push('b');
    v.push('c');
    assert_eq!(v.pop(), Some('c'));
    let mut it = v.iter();
    assert_eq!(it.next(), Some(&'a'));
    assert_eq!(it.next(), Some(&'b'));
    assert_eq!(it.next(), None);
}

#[test]
fn exhausted_iter_stays_exhausted() {
    let mut v = ToyVec::new();
    v.push(1u8);
    let mut it = v.iter();
    assert_eq!(it.next(), Some(&1));
    for _ in 0..5 {
        assert_eq!(it.next(), None);
    }
}

#[test]
fn iter_over_empty_yields_nothing() {
    let v: ToyVec<u64> = ToyVec::new();
    assert_eq!(v.iter().next(), None);
    let w: ToyVec<u64> = ToyVec::with_capacity(4);
    let mut it = w.iter();
    assert_eq!(it.next(), None);
    assert_eq!(it.next(), None);
}

#[test]
fn iter_skips_spare_slots() {
    let mut v: ToyVec<i32> = ToyVec::with_capacity(10);
    v.push(-1);
    v.push(-2);
    assert_eq!(drain(v.iter()), vec![&-1, &-2]);
}

#[test]
fn iter_follows_elements_through_growth() {
    let mut v: ToyVec<usize> = ToyVec::new();
    for i in 0..37 {
        v.push(i);
    }
    let seen = drain(v.iter());
    assert_eq!(seen.len(), 37);
    for (i, e) in seen.iter().enumerate() {
        assert_eq!(**e, i);
    }
}

#[test]
fn iter_can_be_made_again() {
    let mut v = ToyVec::new();
    v.push("Hello, ");
    v.push("World!\n");
    assert_eq!(drain(v.iter()), vec![&"Hello, ", &"World!\n"]);
    assert_eq!(drain(v.iter()), vec![&"Hello, ", &"World!\n"]);
}

#[test]
fn two_cursors_advance_independently() {
    let mut v = ToyVec::new();
    v.push(1u64);
    v.push(2u64);
    let mut first = v.iter();
    let mut second = v.iter();
    assert_eq!(first.next(), Some(&1));
    assert_eq!(first.next(), Some(&2));
    assert_eq!(second.next(), Some(&1));
    assert_eq!(first.next(), None);
    assert_eq!(second.next(), Some(&2));
    assert_eq!(second.next(), None);
}

#[test]
fn sequence_can_change_once_the_cursor_is_gone() {
    let mut v = ToyVec::new();
    v.push("Java Finch".to_string());
    v.push("Budgeringer".to_string());
    {
        let mut it = v.iter();
        assert_eq!(it.next(), Some(&"Java Finch".to_string()));
    }
    v.push("Canary".to_string());
    assert_eq!(v.len(), 3);
    let names: Vec<&String> = drain(v.iter());
    assert_eq!(names, vec!["Java Finch", "Budgeringer", "Canary"]);
}

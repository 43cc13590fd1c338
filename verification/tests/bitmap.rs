use a6_tools::bitmap::BoolArray;

#[test]
fn new() {
    let a = BoolArray::new(11);

    assert_eq!(a.len(), 11);
}

#[test]
fn get() {
    let a = BoolArray::new(11);

    for i in 0..a.len() {
        assert_eq!(a.get(i), false);
    }
}

#[test]
fn set() {
    let mut a = BoolArray::new(11);

    a.set(7);

    for i in 0..a.len() {
        assert_eq!(a.get(i), i == 7);
    }
}

#[test]
fn clear() {
    let mut a = BoolArray::new(11);

    a.set(7);
    a.set(8);
    a.clear(7);

    for i in 0..a.len() {
        assert_eq!(a.get(i), i == 8);
    }
}

#[test]
fn first_false_none() {
    let mut a = BoolArray::new(123);

    for i in 0..123 {
        a.set(i);
    }

    let i = a.first_false();

    assert_eq!(i, None);
}

#[test]
fn first_false_some() {
    let mut a = BoolArray::new(123);

    for i in 0..123 {
        a.set(i);
    }

    a.clear(67);
    a.clear(99);

    let i = a.first_false();

    assert_eq!(i, Some(67));
}

#[test]
fn first_false_empty_array() {
    let a = BoolArray::new(0);

    assert_eq!(a.first_false(), None);
}

#[test]
fn first_false_across_word_boundary() {
    let mut a = BoolArray::new(130);

    for i in 0..128 {
        a.set(i);
    }

    assert_eq!(a.first_false(), Some(128));

    a.set(128);
    a.set(129);

    assert_eq!(a.first_false(), None);
}

#[test]
fn set_returns_previous() {
    let mut a = BoolArray::new(9);

    assert_eq!(a.set(3), false);
    assert_eq!(a.set(3), true);
    assert_eq!(a.clear(3), true);
    assert_eq!(a.clear(3), false);
}

use veclist::VecList;

#[test]
fn test_push() {
    let mut veclist = VecList::new();

    for i in 0..10 {
        veclist.push(i);
    }

    for i in 0..10 {
        assert_eq!(veclist.get(i), Some(&i));
    }
}

#[test]
fn test_pop() {
    let mut veclist = VecList::new();

    for i in 0..10 {
        veclist.push(i);
    }

    for i in 0..5 {
        assert_eq!(veclist.pop(i), Some(i));
    }

    for i in 0..5 {
        assert_eq!(veclist.get(i), None);
    }

    for i in 6..10 {
        assert_eq!(veclist[i], i);
    }
}

#[test]
fn test_reuse() {
    let mut veclist = VecList::new();

    for i in 0..10 {
        veclist.push(i);
    }

    for i in 0..5 {
        assert_eq!(veclist.pop(i), Some(i));
    }

    for i in 0..5 {
        veclist.push(i + 10);
    }

    for i in 0..5 {
        // reused in LIFO manner
        assert_eq!(veclist[i], 14 - i);
    }
}

use veclist::VecList;

#[test]
fn new_is_empty() {
    let list: VecList<u32> = VecList::new();
    assert_eq!(list.upper_bound(), 0);
    assert_eq!(list.get(0), None);
}

#[test]
fn default_is_empty() {
    let list: VecList<u32> = VecList::default();
    assert_eq!(list.upper_bound(), 0);
    assert_eq!(list.get(0), None);
}

#[test]
fn with_capacity_is_empty_and_assigns_from_zero() {
    let mut list: VecList<&str> = VecList::with_capacity(16);
    assert_eq!(list.upper_bound(), 0);
    assert_eq!(list.get(0), None);
    assert_eq!(list.push("a"), 0);
    assert_eq!(list.push("b"), 1);
    assert_eq!(list.upper_bound(), 2);
}

#[test]
fn push_returns_consecutive_indices() {
    let mut list = VecList::new();
    for i in 0..100usize {
        assert_eq!(list.push(i * 3), i);
        assert_eq!(list.upper_bound(), i + 1);
    }
    for i in 0..100usize {
        assert_eq!(list.get(i), Some(&(i * 3)));
    }
    assert_eq!(list.get(100), None);
}

#[test]
fn pop_returns_the_value_and_vacates_the_slot() {
    let mut list = VecList::new();
    list.push('a');
    list.push('b');
    list.push('c');
    assert_eq!(list.pop(1), Some('b'));
    assert_eq!(list.get(1), None);
    assert_eq!(list.get(0), Some(&'a'));
    assert_eq!(list.get(2), Some(&'c'));
    assert_eq!(list.upper_bound(), 3);
}

#[test]
fn pop_twice_returns_none_the_second_time() {
    let mut list = VecList::new();
    list.push(1u8);
    list.push(2u8);
    assert_eq!(list.pop(0), Some(1));
    assert_eq!(list.pop(0), None);
    assert_eq!(list.upper_bound(), 2);
    assert_eq!(list.get(1), Some(&2));
    // the free list was not disturbed by the second pop
    assert_eq!(list.push(3), 0);
    assert_eq!(list.push(4), 2);
}

#[test]
fn pop_one_past_the_end_returns_none() {
    let mut list = VecList::new();
    list.push(7i64);
    list.push(8i64);
    assert_eq!(list.pop(2), None);
    assert_eq!(list.upper_bound(), 2);
    assert_eq!(list.get(0), Some(&7));
    assert_eq!(list.get(1), Some(&8));
    assert_eq!(list.push(9), 2);
}

#[test]
fn pop_on_empty_returns_none() {
    let mut list: VecList<u32> = VecList::new();
    assert_eq!(list.pop(0), None);
    assert_eq!(list.upper_bound(), 0);
    assert_eq!(list.push(5), 0);
}

#[test]
fn pop_far_out_of_bounds_returns_none() {
    let mut list = VecList::new();
    list.push(1u32);
    assert_eq!(list.pop(usize::MAX), None);
    assert_eq!(list.pop(1000), None);
    assert_eq!(list.get(0), Some(&1));
    assert_eq!(list.upper_bound(), 1);
}

#[test]
fn get_out_of_bounds_returns_none() {
    let mut list = VecList::new();
    list.push(1u32);
    assert_eq!(list.get(1), None);
    assert_eq!(list.get(usize::MAX), None);
    assert_eq!(list.get_mut(1), None);
    assert_eq!(list.get_mut(usize::MAX), None);
}

#[test]
fn get_mut_overwrites_in_place() {
    let mut list = VecList::new();
    list.push(10u32);
    list.push(20u32);
    if let Some(value) = list.get_mut(1) {
        *value += 5;
    }
    assert_eq!(list.get(1), Some(&25));
    assert_eq!(list.get(0), Some(&10));
    assert_eq!(list.upper_bound(), 2);
}

#[test]
fn get_mut_on_vacant_slot_returns_none() {
    let mut list = VecList::new();
    list.push(10u32);
    list.push(20u32);
    assert_eq!(list.pop(0), Some(10));
    assert_eq!(list.get_mut(0), None);
    // the vacant slot is still the next one to be reused
    assert_eq!(list.push(30), 0);
}

#[test]
fn index_reads_and_index_mut_writes() {
    let mut list = VecList::new();
    list.push(String::from("a"));
    list.push(String::from("b"));
    assert_eq!(list[0], "a");
    list[1].push('!');
    assert_eq!(list[1], "b!");
    list[0] = String::from("z");
    assert_eq!(list.get(0), Some(&String::from("z")));
}

#[test]
fn last_vacated_slot_is_reused_first() {
    let mut list = VecList::new();
    for i in 0..6u32 {
        list.push(i);
    }
    assert_eq!(list.pop(4), Some(4));
    assert_eq!(list.pop(1), Some(1));
    assert_eq!(list.pop(3), Some(3));
    assert_eq!(list.push(100), 3);
    assert_eq!(list.push(101), 1);
    assert_eq!(list.push(102), 4);
    assert_eq!(list.push(103), 6);
    assert_eq!(list.get(3), Some(&100));
    assert_eq!(list.get(1), Some(&101));
    assert_eq!(list.get(4), Some(&102));
    assert_eq!(list.get(6), Some(&103));
    assert_eq!(list.upper_bound(), 7);
}

#[test]
fn ascending_removals_are_refilled_descending() {
    let mut list = VecList::new();
    for i in 0..8usize {
        list.push(i);
    }
    let count: usize = 5;
    for i in 0..count {
        assert_eq!(list.pop(i), Some(i));
    }
    for j in 0..count {
        assert_eq!(list.push(100 + j), count - 1 - j);
    }
    for j in 0..count {
        assert_eq!(list.get(count - 1 - j), Some(&(100 + j)));
    }
    assert_eq!(list.upper_bound(), 8);
}

#[test]
fn interleaved_removals_and_insertions() {
    let mut list = VecList::new();
    assert_eq!(list.push(1u32), 0);
    assert_eq!(list.push(2u32), 1);
    assert_eq!(list.pop(0), Some(1));
    assert_eq!(list.push(3u32), 0);
    assert_eq!(list.pop(1), Some(2));
    assert_eq!(list.pop(0), Some(3));
    assert_eq!(list.push(4u32), 0);
    assert_eq!(list.push(5u32), 1);
    assert_eq!(list.push(6u32), 2);
    assert_eq!(list.get(0), Some(&4));
    assert_eq!(list.get(1), Some(&5));
    assert_eq!(list.get(2), Some(&6));
}

#[test]
fn slot_stays_vacant_until_reused() {
    let mut list = VecList::new();
    for i in 0..4u32 {
        list.push(i);
    }
    assert_eq!(list.pop(1), Some(1));
    assert_eq!(list.pop(3), Some(3));
    assert_eq!(list.get(1), None);
    // the next insertion goes to slot 3, slot 1 stays vacant
    assert_eq!(list.push(30), 3);
    assert_eq!(list.get(1), None);
    assert_eq!(list.pop(2), Some(2));
    assert_eq!(list.get(1), None);
    assert_eq!(list.push(20), 2);
    assert_eq!(list.get(1), None);
    assert_eq!(list.push(10), 1);
    assert_eq!(list.get(1), Some(&10));
}

#[test]
fn upper_bound_never_decreases() {
    let mut list = VecList::new();
    let mut bound = list.upper_bound();
    for i in 0..20usize {
        list.push(i);
        assert!(list.upper_bound() >= bound);
        bound = list.upper_bound();
    }
    for i in 0..25usize {
        list.pop(i);
        assert!(list.upper_bound() >= bound);
        bound = list.upper_bound();
    }
    assert_eq!(bound, 20);
    for i in 0..30usize {
        list.push(i);
        assert!(list.upper_bound() >= bound);
        bound = list.upper_bound();
    }
    assert_eq!(bound, 30);
}

#[test]
fn removed_and_reinserted_scenario() {
    let mut list = VecList::new();
    for i in 0..10usize {
        assert_eq!(list.push(i), i);
    }
    for i in 0..10usize {
        assert_eq!(list.get(i), Some(&i));
    }
    for i in 0..5usize {
        assert_eq!(list.pop(i), Some(i));
    }
    for i in 0..5usize {
        assert_eq!(list.get(i), None);
    }
    for i in 5..10usize {
        assert_eq!(list.get(i), Some(&i));
    }
    for value in 10..15usize {
        list.push(value);
    }
    assert_eq!(list.get(4), Some(&10));
    assert_eq!(list.get(3), Some(&11));
    assert_eq!(list.get(2), Some(&12));
    assert_eq!(list.get(1), Some(&13));
    assert_eq!(list.get(0), Some(&14));
    assert_eq!(list.upper_bound(), 10);
}

#[test]
fn clone_is_independent() {
    let mut list = VecList::new();
    list.push(1u32);
    list.push(2u32);
    list.pop(0);
    let mut copy = list.clone();
    assert_eq!(copy.push(9), 0);
    assert_eq!(list.get(0), None);
    assert_eq!(copy.get(0), Some(&9));
    assert_eq!(copy.get(1), Some(&2));
}

#[test]
fn debug_output_names_the_type() {
    let list: VecList<u32> = VecList::new();
    assert!(format!("{:?}", list).contains("VecList"));
}

use bounded_graph::graph::{option_less_than, AddEdgeError, Neighbors};
use std::cmp::Ordering;

fn slots3(a: Option<u32>, b: Option<u32>, c: Option<u32>) -> Neighbors<u32, 3> {
    Neighbors::from(&[a, b, c])
}

#[test]
fn comparator_puts_occupied_before_empty() {
    assert_eq!(option_less_than(&Some(7u32), &None), Ordering::Less);
    assert_eq!(option_less_than(&Some(u32::MAX), &None), Ordering::Less);
}

#[test]
fn comparator_puts_empty_after_occupied() {
    assert_eq!(option_less_than(&None, &Some(7u32)), Ordering::Greater);
    assert_eq!(option_less_than(&None, &Some(0u32)), Ordering::Greater);
}

#[test]
fn comparator_holds_two_empty_slots_equal() {
    assert_eq!(option_less_than::<u32>(&None, &None), Ordering::Equal);
}

#[test]
fn comparator_orders_occupied_slots_by_identifier() {
    assert_eq!(option_less_than(&Some(2u32), &Some(3u32)), Ordering::Less);
    assert_eq!(option_less_than(&Some(3u32), &Some(3u32)), Ordering::Equal);
    assert_eq!(option_less_than(&Some(4u32), &Some(3u32)), Ordering::Greater);
    assert_eq!(option_less_than(&Some(-1i8), &Some(0i8)), Ordering::Less);
}

#[test]
fn from_identifiers_fills_the_first_slots() {
    let n = Neighbors::<u32, 3>::from_identifiers(&[4, 9]);
    assert_eq!(n, slots3(Some(4), Some(9), None));
}

#[test]
fn from_identifiers_of_nothing_is_empty() {
    let n = Neighbors::<u32, 3>::from_identifiers(&[]);
    assert_eq!(n, slots3(None, None, None));
}

#[test]
fn from_identifiers_may_fill_every_slot() {
    let n = Neighbors::<u32, 3>::from_identifiers(&[1, 2, 3]);
    assert_eq!(n, slots3(Some(1), Some(2), Some(3)));
}

#[test]
fn from_identifiers_copies_without_sorting() {
    let n = Neighbors::<u32, 3>::from_identifiers(&[9, 4]);
    assert_eq!(n, slots3(Some(9), Some(4), None));
    assert_ne!(n, slots3(Some(4), Some(9), None));
}

#[test]
fn from_slots_counts_up_to_the_first_empty_slot() {
    // Two sets with the same slots differ if they count differently, so the
    // set made from the slots must count one identifier, as the set made from
    // one identifier does.
    assert_eq!(slots3(Some(5), None, None), Neighbors::<u32, 3>::from_identifiers(&[5]));
    assert_ne!(slots3(Some(5), None, None), Neighbors::<u32, 3>::from_identifiers(&[]));
    assert_eq!(slots3(None, None, None), Neighbors::<u32, 3>::from_identifiers(&[]));
}

#[test]
fn from_slots_stops_counting_at_a_gap() {
    let n = slots3(Some(1), None, Some(9));
    assert_eq!(format!("{:?}", n), "Neighbors([Some(1), None, Some(9)], 1)");
    let n = slots3(None, Some(1), Some(9));
    assert_eq!(format!("{:?}", n), "Neighbors([None, Some(1), Some(9)], 0)");
}

#[test]
fn from_slots_without_an_empty_slot_is_full() {
    let mut n = slots3(Some(1), Some(2), Some(3));
    assert_eq!(n.append(4), Err(AddEdgeError::Overflow));
}

#[test]
fn append_to_an_empty_set() {
    let mut n = Neighbors::<u32, 3>::from_identifiers(&[]);
    assert_eq!(n.append(8), Ok(()));
    assert_eq!(n, slots3(Some(8), None, None));
}

#[test]
fn append_in_front() {
    let mut n = Neighbors::<u32, 3>::from_identifiers(&[5, 7]);
    assert_eq!(n.append(1), Ok(()));
    assert_eq!(n, slots3(Some(1), Some(5), Some(7)));
}

#[test]
fn append_in_the_middle() {
    let mut n = Neighbors::<u32, 3>::from_identifiers(&[5, 7]);
    assert_eq!(n.append(6), Ok(()));
    assert_eq!(n, slots3(Some(5), Some(6), Some(7)));
}

#[test]
fn append_at_the_end() {
    let mut n = Neighbors::<u32, 3>::from_identifiers(&[5, 7]);
    assert_eq!(n.append(9), Ok(()));
    assert_eq!(n, slots3(Some(5), Some(7), Some(9)));
}

#[test]
fn append_takes_the_least_and_the_greatest_value() {
    let mut n = Neighbors::<u8, 3>::from_identifiers(&[100]);
    assert_eq!(n.append(u8::MAX), Ok(()));
    assert_eq!(n.append(u8::MIN), Ok(()));
    assert_eq!(n, Neighbors::from(&[Some(0u8), Some(100), Some(255)]));
}

#[test]
fn append_refuses_what_is_there() {
    let mut n = Neighbors::<u32, 3>::from_identifiers(&[5, 7]);
    assert_eq!(n.append(5), Err(AddEdgeError::Exists));
    assert_eq!(n.append(7), Err(AddEdgeError::Exists));
    assert_eq!(n, slots3(Some(5), Some(7), None));
}

#[test]
fn append_refuses_when_full() {
    let mut n = Neighbors::<u32, 3>::from_identifiers(&[5, 7, 9]);
    assert_eq!(n.append(6), Err(AddEdgeError::Overflow));
    assert_eq!(n, slots3(Some(5), Some(7), Some(9)));
}

#[test]
fn a_full_set_overflows_before_it_finds_a_duplicate() {
    let mut n = Neighbors::<u32, 3>::from_identifiers(&[5, 7, 9]);
    assert_eq!(n.append(7), Err(AddEdgeError::Overflow));
}

#[test]
fn a_set_without_room_refuses_everything() {
    let mut n = Neighbors::<u32, 0>::from_identifiers(&[]);
    assert_eq!(n.append(1), Err(AddEdgeError::Overflow));
    assert_eq!(n, Neighbors::from(&[]));
}

#[test]
fn a_set_with_one_slot() {
    let mut n = Neighbors::<u32, 1>::from_identifiers(&[]);
    assert_eq!(n.append(3), Ok(()));
    assert_eq!(n, Neighbors::from(&[Some(3)]));
    assert_eq!(n.append(3), Err(AddEdgeError::Overflow));
    assert_eq!(n.append(4), Err(AddEdgeError::Overflow));
}

#[test]
fn appends_in_any_order_end_up_sorted() {
    let mut n = Neighbors::<i32, 8>::from_identifiers(&[]);
    for x in [40, -3, 17, 0, 99, -50, 8, 23] {
        assert_eq!(n.append(x), Ok(()));
    }
    assert_eq!(
        n,
        Neighbors::from(&[
            Some(-50),
            Some(-3),
            Some(0),
            Some(8),
            Some(17),
            Some(23),
            Some(40),
            Some(99)
        ])
    );
}

#[test]
fn every_identifier_of_a_long_set_is_found() {
    let mut n = Neighbors::<u32, 16>::from_identifiers(&[]);
    for x in 0..15u32 {
        assert_eq!(n.append(x * 2), Ok(()));
    }
    for x in 0..15u32 {
        assert_eq!(n.append(x * 2), Err(AddEdgeError::Exists));
    }
    assert_eq!(n.append(7), Ok(()));
    assert_eq!(n.append(9), Err(AddEdgeError::Overflow));
}

#[test]
fn identifiers_may_be_pairs() {
    let mut n = Neighbors::<(u8, u8), 4>::from_identifiers(&[(1, 5)]);
    assert_eq!(n.append((1, 2)), Ok(()));
    assert_eq!(n.append((0, 9)), Ok(()));
    assert_eq!(n.append((1, 5)), Err(AddEdgeError::Exists));
    assert_eq!(n, Neighbors::from(&[Some((0, 9)), Some((1, 2)), Some((1, 5)), None]));
}

#[test]
fn a_clone_is_equal_and_apart() {
    let mut n = Neighbors::<u32, 3>::from_identifiers(&[5]);
    let m = n.clone();
    assert_eq!(m, n);
    assert_eq!(n.append(6), Ok(()));
    assert_eq!(m, slots3(Some(5), None, None));
    assert_eq!(n, slots3(Some(5), Some(6), None));
}

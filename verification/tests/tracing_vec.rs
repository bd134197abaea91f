use eru::model::tracing_vec::{IndexError, TimedIndex, TimelessIndex, TracingIndex, TracingVec};

fn slot(pos: usize) -> TracingIndex {
    TracingIndex::Timeless(TimelessIndex::from_raw_parts(pos))
}

fn timed(pos: usize, pseudotime: usize) -> TracingIndex {
    TracingIndex::Timed(TimedIndex::from_raw_parts(pos, pseudotime))
}

fn values(v: &TracingVec<&'static str>) -> Vec<&'static str> {
    v.latest().into_iter().copied().collect()
}

fn abc() -> TracingVec<&'static str> {
    TracingVec::from_vec(vec!["a", "b", "c"])
}

#[test]
fn new_vector_is_empty_and_valid() {
    let v: TracingVec<u8> = TracingVec::new();
    assert!(v.is_valid());
    assert!(v.is_empty());
    assert_eq!(v.len(), 0);
    assert_eq!(v.try_first_index(), None);
    assert_eq!(v.try_last_index(), None);
    assert_eq!(v.first_index(), TimedIndex::from_raw_parts(0, 0));
}

#[test]
fn push_appends_without_a_new_snapshot() {
    let mut v: TracingVec<u32> = TracingVec::new();
    v.push(7);
    v.push(9);
    assert_eq!(v.len(), 2);
    assert_eq!(v.first_index(), TimedIndex::from_raw_parts(0, 0));
    assert_eq!(v.last_index(), TimedIndex::from_raw_parts(1, 0));
    assert_eq!(v.get(timed(0, 0)), Ok(&7));
    assert_eq!(v.get(slot(1)), Ok(&9));
}

#[test]
fn from_vec_keeps_the_order() {
    let v = abc();
    assert_eq!(values(&v), vec!["a", "b", "c"]);
    assert_eq!(v.oldest(), vec![&"a", &"b", &"c"]);
    assert_eq!(
        v.timeless_indices(),
        vec![
            TimelessIndex::from_raw_parts(0),
            TimelessIndex::from_raw_parts(1),
            TimelessIndex::from_raw_parts(2)
        ]
    );
    assert_eq!(
        v.indices(),
        vec![
            TimedIndex::from_raw_parts(0, 0),
            TimedIndex::from_raw_parts(1, 0),
            TimedIndex::from_raw_parts(2, 0)
        ]
    );
}

#[test]
fn insert_before_starts_a_snapshot() {
    let mut v = abc();
    let at = v.try_insert_before(slot(1), "x");
    assert_eq!(at, Ok(TimedIndex::from_raw_parts(1, 1)));
    assert_eq!(values(&v), vec!["a", "x", "b", "c"]);
    assert_eq!(v.oldest(), vec![&"a", &"b", &"c"]);
    assert_eq!(v.into_timeless(timed(1, 1)), Ok(TimelessIndex::from_raw_parts(3)));
}

#[test]
fn insert_after_starts_a_snapshot() {
    let mut v = abc();
    let at = v.try_insert_after(timed(2, 0), "x");
    assert_eq!(at, Ok(TimedIndex::from_raw_parts(3, 1)));
    assert_eq!(values(&v), vec!["a", "b", "c", "x"]);
    let at = v.insert_after(slot(0), "y");
    assert_eq!(at, TimedIndex::from_raw_parts(1, 2));
    assert_eq!(values(&v), vec!["a", "y", "b", "c", "x"]);
    let at = v.insert_before(slot(0), "z");
    assert_eq!(at, TimedIndex::from_raw_parts(0, 3));
    assert_eq!(values(&v), vec!["z", "a", "y", "b", "c", "x"]);
}

#[test]
fn remove_keeps_the_value_in_the_store() {
    let mut v = abc();
    let gone = v.try_remove(timed(1, 0));
    assert_eq!(gone, Ok(TimelessIndex::from_raw_parts(1)));
    assert_eq!(values(&v), vec!["a", "c"]);
    assert_eq!(v.get(slot(1)), Ok(&"b"));
    assert_eq!(v.get(timed(1, 0)), Ok(&"b"));
    assert_eq!(v.get(timed(1, 1)), Ok(&"c"));
    assert!(v.contains(slot(1)));
    assert!(!v.is_alive(slot(1)));
    assert!(v.is_alive(slot(2)));
    assert_eq!(v.remove(slot(0)), TimelessIndex::from_raw_parts(0));
    assert_eq!(values(&v), vec!["c"]);
}

#[test]
fn pop_takes_the_last_value() {
    let mut v = abc();
    assert_eq!(v.pop(), Some(TimelessIndex::from_raw_parts(2)));
    assert_eq!(values(&v), vec!["a", "b"]);
    assert_eq!(v.first_index(), TimedIndex::from_raw_parts(0, 1));
    let mut empty: TracingVec<u8> = TracingVec::new();
    assert_eq!(empty.pop(), None);
    assert_eq!(empty.first_index(), TimedIndex::from_raw_parts(0, 1));
}

#[test]
fn index_out_of_bounds_is_reported() {
    let v = abc();
    assert_eq!(
        v.into_timeless(timed(3, 0)),
        Err(IndexError::IndexOutOfBounds(TimedIndex::from_raw_parts(3, 0)))
    );
    assert_eq!(
        v.get(timed(7, 0)),
        Err(IndexError::IndexOutOfBounds(TimedIndex::from_raw_parts(7, 0)))
    );
}

#[test]
fn unknown_version_is_reported() {
    let mut v = abc();
    assert_eq!(
        v.into_timeless(timed(0, 1)),
        Err(IndexError::VersionDoesNotExist(TimedIndex::from_raw_parts(0, 1)))
    );
    assert_eq!(
        v.try_insert_before(timed(0, 4), "x"),
        Err(IndexError::VersionDoesNotExist(TimedIndex::from_raw_parts(0, 4)))
    );
    assert_eq!(values(&v), vec!["a", "b", "c"]);
}

#[test]
fn missing_slot_is_reported() {
    let mut v = abc();
    assert_eq!(
        v.get(slot(3)),
        Err(IndexError::DataDoesNotExist(TimelessIndex::from_raw_parts(3)))
    );
    assert_eq!(
        v.try_remove(slot(9)),
        Err(IndexError::DataDoesNotExist(TimelessIndex::from_raw_parts(9)))
    );
    assert!(!v.contains(slot(3)));
    assert!(!v.is_alive(slot(3)));
    assert_eq!(v.get_mut(slot(3)).err(), Some(IndexError::DataDoesNotExist(TimelessIndex::from_raw_parts(3))));
}

#[test]
fn dead_slot_is_reported() {
    let mut v = abc();
    v.remove(slot(1));
    let dead = IndexError::DataAlreadyDead(TimelessIndex::from_raw_parts(1));
    assert_eq!(v.try_remove(slot(1)), Err(dead));
    assert_eq!(v.try_insert_after(slot(1), "x"), Err(dead));
    assert_eq!(v.try_insert_before(timed(1, 0), "x"), Err(dead));
    assert_eq!(v.into_timed(slot(1)), Err(dead));
    assert_eq!(v.is_before(slot(1), slot(0)), Err(dead));
    assert_eq!(values(&v), vec!["a", "c"]);
    assert_eq!(v.first_index(), TimedIndex::from_raw_parts(0, 1));
}

#[test]
fn empty_splice_is_reported() {
    let mut v = abc();
    assert_eq!(v.try_replace(vec![], "x"), Err(IndexError::NoIndicesProvided));
    assert_eq!(
        v.try_replace_with(vec![], |_| "x"),
        Err(IndexError::NoIndicesProvided)
    );
    assert_eq!(values(&v), vec!["a", "b", "c"]);
    assert_eq!(v.first_index(), TimedIndex::from_raw_parts(0, 0));
}

#[test]
fn get_mut_changes_the_value_in_place() {
    let mut v = abc();
    *v.get_mut(slot(1)).unwrap() = "B";
    assert_eq!(values(&v), vec!["a", "B", "c"]);
    assert_eq!(v.first_index(), TimedIndex::from_raw_parts(0, 0));
    *v.slot_mut(0) = "A";
    assert_eq!(v.slot(0), &"A");
    assert_eq!(v.store_len(), 3);
}

#[test]
fn is_before_compares_the_places_in_the_latest_snapshot() {
    let mut v = abc();
    assert_eq!(v.is_before(slot(0), slot(2)), Ok(true));
    assert_eq!(v.is_before(slot(2), slot(0)), Ok(false));
    assert_eq!(v.is_before(slot(1), slot(1)), Ok(false));
    v.insert_before(slot(0), "x");
    assert_eq!(v.is_before(slot(3), slot(0)), Ok(true));
    assert_eq!(v.is_before(timed(0, 0), timed(0, 1)), Ok(false));
    assert_eq!(v.indices_eq(timed(0, 0), timed(1, 1)), Ok(true));
    assert_eq!(v.indices_eq(timed(0, 0), timed(0, 1)), Ok(false));
    assert_eq!(
        v.is_before(slot(0), slot(8)),
        Err(IndexError::DataDoesNotExist(TimelessIndex::from_raw_parts(8)))
    );
}

#[test]
fn into_timed_resolves_against_the_latest_snapshot() {
    let mut v = abc();
    v.insert_before(slot(0), "x");
    assert_eq!(v.into_timed(slot(0)), Ok(TimedIndex::from_raw_parts(1, 1)));
    assert_eq!(v.into_timed(timed(0, 0)), Ok(TimedIndex::from_raw_parts(1, 1)));
    assert_eq!(v.into_timed(slot(3)), Ok(TimedIndex::from_raw_parts(0, 1)));
}

#[test]
fn iterating_pairs_values_with_indices() {
    let mut v = abc();
    v.remove(slot(0));
    assert_eq!(
        v.iter_indices(),
        vec![(TimedIndex::from_raw_parts(0, 1), &"b"), (TimedIndex::from_raw_parts(1, 1), &"c")]
    );
    assert_eq!(
        v.iter_timeless_indices(),
        vec![(TimelessIndex::from_raw_parts(1), &"b"), (TimelessIndex::from_raw_parts(2), &"c")]
    );
    assert_eq!(v.iter(), vec![&"b", &"c"]);
}

#[test]
fn snapshot_stability() {
    let mut v = abc();
    let first = v.try_insert_after(slot(0), "x").unwrap();
    assert_eq!(v.get(TracingIndex::Timed(first)), Ok(&"x"));
    let second = v.try_insert_before(slot(0), "y").unwrap();
    v.remove(slot(1));
    v.remove(TracingIndex::Timed(first));
    v.push("z");
    v.replace(vec![slot(0), slot(2)], "w");
    assert_eq!(v.get(TracingIndex::Timed(first)), Ok(&"x"));
    assert_eq!(v.get(TracingIndex::Timed(second)), Ok(&"y"));
    assert_eq!(v.get(timed(1, 0)), Ok(&"b"));
    assert_eq!(v.into_timeless(TracingIndex::Timed(first)), Ok(TimelessIndex::from_raw_parts(3)));
    assert_eq!(v.oldest(), vec![&"a", &"b", &"c"]);
}

#[test]
fn replace_puts_one_value_for_several() {
    let mut v = TracingVec::from_vec(vec!["a", "b", "c", "d", "e"]);
    let gone = v.try_replace(vec![slot(3), slot(1)], "x");
    assert_eq!(
        gone,
        Ok(vec![TimelessIndex::from_raw_parts(3), TimelessIndex::from_raw_parts(1)])
    );
    assert_eq!(values(&v), vec!["a", "x", "c", "e"]);
    assert!(!v.is_alive(slot(1)));
    assert!(!v.is_alive(slot(3)));
    assert_eq!(v.into_timed(slot(5)), Ok(TimedIndex::from_raw_parts(1, 1)));
    assert_eq!(v.get(slot(1)), Ok(&"b"));
}

#[test]
fn replace_with_hands_clones_in_the_order_given() {
    let mut v = TracingVec::from_vec(vec![1u32, 2, 3, 4]);
    let at = v.try_replace_with(vec![slot(2), slot(0)], |vals| {
        assert_eq!(vals, vec![3, 1]);
        vals[0] * 10 + vals[1]
    });
    assert_eq!(at, Ok(TimedIndex::from_raw_parts(0, 1)));
    assert_eq!(v.latest(), vec![&31, &2, &4]);
    let at = v.replace_with(vec![slot(3)], |vals| vals[0] + 1);
    assert_eq!(at, TimedIndex::from_raw_parts(2, 2));
    assert_eq!(v.latest(), vec![&31, &2, &5]);
}

#[test]
fn replace_fails_as_a_whole() {
    let mut v = abc();
    v.remove(slot(2));
    let res = v.try_replace(vec![slot(0), slot(2), slot(7)], "x");
    assert_eq!(res, Err(IndexError::DataAlreadyDead(TimelessIndex::from_raw_parts(2))));
    let res = v.try_replace_with(vec![slot(7), slot(2)], |_| "x");
    assert_eq!(res, Err(IndexError::DataDoesNotExist(TimelessIndex::from_raw_parts(7))));
    assert_eq!(values(&v), vec!["a", "b"]);
    assert_eq!(v.first_index(), TimedIndex::from_raw_parts(0, 1));
}

#[test]
fn no_aliasing_on_replace() {
    let mut v = TracingVec::from_vec(vec!["a", "b", "c", "d"]);
    let old = vec![timed(2, 0), slot(1), timed(3, 0)];
    let at = v.replace_with(old.clone(), |_| "x");
    for index in old {
        assert!(!v.is_alive(index));
        assert!(v.contains(index));
    }
    assert_eq!(at.pos, 1);
    assert_eq!(v.get(TracingIndex::Timed(at)), Ok(&"x"));
    assert_eq!(values(&v), vec!["a", "x"]);
}

#[test]
fn replace_takes_an_index_given_twice_once() {
    let mut v = abc();
    let at = v.replace_with(vec![slot(1), slot(1)], |vals| {
        assert_eq!(vals, vec!["b", "b"]);
        "x"
    });
    assert_eq!(at, TimedIndex::from_raw_parts(1, 1));
    assert_eq!(values(&v), vec!["a", "x", "c"]);
}

#[test]
fn raw_parts_round_trip() {
    let mut v = abc();
    v.insert_after(slot(0), "x");
    v.remove(slot(2));
    v.push("y");
    let copy = v.clone();
    let (vals, births, snapshots) = v.into_raw_parts();
    assert_eq!(vals, vec!["a", "b", "c", "x", "y"]);
    assert_eq!(births, vec![0, 0, 0, 0, 2]);
    assert_eq!(snapshots, vec![vec![0, 1, 2], vec![0, 3, 1, 2], vec![0, 3, 1, 4]]);
    let back = TracingVec::from_raw_parts(vals, births, snapshots);
    assert_eq!(back, Some(copy));
}

#[test]
fn raw_parts_are_checked() {
    assert_eq!(TracingVec::from_raw_parts(vec![1u8], vec![0], vec![]), None);
    assert_eq!(TracingVec::from_raw_parts(vec![1u8], vec![], vec![vec![0]]), None);
    assert_eq!(TracingVec::from_raw_parts(vec![1u8], vec![0], vec![vec![1]]), None);
    assert_eq!(TracingVec::from_raw_parts(vec![1u8, 2], vec![0, 0], vec![vec![0, 0]]), None);
    assert!(TracingVec::from_raw_parts(vec![1u8, 2], vec![0, 0], vec![vec![1], vec![]]).is_some());
}

#[test]
fn clone_copies_the_whole_history() {
    let mut v = abc();
    v.remove(slot(0));
    let mut copy = v.clone();
    assert_eq!(copy, v);
    copy.push("x");
    assert_eq!(values(&v), vec!["b", "c"]);
    assert_eq!(values(&copy), vec!["b", "c", "x"]);
    assert_eq!(copy.oldest(), vec![&"a", &"b", &"c"]);
}

#[test]
fn rebuild_keeps_history_over_other_values() {
    let mut v = abc();
    v.remove(slot(1));
    let lens = v.rebuild(vec![1usize, 2, 3]);
    assert_eq!(lens.latest(), vec![&1, &3]);
    assert_eq!(lens.oldest(), vec![&1, &2, &3]);
}

#[test]
fn indices_convert() {
    let t = TimedIndex::from_raw_parts(4, 2);
    assert_eq!(TracingIndex::from(t), TracingIndex::Timed(t));
    let s = TimelessIndex::from_raw_parts(4);
    assert_eq!(TracingIndex::from(s), TracingIndex::Timeless(s));
    assert_eq!(t.shifted_down(1), Some(TimedIndex::from_raw_parts(3, 2)));
    assert_eq!(t.shifted_down(5), None);
    assert_eq!(t.shifted_up(2), Some(TimedIndex::from_raw_parts(6, 2)));
    assert_eq!(t.shifted_up(usize::MAX), None);
    let d: TracingVec<u8> = TracingVec::default();
    assert!(d.is_empty());
}

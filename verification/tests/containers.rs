use eru::components::main_layout::{Countdown, ERR_DURATION};
use eru::components::pop_up::Location;
use eru::components::{CloseButton, GlobalMessage};
use eru::model::aging_vec::{AgingVec, Index as AgedIndex};
use eru::model::tracing_tree::{TTree, TimeSpan, TimedIndex as TreeIndex, Trace};
use eru::model::versioned_vec::{Index, IndexError, VersionedVec};
use eru::utils::{OrErr, ThenOk, ToOption};

#[test]
fn versioned_push_changes_the_latest_version() {
    let mut v = VersionedVec::from_vec(vec![1, 2]);
    v.push(3);
    assert_eq!(v.latest(), &vec![1, 2, 3]);
    assert_eq!(v.oldest(), &vec![1, 2, 3]);
    assert_eq!(v.last_index(), Some(Index::from_raw_parts(2, 0)));
}

#[test]
fn versioned_pop_starts_a_version() {
    let mut v = VersionedVec::from_vec(vec![1, 2]);
    assert_eq!(v.pop(), Some(2));
    assert_eq!(v.latest(), &vec![1]);
    assert_eq!(v.oldest(), &vec![1, 2]);
    assert_eq!(v.get(Index::from_raw_parts(1, 0)), Some(&2));
    assert_eq!(v.get(Index::from_raw_parts(1, 1)), None);
    assert!(v.contains(Index::from_raw_parts(0, 1)));
    assert!(!v.contains(Index::from_raw_parts(0, 2)));
}

#[test]
fn versioned_insert_in_the_middle_starts_a_version() {
    let mut v = VersionedVec::from_vec(vec![1, 3]);
    let at = v.try_insert(Index::from_raw_parts(1, 0), 2);
    assert_eq!(at, Ok(Index::from_raw_parts(1, 1)));
    assert_eq!(v.latest(), &vec![1, 2, 3]);
    assert_eq!(v.oldest(), &vec![1, 3]);
    let at = v.insert(Index::from_raw_parts(3, 1), 4);
    assert_eq!(at, Index::from_raw_parts(3, 1));
    assert_eq!(v.latest(), &vec![1, 2, 3, 4]);
}

#[test]
fn versioned_insert_refuses_other_versions() {
    let mut v = VersionedVec::from_vec(vec![1, 3]);
    v.pop();
    let old = Index::from_raw_parts(0, 0);
    assert_eq!(v.try_insert(old, 9), Err(IndexError::AccessToVersionIsRestricted(old)));
    let late = Index::from_raw_parts(0, 2);
    assert_eq!(v.try_insert(late, 9), Err(IndexError::VersionDoesNotExist(late)));
    let far = Index::from_raw_parts(5, 1);
    assert_eq!(v.try_insert(far, 9), Err(IndexError::IndexOutOfBounds(far)));
    assert_eq!(v.latest(), &vec![1]);
}

#[test]
fn versioned_iteration() {
    let mut v = VersionedVec::from_vec(vec![5, 6]);
    assert_eq!(v.indices(), vec![Index::from_raw_parts(0, 0), Index::from_raw_parts(1, 0)]);
    assert_eq!(v.iter(), vec![&5, &6]);
    assert_eq!(
        v.iter_indices(),
        vec![(Index::from_raw_parts(0, 0), &5), (Index::from_raw_parts(1, 0), &6)]
    );
    for val in v.iter_mut().iter_mut() {
        *val += 1;
    }
    assert_eq!(v.latest(), &vec![6, 7]);
    *v.get_mut(Index::from_raw_parts(0, 0)).unwrap() = 0;
    assert_eq!(v.latest(), &vec![0, 7]);
    let empty: VersionedVec<u8> = VersionedVec::new();
    assert_eq!(empty.get(Index::from_raw_parts(0, 0)), None);
    let raw = VersionedVec::from_raw_parts(vec![vec![1], vec![1, 2]]);
    assert_eq!(raw.oldest(), &vec![1]);
    assert_eq!(raw.latest(), &vec![1, 2]);
}

#[test]
fn aging_index_skips_younger_values() {
    let mut v: AgingVec<&str, u64> = AgingVec::new();
    v.push("a");
    v.push("b");
    v.insert(1, "x");
    v.insert_relative(AgedIndex::from_raw_parts(1, 0), "y");
    v.push("c");
    let res = v.try_insert_relative(AgedIndex::from_raw_parts(2, 0), "z");
    assert!(res.is_err());
    let res = v.try_insert_relative(AgedIndex::from_raw_parts(2, 1), "z");
    assert!(res.is_ok());
}

#[test]
fn tree_grows_at_its_top() {
    let mut tree: TTree<&str> = TTree::from_vec(vec!["a", "b"]);
    let index = tree.push("c");
    assert_eq!(index.traces.len(), 1);
    assert_eq!(index.traces[0].index, 2);
    assert_eq!(index.traces[0].loc, None);
    assert_eq!(index.traces[0].span.start, 0);
    assert_eq!(index.traces[0].span.end, None);
    assert_eq!(tree.iter(), vec![&"a", &"b", &"c"]);
    let all = tree.indices();
    assert_eq!(all.len(), 3);
    assert!(all[2].same(&index));
    assert!(!all[1].same(&index));
    let mut fresh: TTree<u8> = TTree::new();
    assert_eq!(fresh.push(1).traces[0].index, 0);
    assert_eq!(fresh.push(2).traces[0].index, 1);
}

#[test]
fn tree_indices_agree_along_their_way() {
    let top = Trace { span: TimeSpan::from_start(0), loc: None, index: 1 };
    let closed = Trace { span: TimeSpan::between(0, 4), loc: None, index: 1 };
    let child = Trace { span: TimeSpan::from_start(2), loc: Some(1), index: 0 };
    assert!(top.same(&closed));
    assert!(!top.same(&child));
    let short = TreeIndex::try_from(vec![top]).unwrap();
    let long = TreeIndex::try_from(vec![closed, child]).unwrap();
    assert!(short.same(&long));
    assert!(long.same(&short));
    assert_eq!(long.last().index, 0);
    let other = TreeIndex::try_from(vec![child]).unwrap();
    assert!(!other.same(&long));
    assert!(TreeIndex::try_from(vec![]).is_err());
    assert_eq!(long.clone().traces.len(), 2);
}

#[test]
fn close_button_is_built_step_by_step() {
    let cross: CloseButton<u8> = CloseButton::cross();
    assert_eq!(cross, CloseButton { is_arrow: false, on_press: None });
    assert_eq!(cross.resource(), "res/img/close");
    let arrow = CloseButton::arrow().on_press(3u8);
    assert_eq!(arrow, CloseButton { is_arrow: true, on_press: Some(3) });
    assert_eq!(arrow.resource(), "res/img/arrow");
    assert_eq!(arrow.is_arrow(false), CloseButton { is_arrow: false, on_press: Some(3) });
}

#[test]
fn error_countdown_runs_out() {
    let mut countdown = Countdown::new();
    assert!(!countdown.is_running());
    countdown.tick();
    assert_eq!(countdown.left, 0);
    countdown.error();
    assert_eq!(countdown.left, ERR_DURATION);
    for _ in 0..ERR_DURATION {
        assert!(countdown.is_running());
        countdown.tick();
    }
    assert!(!countdown.is_running());
}

#[test]
fn defaults_and_locations() {
    assert_eq!(GlobalMessage::default(), GlobalMessage::Idle);
    assert_eq!(Location::default(), Location::Top);
    assert!(Location::Top.is_vertical() && Location::Top.is_leading());
    assert!(Location::Bottom.is_vertical() && !Location::Bottom.is_leading());
    assert!(!Location::Left.is_vertical() && Location::Left.is_leading());
    assert!(!Location::Right.is_vertical() && !Location::Right.is_leading());
}

#[test]
fn truth_values_choose() {
    assert_eq!(true.map(|| 1), Some(1));
    assert_eq!(false.map(|| 1), None);
    assert_eq!(true.or_err(|| "e"), Ok(()));
    assert_eq!(false.or_err(|| "e"), Err("e"));
    assert_eq!(true.then_ok(|| 2), Ok(2));
    assert_eq!(false.then_ok(|| 2), Err(()));
}

#[test]
fn tree_finds_the_place_of_an_index() {
    let mut tree: TTree<&str> = TTree::from_vec(vec!["a", "b"]);
    let c = tree.push("c");
    assert_eq!(tree.pos(&c).ok(), Some(2));
    let first = TreeIndex::try_from(vec![Trace {
        span: TimeSpan::from_start(0),
        loc: None,
        index: 0,
    }])
    .unwrap();
    assert_eq!(tree.pos(&first).ok(), Some(0));
    let stranger = TreeIndex::try_from(vec![Trace {
        span: TimeSpan::from_start(0),
        loc: None,
        index: 9,
    }])
    .unwrap();
    assert!(tree.pos(&stranger).is_err());
}

#[test]
fn aging_indices_are_added() {
    let a = AgedIndex::from_raw_parts(2, 5);
    let b = AgedIndex::from_raw_parts(3, 4);
    assert_eq!(a.joined(b), AgedIndex::from_raw_parts(5, 5));
    assert_eq!(b.joined(a), AgedIndex::from_raw_parts(5, 5));
    assert_eq!(b.shifted(4), AgedIndex::from_raw_parts(7, 4));
}

#[test]
fn versioned_insert_keeps_what_was_there() {
    let mut v = VersionedVec::from_vec(vec![1, 4]);
    let at = v.insert(Index::from_raw_parts(1, 0), 2);
    assert_eq!(at, Index::from_raw_parts(1, 1));
    let at = v.insert(Index::from_raw_parts(2, 1), 3);
    assert_eq!(at, Index::from_raw_parts(2, 2));
    assert_eq!(v.latest(), &vec![1, 2, 3, 4]);
    assert_eq!(v.oldest(), &vec![1, 4]);
    assert_eq!(v.get(Index::from_raw_parts(1, 1)), Some(&2));
    assert_eq!(v.get(Index::from_raw_parts(2, 1)), Some(&4));
    let at = v.insert(Index::from_raw_parts(4, 2), 5);
    assert_eq!(at, Index::from_raw_parts(4, 2));
    assert_eq!(v.latest(), &vec![1, 2, 3, 4, 5]);
    assert_eq!(v.get(Index::from_raw_parts(2, 1)), Some(&4));
}

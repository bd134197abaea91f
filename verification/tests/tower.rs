use eru::model::tracing_vec::{IndexError, TimelessIndex};
use eru::opetope::data::Selectable;
use eru::opetope::{
    Action, Cell, EditResult, Error, Interaction, Selection, Tail, Tower, ViewIndex,
};

fn ground(pos: usize) -> ViewIndex {
    ViewIndex::Ground(TimelessIndex::from_raw_parts(pos))
}

fn pick(pos: usize) -> Selection {
    Selection::of_cells(&vec![ground(pos)]).unwrap()
}

fn leveled(level: usize, path: &[usize]) -> ViewIndex {
    ViewIndex::Leveled {
        level,
        path: path.iter().map(|pos| TimelessIndex::from_raw_parts(*pos)).collect(),
    }
}

fn data(tower: &Tower<&'static str>, pos: usize) -> &'static str {
    match tower.cell(&ground(pos)) {
        Ok(Cell::Ground(data)) => data,
        other => panic!("no cell at {}: {:?}", pos, other),
    }
}

/// A tower a, b, c, made by extruding twice: the slots are 0, 1, 2.
fn abc() -> Tower<&'static str> {
    let (_, mut tower) = Tower::init("a");
    assert!(tower.extrude(&pick(0), "b", "-").ok().is_ok());
    assert!(tower.extrude(&pick(1), "c", "-").ok().is_ok());
    tower
}

#[test]
fn init_makes_one_cell() {
    let (root, tower) = Tower::init("root");
    assert_eq!(root, ground(0));
    assert_eq!(tower.level(), 0);
    assert!(tower.is_valid());
    assert_eq!(data(&tower, 0), "root");
    assert_eq!(tower.is_at_bottom(&pick(0)), Ok(true));
    assert_eq!(tower.contents_of(&vec![TimelessIndex::from_raw_parts(0)]), Some(vec![]));
}

#[test]
fn extrude_adds_a_cell_after_the_root() {
    let (root, mut tower) = Tower::init("root");
    let res = tower.extrude(&pick(0), "g", "w");
    assert_eq!(
        res,
        EditResult::Done(Interaction::Here {
            action: Action::Extrude { group: ground(1), contents: vec![ground(0)] },
        })
    );
    assert_eq!(data(&tower, 1), "g");
    assert!(tower.is_before(&root, &ground(1)));
    assert!(!tower.is_before(&ground(1), &root));
    assert_eq!(
        tower.contents_of(&vec![TimelessIndex::from_raw_parts(1)]),
        Some(vec![ground(0)])
    );
    assert_eq!(tower.is_at_bottom(&pick(1)), Ok(true));
    assert_eq!(tower.is_at_bottom(&pick(0)), Ok(false));
}

#[test]
fn extrude_needs_the_last_cell() {
    let mut tower = abc();
    let before = tower.clone();
    assert_eq!(
        tower.extrude(&pick(0), "x", "-"),
        EditResult::Failed(Error::CannotExtrudeNestedCells(pick(0)))
    );
    assert_eq!(
        tower.extrude(&pick(7), "x", "-"),
        EditResult::Failed(Error::NoSuchCell(ground(7)))
    );
    let up = Selection::of_cells(&vec![leveled(0, &[0])]).unwrap();
    assert_eq!(tower.extrude(&up, "x", "-"), EditResult::Failed(Error::TooMuchDepth(1)));
    assert_eq!(tower, before);
}

#[test]
fn split_adds_a_cell_after_a_cell_in_the_middle() {
    let mut tower = abc();
    let res = tower.split(&pick(0), "x", "-", "-");
    assert_eq!(
        res,
        EditResult::Done(Interaction::Here {
            action: Action::Split { group: ground(3), contents: vec![ground(0)] },
        })
    );
    assert!(tower.is_before(&ground(0), &ground(3)));
    assert!(tower.is_before(&ground(3), &ground(1)));
    assert_eq!(
        tower.split(&pick(2), "y", "-", "-"),
        EditResult::Failed(Error::CannotSplitBoundaryCells(pick(2)))
    );
    assert_eq!(
        tower.split(&pick(9), "y", "-", "-"),
        EditResult::Failed(Error::NoSuchCell(ground(9)))
    );
}

#[test]
fn sprout_adds_a_cell_before_the_first() {
    let mut tower = abc();
    let res = tower.sprout(&ground(0), "x", "-");
    assert_eq!(
        res,
        EditResult::Done(Interaction::Here {
            action: Action::Sprout { group: ground(0), end: ground(3) },
        })
    );
    assert!(tower.is_before(&ground(3), &ground(0)));
    assert_eq!(
        tower.sprout(&ground(0), "y", "-"),
        EditResult::Failed(Error::CannotSproutGroup(ground(0)))
    );
    assert_eq!(
        tower.sprout(&leveled(1, &[0]), "y", "-"),
        EditResult::Failed(Error::TooMuchDepth(2))
    );
    assert_eq!(
        tower.contents_of(&vec![TimelessIndex::from_raw_parts(0)]),
        Some(vec![ground(3)])
    );
}

#[test]
fn delete_takes_a_cell_out() {
    let mut tower = abc();
    assert_eq!(
        tower.delete(&ground(1)),
        EditResult::Done(Interaction::Here { action: Action::Delete { cell: ground(1) } })
    );
    assert_eq!(
        tower.contents_of(&vec![TimelessIndex::from_raw_parts(2)]),
        Some(vec![ground(0)])
    );
    assert_eq!(tower.contents_of(&vec![TimelessIndex::from_raw_parts(1)]), None);
    assert_eq!(
        tower.delete(&ground(1)),
        EditResult::Failed(Error::IndexError(IndexError::DataAlreadyDead(
            TimelessIndex::from_raw_parts(1)
        )))
    );
    assert_eq!(data(&tower, 1), "b");
    assert!(!tower.is_before(&ground(0), &ground(1)));
}

#[test]
fn contents_of_wants_one_slot() {
    let tower = abc();
    assert_eq!(tower.contents_of(&vec![]), None);
    let two = vec![TimelessIndex::from_raw_parts(0), TimelessIndex::from_raw_parts(1)];
    assert_eq!(tower.contents_of(&two), None);
    assert_eq!(tower.contents_of(&vec![TimelessIndex::from_raw_parts(5)]), None);
}

#[test]
fn rename_and_cell() {
    let mut tower = abc();
    assert_eq!(tower.rename(&ground(1), "B"), Ok(()));
    assert_eq!(data(&tower, 1), "B");
    assert_eq!(tower.rename(&ground(4), "x"), Err(Error::NoSuchCell(ground(4))));
    assert_eq!(tower.rename(&leveled(0, &[0]), "x"), Err(Error::TooMuchDepth(1)));
    assert_eq!(
        tower.cell(&ground(4)),
        Err(Error::IndexError(IndexError::DataDoesNotExist(TimelessIndex::from_raw_parts(4))))
    );
    assert_eq!(tower.cell(&leveled(2, &[0])), Err(Error::TooMuchDepth(3)));
}

#[test]
fn is_before_is_false_for_what_is_not_in_the_tower() {
    let tower = abc();
    assert!(tower.is_before(&ground(0), &ground(2)));
    assert!(!tower.is_before(&ground(0), &ground(0)));
    assert!(!tower.is_before(&ground(0), &ground(9)));
    assert!(!tower.is_before(&ground(0), &leveled(0, &[1])));
    assert_eq!(tower.is_at_bottom(&pick(2)), Ok(true));
    assert_eq!(tower.is_at_bottom(&pick(9)), Ok(false));
    let up = Selection::of_cells(&vec![leveled(3, &[0])]).unwrap();
    assert_eq!(tower.is_at_bottom(&up), Err(Error::TooMuchDepth(4)));
}

#[test]
fn deep_copy_of_a_tower() {
    let tower = abc();
    assert_eq!(tower.deep_copy(0), Ok(Tail::Tower(tower.clone())));
    assert_eq!(tower.deep_copy(1), Err(Error::TooMuchDepth(1)));
}

#[test]
fn tower_selection_marks_one_cell() {
    let (_, mut tower) = Tower::init(Selectable::new("a"));
    assert!(tower.extrude(&pick(0), Selectable::new("b"), Selectable::new("-")).ok().is_ok());
    assert_eq!(tower.selected_cells(), None);
    assert_eq!(tower.select(&ground(1)), Ok(Some(pick(1))));
    assert_eq!(tower.selected_cells(), Some(pick(1)));
    assert_eq!(tower.select(&ground(0)), Ok(Some(pick(0))));
    assert_eq!(tower.selected_cells(), Some(pick(0)));
    assert_eq!(tower.select(&ground(0)), Ok(None));
    assert_eq!(tower.selected_cells(), None);
    assert_eq!(tower.select(&ground(5)), Err(Error::NoSuchCell(ground(5))));
    assert_eq!(tower.select(&leveled(0, &[0])), Err(Error::TooMuchDepth(1)));
    tower.select(&ground(1)).unwrap();
    tower.unselect_all(0);
    assert_eq!(tower.selected_cells(), None);
    let data = Selectable::new(3);
    assert_eq!(data.inner(), &3);
    assert!(!data.selected());
}

#[test]
fn tower_parts_round_trip() {
    let tower = abc();
    let copy = tower.clone();
    let cells = tower.into_cells();
    assert_eq!(cells.latest(), vec![&"a", &"b", &"c"]);
    assert_eq!(Tower::from_cells(cells), Some(copy));
}

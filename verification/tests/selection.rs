use eru::model::tracing_vec::TimelessIndex;
use eru::opetope::data::Selectable;
use eru::opetope::{Cell, Diagram, Error, Message, Selection, Tower, ViewIndex};

fn slot(pos: usize) -> TimelessIndex {
    TimelessIndex::from_raw_parts(pos)
}

fn ground(pos: usize) -> ViewIndex {
    ViewIndex::Ground(slot(pos))
}

fn pick(pos: usize) -> Selection {
    Selection::of_cells(&vec![ground(pos)]).unwrap()
}

fn path(all: &[usize]) -> Vec<TimelessIndex> {
    all.iter().map(|pos| slot(*pos)).collect()
}

fn leveled(level: usize, all: &[usize]) -> ViewIndex {
    ViewIndex::Leveled { level, path: path(all) }
}

fn picks(level: usize, parent: &[usize], cells: &[usize]) -> Selection {
    let all = cells
        .iter()
        .map(|cell| {
            let mut full = path(parent);
            full.push(slot(*cell));
            ViewIndex::Leveled { level, path: full }
        })
        .collect();
    Selection::of_cells(&all).unwrap()
}

fn named(name: &'static str) -> Selectable<&'static str> {
    Selectable::new(name)
}

fn is_selected(diagram: &Diagram<Selectable<&'static str>>, index: &ViewIndex) -> bool {
    match diagram.cell(index) {
        Ok(cell) => cell.data().selected(),
        Err(e) => panic!("no cell at {:?}: {:?}", index, e),
    }
}

/// The siblings a, b, c over the tower r, x, y, z.
fn abc() -> Diagram<Selectable<&'static str>> {
    let (_, tower) = Tower::init(named("r"));
    let mut diagram = tower.into_next().unwrap();
    assert!(diagram.extrude(&pick(0), named("x"), named("a")).ok().is_ok());
    assert!(diagram.extrude(&pick(1), named("y"), named("b")).ok().is_ok());
    assert!(diagram.extrude(&pick(2), named("z"), named("c")).ok().is_ok());
    diagram
}

#[test]
fn sprout_and_select_the_new_end() {
    let mut diagram = abc();
    let b = leveled(0, &[1]);
    let old_face = match diagram.cell(&b) {
        Ok(Cell::Leveled(meta)) => meta.face,
        other => panic!("b is a cell of the diagram: {:?}", other),
    };
    assert!(diagram.sprout(&b, named("b2"), named("w")).ok().is_ok());
    assert_eq!(diagram.is_end(&b), Ok(false));
    let b2 = leveled(0, &[1, 0]);
    match diagram.cell(&b2) {
        Ok(Cell::Leveled(meta)) => {
            assert_eq!(meta.data.inner(), &"b2");
            assert_eq!(meta.face, old_face);
        },
        other => panic!("b2 is a cell of the diagram: {:?}", other),
    }
    assert_eq!(diagram.select(&b2), Ok(Some(picks(0, &[1], &[0]))));
    assert_eq!(diagram.selected_cells(), Some(picks(0, &[1], &[0])));
    assert_eq!(diagram.selected_cells().unwrap().as_cells(), vec![b2]);
}

#[test]
fn siblings_are_selected_together() {
    let mut diagram = abc();
    assert_eq!(diagram.select(&leveled(0, &[2])), Ok(Some(picks(0, &[], &[2]))));
    assert_eq!(diagram.select(&leveled(0, &[0])), Ok(Some(picks(0, &[], &[0, 2]))));
    assert_eq!(diagram.select(&leveled(0, &[2])), Ok(Some(picks(0, &[], &[0]))));
    assert_eq!(diagram.select(&leveled(0, &[0])), Ok(None));
    assert_eq!(diagram.selected_cells(), None);
}

#[test]
fn selection_is_confined_to_one_parent() {
    let mut diagram = abc();
    assert!(diagram.group(&vec![path(&[0]), path(&[1])], named("g")).is_ok());
    assert_eq!(diagram.select(&leveled(0, &[2])), Ok(Some(picks(0, &[], &[2]))));
    assert_eq!(diagram.select(&leveled(0, &[3, 1])), Ok(Some(picks(0, &[3], &[1]))));
    assert!(!is_selected(&diagram, &leveled(0, &[2])));
    assert_eq!(diagram.select(&leveled(0, &[3, 0])), Ok(Some(picks(0, &[3], &[0, 1]))));
    assert_eq!(diagram.select(&leveled(0, &[3])), Ok(Some(picks(0, &[], &[3]))));
    assert!(!is_selected(&diagram, &leveled(0, &[3, 0])));
}

#[test]
fn selection_is_confined_to_one_layer() {
    let mut diagram = abc();
    assert_eq!(diagram.select(&leveled(0, &[1])), Ok(Some(picks(0, &[], &[1]))));
    assert_eq!(diagram.select(&ground(2)), Ok(Some(pick(2))));
    assert!(!is_selected(&diagram, &leveled(0, &[1])));
    assert_eq!(diagram.selected_cells(), Some(pick(2)));
    assert_eq!(diagram.select(&leveled(0, &[0])), Ok(Some(picks(0, &[], &[0]))));
    assert!(!is_selected(&diagram, &ground(2)));
    assert_eq!(diagram.selected_cells(), Some(picks(0, &[], &[0])));
    diagram.unselect_all(0);
    assert_eq!(diagram.selected_cells(), None);
}

#[test]
fn unselect_all_stops_at_the_depth() {
    let mut diagram = abc();
    assert_eq!(diagram.select(&ground(1)), Ok(Some(pick(1))));
    diagram.unselect_all(1);
    assert!(is_selected(&diagram, &ground(1)));
    diagram.unselect_all(0);
    assert!(!is_selected(&diagram, &ground(1)));
}

#[test]
fn select_refuses_what_is_not_there() {
    let mut diagram = abc();
    assert_eq!(diagram.select(&leveled(0, &[1])), Ok(Some(picks(0, &[], &[1]))));
    let before = diagram.clone();
    assert_eq!(
        diagram.select(&leveled(0, &[7])),
        Err(Error::NoSuchCell(leveled(0, &[7])))
    );
    assert_eq!(diagram.select(&ground(9)), Err(Error::NoSuchCell(ground(9))));
    assert_eq!(diagram.select(&leveled(1, &[0])), Err(Error::TooMuchDepth(2)));
    assert_eq!(diagram, before);
}

#[test]
fn selections_are_made_of_siblings() {
    let cells = vec![leveled(2, &[4, 0]), leveled(2, &[4, 3])];
    let selection = Selection::of_cells(&cells).unwrap();
    assert_eq!(selection.heads(), path(&[0, 3]));
    assert_eq!(selection.len(), 2);
    assert_eq!(selection.level(), 3);
    assert_eq!(selection.common_path(), path(&[4]));
    assert_eq!(selection.as_paths(), vec![path(&[4, 0]), path(&[4, 3])]);
    assert_eq!(selection.as_cells(), cells);
    assert_eq!(selection.as_ground(), None);
    assert_eq!(pick(3).heads(), path(&[3]));
    assert_eq!(pick(3).len(), 1);
    assert_eq!(pick(3).as_ground(), Some(slot(3)));
    assert_eq!(pick(3).level(), 0);
    assert_eq!(pick(3).as_paths(), vec![path(&[3])]);
    assert_eq!(Selection::of_cells(&vec![]), None);
    assert_eq!(Selection::of_cells(&vec![ground(3), ground(4)]), None);
    assert_eq!(Selection::of_cells(&vec![leveled(2, &[4, 0]), leveled(2, &[5, 0])]), None);
    assert_eq!(Selection::of_cells(&vec![leveled(2, &[4, 0]), leveled(1, &[4, 1])]), None);
    assert_eq!(Selection::of_cells(&vec![leveled(2, &[4, 0]), leveled(2, &[4])]), None);
    assert_eq!(Selection::of_cells(&vec![leveled(2, &[])]), None);
}

#[test]
fn addresses_are_read_and_rewritten() {
    let mut index = leveled(1, &[4, 2, 7]);
    assert_eq!(index.level(), 2);
    assert!(index.at_level(2) && index.above_level(1) && !index.above_level(2));
    assert_eq!(index.path(), path(&[4, 2, 7]));
    assert_eq!(index.tail(), path(&[4, 2]));
    assert_eq!(index.as_ground(), None);
    index.subst_prefix(&path(&[4, 2]), &path(&[9, 0, 1]));
    assert_eq!(index, leveled(1, &[9, 0, 1, 7]));
    index.subst_prefix(&path(&[4]), &path(&[5]));
    assert_eq!(index, leveled(1, &[9, 0, 1, 7]));
    index.subst_prefix(&path(&[]), &path(&[3]));
    assert_eq!(index, leveled(1, &[3, 9, 0, 1, 7]));
    let mut low = ground(2);
    low.subst_prefix(&path(&[2]), &path(&[5]));
    assert_eq!(low, ground(2));
    assert_eq!(low.level(), 0);
    assert_eq!(low.path(), path(&[2]));
    assert_eq!(low.tail(), path(&[]));
    assert_eq!(low.as_ground(), Some(slot(2)));
    assert!(low.same(&ground(2)) && !low.same(&ground(3)) && !low.same(&leveled(0, &[2])));
    assert_eq!(Message::Select(low.clone()), Message::Select(ground(2)));
}

#[test]
fn one_mark_is_the_selection() {
    let mut diagram = abc();
    assert!(diagram.group(&vec![path(&[0]), path(&[1])], named("g")).is_ok());
    let seen = vec![
        ground(0),
        ground(3),
        leveled(0, &[2]),
        leveled(0, &[3]),
        leveled(0, &[3, 0]),
        leveled(0, &[3, 1]),
    ];
    for cell in seen {
        diagram.unselect_all(0);
        assert_eq!(diagram.selected_cells(), None);
        let picked = diagram.select(&cell).unwrap().unwrap();
        assert_eq!(picked.as_cells(), vec![cell.clone()]);
        assert_eq!(picked.len(), 1);
        assert_eq!(diagram.selected_cells(), Some(picked));
        assert!(is_selected(&diagram, &cell));
    }
}

#[test]
fn a_mark_on_a_cell_that_is_not_alive_is_not_seen() {
    let mut diagram = abc();
    assert!(diagram.group(&vec![path(&[0]), path(&[1])], named("g")).is_ok());
    assert_eq!(diagram.select(&leveled(0, &[0])), Ok(None));
    assert_eq!(diagram.selected_cells(), None);
}

#[test]
fn a_mark_is_turned_over_whatever_else_is_marked() {
    let mut diagram = abc();
    assert!(diagram.group(&vec![path(&[0]), path(&[1])], named("g")).is_ok());
    assert_eq!(diagram.select(&leveled(0, &[2])), Ok(Some(picks(0, &[], &[2]))));
    assert_eq!(diagram.select_unchecked(&leveled(0, &[3, 1])), Ok(()));
    assert!(is_selected(&diagram, &leveled(0, &[2])));
    assert!(is_selected(&diagram, &leveled(0, &[3, 1])));
    assert!(!is_selected(&diagram, &leveled(0, &[3, 0])));
    assert_eq!(diagram.select_unchecked(&leveled(0, &[3, 1])), Ok(()));
    assert!(!is_selected(&diagram, &leveled(0, &[3, 1])));
    let before = diagram.clone();
    assert_eq!(
        diagram.select_unchecked(&leveled(0, &[3, 7])),
        Err(Error::NoSuchCell(leveled(0, &[3, 7])))
    );
    assert_eq!(diagram, before);
}

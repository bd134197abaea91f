use eru::model::tracing_vec::{IndexError, TimelessIndex, TracingIndex};
use eru::opetope::{
    Action, Cell, Diagram, EditResult, Error, Face, Interaction, MetaCell, Selection, Tail, Tower,
    ViewIndex,
};

fn slot(pos: usize) -> TimelessIndex {
    TimelessIndex::from_raw_parts(pos)
}

fn ground(pos: usize) -> ViewIndex {
    ViewIndex::Ground(slot(pos))
}

fn pick(pos: usize) -> Selection {
    Selection::of_cells(&vec![ground(pos)]).unwrap()
}

fn path(all: &[usize]) -> Vec<TimelessIndex> {
    all.iter().map(|pos| slot(*pos)).collect()
}

fn leveled(level: usize, all: &[usize]) -> ViewIndex {
    ViewIndex::Leveled { level, path: path(all) }
}

fn picks(level: usize, parent: &[usize], cells: &[usize]) -> Selection {
    let all = cells
        .iter()
        .map(|cell| {
            let mut full = path(parent);
            full.push(slot(*cell));
            ViewIndex::Leveled { level, path: full }
        })
        .collect();
    Selection::of_cells(&all).unwrap()
}

fn meta(diagram: &Diagram<&'static str>, index: &ViewIndex) -> MetaCell<&'static str> {
    match diagram.cell(index) {
        Ok(Cell::Leveled(meta)) => meta,
        other => panic!("no cell at {:?}: {:?}", index, other),
    }
}

fn top(diagram: &Diagram<&'static str>) -> Vec<&'static str> {
    let copy = diagram.clone();
    let (cells, _) = copy.into_parts();
    cells.latest().into_iter().map(|cell| cell.meta.data).collect()
}

/// A diagram over the tower r, with no cells.
fn fresh() -> Diagram<&'static str> {
    let (_, tower) = Tower::init("r");
    tower.into_next().unwrap()
}

/// A diagram with the cells a, b, c over the tower r, x, y, z: each cell
/// wraps one extrusion of the tower. The tower has the slots 0, 1, 2, 3
/// and the diagram 0, 1, 2.
fn abc() -> Diagram<&'static str> {
    let mut diagram = fresh();
    assert!(diagram.extrude(&pick(0), "x", "a").ok().is_ok());
    assert!(diagram.extrude(&pick(1), "y", "b").ok().is_ok());
    assert!(diagram.extrude(&pick(2), "z", "c").ok().is_ok());
    diagram
}

#[test]
fn a_new_diagram_lies_one_level_up() {
    let diagram = fresh();
    assert_eq!(diagram.level(), 1);
    assert!(diagram.is_valid());
    assert_eq!(top(&diagram), Vec::<&str>::new());
    assert_eq!(diagram.iter_groups().len(), 0);
    let next = diagram.into_next(vec![]).unwrap();
    assert_eq!(next.level(), 2);
    assert_eq!(Tail::Diagram(Box::new(next)).level(), 2);
}

#[test]
fn extrude_beneath_is_wrapped() {
    let mut diagram = fresh();
    let res = diagram.extrude(&pick(0), "g", "w");
    assert_eq!(
        res,
        EditResult::Done(Interaction::InPrevious {
            action: Action::Extrude { group: ground(1), contents: vec![ground(0)] },
            wraps: vec![leveled(0, &[0])],
        })
    );
    assert_eq!(
        meta(&diagram, &leveled(0, &[0])),
        MetaCell { data: "w", face: Face { ends: vec![ground(0)], fill: ground(1) } }
    );
    assert_eq!(diagram.cell(&ground(1)), Ok(Cell::Ground("g")));
    let res = diagram.extrude(&pick(1), "h", "v");
    assert_eq!(
        res,
        EditResult::Done(Interaction::InPrevious {
            action: Action::Extrude { group: ground(2), contents: vec![ground(1)] },
            wraps: vec![leveled(0, &[1])],
        })
    );
    assert_eq!(top(&diagram), vec!["w", "v"]);
    assert!(diagram.is_before(&leveled(0, &[0]), &leveled(0, &[1])));
    assert!(!diagram.is_before(&leveled(0, &[1]), &leveled(0, &[0])));
}

#[test]
fn a_wrap_goes_before_the_cells_that_lead_away_from_it() {
    let mut diagram = fresh();
    assert!(diagram.extrude(&pick(0), "x", "a").ok().is_ok());
    assert!(diagram.extrude(&pick(1), "y", "b").ok().is_ok());
    assert_eq!(top(&diagram), vec!["a", "b"]);
    let index = diagram.wrap_extrusion("w", &vec![ground(0)], ground(1));
    assert_eq!(index, leveled(0, &[2]));
    assert_eq!(top(&diagram), vec!["w", "a", "b"]);
    assert_eq!(
        meta(&diagram, &index),
        MetaCell { data: "w", face: Face { ends: vec![ground(0)], fill: ground(1) } }
    );
}

#[test]
fn a_wrap_goes_after_the_cells_that_lie_above_it() {
    let mut diagram = abc();
    let index = diagram.wrap_extrusion("w", &vec![ground(2), ground(1)], ground(3));
    assert_eq!(index, leveled(0, &[3]));
    assert_eq!(top(&diagram), vec!["a", "b", "w", "c"]);
    let mut empty = fresh();
    assert_eq!(empty.wrap_extrusion("v", &vec![ground(0)], ground(0)), leveled(0, &[0]));
    assert_eq!(top(&empty), vec!["v"]);
}

#[test]
fn extrude_beneath_hands_the_error_on() {
    let mut diagram = abc();
    let before = diagram.clone();
    assert_eq!(
        diagram.extrude(&pick(0), "q", "w"),
        EditResult::Failed(Error::CannotExtrudeNestedCells(pick(0)))
    );
    assert_eq!(
        diagram.extrude(&pick(8), "q", "w"),
        EditResult::Failed(Error::NoSuchCell(ground(8)))
    );
    assert_eq!(
        diagram.extrude(&picks(1, &[], &[0]), "q", "w"),
        EditResult::Failed(Error::TooMuchDepth(2))
    );
    assert_eq!(diagram, before);
}

#[test]
fn extrude_groups_cells_that_form_a_tree() {
    let mut diagram = abc();
    let res = diagram.extrude(&picks(0, &[], &[0, 1]), "g", "-");
    assert_eq!(
        res,
        EditResult::Done(Interaction::Here {
            action: Action::Extrude {
                group: leveled(0, &[3]),
                contents: vec![leveled(0, &[3, 0]), leveled(0, &[3, 1])],
            },
        })
    );
    assert_eq!(top(&diagram), vec!["g", "c"]);
    assert_eq!(
        meta(&diagram, &leveled(0, &[3])),
        MetaCell { data: "g", face: Face { ends: vec![ground(0)], fill: ground(2) } }
    );
    assert_eq!(
        meta(&diagram, &leveled(0, &[3, 0])),
        MetaCell { data: "a", face: Face { ends: vec![ground(0)], fill: ground(1) } }
    );
    assert_eq!(meta(&diagram, &leveled(0, &[3, 1])).data, "b");
    assert_eq!(diagram.is_end(&leveled(0, &[3])), Ok(false));
    assert_eq!(diagram.is_end(&leveled(0, &[3, 1])), Ok(true));
    assert_eq!(meta(&diagram, &leveled(0, &[0])).data, "a");
    assert!(diagram.is_valid());
}

#[test]
fn group_keeps_the_order_of_the_paths_in_the_content() {
    let mut diagram = abc();
    let made = diagram.group(&vec![path(&[2]), path(&[1])], "g");
    assert_eq!(
        made,
        Ok((leveled(0, &[3]), vec![leveled(0, &[3, 0]), leveled(0, &[3, 1])]))
    );
    assert_eq!(top(&diagram), vec!["a", "g"]);
    assert_eq!(meta(&diagram, &leveled(0, &[3, 0])).data, "c");
    assert_eq!(meta(&diagram, &leveled(0, &[3, 1])).data, "b");
    assert_eq!(
        meta(&diagram, &leveled(0, &[3])).face,
        Face { ends: vec![ground(1)], fill: ground(3) }
    );
}

#[test]
fn group_of_one_cell_has_its_face() {
    let mut diagram = abc();
    let made = diagram.group(&vec![path(&[1])], "g");
    assert_eq!(made, Ok((leveled(0, &[3]), vec![leveled(0, &[3, 0])])));
    assert_eq!(top(&diagram), vec!["a", "g", "c"]);
    assert_eq!(
        meta(&diagram, &leveled(0, &[3])).face,
        Face { ends: vec![ground(1)], fill: ground(2) }
    );
}

#[test]
fn cells_of_different_parents_are_not_grouped() {
    let mut diagram = abc();
    assert!(diagram.group(&vec![path(&[1])], "g").is_ok());
    let before = diagram.clone();
    let res = diagram.group(&vec![path(&[0]), path(&[3, 0])], "h");
    assert_eq!(
        res,
        Err(Error::CannotGroupDisconnected(vec![leveled(0, &[0]), leveled(0, &[3, 0])]))
    );
    let res = diagram.group(&vec![path(&[0]), path(&[])], "h");
    assert_eq!(
        res,
        Err(Error::CannotGroupDisconnected(vec![leveled(0, &[0]), leveled(0, &[])]))
    );
    assert_eq!(diagram, before);
}

#[test]
fn cells_that_form_no_tree_are_not_grouped() {
    let mut diagram = abc();
    let before = diagram.clone();
    let res = diagram.group(&vec![path(&[0]), path(&[2])], "g");
    assert_eq!(
        res,
        Err(Error::CellsDoNotFormTree(vec![leveled(0, &[0]), leveled(0, &[2])]))
    );
    assert_eq!(
        diagram.extrude(&picks(0, &[], &[2, 0]), "g", "-"),
        EditResult::Failed(Error::CellsDoNotFormTree(vec![leveled(0, &[2]), leveled(0, &[0])]))
    );
    assert_eq!(diagram, before);
}

#[test]
fn group_reports_what_is_missing() {
    let mut diagram = abc();
    let before = diagram.clone();
    assert_eq!(
        diagram.group(&vec![], "g"),
        Err(Error::IndexError(IndexError::NoIndicesProvided))
    );
    assert_eq!(
        diagram.group(&vec![path(&[0]), path(&[7])], "g"),
        Err(Error::NoSuchCell(leveled(0, &[7])))
    );
    assert_eq!(diagram, before);
    assert!(diagram.group(&vec![path(&[0])], "g").is_ok());
    assert_eq!(
        diagram.group(&vec![path(&[0])], "h"),
        Err(Error::IndexError(IndexError::DataAlreadyDead(slot(0))))
    );
}

#[test]
fn extrude_needs_cells_at_the_top() {
    let mut diagram = abc();
    assert!(diagram.group(&vec![path(&[0]), path(&[1])], "g").is_ok());
    let nested = picks(0, &[3], &[0]);
    assert_eq!(diagram.is_at_bottom(&nested), Ok(false));
    assert_eq!(
        diagram.extrude(&nested, "h", "-"),
        EditResult::Failed(Error::CannotExtrudeNestedCells(nested.clone()))
    );
    let gone = picks(0, &[], &[0]);
    assert_eq!(diagram.is_at_bottom(&gone), Ok(false));
    assert_eq!(
        diagram.extrude(&gone, "h", "-"),
        EditResult::Failed(Error::CannotExtrudeNestedCells(gone.clone()))
    );
    assert_eq!(diagram.is_at_bottom(&picks(0, &[], &[3, 2])), Ok(true));
    assert_eq!(diagram.is_at_bottom(&pick(3)), Ok(true));
    assert_eq!(diagram.is_at_bottom(&pick(0)), Ok(false));
    assert_eq!(diagram.is_at_bottom(&picks(1, &[], &[0])), Err(Error::TooMuchDepth(2)));
}

#[test]
fn split_groups_cells_inside_a_group() {
    let mut diagram = abc();
    assert!(diagram.group(&vec![path(&[0]), path(&[1]), path(&[2])], "g").is_ok());
    let inner = picks(0, &[3], &[0, 1]);
    let res = diagram.split(&inner, "h", "-", "-");
    assert_eq!(
        res,
        EditResult::Done(Interaction::Here {
            action: Action::Split {
                group: leveled(0, &[3, 3]),
                contents: vec![leveled(0, &[3, 3, 0]), leveled(0, &[3, 3, 1])],
            },
        })
    );
    assert_eq!(
        meta(&diagram, &leveled(0, &[3, 3])),
        MetaCell { data: "h", face: Face { ends: vec![ground(0)], fill: ground(2) } }
    );
    assert!(diagram.is_before(&leveled(0, &[3, 3]), &leveled(0, &[3, 2])));
    let top = picks(0, &[], &[3]);
    assert_eq!(
        diagram.split(&top, "h", "-", "-"),
        EditResult::Failed(Error::CannotSplitBoundaryCells(top.clone()))
    );
}

#[test]
fn split_beneath_splits_the_wrap() {
    let mut diagram = abc();
    let res = diagram.split(&pick(1), "s", "top", "bot");
    assert_eq!(
        res,
        EditResult::Done(Interaction::InPrevious {
            action: Action::Extrude { group: ground(4), contents: vec![ground(1)] },
            wraps: vec![leveled(0, &[1, 0]), leveled(0, &[1, 1])],
        })
    );
    assert_eq!(
        meta(&diagram, &leveled(0, &[1, 0])),
        MetaCell { data: "top", face: Face { ends: vec![ground(1)], fill: ground(4) } }
    );
    assert_eq!(
        meta(&diagram, &leveled(0, &[1, 1])),
        MetaCell { data: "bot", face: Face { ends: vec![ground(4)], fill: ground(2) } }
    );
    assert_eq!(
        meta(&diagram, &leveled(0, &[1])),
        MetaCell { data: "b", face: Face { ends: vec![ground(1)], fill: ground(2) } }
    );
    assert_eq!(diagram.is_end(&leveled(0, &[1])), Ok(false));
    assert_eq!(diagram.cell(&ground(4)), Ok(Cell::Ground("s")));
}

#[test]
fn split_beneath_needs_a_cell_with_the_inputs() {
    let mut diagram = abc();
    let before = diagram.clone();
    assert_eq!(
        diagram.split(&pick(3), "s", "top", "bot"),
        EditResult::Failed(Error::NoCellWithInputs(vec![ground(3)]))
    );
    assert_eq!(diagram, before);
    let (_, mut tower) = Tower::init("r");
    assert_eq!(
        tower.split(&pick(0), "s", "-", "-"),
        EditResult::Failed(Error::CannotSplitBoundaryCells(pick(0)))
    );
}

#[test]
fn sprout_turns_an_end_into_a_group() {
    let mut diagram = abc();
    let b = leveled(0, &[1]);
    let res = diagram.sprout(&b, "b2", "w");
    assert_eq!(
        res,
        EditResult::Done(Interaction::Here {
            action: Action::Sprout { group: b.clone(), end: leveled(0, &[1, 0]) },
        })
    );
    assert_eq!(diagram.is_end(&b), Ok(false));
    assert_eq!(
        meta(&diagram, &leveled(0, &[1, 0])),
        MetaCell { data: "b2", face: Face { ends: vec![ground(1)], fill: ground(2) } }
    );
    assert_eq!(
        diagram.sprout(&b, "b3", "w"),
        EditResult::Failed(Error::CannotSproutGroup(b.clone()))
    );
    assert_eq!(
        diagram.sprout(&leveled(0, &[9]), "b3", "w"),
        EditResult::Failed(Error::NoSuchCell(leveled(0, &[9])))
    );
    assert_eq!(
        diagram.sprout(&leveled(1, &[0]), "b3", "w"),
        EditResult::Failed(Error::TooMuchDepth(2))
    );
}

#[test]
fn sprout_beneath_is_wrapped() {
    let mut diagram = fresh();
    let res = diagram.sprout(&ground(0), "e", "w");
    assert_eq!(
        res,
        EditResult::Done(Interaction::InPrevious {
            action: Action::Sprout { group: ground(0), end: ground(1) },
            wraps: vec![leveled(0, &[0])],
        })
    );
    assert_eq!(
        meta(&diagram, &leveled(0, &[0])),
        MetaCell { data: "w", face: Face { ends: vec![ground(1)], fill: ground(0) } }
    );
    let res = diagram.sprout(&ground(1), "f", "v");
    assert_eq!(
        res,
        EditResult::Done(Interaction::InPrevious {
            action: Action::Sprout { group: ground(1), end: ground(2) },
            wraps: vec![leveled(0, &[1])],
        })
    );
    assert_eq!(top(&diagram), vec!["v", "w"]);
    assert_eq!(
        diagram.sprout(&ground(0), "g", "u"),
        EditResult::Failed(Error::CannotSproutGroup(ground(0)))
    );
}

#[test]
fn rename_reaches_every_layer() {
    let mut diagram = abc();
    assert_eq!(diagram.rename(&leveled(0, &[1]), "B"), Ok(()));
    assert_eq!(diagram.rename(&ground(0), "R"), Ok(()));
    assert_eq!(meta(&diagram, &leveled(0, &[1])).data, "B");
    assert_eq!(diagram.cell(&ground(0)), Ok(Cell::Ground("R")));
    assert_eq!(
        diagram.rename(&leveled(0, &[5]), "x"),
        Err(Error::NoSuchCell(leveled(0, &[5])))
    );
    assert_eq!(diagram.rename(&ground(9), "x"), Err(Error::NoSuchCell(ground(9))));
    assert_eq!(diagram.rename(&leveled(1, &[0]), "x"), Err(Error::TooMuchDepth(2)));
    assert_eq!(diagram.cell(&leveled(1, &[0])), Err(Error::TooMuchDepth(2)));
    assert_eq!(diagram.cell(&leveled(0, &[5])), Err(Error::NoSuchCell(leveled(0, &[5]))));
    assert_eq!(diagram.is_end(&ground(0)), Err(Error::TooMuchDepth(0)));
    assert_eq!(diagram.is_end(&leveled(0, &[5])), Err(Error::NoSuchCell(leveled(0, &[5]))));
}

#[test]
fn is_before_follows_the_paths() {
    let mut diagram = abc();
    assert!(diagram.group(&vec![path(&[1]), path(&[2])], "g").is_ok());
    let a = leveled(0, &[0]);
    let g = leveled(0, &[3]);
    let b = leveled(0, &[3, 0]);
    let c = leveled(0, &[3, 1]);
    assert!(diagram.is_before(&a, &g));
    assert!(diagram.is_before(&a, &b));
    assert!(diagram.is_before(&b, &c));
    assert!(!diagram.is_before(&c, &b));
    assert!(diagram.is_before(&g, &b));
    assert!(diagram.is_before(&b, &g));
    assert!(!diagram.is_before(&a, &leveled(0, &[1])));
    assert!(!diagram.is_before(&a, &ground(1)));
    assert!(!diagram.is_before(&leveled(0, &[0, 4]), &leveled(0, &[0, 5])));
}

#[test]
fn groups_are_listed_with_their_faces() {
    let mut diagram = abc();
    assert!(diagram.group(&vec![path(&[0]), path(&[1])], "g").is_ok());
    assert!(diagram.sprout(&leveled(0, &[3, 1]), "e", "-").ok().is_ok());
    let groups = diagram.iter_groups();
    assert_eq!(groups.len(), 2);
    assert_eq!(
        groups[0].0,
        Face { ends: vec![leveled(0, &[3, 0]), leveled(0, &[3, 1])], fill: leveled(0, &[3]) }
    );
    assert_eq!(groups[0].1.data, "g");
    assert_eq!(
        groups[1].0,
        Face { ends: vec![leveled(0, &[3, 1, 0])], fill: leveled(0, &[3, 1]) }
    );
    assert_eq!(groups[1].1.data, "b");
}

#[test]
fn the_next_layer_wraps_the_groups() {
    let mut diagram = abc();
    assert!(diagram.group(&vec![path(&[0]), path(&[1])], "g").is_ok());
    let wraps: Vec<MetaCell<&str>> = diagram
        .iter_groups()
        .into_iter()
        .map(|(face, _)| MetaCell { data: "W", face })
        .collect();
    let next = diagram.into_next(wraps).unwrap();
    assert_eq!(next.level(), 2);
    assert_eq!(
        meta(&next, &leveled(1, &[0])),
        MetaCell {
            data: "W",
            face: Face {
                ends: vec![leveled(0, &[3, 0]), leveled(0, &[3, 1])],
                fill: leveled(0, &[3]),
            },
        }
    );
    assert_eq!(meta(&next, &leveled(0, &[3])).data, "g");
    assert_eq!(next.cell(&ground(0)), Ok(Cell::Ground("r")));
}

#[test]
fn lines_follow_the_cells_that_are_grouped_beneath() {
    let diagram = abc();
    let wrap = MetaCell {
        data: "W",
        face: Face { ends: vec![leveled(0, &[0]), leveled(0, &[1])], fill: leveled(0, &[2]) },
    };
    let mut next = diagram.into_next(vec![wrap]).unwrap();
    let res = next.extrude(&picks(0, &[], &[0, 1]), "g", "V");
    assert_eq!(
        res,
        EditResult::Done(Interaction::InPrevious {
            action: Action::Extrude {
                group: leveled(0, &[3]),
                contents: vec![leveled(0, &[3, 0]), leveled(0, &[3, 1])],
            },
            wraps: vec![leveled(1, &[1])],
        })
    );
    assert_eq!(top(&next), vec!["W", "V"]);
    assert_eq!(
        meta(&next, &leveled(1, &[0])).face,
        Face { ends: vec![leveled(0, &[3, 0]), leveled(0, &[3, 1])], fill: leveled(0, &[2]) }
    );
    assert_eq!(
        meta(&next, &leveled(1, &[1])),
        MetaCell {
            data: "V",
            face: Face {
                ends: vec![leveled(0, &[3, 0]), leveled(0, &[3, 1])],
                fill: leveled(0, &[3]),
            },
        }
    );
}

#[test]
fn copy_on_write_isolation() {
    let diagram = abc();
    let mut top = diagram.into_next(vec![]).unwrap();
    let before = top.clone();
    let res = top.extrude(&pick(3), "q", "w");
    assert_eq!(top, before);
    match res {
        EditResult::OkCopied { result, copy } => {
            assert_eq!(
                result,
                Interaction::InPrevious {
                    action: Action::Extrude { group: ground(4), contents: vec![ground(3)] },
                    wraps: vec![leveled(0, &[3])],
                }
            );
            assert_eq!(copy.level(), 1);
            assert_eq!(copy.cell(&ground(4)), Ok(Cell::Ground("q")));
            assert_eq!(top.cell(&ground(4)).is_err(), true);
            let mut copy = copy;
            assert_eq!(copy.rename(&ground(0), "changed"), Ok(()));
            assert_eq!(top.cell(&ground(0)), Ok(Cell::Ground("r")));
            assert_eq!(top.rename(&ground(1), "other"), Ok(()));
            assert_eq!(copy.cell(&ground(1)), Ok(Cell::Ground("x")));
        },
        other => panic!("not made on a copy: {:?}", other),
    }
}

#[test]
fn a_refused_edit_on_a_copy_changes_nothing() {
    let diagram = abc();
    let mut top = diagram.into_next(vec![]).unwrap();
    let before = top.clone();
    assert_eq!(
        top.extrude(&pick(0), "q", "w"),
        EditResult::Failed(Error::CannotExtrudeNestedCells(pick(0)))
    );
    assert_eq!(
        top.sprout(&ground(1), "q", "w"),
        EditResult::Failed(Error::CannotSproutGroup(ground(1)))
    );
    assert_eq!(
        top.split(&pick(8), "q", "w", "v"),
        EditResult::Failed(Error::NoCellWithInputs(vec![ground(8)]))
    );
    assert_eq!(top, before);
}

#[test]
fn level_monotonicity() {
    let diagram = abc();
    let second = diagram.into_next(vec![]).unwrap();
    let third = second.into_next(vec![]).unwrap();
    assert_eq!(third.level(), 3);
    for level in 0..=3 {
        let copy = third.deep_copy(level).unwrap();
        assert_eq!(copy.level(), level);
        assert!(copy.is_valid());
    }
    assert_eq!(third.deep_copy(4), Err(Error::TooMuchDepth(4)));
    let stack = Tail::Diagram(Box::new(third));
    assert_eq!(stack.checked_level(), Some(3));
    assert_eq!(stack.deep_copy(0).map(|tower| tower.level()), Ok(0));
}

#[test]
fn edit_results_are_handled() {
    let done: EditResult<u8, &str> = EditResult::from_result(Ok(1));
    assert_eq!(done, EditResult::Done(1));
    assert_eq!(done.unwrap(), 1);
    let failed: EditResult<u8, &str> = EditResult::from_result(Err(Error::TooMuchDepth(2)));
    assert_eq!(failed.ok(), Err(Error::TooMuchDepth(2)));
    let (_, tower) = Tower::init("r");
    let copied: EditResult<u8, &str> =
        EditResult::OkCopied { result: 2, copy: Tail::Tower(tower.clone()) };
    assert_eq!(
        copied.map(|n| n + 1),
        EditResult::OkCopied { result: 3, copy: Tail::Tower(tower.clone()) }
    );
    let done: EditResult<u8, &str> = EditResult::Done(1);
    assert_eq!(done.and_then(|n, copy| {
        assert!(copy.is_none());
        EditResult::<u8, &str>::Done(n + 1)
    }), EditResult::Done(2));
    let failed: EditResult<u8, &str> = EditResult::Failed(Error::TooMuchDepth(2));
    let mut seen = None;
    let failed = failed.inspect_err(|e| seen = Some(format!("{:?}", e)));
    assert_eq!(seen, Some("TooMuchDepth(2)".to_string()));
    assert_eq!(failed.or_else(|_| EditResult::Done(0)), EditResult::Done(0));
    let cell: Cell<&str> = Cell::Leveled(MetaCell {
        data: "m",
        face: Face { ends: vec![], fill: ground(0) },
    });
    assert_eq!(cell.data(), &"m");
    assert_eq!(cell.face().map(|face| face.fill.clone()), Some(ground(0)));
    assert_eq!(cell.to_data(), "m");
    assert_eq!(Cell::Ground("g").face(), None);
}

#[test]
fn a_stack_taken_apart_is_put_together_again() {
    let mut diagram = abc();
    assert!(diagram.group(&vec![path(&[0]), path(&[1])], "g").is_ok());
    let wraps: Vec<MetaCell<&str>> = diagram
        .iter_groups()
        .into_iter()
        .map(|(face, _)| MetaCell { data: "W", face })
        .collect();
    let top = diagram.into_next(wraps).unwrap();
    let copy = top.clone();
    let known = vec![
        ground(0),
        ground(3),
        leveled(0, &[0]),
        leveled(0, &[3]),
        leveled(0, &[3, 1]),
        leveled(1, &[0]),
    ];
    let (top_cells, second) = top.into_parts();
    let (second_cells, tower) = match second {
        Tail::Diagram(second) => second.into_parts(),
        Tail::Tower(_) => panic!("the second layer is a diagram"),
    };
    let tower_cells = match tower {
        Tail::Tower(tower) => tower.into_cells(),
        Tail::Diagram(_) => panic!("the lowest layer is a tower"),
    };
    let (vals, births, snapshots) = tower_cells.into_raw_parts();
    let tower_cells = eru::model::tracing_vec::TracingVec::from_raw_parts(vals, births, snapshots)
        .unwrap();
    let tower = Tower::from_cells(tower_cells).unwrap();
    let second = Diagram::from_parts(second_cells, Tail::Tower(tower)).unwrap();
    let back = Diagram::from_parts(top_cells, Tail::Diagram(Box::new(second))).unwrap();
    assert_eq!(back, copy);
    for index in known {
        assert_eq!(back.cell(&index), copy.cell(&index));
        assert!(back.cell(&index).is_ok());
    }
    let alive = TracingIndex::Timeless(slot(3));
    let (cells, _) = back.into_parts();
    assert!(!cells.is_alive(alive));
}

/// Every address that a face of the layer holds, nested cells included.
fn lines_of(diagram: &Diagram<&'static str>) -> Vec<ViewIndex> {
    fn collect(cells: &Cells, all: &mut Vec<ViewIndex>) {
        for at in 0..cells.store_len() {
            let cell = cells.slot(at);
            all.extend(cell.meta.face.ends.iter().cloned());
            all.push(cell.meta.face.fill.clone());
            if let Some(content) = &cell.content {
                collect(content, all);
            }
        }
    }
    let mut all = vec![];
    collect(diagram.cells(), &mut all);
    all
}

#[test]
fn every_line_resolves_in_the_layer_beneath() {
    let mut diagram = abc();
    assert!(diagram.group(&vec![path(&[0]), path(&[1])], "g").is_ok());
    assert!(diagram.sprout(&leveled(0, &[2]), "e", "-").ok().is_ok());
    let wraps: Vec<MetaCell<&str>> = diagram
        .iter_groups()
        .into_iter()
        .map(|(face, _)| MetaCell { data: "W", face })
        .collect();
    let mut top = diagram.into_next(wraps).unwrap();
    assert!(top.extrude(&picks(0, &[], &[3, 2]), "h", "V").ok().is_ok());
    assert!(top.split(&picks(0, &[4], &[0]), "i", "T", "B").ok().is_ok());
    assert!(top.sprout(&leveled(0, &[4, 1, 0]), "j", "U").ok().is_ok());
    assert!(top.is_valid());
    assert_eq!(top.level(), 2);
    let lines = lines_of(&top);
    assert!(lines.len() >= 8);
    for line in lines {
        assert_eq!(line.level(), 1);
        assert!(top.cell(&line).is_ok(), "{:?} resolves", line);
    }
    let second = match top.prev() {
        Tail::Diagram(second) => second,
        Tail::Tower(_) => panic!("the second layer is a diagram"),
    };
    for line in lines_of(second) {
        assert_eq!(line.level(), 0);
        assert!(second.cell(&line).is_ok(), "{:?} resolves", line);
    }
}

#[test]
fn cells_are_grouped_if_and_only_if_they_form_a_tree() {
    let choices: Vec<Vec<usize>> = vec![
        vec![0],
        vec![1],
        vec![2],
        vec![0, 1],
        vec![1, 2],
        vec![0, 2],
        vec![0, 1, 2],
        vec![2, 1, 0],
    ];
    for cells in choices {
        let mut diagram = abc();
        let faces: Vec<Face> = cells.iter().map(|c| meta(&diagram, &leveled(0, &[*c])).face).collect();
        let dangling = faces
            .iter()
            .filter(|face| !faces.iter().any(|other| other.ends.contains(&face.fill)))
            .count();
        let paths: Vec<_> = cells.iter().map(|c| path(&[*c])).collect();
        let res = diagram.group(&paths, "g");
        assert_eq!(res.is_ok(), dangling == 1, "{:?}", cells);
        if let Err(e) = res {
            let lines = cells.iter().map(|c| leveled(0, &[*c])).collect();
            assert_eq!(e, Error::CellsDoNotFormTree(lines));
        }
    }
}

#[test]
fn inputs_are_counted() {
    let mut diagram = abc();
    assert_eq!(diagram.input_count(), 1);
    assert!(diagram.group(&vec![path(&[1])], "g").is_ok());
    assert_eq!(diagram.input_count(), 1);
    assert_eq!(fresh().input_count(), 0);
    assert_eq!(leveled(0, &[1, 2]).as_paths(), vec![path(&[1, 2])]);
    assert_eq!(ground(3).as_paths(), vec![path(&[3])]);
}

#[test]
fn validity_is_seen_from_without() {
    let diagram = abc();
    assert!(diagram.is_valid());
    assert!(eru::opetope::diagram::parts::space_is_valid(diagram.cells()));
    assert!(diagram.prev().is_valid());
    assert_eq!(diagram.prev().checked_level(), Some(0));
    assert_eq!(diagram.cells().latest().len(), 3);
    let (cells, prev) = diagram.into_parts();
    let (vals, births, _) = cells.into_raw_parts();
    let broken = eru::model::tracing_vec::TracingVec::from_raw_parts(vals, births, vec![vec![5]]);
    assert!(broken.is_none());
    assert!(prev.is_valid());
}

type Cells = eru::model::tracing_vec::TracingVec<eru::opetope::diagram::Cell<&'static str>>;

fn numbers(all: &[usize]) -> serde_json::Value {
    serde_json::Value::Array(all.iter().map(|n| serde_json::Value::from(*n as u64)).collect())
}

fn read_numbers(value: &serde_json::Value) -> Vec<usize> {
    value.as_array().unwrap().iter().map(|n| n.as_u64().unwrap() as usize).collect()
}

fn write_index(index: &ViewIndex) -> serde_json::Value {
    let mut map = serde_json::Map::new();
    match index {
        ViewIndex::Ground(at) => {
            map.insert("ground".to_string(), serde_json::Value::from(at.pos as u64));
        },
        ViewIndex::Leveled { level, path } => {
            map.insert("level".to_string(), serde_json::Value::from(*level as u64));
            let slots: Vec<usize> = path.iter().map(|at| at.pos).collect();
            map.insert("path".to_string(), numbers(&slots));
        },
    }
    serde_json::Value::Object(map)
}

fn read_index(value: &serde_json::Value) -> ViewIndex {
    match value.get("ground") {
        Some(at) => ground(at.as_u64().unwrap() as usize),
        None => leveled(
            value["level"].as_u64().unwrap() as usize,
            &read_numbers(&value["path"]),
        ),
    }
}

fn write_cells(cells: Cells, names: &mut Vec<&'static str>) -> serde_json::Value {
    let (vals, births, snapshots) = cells.into_raw_parts();
    let mut stored = vec![];
    for cell in vals {
        let mut map = serde_json::Map::new();
        names.push(cell.meta.data);
        map.insert("data".to_string(), serde_json::Value::from((names.len() - 1) as u64));
        map.insert(
            "ends".to_string(),
            serde_json::Value::Array(cell.meta.face.ends.iter().map(write_index).collect()),
        );
        map.insert("fill".to_string(), write_index(&cell.meta.face.fill));
        map.insert(
            "content".to_string(),
            match cell.content {
                Some(content) => write_cells(content, names),
                None => serde_json::Value::Null,
            },
        );
        stored.push(serde_json::Value::Object(map));
    }
    let mut map = serde_json::Map::new();
    map.insert("cells".to_string(), serde_json::Value::Array(stored));
    map.insert("births".to_string(), numbers(&births));
    map.insert(
        "snapshots".to_string(),
        serde_json::Value::Array(snapshots.iter().map(|order| numbers(order)).collect()),
    );
    serde_json::Value::Object(map)
}

fn read_cells(value: &serde_json::Value, names: &[&'static str]) -> Cells {
    let mut vals = vec![];
    for stored in value["cells"].as_array().unwrap() {
        let content = match &stored["content"] {
            serde_json::Value::Null => None,
            content => Some(read_cells(content, names)),
        };
        vals.push(eru::opetope::diagram::Cell {
            meta: MetaCell {
                data: names[stored["data"].as_u64().unwrap() as usize],
                face: Face {
                    ends: stored["ends"].as_array().unwrap().iter().map(read_index).collect(),
                    fill: read_index(&stored["fill"]),
                },
            },
            content,
        });
    }
    let snapshots =
        value["snapshots"].as_array().unwrap().iter().map(read_numbers).collect();
    eru::model::tracing_vec::TracingVec::from_raw_parts(
        vals,
        read_numbers(&value["births"]),
        snapshots,
    )
    .unwrap()
}

#[test]
fn a_stack_written_as_text_is_read_again() {
    let mut diagram = abc();
    assert!(diagram.group(&vec![path(&[0]), path(&[1])], "g").is_ok());
    assert!(diagram.sprout(&leveled(0, &[2]), "e", "-").ok().is_ok());
    let wraps: Vec<MetaCell<&str>> = diagram
        .iter_groups()
        .into_iter()
        .map(|(face, _)| MetaCell { data: "W", face })
        .collect();
    let top = diagram.into_next(wraps).unwrap();
    let copy = top.clone();
    let mut names = vec![];
    let (top_cells, second) = top.into_parts();
    let (second_cells, tower) = match second {
        Tail::Diagram(second) => second.into_parts(),
        Tail::Tower(_) => panic!("the second layer is a diagram"),
    };
    let tower = match tower {
        Tail::Tower(tower) => tower,
        Tail::Diagram(_) => panic!("the lowest layer is a tower"),
    };
    let mut document = serde_json::Map::new();
    document.insert("top".to_string(), write_cells(top_cells, &mut names));
    document.insert("second".to_string(), write_cells(second_cells, &mut names));
    let text = serde_json::to_string(&serde_json::Value::Object(document)).unwrap();
    let read: serde_json::Value = serde_json::from_str(&text).unwrap();
    let second = Diagram::from_parts(read_cells(&read["second"], &names), Tail::Tower(tower));
    let back =
        Diagram::from_parts(read_cells(&read["top"], &names), Tail::Diagram(Box::new(second.unwrap())));
    assert_eq!(back, Some(copy));
}

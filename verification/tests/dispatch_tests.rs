use boardsm::dispatch::{Action, ActionError, ColumnPosition, TaskPosition};
use boardsm::id::{Id, IdGen};
use boardsm::store::{Board, Task};

/// The board's shape as (depth, identifier, text) in depth-first order:
/// columns left to right at depth 0, each followed by its task forest,
/// children before siblings.
fn shape(board: &Board) -> Vec<(usize, usize, String)> {
    let mut out = Vec::new();
    let mut col = &board.child;
    while let Some(c) = col {
        out.push((0, c.id.value, c.title.clone()));
        push_tasks(&c.child, 1, &mut out);
        col = &c.after;
    }
    out
}

fn push_tasks(slot: &Option<Box<Task>>, depth: usize, out: &mut Vec<(usize, usize, String)>) {
    let mut cur = slot;
    while let Some(t) = cur {
        out.push((depth, t.id.value, t.content.clone()));
        push_tasks(&t.child, depth + 1, out);
        cur = &t.after;
    }
}

fn entry(depth: usize, id: usize, text: &str) -> (usize, usize, String) {
    (depth, id, text.to_string())
}

#[test]
fn scenario_sprint_board() {
    let mut id_gen = IdGen::new();
    let mut board = Board::new(id_gen.gen(), "Sprint".to_string());
    board.feed_action(&mut id_gen, Action::AddColumn { title: "Start".to_string() }).unwrap();
    board.feed_action(&mut id_gen, Action::AddColumn { title: "Doing".to_string() }).unwrap();
    board.feed_action(&mut id_gen, Action::AddColumn { title: "Done".to_string() }).unwrap();

    board
        .feed_action(
            &mut id_gen,
            Action::AddTask { dest: Id { value: 2 }, content: "write spec".to_string() },
        )
        .unwrap();
    assert_eq!(
        shape(&board),
        vec![
            entry(0, 1, "Start"),
            entry(0, 2, "Doing"),
            entry(1, 4, "write spec"),
            entry(0, 3, "Done"),
        ],
    );

    board
        .feed_action(
            &mut id_gen,
            Action::EditTask { dest: Id { value: 4 }, content: "write spec v2".to_string() },
        )
        .unwrap();
    assert_eq!(
        shape(&board),
        vec![
            entry(0, 1, "Start"),
            entry(0, 2, "Doing"),
            entry(1, 4, "write spec v2"),
            entry(0, 3, "Done"),
        ],
    );

    board.feed_action(&mut id_gen, Action::DeleteColumn { dest: Id { value: 2 } }).unwrap();
    assert_eq!(shape(&board), vec![entry(0, 1, "Start"), entry(0, 3, "Done")]);
}

#[test]
fn scenario_move_column_to_front() {
    let mut id_gen = IdGen::new();
    let mut board = Board::new(id_gen.gen(), "test".to_string());
    board.feed_action(&mut id_gen, Action::AddColumn { title: "A".to_string() }).unwrap();
    board.feed_action(&mut id_gen, Action::AddColumn { title: "B".to_string() }).unwrap();
    board.feed_action(&mut id_gen, Action::AddColumn { title: "C".to_string() }).unwrap();

    board
        .feed_action(
            &mut id_gen,
            Action::MoveColumn { src: Id { value: 3 }, dest: ColumnPosition::FirstChild },
        )
        .unwrap();
    assert_eq!(shape(&board), vec![entry(0, 3, "C"), entry(0, 1, "A"), entry(0, 2, "B")]);
}

#[test]
fn scenario_subtask_becomes_sibling() {
    let mut id_gen = IdGen::new();
    let mut board = Board::new(id_gen.gen(), "test".to_string());
    board.feed_action(&mut id_gen, Action::AddColumn { title: "col".to_string() }).unwrap();
    board
        .feed_action(
            &mut id_gen,
            Action::AddTask { dest: Id { value: 1 }, content: "T1".to_string() },
        )
        .unwrap();
    board
        .feed_action(
            &mut id_gen,
            Action::AddTask { dest: Id { value: 2 }, content: "T2".to_string() },
        )
        .unwrap();
    assert_eq!(
        shape(&board),
        vec![entry(0, 1, "col"), entry(1, 2, "T1"), entry(2, 3, "T2")],
    );

    board
        .feed_action(
            &mut id_gen,
            Action::MoveTask {
                src: Id { value: 3 },
                dest: TaskPosition::After(Id { value: 2 }),
            },
        )
        .unwrap();
    assert_eq!(
        shape(&board),
        vec![entry(0, 1, "col"), entry(1, 2, "T1"), entry(1, 3, "T2")],
    );
}

#[test]
fn move_task_to_first_child_of_column() {
    let mut id_gen = IdGen::new();
    let mut board = Board::new(id_gen.gen(), "test".to_string());
    board.feed_action(&mut id_gen, Action::AddColumn { title: "a".to_string() }).unwrap();
    board.feed_action(&mut id_gen, Action::AddColumn { title: "b".to_string() }).unwrap();
    board
        .feed_action(
            &mut id_gen,
            Action::AddTask { dest: Id { value: 1 }, content: "one".to_string() },
        )
        .unwrap();
    board
        .feed_action(
            &mut id_gen,
            Action::AddTask { dest: Id { value: 2 }, content: "two".to_string() },
        )
        .unwrap();

    board
        .feed_action(
            &mut id_gen,
            Action::MoveTask {
                src: Id { value: 3 },
                dest: TaskPosition::FirstChildOf(Id { value: 2 }),
            },
        )
        .unwrap();
    assert_eq!(
        shape(&board),
        vec![entry(0, 1, "a"), entry(0, 2, "b"), entry(1, 3, "one"), entry(1, 4, "two")],
    );
}

#[test]
fn cascading_delete_removes_whole_subtree() {
    let mut id_gen = IdGen::new();
    let mut board = Board::new(id_gen.gen(), "test".to_string());
    board.feed_action(&mut id_gen, Action::AddColumn { title: "col".to_string() }).unwrap();
    board
        .feed_action(
            &mut id_gen,
            Action::AddTask { dest: Id { value: 1 }, content: "root".to_string() },
        )
        .unwrap();
    board
        .feed_action(
            &mut id_gen,
            Action::AddTask { dest: Id { value: 2 }, content: "sub".to_string() },
        )
        .unwrap();
    board
        .feed_action(
            &mut id_gen,
            Action::AddTask { dest: Id { value: 3 }, content: "subsub".to_string() },
        )
        .unwrap();
    assert_eq!(shape(&board).len(), 4);

    board.feed_action(&mut id_gen, Action::DeleteTask { dest: Id { value: 2 } }).unwrap();
    assert_eq!(shape(&board), vec![entry(0, 1, "col")]);
}

#[test]
fn move_preserves_node_and_subtree() {
    let mut id_gen = IdGen::new();
    let mut board = Board::new(id_gen.gen(), "test".to_string());
    board.feed_action(&mut id_gen, Action::AddColumn { title: "a".to_string() }).unwrap();
    board.feed_action(&mut id_gen, Action::AddColumn { title: "b".to_string() }).unwrap();
    board
        .feed_action(
            &mut id_gen,
            Action::AddTask { dest: Id { value: 1 }, content: "parent".to_string() },
        )
        .unwrap();
    board
        .feed_action(
            &mut id_gen,
            Action::AddTask { dest: Id { value: 3 }, content: "kid".to_string() },
        )
        .unwrap();

    board
        .feed_action(
            &mut id_gen,
            Action::MoveTask {
                src: Id { value: 3 },
                dest: TaskPosition::FirstChildOf(Id { value: 2 }),
            },
        )
        .unwrap();
    assert_eq!(
        shape(&board),
        vec![
            entry(0, 1, "a"),
            entry(0, 2, "b"),
            entry(1, 3, "parent"),
            entry(2, 4, "kid"),
        ],
    );
}

#[test]
fn add_commands_export_in_insertion_order() {
    let mut id_gen = IdGen::new();
    let mut board = Board::new(id_gen.gen(), "test".to_string());
    board.feed_action(&mut id_gen, Action::AddColumn { title: "a".to_string() }).unwrap();
    board.feed_action(&mut id_gen, Action::AddColumn { title: "b".to_string() }).unwrap();
    board
        .feed_action(
            &mut id_gen,
            Action::AddTask { dest: Id { value: 1 }, content: "a1".to_string() },
        )
        .unwrap();
    board
        .feed_action(
            &mut id_gen,
            Action::AddTask { dest: Id { value: 1 }, content: "a2".to_string() },
        )
        .unwrap();
    board
        .feed_action(
            &mut id_gen,
            Action::AddTask { dest: Id { value: 2 }, content: "b1".to_string() },
        )
        .unwrap();
    assert_eq!(
        shape(&board),
        vec![
            entry(0, 1, "a"),
            entry(1, 3, "a1"),
            entry(1, 4, "a2"),
            entry(0, 2, "b"),
            entry(1, 5, "b1"),
        ],
    );
}

#[test]
fn failed_lookups_leave_tree_untouched() {
    let mut id_gen = IdGen::new();
    let mut board = Board::new(id_gen.gen(), "test".to_string());
    board.feed_action(&mut id_gen, Action::AddColumn { title: "col".to_string() }).unwrap();
    board
        .feed_action(
            &mut id_gen,
            Action::AddTask { dest: Id { value: 1 }, content: "t".to_string() },
        )
        .unwrap();
    let before = shape(&board);
    let missing = Id { value: 99 };

    let r = board.feed_action(
        &mut id_gen,
        Action::AddTask { dest: missing, content: "x".to_string() },
    );
    assert_eq!(r, Err(ActionError::NotFound));
    assert_eq!(shape(&board), before);

    let r = board.feed_action(&mut id_gen, Action::DeleteColumn { dest: missing });
    assert_eq!(r, Err(ActionError::NotFound));
    assert_eq!(shape(&board), before);

    let r = board.feed_action(&mut id_gen, Action::DeleteTask { dest: missing });
    assert_eq!(r, Err(ActionError::NotFound));
    assert_eq!(shape(&board), before);

    let r = board.feed_action(
        &mut id_gen,
        Action::MoveTask { src: missing, dest: TaskPosition::After(Id { value: 2 }) },
    );
    assert_eq!(r, Err(ActionError::NotFound));
    assert_eq!(shape(&board), before);

    let r = board.feed_action(
        &mut id_gen,
        Action::MoveTask { src: Id { value: 2 }, dest: TaskPosition::After(missing) },
    );
    assert_eq!(r, Err(ActionError::NotFound));
    assert_eq!(shape(&board), before);

    let r = board.feed_action(
        &mut id_gen,
        Action::MoveColumn { src: missing, dest: ColumnPosition::FirstChild },
    );
    assert_eq!(r, Err(ActionError::NotFound));
    assert_eq!(shape(&board), before);

    let r = board.feed_action(
        &mut id_gen,
        Action::MoveColumn { src: Id { value: 1 }, dest: ColumnPosition::After(missing) },
    );
    assert_eq!(r, Err(ActionError::NotFound));
    assert_eq!(shape(&board), before);

    let r = board.feed_action(
        &mut id_gen,
        Action::EditTask { dest: missing, content: "x".to_string() },
    );
    assert_eq!(r, Err(ActionError::NotFound));
    assert_eq!(shape(&board), before);

    let r = board.feed_action(
        &mut id_gen,
        Action::EditColumn { dest: missing, title: "x".to_string() },
    );
    assert_eq!(r, Err(ActionError::NotFound));
    assert_eq!(shape(&board), before);
}

#[test]
fn move_into_own_subtree_is_rejected() {
    let mut id_gen = IdGen::new();
    let mut board = Board::new(id_gen.gen(), "test".to_string());
    board.feed_action(&mut id_gen, Action::AddColumn { title: "col".to_string() }).unwrap();
    board
        .feed_action(
            &mut id_gen,
            Action::AddTask { dest: Id { value: 1 }, content: "parent".to_string() },
        )
        .unwrap();
    board
        .feed_action(
            &mut id_gen,
            Action::AddTask { dest: Id { value: 2 }, content: "kid".to_string() },
        )
        .unwrap();
    let before = shape(&board);

    // the destination is the moved task itself
    let r = board.feed_action(
        &mut id_gen,
        Action::MoveTask {
            src: Id { value: 2 },
            dest: TaskPosition::After(Id { value: 2 }),
        },
    );
    assert_eq!(r, Err(ActionError::NotFound));
    assert_eq!(shape(&board), before);

    // the destination lies inside the moved subtree
    let r = board.feed_action(
        &mut id_gen,
        Action::MoveTask {
            src: Id { value: 2 },
            dest: TaskPosition::FirstChildOf(Id { value: 3 }),
        },
    );
    assert_eq!(r, Err(ActionError::NotFound));
    assert_eq!(shape(&board), before);
}

#[test]
fn add_task_on_empty_board_is_rejected() {
    let mut id_gen = IdGen::new();
    let mut board = Board::new(id_gen.gen(), "test".to_string());
    let r = board.feed_action(
        &mut id_gen,
        Action::AddTask { dest: Id { value: 1 }, content: "t".to_string() },
    );
    assert_eq!(r, Err(ActionError::NotFound));
    assert!(shape(&board).is_empty());
}

#[test]
fn edit_board_changes_title_only() {
    let mut id_gen = IdGen::new();
    let mut board = Board::new(id_gen.gen(), "old".to_string());
    board.feed_action(&mut id_gen, Action::AddColumn { title: "col".to_string() }).unwrap();
    let before = shape(&board);
    board.feed_action(&mut id_gen, Action::EditBoard { title: "new".to_string() }).unwrap();
    assert_eq!(board.title, "new".to_string());
    assert_eq!(shape(&board), before);
}

#[test]
fn edit_column_changes_title_in_place() {
    let mut id_gen = IdGen::new();
    let mut board = Board::new(id_gen.gen(), "test".to_string());
    board.feed_action(&mut id_gen, Action::AddColumn { title: "a".to_string() }).unwrap();
    board.feed_action(&mut id_gen, Action::AddColumn { title: "b".to_string() }).unwrap();
    board
        .feed_action(
            &mut id_gen,
            Action::EditColumn { dest: Id { value: 1 }, title: "a2".to_string() },
        )
        .unwrap();
    assert_eq!(shape(&board), vec![entry(0, 1, "a2"), entry(0, 2, "b")]);
}

#[test]
fn move_column_after_column() {
    let mut id_gen = IdGen::new();
    let mut board = Board::new(id_gen.gen(), "test".to_string());
    board.feed_action(&mut id_gen, Action::AddColumn { title: "A".to_string() }).unwrap();
    board.feed_action(&mut id_gen, Action::AddColumn { title: "B".to_string() }).unwrap();
    board.feed_action(&mut id_gen, Action::AddColumn { title: "C".to_string() }).unwrap();

    board
        .feed_action(
            &mut id_gen,
            Action::MoveColumn {
                src: Id { value: 1 },
                dest: ColumnPosition::After(Id { value: 3 }),
            },
        )
        .unwrap();
    assert_eq!(shape(&board), vec![entry(0, 2, "B"), entry(0, 3, "C"), entry(0, 1, "A")]);
}

#[test]
fn id_gen_counts_up() {
    let mut id_gen = IdGen::new();
    let a = id_gen.gen();
    let b = id_gen.gen();
    let c = id_gen.gen();
    assert_eq!(a.value, 0);
    assert_eq!(b.value, 1);
    assert_eq!(c.value, 2);
    assert!(a != b);
}

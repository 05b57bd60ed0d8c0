use boardsm::id::IdGen;
use boardsm::store::{Board, Column, Task};

fn wrap_ptr<T>(value: T) -> Option<Box<T>> {
    Some(Box::new(value))
}

#[test]
fn add_remove_task() {
    let mut id_gen = IdGen::new();
    let mut board = Board::new(id_gen.gen(), "test".to_string());
    let task = id_gen.gen();
    let start = Column {
        id: id_gen.gen(),
        title: "start".to_string(),
        child: wrap_ptr(Task {
            id: id_gen.gen(),
            content: "first".to_string(),
            child: None,
            after: wrap_ptr(Task {
                id: task,
                content: "second".to_string(),
                child: None,
                after: wrap_ptr(Task {
                    id: id_gen.gen(),
                    child: None,
                    content: "third".to_string(),
                    after: wrap_ptr(Task {
                        id: id_gen.gen(),
                        child: None,
                        content: "fourth".to_string(),
                        after: None,
                    }),
                }),
            }),
        }),
        after: None,
    };

    Board::add_column_to_board_last_child(&mut board, start);

    let removed = Board::remove_task(&mut board, task);
    assert_eq!(removed.id, task);
}

#[test]
fn add_remove_start() {
    let mut id_gen = IdGen::new();
    let mut board = Board::new(id_gen.gen(), "test".to_string());
    let start_id = id_gen.gen();
    let start = Column {
        id: start_id,
        title: "start".to_string(),
        child: None,
        after: None,
    };

    let middle_id = id_gen.gen();
    let middle = Column {
        id: middle_id,
        title: "middle".to_string(),
        child: None,
        after: None,
    };

    let end_id = id_gen.gen();
    let end = Column {
        id: end_id,
        title: "end".to_string(),
        child: None,
        after: None,
    };
    Board::add_column_to_board_last_child(&mut board, start);
    Board::add_column_to_board_last_child(&mut board, middle);
    Board::add_column_to_board_last_child(&mut board, end);

    let removed = Board::remove_column(&mut board, start_id);
    assert_eq!(removed.title, "start".to_string());
    assert_eq!(removed.id, start_id);
}

#[test]
fn add_remove_middle() {
    let mut id_gen = IdGen::new();
    let mut board = Board::new(id_gen.gen(), "test".to_string());
    let start_id = id_gen.gen();
    let start = Column {
        id: start_id,
        title: "start".to_string(),
        child: None,
        after: None,
    };

    let middle_id = id_gen.gen();
    let middle = Column {
        id: middle_id,
        title: "middle".to_string(),
        child: None,
        after: None,
    };

    let end_id = id_gen.gen();
    let end = Column {
        id: end_id,
        title: "end".to_string(),
        child: None,
        after: None,
    };
    Board::add_column_to_board_last_child(&mut board, start);
    Board::add_column_to_board_last_child(&mut board, middle);
    Board::add_column_to_board_last_child(&mut board, end);

    let removed = Board::remove_column(&mut board, middle_id);
    assert_eq!(removed.title, "middle".to_string());
    assert_eq!(removed.id, middle_id);
}

#[test]
fn remove_task_relinks_siblings() {
    let mut id_gen = IdGen::new();
    let mut board = Board::new(id_gen.gen(), "test".to_string());
    let first_id = id_gen.gen();
    let second_id = id_gen.gen();
    let third_id = id_gen.gen();
    let col_id = id_gen.gen();
    let start = Column {
        id: col_id,
        title: "start".to_string(),
        child: wrap_ptr(Task {
            id: first_id,
            content: "first".to_string(),
            child: None,
            after: wrap_ptr(Task {
                id: second_id,
                content: "second".to_string(),
                child: None,
                after: wrap_ptr(Task {
                    id: third_id,
                    content: "third".to_string(),
                    child: None,
                    after: None,
                }),
            }),
        }),
        after: None,
    };
    Board::add_column_to_board_last_child(&mut board, start);

    let removed = Board::remove_task(&mut board, second_id);
    assert_eq!(removed.id, second_id);
    assert!(removed.after.is_none());

    let col = board.child.as_ref().unwrap();
    let first = col.child.as_ref().unwrap();
    assert_eq!(first.id, first_id);
    let third = first.after.as_ref().unwrap();
    assert_eq!(third.id, third_id);
    assert!(third.after.is_none());
}

#[test]
fn remove_task_keeps_subtree_attached() {
    let mut id_gen = IdGen::new();
    let mut board = Board::new(id_gen.gen(), "test".to_string());
    let parent_id = id_gen.gen();
    let sub_id = id_gen.gen();
    let col_id = id_gen.gen();
    let start = Column {
        id: col_id,
        title: "start".to_string(),
        child: wrap_ptr(Task {
            id: parent_id,
            content: "parent".to_string(),
            child: wrap_ptr(Task {
                id: sub_id,
                content: "sub".to_string(),
                child: None,
                after: None,
            }),
            after: None,
        }),
        after: None,
    };
    Board::add_column_to_board_last_child(&mut board, start);

    let removed = Board::remove_task(&mut board, parent_id);
    assert_eq!(removed.id, parent_id);
    let sub = removed.child.as_ref().unwrap();
    assert_eq!(sub.id, sub_id);
    assert_eq!(sub.content, "sub".to_string());

    let col = board.child.as_ref().unwrap();
    assert!(col.child.is_none());
}

use boardsm::arena::{Board, Column, Task};

#[test]
fn arena_starts_empty() {
    let board = Board::new("test".to_string());
    assert_eq!(board.title, "test".to_string());
    assert!(board.columns.is_empty());
    assert!(board.tasks.is_empty());
}

#[test]
fn arena_add_col_appends() {
    let mut board = Board::new("test".to_string());
    board.add_col("start".to_string());
    board.add_col("done".to_string());
    assert_eq!(board.columns.len(), 2);
    assert_eq!(board.columns[0].title, "start".to_string());
    assert_eq!(board.columns[1].title, "done".to_string());
    assert!(board.columns[0].child.is_none());
}

#[test]
fn arena_add_task_links_chain() {
    let mut board = Board::new("test".to_string());
    let mut col = Column { title: "start".to_string(), child: None };
    board.add_task(&mut col, "first".to_string());
    board.add_task(&mut col, "second".to_string());
    board.add_task(&mut col, "third".to_string());

    assert_eq!(board.tasks.len(), 3);
    assert_eq!(col.child.unwrap().0, 0);
    assert_eq!(board.tasks[0].after.unwrap().0, 1);
    assert_eq!(board.tasks[1].after.unwrap().0, 2);
    assert!(board.tasks[2].after.is_none());
    assert_eq!(board.tasks[2].content, "third".to_string());
}

#[test]
fn arena_add_subtask_links_child_chain() {
    let mut board = Board::new("test".to_string());
    let mut col = Column { title: "start".to_string(), child: None };
    board.add_task(&mut col, "parent".to_string());
    board.add_subtask(Task(0), "sub one".to_string());
    board.add_subtask(Task(0), "sub two".to_string());

    assert_eq!(board.tasks.len(), 3);
    assert_eq!(board.tasks[0].child.unwrap().0, 1);
    assert_eq!(board.tasks[1].after.unwrap().0, 2);
    assert!(board.tasks[2].after.is_none());
    assert_eq!(board.tasks[1].content, "sub one".to_string());
    assert_eq!(board.tasks[2].content, "sub two".to_string());
}

#[test]
fn arena_last_task_sibling_walks_to_end() {
    let mut board = Board::new("test".to_string());
    let mut col = Column { title: "start".to_string(), child: None };
    board.add_task(&mut col, "first".to_string());
    board.add_task(&mut col, "second".to_string());
    board.add_task(&mut col, "third".to_string());

    assert_eq!(board.last_task_sibling(Task(0)).0, 2);
    assert_eq!(board.last_task_sibling(Task(1)).0, 2);
    assert_eq!(board.last_task_sibling(Task(2)).0, 2);
}

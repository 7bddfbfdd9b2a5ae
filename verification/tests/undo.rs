use hawktui::util::undo::UndoStack;

#[test]
fn push_and_pop() {
    let mut undo: UndoStack<i32> = UndoStack::new(10);
    undo.push(1);
    undo.push(2);
    undo.push(3);
    assert_eq!(undo.pop(), Some(3));
    assert_eq!(undo.pop(), Some(2));
    assert_eq!(undo.pop(), Some(1));
    assert_eq!(undo.pop(), None);
}

#[test]
fn max_depth_enforced() {
    let mut undo: UndoStack<i32> = UndoStack::new(3);
    undo.push(1);
    undo.push(2);
    undo.push(3);
    undo.push(4); // pushes out 1
    assert_eq!(undo.len(), 3);
    assert_eq!(undo.pop(), Some(4));
    assert_eq!(undo.pop(), Some(3));
    assert_eq!(undo.pop(), Some(2));
    assert_eq!(undo.pop(), None);
}

#[test]
fn peek_does_not_remove() {
    let mut undo: UndoStack<i32> = UndoStack::new(10);
    undo.push(42);
    assert_eq!(undo.peek(), Some(&42));
    assert_eq!(undo.len(), 1);
}

#[test]
fn clear_empties_stack() {
    let mut undo: UndoStack<i32> = UndoStack::new(10);
    undo.push(1);
    undo.push(2);
    undo.clear();
    assert!(undo.is_empty());
}

#[test]
fn undo_stack_doc_example() {
    let mut undo: UndoStack<String> = UndoStack::new(50);
    undo.push("hello".to_string());
    undo.push("hello world".to_string());
    assert_eq!(undo.pop(), Some("hello world".to_string()));
    assert_eq!(undo.pop(), Some("hello".to_string()));
    assert_eq!(undo.pop(), None);
}

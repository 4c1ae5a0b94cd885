use todo_list::command::ListType;
use todo_list::store::{
    add_new_todo, complete_todo, parse_index, remove_todo, IndexError, ListEntry, TodoList,
};

fn list_of(items: &[(&str, bool)]) -> TodoList {
    let mut l = TodoList::new();
    for (i, (d, done)) in items.iter().enumerate() {
        l.add(d.to_string());
        if *done {
            l.complete(i + 1).unwrap();
        }
    }
    l
}

fn pairs(l: &TodoList) -> Vec<(String, bool)> {
    l.items().iter().map(|i| (i.description.clone(), i.completed)).collect()
}

fn shown(entries: &[ListEntry]) -> Vec<(usize, String, Option<char>)> {
    entries.iter().map(|e| (e.number, e.description.clone(), e.marker)).collect()
}

#[test]
fn add_then_remove_first_empties_the_list() {
    let mut l = TodoList::new();
    l.add("buy milk".to_string());
    assert_eq!(l.len(), 1);
    assert_eq!(l.remove(1), Ok("buy milk".to_string()));
    assert_eq!(l.len(), 0);
}

#[test]
fn add_appends_an_open_item() {
    let mut l = list_of(&[("a", true)]);
    l.add("b".to_string());
    assert_eq!(pairs(&l), vec![("a".to_string(), true), ("b".to_string(), false)]);
}

#[test]
fn remove_out_of_range_changes_nothing() {
    let mut l = list_of(&[("a", false), ("b", true)]);
    assert_eq!(l.remove(0), Err(IndexError::OutOfRange(2)));
    assert_eq!(l.remove(3), Err(IndexError::OutOfRange(2)));
    assert_eq!(pairs(&l), vec![("a".to_string(), false), ("b".to_string(), true)]);
}

#[test]
fn complete_out_of_range_changes_nothing() {
    let mut l = list_of(&[("a", false), ("b", false)]);
    assert_eq!(l.complete(0), Err(IndexError::OutOfRange(2)));
    assert_eq!(l.complete(3), Err(IndexError::OutOfRange(2)));
    assert_eq!(pairs(&l), vec![("a".to_string(), false), ("b".to_string(), false)]);
}

#[test]
fn out_of_range_on_empty_list() {
    let mut l = TodoList::new();
    assert_eq!(l.remove(1), Err(IndexError::OutOfRange(0)));
    assert_eq!(l.complete(1), Err(IndexError::OutOfRange(0)));
    assert_eq!(l.len(), 0);
}

#[test]
fn last_item_can_be_removed_and_completed() {
    let mut l = list_of(&[("a", false), ("b", false), ("c", false)]);
    assert_eq!(l.complete(3), Ok("c".to_string()));
    assert_eq!(l.remove(3), Ok("c".to_string()));
    assert_eq!(pairs(&l), vec![("a".to_string(), false), ("b".to_string(), false)]);
}

#[test]
fn remove_keeps_the_order_of_the_rest() {
    let mut l = list_of(&[("a", false), ("b", true), ("c", false)]);
    assert_eq!(l.remove(2), Ok("b".to_string()));
    assert_eq!(pairs(&l), vec![("a".to_string(), false), ("c".to_string(), false)]);
}

#[test]
fn complete_twice_is_no_error() {
    let mut l = list_of(&[("a", false), ("b", false)]);
    assert_eq!(l.complete(2), Ok("b".to_string()));
    assert_eq!(l.complete(2), Ok("b".to_string()));
    assert_eq!(pairs(&l), vec![("a".to_string(), false), ("b".to_string(), true)]);
}

#[test]
fn listing_by_scope() {
    let l = list_of(&[("a", false), ("b", true), ("c", false)]);
    assert_eq!(
        shown(&l.list(ListType::Open)),
        vec![(1, "a".to_string(), None), (2, "c".to_string(), None)]
    );
    assert_eq!(shown(&l.list(ListType::Done)), vec![(1, "b".to_string(), None)]);
    assert_eq!(
        shown(&l.list(ListType::All)),
        vec![
            (1, "a".to_string(), Some('O')),
            (2, "b".to_string(), Some('X')),
            (3, "c".to_string(), Some('O')),
        ]
    );
}

#[test]
fn listing_an_empty_list() {
    let l = TodoList::new();
    assert!(l.list(ListType::All).is_empty());
    assert!(l.list(ListType::Done).is_empty());
}

#[test]
fn index_text_is_decimal() {
    assert_eq!(parse_index("1"), Ok(1));
    assert_eq!(parse_index("+3"), Ok(3));
    assert_eq!(parse_index("007"), Ok(7));
    assert_eq!(parse_index("0"), Ok(0));
    assert_eq!(parse_index("42"), Ok(42));
}

#[test]
fn malformed_index_text() {
    for t in ["", "+", "-1", "abc", "1a", " 1", "1.0", "١"] {
        assert_eq!(parse_index(t), Err(IndexError::NotANumber), "{:?}", t);
    }
}

#[test]
fn index_too_large_for_usize() {
    let max = usize::MAX.to_string();
    assert_eq!(parse_index(&max), Ok(usize::MAX));
    let over = format!("{}0", max);
    assert_eq!(parse_index(&over), Err(IndexError::NotANumber));
}

#[test]
fn add_new_todo_trims_the_line() {
    let mut l = TodoList::new();
    assert_eq!(add_new_todo(&mut l, "  buy milk \n"), "buy milk");
    assert_eq!(pairs(&l), vec![("buy milk".to_string(), false)]);
}

#[test]
fn remove_todo_reads_the_index() {
    let mut l = list_of(&[("a", false), ("b", false)]);
    assert_eq!(remove_todo(&mut l, "two\n"), Err(IndexError::NotANumber));
    assert_eq!(remove_todo(&mut l, " 5 \n"), Err(IndexError::OutOfRange(2)));
    assert_eq!(remove_todo(&mut l, " 1 \n"), Ok("a".to_string()));
    assert_eq!(pairs(&l), vec![("b".to_string(), false)]);
}

#[test]
fn complete_todo_reads_the_index() {
    let mut l = list_of(&[("a", false)]);
    assert_eq!(complete_todo(&mut l, "\n"), Err(IndexError::NotANumber));
    assert_eq!(complete_todo(&mut l, "0\n"), Err(IndexError::OutOfRange(1)));
    assert_eq!(complete_todo(&mut l, "\t1\r\n"), Ok("a".to_string()));
    assert_eq!(pairs(&l), vec![("a".to_string(), true)]);
}

#[test]
fn add_new_todo_trims_unicode_white_space() {
    let mut l = TodoList::new();
    assert_eq!(add_new_todo(&mut l, "\u{3000}tea\u{00A0}\u{2009}\n"), "tea");
    assert_eq!(add_new_todo(&mut l, "\u{200B}x\n"), "\u{200B}x");
}

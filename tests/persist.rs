use todo_list::persist::split_lines;
use todo_list::store::TodoList;

fn list_of(items: &[(&str, bool)]) -> TodoList {
    let mut l = TodoList::new();
    for (i, (d, done)) in items.iter().enumerate() {
        l.add(d.to_string());
        if *done {
            l.complete(i + 1).unwrap();
        }
    }
    l
}

fn pairs(l: &TodoList) -> Vec<(String, bool)> {
    l.items().iter().map(|i| (i.description.clone(), i.completed)).collect()
}

#[test]
fn save_text_has_two_lines_per_item() {
    let l = list_of(&[("a", false), ("b c", true)]);
    assert_eq!(l.to_save_text(), "a\nfalse\nb c\ntrue\n");
    assert_eq!(TodoList::new().to_save_text(), "");
}

#[test]
fn save_then_load_gives_the_same_items() {
    let l = list_of(&[("buy milk", false), ("call mum", true), ("", false), ("true", true)]);
    let loaded = TodoList::from_save_text(&l.to_save_text());
    assert_eq!(pairs(&loaded), pairs(&l));
}

#[test]
fn dangling_last_line_is_dropped() {
    let l = TodoList::from_save_text("a\ntrue\nb\nfalse\nc\n");
    assert_eq!(l.len(), 2);
    assert_eq!(pairs(&l), vec![("a".to_string(), true), ("b".to_string(), false)]);
    let l = TodoList::from_save_text("only");
    assert_eq!(l.len(), 0);
}

#[test]
fn flag_other_than_true_means_open() {
    let l = TodoList::from_save_text("a\nTrue\nb\nyes\nc\ntrue");
    assert_eq!(
        pairs(&l),
        vec![("a".to_string(), false), ("b".to_string(), false), ("c".to_string(), true)]
    );
}

#[test]
fn crlf_files_load() {
    let l = TodoList::from_save_text("a\r\ntrue\r\nb\r\nfalse\r\n");
    assert_eq!(pairs(&l), vec![("a".to_string(), true), ("b".to_string(), false)]);
}

#[test]
fn empty_file_loads_empty_list() {
    assert_eq!(TodoList::from_save_text("").len(), 0);
}

#[test]
fn split_lines_matches_str_lines() {
    for text in ["", "\n", "a", "a\n", "a\nb", "a\r\nb\r\n", "\n\nx\n", "a\r", "a\rb\n", "é\nü"] {
        let expected: Vec<String> = text.lines().map(|s| s.to_string()).collect();
        assert_eq!(split_lines(text), expected, "{:?}", text);
    }
}

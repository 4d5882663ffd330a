use rusty_cleaner::browser::{to_flat_index, toggle_mark, Action, Browser, Key, Selection};
use rusty_cleaner::catalog::Catalog;
use rusty_cleaner::rows::{list_rows, Row};

/// Categories ".env" (folder 2), "JavaScript" (folders 1, 3), "Rust" (folders 0, 4).
fn sample() -> Catalog {
    let mut c = Catalog::new();
    for n in ["Rust", "JavaScript", ".env", "JavaScript", "Rust"] {
        c.record(n.to_string());
    }
    c
}

fn press(b: &mut Browser, c: &Catalog, keys: &[Key]) -> Action {
    let mut last = Action::Continue;
    for k in keys {
        assert!(!b.panics_on(c, *k));
        last = b.handle_key(c, *k);
    }
    last
}

#[test]
fn flat_index_counts_rows_above() {
    assert_eq!(to_flat_index(&Selection::Category(3)), 3);
    assert_eq!(to_flat_index(&Selection::Path(2, 0)), 3);
    assert_eq!(to_flat_index(&Selection::Path(1, 4)), 6);
}

#[test]
fn starts_on_first_category() {
    let b = Browser::new();
    assert_eq!(b.selection, Selection::Category(0));
    assert!(!b.expanded && !b.confirm && !b.confirm_choice);
    assert!(b.marked.is_empty());
}

#[test]
fn down_moves_through_categories_and_stops_at_the_last() {
    let c = sample();
    let mut b = Browser::new();
    press(&mut b, &c, &[Key::Down]);
    assert_eq!(b.selection, Selection::Category(1));
    press(&mut b, &c, &[Key::Down, Key::Down, Key::Down]);
    assert_eq!(b.selection, Selection::Category(2));
    press(&mut b, &c, &[Key::Up, Key::Up, Key::Up]);
    assert_eq!(b.selection, Selection::Category(0));
}

#[test]
fn opening_and_walking_a_category() {
    let c = sample();
    let mut b = Browser::new();
    press(&mut b, &c, &[Key::Down, Key::Right, Key::Down]);
    assert_eq!(b.selection, Selection::Path(1, 0));
    assert!(b.expanded);
    press(&mut b, &c, &[Key::Down]);
    assert_eq!(b.selection, Selection::Path(1, 1));
    // Past the last folder: the next category, closed.
    press(&mut b, &c, &[Key::Down]);
    assert_eq!(b.selection, Selection::Category(2));
    assert!(!b.expanded);
}

#[test]
fn up_from_first_folder_returns_to_category() {
    let c = sample();
    let mut b = Browser::new();
    press(&mut b, &c, &[Key::Right, Key::Down, Key::Up]);
    assert_eq!(b.selection, Selection::Category(0));
    assert!(b.expanded);
}

#[test]
fn left_leaves_folder_then_closes() {
    let c = sample();
    let mut b = Browser::new();
    press(&mut b, &c, &[Key::Right, Key::Down, Key::Left]);
    assert_eq!(b.selection, Selection::Category(0));
    assert!(b.expanded);
    press(&mut b, &c, &[Key::Left]);
    assert!(!b.expanded);
}

#[test]
fn tab_cycles_categories() {
    let c = sample();
    let mut b = Browser::new();
    press(&mut b, &c, &[Key::Tab, Key::Tab]);
    assert_eq!(b.selection, Selection::Category(2));
    press(&mut b, &c, &[Key::Tab]);
    assert_eq!(b.selection, Selection::Category(0));
    press(&mut b, &c, &[Key::Right, Key::Down, Key::Tab]);
    assert_eq!(b.selection, Selection::Path(0, 0));
}

#[test]
fn space_marks_and_unmarks() {
    let c = sample();
    let mut b = Browser::new();
    press(&mut b, &c, &[Key::Space]);
    assert!(b.marked.is_empty());
    press(&mut b, &c, &[Key::Down, Key::Right, Key::Down, Key::Space, Key::Down, Key::Space]);
    assert_eq!(b.marked, vec![1, 3]);
    press(&mut b, &c, &[Key::Up, Key::Space]);
    assert_eq!(b.marked, vec![3]);
    press(&mut b, &c, &[Key::Space, Key::Space]);
    assert_eq!(b.marked, vec![3]);
}

#[test]
fn marking_twice_restores_marks() {
    let c = sample();
    let mut b = Browser::new();
    press(&mut b, &c, &[Key::Right, Key::Down, Key::Down, Key::Space]);
    let before = b.marked.clone();
    press(&mut b, &c, &[Key::Up, Key::Space, Key::Space]);
    assert_eq!(b.marked, before);
}

#[test]
fn toggle_removes_every_copy() {
    let mut m = vec![5, 2, 5, 7];
    toggle_mark(&mut m, 5);
    assert_eq!(m, vec![2, 7]);
    toggle_mark(&mut m, 9);
    assert_eq!(m, vec![2, 7, 9]);
}

#[test]
fn dialog_freezes_the_list_and_chooses() {
    let c = sample();
    let mut b = Browser::new();
    press(&mut b, &c, &[Key::Delete]);
    assert!(b.confirm);
    press(&mut b, &c, &[Key::Down, Key::Tab, Key::Space, Key::Up]);
    assert_eq!(b.selection, Selection::Category(0));
    assert!(b.marked.is_empty());
    press(&mut b, &c, &[Key::Left]);
    assert!(b.confirm_choice);
    press(&mut b, &c, &[Key::Right]);
    assert!(!b.confirm_choice);
    // Enter on "no" closes the dialog.
    assert_eq!(press(&mut b, &c, &[Key::Enter]), Action::Continue);
    assert!(!b.confirm);
}

#[test]
fn enter_on_yes_deletes() {
    let c = sample();
    let mut b = Browser::new();
    assert_eq!(press(&mut b, &c, &[Key::Delete, Key::Left, Key::Enter]), Action::Delete);
    assert!(b.confirm && b.confirm_choice);
}

#[test]
fn d_twice_closes_dialog_and_q_quits() {
    let c = sample();
    let mut b = Browser::new();
    press(&mut b, &c, &[Key::Delete, Key::Delete]);
    assert!(!b.confirm);
    assert_eq!(press(&mut b, &c, &[Key::Quit]), Action::Quit);
    assert_eq!(press(&mut b, &c, &[Key::Delete, Key::Quit]), Action::Quit);
    assert_eq!(press(&mut b, &c, &[Key::Other]), Action::Continue);
}

#[test]
fn empty_list_keys_that_fail() {
    let c = Catalog::new();
    let mut b = Browser::new();
    assert!(b.panics_on(&c, Key::Down));
    assert!(b.panics_on(&c, Key::Tab));
    assert!(!b.panics_on(&c, Key::Space));
    assert!(!b.panics_on(&c, Key::Up));
    b.handle_key(&c, Key::Right);
    assert!(!b.panics_on(&c, Key::Down));
    b.handle_key(&c, Key::Down);
    assert_eq!(b.selection, Selection::Path(0, 0));
    assert!(b.panics_on(&c, Key::Space));
    assert!(b.panics_on(&c, Key::Down));
    b.handle_key(&c, Key::Delete);
    assert!(!b.panics_on(&c, Key::Down));
}

#[test]
fn rows_of_closed_list() {
    let c = sample();
    let rows = list_rows(&c, &Selection::Category(1), false, &vec![]);
    assert_eq!(
        rows,
        vec![
            Row::Category { index: 0, open: false },
            Row::Category { index: 1, open: false },
            Row::Category { index: 2, open: false },
        ]
    );
}

#[test]
fn rows_of_opened_category_show_marks() {
    let c = sample();
    let rows = list_rows(&c, &Selection::Path(1, 1), true, &vec![3]);
    assert_eq!(
        rows,
        vec![
            Row::Category { index: 0, open: false },
            Row::Category { index: 1, open: true },
            Row::Folder { category: 1, position: 0, id: 1, marked: false },
            Row::Folder { category: 1, position: 1, id: 3, marked: true },
            Row::Category { index: 2, open: false },
        ]
    );
    assert_eq!(rows[to_flat_index(&Selection::Path(1, 1))], rows[3]);
}

#[test]
fn highlighted_row_is_the_selection() {
    let c = sample();
    let mut b = Browser::new();
    for keys in [
        &[Key::Down][..],
        &[Key::Right, Key::Down, Key::Down][..],
        &[Key::Up, Key::Up, Key::Tab][..],
    ] {
        press(&mut b, &c, keys);
        let rows = list_rows(&c, &b.selection, b.expanded, &b.marked);
        let row = rows[to_flat_index(&b.selection)];
        match (b.selection, row) {
            (Selection::Category(i), Row::Category { index, .. }) => assert_eq!(i, index),
            (Selection::Path(i, j), Row::Folder { category, position, .. }) => {
                assert_eq!((i, j), (category, position))
            }
            other => panic!("{:?}", other),
        }
    }
}

#[test]
fn rows_follow_what_was_found_not_the_order() {
    // The same folders under the same names, categories first seen in another order.
    let mut a = Catalog::new();
    for n in ["Rust", "Python", "Rust"] {
        a.record(n.to_string());
    }
    let mut b = Catalog::new();
    b.record("Rust".to_string());
    b.record("Python".to_string());
    b.record("Rust".to_string());
    let mut c = Catalog::new();
    c.record("Python".to_string());
    c.record("Rust".to_string());
    c.record("Rust".to_string());
    let sel = Selection::Category(1);
    assert_eq!(list_rows(&a, &sel, true, &vec![]), list_rows(&b, &sel, true, &vec![]));
    assert_eq!(c.name(0), "Python");
    assert_eq!(c.name(1), "Rust");
    assert_eq!(a.name(0), "Python");
}

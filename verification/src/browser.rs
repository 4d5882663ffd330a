//! The selection screen: which row is selected, which category is opened,
//! which folders are marked for deletion, and the confirmation dialog.
//!
//! `Browser::handle_key` takes the screen from one state to the next on a
//! key press and says what the program does next.

use vstd::prelude::*;
use crate::catalog::Catalog;

verus! {

/// The selected row: a category, or folder `j` of category `i`.
#[derive(Clone, Copy, Debug, PartialEq, Eq, Structural)]
pub enum Selection {
    Category(usize),
    Path(usize, usize),
}

impl Selection {
    /// The category the selection is in.
    pub open spec fn category(self) -> usize {
        match self {
            Selection::Category(i) => i,
            Selection::Path(i, _) => i,
        }
    }
}

/// The row number of a selection in the list, when its category is the open
/// one: categories come before the open category's folders.
pub open spec fn spec_flat_index(selection: Selection) -> int {
    match selection {
        Selection::Category(i) => i as int,
        Selection::Path(i, j) => i + 1 + j,
    }
}

/// The row number of the selection in the list.
pub fn to_flat_index(selection: &Selection) -> (r: usize)
    requires
        spec_flat_index(*selection) <= usize::MAX,
    ensures
        r == spec_flat_index(*selection),
{
    match selection {
        Selection::Category(i) => *i,
        Selection::Path(i, j) => i + 1 + j,
    }
}

/// The keys the screen answers to.
#[derive(Clone, Copy, Debug, PartialEq, Eq, Structural)]
pub enum Key {
    /// `q`
    Quit,
    Right,
    Left,
    Down,
    Up,
    Tab,
    /// The space bar: marks or unmarks a folder.
    Space,
    Enter,
    /// `d`: opens or closes the confirmation dialog.
    Delete,
    /// Any other key.
    Other,
}

/// What the program does after a key.
#[derive(Clone, Copy, Debug, PartialEq, Eq, Structural)]
pub enum Action {
    /// Draw the screen again and wait for the next key.
    Continue,
    /// Leave without deleting anything.
    Quit,
    /// Delete the marked folders, in the order they were marked, then leave.
    Delete,
}

/// The state of the selection screen.
pub struct Browser {
    pub selection: Selection,
    /// Whether the selected category shows its folders.
    pub expanded: bool,
    /// Whether the confirmation dialog is shown.
    pub confirm: bool,
    /// In the dialog, whether "yes" is chosen.
    pub confirm_choice: bool,
    /// The folders marked for deletion, in the order they were marked.
    pub marked: Vec<usize>,
}

/// The state of the selection screen, as a value.
pub struct BrowserState {
    pub selection: Selection,
    pub expanded: bool,
    pub confirm: bool,
    pub confirm_choice: bool,
    pub marked: Seq<usize>,
}

impl View for Browser {
    type V = BrowserState;

    open spec fn view(&self) -> BrowserState {
        BrowserState {
            selection: self.selection,
            expanded: self.expanded,
            confirm: self.confirm,
            confirm_choice: self.confirm_choice,
            marked: self.marked@,
        }
    }
}

/// `s` without any occurrence of `id`, the rest in order.
pub open spec fn drop_all(s: Seq<usize>, id: usize) -> Seq<usize>
    decreases s.len(),
{
    if s.len() == 0 {
        s
    } else if s.last() == id {
        drop_all(s.drop_last(), id)
    } else {
        drop_all(s.drop_last(), id).push(s.last())
    }
}

/// Marks `id` when it is not marked; else unmarks it.
pub open spec fn toggled(s: Seq<usize>, id: usize) -> Seq<usize> {
    if s.contains(id) {
        drop_all(s, id)
    } else {
        s.push(id)
    }
}

/// The states the screen can be in over a catalog: the selection names a
/// category or one of its folders (or the first row of an empty list), a
/// folder is selected only in an opened category, and every marked folder
/// is a folder of the catalog, marked once.
pub open spec fn valid(s: BrowserState, c: Catalog) -> bool {
    let n = c.names().len();
    &&& match s.selection {
        Selection::Category(i) => i < n || i == 0,
        Selection::Path(i, j) => (i < n && j < c.groups()[i as int].len()) || (n == 0 && i == 0 && j
            == 0),
    }
    &&& s.selection is Path ==> s.expanded
    &&& s.marked.no_duplicates()
    &&& forall|k: int| 0 <= k < s.marked.len() ==> #[trigger] s.marked[k] < c.folder_count()
}

/// The keys that fail on a list with no category: moving down (but for
/// entering an opened category), cycling with Tab, or marking a folder.
pub open spec fn spec_panics(s: BrowserState, c: Catalog, key: Key) -> bool {
    &&& c.names().len() == 0
    &&& !s.confirm
    &&& match key {
        Key::Down => !(s.selection is Category && s.expanded),
        Key::Tab => s.selection is Category,
        Key::Space => s.selection is Path,
        _ => false,
    }
}

/// The next state of the screen and the action after `key`.
pub open spec fn next(s: BrowserState, c: Catalog, key: Key) -> (BrowserState, Action) {
    let n = c.names().len() as int;
    let last = (n - 1) as usize;
    match key {
        Key::Quit => (s, Action::Quit),
        Key::Right => if !s.confirm {
            (BrowserState { expanded: true, ..s }, Action::Continue)
        } else {
            (BrowserState { confirm_choice: false, ..s }, Action::Continue)
        },
        Key::Left => if !s.confirm {
            match s.selection {
                Selection::Path(i, _) => (
                    BrowserState { selection: Selection::Category(i), ..s },
                    Action::Continue,
                ),
                Selection::Category(_) => (BrowserState { expanded: false, ..s }, Action::Continue),
            }
        } else {
            (BrowserState { confirm_choice: true, ..s }, Action::Continue)
        },
        Key::Down => if !s.confirm {
            match s.selection {
                Selection::Category(i) => if s.expanded {
                    (BrowserState { selection: Selection::Path(i, 0), ..s }, Action::Continue)
                } else {
                    (
                        BrowserState {
                            selection: Selection::Category(
                                if i + 1 < n - 1 {
                                    (i + 1) as usize
                                } else {
                                    last
                                },
                            ),
                            ..s
                        },
                        Action::Continue,
                    )
                },
                Selection::Path(i, j) => if j + 1 < c.groups()[i as int].len() {
                    (
                        BrowserState { selection: Selection::Path(i, (j + 1) as usize), ..s },
                        Action::Continue,
                    )
                } else {
                    (
                        BrowserState {
                            selection: Selection::Category(
                                if i + 1 < n - 1 {
                                    (i + 1) as usize
                                } else {
                                    last
                                },
                            ),
                            expanded: false,
                            ..s
                        },
                        Action::Continue,
                    )
                },
            }
        } else {
            (s, Action::Continue)
        },
        Key::Up => if !s.confirm {
            match s.selection {
                Selection::Category(i) => (
                    BrowserState {
                        selection: Selection::Category(
                            if i == 0 {
                                0
                            } else {
                                (i - 1) as usize
                            },
                        ),
                        ..s
                    },
                    Action::Continue,
                ),
                Selection::Path(i, j) => if j == 0 {
                    (BrowserState { selection: Selection::Category(i), ..s }, Action::Continue)
                } else {
                    (
                        BrowserState { selection: Selection::Path(i, (j - 1) as usize), ..s },
                        Action::Continue,
                    )
                },
            }
        } else {
            (s, Action::Continue)
        },
        Key::Tab => if !s.confirm {
            match s.selection {
                Selection::Category(i) => (
                    BrowserState { selection: Selection::Category(((i + 1) % n) as usize), ..s },
                    Action::Continue,
                ),
                Selection::Path(_, _) => (s, Action::Continue),
            }
        } else {
            (s, Action::Continue)
        },
        Key::Space => if !s.confirm {
            match s.selection {
                Selection::Path(i, j) => (
                    BrowserState { marked: toggled(s.marked, c.groups()[i as int][j as int]), ..s },
                    Action::Continue,
                ),
                Selection::Category(_) => (s, Action::Continue),
            }
        } else {
            (s, Action::Continue)
        },
        Key::Enter => if s.confirm {
            if s.confirm_choice {
                (s, Action::Delete)
            } else {
                (BrowserState { confirm: false, ..s }, Action::Continue)
            }
        } else {
            (BrowserState { confirm: false, ..s }, Action::Continue)
        },
        Key::Delete => (BrowserState { confirm: !s.confirm, ..s }, Action::Continue),
        Key::Other => (s, Action::Continue),
    }
}

pub proof fn lemma_drop_all_contains(s: Seq<usize>, id: usize, x: usize)
    ensures
        drop_all(s, id).contains(x) <==> (s.contains(x) && x != id),
    decreases s.len(),
{
    if s.len() > 0 {
        lemma_drop_all_contains(s.drop_last(), id, x);
        let d = drop_all(s.drop_last(), id);
        if s.contains(x) && x != id {
            let k = choose|k: int| 0 <= k < s.len() && s[k] == x;
            if k < s.len() - 1 {
                assert(s.drop_last()[k] == x);
            }
        }
        if s.last() != id && d.push(s.last()).contains(x) {
            let k = choose|k: int| 0 <= k < d.push(s.last()).len() && d.push(s.last())[k] == x;
            if k == d.len() {
                assert(s[s.len() - 1] == x);
            }
        }
        if s.drop_last().contains(x) {
            let k = choose|k: int| 0 <= k < s.drop_last().len() && s.drop_last()[k] == x;
            assert(s[k] == x);
        }
        if s.last() != id && x == s.last() {
            assert(d.push(s.last())[d.len() as int] == x);
            assert(s[s.len() - 1] == x);
        }
        if s.last() != id && d.contains(x) {
            let k = choose|k: int| 0 <= k < d.len() && d[k] == x;
            assert(d.push(s.last())[k] == x);
        }
    }
}

pub proof fn lemma_drop_all_no_duplicates(s: Seq<usize>, id: usize)
    requires
        s.no_duplicates(),
    ensures
        drop_all(s, id).no_duplicates(),
    decreases s.len(),
{
    if s.len() > 0 {
        assert(s.drop_last().no_duplicates());
        lemma_drop_all_no_duplicates(s.drop_last(), id);
        if s.last() != id {
            let d = drop_all(s.drop_last(), id);
            lemma_drop_all_contains(s.drop_last(), id, s.last());
            if s.drop_last().contains(s.last()) {
                let k = choose|k: int| 0 <= k < s.drop_last().len() && s.drop_last()[k] == s.last();
                assert(s[k] == s[s.len() - 1]);
            }
            assert forall|a: int, b: int|
                0 <= a < d.push(s.last()).len() && 0 <= b < d.push(s.last()).len() && a != b implies d.push(
                s.last(),
            )[a] != d.push(s.last())[b] by {
                if a == d.len() {
                    assert(d.contains(d[b]));
                } else if b == d.len() {
                    assert(d.contains(d[a]));
                }
            }
        }
    }
}

pub proof fn lemma_drop_all_absent(s: Seq<usize>, id: usize)
    requires
        !s.contains(id),
    ensures
        drop_all(s, id) == s,
    decreases s.len(),
{
    if s.len() > 0 {
        if s.drop_last().contains(id) {
            let k = choose|k: int| 0 <= k < s.drop_last().len() && s.drop_last()[k] == id;
            assert(s[k] == id);
        }
        lemma_drop_all_absent(s.drop_last(), id);
        assert(s.drop_last().push(s.last()) =~= s);
    }
}

/// Elements of a toggled list: those of the list, with `id` added when it
/// was absent and removed when it was present.
pub proof fn lemma_toggled_contains(s: Seq<usize>, id: usize, x: usize)
    ensures
        toggled(s, id).contains(x) <==> (if x == id {
            !s.contains(id)
        } else {
            s.contains(x)
        }),
{
    if s.contains(id) {
        lemma_drop_all_contains(s, id, x);
    } else {
        if s.push(id).contains(x) && x != id {
            let k = choose|k: int| 0 <= k < s.push(id).len() && s.push(id)[k] == x;
            assert(s[k] == x);
        }
        if s.contains(x) {
            let k = choose|k: int| 0 <= k < s.len() && s[k] == x;
            assert(s.push(id)[k] == x);
        }
        assert(s.push(id)[s.len() as int] == id);
    }
}

proof fn lemma_toggled_valid(s: Seq<usize>, id: usize, bound: nat)
    requires
        s.no_duplicates(),
        forall|k: int| 0 <= k < s.len() ==> #[trigger] s[k] < bound,
        id < bound,
    ensures
        toggled(s, id).no_duplicates(),
        forall|k: int| 0 <= k < toggled(s, id).len() ==> #[trigger] toggled(s, id)[k] < bound,
{
    let t = toggled(s, id);
    if s.contains(id) {
        lemma_drop_all_no_duplicates(s, id);
        assert forall|k: int| 0 <= k < t.len() implies #[trigger] t[k] < bound by {
            assert(t.contains(t[k]));
            lemma_drop_all_contains(s, id, t[k]);
            let m = choose|m: int| 0 <= m < s.len() && s[m] == t[k];
        }
    } else {
        assert forall|a: int, b: int| 0 <= a < t.len() && 0 <= b < t.len() && a != b implies t[a]
            != t[b] by {
            if a == s.len() {
                assert(s.contains(s[b]));
            } else if b == s.len() {
                assert(s.contains(s[a]));
            }
        }
    }
}

/// Every key keeps the screen in a valid state.
pub proof fn law_next_keeps_valid(s: BrowserState, c: Catalog, key: Key)
    requires
        c.wf(),
        valid(s, c),
        !spec_panics(s, c, key),
    ensures
        valid(next(s, c, key).0, c),
{
    if key == Key::Space && !s.confirm {
        if let Selection::Path(i, j) = s.selection {
            lemma_toggled_valid(s.marked, c.groups()[i as int][j as int], c.folder_count());
        }
    }
}

/// Pressing the space bar twice on a folder leaves the same set of folders
/// marked, and everything else as it was; when the folder was not marked
/// before, the marks are exactly as before, order included.
pub proof fn law_mark_twice(s: BrowserState, c: Catalog, i: usize, j: usize)
    requires
        c.wf(),
        valid(s, c),
        !s.confirm,
        s.selection == Selection::Path(i, j),
        c.names().len() > 0,
    ensures
        next(next(s, c, Key::Space).0, c, Key::Space).0.marked.to_set() == s.marked.to_set(),
        next(next(s, c, Key::Space).0, c, Key::Space).0.selection == s.selection,
        next(next(s, c, Key::Space).0, c, Key::Space).0.expanded == s.expanded,
        next(next(s, c, Key::Space).0, c, Key::Space).0.confirm == s.confirm,
        next(next(s, c, Key::Space).0, c, Key::Space).0.confirm_choice == s.confirm_choice,
        ({
            let id = c.groups()[i as int][j as int];
            !s.marked.contains(id) ==> next(next(s, c, Key::Space).0, c, Key::Space).0.marked
                == s.marked
        }),
{
    let id = c.groups()[i as int][j as int];
    let m1 = toggled(s.marked, id);
    let m2 = toggled(m1, id);
    assert(next(s, c, Key::Space).0.marked == m1);
    assert(next(next(s, c, Key::Space).0, c, Key::Space).0.marked == m2);
    assert forall|x: usize| m2.contains(x) <==> s.marked.contains(x) by {
        lemma_toggled_contains(s.marked, id, x);
        lemma_toggled_contains(m1, id, x);
        lemma_toggled_contains(s.marked, id, id);
    }
    assert(m2.to_set() =~= s.marked.to_set());
    if !s.marked.contains(id) {
        assert(s.marked.push(id).drop_last() =~= s.marked);
        assert(s.marked.push(id)[s.marked.len() as int] == id);
        lemma_drop_all_absent(s.marked, id);
    }
}

/// Pressing `d` twice leaves the screen as it was.
pub proof fn law_dialog_twice(s: BrowserState, c: Catalog)
    ensures
        next(next(s, c, Key::Delete).0, c, Key::Delete).0 == s,
{
}

/// While the confirmation dialog is shown, no key changes the selection,
/// the opened category or the marks.
pub proof fn law_dialog_freezes_list(s: BrowserState, c: Catalog, key: Key)
    requires
        s.confirm,
    ensures
        next(s, c, key).0.selection == s.selection,
        next(s, c, key).0.expanded == s.expanded,
        next(s, c, key).0.marked == s.marked,
{
}

/// `q` always quits and changes nothing; folders are deleted only after
/// Enter on "yes" in the confirmation dialog; every other key goes on.
pub proof fn law_actions(s: BrowserState, c: Catalog, key: Key)
    ensures
        (next(s, c, key).1 == Action::Quit) <==> key == Key::Quit,
        key == Key::Quit ==> next(s, c, key).0 == s,
        (next(s, c, key).1 == Action::Delete) <==> (key == Key::Enter && s.confirm
            && s.confirm_choice),
        next(s, c, key).1 == Action::Delete ==> next(s, c, key).0 == s,
{
}

/// Deleting removes only folders the scan found, each once: when a key
/// starts the deletion, every marked folder is a folder of the catalog and
/// none is marked twice.
pub proof fn law_deletes_only_found_folders(s: BrowserState, c: Catalog, key: Key)
    requires
        valid(s, c),
        next(s, c, key).1 == Action::Delete,
    ensures
        next(s, c, key).0.marked.no_duplicates(),
        forall|k: int|
            0 <= k < next(s, c, key).0.marked.len() ==> #[trigger] next(s, c, key).0.marked[k]
                < c.folder_count(),
{
}

/// Only the space bar on a folder, outside the dialog, changes the marks:
/// it marks that folder when it is unmarked, and otherwise removes it,
/// leaving the other marks in their order.
pub proof fn law_only_space_changes_marks(s: BrowserState, c: Catalog, key: Key)
    ensures
        match (key, s.selection) {
            (Key::Space, Selection::Path(i, j)) if !s.confirm => {
                let id = c.groups()[i as int][j as int];
                &&& next(s, c, key).0.marked == toggled(s.marked, id)
                &&& !s.marked.contains(id) ==> next(s, c, key).0.marked == s.marked.push(id)
                &&& s.marked.contains(id) ==> next(s, c, key).0.marked == drop_all(s.marked, id)
            },
            _ => next(s, c, key).0.marked == s.marked,
        },
{
}

/// The space bar on a folder, outside the dialog, flips that folder's mark
/// and keeps every other mark: when it was unmarked it is added at the end.
pub proof fn law_space_flips_mark(s: BrowserState, c: Catalog, i: usize, j: usize, x: usize)
    requires
        !s.confirm,
        s.selection == Selection::Path(i, j),
    ensures
        ({
            let id = c.groups()[i as int][j as int];
            let t = next(s, c, Key::Space).0;
            &&& t.marked.contains(x) <==> (if x == id {
                !s.marked.contains(id)
            } else {
                s.marked.contains(x)
            })
            &&& !s.marked.contains(id) ==> t.marked == s.marked.push(id)
            &&& moved_to(t, BrowserState { marked: t.marked, ..s }, s.selection, s.expanded)
        }),
{
    lemma_toggled_contains(s.marked, c.groups()[i as int][j as int], x);
}

/// Over a list with at least one category no key fails, and over an empty
/// list only Down, Tab and the space bar can, and never in the dialog.
pub proof fn law_failing_keys(s: BrowserState, c: Catalog, key: Key)
    ensures
        c.names().len() > 0 ==> !spec_panics(s, c, key),
        s.confirm ==> !spec_panics(s, c, key),
        spec_panics(s, c, key) ==> key == Key::Down || key == Key::Tab || key == Key::Space,
{
}

/// Up undoes Down, wherever Down does not leave the opened category or
/// reach the last category.
pub proof fn law_up_undoes_down(s: BrowserState, c: Catalog)
    requires
        c.wf(),
        valid(s, c),
        !s.confirm,
        c.names().len() > 0,
        match s.selection {
            Selection::Category(i) => !s.expanded && i + 1 < c.names().len(),
            Selection::Path(i, j) => j + 1 < c.groups()[i as int].len(),
        },
    ensures
        next(next(s, c, Key::Down).0, c, Key::Up).0 == s,
{
    let t = next(next(s, c, Key::Down).0, c, Key::Up).0;
    c.lemma_bounds();
    match s.selection {
        Selection::Category(i) => {
            assert(next(s, c, Key::Down).0.selection == Selection::Category((i + 1) as usize));
        },
        Selection::Path(i, j) => {
            assert(next(s, c, Key::Down).0.selection == Selection::Path(i, (j + 1) as usize));
        },
    }
    assert(t.selection == s.selection);
    assert(t.marked == s.marked);
}

/// `t` is `s` with the given selection and opened state, and nothing else
/// changed: the dialog, its choice and the marks are as they were.
pub open spec fn moved_to(t: BrowserState, s: BrowserState, selection: Selection, expanded: bool) -> bool {
    &&& t.selection == selection
    &&& t.expanded == expanded
    &&& t.confirm == s.confirm
    &&& t.confirm_choice == s.confirm_choice
    &&& t.marked == s.marked
}

/// Right opens the selected category; Left on a folder goes back to its
/// category, still opened, and Left on a category closes it. Outside the
/// dialog nothing else changes.
pub proof fn law_right_and_left(s: BrowserState, c: Catalog)
    requires
        !s.confirm,
    ensures
        moved_to(next(s, c, Key::Right).0, s, s.selection, true),
        match s.selection {
            Selection::Path(i, _) => moved_to(
                next(s, c, Key::Left).0,
                s,
                Selection::Category(i),
                s.expanded,
            ),
            Selection::Category(i) => moved_to(
                next(s, c, Key::Left).0,
                s,
                Selection::Category(i),
                false,
            ),
        },
{
}

/// Down outside the dialog, in a non-empty valid list: from a closed
/// category, to the category right after it (staying on the last one);
/// from an opened category, to its first folder; from a folder, to the next
/// folder of the category; from the last folder, to the category right after
/// it (staying on the last one), closed.
pub proof fn law_down(s: BrowserState, c: Catalog)
    requires
        c.wf(),
        valid(s, c),
        !s.confirm,
        c.names().len() > 0,
    ensures
        ({
            let n = c.names().len();
            let t = next(s, c, Key::Down).0;
            match s.selection {
                Selection::Category(i) => if s.expanded {
                    moved_to(t, s, Selection::Path(i, 0), true)
                } else if i + 1 < n {
                    moved_to(t, s, Selection::Category((i + 1) as usize), false)
                } else {
                    moved_to(t, s, Selection::Category(i), false)
                },
                Selection::Path(i, j) => if j + 1 < c.groups()[i as int].len() {
                    moved_to(t, s, Selection::Path(i, (j + 1) as usize), true)
                } else if i + 1 < n {
                    moved_to(t, s, Selection::Category((i + 1) as usize), false)
                } else {
                    moved_to(t, s, Selection::Category(i), false)
                },
            }
        }),
{
    c.lemma_bounds();
}

/// Up outside the dialog: from a category, opened or not, to the category
/// before it (staying on the first one); from the first folder of a
/// category, to that category; from another folder, to the folder before it.
pub proof fn law_up(s: BrowserState, c: Catalog)
    requires
        !s.confirm,
    ensures
        ({
            let t = next(s, c, Key::Up).0;
            match s.selection {
                Selection::Category(i) => if i > 0 {
                    moved_to(t, s, Selection::Category((i - 1) as usize), s.expanded)
                } else {
                    moved_to(t, s, Selection::Category(0), s.expanded)
                },
                Selection::Path(i, j) => if j > 0 {
                    moved_to(t, s, Selection::Path(i, (j - 1) as usize), s.expanded)
                } else {
                    moved_to(t, s, Selection::Category(i), s.expanded)
                },
            }
        }),
{
}

/// Tab outside the dialog moves from a category to the next one, from the
/// last back to the first, and does nothing on a folder.
pub proof fn law_tab(s: BrowserState, c: Catalog)
    requires
        c.wf(),
        valid(s, c),
        !s.confirm,
        c.names().len() > 0,
    ensures
        ({
            let n = c.names().len();
            let t = next(s, c, Key::Tab).0;
            match s.selection {
                Selection::Category(i) => if i + 1 < n {
                    moved_to(t, s, Selection::Category((i + 1) as usize), s.expanded)
                } else {
                    moved_to(t, s, Selection::Category(0), s.expanded)
                },
                Selection::Path(_, _) => t == s,
            }
        }),
{
    c.lemma_bounds();
    let n = c.names().len() as int;
    if let Selection::Category(i) = s.selection {
        let k = i + 1;
        if k < n {
            assert(k % n == k) by (nonlinear_arith)
                requires
                    0 <= k < n,
            ;
        } else {
            assert(k == n);
            assert(k % n == 0) by (nonlinear_arith)
                requires
                    k == n,
                    n > 0,
            ;
        }
    }
}

/// In the dialog, Left chooses "yes" and Right "no"; Enter on "no" closes
/// the dialog, and outside the dialog Enter changes nothing. `d` opens or
/// closes the dialog and changes nothing else.
pub proof fn law_dialog_keys(s: BrowserState, c: Catalog)
    ensures
        s.confirm ==> next(s, c, Key::Left).0.confirm_choice && next(s, c, Key::Left).0.confirm,
        s.confirm ==> !next(s, c, Key::Right).0.confirm_choice && next(s, c, Key::Right).0.confirm,
        s.confirm && !s.confirm_choice ==> !next(s, c, Key::Enter).0.confirm && next(
            s,
            c,
            Key::Enter,
        ).1 == Action::Continue,
        !s.confirm ==> next(s, c, Key::Enter).0 == s,
        next(s, c, Key::Delete).0.confirm == !s.confirm,
        moved_to(next(s, c, Key::Delete).0, BrowserState { confirm: !s.confirm, ..s }, s.selection, s.expanded),
        next(s, c, Key::Other).0 == s,
{
}

impl Browser {
    /// The screen when it first shows: the first category selected, nothing
    /// opened or marked, no dialog.
    pub fn new() -> (r: Browser)
        ensures
            r@.selection == Selection::Category(0),
            !r@.expanded,
            !r@.confirm,
            !r@.confirm_choice,
            r@.marked == Seq::<usize>::empty(),
    {
        Browser {
            selection: Selection::Category(0),
            expanded: false,
            confirm: false,
            confirm_choice: false,
            marked: Vec::new(),
        }
    }

    /// Whether `key` is one of the keys that fail in this state.
    pub fn panics_on(&self, catalog: &Catalog, key: Key) -> (r: bool)
        ensures
            r == spec_panics(self@, *catalog, key),
    {
        if catalog.category_count() != 0 || self.confirm {
            return false;
        }
        match key {
            Key::Down => !(matches!(self.selection, Selection::Category(_)) && self.expanded),
            Key::Tab => matches!(self.selection, Selection::Category(_)),
            Key::Space => matches!(self.selection, Selection::Path(_, _)),
            _ => false,
        }
    }

    /// Answers one key press.
    pub fn handle_key(&mut self, catalog: &Catalog, key: Key) -> (a: Action)
        requires
            catalog.wf(),
            valid(old(self)@, *catalog),
            !spec_panics(old(self)@, *catalog, key),
        ensures
            (final(self)@, a) == next(old(self)@, *catalog, key),
            valid(final(self)@, *catalog),
    {
        proof {
            law_next_keeps_valid(self@, *catalog, key);
        }
        let n = catalog.category_count();
        match key {
            Key::Quit => Action::Quit,
            Key::Right => {
                if !self.confirm {
                    self.expanded = true;
                } else {
                    self.confirm_choice = false;
                }
                Action::Continue
            },
            Key::Left => {
                if !self.confirm {
                    match self.selection {
                        Selection::Path(i, _) => self.selection = Selection::Category(i),
                        Selection::Category(_) => self.expanded = false,
                    }
                } else {
                    self.confirm_choice = true;
                }
                Action::Continue
            },
            Key::Down => {
                if !self.confirm {
                    match self.selection {
                        Selection::Category(i) => {
                            if self.expanded {
                                self.selection = Selection::Path(i, 0);
                            } else {
                                let t = if i + 1 < n - 1 {
                                    i + 1
                                } else {
                                    n - 1
                                };
                                self.selection = Selection::Category(t);
                            }
                        },
                        Selection::Path(i, j) => {
                            let len = catalog.group_len(i);
                            if j + 1 < len {
                                self.selection = Selection::Path(i, j + 1);
                            } else {
                                let t = if i + 1 < n - 1 {
                                    i + 1
                                } else {
                                    n - 1
                                };
                                self.selection = Selection::Category(t);
                                self.expanded = false;
                            }
                        },
                    }
                }
                Action::Continue
            },
            Key::Up => {
                if !self.confirm {
                    match self.selection {
                        Selection::Category(i) => {
                            let t = if i == 0 {
                                0
                            } else {
                                i - 1
                            };
                            self.selection = Selection::Category(t);
                        },
                        Selection::Path(i, j) => {
                            if j == 0 {
                                self.selection = Selection::Category(i);
                            } else {
                                self.selection = Selection::Path(i, j - 1);
                            }
                        },
                    }
                }
                Action::Continue
            },
            Key::Tab => {
                if !self.confirm {
                    match self.selection {
                        Selection::Category(i) => {
                            self.selection = Selection::Category((i + 1) % n);
                        },
                        Selection::Path(_, _) => {},
                    }
                }
                Action::Continue
            },
            Key::Space => {
                if !self.confirm {
                    match self.selection {
                        Selection::Path(i, j) => {
                            let id = catalog.member(i, j);
                            toggle_mark(&mut self.marked, id);
                        },
                        Selection::Category(_) => {},
                    }
                }
                Action::Continue
            },
            Key::Enter => {
                if self.confirm {
                    if self.confirm_choice {
                        return Action::Delete;
                    } else {
                        self.confirm = false;
                    }
                } else {
                    self.confirm = false;
                }
                Action::Continue
            },
            Key::Delete => {
                self.confirm = !self.confirm;
                Action::Continue
            },
            Key::Other => Action::Continue,
        }
    }
}

/// Whether `id` is among the marked folders.
pub fn is_marked(marked: &Vec<usize>, id: usize) -> (r: bool)
    ensures
        r == marked@.contains(id),
{
    let n = marked.len();
    let mut i: usize = 0;
    while i < n
        invariant
            n == marked@.len(),
            i <= n,
            forall|k: int| 0 <= k < i ==> marked@[k] != id,
        decreases n - i,
    {
        if marked[i] == id {
            return true;
        }
        i = i + 1;
    }
    false
}

/// Marks `id` when it is not marked, else removes it from the marks.
pub fn toggle_mark(marked: &mut Vec<usize>, id: usize)
    ensures
        final(marked)@ == toggled(old(marked)@, id),
{
    if is_marked(marked, id) {
        let n = marked.len();
        let mut kept: Vec<usize> = Vec::new();
        let mut i: usize = 0;
        proof {
            assert(marked@.take(0) =~= Seq::<usize>::empty());
        }
        while i < n
            invariant
                n == marked@.len(),
                i <= n,
                kept@ == drop_all(marked@.take(i as int), id),
            decreases n - i,
        {
            proof {
                assert(marked@.take(i + 1).drop_last() =~= marked@.take(i as int));
            }
            if marked[i] != id {
                kept.push(marked[i]);
            }
            i = i + 1;
        }
        proof {
            assert(marked@.take(n as int) =~= marked@);
        }
        *marked = kept;
    } else {
        marked.push(id);
    }
}

} // verus!

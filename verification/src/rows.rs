//! The rows of the list the selection screen shows: one per category, and
//! below the opened category one per folder in it.

use vstd::prelude::*;
use crate::browser::{
    is_marked, spec_flat_index, valid, BrowserState, Selection,
};
use crate::catalog::Catalog;

verus! {

/// One row of the list.
#[derive(Clone, Copy, Debug, PartialEq, Eq, Structural)]
pub enum Row {
    /// Category `index`; `open` when its folders are shown below it.
    Category { index: usize, open: bool },
    /// Folder `id`, at `position` in category `category`; `marked` when it
    /// is marked for deletion.
    Folder { category: usize, position: usize, id: usize, marked: bool },
}

/// The rows shown for a catalog, a selection, whether the selected category
/// is opened, and the marks.
pub open spec fn spec_rows(c: Catalog, selection: Selection, expanded: bool, marked: Seq<usize>) -> Seq<
    Row,
> {
    let n = c.names().len() as int;
    let e = selection.category() as int;
    if expanded && e < n {
        let g = c.groups()[e];
        Seq::new(
            (n + g.len()) as nat,
            |k: int|
                if k < e {
                    Row::Category { index: k as usize, open: false }
                } else if k == e {
                    Row::Category { index: e as usize, open: true }
                } else if k <= e + g.len() {
                    Row::Folder {
                        category: e as usize,
                        position: (k - e - 1) as usize,
                        id: g[k - e - 1],
                        marked: marked.contains(g[k - e - 1]),
                    }
                } else {
                    Row::Category { index: (k - g.len()) as usize, open: false }
                },
        )
    } else {
        Seq::new(n as nat, |k: int| Row::Category { index: k as usize, open: false })
    }
}

/// The rows of the list, top to bottom.
pub fn list_rows(catalog: &Catalog, selection: &Selection, expanded: bool, marked: &Vec<usize>) -> (r:
    Vec<Row>)
    requires
        catalog.wf(),
    ensures
        r@ == spec_rows(*catalog, *selection, expanded, marked@),
{
    let ghost spec = spec_rows(*catalog, *selection, expanded, marked@);
    let e = match selection {
        Selection::Category(i) => *i,
        Selection::Path(i, _) => *i,
    };
    let n = catalog.category_count();
    let ghost glen: int = if expanded && e < n {
        catalog.groups()[e as int].len() as int
    } else {
        0
    };
    let mut rows: Vec<Row> = Vec::new();
    let mut i: usize = 0;
    proof {
        catalog.lemma_bounds();
    }
    while i < n
        invariant
            catalog.wf(),
            n == catalog.names().len(),
            e == selection.category(),
            spec == spec_rows(*catalog, *selection, expanded, marked@),
            glen == (if expanded && e < n {
                catalog.groups()[e as int].len() as int
            } else {
                0
            }),
            spec.len() == n + glen,
            i <= n,
            rows@.len() == i + (if expanded && e < i {
                glen
            } else {
                0
            }),
            forall|k: int| 0 <= k < rows@.len() ==> rows@[k] == spec[k],
        decreases n - i,
    {
        let open = expanded && e == i;
        rows.push(Row::Category { index: i, open });
        if open {
            let len = catalog.group_len(i);
            let mut j: usize = 0;
            while j < len
                invariant
                    catalog.wf(),
                    n == catalog.names().len(),
                    e == selection.category(),
                    e == i,
                    i < n,
                    expanded,
                    spec == spec_rows(*catalog, *selection, expanded, marked@),
                    len == glen,
                    glen == catalog.groups()[e as int].len(),
                    j <= len,
                    rows@.len() == i + 1 + j,
                    forall|k: int| 0 <= k < rows@.len() ==> rows@[k] == spec[k],
                decreases len - j,
            {
                let id = catalog.member(i, j);
                let m = is_marked(marked, id);
                rows.push(Row::Folder { category: i, position: j, id, marked: m });
                j = j + 1;
            }
        }
        i = i + 1;
    }
    proof {
        assert(rows@ =~= spec);
    }
    rows
}

/// The row at the selection's row number is the selected row: the
/// selected category, or the selected folder below its opened category.
pub proof fn law_selected_row(s: BrowserState, c: Catalog)
    requires
        c.wf(),
        valid(s, c),
        c.names().len() > 0,
    ensures
        0 <= spec_flat_index(s.selection) < spec_rows(c, s.selection, s.expanded, s.marked).len(),
        spec_flat_index(s.selection) <= usize::MAX,
        match s.selection {
            Selection::Category(i) => spec_rows(c, s.selection, s.expanded, s.marked)[i as int]
                == Row::Category { index: i, open: s.expanded },
            Selection::Path(i, j) => spec_rows(c, s.selection, s.expanded, s.marked)[i + 1 + j]
                == Row::Folder {
                category: i,
                position: j,
                id: c.groups()[i as int][j as int],
                marked: s.marked.contains(c.groups()[i as int][j as int]),
            },
        },
{
    c.lemma_bounds();
    let rows = spec_rows(c, s.selection, s.expanded, s.marked);
    match s.selection {
        Selection::Category(i) => {
            assert(rows[i as int] == Row::Category { index: i, open: s.expanded });
        },
        Selection::Path(i, j) => {
            assert(rows[i + 1 + j] == Row::Folder {
                category: i,
                position: j,
                id: c.groups()[i as int][j as int],
                marked: s.marked.contains(c.groups()[i as int][j as int]),
            });
            lemma_path_fits(c, i as int, j as int);
        },
    }
}

/// The list depends only on what the catalog holds: two catalogs with the
/// same folders under the same names show the same rows, whatever order the
/// folders were found in.
pub proof fn law_rows_follow_contents(
    c1: Catalog,
    c2: Catalog,
    selection: Selection,
    expanded: bool,
    marked: Seq<usize>,
)
    requires
        c1.wf(),
        c2.wf(),
        c1.contents() == c2.contents(),
    ensures
        spec_rows(c1, selection, expanded, marked) == spec_rows(c2, selection, expanded, marked),
{
    Catalog::law_same_contents_same_lists(c1, c2);
    assert(spec_rows(c1, selection, expanded, marked) =~= spec_rows(c2, selection, expanded, marked));
}

/// The layout of the list: with the selected category `e` opened, the
/// categories before it, then `e` marked open, then each folder of `e` in
/// order with its mark, then the categories after it; otherwise one closed
/// row per category, in order. Only the selection's category counts, not
/// whether a folder or the category itself is selected.
pub proof fn law_rows_layout(c: Catalog, selection: Selection, expanded: bool, marked: Seq<usize>)
    requires
        c.wf(),
    ensures
        ({
            let rows = spec_rows(c, selection, expanded, marked);
            let n = c.names().len() as int;
            let e = selection.category() as int;
            if expanded && e < n {
                let g = c.groups()[e];
                &&& rows.len() == n + g.len()
                &&& forall|k: int| 0 <= k < e ==> rows[k] == Row::Category { index: k as usize, open: false }
                &&& rows[e] == Row::Category { index: e as usize, open: true }
                &&& forall|k: int|
                    0 <= k < g.len() ==> rows[e + 1 + k] == Row::Folder {
                        category: e as usize,
                        position: k as usize,
                        id: g[k],
                        marked: marked.contains(g[k]),
                    }
                &&& forall|k: int|
                    e + g.len() < k < n + g.len() ==> rows[k] == Row::Category {
                        index: (k - g.len()) as usize,
                        open: false,
                    }
            } else {
                &&& rows.len() == n
                &&& forall|k: int| 0 <= k < n ==> rows[k] == Row::Category { index: k as usize, open: false }
            }
        }),
        forall|i: usize, j: usize|
            spec_rows(c, Selection::Category(i), expanded, marked) == spec_rows(
                c,
                Selection::Path(i, j),
                expanded,
                marked,
            ),
{
    c.lemma_bounds();
    assert forall|i: usize, j: usize|
        spec_rows(c, Selection::Category(i), expanded, marked) == spec_rows(
            c,
            Selection::Path(i, j),
            expanded,
            marked,
        ) by {
        assert(spec_rows(c, Selection::Category(i), expanded, marked) =~= spec_rows(
            c,
            Selection::Path(i, j),
            expanded,
            marked,
        ));
    }
}

proof fn lemma_path_fits(c: Catalog, i: int, j: int)
    requires
        c.wf(),
        0 <= i < c.names().len(),
        0 <= j < c.groups()[i].len(),
    ensures
        i + 1 + j <= usize::MAX,
{
    c.lemma_bounds();
    assert(i + c.groups()[i].len() <= c.folder_count());
}

} // verus!

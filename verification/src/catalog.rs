//! The folders found by a scan, grouped under their category names.
//!
//! Each folder is known by the number the catalog gave it when it was
//! recorded: the folders are numbered 0, 1, 2, ... in the order they were
//! found. The categories are kept in the order of their names.

use vstd::prelude::*;
use crate::sizes::{
    groups_size, range_size, sum_sizes, lemma_groups_size_insert, lemma_groups_size_update,
};
use crate::text::{
    compare_text, text_lt, TextOrder, lemma_text_lt_irreflexive, lemma_text_lt_transitive,
};

verus! {

/// Number of folders over all groups.
pub open spec fn member_total(groups: Seq<Seq<usize>>) -> int
    decreases groups.len(),
{
    if groups.len() == 0 {
        0
    } else {
        member_total(groups.drop_last()) + groups.last().len()
    }
}

/// Folders recorded so far, grouped by category name, categories sorted.
pub struct Catalog {
    names: Vec<String>,
    members: Vec<Vec<usize>>,
    count: usize,
}

impl Catalog {
    /// The category names, in order.
    pub closed spec fn names(&self) -> Seq<Seq<char>> {
        self.names@.map_values(|s: String| s@)
    }

    /// The folders of each category, in the order they were recorded.
    pub closed spec fn groups(&self) -> Seq<Seq<usize>> {
        self.members@.map_values(|v: Vec<usize>| v@)
    }

    /// How many folders have been recorded.
    pub closed spec fn folder_count(&self) -> nat {
        self.count as nat
    }

    /// The folders recorded under each category name.
    pub open spec fn contents(&self) -> Map<Seq<char>, Seq<usize>> {
        Map::new(
            |k: Seq<char>| self.names().contains(k),
            |k: Seq<char>| self.groups()[self.names().index_of(k)],
        )
    }

    /// The folders recorded under `name`, none if there is no such category.
    pub open spec fn group_of(&self, name: Seq<char>) -> Seq<usize> {
        if self.contents().dom().contains(name) {
            self.contents()[name]
        } else {
            Seq::empty()
        }
    }

    /// The catalog's invariant: names strictly sorted (hence distinct), one
    /// non-empty group per name, every folder number below the count, none
    /// twice, and the sizes of all groups together those of the folders
    /// numbered below the count.
    pub open spec fn wf(&self) -> bool {
        &&& self.names().len() == self.groups().len()
        &&& forall|i: int, j: int|
            0 <= i < j < self.names().len() ==> text_lt(
                #[trigger] self.names()[i],
                #[trigger] self.names()[j],
            )
        &&& forall|i: int| 0 <= i < self.groups().len() ==> #[trigger] self.groups()[i].len() > 0
        &&& forall|i: int, k: int|
            0 <= i < self.groups().len() && 0 <= k < self.groups()[i].len() ==> #[trigger] self.groups()[i][k]
                < self.folder_count()
        &&& forall|i: int, k1: int, k2: int|
            0 <= i < self.groups().len() && 0 <= k1 < k2 < self.groups()[i].len() ==> #[trigger] self.groups()[i][k1]
                < #[trigger] self.groups()[i][k2]
        &&& forall|i1: int, i2: int, k1: int, k2: int|
            0 <= i1 < self.groups().len() && 0 <= i2 < self.groups().len() && i1 != i2 && 0 <= k1
                < self.groups()[i1].len() && 0 <= k2 < self.groups()[i2].len() ==> #[trigger] self.groups()[i1][k1]
                != #[trigger] self.groups()[i2][k2]
        &&& member_total(self.groups()) == self.folder_count()
        &&& self.folder_count() <= usize::MAX
        &&& forall|sizes: Seq<u64>|
            #[trigger] groups_size(self.groups(), sizes) == range_size(self.folder_count(), sizes)
    }

    /// An empty catalog.
    pub fn new() -> (r: Catalog)
        ensures
            r.wf(),
            r.names().len() == 0,
            r.folder_count() == 0,
            r.contents() == Map::<Seq<char>, Seq<usize>>::empty(),
    {
        let r = Catalog { names: Vec::new(), members: Vec::new(), count: 0 };
        proof {
            assert(r.names() =~= Seq::<Seq<char>>::empty());
            assert(r.groups() =~= Seq::<Seq<usize>>::empty());
            assert(r.contents() =~= Map::<Seq<char>, Seq<usize>>::empty());
            assert forall|sizes: Seq<u64>| #[trigger] groups_size(r.groups(), sizes) == range_size(
                r.folder_count(),
                sizes,
            ) by {}
        }
        r
    }

    /// Number of categories.
    pub fn category_count(&self) -> (r: usize)
        ensures
            r == self.names().len(),
    {
        self.names.len()
    }

    /// Number of folders recorded.
    pub fn folders(&self) -> (r: usize)
        ensures
            r == self.folder_count(),
    {
        self.count
    }

    /// The name of category `i`.
    pub fn name(&self, i: usize) -> (r: &str)
        requires
            i < self.names().len(),
        ensures
            r@ == self.names()[i as int],
    {
        self.names[i].as_str()
    }

    /// Number of folders in category `i`.
    pub fn group_len(&self, i: usize) -> (r: usize)
        requires
            self.wf(),
            i < self.names().len(),
        ensures
            r == self.groups()[i as int].len(),
    {
        self.members[i].len()
    }

    /// Folder `j` of category `i`.
    pub fn member(&self, i: usize, j: usize) -> (r: usize)
        requires
            self.wf(),
            i < self.names().len(),
            j < self.groups()[i as int].len(),
        ensures
            r == self.groups()[i as int][j as int],
    {
        self.members[i][j]
    }

    proof fn lemma_member_total_bounds(groups: Seq<Seq<usize>>)
        requires
            forall|i: int| 0 <= i < groups.len() ==> #[trigger] groups[i].len() > 0,
        ensures
            member_total(groups) >= groups.len(),
            forall|i: int| 0 <= i < groups.len() ==> i + #[trigger] groups[i].len() <= member_total(groups),
        decreases groups.len(),
    {
        if groups.len() > 0 {
            let d = groups.drop_last();
            assert forall|i: int| 0 <= i < d.len() implies #[trigger] d[i].len() > 0 by {
                assert(d[i] == groups[i]);
            }
            Self::lemma_member_total_bounds(d);
            assert forall|i: int| 0 <= i < groups.len() implies i + #[trigger] groups[i].len() <= member_total(groups) by {
                if i < groups.len() - 1 {
                    assert(d[i] == groups[i]);
                }
            }
        }
    }

    /// In a well-formed catalog there are no more categories than folders,
    /// nor more folders in one category.
    pub proof fn lemma_bounds(&self)
        requires
            self.wf(),
        ensures
            self.names().len() <= self.folder_count(),
            forall|i: int| 0 <= i < self.groups().len() ==> i + #[trigger] self.groups()[i].len() <= self.folder_count(),
            self.folder_count() <= usize::MAX,
    {
        Self::lemma_member_total_bounds(self.groups());
    }

    proof fn lemma_member_total_update(groups: Seq<Seq<usize>>, p: int, g: Seq<usize>)
        requires
            0 <= p < groups.len(),
        ensures
            member_total(groups.update(p, g)) == member_total(groups) - groups[p].len() + g.len(),
        decreases groups.len(),
    {
        if p < groups.len() - 1 {
            Self::lemma_member_total_update(groups.drop_last(), p, g);
            assert(groups.update(p, g).drop_last() =~= groups.drop_last().update(p, g));
        } else {
            assert(groups.update(p, g).drop_last() =~= groups.drop_last());
        }
    }

    proof fn lemma_member_total_insert(groups: Seq<Seq<usize>>, p: int, g: Seq<usize>)
        requires
            0 <= p <= groups.len(),
        ensures
            member_total(groups.insert(p, g)) == member_total(groups) + g.len(),
        decreases groups.len(),
    {
        if p < groups.len() {
            Self::lemma_member_total_insert(groups.drop_last(), p, g);
            assert(groups.insert(p, g).drop_last() =~= groups.drop_last().insert(p, g));
            assert(groups.insert(p, g).last() == groups.last());
        } else {
            assert(groups.insert(p, g).drop_last() =~= groups);
        }
    }

    /// Records one more folder under the category `name` and returns the
    /// number given to it. A category of that name is made, in its place in
    /// the order, when there is none yet.
    pub fn record(&mut self, name: String) -> (id: usize)
        requires
            old(self).wf(),
            old(self).folder_count() < usize::MAX,
        ensures
            final(self).wf(),
            id == old(self).folder_count(),
            final(self).folder_count() == old(self).folder_count() + 1,
            final(self).contents() == old(self).contents().insert(
                name@,
                old(self).group_of(name@).push(id),
            ),
    {
        let id = self.count;
        let n = self.names.len();
        let ghost old_names = self.names();
        let ghost old_groups = self.groups();
        let ghost old_contents = self.contents();
        let mut p: usize = 0;
        let mut found = false;
        let mut done = false;
        while !done && p < n
            invariant
                n == self.names@.len(),
                self.names() == old_names,
                old_names.len() == n,
                p <= n,
                forall|i: int| 0 <= i < p ==> text_lt(#[trigger] old_names[i], name@),
                done ==> p < n,
                done && found ==> old_names[p as int] == name@,
                done && !found ==> text_lt(name@, old_names[p as int]),
                !done ==> !found,
            decreases n - p + (if done { 0int } else { 1int }),
        {
            proof {
                assert(self.names@[p as int]@ == old_names[p as int]);
            }
            match compare_text(self.names[p].as_str(), name.as_str()) {
                TextOrder::Less => {
                    p = p + 1;
                },
                TextOrder::Equal => {
                    found = true;
                    done = true;
                },
                TextOrder::Greater => {
                    done = true;
                },
            }
        }
        proof {
            Self::lemma_names_distinct(old_names);
        }
        if found {
            let mut g = self.members.remove(p);
            g.push(id);
            self.members.insert(p, g);
            self.count = id + 1;
            proof {
                let ng = old_groups.update(p as int, old_groups[p as int].push(id));
                assert(self.groups() =~= ng);
                assert(self.names() =~= old_names);
                Self::lemma_member_total_update(old_groups, p as int, old_groups[p as int].push(id));
                assert forall|sizes: Seq<u64>| #[trigger] groups_size(ng, sizes) == range_size(
                    (id + 1) as nat,
                    sizes,
                ) by {
                    lemma_groups_size_update(old_groups, p as int, old_groups[p as int].push(id), sizes);
                    assert(old_groups[p as int].push(id).drop_last() =~= old_groups[p as int]);
                    assert(groups_size(old_groups, sizes) == range_size(id as nat, sizes));
                }
                assert forall|i: int, k1: int, k2: int|
                    0 <= i < ng.len() && 0 <= k1 < k2 < ng[i].len() implies #[trigger] ng[i][k1]
                        < #[trigger] ng[i][k2] by {
                    if i == p {
                        if k2 == old_groups[p as int].len() {
                            assert(old_groups[i][k1] < id);
                        } else {
                            assert(old_groups[i][k1] < old_groups[i][k2]);
                        }
                    }
                }
                assert forall|i1: int, i2: int, k1: int, k2: int|
                    0 <= i1 < ng.len() && 0 <= i2 < ng.len() && i1 != i2 && 0 <= k1 < ng[i1].len()
                        && 0 <= k2 < ng[i2].len() implies #[trigger] ng[i1][k1] != #[trigger] ng[i2][k2] by {
                    if i1 == p && k1 == old_groups[p as int].len() {
                        assert(old_groups[i2][k2] < id);
                    } else if i2 == p && k2 == old_groups[p as int].len() {
                        assert(old_groups[i1][k1] < id);
                    } else {
                        assert(old_groups[i1][k1] != old_groups[i2][k2]);
                    }
                }
                assert(old_names.index_of(name@) == p as int);
                assert(self.contents() =~= old_contents.insert(name@, old_contents[name@].push(id)));
            }
        } else {
            self.names.insert(p, name);
            let mut g: Vec<usize> = Vec::new();
            g.push(id);
            self.members.insert(p, g);
            self.count = id + 1;
            proof {
                let nn = old_names.insert(p as int, name@);
                let ng = old_groups.insert(p as int, seq![id]);
                assert(self.names() =~= nn);
                assert(self.groups() =~= ng);
                Self::lemma_member_total_insert(old_groups, p as int, seq![id]);
                assert forall|sizes: Seq<u64>| #[trigger] groups_size(ng, sizes) == range_size(
                    (id + 1) as nat,
                    sizes,
                ) by {
                    lemma_groups_size_insert(old_groups, p as int, seq![id], sizes);
                    assert(seq![id].drop_last() =~= Seq::<usize>::empty());
                    assert(sum_sizes(Seq::<usize>::empty(), sizes) == 0);
                    assert(sum_sizes(seq![id], sizes) == crate::sizes::size_of(sizes, id));
                    assert(groups_size(old_groups, sizes) == range_size(id as nat, sizes));
                }
                assert forall|i: int, j: int| 0 <= i < j < nn.len() implies text_lt(
                    #[trigger] nn[i],
                    #[trigger] nn[j],
                ) by {
                    if j < p {
                    } else if j == p {
                    } else if i < p {
                        assert(nn[j] == old_names[j - 1]);
                        lemma_text_lt_transitive(old_names[i], name@, old_names[p as int]);
                        if j - 1 > p {
                            lemma_text_lt_transitive(old_names[i], old_names[p as int], old_names[j - 1]);
                        }
                    } else if i == p {
                        assert(nn[j] == old_names[j - 1]);
                        if j - 1 > p {
                            lemma_text_lt_transitive(name@, old_names[p as int], old_names[j - 1]);
                        }
                    } else {
                        assert(nn[i] == old_names[i - 1]);
                        assert(nn[j] == old_names[j - 1]);
                    }
                }
                assert forall|i1: int, i2: int, k1: int, k2: int|
                    0 <= i1 < ng.len() && 0 <= i2 < ng.len() && i1 != i2 && 0 <= k1 < ng[i1].len()
                        && 0 <= k2 < ng[i2].len() implies #[trigger] ng[i1][k1] != #[trigger] ng[i2][k2] by {
                    if i1 == p {
                        let j2 = if i2 < p { i2 } else { i2 - 1 };
                        assert(ng[i2] == old_groups[j2]);
                        assert(old_groups[j2][k2] < id);
                    } else if i2 == p {
                        let j1 = if i1 < p { i1 } else { i1 - 1 };
                        assert(ng[i1] == old_groups[j1]);
                        assert(old_groups[j1][k1] < id);
                    } else {
                        let j1 = if i1 < p { i1 } else { i1 - 1 };
                        let j2 = if i2 < p { i2 } else { i2 - 1 };
                        assert(ng[i1] == old_groups[j1]);
                        assert(ng[i2] == old_groups[j2]);
                    }
                }
                assert forall|i: int, k1: int, k2: int|
                    0 <= i < ng.len() && 0 <= k1 < k2 < ng[i].len() implies #[trigger] ng[i][k1]
                        < #[trigger] ng[i][k2] by {
                    if i != p {
                        let j = if i < p { i } else { i - 1 };
                        assert(ng[i] == old_groups[j]);
                    }
                }
                assert forall|i: int, k: int|
                    0 <= i < ng.len() && 0 <= k < ng[i].len() implies #[trigger] ng[i][k] < id + 1 by {
                    if i != p {
                        let j = if i < p { i } else { i - 1 };
                        assert(ng[i] == old_groups[j]);
                    }
                }
                assert forall|i: int| 0 <= i < ng.len() implies #[trigger] ng[i].len() > 0 by {
                    if i != p {
                        let j = if i < p { i } else { i - 1 };
                        assert(ng[i] == old_groups[j]);
                    }
                }
                assert(!old_names.contains(name@)) by {
                    if old_names.contains(name@) {
                        let j = choose|j: int| 0 <= j < old_names.len() && old_names[j] == name@;
                        lemma_text_lt_irreflexive(name@);
                        if j >= p && j > p {
                            lemma_text_lt_transitive(name@, old_names[p as int], old_names[j]);
                        }
                    }
                }
                Self::lemma_names_distinct(nn);
                assert forall|k: Seq<char>| #[trigger] nn.contains(k) implies (k == name@
                    || old_names.contains(k)) && ng[nn.index_of(k)] == (if k == name@ {
                    seq![id]
                } else {
                    old_groups[old_names.index_of(k)]
                }) by {
                    let j = nn.index_of(k);
                    if k != name@ {
                        let oj = if j < p { j } else { j - 1 };
                        assert(old_names[oj] == k);
                        assert(old_names.contains(k));
                        assert(old_names.index_of(k) == oj);
                    } else {
                        assert(nn[p as int] == k);
                    }
                }
                assert forall|k: Seq<char>| #[trigger] old_names.contains(k) implies nn.contains(k) by {
                    let j = old_names.index_of(k);
                    if j < p {
                        assert(nn[j] == k);
                    } else {
                        assert(nn[j + 1] == k);
                    }
                }
                assert(nn[p as int] == name@);
                assert(self.contents() =~= old_contents.insert(name@, seq![id]));
                assert(Seq::<usize>::empty().push(id) =~= seq![id]);
            }
        }
        id
    }

    proof fn lemma_names_distinct(names: Seq<Seq<char>>)
        requires
            forall|i: int, j: int|
                0 <= i < j < names.len() ==> text_lt(#[trigger] names[i], #[trigger] names[j]),
        ensures
            forall|i: int, j: int|
                0 <= i < names.len() && 0 <= j < names.len() && names[i] == names[j] ==> i == j,
            forall|k: Seq<char>| #[trigger] names.contains(k) ==> 0 <= names.index_of(k) < names.len()
                && names[names.index_of(k)] == k,
            forall|i: int| 0 <= i < names.len() ==> names.index_of(#[trigger] names[i]) == i,
    {
        assert forall|i: int, j: int|
            0 <= i < names.len() && 0 <= j < names.len() && names[i] == names[j] implies i == j by {
            lemma_text_lt_irreflexive(names[i]);
            if i < j {
                assert(text_lt(names[i], names[j]));
            }
            if j < i {
                assert(text_lt(names[j], names[i]));
            }
        }
        assert forall|i: int| 0 <= i < names.len() implies names.index_of(#[trigger] names[i]) == i by {
            assert(names.contains(names[i]));
        }
    }

    /// Two strictly sorted lists of names holding the same names are equal.
    proof fn lemma_sorted_same_names(a: Seq<Seq<char>>, b: Seq<Seq<char>>)
        requires
            forall|i: int, j: int| 0 <= i < j < a.len() ==> text_lt(#[trigger] a[i], #[trigger] a[j]),
            forall|i: int, j: int| 0 <= i < j < b.len() ==> text_lt(#[trigger] b[i], #[trigger] b[j]),
            forall|x: Seq<char>| a.contains(x) <==> b.contains(x),
        ensures
            a == b,
        decreases a.len(),
    {
        if a.len() == 0 {
            if b.len() > 0 {
                assert(b.contains(b[0]));
            }
            assert(a =~= b);
        } else if b.len() == 0 {
            assert(a.contains(a[0]));
        } else {
            assert(a.contains(a[0]));
            assert(b.contains(b[0]));
            if a[0] != b[0] {
                let j = choose|j: int| 0 <= j < b.len() && b[j] == a[0];
                let i = choose|i: int| 0 <= i < a.len() && a[i] == b[0];
                assert(j > 0);
                assert(i > 0);
                assert(text_lt(b[0], a[0]));
                assert(text_lt(a[0], b[0]));
                lemma_text_lt_transitive(a[0], b[0], a[0]);
                lemma_text_lt_irreflexive(a[0]);
            }
            let ta = a.drop_first();
            let tb = b.drop_first();
            assert forall|x: Seq<char>| ta.contains(x) <==> tb.contains(x) by {
                if ta.contains(x) {
                    let k = choose|k: int| 0 <= k < ta.len() && ta[k] == x;
                    assert(a[k + 1] == x);
                    assert(a.contains(x));
                    let m = choose|m: int| 0 <= m < b.len() && b[m] == x;
                    lemma_text_lt_irreflexive(x);
                    if m == 0 {
                        assert(text_lt(a[0], a[k + 1]));
                    }
                    assert(m > 0);
                    assert(tb[m - 1] == x);
                }
                if tb.contains(x) {
                    let k = choose|k: int| 0 <= k < tb.len() && tb[k] == x;
                    assert(b[k + 1] == x);
                    assert(b.contains(x));
                    let m = choose|m: int| 0 <= m < a.len() && a[m] == x;
                    lemma_text_lt_irreflexive(x);
                    if m == 0 {
                        assert(text_lt(b[0], b[k + 1]));
                    }
                    assert(m > 0);
                    assert(ta[m - 1] == x);
                }
            }
            Self::lemma_sorted_same_names(ta, tb);
            assert(a =~= seq![a[0]] + ta);
            assert(b =~= seq![b[0]] + tb);
        }
    }

    /// What a well-formed catalog holds fixes its names and groups: two
    /// catalogs with the same folders under the same names list them in
    /// the same order, whatever order the folders were recorded in.
    pub proof fn law_same_contents_same_lists(c1: Catalog, c2: Catalog)
        requires
            c1.wf(),
            c2.wf(),
            c1.contents() == c2.contents(),
        ensures
            c1.names() == c2.names(),
            c1.groups() == c2.groups(),
    {
        let (n1, n2) = (c1.names(), c2.names());
        assert forall|x: Seq<char>| n1.contains(x) <==> n2.contains(x) by {
            assert(c1.contents().dom().contains(x) == n1.contains(x));
            assert(c2.contents().dom().contains(x) == n2.contains(x));
        }
        Self::lemma_sorted_same_names(n1, n2);
        Self::lemma_names_distinct(n1);
        assert forall|i: int| 0 <= i < c1.groups().len() implies c1.groups()[i] == c2.groups()[i] by {
            assert(n1.contains(n1[i]));
            assert(n1.index_of(n1[i]) == i);
            assert(c1.contents()[n1[i]] == c1.groups()[i]);
            assert(c2.contents()[n1[i]] == c2.groups()[i]);
        }
        assert(c1.groups() =~= c2.groups());
    }
}

} // verus!

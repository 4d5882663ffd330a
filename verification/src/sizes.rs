//! Disk space taken by the folders found, in bytes.
//!
//! `sizes[id]` is the size of folder `id`; a folder without an entry counts
//! as empty. Totals are exact: a sum of `usize`-many `u64` sizes always fits
//! a `u128`.

use vstd::prelude::*;
use crate::catalog::{Catalog, member_total};

verus! {

/// Total size of the folders numbered below `n`.
pub open spec fn range_size(n: nat, sizes: Seq<u64>) -> int
    decreases n,
{
    if n == 0 {
        0
    } else {
        range_size((n - 1) as nat, sizes) + size_of(sizes, (n - 1) as usize)
    }
}

pub proof fn lemma_groups_size_update(groups: Seq<Seq<usize>>, p: int, g: Seq<usize>, sizes: Seq<u64>)
    requires
        0 <= p < groups.len(),
    ensures
        groups_size(groups.update(p, g), sizes) == groups_size(groups, sizes) - sum_sizes(
            groups[p],
            sizes,
        ) + sum_sizes(g, sizes),
    decreases groups.len(),
{
    if p < groups.len() - 1 {
        lemma_groups_size_update(groups.drop_last(), p, g, sizes);
        assert(groups.update(p, g).drop_last() =~= groups.drop_last().update(p, g));
    } else {
        assert(groups.update(p, g).drop_last() =~= groups.drop_last());
    }
}

pub proof fn lemma_groups_size_insert(groups: Seq<Seq<usize>>, p: int, g: Seq<usize>, sizes: Seq<u64>)
    requires
        0 <= p <= groups.len(),
    ensures
        groups_size(groups.insert(p, g), sizes) == groups_size(groups, sizes) + sum_sizes(g, sizes),
    decreases groups.len(),
{
    if p < groups.len() {
        lemma_groups_size_insert(groups.drop_last(), p, g, sizes);
        assert(groups.insert(p, g).drop_last() =~= groups.drop_last().insert(p, g));
        assert(groups.insert(p, g).last() == groups.last());
    } else {
        assert(groups.insert(p, g).drop_last() =~= groups);
    }
}

/// Largest `u64`, as an integer.
pub open spec fn max_size() -> int {
    0xffff_ffff_ffff_ffffint
}

/// Size of folder `id`; 0 when none is known.
pub open spec fn size_of(sizes: Seq<u64>, id: usize) -> int {
    if id < sizes.len() {
        sizes[id as int] as int
    } else {
        0
    }
}

/// Total size of the given folders.
pub open spec fn sum_sizes(ids: Seq<usize>, sizes: Seq<u64>) -> int
    decreases ids.len(),
{
    if ids.len() == 0 {
        0
    } else {
        sum_sizes(ids.drop_last(), sizes) + size_of(sizes, ids.last())
    }
}

/// Total size of all the groups.
pub open spec fn groups_size(groups: Seq<Seq<usize>>, sizes: Seq<u64>) -> int
    decreases groups.len(),
{
    if groups.len() == 0 {
        0
    } else {
        groups_size(groups.drop_last(), sizes) + sum_sizes(groups.last(), sizes)
    }
}

proof fn lemma_mul_le(a: int, b: int, c: int)
    requires
        0 <= a <= b,
        0 <= c,
    ensures
        a * c <= b * c,
{
    assert(a * c <= b * c) by (nonlinear_arith)
        requires
            0 <= a <= b,
            0 <= c,
    ;
}

proof fn lemma_sum_sizes_bound(ids: Seq<usize>, sizes: Seq<u64>)
    ensures
        0 <= sum_sizes(ids, sizes) <= ids.len() * max_size(),
    decreases ids.len(),
{
    if ids.len() > 0 {
        lemma_sum_sizes_bound(ids.drop_last(), sizes);
        assert((ids.len() - 1) * max_size() + max_size() == ids.len() * max_size()) by (
        nonlinear_arith);
    }
}

proof fn lemma_member_total_prefix(groups: Seq<Seq<usize>>, i: int)
    requires
        0 <= i <= groups.len(),
    ensures
        0 <= member_total(groups.take(i)) <= member_total(groups),
    decreases groups.len() - i,
{
    if i < groups.len() {
        lemma_member_total_prefix(groups, i + 1);
        assert(groups.take(i + 1).drop_last() =~= groups.take(i));
    } else {
        assert(groups.take(i) =~= groups);
    }
    lemma_member_total_nonneg(groups.take(i));
}

proof fn lemma_member_total_nonneg(groups: Seq<Seq<usize>>)
    ensures
        member_total(groups) >= 0,
    decreases groups.len(),
{
    if groups.len() > 0 {
        lemma_member_total_nonneg(groups.drop_last());
    }
}

/// Total size of the folders `ids`, each counted as often as it occurs.
pub fn total_size(ids: &Vec<usize>, sizes: &Vec<u64>) -> (r: u128)
    ensures
        r == sum_sizes(ids@, sizes@),
{
    let n = ids.len();
    let mut acc: u128 = 0;
    let mut i: usize = 0;
    proof {
        assert(ids@.take(0) =~= Seq::<usize>::empty());
    }
    while i < n
        invariant
            n == ids@.len(),
            i <= n,
            acc == sum_sizes(ids@.take(i as int), sizes@),
        decreases n - i,
    {
        let id = ids[i];
        let s: u64 = if id < sizes.len() {
            sizes[id]
        } else {
            0
        };
        proof {
            assert(ids@.take(i + 1).drop_last() =~= ids@.take(i as int));
            lemma_sum_sizes_bound(ids@.take(i as int), sizes@);
            lemma_mul_le(i as int, 0xffff_ffff_ffff_ffff, max_size());
        }
        acc = acc + s as u128;
        i = i + 1;
    }
    proof {
        assert(ids@.take(n as int) =~= ids@);
    }
    acc
}

impl Catalog {
    /// Total size of the folders of category `i`.
    pub fn category_size(&self, i: usize, sizes: &Vec<u64>) -> (r: u128)
        requires
            self.wf(),
            i < self.names().len(),
        ensures
            r == sum_sizes(self.groups()[i as int], sizes@),
    {
        let n = self.group_len(i);
        let mut acc: u128 = 0;
        let mut j: usize = 0;
        let ghost g = self.groups()[i as int];
        proof {
            assert(g.take(0) =~= Seq::<usize>::empty());
        }
        while j < n
            invariant
                self.wf(),
                i < self.names().len(),
                g == self.groups()[i as int],
                n == g.len(),
                j <= n,
                acc == sum_sizes(g.take(j as int), sizes@),
            decreases n - j,
        {
            let id = self.member(i, j);
            let s: u64 = if id < sizes.len() {
                sizes[id]
            } else {
                0
            };
            proof {
                assert(g.take(j + 1).drop_last() =~= g.take(j as int));
                lemma_sum_sizes_bound(g.take(j as int), sizes@);
                lemma_mul_le(j as int, 0xffff_ffff_ffff_ffff, max_size());
            }
            acc = acc + s as u128;
            j = j + 1;
        }
        proof {
            assert(g.take(n as int) =~= g);
        }
        acc
    }

    /// Total size of every category together: the "wasted" space.
    pub fn total_size(&self, sizes: &Vec<u64>) -> (r: u128)
        requires
            self.wf(),
        ensures
            r == groups_size(self.groups(), sizes@),
    {
        let n = self.category_count();
        let mut acc: u128 = 0;
        let mut i: usize = 0;
        let ghost gs = self.groups();
        proof {
            assert(gs.take(0) =~= Seq::<Seq<usize>>::empty());
        }
        while i < n
            invariant
                self.wf(),
                gs == self.groups(),
                n == gs.len(),
                i <= n,
                acc == groups_size(gs.take(i as int), sizes@),
                acc <= member_total(gs.take(i as int)) * max_size(),
            decreases n - i,
        {
            let c = self.category_size(i, sizes);
            proof {
                assert(gs.take(i + 1).drop_last() =~= gs.take(i as int));
                assert(gs.take(i + 1).last() == gs[i as int]);
                lemma_sum_sizes_bound(gs[i as int], sizes@);
                lemma_member_total_prefix(gs, i + 1);
                assert(member_total(gs.take(i + 1)) == member_total(gs.take(i as int))
                    + gs[i as int].len());
                let a = member_total(gs.take(i as int));
                let b = gs[i as int].len() as int;
                let c = member_total(gs.take(i + 1));
                assert(a * max_size() + b * max_size() == c * max_size()) by (nonlinear_arith)
                    requires
                        c == a + b,
                ;
                lemma_mul_le(member_total(gs.take(i + 1)), 0xffff_ffff_ffff_ffff, max_size());
            }
            acc = acc + c;
            i = i + 1;
        }
        proof {
            assert(gs.take(n as int) =~= gs);
        }
        acc
    }
}

/// The size of a list of folders is the sum over its parts: one folder
/// counts its recorded size (0 when none is known), no folder counts 0, and
/// the size of two lists one after the other is the sum of their sizes.
pub proof fn law_sum_sizes(a: Seq<usize>, b: Seq<usize>, id: usize, sizes: Seq<u64>)
    ensures
        sum_sizes(Seq::<usize>::empty(), sizes) == 0,
        sum_sizes(seq![id], sizes) == (if id < sizes.len() {
            sizes[id as int] as int
        } else {
            0
        }),
        sum_sizes(a + b, sizes) == sum_sizes(a, sizes) + sum_sizes(b, sizes),
    decreases b.len(),
{
    assert(seq![id].drop_last() =~= Seq::<usize>::empty());
    if b.len() > 0 {
        law_sum_sizes(a, b.drop_last(), id, sizes);
        assert((a + b).drop_last() =~= a + b.drop_last());
        assert((a + b).last() == b.last());
    } else {
        assert(a + b =~= a);
    }
}

/// The size of all groups is the sum of the groups' sizes: one group counts
/// the size of its folders, and two lists of groups one after the other
/// count the sum of their sizes.
pub proof fn law_groups_size(a: Seq<Seq<usize>>, b: Seq<Seq<usize>>, g: Seq<usize>, sizes: Seq<u64>)
    ensures
        groups_size(Seq::<Seq<usize>>::empty(), sizes) == 0,
        groups_size(seq![g], sizes) == sum_sizes(g, sizes),
        groups_size(a + b, sizes) == groups_size(a, sizes) + groups_size(b, sizes),
    decreases b.len(),
{
    assert(seq![g].drop_last() =~= Seq::<Seq<usize>>::empty());
    if b.len() > 0 {
        law_groups_size(a, b.drop_last(), g, sizes);
        assert((a + b).drop_last() =~= a + b.drop_last());
        assert((a + b).last() == b.last());
    } else {
        assert(a + b =~= a);
    }
}

/// The wasted space, the total of the categories' sizes, counts every
/// folder found exactly once.
pub proof fn law_total_counts_each_folder_once(c: Catalog, sizes: Seq<u64>)
    requires
        c.wf(),
    ensures
        groups_size(c.groups(), sizes) == range_size(c.folder_count(), sizes),
{
}

/// Per cent of the marked folders deleted so far, as the progress bar
/// shows it.
pub fn deletion_percent(deleted: i32, total: usize) -> (r: u16)
    requires
        0 <= deleted,
        deleted as int <= total,
        deleted * 100 <= i32::MAX,
        total <= i32::MAX,
    ensures
        r == (if total == 0 {
            0
        } else {
            (deleted * 100) / (total as int)
        }),
{
    if total == 0 {
        0
    } else {
        let p: i32 = deleted * 100 / (total as i32);
        proof {
            assert(p <= 100) by (nonlinear_arith)
                requires
                    p == deleted * 100 / (total as int),
                    deleted <= total,
                    total > 0,
            ;
        }
        p as u16
    }
}

} // verus!

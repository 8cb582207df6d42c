//! The size-bounded eviction pass over the cache directory. The caller
//! enumerates the directory into plain `(name, size, modified)` records and
//! receives the partition back: which files stay and which must go, oldest
//! first, until the kept total fits the byte budget. Deleting the files, the
//! index records and the symlinks is then driven from that plan.

use vstd::prelude::*;
use vstd::seq_lib::group_to_multiset_ensures;

verus! {

/// One cache file, as the directory scan reports it: its name (the file id),
/// its size in bytes, and its last-modified time in seconds.
#[derive(Clone, Debug)]
pub struct CacheFileInfo {
    pub name: String,
    pub size: u64,
    pub modified: u64,
}

/// Mathematical image of a [`CacheFileInfo`].
#[verifier::ext_equal]
pub ghost struct FileView {
    pub name: Seq<char>,
    pub size: u64,
    pub modified: u64,
}

impl View for CacheFileInfo {
    type V = FileView;

    open spec fn view(&self) -> FileView {
        FileView { name: self.name@, size: self.size, modified: self.modified }
    }
}

/// Total size of a list of files.
pub open spec fn sum_sizes(s: Seq<FileView>) -> int
    decreases s.len(),
{
    if s.len() == 0 {
        0
    } else {
        sum_sizes(s.drop_last()) + s.last().size
    }
}

proof fn lemma_sum_sizes_remove(s: Seq<FileView>, i: int)
    requires
        0 <= i < s.len(),
    ensures
        sum_sizes(s.remove(i)) == sum_sizes(s) - s[i].size,
    decreases s.len(),
{
    if i == s.len() - 1 {
        assert(s.remove(i) =~= s.drop_last());
    } else {
        assert(s.remove(i).drop_last() =~= s.drop_last().remove(i));
        lemma_sum_sizes_remove(s.drop_last(), i);
        assert(s.remove(i).last() == s.last());
    }
}

proof fn lemma_sum_sizes_bounds(s: Seq<FileView>)
    ensures
        0 <= sum_sizes(s),
        sum_sizes(s) <= s.len() * (u64::MAX as int),
    decreases s.len(),
{
    if s.len() > 0 {
        lemma_sum_sizes_bounds(s.drop_last());
        assert((s.len() - 1) * (u64::MAX as int) + (u64::MAX as int) == s.len() * (
        u64::MAX as int)) by (nonlinear_arith);
    }
}

/// The views of a list of file records.
pub open spec fn file_views(v: Seq<CacheFileInfo>) -> Seq<FileView> {
    v.map_values(|f: CacheFileInfo| f@)
}

/// Splits the directory contents into the files to keep and the files to
/// evict, the way the cache sweep works: while the total exceeds the budget,
/// the oldest file goes. The two halves are a partition of the input; evicted
/// files come back oldest first, every evicted file is at least as old as
/// every kept file, and the pass stops as soon as the kept total fits — the
/// last eviction was necessary.
pub fn plan_eviction(files: Vec<CacheFileInfo>, max_bytes: u64) -> (r: (
    Vec<CacheFileInfo>,
    Vec<CacheFileInfo>,
))
    ensures
        file_views(r.0@).to_multiset().add(file_views(r.1@).to_multiset()) == file_views(
            files@,
        ).to_multiset(),
        sum_sizes(file_views(r.0@)) <= max_bytes || r.0@.len() == 0,
        forall|i: int, j: int|
            0 <= i < r.1@.len() && 0 <= j < r.0@.len() ==> (#[trigger] r.1@[i])@.modified <= (
            #[trigger] r.0@[j])@.modified,
        forall|i: int, j: int|
            0 <= i < j < r.1@.len() ==> (#[trigger] r.1@[i])@.modified <= (
            #[trigger] r.1@[j])@.modified,
        r.1@.len() > 0 ==> sum_sizes(file_views(r.0@)) + r.1@.last()@.size > max_bytes,
{
    broadcast use group_to_multiset_ensures;

    let mut kept = files;
    let mut evicted: Vec<CacheFileInfo> = Vec::new();
    let ghost all = file_views(kept@);
    let mut total: u128 = 0;
    let n = kept.len();
    let mut i: usize = 0;
    while i < n
        invariant
            0 <= i <= n,
            n == kept@.len(),
            total == sum_sizes(file_views(kept@).take(i as int)),
            total <= (i as int) * (u64::MAX as int),
        decreases n - i,
    {
        proof {
            assert(file_views(kept@).take(i + 1).drop_last() =~= file_views(kept@).take(i as int));
            assert(file_views(kept@).take(i + 1).last() == kept@[i as int]@);
            assert((i as int) * (u64::MAX as int) + (u64::MAX as int) == (i + 1) * (
            u64::MAX as int)) by (nonlinear_arith);
            assert((i + 1) * (u64::MAX as int) < u128::MAX) by (nonlinear_arith)
                requires
                    0 <= i + 1 <= usize::MAX,
            ;
        }
        total = total + (kept[i].size as u128);
        i = i + 1;
    }
    proof {
        assert(file_views(kept@).take(n as int) =~= file_views(kept@));
        assert(file_views(evicted@) =~= Seq::<FileView>::empty());
        assert(file_views(kept@).to_multiset().add(file_views(evicted@).to_multiset()) =~= all.to_multiset());
    }
    while total > (max_bytes as u128) && kept.len() > 0
        invariant
            total == sum_sizes(file_views(kept@)),
            file_views(kept@).to_multiset().add(file_views(evicted@).to_multiset())
                == all.to_multiset(),
            forall|a: int, b: int|
                0 <= a < evicted@.len() && 0 <= b < kept@.len() ==> (
                #[trigger] evicted@[a])@.modified <= (#[trigger] kept@[b])@.modified,
            forall|a: int, b: int|
                0 <= a < b < evicted@.len() ==> (#[trigger] evicted@[a])@.modified <= (
                #[trigger] evicted@[b])@.modified,
            evicted@.len() > 0 ==> sum_sizes(file_views(kept@)) + evicted@.last()@.size
                > max_bytes,
        decreases kept@.len(),
    {
        let m = kept.len();
        let mut oldest: usize = 0;
        let mut k: usize = 1;
        while k < m
            invariant
                0 <= oldest < k <= m,
                m == kept@.len(),
                forall|j: int|
                    0 <= j < k ==> kept@[oldest as int]@.modified <= (#[trigger] kept@[j])@.modified,
            decreases m - k,
        {
            if kept[k].modified < kept[oldest].modified {
                oldest = k;
            }
            k = k + 1;
        }
        let ghost pre_kept = file_views(kept@);
        let ghost pre_evicted = file_views(evicted@);
        proof {
            lemma_sum_sizes_remove(pre_kept, oldest as int);
            lemma_sum_sizes_bounds(pre_kept.remove(oldest as int));
        }
        let f = kept.remove(oldest);
        let fsize = f.size;
        evicted.push(f);
        proof {
            broadcast use vstd::multiset::group_multiset_axioms;
            broadcast use group_to_multiset_ensures;

            pre_kept.to_multiset_ensures();
            pre_evicted.to_multiset_ensures();
            assert(file_views(kept@) =~= pre_kept.remove(oldest as int));
            assert(file_views(evicted@) =~= pre_evicted.push(f@));
            assert(pre_kept[oldest as int] == f@);
            assert(pre_kept.contains(f@));
            assert(pre_kept.to_multiset().count(f@) > 0);
            assert(pre_kept.remove(oldest as int).to_multiset() =~= pre_kept.to_multiset().remove(
                pre_kept[oldest as int],
            ));
            assert(file_views(kept@).to_multiset() =~= pre_kept.to_multiset().remove(f@));
            assert(file_views(evicted@).to_multiset() =~= pre_evicted.to_multiset().insert(f@));
            assert(file_views(kept@).to_multiset().add(file_views(evicted@).to_multiset())
                =~= all.to_multiset());
            assert forall|a: int, b: int|
                0 <= a < evicted@.len() && 0 <= b < kept@.len() implies (
            #[trigger] evicted@[a])@.modified <= (#[trigger] kept@[b])@.modified by {
                assert(kept@[b]@ == if b < oldest as int {
                    pre_kept[b]
                } else {
                    pre_kept[b + 1]
                });
            }
        }
        total = total - (fsize as u128);
    }
    proof {
        lemma_sum_sizes_bounds(file_views(kept@));
    }
    (kept, evicted)
}

} // verus!

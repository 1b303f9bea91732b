//! The aggregate table: per-key running statistics of a MongoDB oplog.
//!
//! The table maps each grouping key to its running document count and
//! cumulative byte size, and carries one scalar, the number of documents
//! processed so far.  Entries are kept in first-observation order; a key is
//! created lazily with its first document and never removed.  The table's
//! invariant ties the scalar to the per-entry counts: the document counts
//! over all entries always sum to the processed count.

use vstd::prelude::*;

use crate::extract::extract;
use crate::extract::spec_extract;
use crate::extract::ExtractError;
use crate::share::format_share_value;
use crate::share::spec_share_text;
use crate::text::spec_dec;
use crate::text::str_eq;
use crate::text::u64_to_dec;
use humansize::FileSize;

verus! {

/// Statistics for a single oplog entry.
#[derive(Clone, Copy, Debug, PartialEq, Eq, Structural)]
pub struct OplogEntryStats {
    /// Number of documents for the entry.
    pub doc_count: u64,
    /// Total size of documents for the entry.
    pub doc_total_size: u64,
}

impl OplogEntryStats {
    /// Creates a new, empty statistics for a single oplog entry.
    pub fn new() -> (r: Self)
        ensures
            r.doc_count == 0,
            r.doc_total_size == 0,
    {
        OplogEntryStats { doc_count: 0, doc_total_size: 0 }
    }
}

/// A table entry as the specification sees it: the grouping key's
/// characters and the entry's aggregates.
pub type EntryView = (Seq<char>, OplogEntryStats);

/// The specification view of a vector of named entries.
pub open spec fn pairs_view(s: Seq<(String, OplogEntryStats)>) -> Seq<EntryView> {
    s.map_values(|p: (String, OplogEntryStats)| (p.0@, p.1))
}

/// The sum of the document counts over a sequence of table entries.
pub open spec fn sum_counts(s: Seq<EntryView>) -> int
    decreases s.len(),
{
    if s.len() == 0 {
        0
    } else {
        sum_counts(s.drop_last()) + s.last().1.doc_count
    }
}

/// The sum of the cumulative byte sizes over a sequence of table entries.
pub open spec fn sum_sizes(s: Seq<EntryView>) -> int
    decreases s.len(),
{
    if s.len() == 0 {
        0
    } else {
        sum_sizes(s.drop_last()) + s.last().1.doc_total_size
    }
}

/// The index of the first entry with the given name, or `-1` when no entry
/// has it.
pub open spec fn find_index(s: Seq<EntryView>, name: Seq<char>) -> int
    decreases s.len(),
{
    if s.len() == 0 {
        -1
    } else if s[0].0 == name {
        0
    } else {
        let r = find_index(s.subrange(1, s.len() as int), name);
        if r == -1 {
            -1
        } else {
            r + 1
        }
    }
}

pub proof fn lemma_find_index(s: Seq<EntryView>, name: Seq<char>)
    ensures
        find_index(s, name) == -1 ==> forall|i: int| 0 <= i < s.len() ==> s[i].0 != name,
        find_index(s, name) != -1 ==> 0 <= find_index(s, name) < s.len() && s[find_index(
            s,
            name,
        )].0 == name,
        find_index(s, name) != -1 ==> forall|i: int|
            0 <= i < find_index(s, name) ==> s[i].0 != name,
    decreases s.len(),
{
    if s.len() == 0 {
    } else if s[0].0 == name {
    } else {
        let t = s.subrange(1, s.len() as int);
        lemma_find_index(t, name);
        if find_index(s, name) == -1 {
            assert(find_index(t, name) == -1);
            assert forall|i: int| 0 <= i < s.len() implies s[i].0 != name by {
                if i >= 1 {
                    assert(s[i] == t[i - 1]);
                }
            }
        } else {
            let f = find_index(s, name);
            assert(f == find_index(t, name) + 1);
            assert(s[f] == t[f - 1]);
            assert forall|i: int| 0 <= i < f implies s[i].0 != name by {
                if i >= 1 {
                    assert(s[i] == t[i - 1]);
                }
            }
        }
    }
}

pub proof fn lemma_sums_nonneg(s: Seq<EntryView>)
    ensures
        sum_counts(s) >= 0,
        sum_sizes(s) >= 0,
    decreases s.len(),
{
    if s.len() > 0 {
        lemma_sums_nonneg(s.drop_last());
    }
}

pub proof fn lemma_sums_update(s: Seq<EntryView>, i: int, e: EntryView)
    requires
        0 <= i < s.len(),
    ensures
        sum_counts(s.update(i, e)) == sum_counts(s) - s[i].1.doc_count + e.1.doc_count,
        sum_sizes(s.update(i, e)) == sum_sizes(s) - s[i].1.doc_total_size + e.1.doc_total_size,
    decreases s.len(),
{
    let t = s.update(i, e);
    if i == s.len() - 1 {
        assert(t.drop_last() =~= s.drop_last());
    } else {
        assert(t.drop_last() =~= s.drop_last().update(i, e));
        lemma_sums_update(s.drop_last(), i, e);
    }
}

pub proof fn lemma_sums_push(s: Seq<EntryView>, e: EntryView)
    ensures
        sum_counts(s.push(e)) == sum_counts(s) + e.1.doc_count,
        sum_sizes(s.push(e)) == sum_sizes(s) + e.1.doc_total_size,
{
    assert(s.push(e).drop_last() =~= s);
}

/// Every single entry's count and size are bounded by the sums over the
/// whole table.
pub proof fn lemma_entry_le_sums(s: Seq<EntryView>, i: int)
    requires
        0 <= i < s.len(),
    ensures
        s[i].1.doc_count <= sum_counts(s),
        s[i].1.doc_total_size <= sum_sizes(s),
    decreases s.len(),
{
    if i == s.len() - 1 {
        lemma_sums_nonneg(s.drop_last());
    } else {
        lemma_entry_le_sums(s.drop_last(), i);
    }
}

pub proof fn lemma_sums_take_le(s: Seq<EntryView>, i: int)
    requires
        0 <= i <= s.len(),
    ensures
        sum_counts(s.take(i)) <= sum_counts(s),
        sum_sizes(s.take(i)) <= sum_sizes(s),
    decreases s.len() - i,
{
    if i == s.len() {
        assert(s.take(i) =~= s);
    } else {
        assert(s.take(i + 1).drop_last() =~= s.take(i));
        lemma_sums_take_le(s, i + 1);
    }
}

/// Well-formedness of a sequence of table entries: names are distinct, every
/// entry has seen at least one document, and the sizes sum within the
/// counter's range.
pub open spec fn table_inv(s: Seq<EntryView>) -> bool {
    &&& forall|i: int, j: int| 0 <= i < j < s.len() ==> s[i].0 != s[j].0
    &&& forall|i: int| 0 <= i < s.len() ==> #[trigger] s[i].1.doc_count >= 1
    &&& sum_sizes(s) <= u64::MAX
}

/// The human-readable rendering of a byte count, as the size formatter
/// produces it: a function of the byte count alone.
pub uninterp spec fn human_size_of(bytes: u64) -> Seq<char>;

/// How recording one document under `name` with size `size` reshapes the
/// entries: an existing entry absorbs the document in place; a new name is
/// appended with a count of one.  All other entries, and the entry order,
/// are unchanged.
pub open spec fn updated_with(
    post: Seq<EntryView>,
    pre: Seq<EntryView>,
    name: Seq<char>,
    size: u64,
) -> bool {
    let i = find_index(pre, name);
    if i >= 0 {
        post == pre.update(
            i,
            (
                name,
                (OplogEntryStats {
                    doc_count: (pre[i].1.doc_count + 1) as u64,
                    doc_total_size: (pre[i].1.doc_total_size + size) as u64,
                }),
            ),
        )
    } else {
        post == pre.push((name, (OplogEntryStats { doc_count: 1, doc_total_size: size })))
    }
}

pub proof fn lemma_find_index_push(s: Seq<EntryView>, e: EntryView, name: Seq<char>)
    ensures
        find_index(s, name) != -1 ==> find_index(s.push(e), name) == find_index(s, name),
        find_index(s, name) == -1 && e.0 == name ==> find_index(s.push(e), name) == s.len(),
        find_index(s, name) == -1 && e.0 != name ==> find_index(s.push(e), name) == -1,
    decreases s.len(),
{
    let p = s.push(e);
    if s.len() == 0 {
        assert(p[0] == e);
        assert(p.subrange(1, 1) =~= Seq::<EntryView>::empty());
        if e.0 == name {
            assert(find_index(p, name) == 0);
        } else {
            assert(find_index(p.subrange(1, 1), name) == -1);
        }
    } else {
        assert(p[0] == s[0]);
        if s[0].0 == name {
        } else {
            let sp = s.subrange(1, s.len() as int);
            let pp = p.subrange(1, p.len() as int);
            assert(pp =~= sp.push(e));
            // the ranges of the two inner searches rule out stray values
            lemma_find_index(sp, name);
            lemma_find_index(pp, name);
            lemma_find_index_push(sp, e, name);
        }
    }
}

/// Whether a sequence of entries is ranked: cumulative sizes are
/// non-increasing from front to back.
pub open spec fn ranked_order(s: Seq<EntryView>) -> bool {
    forall|i: int, j: int|
        #![trigger s[i], s[j]]
        0 <= i < j < s.len() ==> s[i].1.doc_total_size >= s[j].1.doc_total_size
}

/// Where one more entry ranks within an already ranked sequence: after
/// every entry whose size is at least its own, so that entries of equal
/// size keep their first-observation order.
pub open spec fn rank_pos(s: Seq<EntryView>, e: EntryView) -> int
    decreases s.len(),
{
    if s.len() == 0 {
        0
    } else if s[0].1.doc_total_size >= e.1.doc_total_size {
        1 + rank_pos(s.subrange(1, s.len() as int), e)
    } else {
        0
    }
}

/// Inserting one more entry into a ranked sequence, at its rank.
pub open spec fn spec_rank_insert(s: Seq<EntryView>, e: EntryView) -> Seq<EntryView> {
    s.insert(rank_pos(s, e), e)
}

/// The ranked snapshot of a sequence of table entries: the same entries,
/// ordered by cumulative size descending; entries of equal size keep their
/// first-observation order.  The tie-break is deliberate and fixed, so the
/// snapshot is a pure function of the table's contents.
pub open spec fn spec_ranked(s: Seq<EntryView>) -> Seq<EntryView>
    decreases s.len(),
{
    if s.len() == 0 {
        Seq::empty()
    } else {
        spec_rank_insert(spec_ranked(s.drop_last()), s.last())
    }
}

pub proof fn lemma_rank_pos(s: Seq<EntryView>, e: EntryView)
    ensures
        0 <= rank_pos(s, e) <= s.len(),
        forall|j: int|
            0 <= j < rank_pos(s, e) ==> (#[trigger] s[j]).1.doc_total_size
                >= e.1.doc_total_size,
        rank_pos(s, e) < s.len() ==> s[rank_pos(s, e)].1.doc_total_size < e.1.doc_total_size,
    decreases s.len(),
{
    if s.len() == 0 {
    } else if s[0].1.doc_total_size >= e.1.doc_total_size {
        let t = s.subrange(1, s.len() as int);
        lemma_rank_pos(t, e);
        let k = rank_pos(s, e);
        assert forall|j: int| 0 <= j < k implies (#[trigger] s[j]).1.doc_total_size
            >= e.1.doc_total_size by {
            if j >= 1 {
                assert(s[j] == t[j - 1]);
            }
        }
        if k < s.len() {
            assert(s[k] == t[k - 1]);
        }
    } else {
    }
}

/// Ranking one more entry keeps the order.
pub proof fn lemma_rank_insert_order(s: Seq<EntryView>, e: EntryView)
    requires
        ranked_order(s),
    ensures
        ranked_order(spec_rank_insert(s, e)),
{
    lemma_rank_pos(s, e);
    let k = rank_pos(s, e);
    s.insert_ensures(k, e);
    let r = s.insert(k, e);
    assert forall|i: int, j: int|
        #![trigger r[i], r[j]]
        0 <= i < j < r.len() implies r[i].1.doc_total_size >= r[j].1.doc_total_size by {
        if i < k {
            assert(r[i] == s[i]);
        } else if i == k {
            assert(r[i] == e);
        } else {
            assert(r[i] == s[i - 1]);
        }
        if j < k {
            assert(r[j] == s[j]);
        } else if j == k {
            assert(r[j] == e);
        } else {
            assert(r[j] == s[j - 1]);
        }
    }
}

/// A ranked snapshot is ordered by cumulative size, largest first.
pub proof fn lemma_ranked_order(s: Seq<EntryView>)
    ensures
        ranked_order(spec_ranked(s)),
    decreases s.len(),
{
    if s.len() > 0 {
        lemma_ranked_order(s.drop_last());
        lemma_rank_insert_order(spec_ranked(s.drop_last()), s.last());
    }
}

/// A ranked snapshot holds exactly the table's entries: ranking permutes
/// and neither drops, adds nor alters any entry.
pub proof fn lemma_ranked_multiset(s: Seq<EntryView>)
    ensures
        spec_ranked(s).to_multiset() == s.to_multiset(),
        spec_ranked(s).len() == s.len(),
    decreases s.len(),
{
    if s.len() == 0 {
        assert(spec_ranked(s) =~= s);
    } else {
        let d = s.drop_last();
        let e = s.last();
        let rd = spec_ranked(d);
        lemma_ranked_multiset(d);
        lemma_rank_pos(rd, e);
        rd.insert_ensures(rank_pos(rd, e), e);
        vstd::seq_lib::to_multiset_insert(rd, rank_pos(rd, e), e);
        vstd::seq_lib::to_multiset_build(d, e);
        assert(s =~= d.push(e));
        assert(spec_ranked(s).to_multiset() == rd.to_multiset().insert(e));
        assert(s.to_multiset() == d.to_multiset().insert(e));
    }
}

/// The ranking's tie-break: among entries of equal cumulative size, the
/// entry observed first ranks first.  Together with `lemma_ranked_order`
/// and `lemma_ranked_multiset` this pins the ranked snapshot down
/// completely for a table with distinct names.
pub proof fn lemma_ranked_stable(s: Seq<EntryView>)
    requires
        forall|i: int, j: int| 0 <= i < j < s.len() ==> s[i].0 != s[j].0,
    ensures
        forall|i: int, j: int|
            #![trigger spec_ranked(s)[i], spec_ranked(s)[j]]
            0 <= i < j < spec_ranked(s).len() && spec_ranked(s)[i].1.doc_total_size
                == spec_ranked(s)[j].1.doc_total_size ==> 0 <= find_index(
                s,
                spec_ranked(s)[i].0,
            ) < find_index(s, spec_ranked(s)[j].0),
    decreases s.len(),
{
    if s.len() == 0 {
        return ;
    }
    let d = s.drop_last();
    let e = s.last();
    let rd = spec_ranked(d);
    let r = spec_ranked(s);
    lemma_ranked_stable(d);
    lemma_ranked_order(d);
    lemma_ranked_multiset(d);
    lemma_rank_pos(rd, e);
    let k = rank_pos(rd, e);
    rd.insert_ensures(k, e);
    assert(s =~= d.push(e));
    // the newly pushed name is not among the earlier ones
    lemma_find_index(d, e.0);
    assert(find_index(d, e.0) == -1) by {
        let fd = find_index(d, e.0);
        if fd != -1 {
            assert(d[fd].0 == e.0);
            assert(s[fd].0 == s[s.len() - 1].0);
            assert(false);
        }
    };
    lemma_find_index_push(d, e, e.0);
    assert(find_index(s, e.0) == d.len());
    // every ranked entry of the shorter table keeps its index in `s`
    assert forall|m: int| 0 <= m < rd.len() implies 0 <= find_index(s, rd[m].0) < d.len()
        && find_index(s, rd[m].0) == find_index(d, rd[m].0) by {
        assert(rd.contains(rd[m]));
        vstd::seq_lib::to_multiset_contains(rd, rd[m]);
        vstd::seq_lib::to_multiset_contains(d, rd[m]);
        assert(d.contains(rd[m]));
        let w = choose|w: int| 0 <= w < d.len() && d[w] == rd[m];
        lemma_find_index(d, rd[m].0);
        assert(find_index(d, rd[m].0) != -1) by {
            if find_index(d, rd[m].0) == -1 {
                assert(d[w].0 != rd[m].0);
                assert(false);
            }
        };
        lemma_find_index_push(d, e, rd[m].0);
    }
    assert forall|i: int, j: int|
        #![trigger r[i], r[j]]
        0 <= i < j < r.len() && r[i].1.doc_total_size == r[j].1.doc_total_size implies 0
        <= find_index(s, r[i].0) < find_index(s, r[j].0) by {
        if i < k {
            assert(r[i] == rd[i]);
        } else if i == k {
            assert(r[i] == e);
        } else {
            assert(r[i] == rd[i - 1]);
        }
        if j < k {
            assert(r[j] == rd[j]);
        } else if j == k {
            assert(r[j] == e);
        } else {
            assert(r[j] == rd[j - 1]);
        }
        if i == k {
            // everything ranked after the new entry is strictly smaller
            assert(k < rd.len());
            assert(rd[j - 1].1.doc_total_size <= rd[k].1.doc_total_size);
            assert(false);
        } else if j == k {
            // an earlier-observed entry of equal size ranks before the new one
            assert(find_index(s, rd[i].0) < d.len());
        } else {
            let a = if i < k {
                i
            } else {
                i - 1
            };
            let b = if j < k {
                j
            } else {
                j - 1
            };
            assert(r[i] == rd[a] && r[j] == rd[b] && 0 <= a < b < rd.len());
            assert(rd[a].1.doc_total_size == rd[b].1.doc_total_size);
            assert(0 <= find_index(d, rd[a].0) < find_index(d, rd[b].0));
        }
    }
}

/// Statistics of a MongoDB oplog.
#[derive(Debug)]
pub struct OplogStats {
    /// Per-entry statistics, in first-observation order.
    entries: Vec<(String, OplogEntryStats)>,
    /// Number of processed documents so far.
    processed_doc_count: u64,
}

impl View for OplogStats {
    type V = Seq<EntryView>;

    closed spec fn view(&self) -> Seq<EntryView> {
        pairs_view(self.entries@)
    }
}

impl OplogStats {
    /// The number of processed documents so far.
    pub closed spec fn processed_count(self) -> u64 {
        self.processed_doc_count
    }

    /// The table's invariant.  Conservation is part of it: the document
    /// counts over all entries sum exactly to the processed count, at every
    /// observation point.
    pub open spec fn inv(self) -> bool {
        &&& table_inv(self@)
        &&& sum_counts(self@) == self.processed_count()
    }

    /// Returns a new, empty oplog statistics.
    pub fn new() -> (r: Self)
        ensures
            r.inv(),
            r@ == Seq::<(Seq<char>, OplogEntryStats)>::empty(),
            r.processed_count() == 0,
    {
        let r = OplogStats { entries: Vec::new(), processed_doc_count: 0 };
        proof {
            assert(r@ =~= Seq::<(Seq<char>, OplogEntryStats)>::empty());
        }
        r
    }

    /// Returns the number of processed documents so far.
    pub fn get_processed_doc_count(&self) -> (r: u64)
        ensures
            r == self.processed_count(),
    {
        self.processed_doc_count
    }

    /// Have we processed at least one document?
    pub fn processed_at_least_one_doc(&self) -> (r: bool)
        ensures
            r == (self.processed_count() > 0),
    {
        self.processed_doc_count > 0
    }

    /// Records one document of size `size` under the entry `name`: the
    /// entry is created with zero aggregates when absent, its count then
    /// grows by one and its size by `size`, and the processed count grows
    /// by one.  All other entries, and the entry order, are unchanged.
    pub fn update_entry(&mut self, name: &str, size: u64)
        requires
            old(self).inv(),
            old(self).processed_count() < u64::MAX,
            sum_sizes(old(self)@) + size <= u64::MAX,
        ensures
            final(self).inv(),
            final(self).processed_count() == old(self).processed_count() + 1,
            sum_sizes(final(self)@) == sum_sizes(old(self)@) + size,
            updated_with(final(self)@, old(self)@, name@, size),
            final(self)@.len() >= old(self)@.len(),
            forall|k: int|
                0 <= k < old(self)@.len() ==> (#[trigger] final(self)@[k]).0 == old(self)@[k].0
                    && final(self)@[k].1.doc_count >= old(self)@[k].1.doc_count
                    && final(self)@[k].1.doc_total_size >= old(self)@[k].1.doc_total_size,
    {
        proof {
            lemma_find_index(self@, name@);
        }
        let ghost s0 = self@;
        let n = self.entries.len();
        let mut i: usize = 0;
        let mut idx: usize = n;
        while i < n
            invariant
                *self == *old(self),
                n == self.entries.len(),
                i <= n,
                idx <= n,
                idx == n ==> forall|k: int| 0 <= k < i ==> self@[k].0 != name@,
                idx < n ==> self@[idx as int].0 == name@ && (forall|k: int|
                    0 <= k < idx ==> self@[k].0 != name@),
            decreases n - i,
        {
            if idx == n && str_eq(self.entries[i].0.as_str(), name) {
                idx = i;
            }
            i += 1;
        }
        if idx < n {
            proof {
                assert(find_index(s0, name@) == idx as int) by {
                    if find_index(s0, name@) == -1 {
                        assert(s0[idx as int].0 == name@);
                        assert(false);
                    }
                    let f = find_index(s0, name@);
                    if f < idx as int {
                        assert(s0[f].0 == name@);
                        assert(false);
                    }
                    if f > idx as int {
                        assert(s0[idx as int].0 != name@);
                        assert(false);
                    }
                };
                lemma_entry_le_sums(s0, idx as int);
            }
            let cnt = self.entries[idx].1.doc_count;
            let tot = self.entries[idx].1.doc_total_size;
            self.entries.set(
                idx,
                (name.to_owned(), OplogEntryStats { doc_count: cnt + 1, doc_total_size: tot + size }),
            );
            self.processed_doc_count = self.processed_doc_count + 1;
            proof {
                let e = (name@, (OplogEntryStats {
                    doc_count: (s0[idx as int].1.doc_count + 1) as u64,
                    doc_total_size: (s0[idx as int].1.doc_total_size + size) as u64,
                }));
                assert(self@ =~= s0.update(idx as int, e));
                lemma_sums_update(s0, idx as int, e);
            }
        } else {
            proof {
                assert(find_index(s0, name@) == -1) by {
                    let f = find_index(s0, name@);
                    if f != -1 {
                        assert(s0[f].0 == name@);
                        assert(false);
                    }
                };
            }
            self.entries.push(
                (name.to_owned(), OplogEntryStats { doc_count: 1, doc_total_size: size }),
            );
            self.processed_doc_count = self.processed_doc_count + 1;
            proof {
                let e = (name@, (OplogEntryStats { doc_count: 1, doc_total_size: size }));
                assert(self@ =~= s0.push(e));
                lemma_sums_push(s0, e);
            }
        }
    }

    /// Returns the total size of all documents for all entries.
    pub fn total_doc_size_for_all_entries(&self) -> (r: u64)
        requires
            self.inv(),
        ensures
            r == sum_sizes(self@),
    {
        let n = self.entries.len();
        let mut i: usize = 0;
        let mut acc: u64 = 0;
        proof {
            assert(self@.take(0) =~= Seq::<(Seq<char>, OplogEntryStats)>::empty());
        }
        while i < n
            invariant
                self.inv(),
                n == self.entries.len(),
                i <= n,
                acc == sum_sizes(self@.take(i as int)),
            decreases n - i,
        {
            proof {
                assert(self@.take(i + 1).drop_last() =~= self@.take(i as int));
                lemma_sums_take_le(self@, i + 1);
                lemma_sums_nonneg(self@.take(i as int));
            }
            acc = acc + self.entries[i].1.doc_total_size;
            i += 1;
        }
        proof {
            assert(self@.take(n as int) =~= self@);
        }
        acc
    }

    /// Formats the share for the entry with the given name, under the
    /// presentation policy: `"< 0.01"` for a share strictly below `0.01`
    /// percent, two decimal places otherwise.
    pub fn format_share_for(&self, entry_name: &str) -> (r: String)
        requires
            self.inv(),
            find_index(self@, entry_name@) >= 0,
        ensures
            r@ == spec_share_text(
                self@[find_index(self@, entry_name@)].1.doc_total_size as int,
                sum_sizes(self@),
            ),
    {
        proof {
            lemma_find_index(self@, entry_name@);
        }
        let total = self.total_doc_size_for_all_entries();
        let n = self.entries.len();
        let mut i: usize = 0;
        let mut part: u64 = 0;
        let ghost f = find_index(self@, entry_name@);
        while i < n
            invariant
                self.inv(),
                n == self.entries.len(),
                i <= n,
                0 <= f < n,
                self@[f].0 == entry_name@,
                forall|k: int| 0 <= k < f ==> self@[k].0 != entry_name@,
                i > f ==> part == self@[f].1.doc_total_size,
            decreases n - i,
        {
            if str_eq(self.entries[i].0.as_str(), entry_name) {
                proof {
                    if i as int != f {
                        assert(self@[i as int].0 == self@[f].0);
                        assert(false);
                    }
                }
                part = self.entries[i].1.doc_total_size;
            }
            i += 1;
        }
        proof {
            lemma_entry_le_sums(self@, f);
        }
        format_share_value(part, total)
    }

    /// Returns the oplog entries ordered by their cumulative size, largest
    /// first; entries of equal size keep their first-observation order.
    /// The result is exactly the ranked snapshot of the table's contents.
    pub fn most_common(&self) -> (r: Vec<(String, OplogEntryStats)>)
        ensures
            pairs_view(r@) == spec_ranked(self@),
    {
        let n = self.entries.len();
        let mut out: Vec<(String, OplogEntryStats)> = Vec::new();
        let mut i: usize = 0;
        proof {
            assert(self@.take(0) =~= Seq::<EntryView>::empty());
            assert(pairs_view(out@) =~= spec_ranked(self@.take(0)));
        }
        while i < n
            invariant
                n == self.entries.len(),
                i <= n,
                pairs_view(out@) == spec_ranked(self@.take(i as int)),
            decreases n - i,
        {
            let name = self.entries[i].0.clone();
            let st = self.entries[i].1;
            let size = st.doc_total_size;
            let ghost nm = name@;
            let ghost t = pairs_view(out@);
            let ghost e = (nm, st);
            proof {
                lemma_rank_pos(t, e);
            }
            let m = out.len();
            let mut k: usize = 0;
            while k < m && out[k].1.doc_total_size >= size
                invariant
                    m == out.len(),
                    k <= m,
                    t == pairs_view(out@),
                    forall|j: int| 0 <= j < k ==> (#[trigger] t[j]).1.doc_total_size >= size,
                decreases m - k,
            {
                proof {
                    assert(t[k as int].1 == out@[k as int].1);
                }
                k += 1;
            }
            proof {
                assert(k < m ==> t[k as int].1.doc_total_size < size) by {
                    if k < m {
                        assert(t[k as int].1 == out@[k as int].1);
                    }
                };
                assert(k as int == rank_pos(t, e)) by {
                    let kr = rank_pos(t, e);
                    if kr < k as int {
                        assert(t[kr].1.doc_total_size >= size);
                        assert(t[kr].1.doc_total_size < e.1.doc_total_size);
                        assert(false);
                    }
                    if kr > k as int {
                        assert(t[k as int].1.doc_total_size >= e.1.doc_total_size);
                        assert(t[k as int].1.doc_total_size < size);
                        assert(false);
                    }
                };
            }
            let ghost outpre = out@;
            out.insert(k, (name, st));
            proof {
                outpre.insert_ensures(k as int, ((name, st)));
                t.insert_ensures(k as int, e);
                assert forall|idx: int| 0 <= idx < pairs_view(out@).len() implies pairs_view(
                    out@,
                )[idx] == t.insert(k as int, e)[idx] by {
                    if idx < k as int {
                        assert(out@[idx] == outpre[idx]);
                    } else if idx == k as int {
                    } else {
                        assert(out@[idx] == outpre[idx - 1]);
                    }
                }
                assert(pairs_view(out@) =~= t.insert(k as int, e));
                assert(self@.take(i + 1).drop_last() =~= self@.take(i as int));
                assert(self@.take(i + 1).last() == self@[i as int]);
                assert(e == self@[i as int]);
                assert(pairs_view(out@) == spec_ranked(self@.take(i + 1)));
            }
            i += 1;
        }
        proof {
            assert(self@.take(n as int) =~= self@);
        }
        out
    }

    /// Formats the given document size into a human-readable string.
    ///
    /// Relies on humansize's `FileSize::file_size` for `u64` with the
    /// decimal (1000-based) options: the result is a function of the byte
    /// count alone, and the implementation for unsigned integers never
    /// returns an error.
    #[verifier::external_body]
    pub fn format_total_doc_size(&self, size: u64) -> (r: String)
        ensures
            r@ == human_size_of(size),
    {
        size.file_size(humansize::file_size_opts::DECIMAL)
            .expect("can fail only on negative sizes")
    }

    /// Renders the ranked snapshot row by row: for each entry, in ranked
    /// order, its name and the textual forms of its document count, its
    /// cumulative size and its share of the total.
    pub fn snapshot_rows(&self) -> (r: Vec<SnapshotRow>)
        requires
            self.inv(),
        ensures
            r@.len() == spec_ranked(self@).len(),
            forall|i: int|
                0 <= i < r@.len() ==> {
                    let e = #[trigger] spec_ranked(self@)[i];
                    &&& r@[i].entry_name@ == e.0
                    &&& r@[i].doc_count_text@ == spec_dec(e.1.doc_count as int)
                    &&& r@[i].total_size_text@ == human_size_of(e.1.doc_total_size)
                    &&& r@[i].share_text@ == spec_share_text(
                        e.1.doc_total_size as int,
                        sum_sizes(self@),
                    )
                },
    {
        let ranked = self.most_common();
        let mut rows: Vec<SnapshotRow> = Vec::new();
        let n = ranked.len();
        let mut i: usize = 0;
        while i < n
            invariant
                self.inv(),
                n == ranked.len(),
                pairs_view(ranked@) == spec_ranked(self@),
                i <= n,
                rows@.len() == i,
                forall|j: int|
                    0 <= j < i ==> {
                        let e = #[trigger] spec_ranked(self@)[j];
                        &&& rows@[j].entry_name@ == e.0
                        &&& rows@[j].doc_count_text@ == spec_dec(e.1.doc_count as int)
                        &&& rows@[j].total_size_text@ == human_size_of(e.1.doc_total_size)
                        &&& rows@[j].share_text@ == spec_share_text(
                            e.1.doc_total_size as int,
                            sum_sizes(self@),
                        )
                    },
            decreases n - i,
        {
            let name = ranked[i].0.clone();
            let st = ranked[i].1;
            proof {
                let e = (name@, st);
                assert(pairs_view(ranked@)[i as int] == e);
                assert(spec_ranked(self@).contains(e)) by {
                    assert(spec_ranked(self@)[i as int] == e);
                }
                vstd::seq_lib::to_multiset_contains(spec_ranked(self@), e);
                lemma_ranked_multiset(self@);
                vstd::seq_lib::to_multiset_contains(self@, e);
                assert(self@.contains(e));
                let w = choose|j: int| 0 <= j < self@.len() && self@[j] == e;
                lemma_find_index(self@, name@);
                let f = find_index(self@, name@);
                assert(f != -1) by {
                    if f == -1 {
                        assert(self@[w].0 != name@);
                        assert(false);
                    }
                };
                assert(self@[f] == e) by {
                    if f != w {
                        assert(self@[f].0 == self@[w].0);
                        assert(false);
                    }
                };
            }
            let share = self.format_share_for(name.as_str());
            let count_text = u64_to_dec(st.doc_count);
            let size_text = self.format_total_doc_size(st.doc_total_size);
            rows.push(
                SnapshotRow {
                    entry_name: name,
                    doc_count_text: count_text,
                    total_size_text: size_text,
                    share_text: share,
                },
            );
            i += 1;
        }
        rows
    }

    /// Updates the statistics with the given oplog document: on successful
    /// extraction the entry for the document's grouping key absorbs the
    /// document and the processed count grows by one; on an extraction
    /// failure, or when a counter would exceed its range, nothing changes.
    pub fn update(&mut self, doc: &bson::Document) -> (r: Result<(), UpdateError>)
        requires
            old(self).inv(),
        ensures
            final(self).inv(),
            (match r {
                Ok(()) => {
                    &&& spec_extract(*doc) matches Ok(p)
                    &&& old(self).processed_count() < u64::MAX
                    &&& sum_sizes(old(self)@) + p.1 <= u64::MAX
                    &&& final(self).processed_count() == old(self).processed_count() + 1
                    &&& sum_sizes(final(self)@) == sum_sizes(old(self)@) + p.1
                    &&& updated_with(final(self)@, old(self)@, p.0, p.1)
                },
                Err(UpdateError::Extract(e)) => {
                    &&& spec_extract(*doc) == Err::<(Seq<char>, u64), ExtractError>(e)
                    &&& *final(self) == *old(self)
                },
                Err(UpdateError::CounterOverflow) => {
                    &&& spec_extract(*doc) is Ok
                    &&& (old(self).processed_count() == u64::MAX || sum_sizes(old(self)@)
                        + spec_extract(*doc)->Ok_0.1 > u64::MAX)
                    &&& *final(self) == *old(self)
                },
            }),
    {
        let (key, size) = match extract(doc) {
            Ok(p) => p,
            Err(e) => {
                return Err(UpdateError::Extract(e));
            },
        };
        if self.processed_doc_count == u64::MAX {
            return Err(UpdateError::CounterOverflow);
        }
        let total = self.total_doc_size_for_all_entries();
        if size > u64::MAX - total {
            return Err(UpdateError::CounterOverflow);
        }
        self.update_entry(key.as_str(), size);
        Ok(())
    }
}

/// One row of a rendered snapshot, ready for tabular display: the entry's
/// name and the textual forms of its count, cumulative size and share.
pub struct SnapshotRow {
    /// The entry's grouping key.
    pub entry_name: String,
    /// The entry's document count, in decimal.
    pub doc_count_text: String,
    /// The entry's cumulative size, as a human-readable size string.
    pub total_size_text: String,
    /// The entry's share of the total size, under the presentation policy.
    pub share_text: String,
}

/// Conservation: at every observation point, the document counts over all
/// entries sum exactly to the processed count.
pub proof fn lemma_conservation(s: OplogStats)
    requires
        s.inv(),
    ensures
        sum_counts(s@) == s.processed_count(),
{
}

/// The sum of the per-entry share numerators over a sequence of entries,
/// each in hundredths of a percent scaled by the total size: the numerator
/// of one entry's exact share is `10000 * size`.
pub open spec fn sum_share_numerators(s: Seq<EntryView>) -> int
    decreases s.len(),
{
    if s.len() == 0 {
        0
    } else {
        sum_share_numerators(s.drop_last()) + 10000 * s.last().1.doc_total_size
    }
}

/// The exact shares over all entries sum to one hundred percent: the share
/// numerators sum to exactly `10000` (that is, `100.00` percent) times the
/// total size, so dividing by a positive total, the exact shares sum to
/// exactly `100.00`.  Each rendered share differs from the exact one only
/// by its final rounding.
pub proof fn lemma_shares_sum_to_whole(s: Seq<EntryView>)
    ensures
        sum_share_numerators(s) == 10000 * sum_sizes(s),
    decreases s.len(),
{
    if s.len() > 0 {
        lemma_shares_sum_to_whole(s.drop_last());
    }
}

/// Why updating the statistics with a document failed.
#[derive(Clone, Copy, Debug, PartialEq, Eq, Structural)]
pub enum UpdateError {
    /// The document's key or size could not be extracted.
    Extract(ExtractError),
    /// Absorbing the document would grow a counter beyond its range.
    CounterOverflow,
}

} // verus!

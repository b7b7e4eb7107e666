//! Counting of the association rows that name a record, with the lemmas
//! that relate the counts of sequences built by push, concatenation and
//! removal.
use vstd::prelude::*;
use crate::models::{FileGroupDTO, GroupRelation, GroupTagDTO};

verus! {

/// Number of file/group links of the file with id `id` among `s`.
pub open spec fn fg_count_file(s: Seq<FileGroupDTO>, id: i32) -> nat
    decreases s.len(),
{
    if s.len() == 0 {
        0
    } else {
        fg_count_file(s.drop_last(), id) + (if s.last().file_id == id { 1nat } else { 0nat })
    }
}

pub proof fn lemma_fg_count_file_concat(a: Seq<FileGroupDTO>, b: Seq<FileGroupDTO>, id: i32)
    ensures
        fg_count_file(a + b, id) == fg_count_file(a, id) + fg_count_file(b, id),
    decreases b.len(),
{
    if b.len() == 0 {
        assert(a + b =~= a);
    } else {
        assert((a + b).drop_last() =~= a + b.drop_last());
        assert((a + b).last() == b.last());
        lemma_fg_count_file_concat(a, b.drop_last(), id);
    }
}

pub proof fn lemma_fg_count_file_zero(s: Seq<FileGroupDTO>, id: i32)
    requires
        forall|k: int| 0 <= k < s.len() ==> (#[trigger] s[k]).file_id != id,
    ensures
        fg_count_file(s, id) == 0,
    decreases s.len(),
{
    if s.len() > 0 {
        lemma_fg_count_file_zero(s.drop_last(), id);
    }
}

/// Removing the row at `k` removes its contribution.
pub proof fn lemma_fg_count_file_remove(s: Seq<FileGroupDTO>, k: int, id: i32)
    requires
        0 <= k < s.len(),
    ensures
        fg_count_file(s, id) == fg_count_file(s.remove(k), id) + (if s[k].file_id == id { 1nat } else { 0nat }),
{
    let a = s.take(k);
    let b = s.skip(k + 1);
    assert(s =~= a + seq![s[k]] + b);
    assert(s.remove(k) =~= a + b);
    lemma_fg_count_file_concat(a + seq![s[k]], b, id);
    lemma_fg_count_file_concat(a, seq![s[k]], id);
    lemma_fg_count_file_concat(a, b, id);
    assert(seq![s[k]].drop_last() =~= Seq::<FileGroupDTO>::empty());
    assert(fg_count_file(Seq::<FileGroupDTO>::empty(), id) == 0);
    assert(fg_count_file(seq![s[k]], id) == (if s[k].file_id == id { 1nat } else { 0nat }));
}

/// A row with key `id` makes the count positive.
pub proof fn lemma_fg_count_file_pos(s: Seq<FileGroupDTO>, k: int, id: i32)
    requires
        0 <= k < s.len(),
        s[k].file_id == id,
    ensures
        fg_count_file(s, id) >= 1,
{
    lemma_fg_count_file_remove(s, k, id);
}

/// Two tables without repeated rows that hold the same rows of file `id`
/// count the same links of it.
pub proof fn lemma_fg_count_file_same_rows(a: Seq<FileGroupDTO>, b: Seq<FileGroupDTO>, id: i32)
    requires
        a.no_duplicates(),
        b.no_duplicates(),
        forall|x: FileGroupDTO| x.file_id == id ==> (#[trigger] a.contains(x) <==> b.contains(x)),
    ensures
        fg_count_file(a, id) == fg_count_file(b, id),
    decreases a.len(),
{
    if a.len() == 0 {
        assert forall|k: int| 0 <= k < b.len() implies (#[trigger] b[k]).file_id != id by {
            if b[k].file_id == id {
                assert(b.contains(b[k]));
                assert(!a.contains(b[k]));
            }
        }
        lemma_fg_count_file_zero(b, id);
    } else {
        let x = a.last();
        let a2 = a.drop_last();
        assert(a2.no_duplicates());
        if x.file_id != id {
            assert forall|y: FileGroupDTO| y.file_id == id implies (#[trigger] a2.contains(y) <==> b.contains(y)) by {
                if a.contains(y) {
                    let q = choose|q: int| 0 <= q < a.len() && a[q] == y;
                    assert(q != a.len() - 1);
                    assert(a2[q] == y);
                }
                if a2.contains(y) {
                    let q = choose|q: int| 0 <= q < a2.len() && a2[q] == y;
                    assert(a[q] == y);
                }
            }
            lemma_fg_count_file_same_rows(a2, b, id);
        } else {
            assert(a.contains(x)) by {
                assert(a[a.len() - 1] == x);
            }
            let k = choose|k: int| 0 <= k < b.len() && b[k] == x;
            let b2 = b.remove(k);
            lemma_fg_count_file_remove(b, k, id);
            assert(b2.no_duplicates()) by {
                assert forall|i: int, j: int| 0 <= i < b2.len() && 0 <= j < b2.len() && i != j implies b2[i] != b2[j] by {
                    let ii = if i < k { i } else { i + 1 };
                    let jj = if j < k { j } else { j + 1 };
                    assert(b2[i] == b[ii] && b2[j] == b[jj]);
                }
            }
            assert forall|y: FileGroupDTO| y.file_id == id implies (#[trigger] a2.contains(y) <==> b2.contains(y)) by {
                if a2.contains(y) {
                    let q = choose|q: int| 0 <= q < a2.len() && a2[q] == y;
                    assert(a[q] == y);
                    assert(a.contains(y));
                    assert(y != x);
                    let r = choose|r: int| 0 <= r < b.len() && b[r] == y;
                    assert(r != k);
                    let rr = if r < k { r } else { r - 1 };
                    assert(b2[rr] == y);
                }
                if b2.contains(y) {
                    let q = choose|q: int| 0 <= q < b2.len() && b2[q] == y;
                    let qq = if q < k { q } else { q + 1 };
                    assert(b[qq] == y);
                    assert(qq != k);
                    assert(y != x);
                    assert(b.contains(y));
                    assert(a.contains(y));
                    let r = choose|r: int| 0 <= r < a.len() && a[r] == y;
                    assert(r != a.len() - 1);
                    assert(a2[r] == y);
                }
            }
            lemma_fg_count_file_same_rows(a2, b2, id);
        }
    }
}

/// Counts agree on sequences that agree on the key column.
pub proof fn lemma_fg_count_file_same_keys(a: Seq<FileGroupDTO>, b: Seq<FileGroupDTO>, id: i32)
    requires
        a.len() == b.len(),
        forall|k: int| 0 <= k < a.len() ==> (#[trigger] a[k]).file_id == b[k].file_id,
    ensures
        fg_count_file(a, id) == fg_count_file(b, id),
    decreases a.len(),
{
    if a.len() > 0 {
        lemma_fg_count_file_same_keys(a.drop_last(), b.drop_last(), id);
    }
}

/// Number of file/group links of the group with id `id` among `s`.
pub open spec fn fg_count_group(s: Seq<FileGroupDTO>, id: i32) -> nat
    decreases s.len(),
{
    if s.len() == 0 {
        0
    } else {
        fg_count_group(s.drop_last(), id) + (if s.last().group_id == id { 1nat } else { 0nat })
    }
}

pub proof fn lemma_fg_count_group_concat(a: Seq<FileGroupDTO>, b: Seq<FileGroupDTO>, id: i32)
    ensures
        fg_count_group(a + b, id) == fg_count_group(a, id) + fg_count_group(b, id),
    decreases b.len(),
{
    if b.len() == 0 {
        assert(a + b =~= a);
    } else {
        assert((a + b).drop_last() =~= a + b.drop_last());
        assert((a + b).last() == b.last());
        lemma_fg_count_group_concat(a, b.drop_last(), id);
    }
}

pub proof fn lemma_fg_count_group_zero(s: Seq<FileGroupDTO>, id: i32)
    requires
        forall|k: int| 0 <= k < s.len() ==> (#[trigger] s[k]).group_id != id,
    ensures
        fg_count_group(s, id) == 0,
    decreases s.len(),
{
    if s.len() > 0 {
        lemma_fg_count_group_zero(s.drop_last(), id);
    }
}

/// Removing the row at `k` removes its contribution.
pub proof fn lemma_fg_count_group_remove(s: Seq<FileGroupDTO>, k: int, id: i32)
    requires
        0 <= k < s.len(),
    ensures
        fg_count_group(s, id) == fg_count_group(s.remove(k), id) + (if s[k].group_id == id { 1nat } else { 0nat }),
{
    let a = s.take(k);
    let b = s.skip(k + 1);
    assert(s =~= a + seq![s[k]] + b);
    assert(s.remove(k) =~= a + b);
    lemma_fg_count_group_concat(a + seq![s[k]], b, id);
    lemma_fg_count_group_concat(a, seq![s[k]], id);
    lemma_fg_count_group_concat(a, b, id);
    assert(seq![s[k]].drop_last() =~= Seq::<FileGroupDTO>::empty());
    assert(fg_count_group(Seq::<FileGroupDTO>::empty(), id) == 0);
    assert(fg_count_group(seq![s[k]], id) == (if s[k].group_id == id { 1nat } else { 0nat }));
}

/// A row with key `id` makes the count positive.
pub proof fn lemma_fg_count_group_pos(s: Seq<FileGroupDTO>, k: int, id: i32)
    requires
        0 <= k < s.len(),
        s[k].group_id == id,
    ensures
        fg_count_group(s, id) >= 1,
{
    lemma_fg_count_group_remove(s, k, id);
}

/// Counts agree on sequences that agree on the key column.
pub proof fn lemma_fg_count_group_same_keys(a: Seq<FileGroupDTO>, b: Seq<FileGroupDTO>, id: i32)
    requires
        a.len() == b.len(),
        forall|k: int| 0 <= k < a.len() ==> (#[trigger] a[k]).group_id == b[k].group_id,
    ensures
        fg_count_group(a, id) == fg_count_group(b, id),
    decreases a.len(),
{
    if a.len() > 0 {
        lemma_fg_count_group_same_keys(a.drop_last(), b.drop_last(), id);
    }
}

/// Number of group/tag links of the group with id `id` among `s`.
pub open spec fn gt_count_group(s: Seq<GroupTagDTO>, id: i32) -> nat
    decreases s.len(),
{
    if s.len() == 0 {
        0
    } else {
        gt_count_group(s.drop_last(), id) + (if s.last().group_id == id { 1nat } else { 0nat })
    }
}

pub proof fn lemma_gt_count_group_concat(a: Seq<GroupTagDTO>, b: Seq<GroupTagDTO>, id: i32)
    ensures
        gt_count_group(a + b, id) == gt_count_group(a, id) + gt_count_group(b, id),
    decreases b.len(),
{
    if b.len() == 0 {
        assert(a + b =~= a);
    } else {
        assert((a + b).drop_last() =~= a + b.drop_last());
        assert((a + b).last() == b.last());
        lemma_gt_count_group_concat(a, b.drop_last(), id);
    }
}

pub proof fn lemma_gt_count_group_zero(s: Seq<GroupTagDTO>, id: i32)
    requires
        forall|k: int| 0 <= k < s.len() ==> (#[trigger] s[k]).group_id != id,
    ensures
        gt_count_group(s, id) == 0,
    decreases s.len(),
{
    if s.len() > 0 {
        lemma_gt_count_group_zero(s.drop_last(), id);
    }
}

/// Removing the row at `k` removes its contribution.
pub proof fn lemma_gt_count_group_remove(s: Seq<GroupTagDTO>, k: int, id: i32)
    requires
        0 <= k < s.len(),
    ensures
        gt_count_group(s, id) == gt_count_group(s.remove(k), id) + (if s[k].group_id == id { 1nat } else { 0nat }),
{
    let a = s.take(k);
    let b = s.skip(k + 1);
    assert(s =~= a + seq![s[k]] + b);
    assert(s.remove(k) =~= a + b);
    lemma_gt_count_group_concat(a + seq![s[k]], b, id);
    lemma_gt_count_group_concat(a, seq![s[k]], id);
    lemma_gt_count_group_concat(a, b, id);
    assert(seq![s[k]].drop_last() =~= Seq::<GroupTagDTO>::empty());
    assert(gt_count_group(Seq::<GroupTagDTO>::empty(), id) == 0);
    assert(gt_count_group(seq![s[k]], id) == (if s[k].group_id == id { 1nat } else { 0nat }));
}

/// A row with key `id` makes the count positive.
pub proof fn lemma_gt_count_group_pos(s: Seq<GroupTagDTO>, k: int, id: i32)
    requires
        0 <= k < s.len(),
        s[k].group_id == id,
    ensures
        gt_count_group(s, id) >= 1,
{
    lemma_gt_count_group_remove(s, k, id);
}

/// Counts agree on sequences that agree on the key column.
pub proof fn lemma_gt_count_group_same_keys(a: Seq<GroupTagDTO>, b: Seq<GroupTagDTO>, id: i32)
    requires
        a.len() == b.len(),
        forall|k: int| 0 <= k < a.len() ==> (#[trigger] a[k]).group_id == b[k].group_id,
    ensures
        gt_count_group(a, id) == gt_count_group(b, id),
    decreases a.len(),
{
    if a.len() > 0 {
        lemma_gt_count_group_same_keys(a.drop_last(), b.drop_last(), id);
    }
}

/// Number of group/tag links of the tag with id `id` among `s`.
pub open spec fn gt_count_tag(s: Seq<GroupTagDTO>, id: i32) -> nat
    decreases s.len(),
{
    if s.len() == 0 {
        0
    } else {
        gt_count_tag(s.drop_last(), id) + (if s.last().tag_id == id { 1nat } else { 0nat })
    }
}

pub proof fn lemma_gt_count_tag_concat(a: Seq<GroupTagDTO>, b: Seq<GroupTagDTO>, id: i32)
    ensures
        gt_count_tag(a + b, id) == gt_count_tag(a, id) + gt_count_tag(b, id),
    decreases b.len(),
{
    if b.len() == 0 {
        assert(a + b =~= a);
    } else {
        assert((a + b).drop_last() =~= a + b.drop_last());
        assert((a + b).last() == b.last());
        lemma_gt_count_tag_concat(a, b.drop_last(), id);
    }
}

pub proof fn lemma_gt_count_tag_zero(s: Seq<GroupTagDTO>, id: i32)
    requires
        forall|k: int| 0 <= k < s.len() ==> (#[trigger] s[k]).tag_id != id,
    ensures
        gt_count_tag(s, id) == 0,
    decreases s.len(),
{
    if s.len() > 0 {
        lemma_gt_count_tag_zero(s.drop_last(), id);
    }
}

/// Removing the row at `k` removes its contribution.
pub proof fn lemma_gt_count_tag_remove(s: Seq<GroupTagDTO>, k: int, id: i32)
    requires
        0 <= k < s.len(),
    ensures
        gt_count_tag(s, id) == gt_count_tag(s.remove(k), id) + (if s[k].tag_id == id { 1nat } else { 0nat }),
{
    let a = s.take(k);
    let b = s.skip(k + 1);
    assert(s =~= a + seq![s[k]] + b);
    assert(s.remove(k) =~= a + b);
    lemma_gt_count_tag_concat(a + seq![s[k]], b, id);
    lemma_gt_count_tag_concat(a, seq![s[k]], id);
    lemma_gt_count_tag_concat(a, b, id);
    assert(seq![s[k]].drop_last() =~= Seq::<GroupTagDTO>::empty());
    assert(gt_count_tag(Seq::<GroupTagDTO>::empty(), id) == 0);
    assert(gt_count_tag(seq![s[k]], id) == (if s[k].tag_id == id { 1nat } else { 0nat }));
}

/// A row with key `id` makes the count positive.
pub proof fn lemma_gt_count_tag_pos(s: Seq<GroupTagDTO>, k: int, id: i32)
    requires
        0 <= k < s.len(),
        s[k].tag_id == id,
    ensures
        gt_count_tag(s, id) >= 1,
{
    lemma_gt_count_tag_remove(s, k, id);
}

/// Counts agree on sequences that agree on the key column.
pub proof fn lemma_gt_count_tag_same_keys(a: Seq<GroupTagDTO>, b: Seq<GroupTagDTO>, id: i32)
    requires
        a.len() == b.len(),
        forall|k: int| 0 <= k < a.len() ==> (#[trigger] a[k]).tag_id == b[k].tag_id,
    ensures
        gt_count_tag(a, id) == gt_count_tag(b, id),
    decreases a.len(),
{
    if a.len() > 0 {
        lemma_gt_count_tag_same_keys(a.drop_last(), b.drop_last(), id);
    }
}

/// Number of relations whose first group is the group with id `id` among `s`.
pub open spec fn rel_count_first(s: Seq<GroupRelation>, id: i32) -> nat
    decreases s.len(),
{
    if s.len() == 0 {
        0
    } else {
        rel_count_first(s.drop_last(), id) + (if s.last().first_group_id == id { 1nat } else { 0nat })
    }
}

pub proof fn lemma_rel_count_first_concat(a: Seq<GroupRelation>, b: Seq<GroupRelation>, id: i32)
    ensures
        rel_count_first(a + b, id) == rel_count_first(a, id) + rel_count_first(b, id),
    decreases b.len(),
{
    if b.len() == 0 {
        assert(a + b =~= a);
    } else {
        assert((a + b).drop_last() =~= a + b.drop_last());
        assert((a + b).last() == b.last());
        lemma_rel_count_first_concat(a, b.drop_last(), id);
    }
}

pub proof fn lemma_rel_count_first_zero(s: Seq<GroupRelation>, id: i32)
    requires
        forall|k: int| 0 <= k < s.len() ==> (#[trigger] s[k]).first_group_id != id,
    ensures
        rel_count_first(s, id) == 0,
    decreases s.len(),
{
    if s.len() > 0 {
        lemma_rel_count_first_zero(s.drop_last(), id);
    }
}

/// Removing the row at `k` removes its contribution.
pub proof fn lemma_rel_count_first_remove(s: Seq<GroupRelation>, k: int, id: i32)
    requires
        0 <= k < s.len(),
    ensures
        rel_count_first(s, id) == rel_count_first(s.remove(k), id) + (if s[k].first_group_id == id { 1nat } else { 0nat }),
{
    let a = s.take(k);
    let b = s.skip(k + 1);
    assert(s =~= a + seq![s[k]] + b);
    assert(s.remove(k) =~= a + b);
    lemma_rel_count_first_concat(a + seq![s[k]], b, id);
    lemma_rel_count_first_concat(a, seq![s[k]], id);
    lemma_rel_count_first_concat(a, b, id);
    assert(seq![s[k]].drop_last() =~= Seq::<GroupRelation>::empty());
    assert(rel_count_first(Seq::<GroupRelation>::empty(), id) == 0);
    assert(rel_count_first(seq![s[k]], id) == (if s[k].first_group_id == id { 1nat } else { 0nat }));
}

/// A row with key `id` makes the count positive.
pub proof fn lemma_rel_count_first_pos(s: Seq<GroupRelation>, k: int, id: i32)
    requires
        0 <= k < s.len(),
        s[k].first_group_id == id,
    ensures
        rel_count_first(s, id) >= 1,
{
    lemma_rel_count_first_remove(s, k, id);
}

/// Counts agree on sequences that agree on the key column.
pub proof fn lemma_rel_count_first_same_keys(a: Seq<GroupRelation>, b: Seq<GroupRelation>, id: i32)
    requires
        a.len() == b.len(),
        forall|k: int| 0 <= k < a.len() ==> (#[trigger] a[k]).first_group_id == b[k].first_group_id,
    ensures
        rel_count_first(a, id) == rel_count_first(b, id),
    decreases a.len(),
{
    if a.len() > 0 {
        lemma_rel_count_first_same_keys(a.drop_last(), b.drop_last(), id);
    }
}

/// Number of relations whose second group is the group with id `id` among `s`.
pub open spec fn rel_count_second(s: Seq<GroupRelation>, id: i32) -> nat
    decreases s.len(),
{
    if s.len() == 0 {
        0
    } else {
        rel_count_second(s.drop_last(), id) + (if s.last().second_group_id == id { 1nat } else { 0nat })
    }
}

pub proof fn lemma_rel_count_second_concat(a: Seq<GroupRelation>, b: Seq<GroupRelation>, id: i32)
    ensures
        rel_count_second(a + b, id) == rel_count_second(a, id) + rel_count_second(b, id),
    decreases b.len(),
{
    if b.len() == 0 {
        assert(a + b =~= a);
    } else {
        assert((a + b).drop_last() =~= a + b.drop_last());
        assert((a + b).last() == b.last());
        lemma_rel_count_second_concat(a, b.drop_last(), id);
    }
}

pub proof fn lemma_rel_count_second_zero(s: Seq<GroupRelation>, id: i32)
    requires
        forall|k: int| 0 <= k < s.len() ==> (#[trigger] s[k]).second_group_id != id,
    ensures
        rel_count_second(s, id) == 0,
    decreases s.len(),
{
    if s.len() > 0 {
        lemma_rel_count_second_zero(s.drop_last(), id);
    }
}

/// Removing the row at `k` removes its contribution.
pub proof fn lemma_rel_count_second_remove(s: Seq<GroupRelation>, k: int, id: i32)
    requires
        0 <= k < s.len(),
    ensures
        rel_count_second(s, id) == rel_count_second(s.remove(k), id) + (if s[k].second_group_id == id { 1nat } else { 0nat }),
{
    let a = s.take(k);
    let b = s.skip(k + 1);
    assert(s =~= a + seq![s[k]] + b);
    assert(s.remove(k) =~= a + b);
    lemma_rel_count_second_concat(a + seq![s[k]], b, id);
    lemma_rel_count_second_concat(a, seq![s[k]], id);
    lemma_rel_count_second_concat(a, b, id);
    assert(seq![s[k]].drop_last() =~= Seq::<GroupRelation>::empty());
    assert(rel_count_second(Seq::<GroupRelation>::empty(), id) == 0);
    assert(rel_count_second(seq![s[k]], id) == (if s[k].second_group_id == id { 1nat } else { 0nat }));
}

/// A row with key `id` makes the count positive.
pub proof fn lemma_rel_count_second_pos(s: Seq<GroupRelation>, k: int, id: i32)
    requires
        0 <= k < s.len(),
        s[k].second_group_id == id,
    ensures
        rel_count_second(s, id) >= 1,
{
    lemma_rel_count_second_remove(s, k, id);
}

/// Counts agree on sequences that agree on the key column.
pub proof fn lemma_rel_count_second_same_keys(a: Seq<GroupRelation>, b: Seq<GroupRelation>, id: i32)
    requires
        a.len() == b.len(),
        forall|k: int| 0 <= k < a.len() ==> (#[trigger] a[k]).second_group_id == b[k].second_group_id,
    ensures
        rel_count_second(a, id) == rel_count_second(b, id),
    decreases a.len(),
{
    if a.len() > 0 {
        lemma_rel_count_second_same_keys(a.drop_last(), b.drop_last(), id);
    }
}

} // verus!

//! Sorting query results by one key, as an `ORDER BY` clause does: every
//! result is a rearrangement of its input in which no record comes after a
//! record that it precedes in the chosen order. Records with equal keys may
//! come in any order, as SQL leaves them.
use vstd::prelude::*;
use crate::models::{
    File, FileGroupDTO, FileGroupOrderBy, FileOrderBy, Group, GroupOrderBy, GroupRelation,
    GroupRelationOrderBy, GroupTagDTO, GroupTagOrderBy, OrderDirection, Tag, TagOrderBy,
};
use crate::text::{lemma_text_lt_irreflexive, lemma_text_lt_transitive, text_less, text_lt};

verus! {

/// `x` comes before `y` in direction `d`.
pub open spec fn int_before(d: OrderDirection, x: int, y: int) -> bool {
    match d {
        OrderDirection::Asc => x < y,
        OrderDirection::Desc => y < x,
    }
}

/// Text `x` comes before text `y` in direction `d`.
pub open spec fn text_before(d: OrderDirection, x: Seq<char>, y: Seq<char>) -> bool {
    match d {
        OrderDirection::Asc => text_lt(x, y),
        OrderDirection::Desc => text_lt(y, x),
    }
}

/// A flag as a number, false first.
pub open spec fn flag_value(b: bool) -> int {
    if b {
        1
    } else {
        0
    }
}

proof fn lemma_text_before_order(d: OrderDirection, x: Seq<char>, y: Seq<char>, z: Seq<char>)
    ensures
        !text_before(d, x, x),
        text_before(d, x, y) && text_before(d, y, z) ==> text_before(d, x, z),
{
    lemma_text_lt_irreflexive(x);
    if text_before(d, x, y) && text_before(d, y, z) {
        match d {
            OrderDirection::Asc => lemma_text_lt_transitive(x, y, z),
            OrderDirection::Desc => lemma_text_lt_transitive(z, y, x),
        }
    }
}

// ---- files ----

/// `a` comes before `b` in the order `ob`.
pub open spec fn file_before(a: File, b: File, ob: FileOrderBy) -> bool {
    match ob {
        FileOrderBy::Id(d) => int_before(d, a.id as int, b.id as int),
        FileOrderBy::Type(d) => text_before(d, a.type_@, b.type_@),
        FileOrderBy::Path(d) => text_before(d, a.path@, b.path@),
        FileOrderBy::ReferenceCount(d) => int_before(d, a.reference_count as int, b.reference_count as int),
        FileOrderBy::GroupId(d) => int_before(d, a.group_id as int, b.group_id as int),
    }
}

/// No file comes before itself, and coming before is transitive.
pub proof fn lemma_file_before_order(a: File, b: File, c: File, ob: FileOrderBy)
    ensures
        !file_before(a, a, ob),
        file_before(a, b, ob) && file_before(b, c, ob) ==> file_before(a, c, ob),
{
    match ob {
        FileOrderBy::Id(d) => {},
        FileOrderBy::Type(d) => lemma_text_before_order(d, a.type_@, b.type_@, c.type_@),
        FileOrderBy::Path(d) => lemma_text_before_order(d, a.path@, b.path@, c.path@),
        FileOrderBy::ReferenceCount(d) => {},
        FileOrderBy::GroupId(d) => {},
    }
}

/// No element of `s` comes after an element that it precedes in `ob`.
pub open spec fn files_sorted(s: Seq<File>, ob: FileOrderBy) -> bool {
    forall|p: int, q: int| 0 <= p < q < s.len() ==> !file_before(#[trigger] s[q], #[trigger] s[p], ob)
}

/// Whether `a` comes before `b` in the order `ob`.
pub fn file_precedes(a: &File, b: &File, ob: FileOrderBy) -> (r: bool)
    ensures
        r == file_before(*a, *b, ob),
{
    match ob {
        FileOrderBy::Id(d) => match d {
            OrderDirection::Asc => a.id < b.id,
            OrderDirection::Desc => b.id < a.id,
        },
        FileOrderBy::Type(d) => match d {
            OrderDirection::Asc => text_less(a.type_.as_str(), b.type_.as_str()),
            OrderDirection::Desc => text_less(b.type_.as_str(), a.type_.as_str()),
        },
        FileOrderBy::Path(d) => match d {
            OrderDirection::Asc => text_less(a.path.as_str(), b.path.as_str()),
            OrderDirection::Desc => text_less(b.path.as_str(), a.path.as_str()),
        },
        FileOrderBy::ReferenceCount(d) => match d {
            OrderDirection::Asc => a.reference_count < b.reference_count,
            OrderDirection::Desc => b.reference_count < a.reference_count,
        },
        FileOrderBy::GroupId(d) => match d {
            OrderDirection::Asc => a.group_id < b.group_id,
            OrderDirection::Desc => b.group_id < a.group_id,
        },
    }
}

/// The elements of `v`, sorted by `ob`.
pub fn sort_files(v: &Vec<File>, ob: FileOrderBy) -> (r: Vec<File>)
    ensures
        r@.to_multiset() == v@.to_multiset(),
        files_sorted(r@, ob),
{
    let mut out: Vec<File> = Vec::new();
    let mut i: usize = 0;
    proof {
        assert(out@ =~= v@.take(0));
    }
    while i < v.len()
        invariant
            i <= v@.len(),
            out@.to_multiset() == v@.take(i as int).to_multiset(),
            files_sorted(out@, ob),
        decreases v@.len() - i,
    {
        let x = v[i].clone();
        let mut pos: usize = 0;
        while pos < out.len() && !file_precedes(&x, &out[pos], ob)
            invariant
                pos <= out@.len(),
                forall|p: int| 0 <= p < pos ==> !file_before(x, #[trigger] out@[p], ob),
            decreases out@.len() - pos,
        {
            pos = pos + 1;
        }
        let ghost prev = out@;
        out.insert(pos, x);
        proof {
            assert(v@.take(i + 1) =~= v@.take(i as int).push(v@[i as int]));
            vstd::seq_lib::to_multiset_build(v@.take(i as int), v@[i as int]);
            vstd::seq_lib::to_multiset_insert(prev, pos as int, x);
            assert forall|p: int, q: int| 0 <= p < q < out@.len() implies !file_before(#[trigger] out@[q], #[trigger] out@[p], ob) by {
                if q < pos {
                    assert(out@[p] == prev[p] && out@[q] == prev[q]);
                } else if q == pos {
                    assert(out@[p] == prev[p]);
                } else {
                    assert(out@[q] == prev[q - 1]);
                    if p < pos {
                        assert(out@[p] == prev[p]);
                    } else if p == pos {
                        lemma_file_before_order(prev[q - 1], x, prev[pos as int], ob);
                        if q - 1 > pos {
                            assert(!file_before(prev[q - 1], prev[pos as int], ob));
                        }
                        lemma_file_before_order(prev[pos as int], prev[pos as int], prev[pos as int], ob);
                    } else {
                        assert(out@[p] == prev[p - 1]);
                    }
                }
            }
        }
        i = i + 1;
    }
    proof {
        assert(v@.take(i as int) =~= v@);
    }
    out
}

// ---- groups ----

/// `a` comes before `b` in the order `ob`.
pub open spec fn group_before(a: Group, b: Group, ob: GroupOrderBy) -> bool {
    match ob {
        GroupOrderBy::Id(d) => int_before(d, a.id as int, b.id as int),
        GroupOrderBy::Name(d) => text_before(d, a.name@, b.name@),
        GroupOrderBy::ReferenceCount(d) => int_before(d, a.reference_count as int, b.reference_count as int),
        GroupOrderBy::IsPrimary(d) => int_before(d, flag_value(a.is_primary), flag_value(b.is_primary)),
        GroupOrderBy::ClickCount(d) => int_before(d, a.click_count as int, b.click_count as int),
        GroupOrderBy::ShareCount(d) => int_before(d, a.share_count as int, b.share_count as int),
        GroupOrderBy::CreateTime(d) => int_before(d, a.create_time as int, b.create_time as int),
        GroupOrderBy::ModifyTime(d) => int_before(d, a.modify_time as int, b.modify_time as int),
    }
}

/// No group comes before itself, and coming before is transitive.
pub proof fn lemma_group_before_order(a: Group, b: Group, c: Group, ob: GroupOrderBy)
    ensures
        !group_before(a, a, ob),
        group_before(a, b, ob) && group_before(b, c, ob) ==> group_before(a, c, ob),
{
    match ob {
        GroupOrderBy::Id(d) => {},
        GroupOrderBy::Name(d) => lemma_text_before_order(d, a.name@, b.name@, c.name@),
        GroupOrderBy::ReferenceCount(d) => {},
        GroupOrderBy::IsPrimary(d) => {},
        GroupOrderBy::ClickCount(d) => {},
        GroupOrderBy::ShareCount(d) => {},
        GroupOrderBy::CreateTime(d) => {},
        GroupOrderBy::ModifyTime(d) => {},
    }
}

/// No element of `s` comes after an element that it precedes in `ob`.
pub open spec fn groups_sorted(s: Seq<Group>, ob: GroupOrderBy) -> bool {
    forall|p: int, q: int| 0 <= p < q < s.len() ==> !group_before(#[trigger] s[q], #[trigger] s[p], ob)
}

/// Whether `a` comes before `b` in the order `ob`.
pub fn group_precedes(a: &Group, b: &Group, ob: GroupOrderBy) -> (r: bool)
    ensures
        r == group_before(*a, *b, ob),
{
    match ob {
        GroupOrderBy::Id(d) => match d {
            OrderDirection::Asc => a.id < b.id,
            OrderDirection::Desc => b.id < a.id,
        },
        GroupOrderBy::Name(d) => match d {
            OrderDirection::Asc => text_less(a.name.as_str(), b.name.as_str()),
            OrderDirection::Desc => text_less(b.name.as_str(), a.name.as_str()),
        },
        GroupOrderBy::ReferenceCount(d) => match d {
            OrderDirection::Asc => a.reference_count < b.reference_count,
            OrderDirection::Desc => b.reference_count < a.reference_count,
        },
        GroupOrderBy::IsPrimary(d) => match d {
            OrderDirection::Asc => !a.is_primary && b.is_primary,
            OrderDirection::Desc => a.is_primary && !b.is_primary,
        },
        GroupOrderBy::ClickCount(d) => match d {
            OrderDirection::Asc => a.click_count < b.click_count,
            OrderDirection::Desc => b.click_count < a.click_count,
        },
        GroupOrderBy::ShareCount(d) => match d {
            OrderDirection::Asc => a.share_count < b.share_count,
            OrderDirection::Desc => b.share_count < a.share_count,
        },
        GroupOrderBy::CreateTime(d) => match d {
            OrderDirection::Asc => a.create_time < b.create_time,
            OrderDirection::Desc => b.create_time < a.create_time,
        },
        GroupOrderBy::ModifyTime(d) => match d {
            OrderDirection::Asc => a.modify_time < b.modify_time,
            OrderDirection::Desc => b.modify_time < a.modify_time,
        },
    }
}

/// The elements of `v`, sorted by `ob`.
pub fn sort_groups(v: &Vec<Group>, ob: GroupOrderBy) -> (r: Vec<Group>)
    ensures
        r@.to_multiset() == v@.to_multiset(),
        groups_sorted(r@, ob),
{
    let mut out: Vec<Group> = Vec::new();
    let mut i: usize = 0;
    proof {
        assert(out@ =~= v@.take(0));
    }
    while i < v.len()
        invariant
            i <= v@.len(),
            out@.to_multiset() == v@.take(i as int).to_multiset(),
            groups_sorted(out@, ob),
        decreases v@.len() - i,
    {
        let x = v[i].clone();
        let mut pos: usize = 0;
        while pos < out.len() && !group_precedes(&x, &out[pos], ob)
            invariant
                pos <= out@.len(),
                forall|p: int| 0 <= p < pos ==> !group_before(x, #[trigger] out@[p], ob),
            decreases out@.len() - pos,
        {
            pos = pos + 1;
        }
        let ghost prev = out@;
        out.insert(pos, x);
        proof {
            assert(v@.take(i + 1) =~= v@.take(i as int).push(v@[i as int]));
            vstd::seq_lib::to_multiset_build(v@.take(i as int), v@[i as int]);
            vstd::seq_lib::to_multiset_insert(prev, pos as int, x);
            assert forall|p: int, q: int| 0 <= p < q < out@.len() implies !group_before(#[trigger] out@[q], #[trigger] out@[p], ob) by {
                if q < pos {
                    assert(out@[p] == prev[p] && out@[q] == prev[q]);
                } else if q == pos {
                    assert(out@[p] == prev[p]);
                } else {
                    assert(out@[q] == prev[q - 1]);
                    if p < pos {
                        assert(out@[p] == prev[p]);
                    } else if p == pos {
                        lemma_group_before_order(prev[q - 1], x, prev[pos as int], ob);
                        if q - 1 > pos {
                            assert(!group_before(prev[q - 1], prev[pos as int], ob));
                        }
                        lemma_group_before_order(prev[pos as int], prev[pos as int], prev[pos as int], ob);
                    } else {
                        assert(out@[p] == prev[p - 1]);
                    }
                }
            }
        }
        i = i + 1;
    }
    proof {
        assert(v@.take(i as int) =~= v@);
    }
    out
}

// ---- tags ----

/// `a` comes before `b` in the order `ob`.
pub open spec fn tag_before(a: Tag, b: Tag, ob: TagOrderBy) -> bool {
    match ob {
        TagOrderBy::Id(d) => int_before(d, a.id as int, b.id as int),
        TagOrderBy::Name(d) => text_before(d, a.name@, b.name@),
        TagOrderBy::ReferenceCount(d) => int_before(d, a.reference_count as int, b.reference_count as int),
    }
}

/// No tag comes before itself, and coming before is transitive.
pub proof fn lemma_tag_before_order(a: Tag, b: Tag, c: Tag, ob: TagOrderBy)
    ensures
        !tag_before(a, a, ob),
        tag_before(a, b, ob) && tag_before(b, c, ob) ==> tag_before(a, c, ob),
{
    match ob {
        TagOrderBy::Id(d) => {},
        TagOrderBy::Name(d) => lemma_text_before_order(d, a.name@, b.name@, c.name@),
        TagOrderBy::ReferenceCount(d) => {},
    }
}

/// No element of `s` comes after an element that it precedes in `ob`.
pub open spec fn tags_sorted(s: Seq<Tag>, ob: TagOrderBy) -> bool {
    forall|p: int, q: int| 0 <= p < q < s.len() ==> !tag_before(#[trigger] s[q], #[trigger] s[p], ob)
}

/// Whether `a` comes before `b` in the order `ob`.
pub fn tag_precedes(a: &Tag, b: &Tag, ob: TagOrderBy) -> (r: bool)
    ensures
        r == tag_before(*a, *b, ob),
{
    match ob {
        TagOrderBy::Id(d) => match d {
            OrderDirection::Asc => a.id < b.id,
            OrderDirection::Desc => b.id < a.id,
        },
        TagOrderBy::Name(d) => match d {
            OrderDirection::Asc => text_less(a.name.as_str(), b.name.as_str()),
            OrderDirection::Desc => text_less(b.name.as_str(), a.name.as_str()),
        },
        TagOrderBy::ReferenceCount(d) => match d {
            OrderDirection::Asc => a.reference_count < b.reference_count,
            OrderDirection::Desc => b.reference_count < a.reference_count,
        },
    }
}

/// The elements of `v`, sorted by `ob`.
pub fn sort_tags(v: &Vec<Tag>, ob: TagOrderBy) -> (r: Vec<Tag>)
    ensures
        r@.to_multiset() == v@.to_multiset(),
        tags_sorted(r@, ob),
{
    let mut out: Vec<Tag> = Vec::new();
    let mut i: usize = 0;
    proof {
        assert(out@ =~= v@.take(0));
    }
    while i < v.len()
        invariant
            i <= v@.len(),
            out@.to_multiset() == v@.take(i as int).to_multiset(),
            tags_sorted(out@, ob),
        decreases v@.len() - i,
    {
        let x = v[i].clone();
        let mut pos: usize = 0;
        while pos < out.len() && !tag_precedes(&x, &out[pos], ob)
            invariant
                pos <= out@.len(),
                forall|p: int| 0 <= p < pos ==> !tag_before(x, #[trigger] out@[p], ob),
            decreases out@.len() - pos,
        {
            pos = pos + 1;
        }
        let ghost prev = out@;
        out.insert(pos, x);
        proof {
            assert(v@.take(i + 1) =~= v@.take(i as int).push(v@[i as int]));
            vstd::seq_lib::to_multiset_build(v@.take(i as int), v@[i as int]);
            vstd::seq_lib::to_multiset_insert(prev, pos as int, x);
            assert forall|p: int, q: int| 0 <= p < q < out@.len() implies !tag_before(#[trigger] out@[q], #[trigger] out@[p], ob) by {
                if q < pos {
                    assert(out@[p] == prev[p] && out@[q] == prev[q]);
                } else if q == pos {
                    assert(out@[p] == prev[p]);
                } else {
                    assert(out@[q] == prev[q - 1]);
                    if p < pos {
                        assert(out@[p] == prev[p]);
                    } else if p == pos {
                        lemma_tag_before_order(prev[q - 1], x, prev[pos as int], ob);
                        if q - 1 > pos {
                            assert(!tag_before(prev[q - 1], prev[pos as int], ob));
                        }
                        lemma_tag_before_order(prev[pos as int], prev[pos as int], prev[pos as int], ob);
                    } else {
                        assert(out@[p] == prev[p - 1]);
                    }
                }
            }
        }
        i = i + 1;
    }
    proof {
        assert(v@.take(i as int) =~= v@);
    }
    out
}

// ---- file/group links ----

/// `a` comes before `b` in the order `ob`.
pub open spec fn file_group_before(a: FileGroupDTO, b: FileGroupDTO, ob: FileGroupOrderBy) -> bool {
    match ob {
        FileGroupOrderBy::FileId(d) => int_before(d, a.file_id as int, b.file_id as int),
        FileGroupOrderBy::GroupId(d) => int_before(d, a.group_id as int, b.group_id as int),
    }
}

/// No file_group comes before itself, and coming before is transitive.
pub proof fn lemma_file_group_before_order(a: FileGroupDTO, b: FileGroupDTO, c: FileGroupDTO, ob: FileGroupOrderBy)
    ensures
        !file_group_before(a, a, ob),
        file_group_before(a, b, ob) && file_group_before(b, c, ob) ==> file_group_before(a, c, ob),
{
    match ob {
        FileGroupOrderBy::FileId(d) => {},
        FileGroupOrderBy::GroupId(d) => {},
    }
}

/// No element of `s` comes after an element that it precedes in `ob`.
pub open spec fn file_groups_sorted(s: Seq<FileGroupDTO>, ob: FileGroupOrderBy) -> bool {
    forall|p: int, q: int| 0 <= p < q < s.len() ==> !file_group_before(#[trigger] s[q], #[trigger] s[p], ob)
}

/// Whether `a` comes before `b` in the order `ob`.
pub fn file_group_precedes(a: &FileGroupDTO, b: &FileGroupDTO, ob: FileGroupOrderBy) -> (r: bool)
    ensures
        r == file_group_before(*a, *b, ob),
{
    match ob {
        FileGroupOrderBy::FileId(d) => match d {
            OrderDirection::Asc => a.file_id < b.file_id,
            OrderDirection::Desc => b.file_id < a.file_id,
        },
        FileGroupOrderBy::GroupId(d) => match d {
            OrderDirection::Asc => a.group_id < b.group_id,
            OrderDirection::Desc => b.group_id < a.group_id,
        },
    }
}

/// The elements of `v`, sorted by `ob`.
pub fn sort_file_groups(v: &Vec<FileGroupDTO>, ob: FileGroupOrderBy) -> (r: Vec<FileGroupDTO>)
    ensures
        r@.to_multiset() == v@.to_multiset(),
        file_groups_sorted(r@, ob),
{
    let mut out: Vec<FileGroupDTO> = Vec::new();
    let mut i: usize = 0;
    proof {
        assert(out@ =~= v@.take(0));
    }
    while i < v.len()
        invariant
            i <= v@.len(),
            out@.to_multiset() == v@.take(i as int).to_multiset(),
            file_groups_sorted(out@, ob),
        decreases v@.len() - i,
    {
        let x = v[i];
        let mut pos: usize = 0;
        while pos < out.len() && !file_group_precedes(&x, &out[pos], ob)
            invariant
                pos <= out@.len(),
                forall|p: int| 0 <= p < pos ==> !file_group_before(x, #[trigger] out@[p], ob),
            decreases out@.len() - pos,
        {
            pos = pos + 1;
        }
        let ghost prev = out@;
        out.insert(pos, x);
        proof {
            assert(v@.take(i + 1) =~= v@.take(i as int).push(v@[i as int]));
            vstd::seq_lib::to_multiset_build(v@.take(i as int), v@[i as int]);
            vstd::seq_lib::to_multiset_insert(prev, pos as int, x);
            assert forall|p: int, q: int| 0 <= p < q < out@.len() implies !file_group_before(#[trigger] out@[q], #[trigger] out@[p], ob) by {
                if q < pos {
                    assert(out@[p] == prev[p] && out@[q] == prev[q]);
                } else if q == pos {
                    assert(out@[p] == prev[p]);
                } else {
                    assert(out@[q] == prev[q - 1]);
                    if p < pos {
                        assert(out@[p] == prev[p]);
                    } else if p == pos {
                        lemma_file_group_before_order(prev[q - 1], x, prev[pos as int], ob);
                        if q - 1 > pos {
                            assert(!file_group_before(prev[q - 1], prev[pos as int], ob));
                        }
                        lemma_file_group_before_order(prev[pos as int], prev[pos as int], prev[pos as int], ob);
                    } else {
                        assert(out@[p] == prev[p - 1]);
                    }
                }
            }
        }
        i = i + 1;
    }
    proof {
        assert(v@.take(i as int) =~= v@);
    }
    out
}

// ---- group/tag links ----

/// `a` comes before `b` in the order `ob`.
pub open spec fn group_tag_before(a: GroupTagDTO, b: GroupTagDTO, ob: GroupTagOrderBy) -> bool {
    match ob {
        GroupTagOrderBy::GroupId(d) => int_before(d, a.group_id as int, b.group_id as int),
        GroupTagOrderBy::TagId(d) => int_before(d, a.tag_id as int, b.tag_id as int),
    }
}

/// No group_tag comes before itself, and coming before is transitive.
pub proof fn lemma_group_tag_before_order(a: GroupTagDTO, b: GroupTagDTO, c: GroupTagDTO, ob: GroupTagOrderBy)
    ensures
        !group_tag_before(a, a, ob),
        group_tag_before(a, b, ob) && group_tag_before(b, c, ob) ==> group_tag_before(a, c, ob),
{
    match ob {
        GroupTagOrderBy::GroupId(d) => {},
        GroupTagOrderBy::TagId(d) => {},
    }
}

/// No element of `s` comes after an element that it precedes in `ob`.
pub open spec fn group_tags_sorted(s: Seq<GroupTagDTO>, ob: GroupTagOrderBy) -> bool {
    forall|p: int, q: int| 0 <= p < q < s.len() ==> !group_tag_before(#[trigger] s[q], #[trigger] s[p], ob)
}

/// Whether `a` comes before `b` in the order `ob`.
pub fn group_tag_precedes(a: &GroupTagDTO, b: &GroupTagDTO, ob: GroupTagOrderBy) -> (r: bool)
    ensures
        r == group_tag_before(*a, *b, ob),
{
    match ob {
        GroupTagOrderBy::GroupId(d) => match d {
            OrderDirection::Asc => a.group_id < b.group_id,
            OrderDirection::Desc => b.group_id < a.group_id,
        },
        GroupTagOrderBy::TagId(d) => match d {
            OrderDirection::Asc => a.tag_id < b.tag_id,
            OrderDirection::Desc => b.tag_id < a.tag_id,
        },
    }
}

/// The elements of `v`, sorted by `ob`.
pub fn sort_group_tags(v: &Vec<GroupTagDTO>, ob: GroupTagOrderBy) -> (r: Vec<GroupTagDTO>)
    ensures
        r@.to_multiset() == v@.to_multiset(),
        group_tags_sorted(r@, ob),
{
    let mut out: Vec<GroupTagDTO> = Vec::new();
    let mut i: usize = 0;
    proof {
        assert(out@ =~= v@.take(0));
    }
    while i < v.len()
        invariant
            i <= v@.len(),
            out@.to_multiset() == v@.take(i as int).to_multiset(),
            group_tags_sorted(out@, ob),
        decreases v@.len() - i,
    {
        let x = v[i];
        let mut pos: usize = 0;
        while pos < out.len() && !group_tag_precedes(&x, &out[pos], ob)
            invariant
                pos <= out@.len(),
                forall|p: int| 0 <= p < pos ==> !group_tag_before(x, #[trigger] out@[p], ob),
            decreases out@.len() - pos,
        {
            pos = pos + 1;
        }
        let ghost prev = out@;
        out.insert(pos, x);
        proof {
            assert(v@.take(i + 1) =~= v@.take(i as int).push(v@[i as int]));
            vstd::seq_lib::to_multiset_build(v@.take(i as int), v@[i as int]);
            vstd::seq_lib::to_multiset_insert(prev, pos as int, x);
            assert forall|p: int, q: int| 0 <= p < q < out@.len() implies !group_tag_before(#[trigger] out@[q], #[trigger] out@[p], ob) by {
                if q < pos {
                    assert(out@[p] == prev[p] && out@[q] == prev[q]);
                } else if q == pos {
                    assert(out@[p] == prev[p]);
                } else {
                    assert(out@[q] == prev[q - 1]);
                    if p < pos {
                        assert(out@[p] == prev[p]);
                    } else if p == pos {
                        lemma_group_tag_before_order(prev[q - 1], x, prev[pos as int], ob);
                        if q - 1 > pos {
                            assert(!group_tag_before(prev[q - 1], prev[pos as int], ob));
                        }
                        lemma_group_tag_before_order(prev[pos as int], prev[pos as int], prev[pos as int], ob);
                    } else {
                        assert(out@[p] == prev[p - 1]);
                    }
                }
            }
        }
        i = i + 1;
    }
    proof {
        assert(v@.take(i as int) =~= v@);
    }
    out
}

// ---- group relations ----

/// `a` comes before `b` in the order `ob`.
pub open spec fn group_relation_before(a: GroupRelation, b: GroupRelation, ob: GroupRelationOrderBy) -> bool {
    match ob {
        GroupRelationOrderBy::FirstGroupId(d) => int_before(d, a.first_group_id as int, b.first_group_id as int),
        GroupRelationOrderBy::SecondGroupId(d) => int_before(d, a.second_group_id as int, b.second_group_id as int),
        GroupRelationOrderBy::RelationType(d) => int_before(d, a.relation_type as int, b.relation_type as int),
    }
}

/// No group_relation comes before itself, and coming before is transitive.
pub proof fn lemma_group_relation_before_order(a: GroupRelation, b: GroupRelation, c: GroupRelation, ob: GroupRelationOrderBy)
    ensures
        !group_relation_before(a, a, ob),
        group_relation_before(a, b, ob) && group_relation_before(b, c, ob) ==> group_relation_before(a, c, ob),
{
    match ob {
        GroupRelationOrderBy::FirstGroupId(d) => {},
        GroupRelationOrderBy::SecondGroupId(d) => {},
        GroupRelationOrderBy::RelationType(d) => {},
    }
}

/// No element of `s` comes after an element that it precedes in `ob`.
pub open spec fn group_relations_sorted(s: Seq<GroupRelation>, ob: GroupRelationOrderBy) -> bool {
    forall|p: int, q: int| 0 <= p < q < s.len() ==> !group_relation_before(#[trigger] s[q], #[trigger] s[p], ob)
}

/// Whether `a` comes before `b` in the order `ob`.
pub fn group_relation_precedes(a: &GroupRelation, b: &GroupRelation, ob: GroupRelationOrderBy) -> (r: bool)
    ensures
        r == group_relation_before(*a, *b, ob),
{
    match ob {
        GroupRelationOrderBy::FirstGroupId(d) => match d {
            OrderDirection::Asc => a.first_group_id < b.first_group_id,
            OrderDirection::Desc => b.first_group_id < a.first_group_id,
        },
        GroupRelationOrderBy::SecondGroupId(d) => match d {
            OrderDirection::Asc => a.second_group_id < b.second_group_id,
            OrderDirection::Desc => b.second_group_id < a.second_group_id,
        },
        GroupRelationOrderBy::RelationType(d) => match d {
            OrderDirection::Asc => a.relation_type < b.relation_type,
            OrderDirection::Desc => b.relation_type < a.relation_type,
        },
    }
}

/// The elements of `v`, sorted by `ob`.
pub fn sort_group_relations(v: &Vec<GroupRelation>, ob: GroupRelationOrderBy) -> (r: Vec<GroupRelation>)
    ensures
        r@.to_multiset() == v@.to_multiset(),
        group_relations_sorted(r@, ob),
{
    let mut out: Vec<GroupRelation> = Vec::new();
    let mut i: usize = 0;
    proof {
        assert(out@ =~= v@.take(0));
    }
    while i < v.len()
        invariant
            i <= v@.len(),
            out@.to_multiset() == v@.take(i as int).to_multiset(),
            group_relations_sorted(out@, ob),
        decreases v@.len() - i,
    {
        let x = v[i];
        let mut pos: usize = 0;
        while pos < out.len() && !group_relation_precedes(&x, &out[pos], ob)
            invariant
                pos <= out@.len(),
                forall|p: int| 0 <= p < pos ==> !group_relation_before(x, #[trigger] out@[p], ob),
            decreases out@.len() - pos,
        {
            pos = pos + 1;
        }
        let ghost prev = out@;
        out.insert(pos, x);
        proof {
            assert(v@.take(i + 1) =~= v@.take(i as int).push(v@[i as int]));
            vstd::seq_lib::to_multiset_build(v@.take(i as int), v@[i as int]);
            vstd::seq_lib::to_multiset_insert(prev, pos as int, x);
            assert forall|p: int, q: int| 0 <= p < q < out@.len() implies !group_relation_before(#[trigger] out@[q], #[trigger] out@[p], ob) by {
                if q < pos {
                    assert(out@[p] == prev[p] && out@[q] == prev[q]);
                } else if q == pos {
                    assert(out@[p] == prev[p]);
                } else {
                    assert(out@[q] == prev[q - 1]);
                    if p < pos {
                        assert(out@[p] == prev[p]);
                    } else if p == pos {
                        lemma_group_relation_before_order(prev[q - 1], x, prev[pos as int], ob);
                        if q - 1 > pos {
                            assert(!group_relation_before(prev[q - 1], prev[pos as int], ob));
                        }
                        lemma_group_relation_before_order(prev[pos as int], prev[pos as int], prev[pos as int], ob);
                    } else {
                        assert(out@[p] == prev[p - 1]);
                    }
                }
            }
        }
        i = i + 1;
    }
    proof {
        assert(v@.take(i as int) =~= v@);
    }
    out
}

} // verus!

//! Links between groups and tags.
use vstd::prelude::*;
use crate::sorting::{group_tags_sorted, sort_group_tags};
use crate::query::{group_tags_where, eval_all_group_tag_conditions, take_limit, apply_limit, skip_offset, apply_offset};
use crate::errors::{AppError, DbError};
use crate::models::{GroupTagCondition, GroupTagDTO, GroupTagOrderBy, GroupTagQueryOptions};
use crate::cascade::lemma_records_like_trans;
use crate::filters::{lemma_filter_all, lemma_filter_and, lemma_filter_ext, lemma_filter_one};
use crate::rows::{
    files_like, groups_like, lemma_groups_like_has, lemma_primary_same_links, lemma_tags_like_has, records_like,
    tags_like,
};
use crate::store::{same_next_ids, group_of, has_group, has_tag, lemma_wf_same_catalogue, tag_of, Database};

verus! {

/// The error with which linking group `dto.group_id` to tag `dto.tag_id`
/// fails, if it does.
pub open spec fn create_group_tag_error(db: Database, dto: GroupTagDTO) -> Option<AppError> {
    if !has_group(db.groups@, dto.group_id) {
        Some(AppError::GroupNotFound)
    } else if !has_tag(db.tags@, dto.tag_id) {
        Some(AppError::TagNotFound)
    } else if db.group_tags@.contains(dto) {
        Some(AppError::DatabaseError(DbError::UniqueViolation))
    } else if group_of(db.groups@, dto.group_id).reference_count == i32::MAX || tag_of(
        db.tags@,
        dto.tag_id,
    ).reference_count == i32::MAX {
        Some(AppError::DatabaseError(DbError::CounterOverflow))
    } else {
        None
    }
}

/// `n` is `o` with the link `dto` added and nothing else changed but
/// reference counts.
pub open spec fn gt_link_added(o: Database, n: Database, dto: GroupTagDTO) -> bool {
    &&& n.group_tags@ == o.group_tags@.push(dto)
    &&& n.file_groups@ == o.file_groups@
    &&& n.group_relations@ == o.group_relations@
    &&& records_like(o, n)
}

/// Puts a tag on a group, adding one to the reference count of both.
pub fn create_group_tag(db: &mut Database, dto: GroupTagDTO) -> (r: Result<GroupTagDTO, AppError>)
    requires
        old(db).wf(),
    ensures
        final(db).wf(),
        same_next_ids(*old(db), *final(db)),
        match r {
            Ok(d) => create_group_tag_error(*old(db), dto) is None && d == dto && gt_link_added(*old(db), *final(db), dto),
            Err(e) => {
                &&& create_group_tag_error(*old(db), dto) == Some(e)
                &&& *final(db) == *old(db)
            },
        },
{
    let gi = match db.find_group_index(dto.group_id) {
        Some(i) => i,
        None => {
            return Err(AppError::GroupNotFound);
        },
    };
    let ti = match db.find_tag_index(dto.tag_id) {
        Some(i) => i,
        None => {
            return Err(AppError::TagNotFound);
        },
    };
    proof {
        db.lemma_group_at(gi as int);
        db.lemma_tag_at(ti as int);
    }
    if db.find_group_tag_index(&dto).is_some() {
        return Err(AppError::DatabaseError(DbError::UniqueViolation));
    }
    if db.groups[gi].reference_count == i32::MAX || db.tags[ti].reference_count == i32::MAX {
        return Err(AppError::DatabaseError(DbError::CounterOverflow));
    }
    let ghost o = *db;
    db.push_group_tag(gi, ti);
    proof {
        let n = *db;
        assert(files_like(o.files@, n.files@));
        assert(groups_like(o.groups@, n.groups@));
        assert(tags_like(o.tags@, n.tags@));
        lemma_primary_same_links(o, n);
    }
    Ok(dto)
}

/// The error with which removing tag `dto.tag_id` from group
/// `dto.group_id` fails, if it does.
pub open spec fn delete_group_tag_error(db: Database, dto: GroupTagDTO) -> Option<AppError> {
    if !has_group(db.groups@, dto.group_id) {
        Some(AppError::GroupNotFound)
    } else if !has_tag(db.tags@, dto.tag_id) {
        Some(AppError::TagNotFound)
    } else {
        None
    }
}

/// Removes a tag from a group, taking one from the reference count of
/// both, and returns the number of links removed (0 when the group did not
/// carry the tag, in which case nothing changes).
pub fn delete_group_tag_by_dto(db: &mut Database, dto: &GroupTagDTO) -> (r: Result<usize, AppError>)
    requires
        old(db).wf(),
    ensures
        final(db).wf(),
        same_next_ids(*old(db), *final(db)),
        match r {
            Ok(n) => {
                &&& delete_group_tag_error(*old(db), *dto) is None
                &&& (n == 1) == old(db).group_tags@.contains(*dto)
                &&& (n == 0) == !old(db).group_tags@.contains(*dto)
                &&& n == 0 ==> *final(db) == *old(db)
                &&& n == 1 ==> exists|k: int|
                    0 <= k < old(db).group_tags@.len() && #[trigger] old(db).group_tags@[k] == *dto
                        && final(db).group_tags@ == old(db).group_tags@.remove(k)
                &&& final(db).file_groups@ == old(db).file_groups@
                &&& final(db).group_relations@ == old(db).group_relations@
                &&& records_like(*old(db), *final(db))
            },
            Err(e) => {
                &&& delete_group_tag_error(*old(db), *dto) == Some(e)
                &&& *final(db) == *old(db)
            },
        },
{
    let gi = match db.find_group_index(dto.group_id) {
        Some(i) => i,
        None => {
            return Err(AppError::GroupNotFound);
        },
    };
    let ti = match db.find_tag_index(dto.tag_id) {
        Some(i) => i,
        None => {
            return Err(AppError::TagNotFound);
        },
    };
    match db.find_group_tag_index(dto) {
        None => {
            proof {
                assert(files_like(db.files@, db.files@));
                assert(groups_like(db.groups@, db.groups@));
                assert(tags_like(db.tags@, db.tags@));
            }
            Ok(0)
        },
        Some(k) => {
            let ghost o = *db;
            db.remove_group_tag_at(k, gi, ti);
            proof {
                let n = *db;
                assert(files_like(o.files@, n.files@));
                assert(groups_like(o.groups@, n.groups@));
                assert(tags_like(o.tags@, n.tags@));
                lemma_primary_same_links(o, n);
            }
            Ok(1)
        },
    }
}

/// The group/tag links that satisfy every condition of `conditions`, in table
/// order, cut to `limit` when a non-negative limit is given.
pub fn select_group_tags_by_conditions_with_limit(db: &Database, conditions: Vec<GroupTagCondition>, limit: Option<i64>) -> (r: Result<Vec<GroupTagDTO>, AppError>)
    ensures
        match r {
            Ok(v) => v@ == take_limit(group_tags_where(db.group_tags@, conditions@), limit),
            Err(_) => false,
        },
{
    let mut out: Vec<GroupTagDTO> = Vec::new();
    let mut i: usize = 0;
    while i < db.group_tags.len()
        invariant
            i <= db.group_tags@.len(),
            out@ == group_tags_where(db.group_tags@.take(i as int), conditions@),
        decreases db.group_tags@.len() - i,
    {
        proof {
            assert(db.group_tags@.take(i + 1).drop_last() =~= db.group_tags@.take(i as int));
        }
        match eval_all_group_tag_conditions(&conditions, &db.group_tags[i]) {
            Some(true) => {
                out.push(db.group_tags[i]);
            },
            _ => {},
        }
        i = i + 1;
    }
    proof {
        assert(db.group_tags@.take(i as int) =~= db.group_tags@);
    }
    apply_limit(&mut out, limit);
    Ok(out)
}

/// `s` holds the group/tag links of `rows` arranged as `order_by` asks: as they
/// are when it is empty, otherwise sorted by its last entry (a later
/// ordering replaces an earlier one).
pub open spec fn group_tags_arranged(rows: Seq<GroupTagDTO>, s: Seq<GroupTagDTO>, order_by: Seq<GroupTagOrderBy>) -> bool {
    if order_by.len() == 0 {
        s == rows
    } else {
        s.to_multiset() == rows.to_multiset() && group_tags_sorted(s, order_by.last())
    }
}

/// The group/tag links that satisfy every condition of `conditions`, ordered,
/// skipped and cut as `options` asks.
pub fn select_group_tags_by_conditions_with_options(db: &Database, conditions: Vec<GroupTagCondition>, options: GroupTagQueryOptions) -> (r: Result<Vec<GroupTagDTO>, AppError>)
    ensures
        match r {
            Ok(v) => exists|s: Seq<GroupTagDTO>|
                group_tags_arranged(group_tags_where(db.group_tags@, conditions@), s, options.order_by@) && v@ == take_limit(
                    skip_offset(s, options.offset),
                    options.limit,
                ),
            Err(_) => false,
        },
{
    let ghost cs = conditions@;
    let rows = match select_group_tags_by_conditions_with_limit(db, conditions, None) {
        Ok(v) => v,
        Err(e) => {
            return Err(e);
        },
    };
    let n = options.order_by.len();
    let arranged = if n == 0 {
        rows
    } else {
        sort_group_tags(&rows, options.order_by[n - 1])
    };
    let ghost s = arranged@;
    let mut v = apply_offset(arranged, options.offset);
    apply_limit(&mut v, options.limit);
    proof {
        assert(group_tags_arranged(group_tags_where(db.group_tags@, cs), s, options.order_by@));
    }
    Ok(v)
}

/// The links of `s` that are not among `dtos`, in table order.
pub open spec fn gt_links_kept(s: Seq<GroupTagDTO>, dtos: Seq<GroupTagDTO>) -> Seq<GroupTagDTO> {
    s.filter(|l: GroupTagDTO| !dtos.contains(l))
}

/// `n` is `o` with every link among `dtos` removed, `count` of them, and
/// nothing else changed but reference counts.
pub open spec fn gt_links_removed(o: Database, n: Database, dtos: Seq<GroupTagDTO>, count: int) -> bool {
    &&& forall|j: int| 0 <= j < dtos.len() ==> delete_group_tag_error(o, #[trigger] dtos[j]) is None
    &&& n.group_tags@ == gt_links_kept(o.group_tags@, dtos)
    &&& count == o.group_tags@.len() - n.group_tags@.len()
    &&& n.file_groups@ == o.file_groups@
    &&& n.group_relations@ == o.group_relations@
    &&& records_like(o, n)
}

/// `e` is the error of the first dto of `dtos` that cannot be removed.
pub open spec fn gt_unlink_failure(o: Database, dtos: Seq<GroupTagDTO>, e: AppError) -> bool {
    exists|k: int|
        0 <= k < dtos.len() && delete_group_tag_error(o, #[trigger] dtos[k]) == Some(e) && forall|j: int|
            0 <= j < k ==> delete_group_tag_error(o, #[trigger] dtos[j]) is None
}

/// Whether a link may be removed depends on the records only.
proof fn lemma_untag_error_like(o: Database, n: Database, d: GroupTagDTO)
    requires
        records_like(o, n),
    ensures
        delete_group_tag_error(o, d) == delete_group_tag_error(n, d),
{
    lemma_groups_like_has(o.groups@, n.groups@);
    lemma_tags_like_has(o.tags@, n.tags@);
}

/// Link `l` is not `d`.
pub open spec fn gt_other_than(d: GroupTagDTO) -> spec_fn(GroupTagDTO) -> bool {
    |l: GroupTagDTO| l != d
}

/// Removing the next dto keeps what the longer prefix keeps.
proof fn lemma_gt_kept_next(o: Seq<GroupTagDTO>, dtos: Seq<GroupTagDTO>, i: int)
    requires
        0 <= i < dtos.len(),
    ensures
        gt_links_kept(o, dtos.take(i)).filter(gt_other_than(dtos[i])) == gt_links_kept(o, dtos.take(i + 1)),
{
    let p = |l: GroupTagDTO| !dtos.take(i).contains(l);
    let q = gt_other_than(dtos[i]);
    let p2 = |l: GroupTagDTO| !dtos.take(i + 1).contains(l);
    let pq = |l: GroupTagDTO| p(l) && q(l);
    lemma_filter_and(o, p, q, pq);
    assert forall|x: int| 0 <= x < o.len() implies #[trigger] pq(o[x]) == p2(o[x]) by {
        let l = o[x];
        if dtos.take(i + 1).contains(l) {
            let j = choose|j: int| 0 <= j < dtos.take(i + 1).len() && #[trigger] dtos.take(i + 1)[j] == l;
            if j < i {
                assert(dtos.take(i)[j] == dtos.take(i + 1)[j]);
            }
        }
        if dtos.take(i).contains(l) {
            let j = choose|j: int| 0 <= j < dtos.take(i).len() && #[trigger] dtos.take(i)[j] == l;
            assert(dtos.take(i)[j] == dtos.take(i + 1)[j]);
        }
        if !q(l) {
            assert(dtos.take(i + 1)[i] == dtos[i]);
        }
    }
    lemma_filter_ext(o, pq, p2);
}

/// Removes, in one transaction, every link among `dtos`, as
/// `delete_group_tag_by_dto` does one at a time, and returns how many were
/// removed. When one of them cannot be removed, nothing changes and its
/// error is the answer.
pub fn delete_group_tags_by_dtos(db: &mut Database, dtos: Vec<GroupTagDTO>) -> (r: Result<usize, AppError>)
    requires
        old(db).wf(),
    ensures
        final(db).wf(),
        same_next_ids(*old(db), *final(db)),
        match r {
            Ok(n) => gt_links_removed(*old(db), *final(db), dtos@, n as int),
            Err(e) => gt_unlink_failure(*old(db), dtos@, e) && *final(db) == *old(db),
        },
{
    let ghost o = *db;
    let mut work = db.duplicate();
    proof {
        lemma_wf_same_catalogue(*db, work);
        assert(dtos@.take(0) =~= Seq::<GroupTagDTO>::empty());
        lemma_filter_all(o.group_tags@, |l: GroupTagDTO| !dtos@.take(0).contains(l));
        assert(files_like(o.files@, work.files@));
        assert(groups_like(o.groups@, work.groups@));
        assert(tags_like(o.tags@, work.tags@));
        assert(db.group_tags.len() == o.group_tags@.len());
    }
    let mut total: usize = 0;
    let mut i: usize = 0;
    while i < dtos.len()
        invariant
            work.wf(),
            o == *db,
            o.wf(),
            o.group_tags@.len() <= usize::MAX,
            i <= dtos@.len(),
            records_like(o, work),
            work.file_groups@ == o.file_groups@,
            work.group_relations@ == o.group_relations@,
            work.group_tags@ == gt_links_kept(o.group_tags@, dtos@.take(i as int)),
            work.group_tags@.len() <= o.group_tags@.len(),
            total == o.group_tags@.len() - work.group_tags@.len(),
            forall|j: int| 0 <= j < i ==> delete_group_tag_error(o, #[trigger] dtos@[j]) is None,
        decreases dtos@.len() - i,
    {
        let ghost pre = work;
        let d = dtos[i];
        match delete_group_tag_by_dto(&mut work, &d) {
            Ok(c) => {
                proof {
                    lemma_untag_error_like(o, pre, d);
                    let q = gt_other_than(d);
                    if c == 1 {
                        let k = choose|k: int|
                            0 <= k < pre.group_tags@.len() && #[trigger] pre.group_tags@[k] == d
                                && work.group_tags@ == pre.group_tags@.remove(k);
                        assert forall|x: int| 0 <= x < pre.group_tags@.len() && x != k implies #[trigger] q(pre.group_tags@[x]) by {
                            assert(pre.rows_unique());
                        }
                        lemma_filter_one(pre.group_tags@, q, k);
                    } else {
                        assert forall|x: int| 0 <= x < pre.group_tags@.len() implies #[trigger] q(pre.group_tags@[x]) by {
                            if !q(pre.group_tags@[x]) {
                                assert(pre.group_tags@.contains(d));
                            }
                        }
                        lemma_filter_all(pre.group_tags@, q);
                    }
                    lemma_gt_kept_next(o.group_tags@, dtos@, i as int);
                    lemma_records_like_trans(o, pre, work);
                    assert(work.group_tags@.len() + c == pre.group_tags@.len());
                }
                total = total + c;
            },
            Err(e) => {
                proof {
                    lemma_untag_error_like(o, pre, d);
                    assert(delete_group_tag_error(o, dtos@[i as int]) == Some(e));
                }
                return Err(e);
            },
        }
        i = i + 1;
    }
    proof {
        assert(dtos@.take(i as int) =~= dtos@);
    }
    *db = work;
    Ok(total)
}

/// Removes, in one transaction, every group/tag link that satisfies all of
/// `conditions`, as `delete_group_tags_by_dtos` does for the list of them in
/// table order.
pub fn delete_group_tags_by_conditions(db: &mut Database, conditions: Vec<GroupTagCondition>) -> (r: Result<usize, AppError>)
    requires
        old(db).wf(),
    ensures
        final(db).wf(),
        same_next_ids(*old(db), *final(db)),
        match r {
            Ok(n) => gt_links_removed(*old(db), *final(db), group_tags_where(old(db).group_tags@, conditions@), n as int),
            Err(e) => gt_unlink_failure(*old(db), group_tags_where(old(db).group_tags@, conditions@), e) && *final(db) == *old(db),
        },
{
    let found = match select_group_tags_by_conditions_with_limit(db, conditions, None) {
        Ok(v) => v,
        Err(_) => Vec::new(),
    };
    delete_group_tags_by_dtos(db, found)
}

} // verus!

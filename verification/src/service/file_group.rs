//! Links between files and groups.
use vstd::prelude::*;
use crate::sorting::{file_groups_sorted, sort_file_groups};
use crate::query::{file_groups_where, eval_all_file_group_conditions, take_limit, apply_limit, skip_offset, apply_offset};
use crate::errors::{AppError, DbError};
use crate::models::{FileGroupCondition, FileGroupDTO, FileGroupOrderBy, FileGroupQueryOptions};
use crate::cascade::lemma_records_like_trans;
use crate::filters::{lemma_filter_all, lemma_filter_and, lemma_filter_ext, lemma_filter_one};
use crate::rows::{
    files_like, groups_like, lemma_files_like_has, lemma_groups_like_has, lemma_primary_push_link,
    lemma_primary_remove_link, records_like, same_group, tags_like,
};
use crate::store::{same_next_ids, 
    file_of, group_of, has_fg_link, has_file, has_group, is_primary_group, lemma_wf_same_catalogue, Database,
};

verus! {

/// The error with which linking file `dto.file_id` to group `dto.group_id`
/// fails, if it does.
pub open spec fn create_file_group_error(db: Database, dto: FileGroupDTO) -> Option<AppError> {
    if !has_group(db.groups@, dto.group_id) {
        Some(AppError::GroupNotFound)
    } else if !has_file(db.files@, dto.file_id) {
        Some(AppError::FileNotFound)
    } else if is_primary_group(db.groups@, dto.group_id) {
        Some(AppError::CannotBindToPrimaryGroup)
    } else if has_fg_link(db.file_groups@, dto.file_id, dto.group_id) {
        Some(AppError::DatabaseError(DbError::UniqueViolation))
    } else if file_of(db.files@, dto.file_id).reference_count == i32::MAX || group_of(
        db.groups@,
        dto.group_id,
    ).reference_count == i32::MAX {
        Some(AppError::DatabaseError(DbError::CounterOverflow))
    } else {
        None
    }
}

/// `n` is `o` with the link `dto` added and nothing else changed but
/// reference counts.
pub open spec fn fg_link_added(o: Database, n: Database, dto: FileGroupDTO) -> bool {
    &&& n.file_groups@ == o.file_groups@.push(dto)
    &&& n.group_tags@ == o.group_tags@
    &&& n.group_relations@ == o.group_relations@
    &&& records_like(o, n)
}

/// Links a file to a non-primary group, adding one to the reference count
/// of both.
pub fn create_file_group(db: &mut Database, dto: FileGroupDTO) -> (r: Result<FileGroupDTO, AppError>)
    requires
        old(db).wf(),
    ensures
        final(db).wf(),
        same_next_ids(*old(db), *final(db)),
        match r {
            Ok(d) => create_file_group_error(*old(db), dto) is None && d == dto && fg_link_added(*old(db), *final(db), dto),
            Err(e) => {
                &&& create_file_group_error(*old(db), dto) == Some(e)
                &&& *final(db) == *old(db)
            },
        },
{
    let gi = match db.find_group_index(dto.group_id) {
        Some(i) => i,
        None => {
            return Err(AppError::GroupNotFound);
        },
    };
    let fi = match db.find_file_index(dto.file_id) {
        Some(i) => i,
        None => {
            return Err(AppError::FileNotFound);
        },
    };
    proof {
        db.lemma_group_at(gi as int);
        db.lemma_file_at(fi as int);
    }
    if db.groups[gi].is_primary {
        return Err(AppError::CannotBindToPrimaryGroup);
    }
    if db.find_file_group_index(dto.file_id, dto.group_id).is_some() {
        return Err(AppError::DatabaseError(DbError::UniqueViolation));
    }
    if db.files[fi].reference_count == i32::MAX || db.groups[gi].reference_count == i32::MAX {
        return Err(AppError::DatabaseError(DbError::CounterOverflow));
    }
    let ghost o = *db;
    db.push_file_group(fi, gi, dto.relation_type);
    proof {
        let n = *db;
        assert(n.file_groups@ =~= o.file_groups@.push(dto));
        assert(files_like(o.files@, n.files@));
        assert(groups_like(o.groups@, n.groups@));
        assert(tags_like(o.tags@, n.tags@));
        lemma_primary_push_link(o, n, dto);
    }
    Ok(dto)
}

/// The error with which unlinking file `dto.file_id` from group
/// `dto.group_id` fails, if it does.
pub open spec fn delete_file_group_error(db: Database, dto: FileGroupDTO) -> Option<AppError> {
    if !has_group(db.groups@, dto.group_id) {
        Some(AppError::GroupNotFound)
    } else if !has_file(db.files@, dto.file_id) {
        Some(AppError::FileNotFound)
    } else if is_primary_group(db.groups@, dto.group_id) {
        Some(AppError::CannotUnbindPrimaryGroup)
    } else {
        None
    }
}

/// Unlinks a file from a non-primary group, taking one from the reference
/// count of both, and returns the number of links removed (0 when the two
/// were not linked, in which case nothing changes).
pub fn delete_file_group_by_dto(db: &mut Database, dto: &FileGroupDTO) -> (r: Result<usize, AppError>)
    requires
        old(db).wf(),
    ensures
        final(db).wf(),
        same_next_ids(*old(db), *final(db)),
        match r {
            Ok(n) => {
                &&& delete_file_group_error(*old(db), *dto) is None
                &&& (n == 1) == has_fg_link(old(db).file_groups@, dto.file_id, dto.group_id)
                &&& (n == 0) == !has_fg_link(old(db).file_groups@, dto.file_id, dto.group_id)
                &&& n == 0 ==> *final(db) == *old(db)
                &&& n == 1 ==> exists|k: int|
                    0 <= k < old(db).file_groups@.len()
                        && (#[trigger] old(db).file_groups@[k]).file_id == dto.file_id
                        && old(db).file_groups@[k].group_id == dto.group_id
                        && final(db).file_groups@ == old(db).file_groups@.remove(k)
                &&& final(db).group_tags@ == old(db).group_tags@
                &&& final(db).group_relations@ == old(db).group_relations@
                &&& records_like(*old(db), *final(db))
            },
            Err(e) => {
                &&& delete_file_group_error(*old(db), *dto) == Some(e)
                &&& *final(db) == *old(db)
            },
        },
{
    let gi = match db.find_group_index(dto.group_id) {
        Some(i) => i,
        None => {
            return Err(AppError::GroupNotFound);
        },
    };
    let fi = match db.find_file_index(dto.file_id) {
        Some(i) => i,
        None => {
            return Err(AppError::FileNotFound);
        },
    };
    proof {
        db.lemma_group_at(gi as int);
        db.lemma_file_at(fi as int);
    }
    if db.groups[gi].is_primary {
        return Err(AppError::CannotUnbindPrimaryGroup);
    }
    match db.find_file_group_index(dto.file_id, dto.group_id) {
        None => {
            proof {
                assert(files_like(db.files@, db.files@));
                assert(groups_like(db.groups@, db.groups@));
                assert(tags_like(db.tags@, db.tags@));
            }
            Ok(0)
        },
        Some(k) => {
            let ghost o = *db;
            db.remove_file_group_at(k, fi, gi);
            proof {
                let n = *db;
                assert(files_like(o.files@, n.files@));
                assert(groups_like(o.groups@, n.groups@));
                assert(tags_like(o.tags@, n.tags@));
                lemma_primary_remove_link(o, n, k as int);
            }
            Ok(1)
        },
    }
}

/// The file/group links that satisfy every condition of `conditions`, in table
/// order, cut to `limit` when a non-negative limit is given.
pub fn select_file_groups_by_conditions_with_limit(db: &Database, conditions: Vec<FileGroupCondition>, limit: Option<i64>) -> (r: Result<Vec<FileGroupDTO>, AppError>)
    ensures
        match r {
            Ok(v) => v@ == take_limit(file_groups_where(db.file_groups@, conditions@), limit),
            Err(_) => false,
        },
{
    let mut out: Vec<FileGroupDTO> = Vec::new();
    let mut i: usize = 0;
    while i < db.file_groups.len()
        invariant
            i <= db.file_groups@.len(),
            out@ == file_groups_where(db.file_groups@.take(i as int), conditions@),
        decreases db.file_groups@.len() - i,
    {
        proof {
            assert(db.file_groups@.take(i + 1).drop_last() =~= db.file_groups@.take(i as int));
        }
        match eval_all_file_group_conditions(&conditions, &db.file_groups[i]) {
            Some(true) => {
                out.push(db.file_groups[i]);
            },
            _ => {},
        }
        i = i + 1;
    }
    proof {
        assert(db.file_groups@.take(i as int) =~= db.file_groups@);
    }
    apply_limit(&mut out, limit);
    Ok(out)
}

/// `s` holds the file/group links of `rows` arranged as `order_by` asks: as they
/// are when it is empty, otherwise sorted by its last entry (a later
/// ordering replaces an earlier one).
pub open spec fn file_groups_arranged(rows: Seq<FileGroupDTO>, s: Seq<FileGroupDTO>, order_by: Seq<FileGroupOrderBy>) -> bool {
    if order_by.len() == 0 {
        s == rows
    } else {
        s.to_multiset() == rows.to_multiset() && file_groups_sorted(s, order_by.last())
    }
}

/// The file/group links that satisfy every condition of `conditions`, ordered,
/// skipped and cut as `options` asks.
pub fn select_file_groups_by_conditions_with_options(db: &Database, conditions: Vec<FileGroupCondition>, options: FileGroupQueryOptions) -> (r: Result<Vec<FileGroupDTO>, AppError>)
    ensures
        match r {
            Ok(v) => exists|s: Seq<FileGroupDTO>|
                file_groups_arranged(file_groups_where(db.file_groups@, conditions@), s, options.order_by@) && v@ == take_limit(
                    skip_offset(s, options.offset),
                    options.limit,
                ),
            Err(_) => false,
        },
{
    let ghost cs = conditions@;
    let rows = match select_file_groups_by_conditions_with_limit(db, conditions, None) {
        Ok(v) => v,
        Err(e) => {
            return Err(e);
        },
    };
    let n = options.order_by.len();
    let arranged = if n == 0 {
        rows
    } else {
        sort_file_groups(&rows, options.order_by[n - 1])
    };
    let ghost s = arranged@;
    let mut v = apply_offset(arranged, options.offset);
    apply_limit(&mut v, options.limit);
    proof {
        assert(file_groups_arranged(file_groups_where(db.file_groups@, cs), s, options.order_by@));
    }
    Ok(v)
}

/// Some dto of `dtos` names the link `l`: the same file and the same group.
pub open spec fn names_fg_link(dtos: Seq<FileGroupDTO>, l: FileGroupDTO) -> bool {
    exists|j: int| 0 <= j < dtos.len() && (#[trigger] dtos[j]).file_id == l.file_id && dtos[j].group_id == l.group_id
}

/// The links of `s` that no dto of `dtos` names, in table order.
pub open spec fn fg_links_kept(s: Seq<FileGroupDTO>, dtos: Seq<FileGroupDTO>) -> Seq<FileGroupDTO> {
    s.filter(|l: FileGroupDTO| !names_fg_link(dtos, l))
}

/// `n` is `o` with every link that `dtos` names removed, `count` of them,
/// and nothing else changed but reference counts.
pub open spec fn fg_links_removed(o: Database, n: Database, dtos: Seq<FileGroupDTO>, count: int) -> bool {
    &&& forall|j: int| 0 <= j < dtos.len() ==> delete_file_group_error(o, #[trigger] dtos[j]) is None
    &&& n.file_groups@ == fg_links_kept(o.file_groups@, dtos)
    &&& count == o.file_groups@.len() - n.file_groups@.len()
    &&& n.group_tags@ == o.group_tags@
    &&& n.group_relations@ == o.group_relations@
    &&& records_like(o, n)
}

/// `e` is the error of the first dto of `dtos` that cannot be unlinked.
pub open spec fn fg_unlink_failure(o: Database, dtos: Seq<FileGroupDTO>, e: AppError) -> bool {
    exists|k: int|
        0 <= k < dtos.len() && delete_file_group_error(o, #[trigger] dtos[k]) == Some(e) && forall|j: int|
            0 <= j < k ==> delete_file_group_error(o, #[trigger] dtos[j]) is None
}

/// Whether a link may be removed depends on the records only.
proof fn lemma_unlink_error_like(o: Database, n: Database, d: FileGroupDTO)
    requires
        records_like(o, n),
    ensures
        delete_file_group_error(o, d) == delete_file_group_error(n, d),
{
    lemma_groups_like_has(o.groups@, n.groups@);
    lemma_files_like_has(o.files@, n.files@);
    if is_primary_group(o.groups@, d.group_id) {
        let i = choose|i: int| 0 <= i < o.groups@.len() && (#[trigger] o.groups@[i]).id == d.group_id && o.groups@[i].is_primary;
        assert(same_group(o.groups@[i], n.groups@[i]));
    }
    if is_primary_group(n.groups@, d.group_id) {
        let i = choose|i: int| 0 <= i < n.groups@.len() && (#[trigger] n.groups@[i]).id == d.group_id && n.groups@[i].is_primary;
        assert(same_group(o.groups@[i], n.groups@[i]));
    }
}

/// Link `l` is not the link from `d.file_id` to `d.group_id`.
pub open spec fn fg_other_than(d: FileGroupDTO) -> spec_fn(FileGroupDTO) -> bool {
    |l: FileGroupDTO| !(l.file_id == d.file_id && l.group_id == d.group_id)
}

/// Unlinking the next dto keeps what the longer prefix keeps.
proof fn lemma_fg_kept_next(o: Seq<FileGroupDTO>, dtos: Seq<FileGroupDTO>, i: int)
    requires
        0 <= i < dtos.len(),
    ensures
        fg_links_kept(o, dtos.take(i)).filter(fg_other_than(dtos[i])) == fg_links_kept(o, dtos.take(i + 1)),
{
    let p = |l: FileGroupDTO| !names_fg_link(dtos.take(i), l);
    let q = fg_other_than(dtos[i]);
    let p2 = |l: FileGroupDTO| !names_fg_link(dtos.take(i + 1), l);
    let pq = |l: FileGroupDTO| p(l) && q(l);
    lemma_filter_and(o, p, q, pq);
    assert forall|x: int| 0 <= x < o.len() implies #[trigger] pq(o[x]) == p2(o[x]) by {
        let l = o[x];
        if names_fg_link(dtos.take(i + 1), l) {
            let j = choose|j: int| 0 <= j < dtos.take(i + 1).len() && (#[trigger] dtos.take(i + 1)[j]).file_id == l.file_id
                && dtos.take(i + 1)[j].group_id == l.group_id;
            if j < i {
                assert(dtos.take(i)[j] == dtos.take(i + 1)[j]);
            }
        }
        if names_fg_link(dtos.take(i), l) {
            let j = choose|j: int| 0 <= j < dtos.take(i).len() && (#[trigger] dtos.take(i)[j]).file_id == l.file_id
                && dtos.take(i)[j].group_id == l.group_id;
            assert(dtos.take(i)[j] == dtos.take(i + 1)[j]);
        }
        if !q(l) {
            assert(dtos.take(i + 1)[i] == dtos[i]);
        }
    }
    lemma_filter_ext(o, pq, p2);
}

/// Unlinks, in one transaction, every link that `dtos` names, as
/// `delete_file_group_by_dto` does one at a time, and returns how many were
/// removed. When one of them cannot be unlinked, nothing changes and its
/// error is the answer.
#[verifier::rlimit(30)]
pub fn delete_file_groups_by_dtos(db: &mut Database, dtos: Vec<FileGroupDTO>) -> (r: Result<usize, AppError>)
    requires
        old(db).wf(),
    ensures
        final(db).wf(),
        same_next_ids(*old(db), *final(db)),
        match r {
            Ok(n) => fg_links_removed(*old(db), *final(db), dtos@, n as int),
            Err(e) => fg_unlink_failure(*old(db), dtos@, e) && *final(db) == *old(db),
        },
{
    let ghost o = *db;
    let mut work = db.duplicate();
    proof {
        lemma_wf_same_catalogue(*db, work);
        assert(dtos@.take(0) =~= Seq::<FileGroupDTO>::empty());
        lemma_filter_all(o.file_groups@, |l: FileGroupDTO| !names_fg_link(dtos@.take(0), l));
        assert(files_like(o.files@, work.files@));
        assert(groups_like(o.groups@, work.groups@));
        assert(tags_like(o.tags@, work.tags@));
    }
    proof {
        assert(db.file_groups.len() == o.file_groups@.len());
    }
    let mut total: usize = 0;
    let mut i: usize = 0;
    while i < dtos.len()
        invariant
            work.wf(),
            o == *db,
            o.wf(),
            o.file_groups@.len() <= usize::MAX,
            i <= dtos@.len(),
            records_like(o, work),
            work.group_tags@ == o.group_tags@,
            work.group_relations@ == o.group_relations@,
            work.file_groups@ == fg_links_kept(o.file_groups@, dtos@.take(i as int)),
            work.file_groups@.len() <= o.file_groups@.len(),
            total == o.file_groups@.len() - work.file_groups@.len(),
            forall|j: int| 0 <= j < i ==> delete_file_group_error(o, #[trigger] dtos@[j]) is None,
        decreases dtos@.len() - i,
    {
        let ghost pre = work;
        let d = dtos[i];
        match delete_file_group_by_dto(&mut work, &d) {
            Ok(c) => {
                proof {
                    lemma_unlink_error_like(o, pre, d);
                    let q = fg_other_than(d);
                    if c == 1 {
                        let k = choose|k: int|
                            0 <= k < pre.file_groups@.len() && (#[trigger] pre.file_groups@[k]).file_id == d.file_id
                                && pre.file_groups@[k].group_id == d.group_id && work.file_groups@ == pre.file_groups@.remove(k);
                        assert forall|x: int| 0 <= x < pre.file_groups@.len() && x != k implies #[trigger] q(pre.file_groups@[x]) by {
                            assert(pre.rows_unique());
                        }
                        lemma_filter_one(pre.file_groups@, q, k);
                    } else {
                        assert forall|x: int| 0 <= x < pre.file_groups@.len() implies #[trigger] q(pre.file_groups@[x]) by {
                            if !q(pre.file_groups@[x]) {
                                assert(has_fg_link(pre.file_groups@, d.file_id, d.group_id));
                            }
                        }
                        lemma_filter_all(pre.file_groups@, q);
                    }
                    lemma_fg_kept_next(o.file_groups@, dtos@, i as int);
                    lemma_records_like_trans(o, pre, work);
                    assert(work.file_groups@.len() + c == pre.file_groups@.len());
                }
                total = total + c;
            },
            Err(e) => {
                proof {
                    lemma_unlink_error_like(o, pre, d);
                    assert(delete_file_group_error(o, dtos@[i as int]) == Some(e));
                }
                return Err(e);
            },
        }
        i = i + 1;
    }
    proof {
        assert(dtos@.take(i as int) =~= dtos@);
    }
    *db = work;
    Ok(total)
}

/// Unlinks, in one transaction, every link that satisfies all of
/// `conditions`, as `delete_file_groups_by_dtos` does for the list of them
/// in table order.
pub fn delete_file_groups_by_conditions(db: &mut Database, conditions: Vec<FileGroupCondition>) -> (r: Result<usize, AppError>)
    requires
        old(db).wf(),
    ensures
        final(db).wf(),
        same_next_ids(*old(db), *final(db)),
        match r {
            Ok(n) => fg_links_removed(*old(db), *final(db), file_groups_where(old(db).file_groups@, conditions@), n as int),
            Err(e) => fg_unlink_failure(*old(db), file_groups_where(old(db).file_groups@, conditions@), e) && *final(db) == *old(db),
        },
{
    let found = match select_file_groups_by_conditions_with_limit(db, conditions, None) {
        Ok(v) => v,
        Err(_) => Vec::new(),
    };
    delete_file_groups_by_dtos(db, found)
}

} // verus!

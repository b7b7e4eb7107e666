//! Files: creation with a primary group, cascading deletion, lookups,
//! updates and condition based selection.
use vstd::prelude::*;
use crate::sorting::{files_sorted, sort_files};
use crate::query::{file_eval_all, lemma_file_eval_all_push_opt, like_match, files_where, eval_all_file_conditions, take_limit, apply_limit, push_opt, skip_offset, apply_offset};
use crate::cascade::purged;
use crate::errors::{AppError, DbError};
use crate::models::{CreateFileDTO, File, FileCondition, FileFilter, FileGroupDTO, FileOrderBy, FileQueryOptions, Group, GroupRelation, RELATION_TYPE_PARENT_CHILD, UpdateFileDTO};
use crate::store::{same_next_ids, has_owner, file_of, group_of, has_fg_link, has_file, has_group, is_primary_group, owns, Database};

pub use crate::service::batch::{delete_files_by_conditions, delete_files_by_ids, update_files_by_conditions};
verus! {

/// Group `gid` is the parent in some parent/child relation.
pub open spec fn has_child(rels: Seq<GroupRelation>, gid: i32) -> bool {
    exists|k: int|
        0 <= k < rels.len() && (#[trigger] rels[k]).first_group_id == gid && rels[k].relation_type
            == RELATION_TYPE_PARENT_CHILD
}

/// Some file is linked to group `gid`.
pub open spec fn has_linked_file(fgs: Seq<FileGroupDTO>, gid: i32) -> bool {
    exists|k: int| 0 <= k < fgs.len() && (#[trigger] fgs[k]).group_id == gid
}

/// The error with which creating a file in group `dto.group_id` fails, if
/// it does: the group must exist, must not be primary already, and must be
/// empty (no file linked to it and no child group), as a primary group is.
pub open spec fn create_file_error(db: Database, dto: CreateFileDTO) -> Option<AppError> {
    let gid = dto.group_id;
    if !has_group(db.groups@, gid) {
        Some(AppError::DatabaseError(DbError::NotFound))
    } else if is_primary_group(db.groups@, gid) {
        Some(AppError::CannotBindToPrimaryGroup)
    } else if has_linked_file(db.file_groups@, gid) || has_child(db.group_relations@, gid) {
        Some(AppError::FuturePrimaryGroupShouldBeEmpty)
    } else if db.next_file_id == i32::MAX {
        Some(AppError::DatabaseError(DbError::IdExhausted))
    } else if group_of(db.groups@, gid).reference_count == i32::MAX {
        Some(AppError::DatabaseError(DbError::CounterOverflow))
    } else {
        None
    }
}

impl Database {
    /// Position of a parent/child relation whose parent is group `gid`.
    pub fn find_child_relation(&self, gid: i32) -> (r: Option<usize>)
        ensures
            match r {
                Some(k) => k < self.group_relations@.len() && self.group_relations@[k as int].first_group_id == gid
                    && self.group_relations@[k as int].relation_type == RELATION_TYPE_PARENT_CHILD,
                None => !has_child(self.group_relations@, gid),
            },
    {
        let mut k: usize = 0;
        while k < self.group_relations.len()
            invariant
                k <= self.group_relations@.len(),
                forall|j: int| 0 <= j < k ==> !((#[trigger] self.group_relations@[j]).first_group_id == gid
                    && self.group_relations@[j].relation_type == RELATION_TYPE_PARENT_CHILD),
            decreases self.group_relations@.len() - k,
        {
            if self.group_relations[k].first_group_id == gid
                && self.group_relations[k].relation_type == RELATION_TYPE_PARENT_CHILD {
                return Some(k);
            }
            k = k + 1;
        }
        None
    }
}

/// A new file owning a group that was empty and not primary keeps the
/// primary-group part of the invariant.
proof fn lemma_primary_after_create(o: Database, n: Database, gi: int, f: File)
    requires
        o.ids_ok(),
        o.primary_ok(),
        0 <= gi < o.groups@.len(),
        !o.groups@[gi].is_primary,
        f.group_id == o.groups@[gi].id,
        !has_file(o.files@, f.id),
        !has_linked_file(o.file_groups@, f.group_id),
        n.files@ == o.files@.push(f),
        n.file_groups@ == o.file_groups@.push(FileGroupDTO { file_id: f.id, group_id: f.group_id, relation_type: 1 }),
        n.groups@.len() == o.groups@.len(),
        forall|i: int| 0 <= i < n.groups@.len() ==> (#[trigger] n.groups@[i]).id == o.groups@[i].id
            && n.groups@[i].is_primary == (i == gi || o.groups@[i].is_primary),
    ensures
        n.primary_ok(),
{
    let gid = f.group_id;
    let ofs = o.files@;
    let ofg = o.file_groups@;
    let nfg = n.file_groups@;
    assert(!is_primary_group(o.groups@, gid)) by {
        if is_primary_group(o.groups@, gid) {
            let j = choose|j: int| 0 <= j < o.groups@.len() && (#[trigger] o.groups@[j]).id == gid && o.groups@[j].is_primary;
            assert(o.groups@[j].id == o.groups@[gi].id);
        }
    }
    assert forall|id: i32| is_primary_group(o.groups@, id) implies is_primary_group(n.groups@, id) by {
        let j = choose|j: int| 0 <= j < o.groups@.len() && (#[trigger] o.groups@[j]).id == id && o.groups@[j].is_primary;
        assert(n.groups@[j].id == id);
    }
    assert(is_primary_group(n.groups@, gid)) by {
        assert(n.groups@[gi].id == gid);
    }
    assert forall|i: int| 0 <= i < n.files@.len() implies has_fg_link(
        nfg,
        (#[trigger] n.files@[i]).id,
        n.files@[i].group_id,
    ) && is_primary_group(n.groups@, n.files@[i].group_id) by {
        if i < ofs.len() {
            assert(n.files@[i] == ofs[i]);
            assert(has_fg_link(ofg, ofs[i].id, ofs[i].group_id));
            let k = choose|k: int| 0 <= k < ofg.len() && (#[trigger] ofg[k]).file_id == ofs[i].id
                && ofg[k].group_id == ofs[i].group_id;
            assert(nfg[k] == ofg[k]);
        } else {
            assert(nfg[ofg.len() as int].file_id == f.id);
        }
    }
    assert forall|i: int, j: int|
        0 <= i < n.files@.len() && 0 <= j < n.files@.len() && i != j implies (
        #[trigger] n.files@[i]).group_id != (#[trigger] n.files@[j]).group_id by {
        if i < ofs.len() && j < ofs.len() {
            assert(ofs[i].group_id != ofs[j].group_id);
        } else if i < ofs.len() {
            assert(is_primary_group(o.groups@, ofs[i].group_id));
        } else {
            assert(is_primary_group(o.groups@, ofs[j].group_id));
        }
    }
    assert forall|k: int, j: int|
        0 <= k < nfg.len() && 0 <= j < n.groups@.len() && (#[trigger] n.groups@[j]).id == (
        #[trigger] nfg[k]).group_id && n.groups@[j].is_primary implies owns(
        n.files@,
        nfg[k].file_id,
        nfg[k].group_id,
    ) by {
        if k < ofg.len() {
            assert(nfg[k] == ofg[k]);
            if j == gi {
                assert(!has_linked_file(ofg, gid));
                assert(ofg[k].group_id == gid);
            } else {
                assert(o.groups@[j].is_primary);
                assert(owns(ofs, ofg[k].file_id, ofg[k].group_id));
                let w = choose|w: int| 0 <= w < ofs.len() && (#[trigger] ofs[w]).id == ofg[k].file_id
                    && ofs[w].group_id == ofg[k].group_id;
                assert(n.files@[w] == ofs[w]);
            }
        } else {
            assert(n.files@[ofs.len() as int] == f);
        }
    }
    assert forall|j: int| 0 <= j < n.groups@.len() && (#[trigger] n.groups@[j]).is_primary implies has_owner(
        n.files@,
        n.groups@[j].id,
    ) by {
        if j == gi {
            assert(n.files@[ofs.len() as int] == f);
        } else {
            assert(o.groups@[j].is_primary);
            let w = choose|w: int| 0 <= w < ofs.len() && (#[trigger] ofs[w]).group_id == o.groups@[j].id;
            assert(n.files@[w] == ofs[w]);
        }
    }
}

/// `n` is `o` with file `id` added as `dto` describes: its reference count
/// is one, it is linked to its primary group (relation type 1), and that
/// group becomes primary with one more reference.
pub open spec fn file_created(o: Database, n: Database, dto: CreateFileDTO, id: i32) -> bool {
    &&& id == o.next_file_id
    &&& n.files@ == o.files@.push(File {
        id,
        type_: dto.type_,
        path: dto.path,
        reference_count: 1,
        group_id: dto.group_id,
        description: dto.description,
    })
    &&& n.file_groups@ == o.file_groups@.push(FileGroupDTO { file_id: id, group_id: dto.group_id, relation_type: 1 })
    &&& exists|gi: int|
        0 <= gi < o.groups@.len() && (#[trigger] o.groups@[gi]).id == dto.group_id && n.groups@ == o.groups@.update(
            gi,
            Group { reference_count: (o.groups@[gi].reference_count + 1) as i32, is_primary: true, ..o.groups@[gi] },
        )
    &&& n.tags@ == o.tags@
    &&& n.group_tags@ == o.group_tags@
    &&& n.group_relations@ == o.group_relations@
    &&& n.next_file_id == o.next_file_id + 1
    &&& n.next_group_id == o.next_group_id
    &&& n.next_tag_id == o.next_tag_id
}

/// Creates a file whose primary group is `dto.group_id` and returns its
/// id. The file is linked to the group (relation type 1), both reference
/// counts become one more, and the group becomes primary.
pub fn create_file(db: &mut Database, dto: CreateFileDTO) -> (r: Result<i32, AppError>)
    requires
        old(db).wf(),
    ensures
        final(db).wf(),
        match r {
            Ok(id) => create_file_error(*old(db), dto) is None && file_created(*old(db), *final(db), dto, id),
            Err(e) => {
                &&& create_file_error(*old(db), dto) == Some(e)
                &&& *final(db) == *old(db)
            },
        },
{
    let gid = dto.group_id;
    let gi = match db.find_group_index(gid) {
        Some(i) => i,
        None => {
            return Err(AppError::DatabaseError(DbError::NotFound));
        },
    };
    proof {
        db.lemma_group_at(gi as int);
    }
    if db.groups[gi].is_primary {
        return Err(AppError::CannotBindToPrimaryGroup);
    }
    if db.find_link_to_group(gid).is_some() {
        return Err(AppError::FuturePrimaryGroupShouldBeEmpty);
    }
    if db.find_child_relation(gid).is_some() {
        return Err(AppError::FuturePrimaryGroupShouldBeEmpty);
    }
    if db.next_file_id == i32::MAX {
        return Err(AppError::DatabaseError(DbError::IdExhausted));
    }
    if db.groups[gi].reference_count == i32::MAX {
        return Err(AppError::DatabaseError(DbError::CounterOverflow));
    }
    let ghost o = *db;
    let ghost f = File {
        id: o.next_file_id,
        type_: dto.type_,
        path: dto.path,
        reference_count: 1,
        group_id: gid,
        description: dto.description,
    };
    proof {
        assert(!has_file(o.files@, o.next_file_id)) by {
            if has_file(o.files@, o.next_file_id) {
                let j = choose|j: int| 0 <= j < o.files@.len() && (#[trigger] o.files@[j]).id == o.next_file_id;
            }
        }
    }
    let id = db.push_file_row(dto.type_, dto.path, gid, dto.description);
    let fi = db.files.len() - 1;
    proof {
        assert(!has_fg_link(db.file_groups@, id, gid)) by {
            if has_fg_link(db.file_groups@, id, gid) {
                let k = choose|k: int| 0 <= k < db.file_groups@.len() && (#[trigger] db.file_groups@[k]).file_id == id
                    && db.file_groups@[k].group_id == gid;
            }
        }
    }
    db.push_file_group(fi, gi, 1);
    db.set_primary(gi, true);
    proof {
        let n = *db;
        assert(n.files@ =~= o.files@.push(f));
        lemma_primary_after_create(o, n, gi as int, f);
        assert(n.groups@ =~= o.groups@.update(gi as int, Group {
            reference_count: (o.groups@[gi as int].reference_count + 1) as i32,
            is_primary: true,
            ..o.groups@[gi as int]
        }));
    }
    Ok(id)
}

/// Deletes file `file_id` together with its primary group: every link of
/// the file, every tag link and relation of the group go, and the records
/// on their other ends lose one reference per link. A missing file is
/// reported as `NotFound` and nothing changes.
pub fn delete_file(db: &mut Database, file_id: i32) -> (r: Result<(), AppError>)
    requires
        old(db).wf(),
    ensures
        final(db).wf(),
        same_next_ids(*old(db), *final(db)),
        r is Ok <==> has_file(old(db).files@, file_id),
        r is Err ==> r == Err::<(), AppError>(AppError::DatabaseError(DbError::NotFound)) && *final(db)
            == *old(db),
        r is Ok ==> purged(*old(db), *final(db), Some(file_id), file_of(old(db).files@, file_id).group_id),
        r is Ok ==> exists|fi: int|
            0 <= fi < old(db).files@.len() && (#[trigger] old(db).files@[fi]).id == file_id && final(db).files@
                == old(db).files@.remove(fi),
{
    let ghost o = *db;
    let fi = match db.find_file_index(file_id) {
        Some(i) => i,
        None => {
            return Err(AppError::DatabaseError(DbError::NotFound));
        },
    };
    let gid = db.files[fi].group_id;
    proof {
        db.lemma_file_at(fi as int);
        assert(is_primary_group(db.groups@, gid));
    }
    db.purge(Some(fi), gid);
    proof {
        assert(o.files@[fi as int] == file_of(o.files@, file_id)) by {
            o.lemma_file_at(fi as int);
        }
        crate::laws::law_delete_file_keeps_other_files(o, *db, file_id);
    }
    Ok(())
}

/// The file with id `file_id`, if there is one.
pub fn find_file_by_id(db: &Database, file_id: i32) -> (r: Option<File>)
    requires
        db.ids_ok(),
    ensures
        r is Some <==> has_file(db.files@, file_id),
        r is Some ==> r == Some(file_of(db.files@, file_id)),
{
    match db.find_file_index(file_id) {
        Some(i) => {
            proof {
                db.lemma_file_at(i as int);
            }
            Some(db.files[i].clone())
        },
        None => None,
    }
}

/// The file with id `file_id`; a missing file is reported as `NotFound`.
pub fn get_file_by_id(db: &Database, file_id: i32) -> (r: Result<File, AppError>)
    requires
        db.ids_ok(),
    ensures
        r is Ok <==> has_file(db.files@, file_id),
        r is Ok ==> r == Ok::<File, AppError>(file_of(db.files@, file_id)),
        r is Err ==> r == Err::<File, AppError>(AppError::DatabaseError(DbError::NotFound)),
{
    match find_file_by_id(db, file_id) {
        Some(f) => Ok(f),
        None => Err(AppError::DatabaseError(DbError::NotFound)),
    }
}

/// The error with which updating file `fid` with `dto` fails, if it does.
/// The reference count belongs to the catalogue; a new primary group must
/// exist, must not be primary yet, and must be empty.
pub open spec fn update_file_error(db: Database, fid: i32, dto: UpdateFileDTO) -> Option<AppError> {
    if dto.reference_count is Some {
        Some(AppError::CannotModifyReferenceCount)
    } else if !has_file(db.files@, fid) {
        Some(AppError::DatabaseError(DbError::NotFound))
    } else if dto.group_id matches Some(ng) && ng != file_of(db.files@, fid).group_id {
        let ng = dto.group_id->0;
        if !has_group(db.groups@, ng) {
            Some(AppError::DatabaseError(DbError::NotFound))
        } else if is_primary_group(db.groups@, ng) {
            Some(AppError::CannotBindToPrimaryGroup)
        } else if has_linked_file(db.file_groups@, ng) || has_child(db.group_relations@, ng) {
            Some(AppError::FuturePrimaryGroupShouldBeEmpty)
        } else if group_of(db.groups@, ng).reference_count == i32::MAX {
            Some(AppError::DatabaseError(DbError::CounterOverflow))
        } else {
            None
        }
    } else {
        None
    }
}

/// Every field that `dto` gives, `f` holds: the path, the type, the
/// primary group and the description.
pub open spec fn file_shows_update(f: File, dto: UpdateFileDTO) -> bool {
    &&& (dto.path matches Some(x) ==> f.path == x)
    &&& (dto.type_ matches Some(x) ==> f.type_ == x)
    &&& (dto.group_id matches Some(x) ==> f.group_id == x)
    &&& (dto.description matches Some(x) ==> f.description == Some(x))
}

/// An updated file holds every field that the update gives.
pub proof fn lemma_file_updated_shows(f: File, dto: UpdateFileDTO)
    ensures
        file_shows_update(file_updated(f, dto), dto),
{
}

/// File `f` with the fields that `dto` sets replaced.
pub open spec fn file_updated(f: File, dto: UpdateFileDTO) -> File {
    File {
        path: match dto.path {
            Some(x) => x,
            None => f.path,
        },
        type_: match dto.type_ {
            Some(x) => x,
            None => f.type_,
        },
        group_id: match dto.group_id {
            Some(x) => x,
            None => f.group_id,
        },
        description: match dto.description {
            Some(x) => Some(x),
            None => f.description,
        },
        ..f
    }
}

/// What moving file `fi` from primary group `ci` to group `ni` changes.
pub open spec fn move_frame(o: Database, n: Database, fi: int, ci: int, ni: int, k: int) -> bool {
    &&& 0 <= fi < o.files@.len()
    &&& 0 <= ci < o.groups@.len()
    &&& 0 <= ni < o.groups@.len()
    &&& ci != ni
    &&& o.files@[fi].group_id == o.groups@[ci].id
    &&& !o.groups@[ni].is_primary
    &&& !has_linked_file(o.file_groups@, o.groups@[ni].id)
    &&& 0 <= k < o.file_groups@.len()
    &&& o.file_groups@[k].file_id == o.files@[fi].id
    &&& o.file_groups@[k].group_id == o.groups@[ci].id
    &&& n.files@.len() == o.files@.len()
    &&& n.files@[fi].id == o.files@[fi].id
    &&& n.files@[fi].group_id == o.groups@[ni].id
    &&& forall|i: int| 0 <= i < o.files@.len() && i != fi ==> n.files@[i] == #[trigger] o.files@[i]
    &&& n.file_groups@ == o.file_groups@.remove(k).push(
        FileGroupDTO { file_id: o.files@[fi].id, group_id: o.groups@[ni].id, relation_type: 1 },
    )
    &&& n.groups@.len() == o.groups@.len()
    &&& forall|j: int| 0 <= j < n.groups@.len() ==> (#[trigger] n.groups@[j]).id == o.groups@[j].id
        && n.groups@[j].is_primary == (j == ni || (j != ci && o.groups@[j].is_primary))
}

proof fn lemma_move_groups(o: Database, n: Database, fi: int, ci: int, ni: int, k: int)
    requires
        o.ids_ok(),
        move_frame(o, n, fi, ci, ni, k),
    ensures
        forall|id: i32| is_primary_group(o.groups@, id) && id != o.groups@[ci].id ==> is_primary_group(n.groups@, id),
        is_primary_group(n.groups@, o.groups@[ni].id),
        !is_primary_group(o.groups@, o.groups@[ni].id),
        forall|j: int| 0 <= j < n.groups@.len() && (#[trigger] n.groups@[j]).is_primary && j != ni ==> o.groups@[j].is_primary
            && n.groups@[j].id != o.groups@[ci].id && n.groups@[j].id != o.groups@[ni].id,
{
    assert forall|id: i32| is_primary_group(o.groups@, id) && id != o.groups@[ci].id implies is_primary_group(n.groups@, id) by {
        let j = choose|j: int| 0 <= j < o.groups@.len() && (#[trigger] o.groups@[j]).id == id && o.groups@[j].is_primary;
        assert(n.groups@[j].id == id);
    }
    assert(n.groups@[ni].id == o.groups@[ni].id);
    if is_primary_group(o.groups@, o.groups@[ni].id) {
        let j = choose|j: int| 0 <= j < o.groups@.len() && (#[trigger] o.groups@[j]).id == o.groups@[ni].id && o.groups@[j].is_primary;
        if j != ni {
            assert(o.groups@[j].id != o.groups@[ni].id);
        }
    }
    assert forall|j: int| 0 <= j < n.groups@.len() && (#[trigger] n.groups@[j]).is_primary && j != ni implies o.groups@[j].is_primary
        && n.groups@[j].id != o.groups@[ci].id && n.groups@[j].id != o.groups@[ni].id by {
        assert(j != ci);
        assert(o.groups@[j].id != o.groups@[ci].id);
        assert(o.groups@[j].id != o.groups@[ni].id);
    }
}

proof fn lemma_move_files(o: Database, n: Database, fi: int, ci: int, ni: int, k: int)
    requires
        o.ids_ok(),
        o.primary_ok(),
        move_frame(o, n, fi, ci, ni, k),
    ensures
        forall|i: int| 0 <= i < n.files@.len() ==> has_fg_link(
            n.file_groups@,
            (#[trigger] n.files@[i]).id,
            n.files@[i].group_id,
        ) && is_primary_group(n.groups@, n.files@[i].group_id),
        forall|i: int, j: int|
            0 <= i < n.files@.len() && 0 <= j < n.files@.len() && i != j ==> (
            #[trigger] n.files@[i]).group_id != (#[trigger] n.files@[j]).group_id,
{
    lemma_move_groups(o, n, fi, ci, ni, k);
    let ofg = o.file_groups@;
    let nfg = n.file_groups@;
    let rem = ofg.remove(k);
    let last = nfg.len() - 1;
    assert forall|i: int| 0 <= i < n.files@.len() implies has_fg_link(
        nfg,
        (#[trigger] n.files@[i]).id,
        n.files@[i].group_id,
    ) && is_primary_group(n.groups@, n.files@[i].group_id) by {
        if i == fi {
            assert(nfg[last].file_id == n.files@[i].id);
        } else {
            let f = o.files@[i];
            assert(n.files@[i] == f);
            assert(f.id != o.files@[fi].id);
            assert(f.group_id != o.files@[fi].group_id);
            assert(has_fg_link(ofg, f.id, f.group_id));
            let q = choose|q: int| 0 <= q < ofg.len() && (#[trigger] ofg[q]).file_id == f.id && ofg[q].group_id == f.group_id;
            assert(q != k);
            let qq = if q < k { q } else { q - 1 };
            assert(rem[qq] == ofg[q]);
            assert(nfg[qq] == rem[qq]);
        }
    }
    assert forall|i: int, j: int|
        0 <= i < n.files@.len() && 0 <= j < n.files@.len() && i != j implies (
        #[trigger] n.files@[i]).group_id != (#[trigger] n.files@[j]).group_id by {
        if i != fi && j != fi {
            assert(o.files@[i].group_id != o.files@[j].group_id);
        } else if i == fi {
            assert(is_primary_group(o.groups@, o.files@[j].group_id));
        } else {
            assert(is_primary_group(o.groups@, o.files@[i].group_id));
        }
    }
}

proof fn lemma_move_links(o: Database, n: Database, fi: int, ci: int, ni: int, k: int)
    requires
        o.ids_ok(),
        o.primary_ok(),
        move_frame(o, n, fi, ci, ni, k),
    ensures
        forall|q: int, j: int|
            0 <= q < n.file_groups@.len() && 0 <= j < n.groups@.len() && (#[trigger] n.groups@[j]).id == (
            #[trigger] n.file_groups@[q]).group_id && n.groups@[j].is_primary ==> owns(
            n.files@,
            n.file_groups@[q].file_id,
            n.file_groups@[q].group_id,
        ),
{
    lemma_move_groups(o, n, fi, ci, ni, k);
    let ofg = o.file_groups@;
    let nfg = n.file_groups@;
    let rem = ofg.remove(k);
    assert forall|q: int, j: int|
        0 <= q < nfg.len() && 0 <= j < n.groups@.len() && (#[trigger] n.groups@[j]).id == (
        #[trigger] nfg[q]).group_id && n.groups@[j].is_primary implies owns(
        n.files@,
        nfg[q].file_id,
        nfg[q].group_id,
    ) by {
        if q == nfg.len() - 1 {
            assert(n.files@[fi].id == nfg[q].file_id);
        } else {
            let qq = if q < k { q } else { q + 1 };
            assert(nfg[q] == rem[q]);
            assert(rem[q] == ofg[qq]);
            if j == ni {
                assert(!has_linked_file(ofg, o.groups@[ni].id));
                assert(ofg[qq].group_id == o.groups@[ni].id);
            } else {
                assert(o.groups@[j].is_primary);
                assert(o.groups@[j].id == ofg[qq].group_id);
                assert(owns(o.files@, ofg[qq].file_id, ofg[qq].group_id));
                let w = choose|w: int| 0 <= w < o.files@.len() && (#[trigger] o.files@[w]).id == ofg[qq].file_id
                    && o.files@[w].group_id == ofg[qq].group_id;
                assert(w != fi);
                assert(n.files@[w] == o.files@[w]);
            }
        }
    }
}

impl Database {
    /// Makes group `ni` the primary group of file `fi` in place of its
    /// current one `ci`: the link to the old group (at position `k`) goes,
    /// a link to the new group comes, the new group becomes primary and the
    /// old one ordinary.
    #[verifier::spinoff_prover]
    #[verifier::rlimit(40)]
    fn move_primary(&mut self, fi: usize, ci: usize, ni: usize, k: usize)
        requires
            old(self).wf(),
            fi < old(self).files@.len(),
            ci < old(self).groups@.len(),
            ni < old(self).groups@.len(),
            ci != ni,
            old(self).files@[fi as int].group_id == old(self).groups@[ci as int].id,
            !old(self).groups@[ni as int].is_primary,
            !has_linked_file(old(self).file_groups@, old(self).groups@[ni as int].id),
            old(self).groups@[ni as int].reference_count < i32::MAX,
            k < old(self).file_groups@.len(),
            old(self).file_groups@[k as int].file_id == old(self).files@[fi as int].id,
            old(self).file_groups@[k as int].group_id == old(self).groups@[ci as int].id,
        ensures
            final(self).wf(),
            final(self).files@ == old(self).files@.update(fi as int, File {
                group_id: old(self).groups@[ni as int].id,
                ..old(self).files@[fi as int]
            }),
            final(self).file_groups@ == old(self).file_groups@.remove(k as int).push(FileGroupDTO {
                file_id: old(self).files@[fi as int].id,
                group_id: old(self).groups@[ni as int].id,
                relation_type: 1,
            }),
            final(self).groups@ == old(self).groups@.update(ci as int, Group {
                reference_count: (old(self).groups@[ci as int].reference_count - 1) as i32,
                is_primary: false,
                ..old(self).groups@[ci as int]
            }).update(ni as int, Group {
                reference_count: (old(self).groups@[ni as int].reference_count + 1) as i32,
                is_primary: true,
                ..old(self).groups@[ni as int]
            }),
            final(self).tags@ == old(self).tags@,
            final(self).group_tags@ == old(self).group_tags@,
            final(self).group_relations@ == old(self).group_relations@,
            final(self).next_file_id == old(self).next_file_id,
            final(self).next_group_id == old(self).next_group_id,
            final(self).next_tag_id == old(self).next_tag_id,
    {
        let ghost o = *self;
        let ng = self.groups[ni].id;
        self.remove_file_group_at(k, fi, ci);
        proof {
            assert(!has_fg_link(self.file_groups@, o.files@[fi as int].id, ng)) by {
                if has_fg_link(self.file_groups@, o.files@[fi as int].id, ng) {
                    let q = choose|q: int| 0 <= q < self.file_groups@.len() && (#[trigger] self.file_groups@[q]).file_id
                        == o.files@[fi as int].id && self.file_groups@[q].group_id == ng;
                    let qq = if q < k { q } else { q + 1 };
                    assert(self.file_groups@[q] == o.file_groups@[qq]);
                }
            }
            assert(self.files@[fi as int].reference_count < o.files@[fi as int].reference_count);
        }
        self.push_file_group(fi, ni, 1);
        self.set_primary(ni, true);
        self.set_primary(ci, false);
        let ghost mid = *self;
        self.files[fi].group_id = ng;
        proof {
            let n = *self;
            assert(mid.core_ok());
            assert(n.core_ok()) by {
                assert(n.ids_ok()) by {
                    assert forall|i: int, j: int| 0 <= i < n.files@.len() && 0 <= j < n.files@.len() && i != j implies (
                    #[trigger] n.files@[i]).id != (#[trigger] n.files@[j]).id by {
                        assert(mid.files@[i].id != mid.files@[j].id);
                    }
                }
                assert forall|x: i32| has_file(mid.files@, x) implies has_file(n.files@, x) by {
                    let j = choose|j: int| 0 <= j < mid.files@.len() && (#[trigger] mid.files@[j]).id == x;
                    assert(n.files@[j].id == x);
                }
                assert(n.counts_ok()) by {
                    assert forall|i: int| 0 <= i < n.files@.len() implies (#[trigger] n.files@[i]).reference_count
                        == crate::counts::fg_count_file(n.file_groups@, n.files@[i].id) by {
                        assert(mid.files@[i].reference_count == n.files@[i].reference_count);
                    }
                }
            }
            assert(n.file_groups@ =~= o.file_groups@.remove(k as int).push(FileGroupDTO {
                file_id: o.files@[fi as int].id,
                group_id: ng,
                relation_type: 1,
            }));
            assert(move_frame(o, n, fi as int, ci as int, ni as int, k as int));
            lemma_move_files(o, n, fi as int, ci as int, ni as int, k as int);
            lemma_move_links(o, n, fi as int, ci as int, ni as int, k as int);
            assert(n.files@ =~= o.files@.update(fi as int, File { group_id: ng, ..o.files@[fi as int] }));
        }
    }
}

/// `n` is what `update_file_by_id` leaves of `o` when it updates file
/// `file_id` with `dto` and succeeds.
pub open spec fn file_update_done(o: Database, n: Database, file_id: i32, dto: UpdateFileDTO) -> bool {
    &&& update_file_error(o, file_id, dto) is None
    &&& exists|fi: int|
        0 <= fi < o.files@.len() && (#[trigger] o.files@[fi]).id == file_id
            && n.files@ == o.files@.update(fi, file_updated(o.files@[fi], dto))
            && if (dto.group_id matches Some(ng) && ng != o.files@[fi].group_id) {
            exists|k: int, ci: int, ni: int|
                #![trigger o.file_groups@[k], o.groups@[ci], o.groups@[ni]]
                0 <= k < o.file_groups@.len() && 0 <= ci < o.groups@.len() && 0 <= ni
                    < o.groups@.len() && o.groups@[ci].id == o.files@[fi].group_id
                    && o.groups@[ni].id == dto.group_id->0
                    && o.file_groups@[k] == (FileGroupDTO {
                    file_id,
                    group_id: o.files@[fi].group_id,
                    relation_type: o.file_groups@[k].relation_type,
                }) && n.file_groups@ == o.file_groups@.remove(k).push(
                    FileGroupDTO { file_id, group_id: dto.group_id->0, relation_type: 1 },
                ) && n.groups@ == o.groups@.update(ci, Group {
                    reference_count: (o.groups@[ci].reference_count - 1) as i32,
                    is_primary: false,
                    ..o.groups@[ci]
                }).update(ni, Group {
                    reference_count: (o.groups@[ni].reference_count + 1) as i32,
                    is_primary: true,
                    ..o.groups@[ni]
                })
        } else {
            n.file_groups@ == o.file_groups@ && n.groups@ == o.groups@
        }
    &&& n.tags@ == o.tags@
    &&& n.group_tags@ == o.group_tags@
    &&& n.group_relations@ == o.group_relations@
    &&& n.next_file_id == o.next_file_id
    &&& n.next_group_id == o.next_group_id
    &&& n.next_tag_id == o.next_tag_id
}

/// Sets the fields of file `file_id` that `dto` gives. A new group id makes
/// that group the file's primary group in place of the old one: the link
/// to the old group is replaced by a link to the new one, the new group
/// becomes primary and the old one ordinary. Returns the number of files
/// changed.
pub fn update_file_by_id(db: &mut Database, file_id: i32, dto: UpdateFileDTO) -> (r: Result<usize, AppError>)
    requires
        old(db).wf(),
    ensures
        final(db).wf(),
        same_next_ids(*old(db), *final(db)),
        r is Ok ==> forall|j: int|
            0 <= j < final(db).files@.len() && (#[trigger] final(db).files@[j]).id == file_id ==> file_shows_update(
                final(db).files@[j],
                dto,
            ),
        match r {
            Ok(c) => c == 1 && file_update_done(*old(db), *final(db), file_id, dto),
            Err(e) => {
                &&& update_file_error(*old(db), file_id, dto) == Some(e)
                &&& *final(db) == *old(db)
            },
        },
{
    if dto.reference_count.is_some() {
        return Err(AppError::CannotModifyReferenceCount);
    }
    let fi = match db.find_file_index(file_id) {
        Some(i) => i,
        None => {
            return Err(AppError::DatabaseError(DbError::NotFound));
        },
    };
    proof {
        db.lemma_file_at(fi as int);
    }
    let ghost o = *db;
    let ghost d = dto;
    let cur = db.files[fi].group_id;
    let mut moved = false;
    match dto.group_id {
        Some(ng) => {
            if ng != cur {
                let ni = match db.find_group_index(ng) {
                    Some(i) => i,
                    None => {
                        return Err(AppError::DatabaseError(DbError::NotFound));
                    },
                };
                proof {
                    db.lemma_group_at(ni as int);
                }
                if db.groups[ni].is_primary {
                    return Err(AppError::CannotBindToPrimaryGroup);
                }
                if db.find_link_to_group(ng).is_some() {
                    return Err(AppError::FuturePrimaryGroupShouldBeEmpty);
                }
                if db.find_child_relation(ng).is_some() {
                    return Err(AppError::FuturePrimaryGroupShouldBeEmpty);
                }
                if db.groups[ni].reference_count == i32::MAX {
                    return Err(AppError::DatabaseError(DbError::CounterOverflow));
                }
                proof {
                    assert(is_primary_group(db.groups@, cur));
                    assert(has_fg_link(db.file_groups@, file_id, cur));
                }
                let ci = db.find_group_index(cur).unwrap();
                let k = db.find_file_group_index(file_id, cur).unwrap();
                proof {
                    assert(ci != ni);
                }
                db.move_primary(fi, ci, ni, k);
                proof {
                    assert(o.file_groups@[k as int] == (FileGroupDTO {
                        file_id,
                        group_id: cur,
                        relation_type: o.file_groups@[k as int].relation_type,
                    }));
                }
                moved = true;
            }
        },
        None => {},
    }
    let ghost mid = *db;
    let mut f = db.files[fi].clone();
    let UpdateFileDTO { path, type_, reference_count: _, group_id: _, description } = dto;
    match path {
        Some(x) => {
            f.path = x;
        },
        None => {},
    }
    match type_ {
        Some(x) => {
            f.type_ = x;
        },
        None => {},
    }
    match description {
        Some(x) => {
            f.description = Some(x);
        },
        None => {},
    }
    proof {
        assert(f == file_updated(o.files@[fi as int], d));
        lemma_file_updated_shows(o.files@[fi as int], d);
    }
    db.files.set(fi, f);
    proof {
        let n = *db;
        assert(crate::rows::same_shape(mid, n));
        crate::rows::lemma_wf_same_shape(mid, n);
        assert(n.files@ =~= o.files@.update(fi as int, file_updated(o.files@[fi as int], d)));
        assert forall|j: int| 0 <= j < n.files@.len() && (#[trigger] n.files@[j]).id == file_id implies file_shows_update(
            n.files@[j],
            d,
        ) by {
            if j != fi {
                assert(n.files@[j].id != n.files@[fi as int].id);
            }
        }
    }
    Ok(1)
}

/// The files that satisfy every condition of `conditions`, in table
/// order, cut to `limit` when a non-negative limit is given.
pub fn select_files_by_conditions_with_limit(db: &Database, conditions: Vec<FileCondition>, limit: Option<i64>) -> (r: Result<Vec<File>, AppError>)
    ensures
        match r {
            Ok(v) => v@ == take_limit(files_where(db.files@, conditions@), limit),
            Err(_) => false,
        },
{
    let mut out: Vec<File> = Vec::new();
    let mut i: usize = 0;
    while i < db.files.len()
        invariant
            i <= db.files@.len(),
            out@ == files_where(db.files@.take(i as int), conditions@),
        decreases db.files@.len() - i,
    {
        proof {
            assert(db.files@.take(i + 1).drop_last() =~= db.files@.take(i as int));
        }
        match eval_all_file_conditions(&conditions, &db.files[i]) {
            Some(true) => {
                out.push(db.files[i].clone());
            },
            _ => {},
        }
        i = i + 1;
    }
    proof {
        assert(db.files@.take(i as int) =~= db.files@);
    }
    apply_limit(&mut out, limit);
    Ok(out)
}

/// A file `x` meets `filter` when it has every value the filter gives:
/// the same number or flag, and text matching the given SQL `LIKE` pattern.
pub open spec fn file_meets_filter(x: File, filter: FileFilter) -> bool {
    &&& (filter.id matches Some(v) ==> x.id == v)
    &&& (filter.type_ matches Some(v) ==> like_match(x.type_@, v@))
    &&& (filter.path matches Some(v) ==> like_match(x.path@, v@))
    &&& (filter.reference_count matches Some(v) ==> x.reference_count == v)
    &&& (filter.group_id matches Some(v) ==> x.group_id == v)
    &&& (filter.description matches Some(v) ==> (x.description matches Some(d) && like_match(d@, v@)))
}

/// The conditions that a filter stands for are all true of a file exactly
/// when the file meets the filter.
pub proof fn law_file_filter_meaning(filter: FileFilter, x: File)
    ensures
        (file_eval_all(file_filter_conditions(filter), x) == Some(true)) == file_meets_filter(x, filter),
{
    let f = filter;
    let s0 = Seq::<FileCondition>::empty();
    let s1 = push_opt(s0, f.id is Some, FileCondition::Id(f.id->0));
    lemma_file_eval_all_push_opt(s0, f.id is Some, FileCondition::Id(f.id->0), x);
    let s2 = push_opt(s1, f.type_ is Some, FileCondition::TypeLike(f.type_->0));
    lemma_file_eval_all_push_opt(s1, f.type_ is Some, FileCondition::TypeLike(f.type_->0), x);
    let s3 = push_opt(s2, f.path is Some, FileCondition::PathLike(f.path->0));
    lemma_file_eval_all_push_opt(s2, f.path is Some, FileCondition::PathLike(f.path->0), x);
    let s4 = push_opt(s3, f.reference_count is Some, FileCondition::ReferenceCount(f.reference_count->0));
    lemma_file_eval_all_push_opt(s3, f.reference_count is Some, FileCondition::ReferenceCount(f.reference_count->0), x);
    let s5 = push_opt(s4, f.group_id is Some, FileCondition::GroupId(f.group_id->0));
    lemma_file_eval_all_push_opt(s4, f.group_id is Some, FileCondition::GroupId(f.group_id->0), x);
    let s6 = push_opt(s5, f.description is Some, FileCondition::DescriptionLike(f.description->0));
    lemma_file_eval_all_push_opt(s5, f.description is Some, FileCondition::DescriptionLike(f.description->0), x);
    assert(file_filter_conditions(filter) == s6);
}

/// The conditions that filter `f` stands for: equality on ids, numbers,
/// flags and times, `LIKE` on texts, one condition per field given.
pub open spec fn file_filter_conditions(f: FileFilter) -> Seq<FileCondition> {
    let s0 = Seq::<FileCondition>::empty();
    let s1 = push_opt(s0, f.id is Some, FileCondition::Id(f.id->0));
    let s2 = push_opt(s1, f.type_ is Some, FileCondition::TypeLike(f.type_->0));
    let s3 = push_opt(s2, f.path is Some, FileCondition::PathLike(f.path->0));
    let s4 = push_opt(s3, f.reference_count is Some, FileCondition::ReferenceCount(f.reference_count->0));
    let s5 = push_opt(s4, f.group_id is Some, FileCondition::GroupId(f.group_id->0));
    let s6 = push_opt(s5, f.description is Some, FileCondition::DescriptionLike(f.description->0));
    s6
}

/// The conditions that filter `filter` stands for.
pub fn file_filter_to_conditions(filter: FileFilter) -> (r: Vec<FileCondition>)
    ensures
        r@ == file_filter_conditions(filter),
        forall|x: File| (#[trigger] file_eval_all(r@, x) == Some(true)) == file_meets_filter(x, filter),
{
    let ghost f = filter;
    let ghost mut acc: Seq<FileCondition> = Seq::empty();
    let mut c: Vec<FileCondition> = Vec::new();
    let FileFilter { id, type_, path, reference_count, group_id, description } = filter;
    match id {
        Some(x) => {
            c.push(FileCondition::Id(x));
        },
        None => {},
    }
    proof {
        acc = push_opt(acc, f.id is Some, FileCondition::Id(f.id->0));
        assert(c@ == acc);
    }
    match type_ {
        Some(x) => {
            c.push(FileCondition::TypeLike(x));
        },
        None => {},
    }
    proof {
        acc = push_opt(acc, f.type_ is Some, FileCondition::TypeLike(f.type_->0));
        assert(c@ == acc);
    }
    match path {
        Some(x) => {
            c.push(FileCondition::PathLike(x));
        },
        None => {},
    }
    proof {
        acc = push_opt(acc, f.path is Some, FileCondition::PathLike(f.path->0));
        assert(c@ == acc);
    }
    match reference_count {
        Some(x) => {
            c.push(FileCondition::ReferenceCount(x));
        },
        None => {},
    }
    proof {
        acc = push_opt(acc, f.reference_count is Some, FileCondition::ReferenceCount(f.reference_count->0));
        assert(c@ == acc);
    }
    match group_id {
        Some(x) => {
            c.push(FileCondition::GroupId(x));
        },
        None => {},
    }
    proof {
        acc = push_opt(acc, f.group_id is Some, FileCondition::GroupId(f.group_id->0));
        assert(c@ == acc);
    }
    match description {
        Some(x) => {
            c.push(FileCondition::DescriptionLike(x));
        },
        None => {},
    }
    proof {
        acc = push_opt(acc, f.description is Some, FileCondition::DescriptionLike(f.description->0));
        assert(c@ == acc);
    }
    proof {
        assert forall|x: File| (#[trigger] file_eval_all(c@, x) == Some(true)) == file_meets_filter(x, filter) by {
            law_file_filter_meaning(f, x);
        }
    }
    c
}

/// The files that filter `filter` selects, in table order, cut to the
/// limit.
pub fn select_files_by_filter_with_limit(db: &Database, filter: FileFilter, limit: Option<i64>) -> (r: Result<Vec<File>, AppError>)
    ensures
        match r {
            Ok(v) => v@ == take_limit(files_where(db.files@, file_filter_conditions(filter)), limit),
            Err(_) => false,
        },
        r matches Ok(v) ==> forall|i: int|
            0 <= i < v@.len() ==> db.files@.contains(#[trigger] v@[i]) && file_meets_filter(v@[i], filter),
        r matches Ok(v) ==> (limit is None ==> forall|x: File|
            db.files@.contains(x) && file_meets_filter(x, filter) ==> #[trigger] v@.contains(x)),
{
    let r = select_files_by_conditions_with_limit(db, file_filter_to_conditions(filter), limit);
    proof {
        let w = files_where(db.files@, file_filter_conditions(filter));
        crate::query::lemma_files_where_members(db.files@, file_filter_conditions(filter));
        assert forall|x: File| #[trigger] w.contains(x) implies db.files@.contains(x) && file_meets_filter(x, filter) by {
            law_file_filter_meaning(filter, x);
        }
        assert forall|x: File| db.files@.contains(x) && file_meets_filter(x, filter) implies #[trigger] w.contains(x) by {
            law_file_filter_meaning(filter, x);
        }
        if r is Ok {
            let v = r->Ok_0;
            assert forall|i: int| 0 <= i < v@.len() implies db.files@.contains(#[trigger] v@[i]) && file_meets_filter(v@[i], filter) by {
                assert(v@[i] == w[i]);
                assert(w.contains(w[i]));
            }
        }
    }
    r
}

/// The files that are linked to group `group_id`, one per link, in link order.
pub open spec fn files_of_group(links: Seq<FileGroupDTO>, recs: Seq<File>, x: i32) -> Seq<File>
    decreases links.len(),
{
    if links.len() == 0 {
        Seq::empty()
    } else {
        let rest = files_of_group(links.drop_last(), recs, x);
        if links.last().group_id == x {
            rest.push(file_of(recs, links.last().file_id))
        } else {
            rest
        }
    }
}

/// The records that `files_of_group` lists from the first `n` links are exactly
/// the records that one of those links joins to `x`.
proof fn lemma_files_of_group_members(db: Database, x: i32, n: int)
    requires
        db.core_ok(),
        0 <= n <= db.file_groups@.len(),
    ensures
        forall|g: File|
            #[trigger] files_of_group(db.file_groups@.take(n), db.files@, x).contains(g) <==> (db.files@.contains(g) && exists|k: int|
                0 <= k < n && (#[trigger] db.file_groups@[k]).group_id == x && db.file_groups@[k].file_id == g.id),
    decreases n,
{
    let links = db.file_groups@.take(n);
    if n > 0 {
        lemma_files_of_group_members(db, x, n - 1);
        let prev = db.file_groups@.take(n - 1);
        assert(links.drop_last() =~= prev);
        let l = db.file_groups@[n - 1];
        assert(links.last() == l);
        let rest = files_of_group(prev, db.files@, x);
        assert(has_file(db.files@, l.file_id));
        let hi = choose|i: int| 0 <= i < db.files@.len() && (#[trigger] db.files@[i]).id == l.file_id;
        db.lemma_file_at(hi);
        let h = file_of(db.files@, l.file_id);
        assert(h == db.files@[hi]);
        assert forall|g: File|
            #[trigger] files_of_group(links, db.files@, x).contains(g) <==> (db.files@.contains(g) && exists|k: int|
                0 <= k < n && (#[trigger] db.file_groups@[k]).group_id == x && db.file_groups@[k].file_id == g.id) by {
            let out = files_of_group(links, db.files@, x);
            if l.group_id == x {
                assert(out == rest.push(h));
            } else {
                assert(out == rest);
            }
            if out.contains(g) {
                let q = choose|q: int| 0 <= q < out.len() && out[q] == g;
                if q < rest.len() {
                    assert(rest[q] == g);
                    assert(rest.contains(g));
                    let k = choose|k: int|
                        0 <= k < n - 1 && (#[trigger] db.file_groups@[k]).group_id == x && db.file_groups@[k].file_id == g.id;
                    assert(db.file_groups@[k].group_id == x);
                } else {
                    assert(g == h);
                    assert(db.files@.contains(g));
                    assert(db.file_groups@[n - 1].group_id == x);
                }
            }
            if db.files@.contains(g) && exists|k: int|
                0 <= k < n && (#[trigger] db.file_groups@[k]).group_id == x && db.file_groups@[k].file_id == g.id {
                let k = choose|k: int| 0 <= k < n && (#[trigger] db.file_groups@[k]).group_id == x && db.file_groups@[k].file_id == g.id;
                if k < n - 1 {
                    assert(rest.contains(g));
                    let q = choose|q: int| 0 <= q < rest.len() && rest[q] == g;
                    assert(out[q] == g);
                } else {
                    let j = choose|j: int| 0 <= j < db.files@.len() && db.files@[j] == g;
                    db.lemma_file_at(j);
                    assert(g == h);
                    assert(out[rest.len() as int] == h);
                }
            }
        }
    }
}

/// The files that are linked to group `group_id`.
pub fn select_file_by_group_id(db: &Database, group_id: i32) -> (r: Result<Vec<File>, AppError>)
    requires
        db.core_ok(),
    ensures
        match r {
            Ok(v) => v@ == files_of_group(db.file_groups@, db.files@, group_id),
            Err(_) => false,
        },
        r matches Ok(v) ==> forall|g: File|
            #[trigger] v@.contains(g) <==> (db.files@.contains(g) && exists|k: int|
                0 <= k < db.file_groups@.len() && (#[trigger] db.file_groups@[k]).group_id == group_id && db.file_groups@[k].file_id == g.id),
{
    let mut out: Vec<File> = Vec::new();
    let mut k: usize = 0;
    while k < db.file_groups.len()
        invariant
            db.core_ok(),
            k <= db.file_groups@.len(),
            out@ == files_of_group(db.file_groups@.take(k as int), db.files@, group_id),
        decreases db.file_groups@.len() - k,
    {
        proof {
            assert(db.file_groups@.take(k + 1).drop_last() =~= db.file_groups@.take(k as int));
        }
        if db.file_groups[k].group_id == group_id {
            let other = db.file_groups[k].file_id;
            proof {
                assert(has_file(db.files@, db.file_groups@[k as int].file_id));
            }
            let j = db.find_file_index(other).unwrap();
            proof {
                db.lemma_file_at(j as int);
            }
            out.push(db.files[j].clone());
        }
        k = k + 1;
    }
    proof {
        assert(db.file_groups@.take(k as int) =~= db.file_groups@);
    }
    proof {
        lemma_files_of_group_members(*db, group_id, db.file_groups@.len() as int);
        assert(db.file_groups@.take(db.file_groups@.len() as int) =~= db.file_groups@);
    }
    Ok(out)
}

/// `s` holds the files of `rows` arranged as `order_by` asks: as they
/// are when it is empty, otherwise sorted by its last entry (a later
/// ordering replaces an earlier one).
pub open spec fn files_arranged(rows: Seq<File>, s: Seq<File>, order_by: Seq<FileOrderBy>) -> bool {
    if order_by.len() == 0 {
        s == rows
    } else {
        s.to_multiset() == rows.to_multiset() && files_sorted(s, order_by.last())
    }
}

/// The files that satisfy every condition of `conditions`, ordered,
/// skipped and cut as `options` asks.
pub fn select_files_by_conditions_with_options(db: &Database, conditions: Vec<FileCondition>, options: FileQueryOptions) -> (r: Result<Vec<File>, AppError>)
    ensures
        match r {
            Ok(v) => exists|s: Seq<File>|
                files_arranged(files_where(db.files@, conditions@), s, options.order_by@) && v@ == take_limit(
                    skip_offset(s, options.offset),
                    options.limit,
                ),
            Err(_) => false,
        },
{
    let ghost cs = conditions@;
    let rows = match select_files_by_conditions_with_limit(db, conditions, None) {
        Ok(v) => v,
        Err(e) => {
            return Err(e);
        },
    };
    let n = options.order_by.len();
    let arranged = if n == 0 {
        rows
    } else {
        sort_files(&rows, options.order_by[n - 1])
    };
    let ghost s = arranged@;
    let mut v = apply_offset(arranged, options.offset);
    apply_limit(&mut v, options.limit);
    proof {
        assert(files_arranged(files_where(db.files@, cs), s, options.order_by@));
    }
    Ok(v)
}

/// The files that filter `filter` selects, ordered, skipped and cut as
/// `options` asks.
pub fn select_files_by_filter_with_options(db: &Database, filter: FileFilter, options: FileQueryOptions) -> (r: Result<Vec<File>, AppError>)
    ensures
        match r {
            Ok(v) => exists|s: Seq<File>|
                files_arranged(files_where(db.files@, file_filter_conditions(filter)), s, options.order_by@) && v@
                    == take_limit(skip_offset(s, options.offset), options.limit),
            Err(_) => false,
        },
{
    select_files_by_conditions_with_options(db, file_filter_to_conditions(filter), options)
}

} // verus!

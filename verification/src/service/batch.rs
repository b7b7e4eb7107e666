//! Deleting several files, groups or tags at once, by ids or by
//! conditions. Each runs as one transaction: the single deletions happen in
//! turn, and when one of them would fail nothing changes at all.
use vstd::prelude::*;
use crate::cascade::purged;
use crate::errors::{AppError, DbError};
use crate::models::{File, FileCondition, Group, GroupCondition, Tag, TagCondition, UpdateFileDTO};
use crate::query::{files_where, groups_where, tags_where};
use crate::rows::{files_like, groups_like, same_file, same_group};
use crate::service::files::{
    delete_file, file_update_done, select_files_by_conditions_with_limit, update_file_by_id, update_file_error,
};
use crate::service::groups::{delete_group, owner_of, select_groups_by_conditions_with_limit};
use crate::service::tags::{delete_tag, select_tags_by_conditions, tag_purged};
use crate::store::{same_next_ids, file_of, has_file, has_group, has_tag, lemma_wf_same_catalogue, same_catalogue, Database};

verus! {

/// `b` is what `delete_file` leaves of `a` when it deletes file `id`.
pub open spec fn file_deleted(a: Database, b: Database, id: i32) -> bool {
    &&& b.wf()
    &&& has_file(a.files@, id)
    &&& purged(a, b, Some(id), file_of(a.files@, id).group_id)
}

/// `b` is what `delete_group` leaves of `a` when it deletes group `id`.
pub open spec fn group_deleted(a: Database, b: Database, id: i32) -> bool {
    &&& b.wf()
    &&& has_group(a.groups@, id)
    &&& purged(a, b, owner_of(a, id), id)
}

/// `b` is what `delete_tag` leaves of `a` when asked to delete tag `id`:
/// `a` itself when there is no such tag.
pub open spec fn tag_deleted(a: Database, b: Database, id: i32) -> bool {
    &&& b.wf()
    &&& if has_tag(a.tags@, id) {
        tag_purged(a, b, id)
    } else {
        b == a
    }
}

/// `states` goes from its first catalogue to its last by deleting the
/// files `ids` one after the other.
pub open spec fn files_deleted_in_turn(states: Seq<Database>, ids: Seq<i32>) -> bool {
    &&& states.len() == ids.len() + 1
    &&& forall|i: int| 0 <= i < ids.len() ==> file_deleted(states[i], states[i + 1], #[trigger] ids[i])
}

/// `states` goes from its first catalogue to its last by deleting the
/// groups `ids` one after the other.
pub open spec fn groups_deleted_in_turn(states: Seq<Database>, ids: Seq<i32>) -> bool {
    &&& states.len() == ids.len() + 1
    &&& forall|i: int| 0 <= i < ids.len() ==> group_deleted(states[i], states[i + 1], #[trigger] ids[i])
}

/// `states` goes from its first catalogue to its last by deleting the tags
/// `ids` one after the other.
pub open spec fn tags_deleted_in_turn(states: Seq<Database>, ids: Seq<i32>) -> bool {
    &&& states.len() == ids.len() + 1
    &&& forall|i: int| 0 <= i < ids.len() ==> tag_deleted(states[i], states[i + 1], #[trigger] ids[i])
}

/// Deleting a file keeps every other file.
proof fn lemma_file_deleted_keeps(a: Database, b: Database, id: i32)
    requires
        a.wf(),
        file_deleted(a, b, id),
    ensures
        forall|x: i32| has_file(b.files@, x) <==> has_file(a.files@, x) && x != id,
{
    let fi = choose|fi: int| 0 <= fi < a.files@.len() && (#[trigger] a.files@[fi]).id == id && files_like(a.files@.remove(fi), b.files@);
    let r = a.files@.remove(fi);
    assert forall|x: i32| has_file(b.files@, x) <==> has_file(a.files@, x) && x != id by {
        if has_file(b.files@, x) {
            let j = choose|j: int| 0 <= j < b.files@.len() && (#[trigger] b.files@[j]).id == x;
            let jj = if j < fi { j } else { j + 1 };
            assert(same_file(r[j], b.files@[j]));
            assert(r[j] == a.files@[jj]);
            assert(a.files@[jj].id != a.files@[fi].id);
        }
        if has_file(a.files@, x) && x != id {
            let j = choose|j: int| 0 <= j < a.files@.len() && (#[trigger] a.files@[j]).id == x;
            assert(j != fi);
            let jj = if j < fi { j } else { j - 1 };
            assert(r[jj] == a.files@[j]);
            assert(same_file(r[jj], b.files@[jj]));
        }
    }
}

/// Deleting a group keeps every other group.
proof fn lemma_group_deleted_keeps(a: Database, b: Database, id: i32)
    requires
        a.wf(),
        group_deleted(a, b, id),
    ensures
        forall|x: i32| has_group(b.groups@, x) <==> has_group(a.groups@, x) && x != id,
{
    let gi = choose|gi: int| 0 <= gi < a.groups@.len() && (#[trigger] a.groups@[gi]).id == id && groups_like(a.groups@.remove(gi), b.groups@);
    let r = a.groups@.remove(gi);
    assert forall|x: i32| has_group(b.groups@, x) <==> has_group(a.groups@, x) && x != id by {
        if has_group(b.groups@, x) {
            let j = choose|j: int| 0 <= j < b.groups@.len() && (#[trigger] b.groups@[j]).id == x;
            let jj = if j < gi { j } else { j + 1 };
            assert(same_group(r[j], b.groups@[j]));
            assert(r[j] == a.groups@[jj]);
            assert(a.groups@[jj].id != a.groups@[gi].id);
        }
        if has_group(a.groups@, x) && x != id {
            let j = choose|j: int| 0 <= j < a.groups@.len() && (#[trigger] a.groups@[j]).id == x;
            assert(j != gi);
            let jj = if j < gi { j } else { j - 1 };
            assert(r[jj] == a.groups@[j]);
            assert(same_group(r[jj], b.groups@[jj]));
        }
    }
}

/// Whether the ids of `v` are pairwise different.
fn distinct_ids(v: &Vec<i32>) -> (r: bool)
    ensures
        r == v@.no_duplicates(),
{
    let mut i: usize = 0;
    while i < v.len()
        invariant
            i <= v@.len(),
            forall|p: int, q: int| 0 <= p < q < i ==> v@[p] != v@[q],
        decreases v@.len() - i,
    {
        let mut j: usize = 0;
        while j < i
            invariant
                j <= i < v@.len(),
                forall|p: int| 0 <= p < j ==> v@[p] != v@[i as int],
            decreases i - j,
        {
            if v[j] == v[i] {
                return false;
            }
            j = j + 1;
        }
        i = i + 1;
    }
    true
}

/// Deletes the files `file_ids` one after the other, each with its primary
/// group, as `delete_file` does, and returns how many were deleted. When
/// one of them is missing or named twice, nothing changes and the answer
/// is `NotFound`, as the rolled back transaction gives.
pub fn delete_files_by_ids(db: &mut Database, file_ids: Vec<i32>) -> (r: Result<usize, AppError>)
    requires
        old(db).wf(),
    ensures
        final(db).wf(),
        same_next_ids(*old(db), *final(db)),
        r is Ok <==> (forall|i: int| 0 <= i < file_ids@.len() ==> has_file(old(db).files@, #[trigger] file_ids@[i]))
            && file_ids@.no_duplicates(),
        r is Err ==> r == Err::<usize, AppError>(AppError::DatabaseError(DbError::NotFound)) && *final(db)
            == *old(db),
        r is Ok ==> r == Ok::<usize, AppError>(file_ids@.len() as usize) && exists|states: Seq<Database>|
            files_deleted_in_turn(states, file_ids@) && states[0] == *old(db) && states.last() == *final(db),
{
    let mut i: usize = 0;
    while i < file_ids.len()
        invariant
            db.wf(),
            i <= file_ids@.len(),
            forall|j: int| 0 <= j < i ==> has_file(db.files@, #[trigger] file_ids@[j]),
        decreases file_ids@.len() - i,
    {
        if db.find_file_index(file_ids[i]).is_none() {
            return Err(AppError::DatabaseError(DbError::NotFound));
        }
        i = i + 1;
    }
    if !distinct_ids(&file_ids) {
        return Err(AppError::DatabaseError(DbError::NotFound));
    }
    let ghost o = *db;
    let ghost mut states: Seq<Database> = seq![*db];
    let mut i: usize = 0;
    while i < file_ids.len()
        invariant
            db.wf(),
            same_next_ids(o, *db),
            o.wf(),
            i <= file_ids@.len(),
            file_ids@.no_duplicates(),
            states.len() == i + 1,
            states[0] == o,
            states.last() == *db,
            forall|j: int| 0 <= j < i ==> file_deleted(states[j], states[j + 1], #[trigger] file_ids@[j]),
            forall|j: int| i <= j < file_ids@.len() ==> has_file(db.files@, #[trigger] file_ids@[j]),
        decreases file_ids@.len() - i,
    {
        let ghost pre = *db;
        let _ = delete_file(db, file_ids[i]);
        proof {
            lemma_file_deleted_keeps(pre, *db, file_ids@[i as int]);
            let prev = states;
            states = states.push(*db);
            assert forall|j: int| 0 <= j < i + 1 implies file_deleted(states[j], states[j + 1], #[trigger] file_ids@[j]) by {
                if j < i {
                    assert(states[j] == prev[j] && states[j + 1] == prev[j + 1]);
                }
            }
            assert forall|j: int| i + 1 <= j < file_ids@.len() implies has_file(db.files@, #[trigger] file_ids@[j]) by {
                assert(file_ids@[j] != file_ids@[i as int]);
            }
        }
        i = i + 1;
    }
    Ok(file_ids.len())
}

/// Deletes the groups `group_ids` one after the other, as `delete_group`
/// does, and returns how many were deleted. When one of them is missing or
/// named twice, nothing changes and the answer is `GroupNotFound`.
pub fn delete_groups_by_ids(db: &mut Database, group_ids: Vec<i32>) -> (r: Result<usize, AppError>)
    requires
        old(db).wf(),
    ensures
        final(db).wf(),
        same_next_ids(*old(db), *final(db)),
        r is Ok <==> (forall|i: int| 0 <= i < group_ids@.len() ==> has_group(old(db).groups@, #[trigger] group_ids@[i]))
            && group_ids@.no_duplicates(),
        r is Err ==> r == Err::<usize, AppError>(AppError::GroupNotFound) && *final(db) == *old(db),
        r is Ok ==> r == Ok::<usize, AppError>(group_ids@.len() as usize) && exists|states: Seq<Database>|
            groups_deleted_in_turn(states, group_ids@) && states[0] == *old(db) && states.last() == *final(db),
{
    let mut i: usize = 0;
    while i < group_ids.len()
        invariant
            db.wf(),
            i <= group_ids@.len(),
            forall|j: int| 0 <= j < i ==> has_group(db.groups@, #[trigger] group_ids@[j]),
        decreases group_ids@.len() - i,
    {
        if db.find_group_index(group_ids[i]).is_none() {
            return Err(AppError::GroupNotFound);
        }
        i = i + 1;
    }
    if !distinct_ids(&group_ids) {
        return Err(AppError::GroupNotFound);
    }
    let ghost o = *db;
    let ghost mut states: Seq<Database> = seq![*db];
    let mut i: usize = 0;
    while i < group_ids.len()
        invariant
            db.wf(),
            same_next_ids(o, *db),
            o.wf(),
            i <= group_ids@.len(),
            group_ids@.no_duplicates(),
            states.len() == i + 1,
            states[0] == o,
            states.last() == *db,
            forall|j: int| 0 <= j < i ==> group_deleted(states[j], states[j + 1], #[trigger] group_ids@[j]),
            forall|j: int| i <= j < group_ids@.len() ==> has_group(db.groups@, #[trigger] group_ids@[j]),
        decreases group_ids@.len() - i,
    {
        let ghost pre = *db;
        let _ = delete_group(db, group_ids[i]);
        proof {
            lemma_group_deleted_keeps(pre, *db, group_ids@[i as int]);
            let prev = states;
            states = states.push(*db);
            assert forall|j: int| 0 <= j < i + 1 implies group_deleted(states[j], states[j + 1], #[trigger] group_ids@[j]) by {
                if j < i {
                    assert(states[j] == prev[j] && states[j + 1] == prev[j + 1]);
                }
            }
            assert forall|j: int| i + 1 <= j < group_ids@.len() implies has_group(db.groups@, #[trigger] group_ids@[j]) by {
                assert(group_ids@[j] != group_ids@[i as int]);
            }
        }
        i = i + 1;
    }
    Ok(group_ids.len())
}

/// The number of steps of `states` that deleted a tag that was there.
pub open spec fn tags_removed(states: Seq<Database>, ids: Seq<i32>) -> nat
    decreases ids.len(),
{
    if ids.len() == 0 {
        0
    } else {
        let k = ids.len() - 1;
        tags_removed(states, ids.drop_last()) + if has_tag(states[k].tags@, ids[k]) {
            1nat
        } else {
            0nat
        }
    }
}

/// Deletes the tags `tag_ids` one after the other, as `delete_tag` does,
/// and returns how many tags were deleted (a missing id deletes nothing).
pub fn delete_tags_by_ids(db: &mut Database, tag_ids: Vec<i32>) -> (r: Result<usize, AppError>)
    requires
        old(db).wf(),
    ensures
        final(db).wf(),
        same_next_ids(*old(db), *final(db)),
        match r {
            Ok(c) => exists|states: Seq<Database>|
                tags_deleted_in_turn(states, tag_ids@) && states[0] == *old(db) && states.last() == *final(db)
                    && c == tags_removed(states, tag_ids@),
            Err(_) => false,
        },
{
    let ghost o = *db;
    let ghost mut states: Seq<Database> = seq![*db];
    let mut total: usize = 0;
    let mut i: usize = 0;
    while i < tag_ids.len()
        invariant
            db.wf(),
            same_next_ids(o, *db),
            i <= tag_ids@.len(),
            states.len() == i + 1,
            states[0] == o,
            states.last() == *db,
            forall|j: int| 0 <= j < i ==> tag_deleted(states[j], states[j + 1], #[trigger] tag_ids@[j]),
            total == tags_removed(states, tag_ids@.take(i as int)),
            total <= i,
        decreases tag_ids@.len() - i,
    {
        let ghost pre = *db;
        let c = match delete_tag(db, tag_ids[i]) {
            Ok(c) => c,
            Err(_) => 0,
        };
        proof {
            let prev = states;
            states = states.push(*db);
            assert(tag_deleted(pre, *db, tag_ids@[i as int]));
            assert(states[i as int] == pre);
            assert forall|j: int| 0 <= j < i + 1 implies tag_deleted(states[j], states[j + 1], #[trigger] tag_ids@[j]) by {
                if j < i {
                    assert(states[j] == prev[j] && states[j + 1] == prev[j + 1]);
                }
            }
            assert(tag_ids@.take(i + 1).drop_last() =~= tag_ids@.take(i as int));
            lemma_tags_removed_prefix(prev, states, tag_ids@.take(i as int));
        }
        total = total + c;
        i = i + 1;
    }
    proof {
        assert(tag_ids@.take(i as int) =~= tag_ids@);
    }
    Ok(total)
}

/// Counting removed tags looks only at the states before each step.
proof fn lemma_tags_removed_prefix(a: Seq<Database>, b: Seq<Database>, ids: Seq<i32>)
    requires
        a.len() >= ids.len(),
        b.len() >= ids.len(),
        forall|j: int| 0 <= j < ids.len() ==> a[j] == b[j],
    ensures
        tags_removed(a, ids) == tags_removed(b, ids),
    decreases ids.len(),
{
    if ids.len() > 0 {
        lemma_tags_removed_prefix(a, b, ids.drop_last());
    }
}

/// The ids of the files of `v`, in order.
pub open spec fn ids_of_files(v: Seq<File>) -> Seq<i32> {
    v.map_values(|f: File| f.id)
}

/// The ids of the groups of `v`, in order.
pub open spec fn ids_of_groups(v: Seq<Group>) -> Seq<i32> {
    v.map_values(|g: Group| g.id)
}

/// The ids of the tags of `v`, in order.
pub open spec fn ids_of_tags(v: Seq<Tag>) -> Seq<i32> {
    v.map_values(|t: Tag| t.id)
}

/// A selection of files with distinct ids holds stored files with
/// distinct ids.
proof fn lemma_selected_files(fs: Seq<File>, cs: Seq<FileCondition>)
    requires
        forall|i: int, j: int| 0 <= i < fs.len() && 0 <= j < fs.len() && i != j ==> (#[trigger] fs[i]).id != (#[trigger] fs[j]).id,
    ensures
        ids_of_files(files_where(fs, cs)).no_duplicates(),
        forall|i: int| 0 <= i < files_where(fs, cs).len() ==> has_file(fs, #[trigger] files_where(fs, cs)[i].id),
    decreases fs.len(),
{
    if fs.len() > 0 {
        let p = fs.drop_last();
        lemma_selected_files(p, cs);
        let rp = files_where(p, cs);
        let r = files_where(fs, cs);
        assert forall|i: int| 0 <= i < rp.len() implies has_file(fs, #[trigger] rp[i].id) by {
            let j = choose|j: int| 0 <= j < p.len() && (#[trigger] p[j]).id == rp[i].id;
            assert(fs[j] == p[j]);
        }
        assert forall|i: int| 0 <= i < rp.len() implies #[trigger] rp[i].id != fs.last().id by {
            let j = choose|j: int| 0 <= j < p.len() && (#[trigger] p[j]).id == rp[i].id;
            assert(fs[j] == p[j]);
            assert(fs[j].id != fs[fs.len() - 1].id);
        }
        assert(has_file(fs, fs.last().id)) by {
            assert(fs[fs.len() - 1].id == fs.last().id);
        }
        let r = files_where(fs, cs);
        if r.len() > rp.len() {
            assert(r == rp.push(fs.last()));
            let ir = ids_of_files(r);
            let ip = ids_of_files(rp);
            assert(ir =~= ip.push(fs.last().id));
            assert forall|a: int, b: int| 0 <= a < ir.len() && 0 <= b < ir.len() && a != b implies ir[a] != ir[b] by {
                if a < ip.len() && b < ip.len() {
                    assert(ip[a] != ip[b]);
                } else if a < ip.len() {
                    assert(ip[a] == rp[a].id);
                } else {
                    assert(ip[b] == rp[b].id);
                }
            }
        }
    }
}

/// A selection of groups with distinct ids holds stored groups with
/// distinct ids.
proof fn lemma_selected_groups(gs: Seq<Group>, cs: Seq<GroupCondition>)
    requires
        forall|i: int, j: int| 0 <= i < gs.len() && 0 <= j < gs.len() && i != j ==> (#[trigger] gs[i]).id != (#[trigger] gs[j]).id,
    ensures
        ids_of_groups(groups_where(gs, cs)).no_duplicates(),
        forall|i: int| 0 <= i < groups_where(gs, cs).len() ==> has_group(gs, #[trigger] groups_where(gs, cs)[i].id),
    decreases gs.len(),
{
    if gs.len() > 0 {
        let p = gs.drop_last();
        lemma_selected_groups(p, cs);
        let rp = groups_where(p, cs);
        assert forall|i: int| 0 <= i < rp.len() implies has_group(gs, #[trigger] rp[i].id) by {
            let j = choose|j: int| 0 <= j < p.len() && (#[trigger] p[j]).id == rp[i].id;
            assert(gs[j] == p[j]);
        }
        assert forall|i: int| 0 <= i < rp.len() implies #[trigger] rp[i].id != gs.last().id by {
            let j = choose|j: int| 0 <= j < p.len() && (#[trigger] p[j]).id == rp[i].id;
            assert(gs[j] == p[j]);
            assert(gs[j].id != gs[gs.len() - 1].id);
        }
        assert(has_group(gs, gs.last().id)) by {
            assert(gs[gs.len() - 1].id == gs.last().id);
        }
        let r = groups_where(gs, cs);
        if r.len() > rp.len() {
            assert(r == rp.push(gs.last()));
            let ir = ids_of_groups(r);
            let ip = ids_of_groups(rp);
            assert(ir =~= ip.push(gs.last().id));
            assert forall|a: int, b: int| 0 <= a < ir.len() && 0 <= b < ir.len() && a != b implies ir[a] != ir[b] by {
                if a < ip.len() && b < ip.len() {
                    assert(ip[a] != ip[b]);
                } else if a < ip.len() {
                    assert(ip[a] == rp[a].id);
                } else {
                    assert(ip[b] == rp[b].id);
                }
            }
        }
    }
}

/// Deletes every file that satisfies all of `conditions`, in table order,
/// each with its primary group, and returns how many were deleted.
pub fn delete_files_by_conditions(db: &mut Database, conditions: Vec<FileCondition>) -> (r: Result<usize, AppError>)
    requires
        old(db).wf(),
    ensures
        final(db).wf(),
        same_next_ids(*old(db), *final(db)),
        match r {
            Ok(c) => {
                &&& c == files_where(old(db).files@, conditions@).len()
                &&& exists|states: Seq<Database>|
                    states[0] == *old(db) && states.last() == *final(db) && files_deleted_in_turn(
                        states,
                        ids_of_files(files_where(old(db).files@, conditions@)),
                    )
            },
            Err(_) => false,
        },
{
    let ghost cs = conditions@;
    let found = match select_files_by_conditions_with_limit(db, conditions, None) {
        Ok(v) => v,
        Err(_) => Vec::new(),
    };
    let mut ids: Vec<i32> = Vec::new();
    let mut k: usize = 0;
    while k < found.len()
        invariant
            k <= found@.len(),
            ids@ == ids_of_files(found@.take(k as int)),
        decreases found@.len() - k,
    {
        ids.push(found[k].id);
        proof {
            assert(ids_of_files(found@.take(k + 1)) =~= ids_of_files(found@.take(k as int)).push(found@[k as int].id));
        }
        k = k + 1;
    }
    proof {
        assert(found@.take(k as int) =~= found@);
        lemma_selected_files(db.files@, cs);
        assert forall|i: int| 0 <= i < ids@.len() implies has_file(db.files@, #[trigger] ids@[i]) by {
            assert(ids@[i] == files_where(db.files@, cs)[i].id);
        }
    }
    delete_files_by_ids(db, ids)
}

/// Deletes every group that satisfies all of `conditions`, in table order,
/// as `delete_group` does, and returns how many were deleted.
pub fn delete_groups_by_conditions(db: &mut Database, conditions: Vec<GroupCondition>) -> (r: Result<usize, AppError>)
    requires
        old(db).wf(),
    ensures
        final(db).wf(),
        same_next_ids(*old(db), *final(db)),
        match r {
            Ok(c) => {
                &&& c == groups_where(old(db).groups@, conditions@).len()
                &&& exists|states: Seq<Database>|
                    states[0] == *old(db) && states.last() == *final(db) && groups_deleted_in_turn(
                        states,
                        ids_of_groups(groups_where(old(db).groups@, conditions@)),
                    )
            },
            Err(_) => false,
        },
{
    let ghost cs = conditions@;
    let found = match select_groups_by_conditions_with_limit(db, conditions, None) {
        Ok(v) => v,
        Err(_) => Vec::new(),
    };
    let mut ids: Vec<i32> = Vec::new();
    let mut k: usize = 0;
    while k < found.len()
        invariant
            k <= found@.len(),
            ids@ == ids_of_groups(found@.take(k as int)),
        decreases found@.len() - k,
    {
        ids.push(found[k].id);
        proof {
            assert(ids_of_groups(found@.take(k + 1)) =~= ids_of_groups(found@.take(k as int)).push(found@[k as int].id));
        }
        k = k + 1;
    }
    proof {
        assert(found@.take(k as int) =~= found@);
        lemma_selected_groups(db.groups@, cs);
        assert forall|i: int| 0 <= i < ids@.len() implies has_group(db.groups@, #[trigger] ids@[i]) by {
            assert(ids@[i] == groups_where(db.groups@, cs)[i].id);
        }
    }
    delete_groups_by_ids(db, ids)
}

/// Deletes every tag that satisfies all of `conditions`, in table order,
/// with its links to groups, and returns how many were deleted.
pub fn delete_tags_by_conditions(db: &mut Database, conditions: Vec<TagCondition>) -> (r: Result<usize, AppError>)
    requires
        old(db).wf(),
    ensures
        final(db).wf(),
        same_next_ids(*old(db), *final(db)),
        match r {
            Ok(c) => exists|states: Seq<Database>|
                states[0] == *old(db) && states.last() == *final(db) && tags_deleted_in_turn(
                    states,
                    ids_of_tags(tags_where(old(db).tags@, conditions@)),
                ) && c == tags_removed(states, ids_of_tags(tags_where(old(db).tags@, conditions@))),
            Err(_) => false,
        },
{
    let ghost cs = conditions@;
    let found = match select_tags_by_conditions(db, conditions, None) {
        Ok(v) => v,
        Err(_) => Vec::new(),
    };
    let mut ids: Vec<i32> = Vec::new();
    let mut k: usize = 0;
    while k < found.len()
        invariant
            k <= found@.len(),
            ids@ == ids_of_tags(found@.take(k as int)),
        decreases found@.len() - k,
    {
        ids.push(found[k].id);
        proof {
            assert(ids_of_tags(found@.take(k + 1)) =~= ids_of_tags(found@.take(k as int)).push(found@[k as int].id));
        }
        k = k + 1;
    }
    proof {
        assert(found@.take(k as int) =~= found@);
    }
    delete_tags_by_ids(db, ids)
}

/// `states` goes from its first catalogue to its last by updating the files
/// `ids` one after the other with `dto`.
pub open spec fn files_updated_in_turn(states: Seq<Database>, ids: Seq<i32>, dto: UpdateFileDTO) -> bool {
    &&& states.len() == ids.len() + 1
    &&& forall|i: int| 0 <= i < ids.len() ==> #[trigger] updated_at(states, ids, i, dto)
}

/// The `i`-th step of `states` updates file `ids[i]` with `dto`.
pub open spec fn updated_at(states: Seq<Database>, ids: Seq<i32>, i: int, dto: UpdateFileDTO) -> bool {
    states[i + 1].wf() && file_update_done(states[i], states[i + 1], ids[i], dto)
}

proof fn lemma_updated_prefix(states: Seq<Database>, ids: Seq<i32>, i: int, dto: UpdateFileDTO)
    requires
        0 <= i <= ids.len(),
        states.len() == i + 1,
        forall|j: int| 0 <= j < i ==> #[trigger] updated_at(states, ids, j, dto),
    ensures
        files_updated_in_turn(states, ids.take(i), dto),
{
    let p = ids.take(i);
    assert forall|j: int| 0 <= j < p.len() implies #[trigger] updated_at(states, p, j, dto) by {
        assert(updated_at(states, ids, j, dto));
        assert(p[j] == ids[j]);
    }
}

/// Updates the files `ids` of `work` one after the other with `dto`,
/// stopping at the first update that fails.
fn update_files_in_turn(work: &mut Database, ids: &Vec<i32>, dto: &UpdateFileDTO) -> (r: Result<(), AppError>)
    requires
        old(work).wf(),
        dto.reference_count is None,
    ensures
        final(work).wf(),
        same_next_ids(*old(work), *final(work)),
        match r {
            Ok(()) => exists|states: Seq<Database>|
                files_updated_in_turn(states, ids@, *dto) && states[0] == *old(work) && states.last() == *final(work),
            Err(e) => exists|states: Seq<Database>, k: int|
                0 <= k < ids@.len() && files_updated_in_turn(states, ids@.take(k), *dto) && states[0] == *old(work)
                    && update_file_error(states.last(), ids@[k], *dto) == Some(e),
        },
{
    let ghost w0 = *work;
    let ghost mut states: Seq<Database> = seq![*work];
    let mut i: usize = 0;
    while i < ids.len()
        invariant
            work.wf(),
            same_next_ids(w0, *work),
            i <= ids@.len(),
            states.len() == i + 1,
            states[0] == w0,
            w0 == *old(work),
            states.last() == *work,
            dto.reference_count is None,
            forall|j: int| 0 <= j < i ==> #[trigger] updated_at(states, ids@, j, *dto),
        decreases ids@.len() - i,
    {
        let ghost pre = *work;
        match update_file_by_id(work, ids[i], dto.duplicate()) {
            Ok(_) => {},
            Err(e) => {
                proof {
                    lemma_updated_prefix(states, ids@, i as int, *dto);
                    assert(states.last() == pre);
                }
                return Err(e);
            },
        }
        proof {
            let prev = states;
            states = states.push(*work);
            assert forall|j: int| 0 <= j < i + 1 implies #[trigger] updated_at(states, ids@, j, *dto) by {
                if j < i {
                    assert(updated_at(prev, ids@, j, *dto));
                    assert(states[j] == prev[j] && states[j + 1] == prev[j + 1]);
                }
            }
        }
        i = i + 1;
    }
    proof {
        lemma_updated_prefix(states, ids@, i as int, *dto);
        assert(ids@.take(i as int) =~= ids@);
    }
    Ok(())
}

/// Updates every file that satisfies all of `conditions`, in table order,
/// with `dto` as `update_file_by_id` does, and returns how many were
/// updated. When one update fails, nothing changes and its error is the
/// answer, as the rolled back transaction gives.
pub fn update_files_by_conditions(db: &mut Database, conditions: Vec<FileCondition>, dto: UpdateFileDTO) -> (r: Result<usize, AppError>)
    requires
        old(db).wf(),
    ensures
        final(db).wf(),
        same_next_ids(*old(db), *final(db)),
        match r {
            Ok(c) => {
                let ids = ids_of_files(files_where(old(db).files@, conditions@));
                &&& dto.reference_count is None
                &&& c == ids.len()
                &&& exists|states: Seq<Database>|
                    files_updated_in_turn(states, ids, dto) && same_catalogue(states[0], *old(db)) && states.last()
                        == *final(db)
            },
            Err(e) => {
                let ids = ids_of_files(files_where(old(db).files@, conditions@));
                &&& *final(db) == *old(db)
                &&& if dto.reference_count is Some {
                    e == AppError::CannotModifyReferenceCount
                } else {
                    exists|states: Seq<Database>, k: int|
                        0 <= k < ids.len() && files_updated_in_turn(states, ids.take(k), dto) && same_catalogue(
                            states[0],
                            *old(db),
                        ) && update_file_error(states.last(), ids[k], dto) == Some(e)
                }
            },
        },
{
    if dto.reference_count.is_some() {
        return Err(AppError::CannotModifyReferenceCount);
    }
    let ghost o = *db;
    let ghost cs = conditions@;
    let found = match select_files_by_conditions_with_limit(db, conditions, None) {
        Ok(v) => v,
        Err(_) => Vec::new(),
    };
    let mut ids: Vec<i32> = Vec::new();
    let mut k: usize = 0;
    while k < found.len()
        invariant
            k <= found@.len(),
            ids@ == ids_of_files(found@.take(k as int)),
        decreases found@.len() - k,
    {
        ids.push(found[k].id);
        proof {
            assert(ids_of_files(found@.take(k + 1)) =~= ids_of_files(found@.take(k as int)).push(found@[k as int].id));
        }
        k = k + 1;
    }
    proof {
        assert(found@.take(k as int) =~= found@);
    }
    let mut work = db.duplicate();
    proof {
        lemma_wf_same_catalogue(*db, work);
    }
    match update_files_in_turn(&mut work, &ids, &dto) {
        Ok(()) => {},
        Err(e) => {
            return Err(e);
        },
    }
    *db = work;
    Ok(ids.len())
}

} // verus!

//! Groups: creation, lookups, updates that leave the catalogue's own fields
//! alone, and deletion, which for a primary group takes its file along.
use vstd::prelude::*;
use crate::sorting::{groups_sorted, sort_groups};
use crate::query::{group_eval_all, lemma_group_eval_all_push_opt, like_match, groups_where, eval_all_group_conditions, take_limit, apply_limit, push_opt, skip_offset, apply_offset};
use crate::cascade::purged;
use crate::errors::{AppError, DbError};
use crate::models::{CreateGroupDTO, FileGroupDTO, Group, GroupCondition, GroupFilter, GroupOrderBy, GroupQueryOptions, GroupRelation, GroupTagDTO, GroupTreeNode, UpdateGroupDTO, copy_text};
use crate::service::group_relations::children_ids;
use crate::rows::{lemma_wf_same_shape, same_shape};
use crate::store::{same_next_ids, group_of, has_group, is_primary_group, Database};
use crate::text::str_eq;

pub use crate::service::batch::{delete_groups_by_conditions, delete_groups_by_ids};
verus! {

/// `n` is `o` with group `id` added, named as `dto` says, with no
/// references, clicks or shares, not primary, and modified when created.
pub open spec fn group_created(o: Database, n: Database, dto: CreateGroupDTO, id: i32) -> bool {
    &&& id == o.next_group_id
    &&& n.groups@ == o.groups@.push(Group {
        id,
        name: n.groups@.last().name,
        reference_count: 0,
        is_primary: false,
        click_count: 0,
        share_count: 0,
        create_time: n.groups@.last().create_time,
        modify_time: n.groups@.last().create_time,
        description: dto.description,
    })
    &&& n.groups@.last().name@ == dto.name@
    &&& n.files@ == o.files@
    &&& n.tags@ == o.tags@
    &&& n.file_groups@ == o.file_groups@
    &&& n.group_tags@ == o.group_tags@
    &&& n.group_relations@ == o.group_relations@
    &&& n.next_group_id == o.next_group_id + 1
    &&& n.next_file_id == o.next_file_id
    &&& n.next_tag_id == o.next_tag_id
}

/// `e` is why a group as `dto` describes cannot be added to `o`: its name
/// is taken, or no group id is left.
pub open spec fn group_creation_refused(o: Database, dto: CreateGroupDTO, e: AppError) -> bool {
    &&& (e == AppError::DatabaseError(DbError::UniqueViolation) <==> exists|i: int|
        0 <= i < o.groups@.len() && (#[trigger] o.groups@[i]).name@ == dto.name@)
    &&& (e == AppError::DatabaseError(DbError::UniqueViolation) || e == AppError::DatabaseError(DbError::IdExhausted))
    &&& (e == AppError::DatabaseError(DbError::IdExhausted) ==> o.next_group_id == i32::MAX)
}

/// Creates a group named `dto.name`, created and modified at `now`, and
/// returns its id. A name that some group has already is refused.
pub fn create_group_at(db: &mut Database, dto: &CreateGroupDTO, now: i64) -> (r: Result<i32, AppError>)
    requires
        old(db).wf(),
    ensures
        final(db).wf(),
        match r {
            Ok(id) => group_created(*old(db), *final(db), *dto, id) && final(db).groups@.last().create_time == now,
            Err(e) => group_creation_refused(*old(db), *dto, e) && *final(db) == *old(db),
        },
{
    db.insert_group(dto.name.as_str(), copy_text(&dto.description), now)
}

/// How far the system clock is from the Unix epoch, in whole seconds, read
/// with `std::time::SystemTime::now().duration_since(UNIX_EPOCH)`: `Ok` with
/// the seconds after the epoch, or `Err` with the seconds before it when the
/// clock reads an earlier time. Nothing is stated of the value: it is the
/// system clock's.
#[verifier::external_body]
fn clock_offset() -> (r: Result<u64, u64>) {
    match std::time::SystemTime::now().duration_since(std::time::UNIX_EPOCH) {
        Ok(d) => Ok(d.as_secs()),
        Err(e) => Err(e.duration().as_secs()),
    }
}

/// Seconds since the Unix epoch for a clock offset: the seconds after it,
/// or the negated seconds before it, held to `-i64::MAX ..= i64::MAX`.
pub open spec fn offset_seconds(o: Result<u64, u64>) -> int {
    match o {
        Ok(s) => if s <= i64::MAX { s as int } else { i64::MAX as int },
        Err(s) => if s <= i64::MAX { -(s as int) } else { -(i64::MAX as int) },
    }
}

/// Whole seconds since the Unix epoch for the clock offset `o` (`Ok` after
/// the epoch, `Err` before it), held to the range of `i64`.
pub fn seconds_from_offset(o: Result<u64, u64>) -> (r: i64)
    ensures
        r == offset_seconds(o),
{
    match o {
        Ok(s) => if s <= 0x7fff_ffff_ffff_ffffu64 {
            s as i64
        } else {
            i64::MAX
        },
        Err(s) => if s <= 0x7fff_ffff_ffff_ffffu64 {
            -(s as i64)
        } else {
            -i64::MAX
        },
    }
}

/// Whole seconds since the Unix epoch by the system clock, negative before
/// it, as `seconds_from_offset` gives them for the clock's offset.
pub fn now_seconds() -> (r: i64)
    ensures
        exists|o: Result<u64, u64>| r == offset_seconds(o),
{
    let o = clock_offset();
    seconds_from_offset(o)
}

/// Creates a group named `dto.name`, created and modified now, and returns
/// its id. A name that some group has already is refused.
pub fn create_group(db: &mut Database, dto: &CreateGroupDTO) -> (r: Result<i32, AppError>)
    requires
        old(db).wf(),
    ensures
        final(db).wf(),
        match r {
            Ok(id) => group_created(*old(db), *final(db), *dto, id),
            Err(e) => group_creation_refused(*old(db), *dto, e) && *final(db) == *old(db),
        },
{
    let now = now_seconds();
    create_group_at(db, dto, now)
}

/// The first group named `name`, if there is one.
pub fn find_group_by_name(db: &Database, name: &str) -> (r: Result<Option<Group>, AppError>)
    ensures
        match r {
            Ok(Some(g)) => exists|i: int|
                0 <= i < db.groups@.len() && db.groups@[i] == g && g.name@ == name@ && forall|j: int|
                    0 <= j < i ==> (#[trigger] db.groups@[j]).name@ != name@,
            Ok(None) => forall|i: int| 0 <= i < db.groups@.len() ==> (#[trigger] db.groups@[i]).name@ != name@,
            Err(_) => false,
        },
{
    let mut i: usize = 0;
    while i < db.groups.len()
        invariant
            i <= db.groups@.len(),
            forall|j: int| 0 <= j < i ==> (#[trigger] db.groups@[j]).name@ != name@,
        decreases db.groups@.len() - i,
    {
        if str_eq(db.groups[i].name.as_str(), name) {
            return Ok(Some(db.groups[i].clone()));
        }
        i = i + 1;
    }
    Ok(None)
}

/// The group with id `group_id`, if there is one.
pub fn find_group_by_id(db: &Database, group_id: i32) -> (r: Option<Group>)
    requires
        db.ids_ok(),
    ensures
        r is Some <==> has_group(db.groups@, group_id),
        r is Some ==> r == Some(group_of(db.groups@, group_id)),
{
    match db.find_group_index(group_id) {
        Some(i) => {
            proof {
                db.lemma_group_at(i as int);
            }
            Some(db.groups[i].clone())
        },
        None => None,
    }
}

/// The group with id `group_id`; a missing group is reported as `NotFound`.
pub fn get_group_by_id(db: &Database, group_id: i32) -> (r: Result<Group, AppError>)
    requires
        db.ids_ok(),
    ensures
        r is Ok <==> has_group(db.groups@, group_id),
        r is Ok ==> r == Ok::<Group, AppError>(group_of(db.groups@, group_id)),
        r is Err ==> r == Err::<Group, AppError>(AppError::DatabaseError(DbError::NotFound)),
{
    match find_group_by_id(db, group_id) {
        Some(g) => Ok(g),
        None => Err(AppError::DatabaseError(DbError::NotFound)),
    }
}

/// The file that owns group `gid` as its primary group, if any.
pub open spec fn owner_of(db: Database, gid: i32) -> Option<i32> {
    if exists|i: int| 0 <= i < db.files@.len() && (#[trigger] db.files@[i]).group_id == gid {
        Some(db.files@[choose|i: int| 0 <= i < db.files@.len() && (#[trigger] db.files@[i]).group_id == gid].id)
    } else {
        None
    }
}

impl Database {
    /// Position of the file whose primary group is `gid`.
    pub fn find_owner(&self, gid: i32) -> (r: Option<usize>)
        ensures
            match r {
                Some(i) => i < self.files@.len() && self.files@[i as int].group_id == gid,
                None => forall|i: int| 0 <= i < self.files@.len() ==> (#[trigger] self.files@[i]).group_id != gid,
            },
    {
        let mut i: usize = 0;
        while i < self.files.len()
            invariant
                i <= self.files@.len(),
                forall|j: int| 0 <= j < i ==> (#[trigger] self.files@[j]).group_id != gid,
            decreases self.files@.len() - i,
        {
            if self.files[i].group_id == gid {
                return Some(i);
            }
            i = i + 1;
        }
        None
    }
}

/// Deletes group `group_id` with every link and relation that names it. A
/// primary group takes its file along, with all of the file's links. The
/// records on the other end of each removed link lose one reference.
/// Returns the number of groups deleted; a missing group is `GroupNotFound`.
pub fn delete_group(db: &mut Database, group_id: i32) -> (r: Result<usize, AppError>)
    requires
        old(db).wf(),
    ensures
        final(db).wf(),
        same_next_ids(*old(db), *final(db)),
        r is Err <==> !has_group(old(db).groups@, group_id),
        r is Err ==> r == Err::<usize, AppError>(AppError::GroupNotFound) && *final(db) == *old(db),
        r is Ok ==> r == Ok::<usize, AppError>(1) && purged(*old(db), *final(db), owner_of(*old(db), group_id), group_id),
{
    let gi = match db.find_group_index(group_id) {
        Some(i) => i,
        None => {
            return Err(AppError::GroupNotFound);
        },
    };
    proof {
        db.lemma_group_at(gi as int);
    }
    let owner = if db.groups[gi].is_primary {
        db.find_owner(group_id)
    } else {
        proof {
            assert forall|i: int| 0 <= i < db.files@.len() implies (#[trigger] db.files@[i]).group_id != group_id by {
                assert(is_primary_group(db.groups@, db.files@[i].group_id));
            }
        }
        None
    };
    proof {
        let o = *db;
        match owner {
            Some(fi) => {
                let c = choose|i: int| 0 <= i < o.files@.len() && (#[trigger] o.files@[i]).group_id == group_id;
                if c != fi as int {
                    assert(o.files@[c].group_id != o.files@[fi as int].group_id);
                }
            },
            None => {},
        }
    }
    db.purge(owner, group_id);
    Ok(1)
}

/// The error with which updating group `gid` with `dto` fails, if it does.
/// The primary flag, the reference count and the id belong to the
/// catalogue; a new name must not be another group's.
pub open spec fn update_group_error(db: Database, gid: i32, dto: UpdateGroupDTO) -> Option<AppError> {
    if dto.is_primary is Some {
        Some(AppError::CannotModifyPrimaryStatus)
    } else if dto.reference_count is Some {
        Some(AppError::CannotModifyReferenceCount)
    } else if (dto.id matches Some(x) && x != gid) {
        Some(AppError::CannotModifyId)
    } else if has_group(db.groups@, gid) && (dto.name matches Some(nm) && exists|j: int|
        0 <= j < db.groups@.len() && (#[trigger] db.groups@[j]).id != gid && db.groups@[j].name@ == nm@) {
        Some(AppError::DatabaseError(DbError::UniqueViolation))
    } else {
        None
    }
}

/// Every field that `dto` gives, `g` holds: the name, the click and share
/// counts, the two times and the description.
pub open spec fn group_shows_update(g: Group, dto: UpdateGroupDTO) -> bool {
    &&& (dto.name matches Some(x) ==> g.name == x)
    &&& (dto.click_count matches Some(x) ==> g.click_count == x)
    &&& (dto.share_count matches Some(x) ==> g.share_count == x)
    &&& (dto.create_time matches Some(x) ==> g.create_time == x)
    &&& (dto.modify_time matches Some(x) ==> g.modify_time == x)
    &&& (dto.description matches Some(x) ==> g.description == Some(x))
}

/// An updated group holds every field that the update gives.
pub proof fn lemma_group_updated_shows(g: Group, dto: UpdateGroupDTO)
    ensures
        group_shows_update(group_updated(g, dto), dto),
{
}

/// Group `g` with the fields that `dto` sets replaced.
pub open spec fn group_updated(g: Group, dto: UpdateGroupDTO) -> Group {
    Group {
        name: match dto.name {
            Some(x) => x,
            None => g.name,
        },
        click_count: match dto.click_count {
            Some(x) => x,
            None => g.click_count,
        },
        share_count: match dto.share_count {
            Some(x) => x,
            None => g.share_count,
        },
        create_time: match dto.create_time {
            Some(x) => x,
            None => g.create_time,
        },
        modify_time: match dto.modify_time {
            Some(x) => x,
            None => g.modify_time,
        },
        description: match dto.description {
            Some(x) => Some(x),
            None => g.description,
        },
        ..g
    }
}

impl Database {
    /// Whether a group other than `gid` is named `name`.
    pub fn group_name_taken_by_other(&self, name: &str, gid: i32) -> (r: bool)
        ensures
            r == exists|j: int|
                0 <= j < self.groups@.len() && (#[trigger] self.groups@[j]).id != gid && self.groups@[j].name@
                    == name@,
    {
        let mut i: usize = 0;
        while i < self.groups.len()
            invariant
                i <= self.groups@.len(),
                forall|j: int| 0 <= j < i ==> !((#[trigger] self.groups@[j]).id != gid && self.groups@[j].name@ == name@),
            decreases self.groups@.len() - i,
        {
            if self.groups[i].id != gid && str_eq(self.groups[i].name.as_str(), name) {
                return true;
            }
            i = i + 1;
        }
        false
    }
}

/// Sets the fields of group `group_id` that `dto` gives and returns the
/// number of groups changed: 1, or 0 when there is no such group.
pub fn update_group_by_id(db: &mut Database, group_id: i32, dto: UpdateGroupDTO) -> (r: Result<usize, AppError>)
    requires
        old(db).wf(),
    ensures
        final(db).wf(),
        same_next_ids(*old(db), *final(db)),
        r == Ok::<usize, AppError>(1) ==> forall|j: int|
            0 <= j < final(db).groups@.len() && (#[trigger] final(db).groups@[j]).id == group_id ==> group_shows_update(
                final(db).groups@[j],
                dto,
            ),
        match r {
            Ok(c) => {
                &&& update_group_error(*old(db), group_id, dto) is None
                &&& (c == 1) == has_group(old(db).groups@, group_id)
                &&& (c == 0) == !has_group(old(db).groups@, group_id)
                &&& c == 0 ==> *final(db) == *old(db)
                &&& c == 1 ==> exists|gi: int|
                    0 <= gi < old(db).groups@.len() && (#[trigger] old(db).groups@[gi]).id == group_id
                        && final(db).groups@ == old(db).groups@.update(gi, group_updated(old(db).groups@[gi], dto))
                &&& final(db).files@ == old(db).files@
                &&& final(db).tags@ == old(db).tags@
                &&& final(db).file_groups@ == old(db).file_groups@
                &&& final(db).group_tags@ == old(db).group_tags@
                &&& final(db).group_relations@ == old(db).group_relations@
            },
            Err(e) => {
                &&& update_group_error(*old(db), group_id, dto) == Some(e)
                &&& *final(db) == *old(db)
            },
        },
{
    if dto.is_primary.is_some() {
        return Err(AppError::CannotModifyPrimaryStatus);
    }
    if dto.reference_count.is_some() {
        return Err(AppError::CannotModifyReferenceCount);
    }
    match dto.id {
        Some(x) => {
            if x != group_id {
                return Err(AppError::CannotModifyId);
            }
        },
        None => {},
    }
    let gi = match db.find_group_index(group_id) {
        Some(i) => i,
        None => {
            return Ok(0);
        },
    };
    match &dto.name {
        Some(nm) => {
            if db.group_name_taken_by_other(nm.as_str(), group_id) {
                return Err(AppError::DatabaseError(DbError::UniqueViolation));
            }
        },
        None => {},
    }
    let ghost o = *db;
    let ghost d = dto;
    let mut g = db.groups[gi].clone();
    let UpdateGroupDTO { id: _, name, reference_count: _, is_primary: _, click_count, share_count, create_time, modify_time, description } = dto;
    match name {
        Some(x) => {
            g.name = x;
        },
        None => {},
    }
    match click_count {
        Some(x) => {
            g.click_count = x;
        },
        None => {},
    }
    match share_count {
        Some(x) => {
            g.share_count = x;
        },
        None => {},
    }
    match create_time {
        Some(x) => {
            g.create_time = x;
        },
        None => {},
    }
    match modify_time {
        Some(x) => {
            g.modify_time = x;
        },
        None => {},
    }
    match description {
        Some(x) => {
            g.description = Some(x);
        },
        None => {},
    }
    proof {
        assert(g == group_updated(o.groups@[gi as int], d));
        assert(group_shows_update(g, d));
    }
    db.groups.set(gi, g);
    proof {
        let n = *db;
        assert(same_shape(o, n));
        lemma_wf_same_shape(o, n);
        assert forall|j: int| 0 <= j < n.groups@.len() && (#[trigger] n.groups@[j]).id == group_id implies group_shows_update(
            n.groups@[j],
            d,
        ) by {
            if j != gi {
                assert(n.groups@[j].id != n.groups@[gi as int].id);
            }
        }
    }
    Ok(1)
}

/// Removes group `group_id` alone, as a table store with enforced foreign
/// keys does: refused while a file, a link or a relation names the group.
/// Returns the number of groups removed (0 when there is no such group).
pub fn delete_group_by_id(db: &mut Database, group_id: i32) -> (r: Result<usize, AppError>)
    requires
        old(db).wf(),
    ensures
        final(db).wf(),
        same_next_ids(*old(db), *final(db)),
        r == Ok::<usize, AppError>(0) <==> !has_group(old(db).groups@, group_id),
        r == Err::<usize, AppError>(AppError::DatabaseError(DbError::ForeignKeyViolation)) <==> (has_group(
            old(db).groups@,
            group_id,
        ) && group_referenced(*old(db), group_id)),
        r == Ok::<usize, AppError>(1) <==> (has_group(old(db).groups@, group_id) && !group_referenced(
            *old(db),
            group_id,
        )),
        r != Ok::<usize, AppError>(1) ==> *final(db) == *old(db),
        r == Ok::<usize, AppError>(1) ==> exists|gi: int|
            0 <= gi < old(db).groups@.len() && (#[trigger] old(db).groups@[gi]).id == group_id
                && final(db).groups@ == old(db).groups@.remove(gi),
        final(db).files@ == old(db).files@,
        final(db).tags@ == old(db).tags@,
        final(db).file_groups@ == old(db).file_groups@,
        final(db).group_tags@ == old(db).group_tags@,
        final(db).group_relations@ == old(db).group_relations@,
{
    let gi = match db.find_group_index(group_id) {
        Some(i) => i,
        None => {
            return Ok(0);
        },
    };
    if db.find_owner(group_id).is_some() || db.find_link_to_group(group_id).is_some()
        || db.find_tag_link_of_group(group_id).is_some() || db.find_relation_of_group(group_id).is_some() {
        return Err(AppError::DatabaseError(DbError::ForeignKeyViolation));
    }
    let ghost o = *db;
    db.remove_group_at(gi);
    proof {
        let n = *db;
        crate::cascade::lemma_primary_after_group_removal(o, n, gi as int);
    }
    Ok(1)
}

/// Some file, link or relation names group `gid`.
pub open spec fn group_referenced(db: Database, gid: i32) -> bool {
    ||| exists|i: int| 0 <= i < db.files@.len() && (#[trigger] db.files@[i]).group_id == gid
    ||| exists|k: int| 0 <= k < db.file_groups@.len() && (#[trigger] db.file_groups@[k]).group_id == gid
    ||| exists|k: int| 0 <= k < db.group_tags@.len() && (#[trigger] db.group_tags@[k]).group_id == gid
    ||| exists|k: int|
        0 <= k < db.group_relations@.len() && ((#[trigger] db.group_relations@[k]).first_group_id == gid
            || db.group_relations@[k].second_group_id == gid)
}

/// The groups that satisfy every condition of `conditions`, in table
/// order, cut to `limit` when a non-negative limit is given.
pub fn select_groups_by_conditions_with_limit(db: &Database, conditions: Vec<GroupCondition>, limit: Option<i64>) -> (r: Result<Vec<Group>, AppError>)
    ensures
        match r {
            Ok(v) => v@ == take_limit(groups_where(db.groups@, conditions@), limit),
            Err(_) => false,
        },
{
    let mut out: Vec<Group> = Vec::new();
    let mut i: usize = 0;
    while i < db.groups.len()
        invariant
            i <= db.groups@.len(),
            out@ == groups_where(db.groups@.take(i as int), conditions@),
        decreases db.groups@.len() - i,
    {
        proof {
            assert(db.groups@.take(i + 1).drop_last() =~= db.groups@.take(i as int));
        }
        match eval_all_group_conditions(&conditions, &db.groups[i]) {
            Some(true) => {
                out.push(db.groups[i].clone());
            },
            _ => {},
        }
        i = i + 1;
    }
    proof {
        assert(db.groups@.take(i as int) =~= db.groups@);
    }
    apply_limit(&mut out, limit);
    Ok(out)
}

/// A group `x` meets `filter` when it has every value the filter gives:
/// the same number or flag, and text matching the given SQL `LIKE` pattern.
pub open spec fn group_meets_filter(x: Group, filter: GroupFilter) -> bool {
    &&& (filter.id matches Some(v) ==> x.id == v)
    &&& (filter.name matches Some(v) ==> like_match(x.name@, v@))
    &&& (filter.reference_count matches Some(v) ==> x.reference_count == v)
    &&& (filter.is_primary matches Some(v) ==> x.is_primary == v)
    &&& (filter.click_count matches Some(v) ==> x.click_count == v)
    &&& (filter.share_count matches Some(v) ==> x.share_count == v)
    &&& (filter.create_time matches Some(v) ==> x.create_time == v)
    &&& (filter.modify_time matches Some(v) ==> x.modify_time == v)
    &&& (filter.description matches Some(v) ==> (x.description matches Some(d) && like_match(d@, v@)))
}

/// The conditions that a filter stands for are all true of a group exactly
/// when the group meets the filter.
#[verifier::rlimit(60)]
pub proof fn law_group_filter_meaning(filter: GroupFilter, x: Group)
    ensures
        (group_eval_all(group_filter_conditions(filter), x) == Some(true)) == group_meets_filter(x, filter),
{
    let f = filter;
    let s0 = Seq::<GroupCondition>::empty();
    let s1 = push_opt(s0, f.id is Some, GroupCondition::Id(f.id->0));
    lemma_group_eval_all_push_opt(s0, f.id is Some, GroupCondition::Id(f.id->0), x);
    let s2 = push_opt(s1, f.name is Some, GroupCondition::NameLike(f.name->0));
    lemma_group_eval_all_push_opt(s1, f.name is Some, GroupCondition::NameLike(f.name->0), x);
    let s3 = push_opt(s2, f.reference_count is Some, GroupCondition::ReferenceCount(f.reference_count->0));
    lemma_group_eval_all_push_opt(s2, f.reference_count is Some, GroupCondition::ReferenceCount(f.reference_count->0), x);
    let s4 = push_opt(s3, f.is_primary is Some, GroupCondition::IsPrimary(f.is_primary->0));
    lemma_group_eval_all_push_opt(s3, f.is_primary is Some, GroupCondition::IsPrimary(f.is_primary->0), x);
    let s5 = push_opt(s4, f.click_count is Some, GroupCondition::ClickCount(f.click_count->0));
    lemma_group_eval_all_push_opt(s4, f.click_count is Some, GroupCondition::ClickCount(f.click_count->0), x);
    let s6 = push_opt(s5, f.share_count is Some, GroupCondition::ShareCount(f.share_count->0));
    lemma_group_eval_all_push_opt(s5, f.share_count is Some, GroupCondition::ShareCount(f.share_count->0), x);
    let s7 = push_opt(s6, f.create_time is Some, GroupCondition::CreateTime(f.create_time->0));
    lemma_group_eval_all_push_opt(s6, f.create_time is Some, GroupCondition::CreateTime(f.create_time->0), x);
    let s8 = push_opt(s7, f.modify_time is Some, GroupCondition::ModifyTime(f.modify_time->0));
    lemma_group_eval_all_push_opt(s7, f.modify_time is Some, GroupCondition::ModifyTime(f.modify_time->0), x);
    let s9 = push_opt(s8, f.description is Some, GroupCondition::DescriptionLike(f.description->0));
    lemma_group_eval_all_push_opt(s8, f.description is Some, GroupCondition::DescriptionLike(f.description->0), x);
    assert(group_filter_conditions(filter) == s9);
}

/// The conditions that filter `f` stands for: equality on ids, numbers,
/// flags and times, `LIKE` on texts, one condition per field given.
pub open spec fn group_filter_conditions(f: GroupFilter) -> Seq<GroupCondition> {
    let s0 = Seq::<GroupCondition>::empty();
    let s1 = push_opt(s0, f.id is Some, GroupCondition::Id(f.id->0));
    let s2 = push_opt(s1, f.name is Some, GroupCondition::NameLike(f.name->0));
    let s3 = push_opt(s2, f.reference_count is Some, GroupCondition::ReferenceCount(f.reference_count->0));
    let s4 = push_opt(s3, f.is_primary is Some, GroupCondition::IsPrimary(f.is_primary->0));
    let s5 = push_opt(s4, f.click_count is Some, GroupCondition::ClickCount(f.click_count->0));
    let s6 = push_opt(s5, f.share_count is Some, GroupCondition::ShareCount(f.share_count->0));
    let s7 = push_opt(s6, f.create_time is Some, GroupCondition::CreateTime(f.create_time->0));
    let s8 = push_opt(s7, f.modify_time is Some, GroupCondition::ModifyTime(f.modify_time->0));
    let s9 = push_opt(s8, f.description is Some, GroupCondition::DescriptionLike(f.description->0));
    s9
}

/// The conditions that filter `filter` stands for.
pub fn group_filter_to_conditions(filter: GroupFilter) -> (r: Vec<GroupCondition>)
    ensures
        r@ == group_filter_conditions(filter),
        forall|x: Group| (#[trigger] group_eval_all(r@, x) == Some(true)) == group_meets_filter(x, filter),
{
    let ghost f = filter;
    let ghost mut acc: Seq<GroupCondition> = Seq::empty();
    let mut c: Vec<GroupCondition> = Vec::new();
    let GroupFilter { id, name, reference_count, is_primary, click_count, share_count, create_time, modify_time, description } = filter;
    match id {
        Some(x) => {
            c.push(GroupCondition::Id(x));
        },
        None => {},
    }
    proof {
        acc = push_opt(acc, f.id is Some, GroupCondition::Id(f.id->0));
        assert(c@ == acc);
    }
    match name {
        Some(x) => {
            c.push(GroupCondition::NameLike(x));
        },
        None => {},
    }
    proof {
        acc = push_opt(acc, f.name is Some, GroupCondition::NameLike(f.name->0));
        assert(c@ == acc);
    }
    match reference_count {
        Some(x) => {
            c.push(GroupCondition::ReferenceCount(x));
        },
        None => {},
    }
    proof {
        acc = push_opt(acc, f.reference_count is Some, GroupCondition::ReferenceCount(f.reference_count->0));
        assert(c@ == acc);
    }
    match is_primary {
        Some(x) => {
            c.push(GroupCondition::IsPrimary(x));
        },
        None => {},
    }
    proof {
        acc = push_opt(acc, f.is_primary is Some, GroupCondition::IsPrimary(f.is_primary->0));
        assert(c@ == acc);
    }
    match click_count {
        Some(x) => {
            c.push(GroupCondition::ClickCount(x));
        },
        None => {},
    }
    proof {
        acc = push_opt(acc, f.click_count is Some, GroupCondition::ClickCount(f.click_count->0));
        assert(c@ == acc);
    }
    match share_count {
        Some(x) => {
            c.push(GroupCondition::ShareCount(x));
        },
        None => {},
    }
    proof {
        acc = push_opt(acc, f.share_count is Some, GroupCondition::ShareCount(f.share_count->0));
        assert(c@ == acc);
    }
    match create_time {
        Some(x) => {
            c.push(GroupCondition::CreateTime(x));
        },
        None => {},
    }
    proof {
        acc = push_opt(acc, f.create_time is Some, GroupCondition::CreateTime(f.create_time->0));
        assert(c@ == acc);
    }
    match modify_time {
        Some(x) => {
            c.push(GroupCondition::ModifyTime(x));
        },
        None => {},
    }
    proof {
        acc = push_opt(acc, f.modify_time is Some, GroupCondition::ModifyTime(f.modify_time->0));
        assert(c@ == acc);
    }
    match description {
        Some(x) => {
            c.push(GroupCondition::DescriptionLike(x));
        },
        None => {},
    }
    proof {
        acc = push_opt(acc, f.description is Some, GroupCondition::DescriptionLike(f.description->0));
        assert(c@ == acc);
    }
    proof {
        assert forall|x: Group| (#[trigger] group_eval_all(c@, x) == Some(true)) == group_meets_filter(x, filter) by {
            law_group_filter_meaning(f, x);
        }
    }
    c
}

/// The groups that filter `filter` selects, in table order, cut to the
/// limit.
pub fn select_groups_by_filter_with_limit(db: &Database, filter: GroupFilter, limit: Option<i64>) -> (r: Result<Vec<Group>, AppError>)
    ensures
        match r {
            Ok(v) => v@ == take_limit(groups_where(db.groups@, group_filter_conditions(filter)), limit),
            Err(_) => false,
        },
        r matches Ok(v) ==> forall|i: int|
            0 <= i < v@.len() ==> db.groups@.contains(#[trigger] v@[i]) && group_meets_filter(v@[i], filter),
        r matches Ok(v) ==> (limit is None ==> forall|x: Group|
            db.groups@.contains(x) && group_meets_filter(x, filter) ==> #[trigger] v@.contains(x)),
{
    let r = select_groups_by_conditions_with_limit(db, group_filter_to_conditions(filter), limit);
    proof {
        let w = groups_where(db.groups@, group_filter_conditions(filter));
        crate::query::lemma_groups_where_members(db.groups@, group_filter_conditions(filter));
        assert forall|x: Group| #[trigger] w.contains(x) implies db.groups@.contains(x) && group_meets_filter(x, filter) by {
            law_group_filter_meaning(filter, x);
        }
        assert forall|x: Group| db.groups@.contains(x) && group_meets_filter(x, filter) implies #[trigger] w.contains(x) by {
            law_group_filter_meaning(filter, x);
        }
        if r is Ok {
            let v = r->Ok_0;
            assert forall|i: int| 0 <= i < v@.len() implies db.groups@.contains(#[trigger] v@[i]) && group_meets_filter(v@[i], filter) by {
                assert(v@[i] == w[i]);
                assert(w.contains(w[i]));
            }
        }
    }
    r
}

/// The groups that file `file_id` is linked to, one per link, in link order.
pub open spec fn groups_of_file(links: Seq<FileGroupDTO>, recs: Seq<Group>, x: i32) -> Seq<Group>
    decreases links.len(),
{
    if links.len() == 0 {
        Seq::empty()
    } else {
        let rest = groups_of_file(links.drop_last(), recs, x);
        if links.last().file_id == x {
            rest.push(group_of(recs, links.last().group_id))
        } else {
            rest
        }
    }
}

/// The records that `groups_of_file` lists from the first `n` links are exactly
/// the records that one of those links joins to `x`.
proof fn lemma_groups_of_file_members(db: Database, x: i32, n: int)
    requires
        db.core_ok(),
        0 <= n <= db.file_groups@.len(),
    ensures
        forall|g: Group|
            #[trigger] groups_of_file(db.file_groups@.take(n), db.groups@, x).contains(g) <==> (db.groups@.contains(g) && exists|k: int|
                0 <= k < n && (#[trigger] db.file_groups@[k]).file_id == x && db.file_groups@[k].group_id == g.id),
    decreases n,
{
    let links = db.file_groups@.take(n);
    if n > 0 {
        lemma_groups_of_file_members(db, x, n - 1);
        let prev = db.file_groups@.take(n - 1);
        assert(links.drop_last() =~= prev);
        let l = db.file_groups@[n - 1];
        assert(links.last() == l);
        let rest = groups_of_file(prev, db.groups@, x);
        assert(has_group(db.groups@, l.group_id));
        let hi = choose|i: int| 0 <= i < db.groups@.len() && (#[trigger] db.groups@[i]).id == l.group_id;
        db.lemma_group_at(hi);
        let h = group_of(db.groups@, l.group_id);
        assert(h == db.groups@[hi]);
        assert forall|g: Group|
            #[trigger] groups_of_file(links, db.groups@, x).contains(g) <==> (db.groups@.contains(g) && exists|k: int|
                0 <= k < n && (#[trigger] db.file_groups@[k]).file_id == x && db.file_groups@[k].group_id == g.id) by {
            let out = groups_of_file(links, db.groups@, x);
            if l.file_id == x {
                assert(out == rest.push(h));
            } else {
                assert(out == rest);
            }
            if out.contains(g) {
                let q = choose|q: int| 0 <= q < out.len() && out[q] == g;
                if q < rest.len() {
                    assert(rest[q] == g);
                    assert(rest.contains(g));
                    let k = choose|k: int|
                        0 <= k < n - 1 && (#[trigger] db.file_groups@[k]).file_id == x && db.file_groups@[k].group_id == g.id;
                    assert(db.file_groups@[k].file_id == x);
                } else {
                    assert(g == h);
                    assert(db.groups@.contains(g));
                    assert(db.file_groups@[n - 1].file_id == x);
                }
            }
            if db.groups@.contains(g) && exists|k: int|
                0 <= k < n && (#[trigger] db.file_groups@[k]).file_id == x && db.file_groups@[k].group_id == g.id {
                let k = choose|k: int| 0 <= k < n && (#[trigger] db.file_groups@[k]).file_id == x && db.file_groups@[k].group_id == g.id;
                if k < n - 1 {
                    assert(rest.contains(g));
                    let q = choose|q: int| 0 <= q < rest.len() && rest[q] == g;
                    assert(out[q] == g);
                } else {
                    let j = choose|j: int| 0 <= j < db.groups@.len() && db.groups@[j] == g;
                    db.lemma_group_at(j);
                    assert(g == h);
                    assert(out[rest.len() as int] == h);
                }
            }
        }
    }
}

/// The groups that file `file_id` is linked to.
pub fn select_group_by_file_id(db: &Database, file_id: i32) -> (r: Result<Vec<Group>, AppError>)
    requires
        db.core_ok(),
    ensures
        match r {
            Ok(v) => v@ == groups_of_file(db.file_groups@, db.groups@, file_id),
            Err(_) => false,
        },
        r matches Ok(v) ==> forall|g: Group|
            #[trigger] v@.contains(g) <==> (db.groups@.contains(g) && exists|k: int|
                0 <= k < db.file_groups@.len() && (#[trigger] db.file_groups@[k]).file_id == file_id && db.file_groups@[k].group_id == g.id),
{
    let mut out: Vec<Group> = Vec::new();
    let mut k: usize = 0;
    while k < db.file_groups.len()
        invariant
            db.core_ok(),
            k <= db.file_groups@.len(),
            out@ == groups_of_file(db.file_groups@.take(k as int), db.groups@, file_id),
        decreases db.file_groups@.len() - k,
    {
        proof {
            assert(db.file_groups@.take(k + 1).drop_last() =~= db.file_groups@.take(k as int));
        }
        if db.file_groups[k].file_id == file_id {
            let other = db.file_groups[k].group_id;
            proof {
                assert(has_group(db.groups@, db.file_groups@[k as int].group_id));
            }
            let j = db.find_group_index(other).unwrap();
            proof {
                db.lemma_group_at(j as int);
            }
            out.push(db.groups[j].clone());
        }
        k = k + 1;
    }
    proof {
        assert(db.file_groups@.take(k as int) =~= db.file_groups@);
    }
    proof {
        lemma_groups_of_file_members(*db, file_id, db.file_groups@.len() as int);
        assert(db.file_groups@.take(db.file_groups@.len() as int) =~= db.file_groups@);
    }
    Ok(out)
}

/// The groups that carry tag `tag_id`, one per link, in link order.
pub open spec fn groups_of_tag(links: Seq<GroupTagDTO>, recs: Seq<Group>, x: i32) -> Seq<Group>
    decreases links.len(),
{
    if links.len() == 0 {
        Seq::empty()
    } else {
        let rest = groups_of_tag(links.drop_last(), recs, x);
        if links.last().tag_id == x {
            rest.push(group_of(recs, links.last().group_id))
        } else {
            rest
        }
    }
}

/// The records that `groups_of_tag` lists from the first `n` links are exactly
/// the records that one of those links joins to `x`.
proof fn lemma_groups_of_tag_members(db: Database, x: i32, n: int)
    requires
        db.core_ok(),
        0 <= n <= db.group_tags@.len(),
    ensures
        forall|g: Group|
            #[trigger] groups_of_tag(db.group_tags@.take(n), db.groups@, x).contains(g) <==> (db.groups@.contains(g) && exists|k: int|
                0 <= k < n && (#[trigger] db.group_tags@[k]).tag_id == x && db.group_tags@[k].group_id == g.id),
    decreases n,
{
    let links = db.group_tags@.take(n);
    if n > 0 {
        lemma_groups_of_tag_members(db, x, n - 1);
        let prev = db.group_tags@.take(n - 1);
        assert(links.drop_last() =~= prev);
        let l = db.group_tags@[n - 1];
        assert(links.last() == l);
        let rest = groups_of_tag(prev, db.groups@, x);
        assert(has_group(db.groups@, l.group_id));
        let hi = choose|i: int| 0 <= i < db.groups@.len() && (#[trigger] db.groups@[i]).id == l.group_id;
        db.lemma_group_at(hi);
        let h = group_of(db.groups@, l.group_id);
        assert(h == db.groups@[hi]);
        assert forall|g: Group|
            #[trigger] groups_of_tag(links, db.groups@, x).contains(g) <==> (db.groups@.contains(g) && exists|k: int|
                0 <= k < n && (#[trigger] db.group_tags@[k]).tag_id == x && db.group_tags@[k].group_id == g.id) by {
            let out = groups_of_tag(links, db.groups@, x);
            if l.tag_id == x {
                assert(out == rest.push(h));
            } else {
                assert(out == rest);
            }
            if out.contains(g) {
                let q = choose|q: int| 0 <= q < out.len() && out[q] == g;
                if q < rest.len() {
                    assert(rest[q] == g);
                    assert(rest.contains(g));
                    let k = choose|k: int|
                        0 <= k < n - 1 && (#[trigger] db.group_tags@[k]).tag_id == x && db.group_tags@[k].group_id == g.id;
                    assert(db.group_tags@[k].tag_id == x);
                } else {
                    assert(g == h);
                    assert(db.groups@.contains(g));
                    assert(db.group_tags@[n - 1].tag_id == x);
                }
            }
            if db.groups@.contains(g) && exists|k: int|
                0 <= k < n && (#[trigger] db.group_tags@[k]).tag_id == x && db.group_tags@[k].group_id == g.id {
                let k = choose|k: int| 0 <= k < n && (#[trigger] db.group_tags@[k]).tag_id == x && db.group_tags@[k].group_id == g.id;
                if k < n - 1 {
                    assert(rest.contains(g));
                    let q = choose|q: int| 0 <= q < rest.len() && rest[q] == g;
                    assert(out[q] == g);
                } else {
                    let j = choose|j: int| 0 <= j < db.groups@.len() && db.groups@[j] == g;
                    db.lemma_group_at(j);
                    assert(g == h);
                    assert(out[rest.len() as int] == h);
                }
            }
        }
    }
}

/// The groups that carry tag `tag_id`.
pub fn select_group_by_tag_id(db: &Database, tag_id: i32) -> (r: Result<Vec<Group>, AppError>)
    requires
        db.core_ok(),
    ensures
        match r {
            Ok(v) => v@ == groups_of_tag(db.group_tags@, db.groups@, tag_id),
            Err(_) => false,
        },
        r matches Ok(v) ==> forall|g: Group|
            #[trigger] v@.contains(g) <==> (db.groups@.contains(g) && exists|k: int|
                0 <= k < db.group_tags@.len() && (#[trigger] db.group_tags@[k]).tag_id == tag_id && db.group_tags@[k].group_id == g.id),
{
    let mut out: Vec<Group> = Vec::new();
    let mut k: usize = 0;
    while k < db.group_tags.len()
        invariant
            db.core_ok(),
            k <= db.group_tags@.len(),
            out@ == groups_of_tag(db.group_tags@.take(k as int), db.groups@, tag_id),
        decreases db.group_tags@.len() - k,
    {
        proof {
            assert(db.group_tags@.take(k + 1).drop_last() =~= db.group_tags@.take(k as int));
        }
        if db.group_tags[k].tag_id == tag_id {
            let other = db.group_tags[k].group_id;
            proof {
                assert(has_group(db.groups@, db.group_tags@[k as int].group_id));
            }
            let j = db.find_group_index(other).unwrap();
            proof {
                db.lemma_group_at(j as int);
            }
            out.push(db.groups[j].clone());
        }
        k = k + 1;
    }
    proof {
        assert(db.group_tags@.take(k as int) =~= db.group_tags@);
    }
    proof {
        lemma_groups_of_tag_members(*db, tag_id, db.group_tags@.len() as int);
        assert(db.group_tags@.take(db.group_tags@.len() as int) =~= db.group_tags@);
    }
    Ok(out)
}

/// `s` holds the groups of `rows` arranged as `order_by` asks: as they
/// are when it is empty, otherwise sorted by its last entry (a later
/// ordering replaces an earlier one).
pub open spec fn groups_arranged(rows: Seq<Group>, s: Seq<Group>, order_by: Seq<GroupOrderBy>) -> bool {
    if order_by.len() == 0 {
        s == rows
    } else {
        s.to_multiset() == rows.to_multiset() && groups_sorted(s, order_by.last())
    }
}

/// The groups that satisfy every condition of `conditions`, ordered,
/// skipped and cut as `options` asks.
pub fn select_groups_by_conditions_with_options(db: &Database, conditions: Vec<GroupCondition>, options: GroupQueryOptions) -> (r: Result<Vec<Group>, AppError>)
    ensures
        match r {
            Ok(v) => exists|s: Seq<Group>|
                groups_arranged(groups_where(db.groups@, conditions@), s, options.order_by@) && v@ == take_limit(
                    skip_offset(s, options.offset),
                    options.limit,
                ),
            Err(_) => false,
        },
{
    let ghost cs = conditions@;
    let rows = match select_groups_by_conditions_with_limit(db, conditions, None) {
        Ok(v) => v,
        Err(e) => {
            return Err(e);
        },
    };
    let n = options.order_by.len();
    let arranged = if n == 0 {
        rows
    } else {
        sort_groups(&rows, options.order_by[n - 1])
    };
    let ghost s = arranged@;
    let mut v = apply_offset(arranged, options.offset);
    apply_limit(&mut v, options.limit);
    proof {
        assert(groups_arranged(groups_where(db.groups@, cs), s, options.order_by@));
    }
    Ok(v)
}

/// The groups that filter `filter` selects, ordered, skipped and cut as
/// `options` asks.
pub fn select_groups_by_filter_with_options(db: &Database, filter: GroupFilter, options: GroupQueryOptions) -> (r: Result<Vec<Group>, AppError>)
    ensures
        match r {
            Ok(v) => exists|s: Seq<Group>|
                groups_arranged(groups_where(db.groups@, group_filter_conditions(filter)), s, options.order_by@) && v@
                    == take_limit(skip_offset(s, options.offset), options.limit),
            Err(_) => false,
        },
{
    select_groups_by_conditions_with_options(db, group_filter_to_conditions(filter), options)
}

/// The two catalogues agree on every table but `groups`, and on the next ids.
pub open spec fn same_tables_but_groups(a: Database, b: Database) -> bool {
    &&& b.files@ == a.files@
    &&& b.tags@ == a.tags@
    &&& b.file_groups@ == a.file_groups@
    &&& b.group_tags@ == a.group_tags@
    &&& b.group_relations@ == a.group_relations@
    &&& b.next_file_id == a.next_file_id
    &&& b.next_group_id == a.next_group_id
    &&& b.next_tag_id == a.next_tag_id
}

/// Record `x` with the fields that `dto` sets replaced.
pub fn group_with(x: &Group, dto: &UpdateGroupDTO) -> (r: Group)
    ensures
        r == group_updated(*x, *dto),
        group_shows_update(r, *dto),
{
    let mut r = x.clone();
    match &dto.name {
        Some(x) => {
            r.name = x.clone();
        },
        None => {},
    }
    match dto.click_count {
        Some(x) => {
            r.click_count = x;
        },
        None => {},
    }
    match dto.share_count {
        Some(x) => {
            r.share_count = x;
        },
        None => {},
    }
    match dto.create_time {
        Some(x) => {
            r.create_time = x;
        },
        None => {},
    }
    match dto.modify_time {
        Some(x) => {
            r.modify_time = x;
        },
        None => {},
    }
    match &dto.description {
        Some(x) => {
            r.description = Some(x.clone());
        },
        None => {},
    }
    r
}

/// `x` satisfies every condition of `cs`.
pub open spec fn group_selected(cs: Seq<GroupCondition>, x: Group) -> bool {
    group_eval_all(cs, x) == Some(true)
}

/// The error with which updating the groups that satisfy `cs` with `dto`
/// fails, if it does: as for one group, and a new name may go to one group
/// only, and not to one whose name another group has.
pub open spec fn update_groups_error(db: Database, cs: Seq<GroupCondition>, dto: UpdateGroupDTO) -> Option<AppError> {
    if dto.is_primary is Some {
        Some(AppError::CannotModifyPrimaryStatus)
    } else if dto.reference_count is Some {
        Some(AppError::CannotModifyReferenceCount)
    } else if (dto.id matches Some(x) && exists|i: int|
        0 <= i < db.groups@.len() && group_selected(cs, #[trigger] db.groups@[i]) && db.groups@[i].id != x) {
        Some(AppError::CannotModifyId)
    } else if (dto.name matches Some(nm) && (groups_where(db.groups@, cs).len() >= 2 || (groups_where(db.groups@, cs).len() == 1
        && exists|j: int| 0 <= j < db.groups@.len() && !group_selected(cs, #[trigger] db.groups@[j]) && db.groups@[j].name@ == nm@))) {
        Some(AppError::DatabaseError(DbError::UniqueViolation))
    } else {
        None
    }
}

/// Sets the fields that `dto` gives on every group that satisfies all of
/// `conditions`, as one statement does, and returns how many changed.
pub fn update_groups_by_conditions(db: &mut Database, conditions: Vec<GroupCondition>, dto: UpdateGroupDTO) -> (r: Result<usize, AppError>)
    requires
        old(db).wf(),
    ensures
        final(db).wf(),
        same_next_ids(*old(db), *final(db)),
        match r {
            Ok(c) => {
                &&& update_groups_error(*old(db), conditions@, dto) is None
                &&& c == groups_where(old(db).groups@, conditions@).len()
                &&& final(db).groups@.len() == old(db).groups@.len()
                &&& forall|i: int| 0 <= i < old(db).groups@.len() ==> #[trigger] final(db).groups@[i] == if group_selected(
                    conditions@,
                    old(db).groups@[i],
                ) {
                    group_updated(old(db).groups@[i], dto)
                } else {
                    old(db).groups@[i]
                }
                &&& forall|i: int|
                    0 <= i < old(db).groups@.len() && group_selected(conditions@, old(db).groups@[i])
                        ==> group_shows_update(#[trigger] final(db).groups@[i], dto)
                &&& same_tables_but_groups(*old(db), *final(db))
            },
            Err(e) => {
                &&& update_groups_error(*old(db), conditions@, dto) == Some(e)
                &&& *final(db) == *old(db)
            },
        },
{
    let ghost o = *db;
    let ghost cs = conditions@;
    if dto.is_primary.is_some() {
        return Err(AppError::CannotModifyPrimaryStatus);
    }
    if dto.reference_count.is_some() {
        return Err(AppError::CannotModifyReferenceCount);
    }
    let mut count: usize = 0;
    let mut only: usize = 0;
    let mut i: usize = 0;
    while i < db.groups.len()
        invariant
            *db == o,
            o == *old(db),
            dto.is_primary is None,
            dto.reference_count is None,
            o.wf(),
            i <= db.groups@.len(),
            count == groups_where(db.groups@.take(i as int), conditions@).len(),
            count <= i,
            count == 1 ==> only < i && group_selected(conditions@, db.groups@[only as int]) && forall|j: int|
                0 <= j < i && j != only ==> !group_selected(conditions@, #[trigger] db.groups@[j]),
            count == 0 ==> forall|j: int| 0 <= j < i ==> !group_selected(conditions@, #[trigger] db.groups@[j]),
            dto.id matches Some(x) ==> forall|j: int| 0 <= j < i && group_selected(conditions@, #[trigger] db.groups@[j]) ==> db.groups@[j].id == x,
        decreases db.groups@.len() - i,
    {
        proof {
            assert(db.groups@.take(i + 1).drop_last() =~= db.groups@.take(i as int));
        }
        match eval_all_group_conditions(&conditions, &db.groups[i]) {
            Some(true) => {
                match dto.id {
                    Some(x) => {
                        if db.groups[i].id != x {
                            proof {
                                assert(group_selected(conditions@, db.groups@[i as int]));
                            }
                            return Err(AppError::CannotModifyId);
                        }
                    },
                    None => {},
                }
                if count == 0 {
                    only = i;
                }
                count = count + 1;
            },
            _ => {},
        }
        i = i + 1;
    }
    proof {
        assert(db.groups@.take(i as int) =~= db.groups@);
    }
    match &dto.name {
        Some(nm) => {
            if count >= 2 {
                return Err(AppError::DatabaseError(DbError::UniqueViolation));
            }
            if count == 1 {
                let mut j: usize = 0;
                while j < db.groups.len()
                    invariant
                        *db == o,
                        o == *old(db),
                        dto.is_primary is None,
                        dto.reference_count is None,
                        dto.name == Some(*nm),
                        o.wf(),
                        j <= db.groups@.len(),
                        count == 1,
                        count == groups_where(db.groups@, conditions@).len(),
                        dto.id matches Some(x) ==> forall|q: int| 0 <= q < db.groups@.len() && group_selected(conditions@, #[trigger] db.groups@[q]) ==> db.groups@[q].id == x,
                        only < db.groups@.len(),
                        forall|q: int| 0 <= q < db.groups@.len() && q != only ==> !group_selected(conditions@, #[trigger] db.groups@[q]),
                        forall|q: int| 0 <= q < j && q != only ==> (#[trigger] db.groups@[q]).name@ != nm@,
                    decreases db.groups@.len() - j,
                {
                    if j != only && str_eq(db.groups[j].name.as_str(), nm.as_str()) {
                        proof {
                            assert(!group_selected(conditions@, db.groups@[j as int]));
                            assert(db.groups@[j as int].name@ == dto.name->0@);
                        }
                        return Err(AppError::DatabaseError(DbError::UniqueViolation));
                    }
                    j = j + 1;
                }
            }
        },
        None => {},
    }
    let mut i: usize = 0;
    while i < db.groups.len()
        invariant
            o.wf(),
            db.groups@.len() == o.groups@.len(),
            i <= db.groups@.len(),
            forall|j: int| 0 <= j < i ==> #[trigger] db.groups@[j] == if group_selected(cs, o.groups@[j]) {
                group_updated(o.groups@[j], dto)
            } else {
                o.groups@[j]
            },
            forall|j: int| i <= j < db.groups@.len() ==> #[trigger] db.groups@[j] == o.groups@[j],
            cs == conditions@,
            same_tables_but_groups(o, *db),
        decreases db.groups@.len() - i,
    {
        match eval_all_group_conditions(&conditions, &db.groups[i]) {
            Some(true) => {
                let x = group_with(&db.groups[i], &dto);
                db.groups.set(i, x);
            },
            _ => {},
        }
        i = i + 1;
    }
    proof {
        let n = *db;
        assert(crate::rows::same_shape(o, n));
        crate::rows::lemma_wf_same_shape(o, n);
        assert forall|i: int|
            0 <= i < o.groups@.len() && group_selected(cs, o.groups@[i]) implies group_shows_update(
            #[trigger] n.groups@[i],
            dto,
        ) by {
            lemma_group_updated_shows(o.groups@[i], dto);
        }
    }
    Ok(count)
}

/// Every chain of relations down from group `gid` holds fewer than `h`
/// groups, so that the tree below it is finite.
pub open spec fn tree_below_within(rels: Seq<GroupRelation>, gid: i32, h: nat) -> bool
    decreases h,
{
    h > 0 && forall|i: int|
        0 <= i < children_ids(rels, gid).len() ==> tree_below_within(rels, #[trigger] children_ids(rels, gid)[i], (h - 1) as nat)
}

/// `t` is the tree of group `gid` in `db`: the group, then the trees of the
/// second groups of its relations, in relation order.
pub open spec fn is_group_tree(db: Database, gid: i32, t: GroupTreeNode, h: nat) -> bool
    decreases h,
{
    &&& h > 0
    &&& has_group(db.groups@, gid)
    &&& t.group == group_of(db.groups@, gid)
    &&& t.children@.len() == children_ids(db.group_relations@, gid).len()
    &&& forall|i: int|
        0 <= i < t.children@.len() ==> is_group_tree(db, children_ids(db.group_relations@, gid)[i], #[trigger] t.children@[i], (h - 1) as nat)
}

/// Every child of a group is the second group of one of its relations.
proof fn lemma_children_are_related(rels: Seq<GroupRelation>, gid: i32, i: int)
    requires
        0 <= i < children_ids(rels, gid).len(),
    ensures
        exists|k: int| 0 <= k < rels.len() && (#[trigger] rels[k]).second_group_id == children_ids(rels, gid)[i],
    decreases rels.len(),
{
    let rest = children_ids(rels.drop_last(), gid);
    if i < rest.len() {
        lemma_children_are_related(rels.drop_last(), gid, i);
        let k = choose|k: int| 0 <= k < rels.drop_last().len() && (#[trigger] rels.drop_last()[k]).second_group_id == rest[i];
        assert(rels[k] == rels.drop_last()[k]);
    } else {
        assert(rels[rels.len() - 1].second_group_id == children_ids(rels, gid)[i]);
    }
}

/// Whether every chain of relations down from group `gid` holds fewer than
/// `h` groups.
pub fn tree_within(db: &Database, gid: i32, h: usize) -> (r: bool)
    ensures
        r == tree_below_within(db.group_relations@, gid, h as nat),
    decreases h,
{
    if h == 0 {
        return false;
    }
    let child_ids = match crate::service::group_relations::get_direct_children_ids(db, gid) {
        Ok(v) => v,
        Err(_) => Vec::new(),
    };
    let ghost cs = children_ids(db.group_relations@, gid);
    let mut i: usize = 0;
    while i < child_ids.len()
        invariant
            child_ids@ == cs,
            cs == children_ids(db.group_relations@, gid),
            h > 0,
            i <= cs.len(),
            forall|j: int| 0 <= j < i ==> tree_below_within(db.group_relations@, #[trigger] cs[j], (h - 1) as nat),
        decreases cs.len() - i,
    {
        if !tree_within(db, child_ids[i], h - 1) {
            return false;
        }
        i = i + 1;
    }
    true
}

fn group_tree_within(db: &Database, group_id: i32, Ghost(h): Ghost<nat>) -> (r: Result<GroupTreeNode, AppError>)
    requires
        db.wf(),
        tree_below_within(db.group_relations@, group_id, h),
    ensures
        r is Ok <==> has_group(db.groups@, group_id),
        match r {
            Ok(t) => is_group_tree(*db, group_id, t, h),
            Err(e) => e == AppError::GroupNotFound,
        },
    decreases h,
{
    let group = match find_group_by_id(db, group_id) {
        Some(g) => g,
        None => {
            return Err(AppError::GroupNotFound);
        },
    };
    let child_ids = match crate::service::group_relations::get_direct_children_ids(db, group_id) {
        Ok(v) => v,
        Err(_) => Vec::new(),
    };
    let ghost cs = children_ids(db.group_relations@, group_id);
    let mut children: Vec<GroupTreeNode> = Vec::new();
    let mut i: usize = 0;
    while i < child_ids.len()
        invariant
            db.wf(),
            child_ids@ == cs,
            cs == children_ids(db.group_relations@, group_id),
            tree_below_within(db.group_relations@, group_id, h),
            i <= cs.len(),
            children@.len() == i,
            forall|j: int| 0 <= j < i ==> is_group_tree(*db, cs[j], #[trigger] children@[j], (h - 1) as nat),
        decreases cs.len() - i,
    {
        proof {
            assert(tree_below_within(db.group_relations@, cs[i as int], (h - 1) as nat));
            lemma_children_are_related(db.group_relations@, group_id, i as int);
            let k = choose|k: int|
                0 <= k < db.group_relations@.len() && (#[trigger] db.group_relations@[k]).second_group_id == cs[i as int];
            assert(db.links_ok());
        }
        let ghost before = children@;
        match group_tree_within(db, child_ids[i], Ghost((h - 1) as nat)) {
            Ok(t) => {
                children.push(t);
            },
            Err(e) => {
                return Err(e);
            },
        }
        proof {
            assert forall|j: int| 0 <= j < i + 1 implies is_group_tree(*db, cs[j], #[trigger] children@[j], (h - 1) as nat) by {
                if j < i {
                    assert(children@[j] == before[j]);
                }
            }
        }
        i = i + 1;
    }
    Ok(GroupTreeNode { group, children })
}

/// The tree of group `group_id`: the group, then the trees of the groups
/// that it is the first group of a relation with, in relation order. The
/// tree below the group must be finite: every chain of relations down from
/// it ends.
pub fn get_group_tree(db: &Database, group_id: i32) -> (r: Result<GroupTreeNode, AppError>)
    requires
        db.wf(),
        exists|h: nat| tree_below_within(db.group_relations@, group_id, h),
    ensures
        r is Ok <==> has_group(db.groups@, group_id),
        match r {
            Ok(t) => exists|h: nat| is_group_tree(*db, group_id, t, h),
            Err(e) => e == AppError::GroupNotFound,
        },
{
    let ghost h = choose|h: nat| tree_below_within(db.group_relations@, group_id, h);
    group_tree_within(db, group_id, Ghost(h))
}

} // verus!

//! Relations between groups, with the check that refuses a relation that
//! would close a cycle.
use vstd::prelude::*;
use crate::sorting::{group_relations_sorted, sort_group_relations};
use crate::query::{group_relations_where, eval_all_group_relation_conditions, take_limit, apply_limit, skip_offset, apply_offset};
use crate::errors::{AppError, DbError};
use crate::models::{GroupRelation, GroupRelationCondition, GroupRelationOrderBy, GroupRelationQueryOptions, RELATION_TYPE_PARENT_CHILD};
use crate::cascade::lemma_records_like_trans;
use crate::filters::{lemma_filter_all, lemma_filter_and, lemma_filter_ext, lemma_filter_one};
use crate::rows::{files_like, groups_like, lemma_primary_same_links, records_like, tags_like};
use crate::store::{same_next_ids, group_of, has_group, is_primary_group, Database};

verus! {

/// A relation of type `t` makes `parent` a parent of `child`.
pub open spec fn parent_link(rels: Seq<GroupRelation>, t: i32, child: i32, parent: i32) -> bool {
    exists|k: int|
        0 <= k < rels.len() && (#[trigger] rels[k]).first_group_id == parent
            && rels[k].second_group_id == child && rels[k].relation_type == t
}

/// `path` goes from a group to a parent, to a parent of that, and so on.
pub open spec fn is_upward_path(rels: Seq<GroupRelation>, t: i32, path: Seq<i32>) -> bool {
    &&& path.len() >= 1
    &&& forall|i: int| 0 <= i < path.len() - 1 ==> parent_link(rels, t, #[trigger] path[i], path[i + 1])
}

/// Group `to` is `from` itself or one of its ancestors through relations of type `t`.
pub open spec fn reaches_up(rels: Seq<GroupRelation>, t: i32, from: i32, to: i32) -> bool {
    exists|path: Seq<i32>| #[trigger] is_upward_path(rels, t, path) && path[0] == from && path.last() == to
}

/// The answer of the cycle check for a new relation of type `t` from
/// `parent` to `child`: the two are the same group, or `child` is already
/// an ancestor of `parent`, so that the new relation would close a cycle.
pub open spec fn spec_would_create_cycle(rels: Seq<GroupRelation>, parent: i32, child: i32, t: i32) -> bool {
    parent == child || reaches_up(rels, t, parent, child)
}

/// A set of groups closed under taking parents holds every ancestor of its members.
proof fn lemma_closed_holds_ancestors(rels: Seq<GroupRelation>, t: i32, anc: Seq<i32>, path: Seq<i32>)
    requires
        forall|a: i32, p: i32| anc.contains(a) && #[trigger] parent_link(rels, t, a, p) ==> anc.contains(p),
        is_upward_path(rels, t, path),
        anc.contains(path[0]),
    ensures
        anc.contains(path.last()),
    decreases path.len(),
{
    if path.len() > 1 {
        let prefix = path.drop_last();
        assert forall|i: int| 0 <= i < prefix.len() - 1 implies parent_link(rels, t, #[trigger] prefix[i], prefix[i + 1]) by {
            assert(prefix[i] == path[i] && prefix[i + 1] == path[i + 1]);
        }
        lemma_closed_holds_ancestors(rels, t, anc, prefix);
        let n = path.len();
        assert(parent_link(rels, t, path[n - 2], path[n - 1]));
        assert(prefix.last() == path[n - 2]);
    }
}

/// Group `x` is the first (parent) group of some relation.
pub open spec fn is_some_parent(rels: Seq<GroupRelation>, x: i32) -> bool {
    exists|k: int| 0 <= k < rels.len() && (#[trigger] rels[k]).first_group_id == x
}

/// Members of `anc` past the first are first groups of relations, so there
/// are at most one more of them than relations.
proof fn lemma_ancestors_bound(rels: Seq<GroupRelation>, anc: Seq<i32>)
    requires
        anc.len() >= 1,
        anc.no_duplicates(),
        forall|q: int| 1 <= q < anc.len() ==> #[trigger] is_some_parent(rels, anc[q]),
    ensures
        anc.len() <= rels.len() + 1,
{
    let tail = anc.drop_first();
    let firsts = rels.map_values(|r: GroupRelation| r.first_group_id);
    assert(tail.no_duplicates());
    tail.unique_seq_to_set();
    firsts.lemma_cardinality_of_set();
    assert(tail.to_set().subset_of(firsts.to_set())) by {
        assert forall|x: i32| tail.to_set().contains(x) implies firsts.to_set().contains(x) by {
            let q = choose|q: int| 0 <= q < tail.len() && tail[q] == x;
            assert(anc[q + 1] == x);
            assert(is_some_parent(rels, anc[q + 1]));
            let k = choose|k: int| 0 <= k < rels.len() && (#[trigger] rels[k]).first_group_id == anc[q + 1];
            assert(firsts[k] == x);
        }
    }
    vstd::seq_lib::seq_to_set_is_finite(firsts);
    vstd::set_lib::lemma_len_subset(tail.to_set(), firsts.to_set());
}

fn vec_contains(v: &Vec<i32>, x: i32) -> (r: bool)
    ensures
        r == v@.contains(x),
{
    let mut k: usize = 0;
    while k < v.len()
        invariant
            k <= v@.len(),
            forall|q: int| 0 <= q < k ==> v@[q] != x,
        decreases v@.len() - k,
    {
        if v[k] == x {
            return true;
        }
        k = k + 1;
    }
    false
}

/// Whether walking up from `start` through relations of type
/// `relation_type` reaches `target`.
fn walks_up_to(db: &Database, start: i32, target: i32, relation_type: i32) -> (r: bool)
    requires
        start != target,
    ensures
        r == reaches_up(db.group_relations@, relation_type, start, target),
{
    let ghost rels = db.group_relations@;
    let ghost t = relation_type;
    let mut anc: Vec<i32> = Vec::new();
    anc.push(start);
    proof {
        let p0 = seq![start];
        assert(is_upward_path(rels, t, p0));
        assert(reaches_up(rels, t, start, anc@[0]));
        assert(rels.len() + 1 >= 1);
    }
    let mut i: usize = 0;
    while i < anc.len()
        invariant
            rels == db.group_relations@,
            t == relation_type,
            target != start,
            anc@.len() >= 1,
            anc@[0] == start,
            anc@.no_duplicates(),
            i <= anc@.len(),
            anc@.len() <= rels.len() + 1,
            forall|q: int| 0 <= q < anc@.len() ==> reaches_up(rels, t, start, #[trigger] anc@[q]),
            forall|q: int| 0 <= q < anc@.len() ==> #[trigger] anc@[q] != target,
            forall|q: int| 1 <= q < anc@.len() ==> #[trigger] is_some_parent(rels, anc@[q]),
            forall|q: int, k: int|
                0 <= q < i && 0 <= k < rels.len() && (#[trigger] rels[k]).second_group_id == (#[trigger] anc@[q])
                    && rels[k].relation_type == t ==> anc@.contains(rels[k].first_group_id),
        decreases rels.len() + 1 - i,
    {
        let g = anc[i];
        let mut k: usize = 0;
        while k < db.group_relations.len()
            invariant
                rels == db.group_relations@,
                t == relation_type,
                target != start,
                anc@.len() >= 1,
                anc@[0] == start,
                anc@.no_duplicates(),
                i < anc@.len(),
                g == anc@[i as int],
                k <= rels.len(),
                anc@.len() <= rels.len() + 1,
                forall|q: int| 0 <= q < anc@.len() ==> reaches_up(rels, t, start, #[trigger] anc@[q]),
                forall|q: int| 0 <= q < anc@.len() ==> #[trigger] anc@[q] != target,
                forall|q: int| 1 <= q < anc@.len() ==> #[trigger] is_some_parent(rels, anc@[q]),
                forall|q: int, k: int|
                    0 <= q < i && 0 <= k < rels.len() && (#[trigger] rels[k]).second_group_id == (#[trigger] anc@[q])
                        && rels[k].relation_type == t ==> anc@.contains(rels[k].first_group_id),
                forall|j: int|
                    0 <= j < k && (#[trigger] rels[j]).second_group_id == g && rels[j].relation_type == t
                        ==> anc@.contains(rels[j].first_group_id),
            decreases rels.len() - k,
        {
            let rel = db.group_relations[k];
            if rel.second_group_id == g && rel.relation_type == relation_type {
                let p = rel.first_group_id;
                proof {
                    assert(parent_link(rels, t, g, p)) by {
                        assert(rels[k as int] == rel);
                    }
                    assert(reaches_up(rels, t, start, g));
                    let path = choose|path: Seq<i32>| #[trigger] is_upward_path(rels, t, path) && path[0] == start && path.last() == g;
                    let np = path.push(p);
                    assert forall|j: int| 0 <= j < np.len() - 1 implies parent_link(rels, t, #[trigger] np[j], np[j + 1]) by {
                        if j < path.len() - 1 {
                            assert(np[j] == path[j] && np[j + 1] == path[j + 1]);
                        } else {
                            assert(np[j] == g && np[j + 1] == p);
                        }
                    }
                    assert(is_upward_path(rels, t, np));
                    assert(reaches_up(rels, t, start, p));
                }
                if p == target {
                    return true;
                }
                if !vec_contains(&anc, p) {
                    let ghost before = anc@;
                    anc.push(p);
                    proof {
                        assert(anc@.no_duplicates()) by {
                            assert forall|x: int, y: int| 0 <= x < anc@.len() && 0 <= y < anc@.len() && x != y implies anc@[x] != anc@[y] by {
                                if x < before.len() && y < before.len() {
                                    assert(anc@[x] == before[x] && anc@[y] == before[y]);
                                } else if x < before.len() {
                                    assert(anc@[x] == before[x]);
                                    assert(before.contains(anc@[x]));
                                } else {
                                    assert(anc@[y] == before[y]);
                                    assert(before.contains(anc@[y]));
                                }
                            }
                        }
                        assert forall|q: int| 1 <= q < anc@.len() implies #[trigger] is_some_parent(rels, anc@[q]) by {
                            if q < before.len() {
                                assert(anc@[q] == before[q]);
                            } else {
                                assert(rels[k as int].first_group_id == anc@[q]);
                            }
                        }
                        lemma_ancestors_bound(rels, anc@);
                        assert forall|c: i32| before.contains(c) implies anc@.contains(c) by {
                            let q = choose|q: int| 0 <= q < before.len() && before[q] == c;
                            assert(anc@[q] == c);
                        }
                        assert(anc@.contains(p)) by {
                            assert(anc@[before.len() as int] == p);
                        }
                    }
                }
                proof {
                    assert(rels[k as int].first_group_id == p);
                }
            }
            k = k + 1;
        }
        i = i + 1;
    }
    proof {
        let a = anc@;
        assert forall|x: i32, p: i32| a.contains(x) && #[trigger] parent_link(rels, t, x, p) implies a.contains(p) by {
            let q = choose|q: int| 0 <= q < a.len() && a[q] == x;
            let k = choose|k: int| 0 <= k < rels.len() && (#[trigger] rels[k]).first_group_id == p
                && rels[k].second_group_id == x && rels[k].relation_type == t;
            assert(rels[k].second_group_id == a[q]);
        }
        if reaches_up(rels, t, start, target) {
            let path = choose|path: Seq<i32>| #[trigger] is_upward_path(rels, t, path) && path[0] == start && path.last() == target;
            assert(a.contains(path[0])) by {
                assert(a[0] == start);
            }
            lemma_closed_holds_ancestors(rels, t, a, path);
            let q = choose|q: int| 0 <= q < a.len() && a[q] == target;
            assert(a[q] != target);
        }
    }
    false
}

/// Whether a relation of type `relation_type` from `parent_id` to
/// `child_id` is refused as cyclic: the groups are the same, or `child_id`
/// is already an ancestor of `parent_id` through relations of that type, so
/// that the new relation would close a cycle.
pub fn would_create_cycle(db: &Database, parent_id: i32, child_id: i32, relation_type: i32) -> (r: bool)
    ensures
        r == spec_would_create_cycle(db.group_relations@, parent_id, child_id, relation_type),
{
    if parent_id == child_id {
        return true;
    }
    walks_up_to(db, parent_id, child_id, relation_type)
}

/// The error with which storing `rel` fails, if it does.
pub open spec fn create_group_relation_error(db: Database, rel: GroupRelation) -> Option<AppError> {
    if !has_group(db.groups@, rel.first_group_id) || !has_group(db.groups@, rel.second_group_id) {
        Some(AppError::GroupNotFound)
    } else if spec_would_create_cycle(
        db.group_relations@,
        rel.first_group_id,
        rel.second_group_id,
        rel.relation_type,
    ) {
        Some(AppError::GroupRelationCycleDetected)
    } else if is_primary_group(db.groups@, rel.first_group_id) && rel.relation_type
        == RELATION_TYPE_PARENT_CHILD {
        Some(AppError::PrimaryGroupCannotBeParent)
    } else if db.group_relations@.contains(rel) {
        Some(AppError::GroupRelationAlreadyExists)
    } else if group_of(db.groups@, rel.first_group_id).reference_count == i32::MAX || group_of(
        db.groups@,
        rel.second_group_id,
    ).reference_count == i32::MAX {
        Some(AppError::DatabaseError(DbError::CounterOverflow))
    } else {
        None
    }
}

/// Stores the relation `rel` between two groups, adding one to the
/// reference count of each. Refused when a group is missing, when the
/// relation would be cyclic, when a primary group would become a parent, or
/// when the same relation is stored already.
pub fn create_group_relation(db: &mut Database, rel: GroupRelation) -> (r: Result<GroupRelation, AppError>)
    requires
        old(db).wf(),
    ensures
        final(db).wf(),
        same_next_ids(*old(db), *final(db)),
        match r {
            Ok(created) => {
                &&& create_group_relation_error(*old(db), rel) is None
                &&& created == rel
                &&& final(db).group_relations@ == old(db).group_relations@.push(rel)
                &&& final(db).file_groups@ == old(db).file_groups@
                &&& final(db).group_tags@ == old(db).group_tags@
                &&& records_like(*old(db), *final(db))
            },
            Err(e) => {
                &&& create_group_relation_error(*old(db), rel) == Some(e)
                &&& *final(db) == *old(db)
            },
        },
{
    let g1 = match db.find_group_index(rel.first_group_id) {
        Some(i) => i,
        None => {
            return Err(AppError::GroupNotFound);
        },
    };
    let g2 = match db.find_group_index(rel.second_group_id) {
        Some(i) => i,
        None => {
            return Err(AppError::GroupNotFound);
        },
    };
    proof {
        db.lemma_group_at(g1 as int);
        db.lemma_group_at(g2 as int);
    }
    if would_create_cycle(db, rel.first_group_id, rel.second_group_id, rel.relation_type) {
        return Err(AppError::GroupRelationCycleDetected);
    }
    if db.groups[g1].is_primary && rel.relation_type == RELATION_TYPE_PARENT_CHILD {
        return Err(AppError::PrimaryGroupCannotBeParent);
    }
    if db.find_group_relation_index(&rel).is_some() {
        return Err(AppError::GroupRelationAlreadyExists);
    }
    if db.groups[g1].reference_count == i32::MAX || db.groups[g2].reference_count == i32::MAX {
        return Err(AppError::DatabaseError(DbError::CounterOverflow));
    }
    let ghost o = *db;
    db.push_group_relation(g1, g2, rel.relation_type);
    proof {
        let n = *db;
        assert(n.group_relations@ =~= o.group_relations@.push(rel));
        assert(files_like(o.files@, n.files@));
        assert(groups_like(o.groups@, n.groups@));
        assert(tags_like(o.tags@, n.tags@));
        lemma_primary_same_links(o, n);
    }
    Ok(rel)
}

/// Removes the relation `rel`, taking one from the reference count of both
/// groups, and returns the number of relations removed: 1, or 0 when `rel`
/// is not stored, in which case nothing changes.
pub fn delete_group_relation(db: &mut Database, rel: &GroupRelation) -> (r: Result<usize, AppError>)
    requires
        old(db).wf(),
    ensures
        final(db).wf(),
        same_next_ids(*old(db), *final(db)),
        r == Ok::<usize, AppError>(if old(db).group_relations@.contains(*rel) { 1 } else { 0 }),
        r == Ok::<usize, AppError>(0) ==> *final(db) == *old(db),
        r == Ok::<usize, AppError>(1) ==> exists|k: int|
            0 <= k < old(db).group_relations@.len() && old(db).group_relations@[k] == *rel
                && final(db).group_relations@ == old(db).group_relations@.remove(k),
        final(db).file_groups@ == old(db).file_groups@,
        final(db).group_tags@ == old(db).group_tags@,
        records_like(*old(db), *final(db)),
{
    proof {
        assert(files_like(db.files@, db.files@));
        assert(groups_like(db.groups@, db.groups@));
        assert(tags_like(db.tags@, db.tags@));
    }
    match db.find_group_relation_index(rel) {
        None => Ok(0),
        Some(k) => {
            let g1 = match db.find_group_index(rel.first_group_id) {
                Some(i) => i,
                None => {
                    proof {
                        assert(has_group(db.groups@, db.group_relations@[k as int].first_group_id));
                    }
                    return Ok(0);
                },
            };
            let g2 = match db.find_group_index(rel.second_group_id) {
                Some(i) => i,
                None => {
                    proof {
                        assert(has_group(db.groups@, db.group_relations@[k as int].second_group_id));
                    }
                    return Ok(0);
                },
            };
            let ghost o = *db;
            db.remove_group_relation_at(k, g1, g2);
            proof {
                let n = *db;
                assert(files_like(o.files@, n.files@));
                assert(groups_like(o.groups@, n.groups@));
                assert(tags_like(o.tags@, n.tags@));
                lemma_primary_same_links(o, n);
            }
            Ok(1)
        },
    }
}

/// The group relations that satisfy every condition of `conditions`, in table
/// order, cut to `limit` when a non-negative limit is given.
pub fn select_group_relations_by_conditions(db: &Database, conditions: Vec<GroupRelationCondition>, limit: Option<i64>) -> (r: Result<Vec<GroupRelation>, AppError>)
    ensures
        match r {
            Ok(v) => v@ == take_limit(group_relations_where(db.group_relations@, conditions@), limit),
            Err(_) => false,
        },
{
    let mut out: Vec<GroupRelation> = Vec::new();
    let mut i: usize = 0;
    while i < db.group_relations.len()
        invariant
            i <= db.group_relations@.len(),
            out@ == group_relations_where(db.group_relations@.take(i as int), conditions@),
        decreases db.group_relations@.len() - i,
    {
        proof {
            assert(db.group_relations@.take(i + 1).drop_last() =~= db.group_relations@.take(i as int));
        }
        match eval_all_group_relation_conditions(&conditions, &db.group_relations[i]) {
            Some(true) => {
                out.push(db.group_relations[i]);
            },
            _ => {},
        }
        i = i + 1;
    }
    proof {
        assert(db.group_relations@.take(i as int) =~= db.group_relations@);
    }
    apply_limit(&mut out, limit);
    Ok(out)
}

/// The second groups of the relations whose first group is `gid`, in
/// relation order.
pub open spec fn children_ids(rels: Seq<GroupRelation>, gid: i32) -> Seq<i32>
    decreases rels.len(),
{
    if rels.len() == 0 {
        Seq::empty()
    } else {
        let rest = children_ids(rels.drop_last(), gid);
        if rels.last().first_group_id == gid {
            rest.push(rels.last().second_group_id)
        } else {
            rest
        }
    }
}

/// The first groups of the relations whose second group is `gid`, in
/// relation order.
pub open spec fn parents_ids(rels: Seq<GroupRelation>, gid: i32) -> Seq<i32>
    decreases rels.len(),
{
    if rels.len() == 0 {
        Seq::empty()
    } else {
        let rest = parents_ids(rels.drop_last(), gid);
        if rels.last().second_group_id == gid {
            rest.push(rels.last().first_group_id)
        } else {
            rest
        }
    }
}

/// The ids of the groups that group `group_id` is the first group of a
/// relation with.
pub fn get_direct_children_ids(db: &Database, group_id: i32) -> (r: Result<Vec<i32>, AppError>)
    ensures
        match r {
            Ok(v) => v@ == children_ids(db.group_relations@, group_id),
            Err(_) => false,
        },
{
    let mut out: Vec<i32> = Vec::new();
    let mut k: usize = 0;
    while k < db.group_relations.len()
        invariant
            k <= db.group_relations@.len(),
            out@ == children_ids(db.group_relations@.take(k as int), group_id),
        decreases db.group_relations@.len() - k,
    {
        proof {
            assert(db.group_relations@.take(k + 1).drop_last() =~= db.group_relations@.take(k as int));
        }
        if db.group_relations[k].first_group_id == group_id {
            out.push(db.group_relations[k].second_group_id);
        }
        k = k + 1;
    }
    proof {
        assert(db.group_relations@.take(k as int) =~= db.group_relations@);
    }
    Ok(out)
}

/// The ids of the groups that are the first group of a relation whose
/// second group is `group_id`.
pub fn get_direct_parents_ids(db: &Database, group_id: i32) -> (r: Result<Vec<i32>, AppError>)
    ensures
        match r {
            Ok(v) => v@ == parents_ids(db.group_relations@, group_id),
            Err(_) => false,
        },
{
    let mut out: Vec<i32> = Vec::new();
    let mut k: usize = 0;
    while k < db.group_relations.len()
        invariant
            k <= db.group_relations@.len(),
            out@ == parents_ids(db.group_relations@.take(k as int), group_id),
        decreases db.group_relations@.len() - k,
    {
        proof {
            assert(db.group_relations@.take(k + 1).drop_last() =~= db.group_relations@.take(k as int));
        }
        if db.group_relations[k].second_group_id == group_id {
            out.push(db.group_relations[k].first_group_id);
        }
        k = k + 1;
    }
    proof {
        assert(db.group_relations@.take(k as int) =~= db.group_relations@);
    }
    Ok(out)
}

/// `s` holds the group relations of `rows` arranged as `order_by` asks: as they
/// are when it is empty, otherwise sorted by its last entry (a later
/// ordering replaces an earlier one).
pub open spec fn group_relations_arranged(rows: Seq<GroupRelation>, s: Seq<GroupRelation>, order_by: Seq<GroupRelationOrderBy>) -> bool {
    if order_by.len() == 0 {
        s == rows
    } else {
        s.to_multiset() == rows.to_multiset() && group_relations_sorted(s, order_by.last())
    }
}

/// The group relations that satisfy every condition of `conditions`, ordered,
/// skipped and cut as `options` asks.
pub fn select_group_relations_by_conditions_with_options(db: &Database, conditions: Vec<GroupRelationCondition>, options: GroupRelationQueryOptions) -> (r: Result<Vec<GroupRelation>, AppError>)
    ensures
        match r {
            Ok(v) => exists|s: Seq<GroupRelation>|
                group_relations_arranged(group_relations_where(db.group_relations@, conditions@), s, options.order_by@) && v@ == take_limit(
                    skip_offset(s, options.offset),
                    options.limit,
                ),
            Err(_) => false,
        },
{
    let ghost cs = conditions@;
    let rows = match select_group_relations_by_conditions(db, conditions, None) {
        Ok(v) => v,
        Err(e) => {
            return Err(e);
        },
    };
    let n = options.order_by.len();
    let arranged = if n == 0 {
        rows
    } else {
        sort_group_relations(&rows, options.order_by[n - 1])
    };
    let ghost s = arranged@;
    let mut v = apply_offset(arranged, options.offset);
    apply_limit(&mut v, options.limit);
    proof {
        assert(group_relations_arranged(group_relations_where(db.group_relations@, cs), s, options.order_by@));
    }
    Ok(v)
}

/// The relations of `s` that are not among `gone`, in table order.
pub open spec fn relations_kept(s: Seq<GroupRelation>, gone: Seq<GroupRelation>) -> Seq<GroupRelation> {
    s.filter(|x: GroupRelation| !gone.contains(x))
}

/// Relation `x` is not `rel`.
pub open spec fn relation_other_than(rel: GroupRelation) -> spec_fn(GroupRelation) -> bool {
    |x: GroupRelation| x != rel
}

/// Removing the next relation keeps what the longer prefix keeps.
proof fn lemma_relations_kept_next(o: Seq<GroupRelation>, gone: Seq<GroupRelation>, i: int)
    requires
        0 <= i < gone.len(),
    ensures
        relations_kept(o, gone.take(i)).filter(relation_other_than(gone[i])) == relations_kept(o, gone.take(i + 1)),
{
    let p = |x: GroupRelation| !gone.take(i).contains(x);
    let q = relation_other_than(gone[i]);
    let p2 = |x: GroupRelation| !gone.take(i + 1).contains(x);
    let pq = |x: GroupRelation| p(x) && q(x);
    lemma_filter_and(o, p, q, pq);
    assert forall|x: int| 0 <= x < o.len() implies #[trigger] pq(o[x]) == p2(o[x]) by {
        let l = o[x];
        if gone.take(i + 1).contains(l) {
            let j = choose|j: int| 0 <= j < gone.take(i + 1).len() && #[trigger] gone.take(i + 1)[j] == l;
            if j < i {
                assert(gone.take(i)[j] == gone.take(i + 1)[j]);
            }
        }
        if gone.take(i).contains(l) {
            let j = choose|j: int| 0 <= j < gone.take(i).len() && #[trigger] gone.take(i)[j] == l;
            assert(gone.take(i)[j] == gone.take(i + 1)[j]);
        }
        if !q(l) {
            assert(gone.take(i + 1)[i] == gone[i]);
        }
    }
    lemma_filter_ext(o, pq, p2);
}

/// Removes, in one transaction, every relation that satisfies all of
/// `conditions`, as `delete_group_relation` does one at a time, and returns
/// how many were removed.
pub fn delete_group_relations_by_conditions(db: &mut Database, conditions: Vec<GroupRelationCondition>) -> (r: Result<usize, AppError>)
    requires
        old(db).wf(),
    ensures
        final(db).wf(),
        same_next_ids(*old(db), *final(db)),
        match r {
            Ok(n) => {
                &&& final(db).group_relations@ == relations_kept(
                    old(db).group_relations@,
                    group_relations_where(old(db).group_relations@, conditions@),
                )
                &&& n == old(db).group_relations@.len() - final(db).group_relations@.len()
                &&& final(db).file_groups@ == old(db).file_groups@
                &&& final(db).group_tags@ == old(db).group_tags@
                &&& records_like(*old(db), *final(db))
            },
            Err(_) => false,
        },
{
    let ghost o = *db;
    let ghost cs = conditions@;
    let found = match select_group_relations_by_conditions(db, conditions, None) {
        Ok(v) => v,
        Err(_) => Vec::new(),
    };
    proof {
        assert(found@.take(0) =~= Seq::<GroupRelation>::empty());
        lemma_filter_all(o.group_relations@, |x: GroupRelation| !found@.take(0).contains(x));
        assert(files_like(o.files@, db.files@));
        assert(groups_like(o.groups@, db.groups@));
        assert(tags_like(o.tags@, db.tags@));
        assert(db.group_relations.len() == o.group_relations@.len());
    }
    let mut total: usize = 0;
    let mut i: usize = 0;
    while i < found.len()
        invariant
            db.wf(),
            o.group_relations@.len() <= usize::MAX,
            found@ == group_relations_where(o.group_relations@, cs),
            i <= found@.len(),
            records_like(o, *db),
            db.file_groups@ == o.file_groups@,
            db.group_tags@ == o.group_tags@,
            db.group_relations@ == relations_kept(o.group_relations@, found@.take(i as int)),
            db.group_relations@.len() <= o.group_relations@.len(),
            total == o.group_relations@.len() - db.group_relations@.len(),
        decreases found@.len() - i,
    {
        let ghost pre = *db;
        let rel = found[i];
        let c = match delete_group_relation(db, &rel) {
            Ok(c) => c,
            Err(_) => 0,
        };
        proof {
            let q = relation_other_than(rel);
            if c == 1 {
                let k = choose|k: int|
                    0 <= k < pre.group_relations@.len() && pre.group_relations@[k] == rel
                        && db.group_relations@ == pre.group_relations@.remove(k);
                assert forall|x: int| 0 <= x < pre.group_relations@.len() && x != k implies #[trigger] q(pre.group_relations@[x]) by {
                    assert(pre.rows_unique());
                }
                lemma_filter_one(pre.group_relations@, q, k);
            } else {
                assert forall|x: int| 0 <= x < pre.group_relations@.len() implies #[trigger] q(pre.group_relations@[x]) by {
                    if !q(pre.group_relations@[x]) {
                        assert(pre.group_relations@.contains(rel));
                    }
                }
                lemma_filter_all(pre.group_relations@, q);
            }
            lemma_relations_kept_next(o.group_relations@, found@, i as int);
            lemma_records_like_trans(o, pre, *db);
            assert(db.group_relations@.len() + c == pre.group_relations@.len());
        }
        total = total + c;
        i = i + 1;
    }
    proof {
        assert(found@.take(i as int) =~= found@);
    }
    Ok(total)
}

} // verus!

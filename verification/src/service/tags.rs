//! Tags: creation, lookups, updates that leave the reference count alone,
//! and deletion together with the tag's links to groups.
use vstd::prelude::*;
use crate::sorting::{tags_sorted, sort_tags};
use crate::query::{tag_eval_all, lemma_tag_eval_all_push_opt, like_match, tags_where, eval_all_tag_conditions, take_limit, apply_limit, push_opt, skip_offset, apply_offset};
use crate::errors::{AppError, DbError};
use crate::models::{CreateTagDTO, GroupTagDTO, Tag, TagCondition, TagFilter, TagOrderBy, TagQueryOptions, UpdateTagDTO, copy_text};
use crate::rows::{
    files_like, groups_like, lemma_group_names_like, lemma_primary_same_links, lemma_tag_names_like,
    lemma_tag_names_remove, lemma_wf_same_shape, same_shape,
    same_tag, tags_like,
};
use crate::store::{same_next_ids, has_tag, tag_of, Database};
use crate::text::str_eq;

pub use crate::service::batch::{delete_tags_by_conditions, delete_tags_by_ids};
verus! {

/// `n` is `o` with tag `id` added, named as `dto` says, with no references.
pub open spec fn tag_created(o: Database, n: Database, dto: CreateTagDTO, id: i32) -> bool {
    &&& id == o.next_tag_id
    &&& n.tags@ == o.tags@.push(Tag { id, name: n.tags@.last().name, reference_count: 0, description: dto.description })
    &&& n.tags@.last().name@ == dto.name@
    &&& n.files@ == o.files@
    &&& n.groups@ == o.groups@
    &&& n.file_groups@ == o.file_groups@
    &&& n.group_tags@ == o.group_tags@
    &&& n.group_relations@ == o.group_relations@
    &&& n.next_tag_id == o.next_tag_id + 1
    &&& n.next_file_id == o.next_file_id
    &&& n.next_group_id == o.next_group_id
}

/// `e` is why a tag as `dto` describes cannot be added to `o`: its name is
/// taken, or no tag id is left.
pub open spec fn tag_creation_refused(o: Database, dto: CreateTagDTO, e: AppError) -> bool {
    &&& (e == AppError::DatabaseError(DbError::UniqueViolation) <==> exists|i: int|
        0 <= i < o.tags@.len() && (#[trigger] o.tags@[i]).name@ == dto.name@)
    &&& (e == AppError::DatabaseError(DbError::UniqueViolation) || e == AppError::DatabaseError(DbError::IdExhausted))
    &&& (e == AppError::DatabaseError(DbError::IdExhausted) ==> o.next_tag_id == i32::MAX)
}

/// Creates a tag named `dto.name` and returns its id. A name that some tag
/// has already is refused.
pub fn create_tag(db: &mut Database, dto: &CreateTagDTO) -> (r: Result<i32, AppError>)
    requires
        old(db).wf(),
    ensures
        final(db).wf(),
        match r {
            Ok(id) => tag_created(*old(db), *final(db), *dto, id),
            Err(e) => tag_creation_refused(*old(db), *dto, e) && *final(db) == *old(db),
        },
{
    db.insert_tag(dto.name.as_str(), copy_text(&dto.description))
}

/// Creates a tag named `name`, without a description, and returns its id.
pub fn create_tag_by_name(db: &mut Database, name: &str) -> (r: Result<i32, AppError>)
    requires
        old(db).wf(),
    ensures
        final(db).wf(),
        match r {
            Ok(id) => {
                &&& id == old(db).next_tag_id
                &&& final(db).tags@ == old(db).tags@.push(Tag {
                    id,
                    name: final(db).tags@.last().name,
                    reference_count: 0,
                    description: None,
                })
                &&& final(db).tags@.last().name@ == name@
                &&& final(db).files@ == old(db).files@
                &&& final(db).groups@ == old(db).groups@
                &&& final(db).file_groups@ == old(db).file_groups@
                &&& final(db).group_tags@ == old(db).group_tags@
                &&& final(db).group_relations@ == old(db).group_relations@
                &&& final(db).next_tag_id == old(db).next_tag_id + 1
                &&& final(db).next_file_id == old(db).next_file_id
                &&& final(db).next_group_id == old(db).next_group_id
            },
            Err(e) => {
                &&& *final(db) == *old(db)
                &&& (e == AppError::DatabaseError(DbError::UniqueViolation) <==> exists|i: int|
                    0 <= i < old(db).tags@.len() && (#[trigger] old(db).tags@[i]).name@ == name@)
                &&& (e == AppError::DatabaseError(DbError::UniqueViolation) || e
                    == AppError::DatabaseError(DbError::IdExhausted))
                &&& (e == AppError::DatabaseError(DbError::IdExhausted) ==> old(db).next_tag_id == i32::MAX)
            },
        },
{
    db.insert_tag(name, None)
}

/// The first tag named `name`, if there is one.
pub fn find_tag_by_name(db: &Database, name: &str) -> (r: Option<Tag>)
    ensures
        match r {
            Some(t) => exists|i: int|
                0 <= i < db.tags@.len() && db.tags@[i] == t && t.name@ == name@ && forall|j: int|
                    0 <= j < i ==> (#[trigger] db.tags@[j]).name@ != name@,
            None => forall|i: int| 0 <= i < db.tags@.len() ==> (#[trigger] db.tags@[i]).name@ != name@,
        },
{
    let mut i: usize = 0;
    while i < db.tags.len()
        invariant
            i <= db.tags@.len(),
            forall|j: int| 0 <= j < i ==> (#[trigger] db.tags@[j]).name@ != name@,
        decreases db.tags@.len() - i,
    {
        if str_eq(db.tags[i].name.as_str(), name) {
            return Some(db.tags[i].clone());
        }
        i = i + 1;
    }
    None
}

/// The tag with id `tag_id`, if there is one.
pub fn find_tag_by_id(db: &Database, tag_id: i32) -> (r: Option<Tag>)
    requires
        db.ids_ok(),
    ensures
        r is Some <==> has_tag(db.tags@, tag_id),
        r is Some ==> r == Some(tag_of(db.tags@, tag_id)),
{
    match db.find_tag_index(tag_id) {
        Some(i) => {
            proof {
                db.lemma_tag_at(i as int);
            }
            Some(db.tags[i].clone())
        },
        None => None,
    }
}

/// The tag with id `tag_id`; a missing tag is reported as `NotFound`.
pub fn get_tag_by_id(db: &Database, tag_id: i32) -> (r: Result<Tag, AppError>)
    requires
        db.ids_ok(),
    ensures
        r is Ok <==> has_tag(db.tags@, tag_id),
        r is Ok ==> r == Ok::<Tag, AppError>(tag_of(db.tags@, tag_id)),
        r is Err ==> r == Err::<Tag, AppError>(AppError::DatabaseError(DbError::NotFound)),
{
    match find_tag_by_id(db, tag_id) {
        Some(t) => Ok(t),
        None => Err(AppError::DatabaseError(DbError::NotFound)),
    }
}

/// `n` is `o` without tag `tid` and its links to groups; every other
/// record and link stays, and the records differ at most in their
/// reference counts.
pub open spec fn tag_purged(o: Database, n: Database, tid: i32) -> bool {
    &&& exists|ti: int|
        0 <= ti < o.tags@.len() && (#[trigger] o.tags@[ti]).id == tid && tags_like(o.tags@.remove(ti), n.tags@)
    &&& files_like(o.files@, n.files@)
    &&& groups_like(o.groups@, n.groups@)
    &&& n.file_groups@ == o.file_groups@
    &&& n.group_relations@ == o.group_relations@
    &&& forall|x: crate::models::GroupTagDTO| #[trigger] n.group_tags@.contains(x) <==> (o.group_tags@.contains(x)
        && x.tag_id != tid)
    &&& n.next_file_id == o.next_file_id
    &&& n.next_group_id == o.next_group_id
    &&& n.next_tag_id == o.next_tag_id
}

/// Deletes tag `tag_id` and its links to groups, each linked group losing
/// one reference, and returns the number of tags deleted (0 when there is
/// no such tag, in which case nothing changes).
pub fn delete_tag(db: &mut Database, tag_id: i32) -> (r: Result<usize, AppError>)
    requires
        old(db).wf(),
    ensures
        final(db).wf(),
        same_next_ids(*old(db), *final(db)),
        r is Ok,
        r == Ok::<usize, AppError>(0) <==> !has_tag(old(db).tags@, tag_id),
        r == Ok::<usize, AppError>(1) <==> has_tag(old(db).tags@, tag_id),
        r == Ok::<usize, AppError>(0) ==> *final(db) == *old(db),
        r == Ok::<usize, AppError>(1) ==> tag_purged(*old(db), *final(db), tag_id),
{
    if db.find_tag_index(tag_id).is_none() {
        return Ok(0);
    }
    let ghost o = *db;
    db.remove_group_links_of_tag(tag_id);
    let ghost mid = *db;
    let ti = db.find_tag_index(tag_id).unwrap();
    proof {
        assert(same_tag(o.tags@[ti as int], mid.tags@[ti as int]));
        assert forall|k: int| 0 <= k < mid.group_tags@.len() implies (#[trigger] mid.group_tags@[k]).tag_id
            != mid.tags@[ti as int].id by {
            assert(mid.group_tags@.contains(mid.group_tags@[k]));
        }
    }
    db.remove_tag_at(ti);
    proof {
        let n = *db;
        assert(tags_like(o.tags@.remove(ti as int), n.tags@)) by {
            assert forall|j: int| 0 <= j < n.tags@.len() implies same_tag(#[trigger] o.tags@.remove(ti as int)[j], n.tags@[j]) by {
                if j < ti {
                    assert(same_tag(o.tags@[j], mid.tags@[j]));
                } else {
                    assert(same_tag(o.tags@[j + 1], mid.tags@[j + 1]));
                }
            }
        }
        lemma_primary_same_links(o, n);
        lemma_tag_names_remove(o.tags@, ti as int);
        lemma_tag_names_like(o.tags@.remove(ti as int), n.tags@);
        lemma_group_names_like(o.groups@, n.groups@);
    }
    Ok(1)
}

/// The error with which updating tag `tid` with `dto` fails, if it does.
pub open spec fn update_tag_error(db: Database, tid: i32, dto: UpdateTagDTO) -> Option<AppError> {
    if dto.reference_count is Some {
        Some(AppError::CannotModifyReferenceCount)
    } else if has_tag(db.tags@, tid) && (dto.name matches Some(nm) && exists|j: int|
        0 <= j < db.tags@.len() && (#[trigger] db.tags@[j]).id != tid && db.tags@[j].name@ == nm@) {
        Some(AppError::DatabaseError(DbError::UniqueViolation))
    } else {
        None
    }
}

/// Every field that `dto` gives, `t` holds: the name and the description.
pub open spec fn tag_shows_update(t: Tag, dto: UpdateTagDTO) -> bool {
    &&& (dto.name matches Some(x) ==> t.name == x)
    &&& (dto.description matches Some(x) ==> t.description == Some(x))
}

/// An updated tag holds every field that the update gives.
pub proof fn lemma_tag_updated_shows(t: Tag, dto: UpdateTagDTO)
    ensures
        tag_shows_update(tag_updated(t, dto), dto),
{
}

/// Tag `t` with the fields that `dto` sets replaced.
pub open spec fn tag_updated(t: Tag, dto: UpdateTagDTO) -> Tag {
    Tag {
        name: match dto.name {
            Some(x) => x,
            None => t.name,
        },
        description: match dto.description {
            Some(x) => Some(x),
            None => t.description,
        },
        ..t
    }
}

impl Database {
    /// Whether a tag other than `tid` is named `name`.
    pub fn tag_name_taken_by_other(&self, name: &str, tid: i32) -> (r: bool)
        ensures
            r == exists|j: int|
                0 <= j < self.tags@.len() && (#[trigger] self.tags@[j]).id != tid && self.tags@[j].name@ == name@,
    {
        let mut i: usize = 0;
        while i < self.tags.len()
            invariant
                i <= self.tags@.len(),
                forall|j: int| 0 <= j < i ==> !((#[trigger] self.tags@[j]).id != tid && self.tags@[j].name@ == name@),
            decreases self.tags@.len() - i,
        {
            if self.tags[i].id != tid && str_eq(self.tags[i].name.as_str(), name) {
                return true;
            }
            i = i + 1;
        }
        false
    }
}

/// Sets the fields of tag `tag_id` that `dto` gives and returns the number
/// of tags changed: 1, or 0 when there is no such tag.
pub fn update_tag_by_id(db: &mut Database, tag_id: i32, dto: UpdateTagDTO) -> (r: Result<usize, AppError>)
    requires
        old(db).wf(),
    ensures
        final(db).wf(),
        same_next_ids(*old(db), *final(db)),
        r == Ok::<usize, AppError>(1) ==> forall|j: int|
            0 <= j < final(db).tags@.len() && (#[trigger] final(db).tags@[j]).id == tag_id ==> tag_shows_update(
                final(db).tags@[j],
                dto,
            ),
        match r {
            Ok(c) => {
                &&& update_tag_error(*old(db), tag_id, dto) is None
                &&& (c == 1) == has_tag(old(db).tags@, tag_id)
                &&& (c == 0) == !has_tag(old(db).tags@, tag_id)
                &&& c == 0 ==> *final(db) == *old(db)
                &&& c == 1 ==> exists|ti: int|
                    0 <= ti < old(db).tags@.len() && (#[trigger] old(db).tags@[ti]).id == tag_id
                        && final(db).tags@ == old(db).tags@.update(ti, tag_updated(old(db).tags@[ti], dto))
                &&& final(db).files@ == old(db).files@
                &&& final(db).groups@ == old(db).groups@
                &&& final(db).file_groups@ == old(db).file_groups@
                &&& final(db).group_tags@ == old(db).group_tags@
                &&& final(db).group_relations@ == old(db).group_relations@
            },
            Err(e) => {
                &&& update_tag_error(*old(db), tag_id, dto) == Some(e)
                &&& *final(db) == *old(db)
            },
        },
{
    if dto.reference_count.is_some() {
        return Err(AppError::CannotModifyReferenceCount);
    }
    let ti = match db.find_tag_index(tag_id) {
        Some(i) => i,
        None => {
            return Ok(0);
        },
    };
    match &dto.name {
        Some(nm) => {
            if db.tag_name_taken_by_other(nm.as_str(), tag_id) {
                return Err(AppError::DatabaseError(DbError::UniqueViolation));
            }
        },
        None => {},
    }
    let ghost o = *db;
    let ghost d = dto;
    let mut t = db.tags[ti].clone();
    let UpdateTagDTO { name, reference_count: _, description } = dto;
    match name {
        Some(x) => {
            t.name = x;
        },
        None => {},
    }
    match description {
        Some(x) => {
            t.description = Some(x);
        },
        None => {},
    }
    proof {
        assert(t == tag_updated(o.tags@[ti as int], d));
        assert(tag_shows_update(t, d));
    }
    db.tags.set(ti, t);
    proof {
        let n = *db;
        assert(same_shape(o, n));
        lemma_wf_same_shape(o, n);
        assert forall|j: int| 0 <= j < n.tags@.len() && (#[trigger] n.tags@[j]).id == tag_id implies tag_shows_update(
            n.tags@[j],
            d,
        ) by {
            if j != ti {
                assert(n.tags@[j].id != n.tags@[ti as int].id);
            }
        }
    }
    Ok(1)
}

/// The tags that satisfy every condition of `conditions`, in table
/// order, cut to `limit` when a non-negative limit is given.
pub fn select_tags_by_conditions(db: &Database, conditions: Vec<TagCondition>, limit: Option<i64>) -> (r: Result<Vec<Tag>, AppError>)
    ensures
        match r {
            Ok(v) => v@ == take_limit(tags_where(db.tags@, conditions@), limit),
            Err(_) => false,
        },
{
    let mut out: Vec<Tag> = Vec::new();
    let mut i: usize = 0;
    while i < db.tags.len()
        invariant
            i <= db.tags@.len(),
            out@ == tags_where(db.tags@.take(i as int), conditions@),
        decreases db.tags@.len() - i,
    {
        proof {
            assert(db.tags@.take(i + 1).drop_last() =~= db.tags@.take(i as int));
        }
        match eval_all_tag_conditions(&conditions, &db.tags[i]) {
            Some(true) => {
                out.push(db.tags[i].clone());
            },
            _ => {},
        }
        i = i + 1;
    }
    proof {
        assert(db.tags@.take(i as int) =~= db.tags@);
    }
    apply_limit(&mut out, limit);
    Ok(out)
}

/// A tag `x` meets `filter` when it has every value the filter gives:
/// the same number or flag, and text matching the given SQL `LIKE` pattern.
pub open spec fn tag_meets_filter(x: Tag, filter: TagFilter) -> bool {
    &&& (filter.id matches Some(v) ==> x.id == v)
    &&& (filter.name matches Some(v) ==> like_match(x.name@, v@))
    &&& (filter.reference_count matches Some(v) ==> x.reference_count == v)
}

/// The conditions that a filter stands for are all true of a tag exactly
/// when the tag meets the filter.
pub proof fn law_tag_filter_meaning(filter: TagFilter, x: Tag)
    ensures
        (tag_eval_all(tag_filter_conditions(filter), x) == Some(true)) == tag_meets_filter(x, filter),
{
    let f = filter;
    let s0 = Seq::<TagCondition>::empty();
    let s1 = push_opt(s0, f.id is Some, TagCondition::Id(f.id->0));
    lemma_tag_eval_all_push_opt(s0, f.id is Some, TagCondition::Id(f.id->0), x);
    let s2 = push_opt(s1, f.name is Some, TagCondition::NameLike(f.name->0));
    lemma_tag_eval_all_push_opt(s1, f.name is Some, TagCondition::NameLike(f.name->0), x);
    let s3 = push_opt(s2, f.reference_count is Some, TagCondition::ReferenceCount(f.reference_count->0));
    lemma_tag_eval_all_push_opt(s2, f.reference_count is Some, TagCondition::ReferenceCount(f.reference_count->0), x);
    assert(tag_filter_conditions(filter) == s3);
}

/// The conditions that filter `f` stands for: equality on ids, numbers,
/// flags and times, `LIKE` on texts, one condition per field given.
pub open spec fn tag_filter_conditions(f: TagFilter) -> Seq<TagCondition> {
    let s0 = Seq::<TagCondition>::empty();
    let s1 = push_opt(s0, f.id is Some, TagCondition::Id(f.id->0));
    let s2 = push_opt(s1, f.name is Some, TagCondition::NameLike(f.name->0));
    let s3 = push_opt(s2, f.reference_count is Some, TagCondition::ReferenceCount(f.reference_count->0));
    s3
}

/// The conditions that filter `filter` stands for.
pub fn tag_filter_to_conditions(filter: TagFilter) -> (r: Vec<TagCondition>)
    ensures
        r@ == tag_filter_conditions(filter),
        forall|x: Tag| (#[trigger] tag_eval_all(r@, x) == Some(true)) == tag_meets_filter(x, filter),
{
    let ghost f = filter;
    let ghost mut acc: Seq<TagCondition> = Seq::empty();
    let mut c: Vec<TagCondition> = Vec::new();
    let TagFilter { id, name, reference_count } = filter;
    match id {
        Some(x) => {
            c.push(TagCondition::Id(x));
        },
        None => {},
    }
    proof {
        acc = push_opt(acc, f.id is Some, TagCondition::Id(f.id->0));
        assert(c@ == acc);
    }
    match name {
        Some(x) => {
            c.push(TagCondition::NameLike(x));
        },
        None => {},
    }
    proof {
        acc = push_opt(acc, f.name is Some, TagCondition::NameLike(f.name->0));
        assert(c@ == acc);
    }
    match reference_count {
        Some(x) => {
            c.push(TagCondition::ReferenceCount(x));
        },
        None => {},
    }
    proof {
        acc = push_opt(acc, f.reference_count is Some, TagCondition::ReferenceCount(f.reference_count->0));
        assert(c@ == acc);
    }
    proof {
        assert forall|x: Tag| (#[trigger] tag_eval_all(c@, x) == Some(true)) == tag_meets_filter(x, filter) by {
            law_tag_filter_meaning(f, x);
        }
    }
    c
}

/// The tags that filter `filter` selects, in table order, cut to the
/// limit.
pub fn select_tags_by_filter(db: &Database, filter: TagFilter, limit: i64) -> (r: Result<Vec<Tag>, AppError>)
    ensures
        match r {
            Ok(v) => v@ == take_limit(tags_where(db.tags@, tag_filter_conditions(filter)), Some(limit)),
            Err(_) => false,
        },
        r matches Ok(v) ==> forall|i: int|
            0 <= i < v@.len() ==> db.tags@.contains(#[trigger] v@[i]) && tag_meets_filter(v@[i], filter),
{
    let r = select_tags_by_conditions(db, tag_filter_to_conditions(filter), Some(limit));
    proof {
        let w = tags_where(db.tags@, tag_filter_conditions(filter));
        crate::query::lemma_tags_where_members(db.tags@, tag_filter_conditions(filter));
        assert forall|x: Tag| #[trigger] w.contains(x) implies db.tags@.contains(x) && tag_meets_filter(x, filter) by {
            law_tag_filter_meaning(filter, x);
        }
        assert forall|x: Tag| db.tags@.contains(x) && tag_meets_filter(x, filter) implies #[trigger] w.contains(x) by {
            law_tag_filter_meaning(filter, x);
        }
        if r is Ok {
            let v = r->Ok_0;
            assert forall|i: int| 0 <= i < v@.len() implies db.tags@.contains(#[trigger] v@[i]) && tag_meets_filter(v@[i], filter) by {
                assert(v@[i] == w[i]);
                assert(w.contains(w[i]));
            }
        }
    }
    r
}

/// The tags that group `group_id` carries, one per link, in link order.
pub open spec fn tags_of_group(links: Seq<GroupTagDTO>, recs: Seq<Tag>, x: i32) -> Seq<Tag>
    decreases links.len(),
{
    if links.len() == 0 {
        Seq::empty()
    } else {
        let rest = tags_of_group(links.drop_last(), recs, x);
        if links.last().group_id == x {
            rest.push(tag_of(recs, links.last().tag_id))
        } else {
            rest
        }
    }
}

/// The records that `tags_of_group` lists from the first `n` links are exactly
/// the records that one of those links joins to `x`.
proof fn lemma_tags_of_group_members(db: Database, x: i32, n: int)
    requires
        db.core_ok(),
        0 <= n <= db.group_tags@.len(),
    ensures
        forall|g: Tag|
            #[trigger] tags_of_group(db.group_tags@.take(n), db.tags@, x).contains(g) <==> (db.tags@.contains(g) && exists|k: int|
                0 <= k < n && (#[trigger] db.group_tags@[k]).group_id == x && db.group_tags@[k].tag_id == g.id),
    decreases n,
{
    let links = db.group_tags@.take(n);
    if n > 0 {
        lemma_tags_of_group_members(db, x, n - 1);
        let prev = db.group_tags@.take(n - 1);
        assert(links.drop_last() =~= prev);
        let l = db.group_tags@[n - 1];
        assert(links.last() == l);
        let rest = tags_of_group(prev, db.tags@, x);
        assert(has_tag(db.tags@, l.tag_id));
        let hi = choose|i: int| 0 <= i < db.tags@.len() && (#[trigger] db.tags@[i]).id == l.tag_id;
        db.lemma_tag_at(hi);
        let h = tag_of(db.tags@, l.tag_id);
        assert(h == db.tags@[hi]);
        assert forall|g: Tag|
            #[trigger] tags_of_group(links, db.tags@, x).contains(g) <==> (db.tags@.contains(g) && exists|k: int|
                0 <= k < n && (#[trigger] db.group_tags@[k]).group_id == x && db.group_tags@[k].tag_id == g.id) by {
            let out = tags_of_group(links, db.tags@, x);
            if l.group_id == x {
                assert(out == rest.push(h));
            } else {
                assert(out == rest);
            }
            if out.contains(g) {
                let q = choose|q: int| 0 <= q < out.len() && out[q] == g;
                if q < rest.len() {
                    assert(rest[q] == g);
                    assert(rest.contains(g));
                    let k = choose|k: int|
                        0 <= k < n - 1 && (#[trigger] db.group_tags@[k]).group_id == x && db.group_tags@[k].tag_id == g.id;
                    assert(db.group_tags@[k].group_id == x);
                } else {
                    assert(g == h);
                    assert(db.tags@.contains(g));
                    assert(db.group_tags@[n - 1].group_id == x);
                }
            }
            if db.tags@.contains(g) && exists|k: int|
                0 <= k < n && (#[trigger] db.group_tags@[k]).group_id == x && db.group_tags@[k].tag_id == g.id {
                let k = choose|k: int| 0 <= k < n && (#[trigger] db.group_tags@[k]).group_id == x && db.group_tags@[k].tag_id == g.id;
                if k < n - 1 {
                    assert(rest.contains(g));
                    let q = choose|q: int| 0 <= q < rest.len() && rest[q] == g;
                    assert(out[q] == g);
                } else {
                    let j = choose|j: int| 0 <= j < db.tags@.len() && db.tags@[j] == g;
                    db.lemma_tag_at(j);
                    assert(g == h);
                    assert(out[rest.len() as int] == h);
                }
            }
        }
    }
}

/// The tags that group `group_id` carries.
pub fn select_tag_by_group_id(db: &Database, group_id: i32) -> (r: Result<Vec<Tag>, AppError>)
    requires
        db.core_ok(),
    ensures
        match r {
            Ok(v) => v@ == tags_of_group(db.group_tags@, db.tags@, group_id),
            Err(_) => false,
        },
        r matches Ok(v) ==> forall|g: Tag|
            #[trigger] v@.contains(g) <==> (db.tags@.contains(g) && exists|k: int|
                0 <= k < db.group_tags@.len() && (#[trigger] db.group_tags@[k]).group_id == group_id && db.group_tags@[k].tag_id == g.id),
{
    let mut out: Vec<Tag> = Vec::new();
    let mut k: usize = 0;
    while k < db.group_tags.len()
        invariant
            db.core_ok(),
            k <= db.group_tags@.len(),
            out@ == tags_of_group(db.group_tags@.take(k as int), db.tags@, group_id),
        decreases db.group_tags@.len() - k,
    {
        proof {
            assert(db.group_tags@.take(k + 1).drop_last() =~= db.group_tags@.take(k as int));
        }
        if db.group_tags[k].group_id == group_id {
            let other = db.group_tags[k].tag_id;
            proof {
                assert(has_tag(db.tags@, db.group_tags@[k as int].tag_id));
            }
            let j = db.find_tag_index(other).unwrap();
            proof {
                db.lemma_tag_at(j as int);
            }
            out.push(db.tags[j].clone());
        }
        k = k + 1;
    }
    proof {
        assert(db.group_tags@.take(k as int) =~= db.group_tags@);
    }
    proof {
        lemma_tags_of_group_members(*db, group_id, db.group_tags@.len() as int);
        assert(db.group_tags@.take(db.group_tags@.len() as int) =~= db.group_tags@);
    }
    Ok(out)
}

/// `s` holds the tags of `rows` arranged as `order_by` asks: as they
/// are when it is empty, otherwise sorted by its last entry (a later
/// ordering replaces an earlier one).
pub open spec fn tags_arranged(rows: Seq<Tag>, s: Seq<Tag>, order_by: Seq<TagOrderBy>) -> bool {
    if order_by.len() == 0 {
        s == rows
    } else {
        s.to_multiset() == rows.to_multiset() && tags_sorted(s, order_by.last())
    }
}

/// The tags that satisfy every condition of `conditions`, ordered,
/// skipped and cut as `options` asks.
pub fn select_tags_by_conditions_with_options(db: &Database, conditions: Vec<TagCondition>, options: TagQueryOptions) -> (r: Result<Vec<Tag>, AppError>)
    ensures
        match r {
            Ok(v) => exists|s: Seq<Tag>|
                tags_arranged(tags_where(db.tags@, conditions@), s, options.order_by@) && v@ == take_limit(
                    skip_offset(s, options.offset),
                    options.limit,
                ),
            Err(_) => false,
        },
{
    let ghost cs = conditions@;
    let rows = match select_tags_by_conditions(db, conditions, None) {
        Ok(v) => v,
        Err(e) => {
            return Err(e);
        },
    };
    let n = options.order_by.len();
    let arranged = if n == 0 {
        rows
    } else {
        sort_tags(&rows, options.order_by[n - 1])
    };
    let ghost s = arranged@;
    let mut v = apply_offset(arranged, options.offset);
    apply_limit(&mut v, options.limit);
    proof {
        assert(tags_arranged(tags_where(db.tags@, cs), s, options.order_by@));
    }
    Ok(v)
}

/// The tags that filter `filter` selects, ordered, skipped and cut as
/// `options` asks.
pub fn select_tags_by_filter_with_options(db: &Database, filter: TagFilter, options: TagQueryOptions) -> (r: Result<Vec<Tag>, AppError>)
    ensures
        match r {
            Ok(v) => exists|s: Seq<Tag>|
                tags_arranged(tags_where(db.tags@, tag_filter_conditions(filter)), s, options.order_by@) && v@
                    == take_limit(skip_offset(s, options.offset), options.limit),
            Err(_) => false,
        },
{
    select_tags_by_conditions_with_options(db, tag_filter_to_conditions(filter), options)
}

/// The two catalogues agree on every table but `tags`, and on the next ids.
pub open spec fn same_tables_but_tags(a: Database, b: Database) -> bool {
    &&& b.files@ == a.files@
    &&& b.groups@ == a.groups@
    &&& b.file_groups@ == a.file_groups@
    &&& b.group_tags@ == a.group_tags@
    &&& b.group_relations@ == a.group_relations@
    &&& b.next_file_id == a.next_file_id
    &&& b.next_group_id == a.next_group_id
    &&& b.next_tag_id == a.next_tag_id
}

/// Record `x` with the fields that `dto` sets replaced.
pub fn tag_with(x: &Tag, dto: &UpdateTagDTO) -> (r: Tag)
    ensures
        r == tag_updated(*x, *dto),
        tag_shows_update(r, *dto),
{
    let mut r = x.clone();
    match &dto.name {
        Some(x) => {
            r.name = x.clone();
        },
        None => {},
    }
    match &dto.description {
        Some(x) => {
            r.description = Some(x.clone());
        },
        None => {},
    }
    r
}

/// `x` satisfies every condition of `cs`.
pub open spec fn tag_selected(cs: Seq<TagCondition>, x: Tag) -> bool {
    tag_eval_all(cs, x) == Some(true)
}

/// The error with which updating the tags that satisfy `cs` with `dto`
/// fails, if it does: as for one tag, and a new name may go to one tag
/// only, and not to one whose name another tag has.
pub open spec fn update_tags_error(db: Database, cs: Seq<TagCondition>, dto: UpdateTagDTO) -> Option<AppError> {
    if dto.reference_count is Some {
        Some(AppError::CannotModifyReferenceCount)
    } else if (dto.name matches Some(nm) && (tags_where(db.tags@, cs).len() >= 2 || (tags_where(db.tags@, cs).len() == 1
        && exists|j: int| 0 <= j < db.tags@.len() && !tag_selected(cs, #[trigger] db.tags@[j]) && db.tags@[j].name@ == nm@))) {
        Some(AppError::DatabaseError(DbError::UniqueViolation))
    } else {
        None
    }
}

/// Sets the fields that `dto` gives on every tag that satisfies all of
/// `conditions`, as one statement does, and returns how many changed.
pub fn update_tags_by_conditions(db: &mut Database, conditions: Vec<TagCondition>, dto: UpdateTagDTO) -> (r: Result<usize, AppError>)
    requires
        old(db).wf(),
    ensures
        final(db).wf(),
        same_next_ids(*old(db), *final(db)),
        match r {
            Ok(c) => {
                &&& update_tags_error(*old(db), conditions@, dto) is None
                &&& c == tags_where(old(db).tags@, conditions@).len()
                &&& final(db).tags@.len() == old(db).tags@.len()
                &&& forall|i: int| 0 <= i < old(db).tags@.len() ==> #[trigger] final(db).tags@[i] == if tag_selected(
                    conditions@,
                    old(db).tags@[i],
                ) {
                    tag_updated(old(db).tags@[i], dto)
                } else {
                    old(db).tags@[i]
                }
                &&& forall|i: int|
                    0 <= i < old(db).tags@.len() && tag_selected(conditions@, old(db).tags@[i])
                        ==> tag_shows_update(#[trigger] final(db).tags@[i], dto)
                &&& same_tables_but_tags(*old(db), *final(db))
            },
            Err(e) => {
                &&& update_tags_error(*old(db), conditions@, dto) == Some(e)
                &&& *final(db) == *old(db)
            },
        },
{
    let ghost o = *db;
    let ghost cs = conditions@;
    if dto.reference_count.is_some() {
        return Err(AppError::CannotModifyReferenceCount);
    }
    let mut count: usize = 0;
    let mut only: usize = 0;
    let mut i: usize = 0;
    while i < db.tags.len()
        invariant
            *db == o,
            o == *old(db),
            dto.reference_count is None,
            o.wf(),
            i <= db.tags@.len(),
            count == tags_where(db.tags@.take(i as int), conditions@).len(),
            count <= i,
            count == 1 ==> only < i && tag_selected(conditions@, db.tags@[only as int]) && forall|j: int|
                0 <= j < i && j != only ==> !tag_selected(conditions@, #[trigger] db.tags@[j]),
            count == 0 ==> forall|j: int| 0 <= j < i ==> !tag_selected(conditions@, #[trigger] db.tags@[j]),
        decreases db.tags@.len() - i,
    {
        proof {
            assert(db.tags@.take(i + 1).drop_last() =~= db.tags@.take(i as int));
        }
        match eval_all_tag_conditions(&conditions, &db.tags[i]) {
            Some(true) => {
                if count == 0 {
                    only = i;
                }
                count = count + 1;
            },
            _ => {},
        }
        i = i + 1;
    }
    proof {
        assert(db.tags@.take(i as int) =~= db.tags@);
    }
    match &dto.name {
        Some(nm) => {
            if count >= 2 {
                return Err(AppError::DatabaseError(DbError::UniqueViolation));
            }
            if count == 1 {
                let mut j: usize = 0;
                while j < db.tags.len()
                    invariant
                        *db == o,
                        o == *old(db),
                        dto.reference_count is None,
                        dto.name == Some(*nm),
                        o.wf(),
                        j <= db.tags@.len(),
                        count == 1,
                        count == tags_where(db.tags@, conditions@).len(),
                        only < db.tags@.len(),
                        forall|q: int| 0 <= q < db.tags@.len() && q != only ==> !tag_selected(conditions@, #[trigger] db.tags@[q]),
                        forall|q: int| 0 <= q < j && q != only ==> (#[trigger] db.tags@[q]).name@ != nm@,
                    decreases db.tags@.len() - j,
                {
                    if j != only && str_eq(db.tags[j].name.as_str(), nm.as_str()) {
                        proof {
                            assert(!tag_selected(conditions@, db.tags@[j as int]));
                            assert(db.tags@[j as int].name@ == dto.name->0@);
                        }
                        return Err(AppError::DatabaseError(DbError::UniqueViolation));
                    }
                    j = j + 1;
                }
            }
        },
        None => {},
    }
    let mut i: usize = 0;
    while i < db.tags.len()
        invariant
            o.wf(),
            db.tags@.len() == o.tags@.len(),
            i <= db.tags@.len(),
            forall|j: int| 0 <= j < i ==> #[trigger] db.tags@[j] == if tag_selected(cs, o.tags@[j]) {
                tag_updated(o.tags@[j], dto)
            } else {
                o.tags@[j]
            },
            forall|j: int| i <= j < db.tags@.len() ==> #[trigger] db.tags@[j] == o.tags@[j],
            cs == conditions@,
            same_tables_but_tags(o, *db),
        decreases db.tags@.len() - i,
    {
        match eval_all_tag_conditions(&conditions, &db.tags[i]) {
            Some(true) => {
                let x = tag_with(&db.tags[i], &dto);
                db.tags.set(i, x);
            },
            _ => {},
        }
        i = i + 1;
    }
    proof {
        let n = *db;
        assert(crate::rows::same_shape(o, n));
        crate::rows::lemma_wf_same_shape(o, n);
        assert forall|i: int|
            0 <= i < o.tags@.len() && tag_selected(cs, o.tags@[i]) implies tag_shows_update(#[trigger] n.tags@[i], dto) by {
            lemma_tag_updated_shows(o.tags@[i], dto);
        }
    }
    Ok(count)
}

} // verus!

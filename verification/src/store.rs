//! The catalogue's tables held in memory, the invariant that ties them
//! together, and the row-level operations (lookups, inserts, link and
//! unlink with reference counting) from which the services are built.
//!
//! The invariant says that identifiers are unique, that every link names
//! existing records, that no link is stored twice, that every record's
//! `reference_count` equals the number of links that name it, and that
//! every file owns exactly its primary group, and that no two groups and no
//! two tags share a name.
use vstd::prelude::*;
use crate::counts::{
    fg_count_file, fg_count_group, gt_count_group, gt_count_tag, rel_count_first, rel_count_second,
    lemma_fg_count_group_zero, lemma_gt_count_group_zero,
    lemma_gt_count_tag_zero, lemma_rel_count_first_zero, lemma_rel_count_second_zero,
};
use crate::errors::{AppError, DbError};
use crate::models::{File, FileGroupDTO, Group, GroupRelation, GroupTagDTO, Tag};
use crate::text::str_eq;

verus! {

/// All tables of the catalogue, with the next identifiers to hand out.
#[derive(Debug)]
pub struct Database {
    pub files: Vec<File>,
    pub groups: Vec<Group>,
    pub tags: Vec<Tag>,
    pub file_groups: Vec<FileGroupDTO>,
    pub group_tags: Vec<GroupTagDTO>,
    pub group_relations: Vec<GroupRelation>,
    pub next_file_id: i32,
    pub next_group_id: i32,
    pub next_tag_id: i32,
}

pub open spec fn has_file(fs: Seq<File>, id: i32) -> bool {
    exists|i: int| 0 <= i < fs.len() && (#[trigger] fs[i]).id == id
}

pub open spec fn has_group(gs: Seq<Group>, id: i32) -> bool {
    exists|i: int| 0 <= i < gs.len() && (#[trigger] gs[i]).id == id
}

pub open spec fn has_tag(ts: Seq<Tag>, id: i32) -> bool {
    exists|i: int| 0 <= i < ts.len() && (#[trigger] ts[i]).id == id
}

/// Some group with id `id` is marked primary.
pub open spec fn is_primary_group(gs: Seq<Group>, id: i32) -> bool {
    exists|i: int| 0 <= i < gs.len() && (#[trigger] gs[i]).id == id && gs[i].is_primary
}

/// The link from file `fid` to group `gid` is stored.
pub open spec fn has_fg_link(s: Seq<FileGroupDTO>, fid: i32, gid: i32) -> bool {
    exists|k: int| 0 <= k < s.len() && (#[trigger] s[k]).file_id == fid && s[k].group_id == gid
}

/// Some file has group `gid` as its primary group.
pub open spec fn has_owner(fs: Seq<File>, gid: i32) -> bool {
    exists|i: int| 0 <= i < fs.len() && (#[trigger] fs[i]).group_id == gid
}

/// File `fid` is in `fs` and has group `gid` as its primary group.
pub open spec fn owns(fs: Seq<File>, fid: i32, gid: i32) -> bool {
    exists|i: int| 0 <= i < fs.len() && (#[trigger] fs[i]).id == fid && fs[i].group_id == gid
}

/// Number of links (to files, to tags, and relations at either end) that
/// name group `id`.
pub open spec fn group_refs(
    fgs: Seq<FileGroupDTO>,
    gts: Seq<GroupTagDTO>,
    rels: Seq<GroupRelation>,
    id: i32,
) -> nat {
    fg_count_group(fgs, id) + gt_count_group(gts, id) + rel_count_first(rels, id) + rel_count_second(
        rels,
        id,
    )
}

/// No two groups of `gs` share a name.
pub open spec fn group_names_unique(gs: Seq<Group>) -> bool {
    forall|i: int, j: int|
        0 <= i < gs.len() && 0 <= j < gs.len() && i != j ==> (#[trigger] gs[i]).name@ != (#[trigger] gs[j]).name@
}

/// No two tags of `ts` share a name.
pub open spec fn tag_names_unique(ts: Seq<Tag>) -> bool {
    forall|i: int, j: int|
        0 <= i < ts.len() && 0 <= j < ts.len() && i != j ==> (#[trigger] ts[i]).name@ != (#[trigger] ts[j]).name@
}

/// `n` will give the next file, group and tag the same ids as `o`.
pub open spec fn same_next_ids(o: Database, n: Database) -> bool {
    &&& n.next_file_id == o.next_file_id
    &&& n.next_group_id == o.next_group_id
    &&& n.next_tag_id == o.next_tag_id
}

impl Database {
    pub open spec fn ids_ok(&self) -> bool {
        &&& 0 < self.next_file_id
        &&& 0 < self.next_group_id
        &&& 0 < self.next_tag_id
        &&& forall|i: int|
            0 <= i < self.files@.len() ==> 0 < (#[trigger] self.files@[i]).id < self.next_file_id
        &&& forall|i: int, j: int|
            0 <= i < self.files@.len() && 0 <= j < self.files@.len() && i != j ==> (
            #[trigger] self.files@[i]).id != (#[trigger] self.files@[j]).id
        &&& forall|i: int|
            0 <= i < self.groups@.len() ==> 0 < (#[trigger] self.groups@[i]).id
                < self.next_group_id
        &&& forall|i: int, j: int|
            0 <= i < self.groups@.len() && 0 <= j < self.groups@.len() && i != j ==> (
            #[trigger] self.groups@[i]).id != (#[trigger] self.groups@[j]).id
        &&& forall|i: int|
            0 <= i < self.tags@.len() ==> 0 < (#[trigger] self.tags@[i]).id < self.next_tag_id
        &&& forall|i: int, j: int|
            0 <= i < self.tags@.len() && 0 <= j < self.tags@.len() && i != j ==> (
            #[trigger] self.tags@[i]).id != (#[trigger] self.tags@[j]).id
    }

    pub open spec fn links_ok(&self) -> bool {
        &&& forall|k: int|
            0 <= k < self.file_groups@.len() ==> has_file(
                self.files@,
                (#[trigger] self.file_groups@[k]).file_id,
            ) && has_group(self.groups@, self.file_groups@[k].group_id)
        &&& forall|k: int|
            0 <= k < self.group_tags@.len() ==> has_group(
                self.groups@,
                (#[trigger] self.group_tags@[k]).group_id,
            ) && has_tag(self.tags@, self.group_tags@[k].tag_id)
        &&& forall|k: int|
            0 <= k < self.group_relations@.len() ==> has_group(
                self.groups@,
                (#[trigger] self.group_relations@[k]).first_group_id,
            ) && has_group(self.groups@, self.group_relations@[k].second_group_id)
                && self.group_relations@[k].first_group_id
                != self.group_relations@[k].second_group_id
    }

    pub open spec fn rows_unique(&self) -> bool {
        &&& forall|k: int, l: int|
            0 <= k < self.file_groups@.len() && 0 <= l < self.file_groups@.len() && k != l ==> !(
            (#[trigger] self.file_groups@[k]).file_id == (#[trigger] self.file_groups@[l]).file_id
                && self.file_groups@[k].group_id == self.file_groups@[l].group_id)
        &&& forall|k: int, l: int|
            0 <= k < self.group_tags@.len() && 0 <= l < self.group_tags@.len() && k != l ==> !(
            (#[trigger] self.group_tags@[k]).group_id == (#[trigger] self.group_tags@[l]).group_id
                && self.group_tags@[k].tag_id == self.group_tags@[l].tag_id)
        &&& forall|k: int, l: int|
            0 <= k < self.group_relations@.len() && 0 <= l < self.group_relations@.len() && k
                != l ==> (#[trigger] self.group_relations@[k]) != (
            #[trigger] self.group_relations@[l])
    }

    pub open spec fn counts_ok(&self) -> bool {
        &&& forall|i: int|
            0 <= i < self.files@.len() ==> (#[trigger] self.files@[i]).reference_count
                == fg_count_file(self.file_groups@, self.files@[i].id)
        &&& forall|i: int|
            0 <= i < self.groups@.len() ==> (#[trigger] self.groups@[i]).reference_count
                == group_refs(
                self.file_groups@,
                self.group_tags@,
                self.group_relations@,
                self.groups@[i].id,
            )
        &&& forall|i: int|
            0 <= i < self.tags@.len() ==> (#[trigger] self.tags@[i]).reference_count
                == gt_count_tag(self.group_tags@, self.tags@[i].id)
    }

    pub open spec fn primary_ok(&self) -> bool {
        &&& forall|i: int|
            0 <= i < self.files@.len() ==> has_fg_link(
                self.file_groups@,
                (#[trigger] self.files@[i]).id,
                self.files@[i].group_id,
            ) && is_primary_group(self.groups@, self.files@[i].group_id)
        &&& forall|i: int, j: int|
            0 <= i < self.files@.len() && 0 <= j < self.files@.len() && i != j ==> (
            #[trigger] self.files@[i]).group_id != (#[trigger] self.files@[j]).group_id
        &&& forall|k: int, j: int|
            0 <= k < self.file_groups@.len() && 0 <= j < self.groups@.len() && (
            #[trigger] self.groups@[j]).id == (#[trigger] self.file_groups@[k]).group_id
                && self.groups@[j].is_primary ==> owns(
                self.files@,
                self.file_groups@[k].file_id,
                self.file_groups@[k].group_id,
            )
        &&& forall|j: int|
            0 <= j < self.groups@.len() && (#[trigger] self.groups@[j]).is_primary ==> has_owner(
                self.files@,
                self.groups@[j].id,
            )
    }

    /// Identifiers, links, uniqueness of links and reference counts agree.
    pub open spec fn core_ok(&self) -> bool {
        &&& self.ids_ok()
        &&& self.links_ok()
        &&& self.rows_unique()
        &&& self.counts_ok()
    }

    /// No two groups share a name, and no two tags.
    pub open spec fn names_ok(&self) -> bool {
        &&& group_names_unique(self.groups@)
        &&& tag_names_unique(self.tags@)
    }

    /// The invariant of the catalogue.
    pub open spec fn wf(&self) -> bool {
        &&& self.core_ok()
        &&& self.primary_ok()
        &&& self.names_ok()
    }

    /// An empty catalogue, whose first file, group and tag will get id 1.
    pub fn new() -> (r: Database)
        ensures
            r.wf(),
            r.next_file_id == 1,
            r.next_group_id == 1,
            r.next_tag_id == 1,
            r.files@.len() == 0,
            r.groups@.len() == 0,
            r.tags@.len() == 0,
            r.file_groups@.len() == 0,
            r.group_tags@.len() == 0,
            r.group_relations@.len() == 0,
    {
        Database {
            files: Vec::new(),
            groups: Vec::new(),
            tags: Vec::new(),
            file_groups: Vec::new(),
            group_tags: Vec::new(),
            group_relations: Vec::new(),
            next_file_id: 1,
            next_group_id: 1,
            next_tag_id: 1,
        }
    }

    /// Position of the file with id `id`.
    pub fn find_file_index(&self, id: i32) -> (r: Option<usize>)
        ensures
            match r {
                Some(i) => i < self.files@.len() && self.files@[i as int].id == id,
                None => !has_file(self.files@, id),
            },
    {
        let mut i: usize = 0;
        while i < self.files.len()
            invariant
                i <= self.files@.len(),
                forall|j: int| 0 <= j < i ==> (#[trigger] self.files@[j]).id != id,
            decreases self.files@.len() - i,
        {
            if self.files[i].id == id {
                return Some(i);
            }
            i = i + 1;
        }
        None
    }

    /// Position of the group with id `id`.
    pub fn find_group_index(&self, id: i32) -> (r: Option<usize>)
        ensures
            match r {
                Some(i) => i < self.groups@.len() && self.groups@[i as int].id == id,
                None => !has_group(self.groups@, id),
            },
    {
        let mut i: usize = 0;
        while i < self.groups.len()
            invariant
                i <= self.groups@.len(),
                forall|j: int| 0 <= j < i ==> (#[trigger] self.groups@[j]).id != id,
            decreases self.groups@.len() - i,
        {
            if self.groups[i].id == id {
                return Some(i);
            }
            i = i + 1;
        }
        None
    }

    /// Position of the tag with id `id`.
    pub fn find_tag_index(&self, id: i32) -> (r: Option<usize>)
        ensures
            match r {
                Some(i) => i < self.tags@.len() && self.tags@[i as int].id == id,
                None => !has_tag(self.tags@, id),
            },
    {
        let mut i: usize = 0;
        while i < self.tags.len()
            invariant
                i <= self.tags@.len(),
                forall|j: int| 0 <= j < i ==> (#[trigger] self.tags@[j]).id != id,
            decreases self.tags@.len() - i,
        {
            if self.tags[i].id == id {
                return Some(i);
            }
            i = i + 1;
        }
        None
    }

    /// Whether some group is named `name`.
    pub fn group_name_taken(&self, name: &str) -> (r: bool)
        ensures
            r == exists|i: int| 0 <= i < self.groups@.len() && (#[trigger] self.groups@[i]).name@ == name@,
    {
        let mut i: usize = 0;
        while i < self.groups.len()
            invariant
                i <= self.groups@.len(),
                forall|j: int| 0 <= j < i ==> (#[trigger] self.groups@[j]).name@ != name@,
            decreases self.groups@.len() - i,
        {
            if str_eq(self.groups[i].name.as_str(), name) {
                return true;
            }
            i = i + 1;
        }
        false
    }

    /// Whether some tag is named `name`.
    pub fn tag_name_taken(&self, name: &str) -> (r: bool)
        ensures
            r == exists|i: int| 0 <= i < self.tags@.len() && (#[trigger] self.tags@[i]).name@ == name@,
    {
        let mut i: usize = 0;
        while i < self.tags.len()
            invariant
                i <= self.tags@.len(),
                forall|j: int| 0 <= j < i ==> (#[trigger] self.tags@[j]).name@ != name@,
            decreases self.tags@.len() - i,
        {
            if str_eq(self.tags[i].name.as_str(), name) {
                return true;
            }
            i = i + 1;
        }
        false
    }
}

/// Two catalogues hold the same records, the same links in the same order
/// and the same next identifiers.
pub open spec fn same_catalogue(a: Database, b: Database) -> bool {
    &&& a.files@ == b.files@
    &&& a.groups@ == b.groups@
    &&& a.tags@ == b.tags@
    &&& a.file_groups@ == b.file_groups@
    &&& a.group_tags@ == b.group_tags@
    &&& a.group_relations@ == b.group_relations@
    &&& a.next_file_id == b.next_file_id
    &&& a.next_group_id == b.next_group_id
    &&& a.next_tag_id == b.next_tag_id
}


/// The invariant reads the tables and the next ids only.
pub proof fn lemma_wf_same_catalogue(a: Database, b: Database)
    requires
        a.wf(),
        same_catalogue(a, b),
    ensures
        b.wf(),
{
}

impl Database {
    /// A copy of the catalogue.
    pub fn duplicate(&self) -> (r: Database)
        ensures
            same_catalogue(r, *self),
    {
        let mut files: Vec<File> = Vec::new();
        let mut i: usize = 0;
        while i < self.files.len()
            invariant
                i <= self.files@.len(),
                files@ == self.files@.take(i as int),
            decreases self.files@.len() - i,
        {
            files.push(self.files[i].clone());
            proof {
                assert(self.files@.take(i + 1) =~= self.files@.take(i as int).push(self.files@[i as int]));
            }
            i = i + 1;
        }
        let mut groups: Vec<Group> = Vec::new();
        let mut i: usize = 0;
        while i < self.groups.len()
            invariant
                i <= self.groups@.len(),
                groups@ == self.groups@.take(i as int),
            decreases self.groups@.len() - i,
        {
            groups.push(self.groups[i].clone());
            proof {
                assert(self.groups@.take(i + 1) =~= self.groups@.take(i as int).push(self.groups@[i as int]));
            }
            i = i + 1;
        }
        let mut tags: Vec<Tag> = Vec::new();
        let mut i: usize = 0;
        while i < self.tags.len()
            invariant
                i <= self.tags@.len(),
                tags@ == self.tags@.take(i as int),
            decreases self.tags@.len() - i,
        {
            tags.push(self.tags[i].clone());
            proof {
                assert(self.tags@.take(i + 1) =~= self.tags@.take(i as int).push(self.tags@[i as int]));
            }
            i = i + 1;
        }
        let mut file_groups: Vec<FileGroupDTO> = Vec::new();
        let mut i: usize = 0;
        while i < self.file_groups.len()
            invariant
                i <= self.file_groups@.len(),
                file_groups@ == self.file_groups@.take(i as int),
            decreases self.file_groups@.len() - i,
        {
            file_groups.push(self.file_groups[i]);
            proof {
                assert(self.file_groups@.take(i + 1) =~= self.file_groups@.take(i as int).push(self.file_groups@[i as int]));
            }
            i = i + 1;
        }
        let mut group_tags: Vec<GroupTagDTO> = Vec::new();
        let mut i: usize = 0;
        while i < self.group_tags.len()
            invariant
                i <= self.group_tags@.len(),
                group_tags@ == self.group_tags@.take(i as int),
            decreases self.group_tags@.len() - i,
        {
            group_tags.push(self.group_tags[i]);
            proof {
                assert(self.group_tags@.take(i + 1) =~= self.group_tags@.take(i as int).push(self.group_tags@[i as int]));
            }
            i = i + 1;
        }
        let mut group_relations: Vec<GroupRelation> = Vec::new();
        let mut i: usize = 0;
        while i < self.group_relations.len()
            invariant
                i <= self.group_relations@.len(),
                group_relations@ == self.group_relations@.take(i as int),
            decreases self.group_relations@.len() - i,
        {
            group_relations.push(self.group_relations[i]);
            proof {
                assert(self.group_relations@.take(i + 1) =~= self.group_relations@.take(i as int).push(
                    self.group_relations@[i as int],
                ));
            }
            i = i + 1;
        }
        proof {
            assert(files@ =~= self.files@);
            assert(groups@ =~= self.groups@);
            assert(tags@ =~= self.tags@);
            assert(file_groups@ =~= self.file_groups@);
            assert(group_tags@ =~= self.group_tags@);
            assert(group_relations@ =~= self.group_relations@);
        }
        Database {
            files,
            groups,
            tags,
            file_groups,
            group_tags,
            group_relations,
            next_file_id: self.next_file_id,
            next_group_id: self.next_group_id,
            next_tag_id: self.next_tag_id,
        }
    }
}

/// Adding a fresh, unreferenced, non-primary group keeps the invariant.
proof fn lemma_push_group(old: Database, new: Database, g: Group)
    requires
        old.wf(),
        old.next_group_id < i32::MAX,
        g.id == old.next_group_id,
        g.reference_count == 0,
        !g.is_primary,
        forall|i: int| 0 <= i < old.groups@.len() ==> (#[trigger] old.groups@[i]).name@ != g.name@,
        new.groups@ == old.groups@.push(g),
        new.files@ == old.files@,
        new.tags@ == old.tags@,
        new.file_groups@ == old.file_groups@,
        new.group_tags@ == old.group_tags@,
        new.group_relations@ == old.group_relations@,
        new.next_file_id == old.next_file_id,
        new.next_group_id == old.next_group_id + 1,
        new.next_tag_id == old.next_tag_id,
    ensures
        new.wf(),
{
    let gs = new.groups@;
    let n = old.groups@.len();
    assert forall|id: i32| has_group(old.groups@, id) implies has_group(gs, id) && id < g.id by {
        let i = choose|i: int| 0 <= i < old.groups@.len() && (#[trigger] old.groups@[i]).id == id;
        assert(gs[i] == old.groups@[i]);
    }
    assert forall|id: i32| is_primary_group(old.groups@, id) implies is_primary_group(gs, id) by {
        let i = choose|i: int| 0 <= i < old.groups@.len() && (#[trigger] old.groups@[i]).id == id && old.groups@[i].is_primary;
        assert(gs[i] == old.groups@[i]);
    }
    assert(new.ids_ok()) by {
        assert forall|i: int, j: int|
            0 <= i < gs.len() && 0 <= j < gs.len() && i != j implies (#[trigger] gs[i]).id != (#[trigger] gs[j]).id by {
            if i < n && j < n {
                assert(gs[i] == old.groups@[i] && gs[j] == old.groups@[j]);
            } else if i < n {
                assert(gs[i] == old.groups@[i]);
            } else if j < n {
                assert(gs[j] == old.groups@[j]);
            }
        }
    }
    assert(new.names_ok()) by {
        assert forall|i: int, j: int|
            0 <= i < gs.len() && 0 <= j < gs.len() && i != j implies (#[trigger] gs[i]).name@ != (#[trigger] gs[j]).name@ by {
            if i < n {
                assert(gs[i] == old.groups@[i]);
            }
            if j < n {
                assert(gs[j] == old.groups@[j]);
            }
        }
    }
    assert(new.links_ok());
    assert(new.counts_ok()) by {
        let fgs = old.file_groups@;
        let gts = old.group_tags@;
        let rels = old.group_relations@;
        assert forall|k: int| 0 <= k < fgs.len() implies (#[trigger] fgs[k]).group_id != g.id by {
            assert(has_group(old.groups@, fgs[k].group_id));
        }
        assert forall|k: int| 0 <= k < gts.len() implies (#[trigger] gts[k]).group_id != g.id by {
            assert(has_group(old.groups@, gts[k].group_id));
        }
        assert forall|k: int| 0 <= k < rels.len() implies (#[trigger] rels[k]).first_group_id != g.id by {
            assert(has_group(old.groups@, rels[k].first_group_id));
        }
        assert forall|k: int| 0 <= k < rels.len() implies (#[trigger] rels[k]).second_group_id != g.id by {
            assert(has_group(old.groups@, rels[k].second_group_id));
        }
        lemma_fg_count_group_zero(fgs, g.id);
        lemma_gt_count_group_zero(gts, g.id);
        lemma_rel_count_first_zero(rels, g.id);
        lemma_rel_count_second_zero(rels, g.id);
        assert forall|i: int| 0 <= i < gs.len() implies (#[trigger] gs[i]).reference_count
            == group_refs(fgs, gts, rels, gs[i].id) by {
            if i < n {
                assert(gs[i] == old.groups@[i]);
            }
        }
    }
    assert(new.primary_ok()) by {
        assert forall|k: int, j: int|
            0 <= k < new.file_groups@.len() && 0 <= j < gs.len() && (#[trigger] gs[j]).id == (
            #[trigger] new.file_groups@[k]).group_id && gs[j].is_primary implies owns(
            new.files@,
            new.file_groups@[k].file_id,
            new.file_groups@[k].group_id,
        ) by {
            if j < n {
                assert(gs[j] == old.groups@[j]);
            }
        }
    }
}

/// Adding a fresh, unreferenced tag keeps the invariant.
proof fn lemma_push_tag(old: Database, new: Database, t: Tag)
    requires
        old.wf(),
        old.next_tag_id < i32::MAX,
        t.id == old.next_tag_id,
        t.reference_count == 0,
        forall|i: int| 0 <= i < old.tags@.len() ==> (#[trigger] old.tags@[i]).name@ != t.name@,
        new.tags@ == old.tags@.push(t),
        new.files@ == old.files@,
        new.groups@ == old.groups@,
        new.file_groups@ == old.file_groups@,
        new.group_tags@ == old.group_tags@,
        new.group_relations@ == old.group_relations@,
        new.next_file_id == old.next_file_id,
        new.next_group_id == old.next_group_id,
        new.next_tag_id == old.next_tag_id + 1,
    ensures
        new.wf(),
{
    let ts = new.tags@;
    let n = old.tags@.len();
    assert forall|id: i32| has_tag(old.tags@, id) implies has_tag(ts, id) && id < t.id by {
        let i = choose|i: int| 0 <= i < old.tags@.len() && (#[trigger] old.tags@[i]).id == id;
        assert(ts[i] == old.tags@[i]);
    }
    assert(new.ids_ok()) by {
        assert forall|i: int, j: int|
            0 <= i < ts.len() && 0 <= j < ts.len() && i != j implies (#[trigger] ts[i]).id != (#[trigger] ts[j]).id by {
            if i < n && j < n {
                assert(ts[i] == old.tags@[i] && ts[j] == old.tags@[j]);
            } else if i < n {
                assert(ts[i] == old.tags@[i]);
            } else if j < n {
                assert(ts[j] == old.tags@[j]);
            }
        }
    }
    assert(new.names_ok()) by {
        assert forall|i: int, j: int|
            0 <= i < ts.len() && 0 <= j < ts.len() && i != j implies (#[trigger] ts[i]).name@ != (#[trigger] ts[j]).name@ by {
            if i < n {
                assert(ts[i] == old.tags@[i]);
            }
            if j < n {
                assert(ts[j] == old.tags@[j]);
            }
        }
    }
    assert(new.links_ok());
    assert(new.counts_ok()) by {
        let gts = old.group_tags@;
        assert forall|k: int| 0 <= k < gts.len() implies (#[trigger] gts[k]).tag_id != t.id by {
            assert(has_tag(old.tags@, gts[k].tag_id));
        }
        lemma_gt_count_tag_zero(gts, t.id);
        assert forall|i: int| 0 <= i < ts.len() implies (#[trigger] ts[i]).reference_count
            == gt_count_tag(gts, ts[i].id) by {
            if i < n {
                assert(ts[i] == old.tags@[i]);
            }
        }
    }
}

impl Database {
    /// Inserts a new group named `name`, created and modified at `now`, and
    /// returns its id. A name that some group has already is refused, as
    /// the unique constraint on group names does.
    pub fn insert_group(&mut self, name: &str, description: Option<String>, now: i64) -> (r: Result<i32, AppError>)
        requires
            old(self).wf(),
        ensures
            final(self).wf(),
            match r {
                Ok(id) => {
                    &&& id == old(self).next_group_id
                    &&& final(self).groups@ == old(self).groups@.push(Group {
                        id,
                        name: final(self).groups@.last().name,
                        reference_count: 0,
                        is_primary: false,
                        click_count: 0,
                        share_count: 0,
                        create_time: now,
                        modify_time: now,
                        description,
                    })
                    &&& final(self).groups@.last().name@ == name@
                    &&& final(self).files@ == old(self).files@
                    &&& final(self).tags@ == old(self).tags@
                    &&& final(self).file_groups@ == old(self).file_groups@
                    &&& final(self).group_tags@ == old(self).group_tags@
                    &&& final(self).group_relations@ == old(self).group_relations@
                    &&& final(self).next_group_id == old(self).next_group_id + 1
                    &&& final(self).next_file_id == old(self).next_file_id
                    &&& final(self).next_tag_id == old(self).next_tag_id
                },
                Err(e) => {
                    &&& *final(self) == *old(self)
                    &&& (e == AppError::DatabaseError(DbError::UniqueViolation) <==> exists|i: int|
                        0 <= i < old(self).groups@.len() && (#[trigger] old(self).groups@[i]).name@
                            == name@)
                    &&& (e == AppError::DatabaseError(DbError::UniqueViolation) || e
                        == AppError::DatabaseError(DbError::IdExhausted))
                    &&& (e == AppError::DatabaseError(DbError::IdExhausted) ==> old(self).next_group_id
                        == i32::MAX)
                },
            },
    {
        if self.group_name_taken(name) {
            return Err(AppError::DatabaseError(DbError::UniqueViolation));
        }
        if self.next_group_id == i32::MAX {
            return Err(AppError::DatabaseError(DbError::IdExhausted));
        }
        let id = self.next_group_id;
        let g = Group {
            id,
            name: name.to_string(),
            reference_count: 0,
            is_primary: false,
            click_count: 0,
            share_count: 0,
            create_time: now,
            modify_time: now,
            description,
        };
        let ghost pre = *self;
        self.groups.push(g);
        self.next_group_id = id + 1;
        proof {
            lemma_push_group(pre, *self, g);
        }
        Ok(id)
    }

    /// Inserts a new tag named `name` and returns its id. A name that some
    /// tag has already is refused, as the unique constraint on tag names does.
    pub fn insert_tag(&mut self, name: &str, description: Option<String>) -> (r: Result<i32, AppError>)
        requires
            old(self).wf(),
        ensures
            final(self).wf(),
            match r {
                Ok(id) => {
                    &&& id == old(self).next_tag_id
                    &&& final(self).tags@ == old(self).tags@.push(Tag {
                        id,
                        name: final(self).tags@.last().name,
                        reference_count: 0,
                        description,
                    })
                    &&& final(self).tags@.last().name@ == name@
                    &&& final(self).files@ == old(self).files@
                    &&& final(self).groups@ == old(self).groups@
                    &&& final(self).file_groups@ == old(self).file_groups@
                    &&& final(self).group_tags@ == old(self).group_tags@
                    &&& final(self).group_relations@ == old(self).group_relations@
                    &&& final(self).next_tag_id == old(self).next_tag_id + 1
                    &&& final(self).next_file_id == old(self).next_file_id
                    &&& final(self).next_group_id == old(self).next_group_id
                },
                Err(e) => {
                    &&& *final(self) == *old(self)
                    &&& (e == AppError::DatabaseError(DbError::UniqueViolation) <==> exists|i: int|
                        0 <= i < old(self).tags@.len() && (#[trigger] old(self).tags@[i]).name@
                            == name@)
                    &&& (e == AppError::DatabaseError(DbError::UniqueViolation) || e
                        == AppError::DatabaseError(DbError::IdExhausted))
                    &&& (e == AppError::DatabaseError(DbError::IdExhausted) ==> old(self).next_tag_id
                        == i32::MAX)
                },
            },
    {
        if self.tag_name_taken(name) {
            return Err(AppError::DatabaseError(DbError::UniqueViolation));
        }
        if self.next_tag_id == i32::MAX {
            return Err(AppError::DatabaseError(DbError::IdExhausted));
        }
        let id = self.next_tag_id;
        let t = Tag { id, name: name.to_string(), reference_count: 0, description };
        let ghost pre = *self;
        self.tags.push(t);
        self.next_tag_id = id + 1;
        proof {
            lemma_push_tag(pre, *self, t);
        }
        Ok(id)
    }
}

/// The file with id `id` (meaningful when there is one).
pub open spec fn file_of(fs: Seq<File>, id: i32) -> File {
    fs[choose|i: int| 0 <= i < fs.len() && (#[trigger] fs[i]).id == id]
}

/// The group with id `id` (meaningful when there is one).
pub open spec fn group_of(gs: Seq<Group>, id: i32) -> Group {
    gs[choose|i: int| 0 <= i < gs.len() && (#[trigger] gs[i]).id == id]
}

/// The tag with id `id` (meaningful when there is one).
pub open spec fn tag_of(ts: Seq<Tag>, id: i32) -> Tag {
    ts[choose|i: int| 0 <= i < ts.len() && (#[trigger] ts[i]).id == id]
}

impl Database {
    /// With unique ids, the record found at a position is the one named by its id.
    pub proof fn lemma_file_at(&self, i: int)
        requires
            self.ids_ok(),
            0 <= i < self.files@.len(),
        ensures
            has_file(self.files@, self.files@[i].id),
            file_of(self.files@, self.files@[i].id) == self.files@[i],
    {
        let id = self.files@[i].id;
        assert(has_file(self.files@, id));
        let j = choose|j: int| 0 <= j < self.files@.len() && (#[trigger] self.files@[j]).id == id;
        if j != i {
            assert(self.files@[i].id != self.files@[j].id);
        }
    }

    pub proof fn lemma_group_at(&self, i: int)
        requires
            self.ids_ok(),
            0 <= i < self.groups@.len(),
        ensures
            has_group(self.groups@, self.groups@[i].id),
            group_of(self.groups@, self.groups@[i].id) == self.groups@[i],
            is_primary_group(self.groups@, self.groups@[i].id) == self.groups@[i].is_primary,
    {
        let id = self.groups@[i].id;
        assert(has_group(self.groups@, id));
        let j = choose|j: int| 0 <= j < self.groups@.len() && (#[trigger] self.groups@[j]).id == id;
        if j != i {
            assert(self.groups@[i].id != self.groups@[j].id);
        }
        if is_primary_group(self.groups@, id) {
            let q = choose|q: int| 0 <= q < self.groups@.len() && (#[trigger] self.groups@[q]).id == id && self.groups@[q].is_primary;
            if q != i {
                assert(self.groups@[i].id != self.groups@[q].id);
            }
        }
    }

    pub proof fn lemma_tag_at(&self, i: int)
        requires
            self.ids_ok(),
            0 <= i < self.tags@.len(),
        ensures
            has_tag(self.tags@, self.tags@[i].id),
            tag_of(self.tags@, self.tags@[i].id) == self.tags@[i],
    {
        let id = self.tags@[i].id;
        assert(has_tag(self.tags@, id));
        let j = choose|j: int| 0 <= j < self.tags@.len() && (#[trigger] self.tags@[j]).id == id;
        if j != i {
            assert(self.tags@[i].id != self.tags@[j].id);
        }
    }

    /// Position of the link from file `fid` to group `gid`.
    pub fn find_file_group_index(&self, fid: i32, gid: i32) -> (r: Option<usize>)
        ensures
            match r {
                Some(k) => k < self.file_groups@.len() && self.file_groups@[k as int].file_id == fid
                    && self.file_groups@[k as int].group_id == gid,
                None => !has_fg_link(self.file_groups@, fid, gid),
            },
    {
        let mut k: usize = 0;
        while k < self.file_groups.len()
            invariant
                k <= self.file_groups@.len(),
                forall|j: int| 0 <= j < k ==> !((#[trigger] self.file_groups@[j]).file_id == fid
                    && self.file_groups@[j].group_id == gid),
            decreases self.file_groups@.len() - k,
        {
            if self.file_groups[k].file_id == fid && self.file_groups[k].group_id == gid {
                return Some(k);
            }
            k = k + 1;
        }
        None
    }

    /// Position of the group/tag link `gt`.
    pub fn find_group_tag_index(&self, gt: &GroupTagDTO) -> (r: Option<usize>)
        ensures
            match r {
                Some(k) => k < self.group_tags@.len() && self.group_tags@[k as int] == *gt,
                None => !self.group_tags@.contains(*gt),
            },
    {
        let mut k: usize = 0;
        while k < self.group_tags.len()
            invariant
                k <= self.group_tags@.len(),
                forall|j: int| 0 <= j < k ==> (#[trigger] self.group_tags@[j]) != *gt,
            decreases self.group_tags@.len() - k,
        {
            if self.group_tags[k].group_id == gt.group_id && self.group_tags[k].tag_id == gt.tag_id {
                return Some(k);
            }
            k = k + 1;
        }
        None
    }

    /// Position of the relation `rel`.
    pub fn find_group_relation_index(&self, rel: &GroupRelation) -> (r: Option<usize>)
        ensures
            match r {
                Some(k) => k < self.group_relations@.len() && self.group_relations@[k as int] == *rel,
                None => !self.group_relations@.contains(*rel),
            },
    {
        let mut k: usize = 0;
        while k < self.group_relations.len()
            invariant
                k <= self.group_relations@.len(),
                forall|j: int| 0 <= j < k ==> (#[trigger] self.group_relations@[j]) != *rel,
            decreases self.group_relations@.len() - k,
        {
            if self.group_relations[k].first_group_id == rel.first_group_id
                && self.group_relations[k].second_group_id == rel.second_group_id
                && self.group_relations[k].relation_type == rel.relation_type {
                return Some(k);
            }
            k = k + 1;
        }
        None
    }
}

} // verus!

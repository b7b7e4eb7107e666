//! Bulk removals used by the cascading deletes: every link of a file, of a
//! group or of a tag, and finally the record itself. Each step keeps the
//! identifier, link and count parts of the invariant; reference counts of
//! the records on the other end of a removed link drop by one per link.
use vstd::prelude::*;
use crate::models::{File, FileGroupDTO, Group, GroupRelation, GroupTagDTO};
use crate::rows::{files_like, groups_like, records_like, same_file, same_group, same_tag, tags_like};
use crate::counts::{fg_count_file, gt_count_tag};
use crate::store::{group_refs, has_fg_link, has_file, has_group, has_owner, has_tag, is_primary_group, owns, Database};

verus! {

/// What is left of a sequence after removing one position.
pub proof fn lemma_remove_contains<A>(s: Seq<A>, k: int)
    requires
        0 <= k < s.len(),
    ensures
        forall|x: A| #[trigger] s.remove(k).contains(x) ==> s.contains(x),
        forall|x: A| s.contains(x) && x != s[k] ==> #[trigger] s.remove(k).contains(x),
{
    let r = s.remove(k);
    assert forall|x: A| #[trigger] r.contains(x) implies s.contains(x) by {
        let j = choose|j: int| 0 <= j < r.len() && r[j] == x;
        if j < k {
            assert(s[j] == x);
        } else {
            assert(s[j + 1] == x);
        }
    }
    assert forall|x: A| s.contains(x) && x != s[k] implies #[trigger] r.contains(x) by {
        let j = choose|j: int| 0 <= j < s.len() && s[j] == x;
        if j < k {
            assert(r[j] == x);
        } else {
            assert(j != k);
            assert(r[j - 1] == x);
        }
    }
}

/// Changes of reference counts only, taken twice, are changes of reference
/// counts only.
pub proof fn lemma_records_like_trans(a: Database, b: Database, c: Database)
    requires
        records_like(a, b),
        records_like(b, c),
    ensures
        records_like(a, c),
{
    assert forall|i: int| 0 <= i < a.files@.len() implies same_file(#[trigger] a.files@[i], c.files@[i]) by {
        assert(same_file(a.files@[i], b.files@[i]));
        assert(same_file(b.files@[i], c.files@[i]));
    }
    assert forall|i: int| 0 <= i < a.groups@.len() implies same_group(#[trigger] a.groups@[i], c.groups@[i]) by {
        assert(same_group(a.groups@[i], b.groups@[i]));
        assert(same_group(b.groups@[i], c.groups@[i]));
    }
    assert forall|i: int| 0 <= i < a.tags@.len() implies same_tag(#[trigger] a.tags@[i], c.tags@[i]) by {
        assert(same_tag(a.tags@[i], b.tags@[i]));
        assert(same_tag(b.tags@[i], c.tags@[i]));
    }
}

/// `n` is `o` without group `gid` and, when `owner` is given, without that
/// file: every link of the file, every link naming the group and every
/// relation naming the group are gone, every other record and link stays,
/// and the remaining records differ at most in their reference counts.
pub open spec fn purged(o: Database, n: Database, owner: Option<i32>, gid: i32) -> bool {
    &&& exists|gi: int|
        0 <= gi < o.groups@.len() && (#[trigger] o.groups@[gi]).id == gid && groups_like(
            o.groups@.remove(gi),
            n.groups@,
        )
    &&& match owner {
        Some(fid) => exists|fi: int|
            0 <= fi < o.files@.len() && (#[trigger] o.files@[fi]).id == fid && files_like(
                o.files@.remove(fi),
                n.files@,
            ),
        None => files_like(o.files@, n.files@),
    }
    &&& tags_like(o.tags@, n.tags@)
    &&& forall|x: FileGroupDTO| #[trigger] n.file_groups@.contains(x) <==> (o.file_groups@.contains(x)
        && x.group_id != gid && (owner matches Some(fid) ==> x.file_id != fid))
    &&& forall|x: GroupTagDTO| #[trigger] n.group_tags@.contains(x) <==> (o.group_tags@.contains(x)
        && x.group_id != gid)
    &&& forall|x: GroupRelation| #[trigger] n.group_relations@.contains(x) <==> (
        o.group_relations@.contains(x) && x.first_group_id != gid && x.second_group_id != gid)
    &&& n.next_file_id == o.next_file_id
    &&& n.next_group_id == o.next_group_id
    &&& n.next_tag_id == o.next_tag_id
}

pub proof fn lemma_files_like_remove(a: Seq<File>, b: Seq<File>, i: int)
    requires
        files_like(a, b),
        0 <= i < a.len(),
    ensures
        files_like(a.remove(i), b.remove(i)),
{
    assert forall|j: int| 0 <= j < a.remove(i).len() implies same_file(#[trigger] a.remove(i)[j], b.remove(i)[j]) by {
        if j < i {
            assert(same_file(a[j], b[j]));
        } else {
            assert(same_file(a[j + 1], b[j + 1]));
        }
    }
}

pub proof fn lemma_groups_like_remove(a: Seq<Group>, b: Seq<Group>, i: int)
    requires
        groups_like(a, b),
        0 <= i < a.len(),
    ensures
        groups_like(a.remove(i), b.remove(i)),
{
    assert forall|j: int| 0 <= j < a.remove(i).len() implies same_group(#[trigger] a.remove(i)[j], b.remove(i)[j]) by {
        if j < i {
            assert(same_group(a[j], b[j]));
        } else {
            assert(same_group(a[j + 1], b[j + 1]));
        }
    }
}

/// The files of `o` that a purge keeps: all but the one at `fi` when there
/// is an owner.
pub open spec fn kept_files(o: Database, owner: Option<i32>, fi: int) -> Seq<File> {
    match owner {
        Some(_) => o.files@.remove(fi),
        None => o.files@,
    }
}

/// Where the `i`-th kept file stood in `o`.
pub open spec fn kept_index(owner: Option<i32>, fi: int, i: int) -> int {
    match owner {
        Some(_) => if i < fi { i } else { i + 1 },
        None => i,
    }
}

/// The facts about a purge that the primary-group part of the invariant needs.
pub open spec fn purge_frame(o: Database, n: Database, owner: Option<i32>, fi: int, gi: int, gid: i32) -> bool {
    &&& 0 <= gi < o.groups@.len()
    &&& o.groups@[gi].id == gid
    &&& groups_like(o.groups@.remove(gi), n.groups@)
    &&& files_like(kept_files(o, owner, fi), n.files@)
    &&& match owner {
        Some(fid) => 0 <= fi < o.files@.len() && o.files@[fi].id == fid && o.files@[fi].group_id == gid,
        None => forall|i: int| 0 <= i < o.files@.len() ==> (#[trigger] o.files@[i]).group_id != gid,
    }
    &&& forall|x: FileGroupDTO| #[trigger] n.file_groups@.contains(x) <==> (o.file_groups@.contains(x)
        && x.group_id != gid && (owner matches Some(fid) ==> x.file_id != fid))
}

proof fn lemma_kept_file(o: Database, n: Database, owner: Option<i32>, fi: int, gi: int, gid: i32, i: int)
    requires
        o.ids_ok(),
        o.primary_ok(),
        purge_frame(o, n, owner, fi, gi, gid),
        0 <= i < n.files@.len(),
    ensures
        0 <= kept_index(owner, fi, i) < o.files@.len(),
        kept_files(o, owner, fi)[i] == o.files@[kept_index(owner, fi, i)],
        same_file(o.files@[kept_index(owner, fi, i)], n.files@[i]),
        o.files@[kept_index(owner, fi, i)].group_id != gid,
        owner matches Some(fid) ==> o.files@[kept_index(owner, fi, i)].id != fid,
{
    let ii = kept_index(owner, fi, i);
    assert(same_file(kept_files(o, owner, fi)[i], n.files@[i]));
    if owner is Some {
        assert(ii != fi);
        assert(o.files@[ii].id != o.files@[fi].id);
        assert(o.files@[ii].group_id != o.files@[fi].group_id);
    }
}

proof fn lemma_kept_group(o: Database, n: Database, owner: Option<i32>, fi: int, gi: int, gid: i32, id: i32)
    requires
        purge_frame(o, n, owner, fi, gi, gid),
        id != gid,
    ensures
        is_primary_group(o.groups@, id) ==> is_primary_group(n.groups@, id),
        is_primary_group(n.groups@, id) ==> is_primary_group(o.groups@, id),
{
    let og = o.groups@.remove(gi);
    if is_primary_group(o.groups@, id) {
        let j = choose|j: int| 0 <= j < o.groups@.len() && (#[trigger] o.groups@[j]).id == id && o.groups@[j].is_primary;
        assert(j != gi);
        let jj = if j < gi { j } else { j - 1 };
        assert(og[jj] == o.groups@[j]);
        assert(same_group(og[jj], n.groups@[jj]));
    }
    if is_primary_group(n.groups@, id) {
        let j = choose|j: int| 0 <= j < n.groups@.len() && (#[trigger] n.groups@[j]).id == id && n.groups@[j].is_primary;
        let jj = if j < gi { j } else { j + 1 };
        assert(og[j] == o.groups@[jj]);
        assert(same_group(og[j], n.groups@[j]));
    }
}

proof fn lemma_purge_owned_links(o: Database, n: Database, owner: Option<i32>, fi: int, gi: int, gid: i32)
    requires
        o.ids_ok(),
        o.primary_ok(),
        purge_frame(o, n, owner, fi, gi, gid),
    ensures
        forall|i: int| 0 <= i < n.files@.len() ==> has_fg_link(
            n.file_groups@,
            (#[trigger] n.files@[i]).id,
            n.files@[i].group_id,
        ) && is_primary_group(n.groups@, n.files@[i].group_id),
{
    assert forall|i: int| 0 <= i < n.files@.len() implies has_fg_link(
        n.file_groups@,
        (#[trigger] n.files@[i]).id,
        n.files@[i].group_id,
    ) && is_primary_group(n.groups@, n.files@[i].group_id) by {
        lemma_kept_file(o, n, owner, fi, gi, gid, i);
        let f = o.files@[kept_index(owner, fi, i)];
        assert(has_fg_link(o.file_groups@, f.id, f.group_id));
        let k = choose|k: int| 0 <= k < o.file_groups@.len() && (#[trigger] o.file_groups@[k]).file_id == f.id
            && o.file_groups@[k].group_id == f.group_id;
        let x = o.file_groups@[k];
        assert(o.file_groups@.contains(x));
        assert(n.file_groups@.contains(x));
        let q = choose|q: int| 0 <= q < n.file_groups@.len() && n.file_groups@[q] == x;
        assert(n.file_groups@[q].file_id == f.id);
        lemma_kept_group(o, n, owner, fi, gi, gid, f.group_id);
    }
}

proof fn lemma_purge_distinct(o: Database, n: Database, owner: Option<i32>, fi: int, gi: int, gid: i32)
    requires
        o.ids_ok(),
        o.primary_ok(),
        purge_frame(o, n, owner, fi, gi, gid),
    ensures
        forall|i: int, j: int|
            0 <= i < n.files@.len() && 0 <= j < n.files@.len() && i != j ==> (
            #[trigger] n.files@[i]).group_id != (#[trigger] n.files@[j]).group_id,
{
    assert forall|i: int, j: int|
        0 <= i < n.files@.len() && 0 <= j < n.files@.len() && i != j implies (
        #[trigger] n.files@[i]).group_id != (#[trigger] n.files@[j]).group_id by {
        lemma_kept_file(o, n, owner, fi, gi, gid, i);
        lemma_kept_file(o, n, owner, fi, gi, gid, j);
        let ii = kept_index(owner, fi, i);
        let jj = kept_index(owner, fi, j);
        assert(o.files@[ii].group_id != o.files@[jj].group_id);
    }
}

proof fn lemma_purge_links_owned(o: Database, n: Database, owner: Option<i32>, fi: int, gi: int, gid: i32)
    requires
        o.ids_ok(),
        o.primary_ok(),
        purge_frame(o, n, owner, fi, gi, gid),
    ensures
        forall|k: int, j: int|
            0 <= k < n.file_groups@.len() && 0 <= j < n.groups@.len() && (#[trigger] n.groups@[j]).id == (
            #[trigger] n.file_groups@[k]).group_id && n.groups@[j].is_primary ==> owns(
            n.files@,
            n.file_groups@[k].file_id,
            n.file_groups@[k].group_id,
        ),
{
    assert forall|k: int, j: int|
        0 <= k < n.file_groups@.len() && 0 <= j < n.groups@.len() && (#[trigger] n.groups@[j]).id == (
        #[trigger] n.file_groups@[k]).group_id && n.groups@[j].is_primary implies owns(
        n.files@,
        n.file_groups@[k].file_id,
        n.file_groups@[k].group_id,
    ) by {
        let x = n.file_groups@[k];
        assert(n.file_groups@.contains(x));
        assert(o.file_groups@.contains(x));
        let ok = choose|ok: int| 0 <= ok < o.file_groups@.len() && o.file_groups@[ok] == x;
        assert(is_primary_group(n.groups@, x.group_id));
        lemma_kept_group(o, n, owner, fi, gi, gid, x.group_id);
        let j2 = choose|j2: int| 0 <= j2 < o.groups@.len() && (#[trigger] o.groups@[j2]).id == x.group_id && o.groups@[j2].is_primary;
        assert(owns(o.files@, x.file_id, x.group_id));
        let w = choose|w: int| 0 <= w < o.files@.len() && (#[trigger] o.files@[w]).id == x.file_id
            && o.files@[w].group_id == x.group_id;
        let ks = kept_files(o, owner, fi);
        let ww = match owner {
            Some(_) => if w < fi { w } else { w - 1 },
            None => w,
        };
        if owner is Some {
            assert(w != fi);
        }
        assert(ks[ww] == o.files@[w]);
        assert(same_file(ks[ww], n.files@[ww]));
    }
}

/// After a purge every primary group left still has a file that owns it.
proof fn lemma_purge_owners(o: Database, n: Database, owner: Option<i32>, fi: int, gi: int, gid: i32)
    requires
        o.ids_ok(),
        o.primary_ok(),
        purge_frame(o, n, owner, fi, gi, gid),
    ensures
        forall|j: int|
            0 <= j < n.groups@.len() && (#[trigger] n.groups@[j]).is_primary ==> has_owner(n.files@, n.groups@[j].id),
{
    assert forall|j: int| 0 <= j < n.groups@.len() && (#[trigger] n.groups@[j]).is_primary implies has_owner(
        n.files@,
        n.groups@[j].id,
    ) by {
        let id = n.groups@[j].id;
        let og = o.groups@.remove(gi);
        let jj = if j < gi { j } else { j + 1 };
        assert(og[j] == o.groups@[jj]);
        assert(same_group(og[j], n.groups@[j]));
        assert(o.groups@[jj].id != o.groups@[gi].id);
        assert(o.groups@[jj].is_primary);
        assert(has_owner(o.files@, o.groups@[jj].id));
        let w = choose|w: int| 0 <= w < o.files@.len() && (#[trigger] o.files@[w]).group_id == id;
        let ks = kept_files(o, owner, fi);
        let ww = match owner {
            Some(_) => if w < fi { w } else { w - 1 },
            None => w,
        };
        if owner is Some {
            assert(w != fi);
        }
        assert(ks[ww] == o.files@[w]);
        assert(same_file(ks[ww], n.files@[ww]));
        assert(n.files@[ww].group_id == id);
    }
}

/// After a purge of a group together with its owner (or of a group that no
/// file owns), every remaining file still owns its primary group and links
/// to primary groups still come from their owners.
pub proof fn lemma_primary_after_purge(o: Database, n: Database, owner: Option<i32>, fi: int, gi: int, gid: i32)
    requires
        o.ids_ok(),
        o.primary_ok(),
        purge_frame(o, n, owner, fi, gi, gid),
    ensures
        n.primary_ok(),
{
    lemma_purge_owned_links(o, n, owner, fi, gi, gid);
    lemma_purge_distinct(o, n, owner, fi, gi, gid);
    lemma_purge_links_owned(o, n, owner, fi, gi, gid);
    lemma_purge_owners(o, n, owner, fi, gi, gid);
}

proof fn lemma_no_links_left(d: Database, gid: i32)
    requires
        forall|x: FileGroupDTO| #[trigger] d.file_groups@.contains(x) ==> x.group_id != gid,
        forall|x: GroupTagDTO| #[trigger] d.group_tags@.contains(x) ==> x.group_id != gid,
        forall|x: GroupRelation| #[trigger] d.group_relations@.contains(x) ==> x.first_group_id != gid && x.second_group_id != gid,
    ensures
        forall|k: int| 0 <= k < d.file_groups@.len() ==> (#[trigger] d.file_groups@[k]).group_id != gid,
        forall|k: int| 0 <= k < d.group_tags@.len() ==> (#[trigger] d.group_tags@[k]).group_id != gid,
        forall|k: int| 0 <= k < d.group_relations@.len() ==> (#[trigger] d.group_relations@[k]).first_group_id != gid
            && d.group_relations@[k].second_group_id != gid,
{
    assert forall|k: int| 0 <= k < d.file_groups@.len() implies (#[trigger] d.file_groups@[k]).group_id != gid by {
        assert(d.file_groups@.contains(d.file_groups@[k]));
    }
    assert forall|k: int| 0 <= k < d.group_tags@.len() implies (#[trigger] d.group_tags@[k]).group_id != gid by {
        assert(d.group_tags@.contains(d.group_tags@[k]));
    }
    assert forall|k: int| 0 <= k < d.group_relations@.len() implies (#[trigger] d.group_relations@[k]).first_group_id != gid
        && d.group_relations@[k].second_group_id != gid by {
        assert(d.group_relations@.contains(d.group_relations@[k]));
    }
}

/// Removing a group that no file owns and no file is linked to keeps the
/// primary-group part of the invariant.
pub proof fn lemma_primary_after_group_removal(o: Database, n: Database, gi: int)
    requires
        o.primary_ok(),
        0 <= gi < o.groups@.len(),
        n.groups@ == o.groups@.remove(gi),
        n.files@ == o.files@,
        n.file_groups@ == o.file_groups@,
        forall|i: int| 0 <= i < o.files@.len() ==> (#[trigger] o.files@[i]).group_id != o.groups@[gi].id,
        forall|k: int| 0 <= k < o.file_groups@.len() ==> (#[trigger] o.file_groups@[k]).group_id != o.groups@[gi].id,
    ensures
        n.primary_ok(),
{
    let gid = o.groups@[gi].id;
    assert forall|id: i32| is_primary_group(o.groups@, id) && id != gid implies is_primary_group(n.groups@, id) by {
        let j = choose|j: int| 0 <= j < o.groups@.len() && (#[trigger] o.groups@[j]).id == id && o.groups@[j].is_primary;
        assert(j != gi);
        let jj = if j < gi { j } else { j - 1 };
        assert(n.groups@[jj] == o.groups@[j]);
    }
    assert forall|i: int| 0 <= i < n.files@.len() implies has_fg_link(
        n.file_groups@,
        (#[trigger] n.files@[i]).id,
        n.files@[i].group_id,
    ) && is_primary_group(n.groups@, n.files@[i].group_id) by {
        assert(o.files@[i].group_id != gid);
    }
    assert forall|k: int, j: int|
        0 <= k < n.file_groups@.len() && 0 <= j < n.groups@.len() && (#[trigger] n.groups@[j]).id == (
        #[trigger] n.file_groups@[k]).group_id && n.groups@[j].is_primary implies owns(
        n.files@,
        n.file_groups@[k].file_id,
        n.file_groups@[k].group_id,
    ) by {
        let jj = if j < gi { j } else { j + 1 };
        assert(n.groups@[j] == o.groups@[jj]);
    }
}

impl Database {
    /// Position of some link of file `fid`.
    pub fn find_link_of_file(&self, fid: i32) -> (r: Option<usize>)
        ensures
            match r {
                Some(k) => k < self.file_groups@.len() && self.file_groups@[k as int].file_id == fid,
                None => forall|k: int| 0 <= k < self.file_groups@.len() ==> (#[trigger] self.file_groups@[k]).file_id != fid,
            },
    {
        let mut k: usize = 0;
        while k < self.file_groups.len()
            invariant
                k <= self.file_groups@.len(),
                forall|j: int| 0 <= j < k ==> (#[trigger] self.file_groups@[j]).file_id != fid,
            decreases self.file_groups@.len() - k,
        {
            if self.file_groups[k].file_id == fid {
                return Some(k);
            }
            k = k + 1;
        }
        None
    }

    /// Removes every link of file `fid` to a group, taking one from the
    /// reference counts of the file and of the group, per link.
    pub fn remove_links_of_file(&mut self, fid: i32)
        requires
            old(self).core_ok(),
        ensures
            final(self).core_ok(),
            records_like(*old(self), *final(self)),
            final(self).group_tags@ == old(self).group_tags@,
            final(self).group_relations@ == old(self).group_relations@,
            forall|x: FileGroupDTO| #[trigger] final(self).file_groups@.contains(x) <==> (
                old(self).file_groups@.contains(x) && x.file_id != fid),
    {
        let ghost o = *self;
        proof {
            assert(records_like(o, o));
        }
        loop
            invariant
                self.core_ok(),
                records_like(o, *self),
                self.group_tags@ == o.group_tags@,
                self.group_relations@ == o.group_relations@,
                forall|x: FileGroupDTO| #[trigger] self.file_groups@.contains(x) ==> o.file_groups@.contains(x),
                forall|x: FileGroupDTO| o.file_groups@.contains(x) && x.file_id != fid ==> #[trigger] self.file_groups@.contains(x),
            ensures
                self.core_ok(),
                records_like(o, *self),
                self.group_tags@ == o.group_tags@,
                self.group_relations@ == o.group_relations@,
                forall|x: FileGroupDTO| #[trigger] self.file_groups@.contains(x) <==> (
                    o.file_groups@.contains(x) && x.file_id != fid),
            decreases self.file_groups@.len(),
        {
            match self.find_link_of_file(fid) {
                None => {
                    proof {
                        assert forall|x: FileGroupDTO| #[trigger] self.file_groups@.contains(x) implies x.file_id != fid by {
                            let j = choose|j: int| 0 <= j < self.file_groups@.len() && self.file_groups@[j] == x;
                        }
                    }
                    break;
                },
                Some(k) => {
                    let gid = self.file_groups[k].group_id;
                    proof {
                        assert(has_file(self.files@, self.file_groups@[k as int].file_id));
                        assert(has_group(self.groups@, gid));
                    }
                    let fi = self.find_file_index(fid).unwrap();
                    let gi = self.find_group_index(gid).unwrap();
                    let ghost pre = *self;
                    self.remove_file_group_at(k, fi, gi);
                    proof {
                        let n = *self;
                        assert(records_like(pre, n));
                        lemma_records_like_trans(o, pre, n);
                        lemma_remove_contains(pre.file_groups@, k as int);
                    }
                },
            }
        }
    }

    /// Position of some link of a file to group `gid`.
    pub fn find_link_to_group(&self, gid: i32) -> (r: Option<usize>)
        ensures
            match r {
                Some(k) => k < self.file_groups@.len() && self.file_groups@[k as int].group_id == gid,
                None => forall|k: int| 0 <= k < self.file_groups@.len() ==> !((#[trigger] self.file_groups@[k]).group_id == gid),
            },
    {
        let mut k: usize = 0;
        while k < self.file_groups.len()
            invariant
                k <= self.file_groups@.len(),
                forall|j: int| 0 <= j < k ==> !((#[trigger] self.file_groups@[j]).group_id == gid),
            decreases self.file_groups@.len() - k,
        {
            if self.file_groups[k].group_id == gid {
                return Some(k);
            }
            k = k + 1;
        }
        None
    }

    /// Removes every link of a file to group `gid`, taking one from the reference counts of the
    /// two records that each link names.
    pub fn remove_links_to_group(&mut self, gid: i32)
        requires
            old(self).core_ok(),
        ensures
            final(self).core_ok(),
            records_like(*old(self), *final(self)),
            final(self).group_tags@ == old(self).group_tags@,
            final(self).group_relations@ == old(self).group_relations@,
            forall|x: FileGroupDTO| #[trigger] final(self).file_groups@.contains(x) <==> (
                old(self).file_groups@.contains(x) && !(x.group_id == gid)),
    {
        let ghost o = *self;
        proof {
            assert(records_like(o, o));
        }
        loop
            invariant
                self.core_ok(),
                records_like(o, *self),
                self.group_tags@ == o.group_tags@,
                self.group_relations@ == o.group_relations@,
                forall|x: FileGroupDTO| #[trigger] self.file_groups@.contains(x) ==> o.file_groups@.contains(x),
                forall|x: FileGroupDTO| o.file_groups@.contains(x) && !(x.group_id == gid) ==> #[trigger] self.file_groups@.contains(x),
            ensures
                self.core_ok(),
                records_like(o, *self),
                self.group_tags@ == o.group_tags@,
                self.group_relations@ == o.group_relations@,
                forall|x: FileGroupDTO| #[trigger] self.file_groups@.contains(x) <==> (
                    o.file_groups@.contains(x) && !(x.group_id == gid)),
            decreases self.file_groups@.len(),
        {
            match self.find_link_to_group(gid) {
                None => {
                    proof {
                        assert forall|x: FileGroupDTO| #[trigger] self.file_groups@.contains(x) implies !(x.group_id == gid) by {
                            let j = choose|j: int| 0 <= j < self.file_groups@.len() && self.file_groups@[j] == x;
                        }
                    }
                    break;
                },
                Some(k) => {
                    let a = self.file_groups[k].file_id;
                    let b = self.file_groups[k].group_id;
                    proof {
                        assert(has_file(self.files@, a));
                        assert(has_group(self.groups@, b));
                    }
                    let ia = self.find_file_index(a).unwrap();
                    let ib = self.find_group_index(b).unwrap();
                    let ghost pre = *self;
                    self.remove_file_group_at(k, ia, ib);
                    proof {
                        let n = *self;
                        assert(records_like(pre, n));
                        lemma_records_like_trans(o, pre, n);
                        lemma_remove_contains(pre.file_groups@, k as int);
                    }
                },
            }
        }
    }

    /// Position of some link of group `gid` to a tag.
    pub fn find_tag_link_of_group(&self, gid: i32) -> (r: Option<usize>)
        ensures
            match r {
                Some(k) => k < self.group_tags@.len() && self.group_tags@[k as int].group_id == gid,
                None => forall|k: int| 0 <= k < self.group_tags@.len() ==> !((#[trigger] self.group_tags@[k]).group_id == gid),
            },
    {
        let mut k: usize = 0;
        while k < self.group_tags.len()
            invariant
                k <= self.group_tags@.len(),
                forall|j: int| 0 <= j < k ==> !((#[trigger] self.group_tags@[j]).group_id == gid),
            decreases self.group_tags@.len() - k,
        {
            if self.group_tags[k].group_id == gid {
                return Some(k);
            }
            k = k + 1;
        }
        None
    }

    /// Removes every link of group `gid` to a tag, taking one from the reference counts of the
    /// two records that each link names.
    pub fn remove_tag_links_of_group(&mut self, gid: i32)
        requires
            old(self).core_ok(),
        ensures
            final(self).core_ok(),
            records_like(*old(self), *final(self)),
            final(self).file_groups@ == old(self).file_groups@,
            final(self).group_relations@ == old(self).group_relations@,
            forall|x: GroupTagDTO| #[trigger] final(self).group_tags@.contains(x) <==> (
                old(self).group_tags@.contains(x) && !(x.group_id == gid)),
    {
        let ghost o = *self;
        proof {
            assert(records_like(o, o));
        }
        loop
            invariant
                self.core_ok(),
                records_like(o, *self),
                self.file_groups@ == o.file_groups@,
                self.group_relations@ == o.group_relations@,
                forall|x: GroupTagDTO| #[trigger] self.group_tags@.contains(x) ==> o.group_tags@.contains(x),
                forall|x: GroupTagDTO| o.group_tags@.contains(x) && !(x.group_id == gid) ==> #[trigger] self.group_tags@.contains(x),
            ensures
                self.core_ok(),
                records_like(o, *self),
                self.file_groups@ == o.file_groups@,
                self.group_relations@ == o.group_relations@,
                forall|x: GroupTagDTO| #[trigger] self.group_tags@.contains(x) <==> (
                    o.group_tags@.contains(x) && !(x.group_id == gid)),
            decreases self.group_tags@.len(),
        {
            match self.find_tag_link_of_group(gid) {
                None => {
                    proof {
                        assert forall|x: GroupTagDTO| #[trigger] self.group_tags@.contains(x) implies !(x.group_id == gid) by {
                            let j = choose|j: int| 0 <= j < self.group_tags@.len() && self.group_tags@[j] == x;
                        }
                    }
                    break;
                },
                Some(k) => {
                    let a = self.group_tags[k].group_id;
                    let b = self.group_tags[k].tag_id;
                    proof {
                        assert(has_group(self.groups@, a));
                        assert(has_tag(self.tags@, b));
                    }
                    let ia = self.find_group_index(a).unwrap();
                    let ib = self.find_tag_index(b).unwrap();
                    let ghost pre = *self;
                    self.remove_group_tag_at(k, ia, ib);
                    proof {
                        let n = *self;
                        assert(records_like(pre, n));
                        lemma_records_like_trans(o, pre, n);
                        lemma_remove_contains(pre.group_tags@, k as int);
                    }
                },
            }
        }
    }

    /// Position of some link of a group to tag `tid`.
    pub fn find_group_link_of_tag(&self, tid: i32) -> (r: Option<usize>)
        ensures
            match r {
                Some(k) => k < self.group_tags@.len() && self.group_tags@[k as int].tag_id == tid,
                None => forall|k: int| 0 <= k < self.group_tags@.len() ==> !((#[trigger] self.group_tags@[k]).tag_id == tid),
            },
    {
        let mut k: usize = 0;
        while k < self.group_tags.len()
            invariant
                k <= self.group_tags@.len(),
                forall|j: int| 0 <= j < k ==> !((#[trigger] self.group_tags@[j]).tag_id == tid),
            decreases self.group_tags@.len() - k,
        {
            if self.group_tags[k].tag_id == tid {
                return Some(k);
            }
            k = k + 1;
        }
        None
    }

    /// Removes every link of a group to tag `tid`, taking one from the reference counts of the
    /// two records that each link names.
    pub fn remove_group_links_of_tag(&mut self, tid: i32)
        requires
            old(self).core_ok(),
        ensures
            final(self).core_ok(),
            records_like(*old(self), *final(self)),
            final(self).file_groups@ == old(self).file_groups@,
            final(self).group_relations@ == old(self).group_relations@,
            forall|x: GroupTagDTO| #[trigger] final(self).group_tags@.contains(x) <==> (
                old(self).group_tags@.contains(x) && !(x.tag_id == tid)),
    {
        let ghost o = *self;
        proof {
            assert(records_like(o, o));
        }
        loop
            invariant
                self.core_ok(),
                records_like(o, *self),
                self.file_groups@ == o.file_groups@,
                self.group_relations@ == o.group_relations@,
                forall|x: GroupTagDTO| #[trigger] self.group_tags@.contains(x) ==> o.group_tags@.contains(x),
                forall|x: GroupTagDTO| o.group_tags@.contains(x) && !(x.tag_id == tid) ==> #[trigger] self.group_tags@.contains(x),
            ensures
                self.core_ok(),
                records_like(o, *self),
                self.file_groups@ == o.file_groups@,
                self.group_relations@ == o.group_relations@,
                forall|x: GroupTagDTO| #[trigger] self.group_tags@.contains(x) <==> (
                    o.group_tags@.contains(x) && !(x.tag_id == tid)),
            decreases self.group_tags@.len(),
        {
            match self.find_group_link_of_tag(tid) {
                None => {
                    proof {
                        assert forall|x: GroupTagDTO| #[trigger] self.group_tags@.contains(x) implies !(x.tag_id == tid) by {
                            let j = choose|j: int| 0 <= j < self.group_tags@.len() && self.group_tags@[j] == x;
                        }
                    }
                    break;
                },
                Some(k) => {
                    let a = self.group_tags[k].group_id;
                    let b = self.group_tags[k].tag_id;
                    proof {
                        assert(has_group(self.groups@, a));
                        assert(has_tag(self.tags@, b));
                    }
                    let ia = self.find_group_index(a).unwrap();
                    let ib = self.find_tag_index(b).unwrap();
                    let ghost pre = *self;
                    self.remove_group_tag_at(k, ia, ib);
                    proof {
                        let n = *self;
                        assert(records_like(pre, n));
                        lemma_records_like_trans(o, pre, n);
                        lemma_remove_contains(pre.group_tags@, k as int);
                    }
                },
            }
        }
    }

    /// Position of some relation that names group `gid` at either end.
    pub fn find_relation_of_group(&self, gid: i32) -> (r: Option<usize>)
        ensures
            match r {
                Some(k) => k < self.group_relations@.len() && (self.group_relations@[k as int].first_group_id == gid || self.group_relations@[k as int].second_group_id == gid),
                None => forall|k: int| 0 <= k < self.group_relations@.len() ==> !((#[trigger] self.group_relations@[k]).first_group_id == gid || self.group_relations@[k].second_group_id == gid),
            },
    {
        let mut k: usize = 0;
        while k < self.group_relations.len()
            invariant
                k <= self.group_relations@.len(),
                forall|j: int| 0 <= j < k ==> !((#[trigger] self.group_relations@[j]).first_group_id == gid || self.group_relations@[j].second_group_id == gid),
            decreases self.group_relations@.len() - k,
        {
            if self.group_relations[k].first_group_id == gid || self.group_relations[k].second_group_id == gid {
                return Some(k);
            }
            k = k + 1;
        }
        None
    }

    /// Removes every relation that names group `gid` at either end, taking one from the reference counts of the
    /// two records that each link names.
    pub fn remove_relations_of_group(&mut self, gid: i32)
        requires
            old(self).core_ok(),
        ensures
            final(self).core_ok(),
            records_like(*old(self), *final(self)),
            final(self).file_groups@ == old(self).file_groups@,
            final(self).group_tags@ == old(self).group_tags@,
            forall|x: GroupRelation| #[trigger] final(self).group_relations@.contains(x) <==> (
                old(self).group_relations@.contains(x) && !(x.first_group_id == gid || x.second_group_id == gid)),
    {
        let ghost o = *self;
        proof {
            assert(records_like(o, o));
        }
        loop
            invariant
                self.core_ok(),
                records_like(o, *self),
                self.file_groups@ == o.file_groups@,
                self.group_tags@ == o.group_tags@,
                forall|x: GroupRelation| #[trigger] self.group_relations@.contains(x) ==> o.group_relations@.contains(x),
                forall|x: GroupRelation| o.group_relations@.contains(x) && !(x.first_group_id == gid || x.second_group_id == gid) ==> #[trigger] self.group_relations@.contains(x),
            ensures
                self.core_ok(),
                records_like(o, *self),
                self.file_groups@ == o.file_groups@,
                self.group_tags@ == o.group_tags@,
                forall|x: GroupRelation| #[trigger] self.group_relations@.contains(x) <==> (
                    o.group_relations@.contains(x) && !(x.first_group_id == gid || x.second_group_id == gid)),
            decreases self.group_relations@.len(),
        {
            match self.find_relation_of_group(gid) {
                None => {
                    proof {
                        assert forall|x: GroupRelation| #[trigger] self.group_relations@.contains(x) implies !(x.first_group_id == gid || x.second_group_id == gid) by {
                            let j = choose|j: int| 0 <= j < self.group_relations@.len() && self.group_relations@[j] == x;
                        }
                    }
                    break;
                },
                Some(k) => {
                    let a = self.group_relations[k].first_group_id;
                    let b = self.group_relations[k].second_group_id;
                    proof {
                        assert(has_group(self.groups@, a));
                        assert(has_group(self.groups@, b));
                    }
                    let ia = self.find_group_index(a).unwrap();
                    let ib = self.find_group_index(b).unwrap();
                    let ghost pre = *self;
                    self.remove_group_relation_at(k, ia, ib);
                    proof {
                        let n = *self;
                        assert(records_like(pre, n));
                        lemma_records_like_trans(o, pre, n);
                        lemma_remove_contains(pre.group_relations@, k as int);
                    }
                },
            }
        }
    }

    /// Removes the file at position `fi`, which no link names any more.
    pub fn remove_file_at(&mut self, fi: usize)
        requires
            old(self).core_ok(),
            fi < old(self).files@.len(),
            forall|k: int| 0 <= k < old(self).file_groups@.len() ==> (#[trigger] old(self).file_groups@[k]).file_id != old(self).files@[fi as int].id,
        ensures
            final(self).core_ok(),
            final(self).files@ == old(self).files@.remove(fi as int),
            final(self).groups@ == old(self).groups@,
            final(self).tags@ == old(self).tags@,
            final(self).file_groups@ == old(self).file_groups@,
            final(self).group_tags@ == old(self).group_tags@,
            final(self).group_relations@ == old(self).group_relations@,
            final(self).next_file_id == old(self).next_file_id,
            final(self).next_group_id == old(self).next_group_id,
            final(self).next_tag_id == old(self).next_tag_id,
    {
        let ghost o = *self;
        let ghost id = o.files@[fi as int].id;
        self.files.remove(fi);
        proof {
            let n = *self;
            let os = o.files@;
            let ns = n.files@;
            assert forall|i: int| 0 <= i < ns.len() implies #[trigger] ns[i] == os[if i < fi { i } else { i + 1 }] by {}
            assert forall|x: i32| has_file(os, x) && x != id implies has_file(ns, x) by {
                let j = choose|j: int| 0 <= j < os.len() && (#[trigger] os[j]).id == x;
                if j < fi {
                    assert(ns[j].id == x);
                } else {
                    assert(j != fi);
                    assert(ns[j - 1].id == x);
                }
            }
            assert(n.ids_ok()) by {
                assert forall|i: int, j: int|
                    0 <= i < ns.len() && 0 <= j < ns.len() && i != j implies (#[trigger] ns[i]).id != (#[trigger] ns[j]).id by {
                    let ii = if i < fi { i } else { i + 1 };
                    let jj = if j < fi { j } else { j + 1 };
                    assert(os[ii].id != os[jj].id);
                }
            }
            assert(n.links_ok()) by {
                assert forall|k: int| 0 <= k < n.file_groups@.len() implies has_file(ns, (#[trigger] n.file_groups@[k]).file_id) by {
                    assert(has_file(os, n.file_groups@[k].file_id));
                }
            }
            assert(n.counts_ok()) by {
                assert forall|i: int| 0 <= i < ns.len() implies #[trigger] ns[i].reference_count == fg_count_file(n.file_groups@, ns[i].id) by {
                    let ii = if i < fi { i } else { i + 1 };
                    assert(ns[i] == os[ii]);
                }
            }
        }
    }

    /// Removes the group at position `gi`, which no link names any more.
    pub fn remove_group_at(&mut self, gi: usize)
        requires
            old(self).core_ok(),
            gi < old(self).groups@.len(),
            forall|k: int| 0 <= k < old(self).file_groups@.len() ==> (#[trigger] old(self).file_groups@[k]).group_id != old(self).groups@[gi as int].id,
            forall|k: int| 0 <= k < old(self).group_tags@.len() ==> (#[trigger] old(self).group_tags@[k]).group_id != old(self).groups@[gi as int].id,
            forall|k: int| 0 <= k < old(self).group_relations@.len() ==> (#[trigger] old(self).group_relations@[k]).first_group_id != old(self).groups@[gi as int].id && old(self).group_relations@[k].second_group_id != old(self).groups@[gi as int].id,
        ensures
            final(self).core_ok(),
            final(self).groups@ == old(self).groups@.remove(gi as int),
            final(self).files@ == old(self).files@,
            final(self).tags@ == old(self).tags@,
            final(self).file_groups@ == old(self).file_groups@,
            final(self).group_tags@ == old(self).group_tags@,
            final(self).group_relations@ == old(self).group_relations@,
            final(self).next_file_id == old(self).next_file_id,
            final(self).next_group_id == old(self).next_group_id,
            final(self).next_tag_id == old(self).next_tag_id,
    {
        let ghost o = *self;
        let ghost id = o.groups@[gi as int].id;
        self.groups.remove(gi);
        proof {
            let n = *self;
            let os = o.groups@;
            let ns = n.groups@;
            assert forall|i: int| 0 <= i < ns.len() implies #[trigger] ns[i] == os[if i < gi { i } else { i + 1 }] by {}
            assert forall|x: i32| has_group(os, x) && x != id implies has_group(ns, x) by {
                let j = choose|j: int| 0 <= j < os.len() && (#[trigger] os[j]).id == x;
                if j < gi {
                    assert(ns[j].id == x);
                } else {
                    assert(j != gi);
                    assert(ns[j - 1].id == x);
                }
            }
            assert(n.ids_ok()) by {
                assert forall|i: int, j: int|
                    0 <= i < ns.len() && 0 <= j < ns.len() && i != j implies (#[trigger] ns[i]).id != (#[trigger] ns[j]).id by {
                    let ii = if i < gi { i } else { i + 1 };
                    let jj = if j < gi { j } else { j + 1 };
                    assert(os[ii].id != os[jj].id);
                }
            }
            assert(n.links_ok()) by {
                assert forall|k: int| 0 <= k < n.file_groups@.len() implies has_group(ns, (#[trigger] n.file_groups@[k]).group_id) by {
                    assert(has_group(os, n.file_groups@[k].group_id));
                }
                assert forall|k: int| 0 <= k < n.group_tags@.len() implies has_group(ns, (#[trigger] n.group_tags@[k]).group_id) by {
                    assert(has_group(os, n.group_tags@[k].group_id));
                }
                assert forall|k: int| 0 <= k < n.group_relations@.len() implies has_group(ns, (#[trigger] n.group_relations@[k]).first_group_id)
                    && has_group(ns, n.group_relations@[k].second_group_id) by {
                    assert(has_group(os, n.group_relations@[k].first_group_id));
                    assert(has_group(os, n.group_relations@[k].second_group_id));
                }
            }
            assert(n.counts_ok()) by {
                assert forall|i: int| 0 <= i < ns.len() implies #[trigger] ns[i].reference_count == group_refs(n.file_groups@, n.group_tags@, n.group_relations@, ns[i].id) by {
                    let ii = if i < gi { i } else { i + 1 };
                    assert(ns[i] == os[ii]);
                }
            }
        }
    }

    /// Removes the tag at position `ti`, which no link names any more.
    pub fn remove_tag_at(&mut self, ti: usize)
        requires
            old(self).core_ok(),
            ti < old(self).tags@.len(),
            forall|k: int| 0 <= k < old(self).group_tags@.len() ==> (#[trigger] old(self).group_tags@[k]).tag_id != old(self).tags@[ti as int].id,
        ensures
            final(self).core_ok(),
            final(self).tags@ == old(self).tags@.remove(ti as int),
            final(self).files@ == old(self).files@,
            final(self).groups@ == old(self).groups@,
            final(self).file_groups@ == old(self).file_groups@,
            final(self).group_tags@ == old(self).group_tags@,
            final(self).group_relations@ == old(self).group_relations@,
            final(self).next_file_id == old(self).next_file_id,
            final(self).next_group_id == old(self).next_group_id,
            final(self).next_tag_id == old(self).next_tag_id,
    {
        let ghost o = *self;
        let ghost id = o.tags@[ti as int].id;
        self.tags.remove(ti);
        proof {
            let n = *self;
            let os = o.tags@;
            let ns = n.tags@;
            assert forall|i: int| 0 <= i < ns.len() implies #[trigger] ns[i] == os[if i < ti { i } else { i + 1 }] by {}
            assert forall|x: i32| has_tag(os, x) && x != id implies has_tag(ns, x) by {
                let j = choose|j: int| 0 <= j < os.len() && (#[trigger] os[j]).id == x;
                if j < ti {
                    assert(ns[j].id == x);
                } else {
                    assert(j != ti);
                    assert(ns[j - 1].id == x);
                }
            }
            assert(n.ids_ok()) by {
                assert forall|i: int, j: int|
                    0 <= i < ns.len() && 0 <= j < ns.len() && i != j implies (#[trigger] ns[i]).id != (#[trigger] ns[j]).id by {
                    let ii = if i < ti { i } else { i + 1 };
                    let jj = if j < ti { j } else { j + 1 };
                    assert(os[ii].id != os[jj].id);
                }
            }
            assert(n.links_ok()) by {
                assert forall|k: int| 0 <= k < n.group_tags@.len() implies has_tag(ns, (#[trigger] n.group_tags@[k]).tag_id) by {
                    assert(has_tag(os, n.group_tags@[k].tag_id));
                }
            }
            assert(n.counts_ok()) by {
                assert forall|i: int| 0 <= i < ns.len() implies #[trigger] ns[i].reference_count == gt_count_tag(n.group_tags@, ns[i].id) by {
                    let ii = if i < ti { i } else { i + 1 };
                    assert(ns[i] == os[ii]);
                }
            }
        }
    }
    /// Removes every link of file `owner` (when given), every link naming
    /// group `gid` and every relation naming it.
    pub fn remove_links_of(&mut self, owner: Option<i32>, gid: i32)
        requires
            old(self).core_ok(),
        ensures
            final(self).core_ok(),
            records_like(*old(self), *final(self)),
            forall|x: FileGroupDTO| #[trigger] final(self).file_groups@.contains(x) <==> (old(self).file_groups@.contains(x)
                && x.group_id != gid && (owner matches Some(fid) ==> x.file_id != fid)),
            forall|x: GroupTagDTO| #[trigger] final(self).group_tags@.contains(x) <==> (old(self).group_tags@.contains(x)
                && x.group_id != gid),
            forall|x: GroupRelation| #[trigger] final(self).group_relations@.contains(x) <==> (
                old(self).group_relations@.contains(x) && x.first_group_id != gid && x.second_group_id != gid),
    {
        let ghost o = *self;
        match owner {
            Some(fid) => {
                self.remove_links_of_file(fid);
            },
            None => {
                proof {
                    assert(records_like(o, o));
                }
            },
        }
        let ghost s1 = *self;
        self.remove_relations_of_group(gid);
        let ghost s2 = *self;
        self.remove_links_to_group(gid);
        let ghost s3 = *self;
        self.remove_tag_links_of_group(gid);
        proof {
            let mid = *self;
            lemma_records_like_trans(o, s1, s2);
            lemma_records_like_trans(o, s2, s3);
            lemma_records_like_trans(o, s3, mid);
            assert forall|x: FileGroupDTO| #[trigger] mid.file_groups@.contains(x) <==> (o.file_groups@.contains(x)
                && x.group_id != gid && (owner matches Some(fid) ==> x.file_id != fid)) by {
                if owner is None {
                    assert(s1.file_groups@ == o.file_groups@);
                }
            }
            assert forall|x: GroupTagDTO| #[trigger] mid.group_tags@.contains(x) <==> (o.group_tags@.contains(x)
                && x.group_id != gid) by {
                assert(s2.group_tags@ == o.group_tags@);
            }
            assert forall|x: GroupRelation| #[trigger] mid.group_relations@.contains(x) <==> (
                o.group_relations@.contains(x) && x.first_group_id != gid && x.second_group_id != gid) by {
                assert(s1.group_relations@ == o.group_relations@);
            }
        }
    }

    /// Removes group `gid` and, when `owner` is the position of the file
    /// that owns it, that file too, together with every link of the file,
    /// every link naming the group and every relation naming the group.
    #[verifier::rlimit(60)]
    pub fn purge(&mut self, owner: Option<usize>, gid: i32)
        requires
            old(self).wf(),
            has_group(old(self).groups@, gid),
            match owner {
                Some(fi) => fi < old(self).files@.len() && old(self).files@[fi as int].group_id == gid,
                None => forall|i: int| 0 <= i < old(self).files@.len() ==> (#[trigger] old(self).files@[i]).group_id != gid,
            },
        ensures
            final(self).wf(),
            purged(*old(self), *final(self), match owner {
                Some(fi) => Some(old(self).files@[fi as int].id),
                None => None,
            }, gid),
    {
        let ghost o = *self;
        let owner_id: Option<i32> = match owner {
            Some(fi) => Some(self.files[fi].id),
            None => None,
        };
        self.remove_links_of(owner_id, gid);
        let ghost mid = *self;
        let ghost mut fi_g: int = 0;
        match owner {
            Some(fi) => {
                proof {
                    fi_g = fi as int;
                    assert(same_file(o.files@[fi as int], mid.files@[fi as int]));
                    assert forall|k: int| 0 <= k < mid.file_groups@.len() implies (#[trigger] mid.file_groups@[k]).file_id
                        != mid.files@[fi as int].id by {
                        assert(mid.file_groups@.contains(mid.file_groups@[k]));
                    }
                }
                self.remove_file_at(fi);
                proof {
                    lemma_files_like_remove(o.files@, mid.files@, fi as int);
                }
            },
            None => {},
        }
        let ghost s5 = *self;
        proof {
            assert(groups_like(o.groups@, s5.groups@));
            crate::rows::lemma_groups_like_has(o.groups@, s5.groups@);
        }
        let gi = self.find_group_index(gid).unwrap();
        proof {
            assert(same_group(o.groups@[gi as int], s5.groups@[gi as int]));
            lemma_no_links_left(s5, gid);
        }
        self.remove_group_at(gi);
        proof {
            let n = *self;
            lemma_groups_like_remove(o.groups@, s5.groups@, gi as int);
            assert(purge_frame(o, n, owner_id, fi_g, gi as int, gid));
            lemma_primary_after_purge(o, n, owner_id, fi_g, gi as int, gid);
            assert(tags_like(o.tags@, n.tags@));
            crate::rows::lemma_group_names_remove(o.groups@, gi as int);
            crate::rows::lemma_group_names_like(o.groups@.remove(gi as int), n.groups@);
            crate::rows::lemma_tag_names_like(o.tags@, n.tags@);
        }
    }
}

} // verus!

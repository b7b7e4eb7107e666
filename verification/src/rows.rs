//! Row-level changes of the link tables: adding a link increments the
//! reference counts of both records it names, removing one decrements them.
//! Each keeps the identifier, link and count parts of the invariant.
use vstd::prelude::*;
use crate::counts::{
    fg_count_file, fg_count_group, gt_count_group, gt_count_tag, rel_count_first, rel_count_second,
    lemma_fg_count_file_remove, lemma_fg_count_group_remove, lemma_gt_count_group_remove,
    lemma_gt_count_tag_remove, lemma_rel_count_first_remove, lemma_rel_count_second_remove,
};
use crate::models::{File, FileGroupDTO, Group, GroupRelation, GroupTagDTO, Tag};
use crate::store::{has_owner, 
    group_names_unique, group_refs, has_fg_link, has_file, has_group, has_tag, is_primary_group, owns, tag_names_unique,
    Database,
};

verus! {

/// Same file apart from its reference count.
pub open spec fn same_file(a: File, b: File) -> bool {
    &&& a.id == b.id
    &&& a.type_ == b.type_
    &&& a.path == b.path
    &&& a.group_id == b.group_id
    &&& a.description == b.description
}

/// Same group apart from its reference count.
pub open spec fn same_group(a: Group, b: Group) -> bool {
    &&& a.id == b.id
    &&& a.name == b.name
    &&& a.is_primary == b.is_primary
    &&& a.click_count == b.click_count
    &&& a.share_count == b.share_count
    &&& a.create_time == b.create_time
    &&& a.modify_time == b.modify_time
    &&& a.description == b.description
}

/// Same tag apart from its reference count.
pub open spec fn same_tag(a: Tag, b: Tag) -> bool {
    &&& a.id == b.id
    &&& a.name == b.name
    &&& a.description == b.description
}

pub open spec fn files_like(a: Seq<File>, b: Seq<File>) -> bool {
    &&& a.len() == b.len()
    &&& forall|i: int| 0 <= i < a.len() ==> same_file(#[trigger] a[i], b[i])
}

pub open spec fn groups_like(a: Seq<Group>, b: Seq<Group>) -> bool {
    &&& a.len() == b.len()
    &&& forall|i: int| 0 <= i < a.len() ==> same_group(#[trigger] a[i], b[i])
}

pub open spec fn tags_like(a: Seq<Tag>, b: Seq<Tag>) -> bool {
    &&& a.len() == b.len()
    &&& forall|i: int| 0 <= i < a.len() ==> same_tag(#[trigger] a[i], b[i])
}

/// Only link tables change: every record keeps all fields but its
/// reference count, and no identifier is handed out.
pub open spec fn records_like(o: Database, n: Database) -> bool {
    &&& files_like(o.files@, n.files@)
    &&& groups_like(o.groups@, n.groups@)
    &&& tags_like(o.tags@, n.tags@)
    &&& n.next_file_id == o.next_file_id
    &&& n.next_group_id == o.next_group_id
    &&& n.next_tag_id == o.next_tag_id
}

/// Groups that keep their names keep them apart.
pub proof fn lemma_group_names_like(a: Seq<Group>, b: Seq<Group>)
    requires
        groups_like(a, b),
        group_names_unique(a),
    ensures
        group_names_unique(b),
{
    assert forall|i: int, j: int| 0 <= i < b.len() && 0 <= j < b.len() && i != j implies (#[trigger] b[i]).name@
        != (#[trigger] b[j]).name@ by {
        assert(same_group(a[i], b[i]) && same_group(a[j], b[j]));
    }
}

/// Tags that keep their names keep them apart.
pub proof fn lemma_tag_names_like(a: Seq<Tag>, b: Seq<Tag>)
    requires
        tags_like(a, b),
        tag_names_unique(a),
    ensures
        tag_names_unique(b),
{
    assert forall|i: int, j: int| 0 <= i < b.len() && 0 <= j < b.len() && i != j implies (#[trigger] b[i]).name@
        != (#[trigger] b[j]).name@ by {
        assert(same_tag(a[i], b[i]) && same_tag(a[j], b[j]));
    }
}

/// Taking a group out keeps the other names apart.
pub proof fn lemma_group_names_remove(a: Seq<Group>, k: int)
    requires
        0 <= k < a.len(),
        group_names_unique(a),
    ensures
        group_names_unique(a.remove(k)),
{
    let b = a.remove(k);
    assert forall|i: int, j: int| 0 <= i < b.len() && 0 <= j < b.len() && i != j implies (#[trigger] b[i]).name@
        != (#[trigger] b[j]).name@ by {
        let ii = if i < k { i } else { i + 1 };
        let jj = if j < k { j } else { j + 1 };
        assert(b[i] == a[ii] && b[j] == a[jj]);
    }
}

/// Taking a tag out keeps the other names apart.
pub proof fn lemma_tag_names_remove(a: Seq<Tag>, k: int)
    requires
        0 <= k < a.len(),
        tag_names_unique(a),
    ensures
        tag_names_unique(a.remove(k)),
{
    let b = a.remove(k);
    assert forall|i: int, j: int| 0 <= i < b.len() && 0 <= j < b.len() && i != j implies (#[trigger] b[i]).name@
        != (#[trigger] b[j]).name@ by {
        let ii = if i < k { i } else { i + 1 };
        let jj = if j < k { j } else { j + 1 };
        assert(b[i] == a[ii] && b[j] == a[jj]);
    }
}

pub proof fn lemma_files_like_has(a: Seq<File>, b: Seq<File>)
    requires
        files_like(a, b),
    ensures
        forall|id: i32| has_file(a, id) <==> has_file(b, id),
{
    assert forall|id: i32| has_file(a, id) implies has_file(b, id) by {
        let i = choose|i: int| 0 <= i < a.len() && (#[trigger] a[i]).id == id;
        assert(same_file(a[i], b[i]));
    }
    assert forall|id: i32| has_file(b, id) implies has_file(a, id) by {
        let i = choose|i: int| 0 <= i < b.len() && (#[trigger] b[i]).id == id;
        assert(same_file(a[i], b[i]));
    }
}

pub proof fn lemma_groups_like_has(a: Seq<Group>, b: Seq<Group>)
    requires
        groups_like(a, b),
    ensures
        forall|id: i32| has_group(a, id) <==> has_group(b, id),
{
    assert forall|id: i32| has_group(a, id) implies has_group(b, id) by {
        let i = choose|i: int| 0 <= i < a.len() && (#[trigger] a[i]).id == id;
        assert(same_group(a[i], b[i]));
    }
    assert forall|id: i32| has_group(b, id) implies has_group(a, id) by {
        let i = choose|i: int| 0 <= i < b.len() && (#[trigger] b[i]).id == id;
        assert(same_group(a[i], b[i]));
    }
}

pub proof fn lemma_tags_like_has(a: Seq<Tag>, b: Seq<Tag>)
    requires
        tags_like(a, b),
    ensures
        forall|id: i32| has_tag(a, id) <==> has_tag(b, id),
{
    assert forall|id: i32| has_tag(a, id) implies has_tag(b, id) by {
        let i = choose|i: int| 0 <= i < a.len() && (#[trigger] a[i]).id == id;
        assert(same_tag(a[i], b[i]));
    }
    assert forall|id: i32| has_tag(b, id) implies has_tag(a, id) by {
        let i = choose|i: int| 0 <= i < b.len() && (#[trigger] b[i]).id == id;
        assert(same_tag(a[i], b[i]));
    }
}

/// The identifier part of the invariant depends on identifiers only.
pub proof fn lemma_ids_ok_like(o: Database, n: Database)
    requires
        o.ids_ok(),
        files_like(o.files@, n.files@),
        groups_like(o.groups@, n.groups@),
        tags_like(o.tags@, n.tags@),
        n.next_file_id == o.next_file_id,
        n.next_group_id == o.next_group_id,
        n.next_tag_id == o.next_tag_id,
    ensures
        n.ids_ok(),
{
    assert forall|i: int| 0 <= i < n.files@.len() implies (#[trigger] n.files@[i]).id == o.files@[i].id by {
        assert(same_file(o.files@[i], n.files@[i]));
    }
    assert forall|i: int| 0 <= i < n.groups@.len() implies (#[trigger] n.groups@[i]).id == o.groups@[i].id by {
        assert(same_group(o.groups@[i], n.groups@[i]));
    }
    assert forall|i: int| 0 <= i < n.tags@.len() implies (#[trigger] n.tags@[i]).id == o.tags@[i].id by {
        assert(same_tag(o.tags@[i], n.tags@[i]));
    }
    assert forall|i: int, j: int|
        0 <= i < n.files@.len() && 0 <= j < n.files@.len() && i != j implies (
        #[trigger] n.files@[i]).id != (#[trigger] n.files@[j]).id by {
        assert(o.files@[i].id != o.files@[j].id);
    }
    assert forall|i: int, j: int|
        0 <= i < n.groups@.len() && 0 <= j < n.groups@.len() && i != j implies (
        #[trigger] n.groups@[i]).id != (#[trigger] n.groups@[j]).id by {
        assert(o.groups@[i].id != o.groups@[j].id);
    }
    assert forall|i: int, j: int|
        0 <= i < n.tags@.len() && 0 <= j < n.tags@.len() && i != j implies (
        #[trigger] n.tags@[i]).id != (#[trigger] n.tags@[j]).id by {
        assert(o.tags@[i].id != o.tags@[j].id);
    }
}

impl Database {
    /// Stores the link from file `fi` to group `gi` (positions), adding one
    /// to the reference count of each.
    #[verifier::rlimit(40)]
    pub fn push_file_group(&mut self, fi: usize, gi: usize, relation_type: i32)
        requires
            old(self).core_ok(),
            fi < old(self).files@.len(),
            gi < old(self).groups@.len(),
            !has_fg_link(old(self).file_groups@, old(self).files@[fi as int].id, old(self).groups@[gi as int].id),
            old(self).files@[fi as int].reference_count < i32::MAX,
            old(self).groups@[gi as int].reference_count < i32::MAX,
        ensures
            final(self).core_ok(),
            final(self).file_groups@ == old(self).file_groups@.push(FileGroupDTO {
                file_id: old(self).files@[fi as int].id,
                group_id: old(self).groups@[gi as int].id,
                relation_type,
            }),
            final(self).files@ == old(self).files@.update(fi as int, File {
                reference_count: (old(self).files@[fi as int].reference_count + 1) as i32,
                ..old(self).files@[fi as int]
            }),
            final(self).groups@ == old(self).groups@.update(gi as int, Group {
                reference_count: (old(self).groups@[gi as int].reference_count + 1) as i32,
                ..old(self).groups@[gi as int]
            }),
            final(self).tags@ == old(self).tags@,
            final(self).group_tags@ == old(self).group_tags@,
            final(self).group_relations@ == old(self).group_relations@,
            final(self).next_file_id == old(self).next_file_id,
            final(self).next_group_id == old(self).next_group_id,
            final(self).next_tag_id == old(self).next_tag_id,
    {
        let ghost o = *self;
        let fid = self.files[fi].id;
        let gid = self.groups[gi].id;
        let r = FileGroupDTO { file_id: fid, group_id: gid, relation_type };
        self.files[fi].reference_count = self.files[fi].reference_count + 1;
        self.groups[gi].reference_count = self.groups[gi].reference_count + 1;
        self.file_groups.push(r);
        proof {
            let n = *self;
            assert(files_like(o.files@, n.files@));
            assert(groups_like(o.groups@, n.groups@));
            assert(tags_like(o.tags@, n.tags@));
            lemma_ids_ok_like(o, n);
            lemma_files_like_has(o.files@, n.files@);
            lemma_groups_like_has(o.groups@, n.groups@);
            let ofg = o.file_groups@;
            let nfg = n.file_groups@;
            assert(nfg.drop_last() =~= ofg);
            assert(has_file(n.files@, fid)) by {
                assert(n.files@[fi as int].id == fid);
            }
            assert(has_group(n.groups@, gid)) by {
                assert(n.groups@[gi as int].id == gid);
            }
            assert(n.links_ok()) by {
                assert forall|k: int| 0 <= k < nfg.len() implies has_file(n.files@, (#[trigger] nfg[k]).file_id)
                    && has_group(n.groups@, nfg[k].group_id) by {
                    if k < ofg.len() {
                        assert(nfg[k] == ofg[k]);
                    }
                }
            }
            assert(n.rows_unique()) by {
                assert forall|k: int, l: int|
                    0 <= k < nfg.len() && 0 <= l < nfg.len() && k != l implies !(
                    (#[trigger] nfg[k]).file_id == (#[trigger] nfg[l]).file_id
                        && nfg[k].group_id == nfg[l].group_id) by {
                    if k < ofg.len() && l < ofg.len() {
                        assert(nfg[k] == ofg[k] && nfg[l] == ofg[l]);
                    } else if k < ofg.len() {
                        assert(nfg[k] == ofg[k]);
                        assert(!(ofg[k].file_id == fid && ofg[k].group_id == gid));
                    } else {
                        assert(nfg[l] == ofg[l]);
                        assert(!(ofg[l].file_id == fid && ofg[l].group_id == gid));
                    }
                }
            }
            assert(n.counts_ok()) by {
                assert forall|i: int| 0 <= i < n.files@.len() implies (#[trigger] n.files@[i]).reference_count
                    == fg_count_file(nfg, n.files@[i].id) by {
                    assert(fg_count_file(nfg, n.files@[i].id) == fg_count_file(ofg, n.files@[i].id) + (
                    if fid == n.files@[i].id { 1nat } else { 0nat }));
                    if i != fi {
                        assert(o.files@[i].id != o.files@[fi as int].id);
                    }
                }
                assert forall|i: int| 0 <= i < n.groups@.len() implies (#[trigger] n.groups@[i]).reference_count
                    == group_refs(nfg, n.group_tags@, n.group_relations@, n.groups@[i].id) by {
                    assert(fg_count_group(nfg, n.groups@[i].id) == fg_count_group(ofg, n.groups@[i].id) + (
                    if gid == n.groups@[i].id { 1nat } else { 0nat }));
                    if i != gi {
                        assert(o.groups@[i].id != o.groups@[gi as int].id);
                    }
                }
                assert forall|i: int| 0 <= i < n.tags@.len() implies (#[trigger] n.tags@[i]).reference_count
                    == gt_count_tag(n.group_tags@, n.tags@[i].id) by {
                    assert(n.tags@[i] == o.tags@[i]);
                }
            }
        }
    }

    /// Removes the link at position `k`, whose file and group are at
    /// positions `fi` and `gi`, taking one from the reference count of each.
    #[verifier::rlimit(40)]
    pub fn remove_file_group_at(&mut self, k: usize, fi: usize, gi: usize)
        requires
            old(self).core_ok(),
            k < old(self).file_groups@.len(),
            fi < old(self).files@.len(),
            gi < old(self).groups@.len(),
            old(self).files@[fi as int].id == old(self).file_groups@[k as int].file_id,
            old(self).groups@[gi as int].id == old(self).file_groups@[k as int].group_id,
        ensures
            final(self).core_ok(),
            final(self).file_groups@ == old(self).file_groups@.remove(k as int),
            final(self).files@ == old(self).files@.update(fi as int, File {
                reference_count: (old(self).files@[fi as int].reference_count - 1) as i32,
                ..old(self).files@[fi as int]
            }),
            final(self).groups@ == old(self).groups@.update(gi as int, Group {
                reference_count: (old(self).groups@[gi as int].reference_count - 1) as i32,
                ..old(self).groups@[gi as int]
            }),
            final(self).tags@ == old(self).tags@,
            final(self).group_tags@ == old(self).group_tags@,
            final(self).group_relations@ == old(self).group_relations@,
            final(self).next_file_id == old(self).next_file_id,
            final(self).next_group_id == old(self).next_group_id,
            final(self).next_tag_id == old(self).next_tag_id,
    {
        let ghost o = *self;
        let ghost ofg = o.file_groups@;
        let ghost fid = o.files@[fi as int].id;
        let ghost gid = o.groups@[gi as int].id;
        proof {
            crate::counts::lemma_fg_count_file_pos(ofg, k as int, fid);
            crate::counts::lemma_fg_count_group_pos(ofg, k as int, gid);
        }
        self.files[fi].reference_count = self.files[fi].reference_count - 1;
        self.groups[gi].reference_count = self.groups[gi].reference_count - 1;
        self.file_groups.remove(k);
        proof {
            let n = *self;
            let nfg = n.file_groups@;
            assert(files_like(o.files@, n.files@));
            assert(groups_like(o.groups@, n.groups@));
            assert(tags_like(o.tags@, n.tags@));
            lemma_ids_ok_like(o, n);
            lemma_files_like_has(o.files@, n.files@);
            lemma_groups_like_has(o.groups@, n.groups@);
            assert(n.links_ok()) by {
                assert forall|q: int| 0 <= q < nfg.len() implies has_file(n.files@, (#[trigger] nfg[q]).file_id)
                    && has_group(n.groups@, nfg[q].group_id) by {
                    if q < k {
                        assert(nfg[q] == ofg[q]);
                    } else {
                        assert(nfg[q] == ofg[q + 1]);
                    }
                }
            }
            assert(n.rows_unique()) by {
                assert forall|p: int, q: int|
                    0 <= p < nfg.len() && 0 <= q < nfg.len() && p != q implies !(
                    (#[trigger] nfg[p]).file_id == (#[trigger] nfg[q]).file_id
                        && nfg[p].group_id == nfg[q].group_id) by {
                    let pp = if p < k { p } else { p + 1 };
                    let qq = if q < k { q } else { q + 1 };
                    assert(nfg[p] == ofg[pp] && nfg[q] == ofg[qq]);
                }
            }
            assert(n.counts_ok()) by {
                assert forall|i: int| 0 <= i < n.files@.len() implies (#[trigger] n.files@[i]).reference_count
                    == fg_count_file(nfg, n.files@[i].id) by {
                    lemma_fg_count_file_remove(ofg, k as int, n.files@[i].id);
                    if i != fi {
                        assert(o.files@[i].id != o.files@[fi as int].id);
                    }
                }
                assert forall|i: int| 0 <= i < n.groups@.len() implies (#[trigger] n.groups@[i]).reference_count
                    == group_refs(nfg, n.group_tags@, n.group_relations@, n.groups@[i].id) by {
                    lemma_fg_count_group_remove(ofg, k as int, n.groups@[i].id);
                    if i != gi {
                        assert(o.groups@[i].id != o.groups@[gi as int].id);
                    }
                }
                assert forall|i: int| 0 <= i < n.tags@.len() implies (#[trigger] n.tags@[i]).reference_count
                    == gt_count_tag(n.group_tags@, n.tags@[i].id) by {
                    assert(n.tags@[i] == o.tags@[i]);
                }
            }
        }
    }
}

impl Database {
    /// Stores the link from group `gi` to tag `ti` (positions), adding one to
    /// the reference count of each.
    #[verifier::rlimit(40)]
    pub fn push_group_tag(&mut self, gi: usize, ti: usize)
        requires
            old(self).core_ok(),
            gi < old(self).groups@.len(),
            ti < old(self).tags@.len(),
            !old(self).group_tags@.contains(GroupTagDTO {
                group_id: old(self).groups@[gi as int].id,
                tag_id: old(self).tags@[ti as int].id,
            }),
            old(self).groups@[gi as int].reference_count < i32::MAX,
            old(self).tags@[ti as int].reference_count < i32::MAX,
        ensures
            final(self).core_ok(),
            final(self).group_tags@ == old(self).group_tags@.push(GroupTagDTO {
                group_id: old(self).groups@[gi as int].id,
                tag_id: old(self).tags@[ti as int].id,
            }),
            final(self).groups@ == old(self).groups@.update(gi as int, Group {
                reference_count: (old(self).groups@[gi as int].reference_count + 1) as i32,
                ..old(self).groups@[gi as int]
            }),
            final(self).tags@ == old(self).tags@.update(ti as int, Tag {
                reference_count: (old(self).tags@[ti as int].reference_count + 1) as i32,
                ..old(self).tags@[ti as int]
            }),
            final(self).files@ == old(self).files@,
            final(self).file_groups@ == old(self).file_groups@,
            final(self).group_relations@ == old(self).group_relations@,
            final(self).next_file_id == old(self).next_file_id,
            final(self).next_group_id == old(self).next_group_id,
            final(self).next_tag_id == old(self).next_tag_id,
    {
        let ghost o = *self;
        let gid = self.groups[gi].id;
        let tid = self.tags[ti].id;
        let r = GroupTagDTO { group_id: gid, tag_id: tid };
        self.groups[gi].reference_count = self.groups[gi].reference_count + 1;
        self.tags[ti].reference_count = self.tags[ti].reference_count + 1;
        self.group_tags.push(r);
        proof {
            let n = *self;
            assert(files_like(o.files@, n.files@));
            assert(groups_like(o.groups@, n.groups@));
            assert(tags_like(o.tags@, n.tags@));
            lemma_ids_ok_like(o, n);
            lemma_files_like_has(o.files@, n.files@);
            lemma_groups_like_has(o.groups@, n.groups@);
            lemma_tags_like_has(o.tags@, n.tags@);
            let ogt = o.group_tags@;
            let ngt = n.group_tags@;
            assert(ngt.drop_last() =~= ogt);
            assert(has_group(n.groups@, gid)) by {
                assert(n.groups@[gi as int].id == gid);
            }
            assert(has_tag(n.tags@, tid)) by {
                assert(n.tags@[ti as int].id == tid);
            }
            assert(n.links_ok()) by {
                assert forall|k: int| 0 <= k < ngt.len() implies has_group(n.groups@, (#[trigger] ngt[k]).group_id)
                    && has_tag(n.tags@, ngt[k].tag_id) by {
                    if k < ogt.len() {
                        assert(ngt[k] == ogt[k]);
                    }
                }
            }
            assert(n.rows_unique()) by {
                assert forall|k: int, l: int|
                    0 <= k < ngt.len() && 0 <= l < ngt.len() && k != l implies !(
                    (#[trigger] ngt[k]).group_id == (#[trigger] ngt[l]).group_id
                        && ngt[k].tag_id == ngt[l].tag_id) by {
                    if k < ogt.len() && l < ogt.len() {
                        assert(ngt[k] == ogt[k] && ngt[l] == ogt[l]);
                    } else if k < ogt.len() {
                        assert(ngt[k] == ogt[k]);
                        assert(ogt[k] != r);
                    } else {
                        assert(ngt[l] == ogt[l]);
                        assert(ogt[l] != r);
                    }
                }
            }
            assert(n.counts_ok()) by {
                assert forall|i: int| 0 <= i < n.files@.len() implies (#[trigger] n.files@[i]).reference_count
                    == fg_count_file(n.file_groups@, n.files@[i].id) by {
                    assert(n.files@[i] == o.files@[i]);
                }
                assert forall|i: int| 0 <= i < n.groups@.len() implies (#[trigger] n.groups@[i]).reference_count
                    == group_refs(n.file_groups@, ngt, n.group_relations@, n.groups@[i].id) by {
                    assert(gt_count_group(ngt, n.groups@[i].id) == gt_count_group(ogt, n.groups@[i].id) + (
                    if gid == n.groups@[i].id { 1nat } else { 0nat }));
                    if i != gi {
                        assert(o.groups@[i].id != o.groups@[gi as int].id);
                    }
                }
                assert forall|i: int| 0 <= i < n.tags@.len() implies (#[trigger] n.tags@[i]).reference_count
                    == gt_count_tag(ngt, n.tags@[i].id) by {
                    assert(gt_count_tag(ngt, n.tags@[i].id) == gt_count_tag(ogt, n.tags@[i].id) + (
                    if tid == n.tags@[i].id { 1nat } else { 0nat }));
                    if i != ti {
                        assert(o.tags@[i].id != o.tags@[ti as int].id);
                    }
                }
            }
        }
    }

    /// Removes the group/tag link at position `k`, whose group and tag are at
    /// positions `gi` and `ti`, taking one from the reference count of each.
    #[verifier::rlimit(40)]
    pub fn remove_group_tag_at(&mut self, k: usize, gi: usize, ti: usize)
        requires
            old(self).core_ok(),
            k < old(self).group_tags@.len(),
            gi < old(self).groups@.len(),
            ti < old(self).tags@.len(),
            old(self).groups@[gi as int].id == old(self).group_tags@[k as int].group_id,
            old(self).tags@[ti as int].id == old(self).group_tags@[k as int].tag_id,
        ensures
            final(self).core_ok(),
            final(self).group_tags@ == old(self).group_tags@.remove(k as int),
            final(self).groups@ == old(self).groups@.update(gi as int, Group {
                reference_count: (old(self).groups@[gi as int].reference_count - 1) as i32,
                ..old(self).groups@[gi as int]
            }),
            final(self).tags@ == old(self).tags@.update(ti as int, Tag {
                reference_count: (old(self).tags@[ti as int].reference_count - 1) as i32,
                ..old(self).tags@[ti as int]
            }),
            final(self).files@ == old(self).files@,
            final(self).file_groups@ == old(self).file_groups@,
            final(self).group_relations@ == old(self).group_relations@,
            final(self).next_file_id == old(self).next_file_id,
            final(self).next_group_id == old(self).next_group_id,
            final(self).next_tag_id == old(self).next_tag_id,
    {
        let ghost o = *self;
        let ghost ogt = o.group_tags@;
        let ghost gid = o.groups@[gi as int].id;
        let ghost tid = o.tags@[ti as int].id;
        proof {
            crate::counts::lemma_gt_count_group_pos(ogt, k as int, gid);
            crate::counts::lemma_gt_count_tag_pos(ogt, k as int, tid);
        }
        self.groups[gi].reference_count = self.groups[gi].reference_count - 1;
        self.tags[ti].reference_count = self.tags[ti].reference_count - 1;
        self.group_tags.remove(k);
        proof {
            let n = *self;
            let ngt = n.group_tags@;
            assert(files_like(o.files@, n.files@));
            assert(groups_like(o.groups@, n.groups@));
            assert(tags_like(o.tags@, n.tags@));
            lemma_ids_ok_like(o, n);
            lemma_files_like_has(o.files@, n.files@);
            lemma_groups_like_has(o.groups@, n.groups@);
            lemma_tags_like_has(o.tags@, n.tags@);
            assert(n.links_ok()) by {
                assert forall|q: int| 0 <= q < ngt.len() implies has_group(n.groups@, (#[trigger] ngt[q]).group_id)
                    && has_tag(n.tags@, ngt[q].tag_id) by {
                    if q < k {
                        assert(ngt[q] == ogt[q]);
                    } else {
                        assert(ngt[q] == ogt[q + 1]);
                    }
                }
            }
            assert(n.rows_unique()) by {
                assert forall|p: int, q: int|
                    0 <= p < ngt.len() && 0 <= q < ngt.len() && p != q implies !(
                    (#[trigger] ngt[p]).group_id == (#[trigger] ngt[q]).group_id
                        && ngt[p].tag_id == ngt[q].tag_id) by {
                    let pp = if p < k { p } else { p + 1 };
                    let qq = if q < k { q } else { q + 1 };
                    assert(ngt[p] == ogt[pp] && ngt[q] == ogt[qq]);
                }
            }
            assert(n.counts_ok()) by {
                assert forall|i: int| 0 <= i < n.files@.len() implies (#[trigger] n.files@[i]).reference_count
                    == fg_count_file(n.file_groups@, n.files@[i].id) by {
                    assert(n.files@[i] == o.files@[i]);
                }
                assert forall|i: int| 0 <= i < n.groups@.len() implies (#[trigger] n.groups@[i]).reference_count
                    == group_refs(n.file_groups@, ngt, n.group_relations@, n.groups@[i].id) by {
                    lemma_gt_count_group_remove(ogt, k as int, n.groups@[i].id);
                    if i != gi {
                        assert(o.groups@[i].id != o.groups@[gi as int].id);
                    }
                }
                assert forall|i: int| 0 <= i < n.tags@.len() implies (#[trigger] n.tags@[i]).reference_count
                    == gt_count_tag(ngt, n.tags@[i].id) by {
                    lemma_gt_count_tag_remove(ogt, k as int, n.tags@[i].id);
                    if i != ti {
                        assert(o.tags@[i].id != o.tags@[ti as int].id);
                    }
                }
            }
        }
    }

    /// Stores a relation of type `relation_type` between the groups at positions `g1` (first)
    /// and `g2` (second), adding one to the reference count of each.
    #[verifier::rlimit(40)]
    pub fn push_group_relation(&mut self, g1: usize, g2: usize, relation_type: i32)
        requires
            old(self).core_ok(),
            g1 < old(self).groups@.len(),
            g2 < old(self).groups@.len(),
            g1 != g2,
            !old(self).group_relations@.contains(GroupRelation {
                first_group_id: old(self).groups@[g1 as int].id,
                second_group_id: old(self).groups@[g2 as int].id,
                relation_type,
            }),
            old(self).groups@[g1 as int].reference_count < i32::MAX,
            old(self).groups@[g2 as int].reference_count < i32::MAX,
        ensures
            final(self).core_ok(),
            final(self).group_relations@ == old(self).group_relations@.push(GroupRelation {
                first_group_id: old(self).groups@[g1 as int].id,
                second_group_id: old(self).groups@[g2 as int].id,
                relation_type,
            }),
            final(self).groups@ == old(self).groups@.update(g1 as int, Group {
                reference_count: (old(self).groups@[g1 as int].reference_count + 1) as i32,
                ..old(self).groups@[g1 as int]
            }).update(g2 as int, Group {
                reference_count: (old(self).groups@[g2 as int].reference_count + 1) as i32,
                ..old(self).groups@[g2 as int]
            }),
            final(self).files@ == old(self).files@,
            final(self).tags@ == old(self).tags@,
            final(self).file_groups@ == old(self).file_groups@,
            final(self).group_tags@ == old(self).group_tags@,
            final(self).next_file_id == old(self).next_file_id,
            final(self).next_group_id == old(self).next_group_id,
            final(self).next_tag_id == old(self).next_tag_id,
    {
        let ghost o = *self;
        let a = self.groups[g1].id;
        let b = self.groups[g2].id;
        let r = GroupRelation { first_group_id: a, second_group_id: b, relation_type };
        self.groups[g1].reference_count = self.groups[g1].reference_count + 1;
        self.groups[g2].reference_count = self.groups[g2].reference_count + 1;
        self.group_relations.push(r);
        proof {
            let n = *self;
            assert(a != b);
            assert(files_like(o.files@, n.files@));
            assert(groups_like(o.groups@, n.groups@));
            assert(tags_like(o.tags@, n.tags@));
            lemma_ids_ok_like(o, n);
            lemma_files_like_has(o.files@, n.files@);
            lemma_groups_like_has(o.groups@, n.groups@);
            let orl = o.group_relations@;
            let nrl = n.group_relations@;
            assert(nrl.drop_last() =~= orl);
            assert(has_group(n.groups@, a)) by {
                assert(n.groups@[g1 as int].id == a);
            }
            assert(has_group(n.groups@, b)) by {
                assert(n.groups@[g2 as int].id == b);
            }
            assert(n.links_ok()) by {
                assert forall|k: int| 0 <= k < nrl.len() implies has_group(n.groups@, (#[trigger] nrl[k]).first_group_id)
                    && has_group(n.groups@, nrl[k].second_group_id)
                    && nrl[k].first_group_id != nrl[k].second_group_id by {
                    if k < orl.len() {
                        assert(nrl[k] == orl[k]);
                    }
                }
            }
            assert(n.rows_unique()) by {
                assert forall|k: int, l: int|
                    0 <= k < nrl.len() && 0 <= l < nrl.len() && k != l implies (#[trigger] nrl[k]) != (#[trigger] nrl[l]) by {
                    if k < orl.len() && l < orl.len() {
                        assert(nrl[k] == orl[k] && nrl[l] == orl[l]);
                    } else if k < orl.len() {
                        assert(nrl[k] == orl[k]);
                    } else {
                        assert(nrl[l] == orl[l]);
                    }
                }
            }
            assert(n.counts_ok()) by {
                assert forall|i: int| 0 <= i < n.files@.len() implies (#[trigger] n.files@[i]).reference_count
                    == fg_count_file(n.file_groups@, n.files@[i].id) by {
                    assert(n.files@[i] == o.files@[i]);
                }
                assert forall|i: int| 0 <= i < n.groups@.len() implies (#[trigger] n.groups@[i]).reference_count
                    == group_refs(n.file_groups@, n.group_tags@, nrl, n.groups@[i].id) by {
                    let id = n.groups@[i].id;
                    assert(rel_count_first(nrl, id) == rel_count_first(orl, id) + (if a == id { 1nat } else { 0nat }));
                    assert(rel_count_second(nrl, id) == rel_count_second(orl, id) + (if b == id { 1nat } else { 0nat }));
                    if i != g1 {
                        assert(o.groups@[i].id != o.groups@[g1 as int].id);
                    }
                    if i != g2 {
                        assert(o.groups@[i].id != o.groups@[g2 as int].id);
                    }
                }
                assert forall|i: int| 0 <= i < n.tags@.len() implies (#[trigger] n.tags@[i]).reference_count
                    == gt_count_tag(n.group_tags@, n.tags@[i].id) by {
                    assert(n.tags@[i] == o.tags@[i]);
                }
            }
        }
    }

    /// Removes the relation at position `k`, whose groups are at positions
    /// `g1` (first) and `g2` (second), taking one from the reference count
    /// of each.
    #[verifier::rlimit(40)]
    pub fn remove_group_relation_at(&mut self, k: usize, g1: usize, g2: usize)
        requires
            old(self).core_ok(),
            k < old(self).group_relations@.len(),
            g1 < old(self).groups@.len(),
            g2 < old(self).groups@.len(),
            old(self).groups@[g1 as int].id == old(self).group_relations@[k as int].first_group_id,
            old(self).groups@[g2 as int].id == old(self).group_relations@[k as int].second_group_id,
        ensures
            final(self).core_ok(),
            g1 != g2,
            final(self).group_relations@ == old(self).group_relations@.remove(k as int),
            final(self).groups@ == old(self).groups@.update(g1 as int, Group {
                reference_count: (old(self).groups@[g1 as int].reference_count - 1) as i32,
                ..old(self).groups@[g1 as int]
            }).update(g2 as int, Group {
                reference_count: (old(self).groups@[g2 as int].reference_count - 1) as i32,
                ..old(self).groups@[g2 as int]
            }),
            final(self).files@ == old(self).files@,
            final(self).tags@ == old(self).tags@,
            final(self).file_groups@ == old(self).file_groups@,
            final(self).group_tags@ == old(self).group_tags@,
            final(self).next_file_id == old(self).next_file_id,
            final(self).next_group_id == old(self).next_group_id,
            final(self).next_tag_id == old(self).next_tag_id,
    {
        let ghost o = *self;
        let ghost orl = o.group_relations@;
        let ghost a = o.groups@[g1 as int].id;
        let ghost b = o.groups@[g2 as int].id;
        proof {
            assert(orl[k as int].first_group_id != orl[k as int].second_group_id);
            crate::counts::lemma_rel_count_first_pos(orl, k as int, a);
            crate::counts::lemma_rel_count_second_pos(orl, k as int, b);
        }
        self.groups[g1].reference_count = self.groups[g1].reference_count - 1;
        self.groups[g2].reference_count = self.groups[g2].reference_count - 1;
        self.group_relations.remove(k);
        proof {
            let n = *self;
            let nrl = n.group_relations@;
            assert(files_like(o.files@, n.files@));
            assert(groups_like(o.groups@, n.groups@));
            assert(tags_like(o.tags@, n.tags@));
            lemma_ids_ok_like(o, n);
            lemma_files_like_has(o.files@, n.files@);
            lemma_groups_like_has(o.groups@, n.groups@);
            assert(n.links_ok()) by {
                assert forall|q: int| 0 <= q < nrl.len() implies has_group(n.groups@, (#[trigger] nrl[q]).first_group_id)
                    && has_group(n.groups@, nrl[q].second_group_id)
                    && nrl[q].first_group_id != nrl[q].second_group_id by {
                    if q < k {
                        assert(nrl[q] == orl[q]);
                    } else {
                        assert(nrl[q] == orl[q + 1]);
                    }
                }
            }
            assert(n.rows_unique()) by {
                assert forall|p: int, q: int|
                    0 <= p < nrl.len() && 0 <= q < nrl.len() && p != q implies (#[trigger] nrl[p]) != (#[trigger] nrl[q]) by {
                    let pp = if p < k { p } else { p + 1 };
                    let qq = if q < k { q } else { q + 1 };
                    assert(nrl[p] == orl[pp] && nrl[q] == orl[qq]);
                }
            }
            assert(n.counts_ok()) by {
                assert forall|i: int| 0 <= i < n.files@.len() implies (#[trigger] n.files@[i]).reference_count
                    == fg_count_file(n.file_groups@, n.files@[i].id) by {
                    assert(n.files@[i] == o.files@[i]);
                }
                assert forall|i: int| 0 <= i < n.groups@.len() implies (#[trigger] n.groups@[i]).reference_count
                    == group_refs(n.file_groups@, n.group_tags@, nrl, n.groups@[i].id) by {
                    lemma_rel_count_first_remove(orl, k as int, n.groups@[i].id);
                    lemma_rel_count_second_remove(orl, k as int, n.groups@[i].id);
                    if i != g1 {
                        assert(o.groups@[i].id != o.groups@[g1 as int].id);
                    }
                    if i != g2 {
                        assert(o.groups@[i].id != o.groups@[g2 as int].id);
                    }
                }
                assert forall|i: int| 0 <= i < n.tags@.len() implies (#[trigger] n.tags@[i]).reference_count
                    == gt_count_tag(n.group_tags@, n.tags@[i].id) by {
                    assert(n.tags@[i] == o.tags@[i]);
                }
            }
        }
    }
}

impl Database {
    /// Stores a new file record with the next file id and no links yet,
    /// and returns its id.
    pub fn push_file_row(&mut self, type_: String, path: String, group_id: i32, description: Option<String>) -> (id: i32)
        requires
            old(self).core_ok(),
            old(self).next_file_id < i32::MAX,
        ensures
            final(self).core_ok(),
            id == old(self).next_file_id,
            final(self).files@ == old(self).files@.push(File {
                id,
                type_,
                path,
                reference_count: 0,
                group_id,
                description,
            }),
            final(self).next_file_id == old(self).next_file_id + 1,
            final(self).groups@ == old(self).groups@,
            final(self).tags@ == old(self).tags@,
            final(self).file_groups@ == old(self).file_groups@,
            final(self).group_tags@ == old(self).group_tags@,
            final(self).group_relations@ == old(self).group_relations@,
            final(self).next_group_id == old(self).next_group_id,
            final(self).next_tag_id == old(self).next_tag_id,
    {
        let ghost o = *self;
        let id = self.next_file_id;
        let f = File { id, type_, path, reference_count: 0, group_id, description };
        self.files.push(f);
        self.next_file_id = id + 1;
        proof {
            let n = *self;
            let ofs = o.files@;
            let nfs = n.files@;
            assert forall|x: i32| has_file(ofs, x) implies has_file(nfs, x) && x < id by {
                let j = choose|j: int| 0 <= j < ofs.len() && (#[trigger] ofs[j]).id == x;
                assert(nfs[j] == ofs[j]);
            }
            assert(n.ids_ok()) by {
                assert forall|i: int, j: int|
                    0 <= i < nfs.len() && 0 <= j < nfs.len() && i != j implies (#[trigger] nfs[i]).id != (#[trigger] nfs[j]).id by {
                    if i < ofs.len() && j < ofs.len() {
                        assert(nfs[i] == ofs[i] && nfs[j] == ofs[j]);
                    } else if i < ofs.len() {
                        assert(nfs[i] == ofs[i]);
                    } else if j < ofs.len() {
                        assert(nfs[j] == ofs[j]);
                    }
                }
            }
            assert forall|k: int| 0 <= k < n.file_groups@.len() implies (#[trigger] n.file_groups@[k]).file_id != id by {
                assert(has_file(ofs, n.file_groups@[k].file_id));
            }
            crate::counts::lemma_fg_count_file_zero(n.file_groups@, id);
            assert(n.counts_ok()) by {
                assert forall|i: int| 0 <= i < nfs.len() implies (#[trigger] nfs[i]).reference_count
                    == fg_count_file(n.file_groups@, nfs[i].id) by {
                    if i < ofs.len() {
                        assert(nfs[i] == ofs[i]);
                    }
                }
            }
        }
        id
    }

    /// Sets whether the group at position `gi` is a primary group.
    #[verifier::rlimit(40)]
    pub fn set_primary(&mut self, gi: usize, flag: bool)
        requires
            old(self).core_ok(),
            gi < old(self).groups@.len(),
        ensures
            final(self).core_ok(),
            final(self).groups@ == old(self).groups@.update(gi as int, Group {
                is_primary: flag,
                ..old(self).groups@[gi as int]
            }),
            final(self).files@ == old(self).files@,
            final(self).tags@ == old(self).tags@,
            final(self).file_groups@ == old(self).file_groups@,
            final(self).group_tags@ == old(self).group_tags@,
            final(self).group_relations@ == old(self).group_relations@,
            final(self).next_file_id == old(self).next_file_id,
            final(self).next_group_id == old(self).next_group_id,
            final(self).next_tag_id == old(self).next_tag_id,
    {
        let ghost o = *self;
        self.groups[gi].is_primary = flag;
        proof {
            let n = *self;
            let ogs = o.groups@;
            let ngs = n.groups@;
            assert forall|i: int| 0 <= i < ngs.len() implies (#[trigger] ngs[i]).id == ogs[i].id
                && ngs[i].reference_count == ogs[i].reference_count by {}
            assert forall|x: i32| has_group(ogs, x) <==> has_group(ngs, x) by {
                if has_group(ogs, x) {
                    let j = choose|j: int| 0 <= j < ogs.len() && (#[trigger] ogs[j]).id == x;
                    assert(ngs[j].id == x);
                }
                if has_group(ngs, x) {
                    let j = choose|j: int| 0 <= j < ngs.len() && (#[trigger] ngs[j]).id == x;
                    assert(ogs[j].id == x);
                }
            }
            assert(n.ids_ok()) by {
                assert forall|i: int, j: int|
                    0 <= i < ngs.len() && 0 <= j < ngs.len() && i != j implies (#[trigger] ngs[i]).id != (#[trigger] ngs[j]).id by {
                    assert(ogs[i].id != ogs[j].id);
                }
            }
        }
    }
}

/// The two catalogues have the same links, identifiers, reference counts,
/// owners and primary flags; other fields of records may differ.
pub open spec fn same_shape(o: Database, n: Database) -> bool {
    &&& n.files@.len() == o.files@.len()
    &&& forall|i: int| 0 <= i < n.files@.len() ==> (#[trigger] n.files@[i]).id == o.files@[i].id
        && n.files@[i].reference_count == o.files@[i].reference_count && n.files@[i].group_id
        == o.files@[i].group_id
    &&& n.groups@.len() == o.groups@.len()
    &&& forall|i: int| 0 <= i < n.groups@.len() ==> (#[trigger] n.groups@[i]).id == o.groups@[i].id
        && n.groups@[i].reference_count == o.groups@[i].reference_count && n.groups@[i].is_primary
        == o.groups@[i].is_primary
    &&& n.tags@.len() == o.tags@.len()
    &&& forall|i: int| 0 <= i < n.tags@.len() ==> (#[trigger] n.tags@[i]).id == o.tags@[i].id
        && n.tags@[i].reference_count == o.tags@[i].reference_count
    &&& n.file_groups@ == o.file_groups@
    &&& n.group_tags@ == o.group_tags@
    &&& n.group_relations@ == o.group_relations@
    &&& n.next_file_id == o.next_file_id
    &&& n.next_group_id == o.next_group_id
    &&& n.next_tag_id == o.next_tag_id
}

/// The invariant reads only what `same_shape` keeps, and the names.
pub proof fn lemma_wf_same_shape(o: Database, n: Database)
    requires
        o.wf(),
        same_shape(o, n),
        n.names_ok(),
    ensures
        n.wf(),
{
    let (of, nf) = (o.files@, n.files@);
    let (og, ng) = (o.groups@, n.groups@);
    let (ot, nt) = (o.tags@, n.tags@);
    assert forall|x: i32| has_file(of, x) <==> has_file(nf, x) by {
        if has_file(of, x) {
            let j = choose|j: int| 0 <= j < of.len() && (#[trigger] of[j]).id == x;
            assert(nf[j].id == x);
        }
        if has_file(nf, x) {
            let j = choose|j: int| 0 <= j < nf.len() && (#[trigger] nf[j]).id == x;
            assert(of[j].id == x);
        }
    }
    assert forall|x: i32| has_group(og, x) <==> has_group(ng, x) by {
        if has_group(og, x) {
            let j = choose|j: int| 0 <= j < og.len() && (#[trigger] og[j]).id == x;
            assert(ng[j].id == x);
        }
        if has_group(ng, x) {
            let j = choose|j: int| 0 <= j < ng.len() && (#[trigger] ng[j]).id == x;
            assert(og[j].id == x);
        }
    }
    assert forall|x: i32| is_primary_group(og, x) <==> is_primary_group(ng, x) by {
        if is_primary_group(og, x) {
            let j = choose|j: int| 0 <= j < og.len() && (#[trigger] og[j]).id == x && og[j].is_primary;
            assert(ng[j].id == x);
        }
        if is_primary_group(ng, x) {
            let j = choose|j: int| 0 <= j < ng.len() && (#[trigger] ng[j]).id == x && ng[j].is_primary;
            assert(og[j].id == x);
        }
    }
    assert forall|x: i32| has_tag(ot, x) <==> has_tag(nt, x) by {
        if has_tag(ot, x) {
            let j = choose|j: int| 0 <= j < ot.len() && (#[trigger] ot[j]).id == x;
            assert(nt[j].id == x);
        }
        if has_tag(nt, x) {
            let j = choose|j: int| 0 <= j < nt.len() && (#[trigger] nt[j]).id == x;
            assert(ot[j].id == x);
        }
    }
    assert forall|a: i32, b: i32| owns(of, a, b) <==> owns(nf, a, b) by {
        if owns(of, a, b) {
            let j = choose|j: int| 0 <= j < of.len() && (#[trigger] of[j]).id == a && of[j].group_id == b;
            assert(nf[j].id == a);
        }
        if owns(nf, a, b) {
            let j = choose|j: int| 0 <= j < nf.len() && (#[trigger] nf[j]).id == a && nf[j].group_id == b;
            assert(of[j].id == a);
        }
    }
    assert(n.ids_ok()) by {
        assert forall|i: int, j: int| 0 <= i < nf.len() && 0 <= j < nf.len() && i != j implies (#[trigger] nf[i]).id
            != (#[trigger] nf[j]).id by {
            assert(of[i].id != of[j].id);
        }
        assert forall|i: int, j: int| 0 <= i < ng.len() && 0 <= j < ng.len() && i != j implies (#[trigger] ng[i]).id
            != (#[trigger] ng[j]).id by {
            assert(og[i].id != og[j].id);
        }
        assert forall|i: int, j: int| 0 <= i < nt.len() && 0 <= j < nt.len() && i != j implies (#[trigger] nt[i]).id
            != (#[trigger] nt[j]).id by {
            assert(ot[i].id != ot[j].id);
        }
    }
    assert(n.primary_ok()) by {
        assert forall|i: int, j: int| 0 <= i < nf.len() && 0 <= j < nf.len() && i != j implies (#[trigger] nf[i]).group_id
            != (#[trigger] nf[j]).group_id by {
            assert(of[i].group_id != of[j].group_id);
        }
        assert forall|k: int, j: int|
            0 <= k < n.file_groups@.len() && 0 <= j < ng.len() && (#[trigger] ng[j]).id == (
            #[trigger] n.file_groups@[k]).group_id && ng[j].is_primary implies owns(
            nf,
            n.file_groups@[k].file_id,
            n.file_groups@[k].group_id,
        ) by {
            assert(og[j].id == o.file_groups@[k].group_id);
        }
    }
}

/// Files and groups that change only in their reference counts keep every
/// primary group owned.
pub proof fn lemma_owners_like(o: Database, n: Database)
    requires
        o.primary_ok(),
        files_like(o.files@, n.files@),
        groups_like(o.groups@, n.groups@),
    ensures
        forall|j: int|
            0 <= j < n.groups@.len() && (#[trigger] n.groups@[j]).is_primary ==> has_owner(n.files@, n.groups@[j].id),
{
    assert forall|j: int| 0 <= j < n.groups@.len() && (#[trigger] n.groups@[j]).is_primary implies has_owner(
        n.files@,
        n.groups@[j].id,
    ) by {
        assert(same_group(o.groups@[j], n.groups@[j]));
        assert(o.groups@[j].is_primary);
        let w = choose|w: int| 0 <= w < o.files@.len() && (#[trigger] o.files@[w]).group_id == o.groups@[j].id;
        assert(same_file(o.files@[w], n.files@[w]));
    }
}

/// The primary-group part of the invariant when the file/group links are
/// unchanged and records change only in their reference counts.
pub proof fn lemma_primary_same_links(o: Database, n: Database)
    requires
        o.primary_ok(),
        files_like(o.files@, n.files@),
        groups_like(o.groups@, n.groups@),
        n.file_groups@ == o.file_groups@,
    ensures
        n.primary_ok(),
{
    lemma_primary_groups_like(o.groups@, n.groups@);
    lemma_owns_like(o.files@, n.files@);
    lemma_owners_like(o, n);
    assert forall|i: int| 0 <= i < n.files@.len() implies has_fg_link(
        n.file_groups@,
        (#[trigger] n.files@[i]).id,
        n.files@[i].group_id,
    ) && is_primary_group(n.groups@, n.files@[i].group_id) by {
        assert(same_file(o.files@[i], n.files@[i]));
    }
    assert forall|i: int, j: int|
        0 <= i < n.files@.len() && 0 <= j < n.files@.len() && i != j implies (
        #[trigger] n.files@[i]).group_id != (#[trigger] n.files@[j]).group_id by {
        assert(same_file(o.files@[i], n.files@[i]));
        assert(same_file(o.files@[j], n.files@[j]));
    }
    assert forall|k: int, j: int|
        0 <= k < n.file_groups@.len() && 0 <= j < n.groups@.len() && (#[trigger] n.groups@[j]).id == (
        #[trigger] n.file_groups@[k]).group_id && n.groups@[j].is_primary implies owns(
        n.files@,
        n.file_groups@[k].file_id,
        n.file_groups@[k].group_id,
    ) by {
        assert(same_group(o.groups@[j], n.groups@[j]));
    }
}

pub proof fn lemma_primary_groups_like(a: Seq<Group>, b: Seq<Group>)
    requires
        groups_like(a, b),
    ensures
        forall|id: i32| is_primary_group(a, id) <==> is_primary_group(b, id),
{
    assert forall|id: i32| is_primary_group(a, id) implies is_primary_group(b, id) by {
        let i = choose|i: int| 0 <= i < a.len() && (#[trigger] a[i]).id == id && a[i].is_primary;
        assert(same_group(a[i], b[i]));
    }
    assert forall|id: i32| is_primary_group(b, id) implies is_primary_group(a, id) by {
        let i = choose|i: int| 0 <= i < b.len() && (#[trigger] b[i]).id == id && b[i].is_primary;
        assert(same_group(a[i], b[i]));
    }
}

pub proof fn lemma_owns_like(a: Seq<File>, b: Seq<File>)
    requires
        files_like(a, b),
    ensures
        forall|fid: i32, gid: i32| owns(a, fid, gid) <==> owns(b, fid, gid),
{
    assert forall|fid: i32, gid: i32| owns(a, fid, gid) implies owns(b, fid, gid) by {
        let i = choose|i: int| 0 <= i < a.len() && (#[trigger] a[i]).id == fid && a[i].group_id == gid;
        assert(same_file(a[i], b[i]));
    }
    assert forall|fid: i32, gid: i32| owns(b, fid, gid) implies owns(a, fid, gid) by {
        let i = choose|i: int| 0 <= i < b.len() && (#[trigger] b[i]).id == fid && b[i].group_id == gid;
        assert(same_file(a[i], b[i]));
    }
}

/// Adding a link to a non-primary group keeps the primary-group part of
/// the invariant.
pub proof fn lemma_primary_push_link(o: Database, n: Database, r: FileGroupDTO)
    requires
        o.primary_ok(),
        files_like(o.files@, n.files@),
        groups_like(o.groups@, n.groups@),
        n.file_groups@ == o.file_groups@.push(r),
        !is_primary_group(o.groups@, r.group_id),
    ensures
        n.primary_ok(),
{
    let ofg = o.file_groups@;
    let nfg = n.file_groups@;
    lemma_primary_groups_like(o.groups@, n.groups@);
    lemma_owns_like(o.files@, n.files@);
    lemma_owners_like(o, n);
    assert forall|fid: i32, gid: i32| has_fg_link(ofg, fid, gid) implies has_fg_link(nfg, fid, gid) by {
        let k = choose|k: int| 0 <= k < ofg.len() && (#[trigger] ofg[k]).file_id == fid && ofg[k].group_id == gid;
        assert(nfg[k] == ofg[k]);
    }
    assert forall|i: int| 0 <= i < n.files@.len() implies has_fg_link(
        nfg,
        (#[trigger] n.files@[i]).id,
        n.files@[i].group_id,
    ) && is_primary_group(n.groups@, n.files@[i].group_id) by {
        assert(same_file(o.files@[i], n.files@[i]));
    }
    assert forall|i: int, j: int|
        0 <= i < n.files@.len() && 0 <= j < n.files@.len() && i != j implies (
        #[trigger] n.files@[i]).group_id != (#[trigger] n.files@[j]).group_id by {
        assert(same_file(o.files@[i], n.files@[i]));
        assert(same_file(o.files@[j], n.files@[j]));
    }
    assert forall|k: int, j: int|
        0 <= k < nfg.len() && 0 <= j < n.groups@.len() && (#[trigger] n.groups@[j]).id == (
        #[trigger] nfg[k]).group_id && n.groups@[j].is_primary implies owns(
        n.files@,
        nfg[k].file_id,
        nfg[k].group_id,
    ) by {
        assert(same_group(o.groups@[j], n.groups@[j]));
        if k < ofg.len() {
            assert(nfg[k] == ofg[k]);
        } else {
            assert(is_primary_group(o.groups@, r.group_id));
        }
    }
}

/// Removing a link to a non-primary group keeps the primary-group part of
/// the invariant.
pub proof fn lemma_primary_remove_link(o: Database, n: Database, k: int)
    requires
        o.primary_ok(),
        0 <= k < o.file_groups@.len(),
        files_like(o.files@, n.files@),
        groups_like(o.groups@, n.groups@),
        n.file_groups@ == o.file_groups@.remove(k),
        !is_primary_group(o.groups@, o.file_groups@[k].group_id),
    ensures
        n.primary_ok(),
{
    let ofg = o.file_groups@;
    let nfg = n.file_groups@;
    lemma_primary_groups_like(o.groups@, n.groups@);
    lemma_owns_like(o.files@, n.files@);
    lemma_owners_like(o, n);
    assert forall|i: int| 0 <= i < n.files@.len() implies has_fg_link(
        nfg,
        (#[trigger] n.files@[i]).id,
        n.files@[i].group_id,
    ) && is_primary_group(n.groups@, n.files@[i].group_id) by {
        assert(same_file(o.files@[i], n.files@[i]));
        let f = o.files@[i];
        assert(has_fg_link(ofg, f.id, f.group_id));
        let q = choose|q: int| 0 <= q < ofg.len() && (#[trigger] ofg[q]).file_id == f.id && ofg[q].group_id == f.group_id;
        assert(q != k);
        if q < k {
            assert(nfg[q] == ofg[q]);
        } else {
            assert(nfg[q - 1] == ofg[q]);
        }
    }
    assert forall|i: int, j: int|
        0 <= i < n.files@.len() && 0 <= j < n.files@.len() && i != j implies (
        #[trigger] n.files@[i]).group_id != (#[trigger] n.files@[j]).group_id by {
        assert(same_file(o.files@[i], n.files@[i]));
        assert(same_file(o.files@[j], n.files@[j]));
    }
    assert forall|q: int, j: int|
        0 <= q < nfg.len() && 0 <= j < n.groups@.len() && (#[trigger] n.groups@[j]).id == (
        #[trigger] nfg[q]).group_id && n.groups@[j].is_primary implies owns(
        n.files@,
        nfg[q].file_id,
        nfg[q].group_id,
    ) by {
        assert(same_group(o.groups@[j], n.groups@[j]));
        if q < k {
            assert(nfg[q] == ofg[q]);
        } else {
            assert(nfg[q] == ofg[q + 1]);
        }
    }
}

} // verus!

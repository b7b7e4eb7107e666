//! Properties of the catalogue that relate several operations: undoing a
//! link gives back the catalogue, a read gives back what a write stored, a
//! deleted record can no longer be found. Each is stated over what the
//! operations' contracts say of their results.
use vstd::prelude::*;
use crate::cascade::purged;
use crate::models::{
    CreateFileDTO, CreateTagDTO, File, FileGroupDTO, GroupRelation, GroupTagDTO, UpdateFileDTO, UpdateGroupDTO,
    UpdateTagDTO,
};
use crate::rows::{records_like, same_file, same_group, same_tag};
use crate::service::file_group::{fg_links_removed, names_fg_link};
use crate::service::files::{file_update_done, file_updated};
use crate::service::groups::group_updated;
use crate::service::tags::{tag_created, tag_updated};
use crate::store::{file_of, group_of, has_fg_link, has_file, has_group, has_tag, is_primary_group, owns, same_catalogue, tag_of, Database};
use crate::counts::lemma_fg_count_file_same_rows;

verus! {

/// With the same links, records that differ at most in their reference
/// counts are the same records, since the counts follow from the links.
proof fn lemma_counts_fix_records(o: Database, n: Database)
    requires
        o.core_ok(),
        n.core_ok(),
        records_like(o, n),
        n.file_groups@ == o.file_groups@,
        n.group_tags@ == o.group_tags@,
        n.group_relations@ == o.group_relations@,
    ensures
        same_catalogue(o, n),
{
    assert forall|i: int| 0 <= i < o.files@.len() implies #[trigger] o.files@[i] == n.files@[i] by {
        assert(same_file(o.files@[i], n.files@[i]));
    }
    assert forall|i: int| 0 <= i < o.groups@.len() implies #[trigger] o.groups@[i] == n.groups@[i] by {
        assert(same_group(o.groups@[i], n.groups@[i]));
    }
    assert forall|i: int| 0 <= i < o.tags@.len() implies #[trigger] o.tags@[i] == n.tags@[i] by {
        assert(same_tag(o.tags@[i], n.tags@[i]));
    }
    assert(o.files@ =~= n.files@);
    assert(o.groups@ =~= n.groups@);
    assert(o.tags@ =~= n.tags@);
}

/// The only position of a row stored exactly once, at the end, is the end.
proof fn lemma_unique_last<A>(s: Seq<A>, k: int)
    requires
        s.len() > 0,
        0 <= k < s.len(),
        s[k] == s.last(),
        forall|p: int, q: int| 0 <= p < s.len() && 0 <= q < s.len() && p != q ==> s[p] != s[q],
    ensures
        s.remove(k) == s.drop_last(),
{
    assert(k == s.len() - 1);
    assert(s.remove(k) =~= s.drop_last());
}

/// Linking a file to a group and then unlinking it gives back the catalogue
/// as it was: the link is gone and both reference counts are back.
pub proof fn law_file_group_link_then_unlink(o: Database, m: Database, n: Database, dto: FileGroupDTO)
    requires
        o.wf(),
        m.wf(),
        n.wf(),
        m.file_groups@ == o.file_groups@.push(dto),
        m.group_tags@ == o.group_tags@,
        m.group_relations@ == o.group_relations@,
        records_like(o, m),
        exists|k: int|
            0 <= k < m.file_groups@.len() && (#[trigger] m.file_groups@[k]).file_id == dto.file_id
                && m.file_groups@[k].group_id == dto.group_id && n.file_groups@ == m.file_groups@.remove(k),
        n.group_tags@ == m.group_tags@,
        n.group_relations@ == m.group_relations@,
        records_like(m, n),
    ensures
        same_catalogue(o, n),
{
    let k = choose|k: int|
        0 <= k < m.file_groups@.len() && (#[trigger] m.file_groups@[k]).file_id == dto.file_id
            && m.file_groups@[k].group_id == dto.group_id && n.file_groups@ == m.file_groups@.remove(k);
    let last = m.file_groups@.len() - 1;
    if k != last {
        assert(m.file_groups@[last] == dto);
        assert(!(m.file_groups@[k].file_id == m.file_groups@[last].file_id && m.file_groups@[k].group_id
            == m.file_groups@[last].group_id));
    }
    assert(n.file_groups@ =~= o.file_groups@);
    crate::cascade::lemma_records_like_trans(o, m, n);
    lemma_counts_fix_records(o, n);
}

/// Tagging a group and then removing the tag gives back the catalogue as
/// it was.
pub proof fn law_group_tag_link_then_unlink(o: Database, m: Database, n: Database, dto: GroupTagDTO)
    requires
        o.wf(),
        m.wf(),
        n.wf(),
        m.group_tags@ == o.group_tags@.push(dto),
        m.file_groups@ == o.file_groups@,
        m.group_relations@ == o.group_relations@,
        records_like(o, m),
        exists|k: int|
            0 <= k < m.group_tags@.len() && #[trigger] m.group_tags@[k] == dto && n.group_tags@
                == m.group_tags@.remove(k),
        n.file_groups@ == m.file_groups@,
        n.group_relations@ == m.group_relations@,
        records_like(m, n),
    ensures
        same_catalogue(o, n),
{
    let k = choose|k: int|
        0 <= k < m.group_tags@.len() && #[trigger] m.group_tags@[k] == dto && n.group_tags@ == m.group_tags@.remove(k);
    let last = m.group_tags@.len() - 1;
    if k != last {
        assert(m.group_tags@[last] == dto);
        assert(!(m.group_tags@[k].group_id == m.group_tags@[last].group_id && m.group_tags@[k].tag_id
            == m.group_tags@[last].tag_id));
    }
    assert(n.group_tags@ =~= o.group_tags@);
    crate::cascade::lemma_records_like_trans(o, m, n);
    lemma_counts_fix_records(o, n);
}

/// Relating two groups and then removing the relation gives back the
/// catalogue as it was.
pub proof fn law_group_relation_create_then_delete(o: Database, m: Database, n: Database, rel: GroupRelation)
    requires
        o.wf(),
        m.wf(),
        n.wf(),
        m.group_relations@ == o.group_relations@.push(rel),
        m.file_groups@ == o.file_groups@,
        m.group_tags@ == o.group_tags@,
        records_like(o, m),
        exists|k: int|
            0 <= k < m.group_relations@.len() && m.group_relations@[k] == rel && n.group_relations@
                == m.group_relations@.remove(k),
        n.file_groups@ == m.file_groups@,
        n.group_tags@ == m.group_tags@,
        records_like(m, n),
    ensures
        same_catalogue(o, n),
{
    let k = choose|k: int|
        0 <= k < m.group_relations@.len() && m.group_relations@[k] == rel && n.group_relations@
            == m.group_relations@.remove(k);
    lemma_unique_last(m.group_relations@, k);
    assert(n.group_relations@ =~= o.group_relations@);
    crate::cascade::lemma_records_like_trans(o, m, n);
    lemma_counts_fix_records(o, n);
}

/// A file that `create_file` stored is found under the id it returned,
/// with the fields it was given and one reference, to its primary group.
pub proof fn law_created_file_is_found(o: Database, n: Database, dto: CreateFileDTO, id: i32)
    requires
        n.wf(),
        n.files@ == o.files@.push(File {
            id,
            type_: dto.type_,
            path: dto.path,
            reference_count: 1,
            group_id: dto.group_id,
            description: dto.description,
        }),
    ensures
        has_file(n.files@, id),
        file_of(n.files@, id) == (File {
            id,
            type_: dto.type_,
            path: dto.path,
            reference_count: 1,
            group_id: dto.group_id,
            description: dto.description,
        }),
        group_of(n.groups@, dto.group_id).is_primary,
{
    let last = n.files@.len() - 1;
    n.lemma_file_at(last);
    assert(crate::store::is_primary_group(n.groups@, dto.group_id));
    let j = choose|j: int| 0 <= j < n.groups@.len() && (#[trigger] n.groups@[j]).id == dto.group_id && n.groups@[j].is_primary;
    n.lemma_group_at(j);
}

/// A group that `create_group_at` stored is found under the id it
/// returned, with the name it was given, no references and not primary.
pub proof fn law_created_group_is_found(o: Database, n: Database, name: Seq<char>, now: i64, id: i32)
    requires
        n.wf(),
        n.groups@.len() == o.groups@.len() + 1,
        n.groups@.drop_last() == o.groups@,
        n.groups@.last().id == id,
        n.groups@.last().name@ == name,
        n.groups@.last().reference_count == 0,
        !n.groups@.last().is_primary,
        n.groups@.last().create_time == now,
    ensures
        has_group(n.groups@, id),
        group_of(n.groups@, id).name@ == name,
        group_of(n.groups@, id).reference_count == 0,
        !group_of(n.groups@, id).is_primary,
        group_of(n.groups@, id).create_time == now,
{
    n.lemma_group_at(n.groups@.len() - 1);
}

/// After `delete_file`, neither the file nor its primary group can be
/// found any more, and no link names either of them.
pub proof fn law_deleted_file_is_gone(o: Database, n: Database, fid: i32)
    requires
        o.wf(),
        has_file(o.files@, fid),
        purged(o, n, Some(fid), file_of(o.files@, fid).group_id),
    ensures
        !has_file(n.files@, fid),
        !has_group(n.groups@, file_of(o.files@, fid).group_id),
        forall|x: FileGroupDTO| #[trigger] n.file_groups@.contains(x) ==> x.file_id != fid && x.group_id
            != file_of(o.files@, fid).group_id,
        forall|x: GroupTagDTO| #[trigger] n.group_tags@.contains(x) ==> x.group_id != file_of(o.files@, fid).group_id,
{
    let gid = file_of(o.files@, fid).group_id;
    let fi = choose|fi: int|
        0 <= fi < o.files@.len() && (#[trigger] o.files@[fi]).id == fid && crate::rows::files_like(o.files@.remove(fi), n.files@);
    let gi = choose|gi: int|
        0 <= gi < o.groups@.len() && (#[trigger] o.groups@[gi]).id == gid && crate::rows::groups_like(o.groups@.remove(gi), n.groups@);
    if has_file(n.files@, fid) {
        let j = choose|j: int| 0 <= j < n.files@.len() && (#[trigger] n.files@[j]).id == fid;
        let jj = if j < fi { j } else { j + 1 };
        assert(same_file(o.files@.remove(fi)[j], n.files@[j]));
        assert(o.files@[jj].id != o.files@[fi].id);
    }
    if has_group(n.groups@, gid) {
        let j = choose|j: int| 0 <= j < n.groups@.len() && (#[trigger] n.groups@[j]).id == gid;
        let jj = if j < gi { j } else { j + 1 };
        assert(same_group(o.groups@.remove(gi)[j], n.groups@[j]));
        assert(o.groups@[jj].id != o.groups@[gi].id);
    }
}

/// Deleting a file removes that file's row and no other: every other file
/// row, its reference count included, stays as it was, in the same order.
pub proof fn law_delete_file_keeps_other_files(o: Database, n: Database, fid: i32)
    requires
        o.wf(),
        n.wf(),
        has_file(o.files@, fid),
        purged(o, n, Some(fid), file_of(o.files@, fid).group_id),
    ensures
        exists|fi: int| 0 <= fi < o.files@.len() && (#[trigger] o.files@[fi]).id == fid && n.files@ == o.files@.remove(fi),
{
    let gid = file_of(o.files@, fid).group_id;
    let fi = choose|fi: int|
        0 <= fi < o.files@.len() && (#[trigger] o.files@[fi]).id == fid && crate::rows::files_like(o.files@.remove(fi), n.files@);
    let ci = choose|i: int| 0 <= i < o.files@.len() && (#[trigger] o.files@[i]).id == fid;
    assert(ci == fi) by {
        if ci != fi {
            assert(o.files@[ci].id != o.files@[fi].id);
        }
    }
    assert(o.files@[fi].group_id == gid);
    assert(is_primary_group(o.groups@, gid)) by {
        assert(has_fg_link(o.file_groups@, o.files@[fi].id, o.files@[fi].group_id));
    }
    let gj = choose|j: int| 0 <= j < o.groups@.len() && (#[trigger] o.groups@[j]).id == gid && o.groups@[j].is_primary;
    let ofg = o.file_groups@;
    let nfg = n.file_groups@;
    assert(ofg.no_duplicates()) by {
        assert forall|k: int, l: int| 0 <= k < ofg.len() && 0 <= l < ofg.len() && k != l implies ofg[k] != ofg[l] by {
            assert(!(ofg[k].file_id == ofg[l].file_id && ofg[k].group_id == ofg[l].group_id));
        }
    }
    assert(nfg.no_duplicates()) by {
        assert forall|k: int, l: int| 0 <= k < nfg.len() && 0 <= l < nfg.len() && k != l implies nfg[k] != nfg[l] by {
            assert(!(nfg[k].file_id == nfg[l].file_id && nfg[k].group_id == nfg[l].group_id));
        }
    }
    let kept = o.files@.remove(fi);
    assert forall|j: int| 0 <= j < n.files@.len() implies #[trigger] n.files@[j] == kept[j] by {
        assert(same_file(kept[j], n.files@[j]));
        let jj = if j < fi { j } else { j + 1 };
        assert(kept[j] == o.files@[jj]);
        let id2 = kept[j].id;
        assert(o.files@[jj].id != o.files@[fi].id);
        assert forall|x: FileGroupDTO| x.file_id == id2 implies (#[trigger] ofg.contains(x) <==> nfg.contains(x)) by {
            if ofg.contains(x) && x.group_id == gid {
                let k = choose|k: int| 0 <= k < ofg.len() && ofg[k] == x;
                assert(o.groups@[gj].id == ofg[k].group_id);
                assert(owns(o.files@, ofg[k].file_id, ofg[k].group_id));
                let w = choose|w: int| 0 <= w < o.files@.len() && (#[trigger] o.files@[w]).id == id2 && o.files@[w].group_id == gid;
                assert(w != fi);
                assert(o.files@[w].group_id != o.files@[fi].group_id);
            }
        }
        lemma_fg_count_file_same_rows(ofg, nfg, id2);
    }
    assert(n.files@ =~= kept);
}

/// After `update_group_by_id` changed group `gid`, reading the group gives
/// it back with the fields the update set and the others unchanged.
pub proof fn law_updated_group_is_read_back(o: Database, n: Database, gid: i32, dto: UpdateGroupDTO)
    requires
        o.wf(),
        n.wf(),
        exists|gi: int|
            0 <= gi < o.groups@.len() && (#[trigger] o.groups@[gi]).id == gid && n.groups@ == o.groups@.update(
                gi,
                group_updated(o.groups@[gi], dto),
            ),
    ensures
        has_group(n.groups@, gid),
        group_of(n.groups@, gid) == group_updated(group_of(o.groups@, gid), dto),
{
    let gi = choose|gi: int|
        0 <= gi < o.groups@.len() && (#[trigger] o.groups@[gi]).id == gid && n.groups@ == o.groups@.update(
            gi,
            group_updated(o.groups@[gi], dto),
        );
    o.lemma_group_at(gi);
    n.lemma_group_at(gi);
}

/// After `delete_file_groups_by_dtos` removed links, no link that one of
/// the dtos names is left, every link left was there before, and every link
/// that none of them names is still there.
pub proof fn law_unlinked_links_are_gone(o: Database, n: Database, dtos: Seq<FileGroupDTO>, count: int)
    requires
        fg_links_removed(o, n, dtos, count),
    ensures
        forall|x: FileGroupDTO| #[trigger] n.file_groups@.contains(x) ==> !names_fg_link(dtos, x) && o.file_groups@.contains(x),
        forall|x: FileGroupDTO| #[trigger] o.file_groups@.contains(x) && !names_fg_link(dtos, x) ==> n.file_groups@.contains(x),
{
    let p = |l: FileGroupDTO| !names_fg_link(dtos, l);
    let (os, ns) = (o.file_groups@, n.file_groups@);
    assert(ns == os.filter(p));
    assert forall|x: FileGroupDTO| #[trigger] ns.contains(x) implies !names_fg_link(dtos, x) && os.contains(x) by {
        os.lemma_filter_contains_rev(p, x);
        let i = choose|i: int| 0 <= i < ns.len() && ns[i] == x;
        os.lemma_filter_pred(p, i);
    }
    assert forall|x: FileGroupDTO| #[trigger] os.contains(x) && !names_fg_link(dtos, x) implies ns.contains(x) by {
        let i = choose|i: int| 0 <= i < os.len() && os[i] == x;
        os.lemma_filter_contains(p, i);
    }
}

/// After `update_tag_by_id` changed tag `tid`, reading the tag gives it
/// back with the fields the update set and the others unchanged.
pub proof fn law_updated_tag_is_read_back(o: Database, n: Database, tid: i32, dto: UpdateTagDTO)
    requires
        o.wf(),
        n.wf(),
        exists|ti: int|
            0 <= ti < o.tags@.len() && (#[trigger] o.tags@[ti]).id == tid && n.tags@ == o.tags@.update(
                ti,
                tag_updated(o.tags@[ti], dto),
            ),
    ensures
        has_tag(n.tags@, tid),
        tag_of(n.tags@, tid) == tag_updated(tag_of(o.tags@, tid), dto),
{
    let ti = choose|ti: int|
        0 <= ti < o.tags@.len() && (#[trigger] o.tags@[ti]).id == tid && n.tags@ == o.tags@.update(
            ti,
            tag_updated(o.tags@[ti], dto),
        );
    o.lemma_tag_at(ti);
    n.lemma_tag_at(ti);
}

/// After `update_file_by_id` changed file `fid`, reading the file gives it
/// back with the fields the update set and the others unchanged.
pub proof fn law_updated_file_is_read_back(o: Database, n: Database, fid: i32, dto: UpdateFileDTO)
    requires
        o.wf(),
        n.wf(),
        file_update_done(o, n, fid, dto),
    ensures
        has_file(n.files@, fid),
        file_of(n.files@, fid) == file_updated(file_of(o.files@, fid), dto),
{
    let fi = choose|fi: int|
        0 <= fi < o.files@.len() && (#[trigger] o.files@[fi]).id == fid && n.files@ == o.files@.update(
            fi,
            file_updated(o.files@[fi], dto),
        );
    o.lemma_file_at(fi);
    n.lemma_file_at(fi);
}

/// A tag that `create_tag` stored is found under the id it returned, with
/// the name it was given and no references.
pub proof fn law_created_tag_is_found(o: Database, n: Database, dto: CreateTagDTO, id: i32)
    requires
        n.wf(),
        tag_created(o, n, dto, id),
    ensures
        has_tag(n.tags@, id),
        tag_of(n.tags@, id).name@ == dto.name@,
        tag_of(n.tags@, id).reference_count == 0,
{
    n.lemma_tag_at(n.tags@.len() - 1);
}

} // verus!

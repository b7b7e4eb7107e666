//! Checking tables read from storage: a catalogue is built from stored
//! rows only when they satisfy the invariant, so every operation can rely
//! on it.
use vstd::prelude::*;
use crate::counts::{fg_count_file, fg_count_group, gt_count_group, gt_count_tag, rel_count_first, rel_count_second};
use crate::models::{File, FileGroupDTO, Group, GroupRelation, GroupTagDTO, Tag};
use crate::store::{
    group_names_unique, group_refs, has_fg_link, has_file, has_group, has_owner, has_tag, is_primary_group, owns,
    Database,
};
use crate::text::str_eq;

verus! {

fn count_links_of_file(s: &Vec<FileGroupDTO>, id: i32) -> (r: usize)
    ensures
        r == fg_count_file(s@, id),
{
    let mut c: usize = 0;
    let mut k: usize = 0;
    while k < s.len()
        invariant
            k <= s@.len(),
            c == fg_count_file(s@.take(k as int), id),
            c <= k,
        decreases s@.len() - k,
    {
        proof {
            assert(s@.take(k + 1).drop_last() =~= s@.take(k as int));
        }
        if s[k].file_id == id {
            c = c + 1;
        }
        k = k + 1;
    }
    proof {
        assert(s@.take(k as int) =~= s@);
    }
    c
}

fn count_links_to_group(s: &Vec<FileGroupDTO>, id: i32) -> (r: usize)
    ensures
        r == fg_count_group(s@, id),
{
    let mut c: usize = 0;
    let mut k: usize = 0;
    while k < s.len()
        invariant
            k <= s@.len(),
            c == fg_count_group(s@.take(k as int), id),
            c <= k,
        decreases s@.len() - k,
    {
        proof {
            assert(s@.take(k + 1).drop_last() =~= s@.take(k as int));
        }
        if s[k].group_id == id {
            c = c + 1;
        }
        k = k + 1;
    }
    proof {
        assert(s@.take(k as int) =~= s@);
    }
    c
}

fn count_tag_links_of_group(s: &Vec<GroupTagDTO>, id: i32) -> (r: usize)
    ensures
        r == gt_count_group(s@, id),
{
    let mut c: usize = 0;
    let mut k: usize = 0;
    while k < s.len()
        invariant
            k <= s@.len(),
            c == gt_count_group(s@.take(k as int), id),
            c <= k,
        decreases s@.len() - k,
    {
        proof {
            assert(s@.take(k + 1).drop_last() =~= s@.take(k as int));
        }
        if s[k].group_id == id {
            c = c + 1;
        }
        k = k + 1;
    }
    proof {
        assert(s@.take(k as int) =~= s@);
    }
    c
}

fn count_links_to_tag(s: &Vec<GroupTagDTO>, id: i32) -> (r: usize)
    ensures
        r == gt_count_tag(s@, id),
{
    let mut c: usize = 0;
    let mut k: usize = 0;
    while k < s.len()
        invariant
            k <= s@.len(),
            c == gt_count_tag(s@.take(k as int), id),
            c <= k,
        decreases s@.len() - k,
    {
        proof {
            assert(s@.take(k + 1).drop_last() =~= s@.take(k as int));
        }
        if s[k].tag_id == id {
            c = c + 1;
        }
        k = k + 1;
    }
    proof {
        assert(s@.take(k as int) =~= s@);
    }
    c
}

fn count_relations_from(s: &Vec<GroupRelation>, id: i32) -> (r: usize)
    ensures
        r == rel_count_first(s@, id),
{
    let mut c: usize = 0;
    let mut k: usize = 0;
    while k < s.len()
        invariant
            k <= s@.len(),
            c == rel_count_first(s@.take(k as int), id),
            c <= k,
        decreases s@.len() - k,
    {
        proof {
            assert(s@.take(k + 1).drop_last() =~= s@.take(k as int));
        }
        if s[k].first_group_id == id {
            c = c + 1;
        }
        k = k + 1;
    }
    proof {
        assert(s@.take(k as int) =~= s@);
    }
    c
}

fn count_relations_to(s: &Vec<GroupRelation>, id: i32) -> (r: usize)
    ensures
        r == rel_count_second(s@, id),
{
    let mut c: usize = 0;
    let mut k: usize = 0;
    while k < s.len()
        invariant
            k <= s@.len(),
            c == rel_count_second(s@.take(k as int), id),
            c <= k,
        decreases s@.len() - k,
    {
        proof {
            assert(s@.take(k + 1).drop_last() =~= s@.take(k as int));
        }
        if s[k].second_group_id == id {
            c = c + 1;
        }
        k = k + 1;
    }
    proof {
        assert(s@.take(k as int) =~= s@);
    }
    c
}

/// Whether `count` is the non-negative number `rc`.
fn count_is(rc: i32, count: u128) -> (r: bool)
    ensures
        r == (rc == count),
{
    rc >= 0 && (rc as u128) == count
}

impl Database {
    /// Whether the identifier part of the invariant holds.
    pub fn check_ids(&self) -> (r: bool)
        ensures
            r == self.ids_ok(),
    {
        if self.next_file_id <= 0 || self.next_group_id <= 0 || self.next_tag_id <= 0 {
            return false;
        }
        let mut i: usize = 0;
        while i < self.files.len()
            invariant
                i <= self.files@.len(),
                forall|p: int| 0 <= p < i ==> 0 < (#[trigger] self.files@[p]).id < self.next_file_id,
                forall|p: int, q: int| 0 <= p < i && 0 <= q < i && p != q ==> (#[trigger] self.files@[p]).id
                    != (#[trigger] self.files@[q]).id,
            decreases self.files@.len() - i,
        {
            if self.files[i].id <= 0 || self.files[i].id >= self.next_file_id {
                return false;
            }
            let mut j: usize = 0;
            while j < i
                invariant
                    j <= i < self.files@.len(),
                    forall|p: int| 0 <= p < j ==> (#[trigger] self.files@[p]).id != self.files@[i as int].id,
                decreases i - j,
            {
                if self.files[j].id == self.files[i].id {
                    return false;
                }
                j = j + 1;
            }
            i = i + 1;
        }
        let mut i: usize = 0;
        while i < self.groups.len()
            invariant
                0 < self.next_file_id,
                forall|p: int| 0 <= p < self.files@.len() ==> 0 < (#[trigger] self.files@[p]).id < self.next_file_id,
                forall|p: int, q: int| 0 <= p < self.files@.len() && 0 <= q < self.files@.len() && p != q ==> (
                #[trigger] self.files@[p]).id != (#[trigger] self.files@[q]).id,
                i <= self.groups@.len(),
                forall|p: int| 0 <= p < i ==> 0 < (#[trigger] self.groups@[p]).id < self.next_group_id,
                forall|p: int, q: int| 0 <= p < i && 0 <= q < i && p != q ==> (#[trigger] self.groups@[p]).id
                    != (#[trigger] self.groups@[q]).id,
            decreases self.groups@.len() - i,
        {
            if self.groups[i].id <= 0 || self.groups[i].id >= self.next_group_id {
                return false;
            }
            let mut j: usize = 0;
            while j < i
                invariant
                    j <= i < self.groups@.len(),
                    forall|p: int| 0 <= p < j ==> (#[trigger] self.groups@[p]).id != self.groups@[i as int].id,
                decreases i - j,
            {
                if self.groups[j].id == self.groups[i].id {
                    return false;
                }
                j = j + 1;
            }
            i = i + 1;
        }
        let mut i: usize = 0;
        while i < self.tags.len()
            invariant
                0 < self.next_file_id,
                0 < self.next_group_id,
                forall|p: int| 0 <= p < self.files@.len() ==> 0 < (#[trigger] self.files@[p]).id < self.next_file_id,
                forall|p: int, q: int| 0 <= p < self.files@.len() && 0 <= q < self.files@.len() && p != q ==> (
                #[trigger] self.files@[p]).id != (#[trigger] self.files@[q]).id,
                forall|p: int| 0 <= p < self.groups@.len() ==> 0 < (#[trigger] self.groups@[p]).id < self.next_group_id,
                forall|p: int, q: int| 0 <= p < self.groups@.len() && 0 <= q < self.groups@.len() && p != q ==> (
                #[trigger] self.groups@[p]).id != (#[trigger] self.groups@[q]).id,
                i <= self.tags@.len(),
                forall|p: int| 0 <= p < i ==> 0 < (#[trigger] self.tags@[p]).id < self.next_tag_id,
                forall|p: int, q: int| 0 <= p < i && 0 <= q < i && p != q ==> (#[trigger] self.tags@[p]).id
                    != (#[trigger] self.tags@[q]).id,
            decreases self.tags@.len() - i,
        {
            if self.tags[i].id <= 0 || self.tags[i].id >= self.next_tag_id {
                return false;
            }
            let mut j: usize = 0;
            while j < i
                invariant
                    j <= i < self.tags@.len(),
                    forall|p: int| 0 <= p < j ==> (#[trigger] self.tags@[p]).id != self.tags@[i as int].id,
                decreases i - j,
            {
                if self.tags[j].id == self.tags[i].id {
                    return false;
                }
                j = j + 1;
            }
            i = i + 1;
        }
        true
    }

    /// Whether the link part of the invariant holds.
    pub fn check_links(&self) -> (r: bool)
        ensures
            r == self.links_ok(),
    {
        let mut k: usize = 0;
        while k < self.file_groups.len()
            invariant
                k <= self.file_groups@.len(),
                forall|q: int| 0 <= q < k ==> has_file(self.files@, (#[trigger] self.file_groups@[q]).file_id)
                    && has_group(self.groups@, self.file_groups@[q].group_id),
            decreases self.file_groups@.len() - k,
        {
            if self.find_file_index(self.file_groups[k].file_id).is_none() || self.find_group_index(
                self.file_groups[k].group_id,
            ).is_none() {
                return false;
            }
            k = k + 1;
        }
        let mut k: usize = 0;
        while k < self.group_tags.len()
            invariant
                forall|q: int| 0 <= q < self.file_groups@.len() ==> has_file(self.files@, (#[trigger] self.file_groups@[q]).file_id)
                    && has_group(self.groups@, self.file_groups@[q].group_id),
                k <= self.group_tags@.len(),
                forall|q: int| 0 <= q < k ==> has_group(self.groups@, (#[trigger] self.group_tags@[q]).group_id)
                    && has_tag(self.tags@, self.group_tags@[q].tag_id),
            decreases self.group_tags@.len() - k,
        {
            if self.find_group_index(self.group_tags[k].group_id).is_none() || self.find_tag_index(
                self.group_tags[k].tag_id,
            ).is_none() {
                return false;
            }
            k = k + 1;
        }
        let mut k: usize = 0;
        while k < self.group_relations.len()
            invariant
                forall|q: int| 0 <= q < self.file_groups@.len() ==> has_file(self.files@, (#[trigger] self.file_groups@[q]).file_id)
                    && has_group(self.groups@, self.file_groups@[q].group_id),
                forall|q: int| 0 <= q < self.group_tags@.len() ==> has_group(self.groups@, (#[trigger] self.group_tags@[q]).group_id)
                    && has_tag(self.tags@, self.group_tags@[q].tag_id),
                k <= self.group_relations@.len(),
                forall|q: int| 0 <= q < k ==> has_group(self.groups@, (#[trigger] self.group_relations@[q]).first_group_id)
                    && has_group(self.groups@, self.group_relations@[q].second_group_id)
                    && self.group_relations@[q].first_group_id != self.group_relations@[q].second_group_id,
            decreases self.group_relations@.len() - k,
        {
            let rel = self.group_relations[k];
            if rel.first_group_id == rel.second_group_id || self.find_group_index(rel.first_group_id).is_none()
                || self.find_group_index(rel.second_group_id).is_none() {
                return false;
            }
            k = k + 1;
        }
        true
    }

    /// Whether no link is stored twice.
    pub fn check_unique(&self) -> (r: bool)
        ensures
            r == self.rows_unique(),
    {
        let mut k: usize = 0;
        while k < self.file_groups.len()
            invariant
                k <= self.file_groups@.len(),
                forall|p: int, q: int| 0 <= p < k && 0 <= q < k && p != q ==> !((#[trigger] self.file_groups@[p]).file_id
                    == (#[trigger] self.file_groups@[q]).file_id && self.file_groups@[p].group_id
                    == self.file_groups@[q].group_id),
            decreases self.file_groups@.len() - k,
        {
            let mut j: usize = 0;
            while j < k
                invariant
                    j <= k < self.file_groups@.len(),
                    forall|p: int| 0 <= p < j ==> !((#[trigger] self.file_groups@[p]).file_id
                        == self.file_groups@[k as int].file_id && self.file_groups@[p].group_id
                        == self.file_groups@[k as int].group_id),
                decreases k - j,
            {
                if self.file_groups[j].file_id == self.file_groups[k].file_id && self.file_groups[j].group_id
                    == self.file_groups[k].group_id {
                    return false;
                }
                j = j + 1;
            }
            k = k + 1;
        }
        let mut k: usize = 0;
        while k < self.group_tags.len()
            invariant
                forall|p: int, q: int|
                    0 <= p < self.file_groups@.len() && 0 <= q < self.file_groups@.len() && p != q ==> !((
                    #[trigger] self.file_groups@[p]).file_id == (#[trigger] self.file_groups@[q]).file_id
                        && self.file_groups@[p].group_id == self.file_groups@[q].group_id),
                k <= self.group_tags@.len(),
                forall|p: int, q: int| 0 <= p < k && 0 <= q < k && p != q ==> !((#[trigger] self.group_tags@[p]).group_id
                    == (#[trigger] self.group_tags@[q]).group_id && self.group_tags@[p].tag_id
                    == self.group_tags@[q].tag_id),
            decreases self.group_tags@.len() - k,
        {
            let mut j: usize = 0;
            while j < k
                invariant
                    j <= k < self.group_tags@.len(),
                    forall|p: int| 0 <= p < j ==> !((#[trigger] self.group_tags@[p]).group_id
                        == self.group_tags@[k as int].group_id && self.group_tags@[p].tag_id
                        == self.group_tags@[k as int].tag_id),
                decreases k - j,
            {
                if self.group_tags[j].group_id == self.group_tags[k].group_id && self.group_tags[j].tag_id
                    == self.group_tags[k].tag_id {
                    return false;
                }
                j = j + 1;
            }
            k = k + 1;
        }
        let mut k: usize = 0;
        while k < self.group_relations.len()
            invariant
                forall|p: int, q: int|
                    0 <= p < self.file_groups@.len() && 0 <= q < self.file_groups@.len() && p != q ==> !((
                    #[trigger] self.file_groups@[p]).file_id == (#[trigger] self.file_groups@[q]).file_id
                        && self.file_groups@[p].group_id == self.file_groups@[q].group_id),
                forall|p: int, q: int|
                    0 <= p < self.group_tags@.len() && 0 <= q < self.group_tags@.len() && p != q ==> !((
                    #[trigger] self.group_tags@[p]).group_id == (#[trigger] self.group_tags@[q]).group_id
                        && self.group_tags@[p].tag_id == self.group_tags@[q].tag_id),
                k <= self.group_relations@.len(),
                forall|p: int, q: int| 0 <= p < k && 0 <= q < k && p != q ==> (#[trigger] self.group_relations@[p])
                    != (#[trigger] self.group_relations@[q]),
            decreases self.group_relations@.len() - k,
        {
            let mut j: usize = 0;
            while j < k
                invariant
                    j <= k < self.group_relations@.len(),
                    forall|p: int| 0 <= p < j ==> (#[trigger] self.group_relations@[p]) != self.group_relations@[k as int],
                decreases k - j,
            {
                let a = self.group_relations[j];
                let b = self.group_relations[k];
                if a.first_group_id == b.first_group_id && a.second_group_id == b.second_group_id
                    && a.relation_type == b.relation_type {
                    return false;
                }
                j = j + 1;
            }
            k = k + 1;
        }
        true
    }

    /// Whether every reference count equals the number of links that name
    /// its record.
    pub fn check_counts(&self) -> (r: bool)
        ensures
            r == self.counts_ok(),
    {
        let mut i: usize = 0;
        while i < self.files.len()
            invariant
                i <= self.files@.len(),
                forall|p: int| 0 <= p < i ==> (#[trigger] self.files@[p]).reference_count == fg_count_file(
                    self.file_groups@,
                    self.files@[p].id,
                ),
            decreases self.files@.len() - i,
        {
            let c = count_links_of_file(&self.file_groups, self.files[i].id);
            if !count_is(self.files[i].reference_count, c as u128) {
                return false;
            }
            i = i + 1;
        }
        let mut i: usize = 0;
        while i < self.groups.len()
            invariant
                forall|p: int| 0 <= p < self.files@.len() ==> (#[trigger] self.files@[p]).reference_count
                    == fg_count_file(self.file_groups@, self.files@[p].id),
                i <= self.groups@.len(),
                forall|p: int| 0 <= p < i ==> (#[trigger] self.groups@[p]).reference_count == group_refs(
                    self.file_groups@,
                    self.group_tags@,
                    self.group_relations@,
                    self.groups@[p].id,
                ),
            decreases self.groups@.len() - i,
        {
            let id = self.groups[i].id;
            let a = count_links_to_group(&self.file_groups, id) as u128;
            let b = count_tag_links_of_group(&self.group_tags, id) as u128;
            let c = count_relations_from(&self.group_relations, id) as u128;
            let d = count_relations_to(&self.group_relations, id) as u128;
            if !count_is(self.groups[i].reference_count, a + b + c + d) {
                return false;
            }
            i = i + 1;
        }
        let mut i: usize = 0;
        while i < self.tags.len()
            invariant
                forall|p: int| 0 <= p < self.files@.len() ==> (#[trigger] self.files@[p]).reference_count
                    == fg_count_file(self.file_groups@, self.files@[p].id),
                forall|p: int| 0 <= p < self.groups@.len() ==> (#[trigger] self.groups@[p]).reference_count
                    == group_refs(self.file_groups@, self.group_tags@, self.group_relations@, self.groups@[p].id),
                i <= self.tags@.len(),
                forall|p: int| 0 <= p < i ==> (#[trigger] self.tags@[p]).reference_count == gt_count_tag(
                    self.group_tags@,
                    self.tags@[p].id,
                ),
            decreases self.tags@.len() - i,
        {
            let c = count_links_to_tag(&self.group_tags, self.tags[i].id);
            if !count_is(self.tags[i].reference_count, c as u128) {
                return false;
            }
            i = i + 1;
        }
        true
    }

    /// Whether every file owns a primary group of its own and every link to
    /// a primary group comes from its owner.
    pub fn check_primary(&self) -> (r: bool)
        requires
            self.ids_ok(),
        ensures
            r == self.primary_ok(),
    {
        let mut i: usize = 0;
        while i < self.files.len()
            invariant
                self.ids_ok(),
                i <= self.files@.len(),
                forall|p: int| 0 <= p < i ==> has_fg_link(
                    self.file_groups@,
                    (#[trigger] self.files@[p]).id,
                    self.files@[p].group_id,
                ) && is_primary_group(self.groups@, self.files@[p].group_id),
                forall|p: int, q: int| 0 <= p < i && 0 <= q < i && p != q ==> (#[trigger] self.files@[p]).group_id
                    != (#[trigger] self.files@[q]).group_id,
            decreases self.files@.len() - i,
        {
            let f_id = self.files[i].id;
            let g_id = self.files[i].group_id;
            if self.find_file_group_index(f_id, g_id).is_none() {
                return false;
            }
            match self.find_group_index(g_id) {
                None => {
                    proof {
                        if is_primary_group(self.groups@, g_id) {
                            let q = choose|q: int| 0 <= q < self.groups@.len() && (#[trigger] self.groups@[q]).id == g_id
                                && self.groups@[q].is_primary;
                        }
                    }
                    return false;
                },
                Some(gi) => {
                    proof {
                        self.lemma_group_at(gi as int);
                    }
                    if !self.groups[gi].is_primary {
                        return false;
                    }
                },
            }
            let mut j: usize = 0;
            while j < i
                invariant
                    j <= i < self.files@.len(),
                    g_id == self.files@[i as int].group_id,
                    forall|p: int| 0 <= p < j ==> (#[trigger] self.files@[p]).group_id != self.files@[i as int].group_id,
                decreases i - j,
            {
                if self.files[j].group_id == g_id {
                    return false;
                }
                j = j + 1;
            }
            i = i + 1;
        }
        let mut k: usize = 0;
        while k < self.file_groups.len()
            invariant
                self.ids_ok(),
                forall|p: int| 0 <= p < self.files@.len() ==> has_fg_link(
                    self.file_groups@,
                    (#[trigger] self.files@[p]).id,
                    self.files@[p].group_id,
                ) && is_primary_group(self.groups@, self.files@[p].group_id),
                forall|p: int, q: int|
                    0 <= p < self.files@.len() && 0 <= q < self.files@.len() && p != q ==> (
                    #[trigger] self.files@[p]).group_id != (#[trigger] self.files@[q]).group_id,
                k <= self.file_groups@.len(),
                forall|q: int, j: int|
                    0 <= q < k && 0 <= j < self.groups@.len() && (#[trigger] self.groups@[j]).id == (
                    #[trigger] self.file_groups@[q]).group_id && self.groups@[j].is_primary ==> owns(
                        self.files@,
                        self.file_groups@[q].file_id,
                        self.file_groups@[q].group_id,
                    ),
            decreases self.file_groups@.len() - k,
        {
            let link = self.file_groups[k];
            match self.find_group_index(link.group_id) {
                None => {
                    proof {
                        assert forall|j: int| 0 <= j < self.groups@.len() implies (#[trigger] self.groups@[j]).id
                            != self.file_groups@[k as int].group_id by {}
                    }
                },
                Some(gi) => {
                    if self.groups[gi].is_primary {
                        let mut found = false;
                        let mut i: usize = 0;
                        while i < self.files.len()
                            invariant
                                i <= self.files@.len(),
                                found ==> owns(self.files@, link.file_id, link.group_id),
                                !found ==> forall|p: int| 0 <= p < i ==> !((#[trigger] self.files@[p]).id == link.file_id
                                    && self.files@[p].group_id == link.group_id),
                            decreases self.files@.len() - i,
                        {
                            if self.files[i].id == link.file_id && self.files[i].group_id == link.group_id {
                                found = true;
                            }
                            i = i + 1;
                        }
                        if !found {
                            return false;
                        }
                    }
                    proof {
                        assert forall|j: int| 0 <= j < self.groups@.len() && (#[trigger] self.groups@[j]).id
                            == self.file_groups@[k as int].group_id && self.groups@[j].is_primary implies owns(
                            self.files@,
                            self.file_groups@[k as int].file_id,
                            self.file_groups@[k as int].group_id,
                        ) by {
                            if j != gi {
                                assert(self.groups@[j].id != self.groups@[gi as int].id);
                            }
                        }
                    }
                },
            }
            k = k + 1;
        }
        let mut g: usize = 0;
        while g < self.groups.len()
            invariant
                forall|p: int| 0 <= p < self.files@.len() ==> has_fg_link(
                    self.file_groups@,
                    (#[trigger] self.files@[p]).id,
                    self.files@[p].group_id,
                ) && is_primary_group(self.groups@, self.files@[p].group_id),
                forall|p: int, q: int|
                    0 <= p < self.files@.len() && 0 <= q < self.files@.len() && p != q ==> (
                    #[trigger] self.files@[p]).group_id != (#[trigger] self.files@[q]).group_id,
                forall|q: int, j: int|
                    0 <= q < self.file_groups@.len() && 0 <= j < self.groups@.len() && (#[trigger] self.groups@[j]).id == (
                    #[trigger] self.file_groups@[q]).group_id && self.groups@[j].is_primary ==> owns(
                        self.files@,
                        self.file_groups@[q].file_id,
                        self.file_groups@[q].group_id,
                    ),
                g <= self.groups@.len(),
                forall|j: int| 0 <= j < g && (#[trigger] self.groups@[j]).is_primary ==> has_owner(
                    self.files@,
                    self.groups@[j].id,
                ),
            decreases self.groups@.len() - g,
        {
            if self.groups[g].is_primary {
                let id = self.groups[g].id;
                let mut found = false;
                let mut i: usize = 0;
                while i < self.files.len()
                    invariant
                        i <= self.files@.len(),
                        found ==> has_owner(self.files@, id),
                        !found ==> forall|p: int| 0 <= p < i ==> (#[trigger] self.files@[p]).group_id != id,
                    decreases self.files@.len() - i,
                {
                    if self.files[i].group_id == id {
                        found = true;
                    }
                    i = i + 1;
                }
                if !found {
                    return false;
                }
            }
            g = g + 1;
        }
        true
    }

    /// Whether no two groups share a name, and no two tags.
    pub fn check_names(&self) -> (r: bool)
        ensures
            r == self.names_ok(),
    {
        let mut k: usize = 0;
        while k < self.groups.len()
            invariant
                k <= self.groups@.len(),
                forall|p: int, q: int| 0 <= p < k && 0 <= q < k && p != q ==> (#[trigger] self.groups@[p]).name@
                    != (#[trigger] self.groups@[q]).name@,
            decreases self.groups@.len() - k,
        {
            let mut j: usize = 0;
            while j < k
                invariant
                    j <= k < self.groups@.len(),
                    forall|p: int| 0 <= p < j ==> (#[trigger] self.groups@[p]).name@ != self.groups@[k as int].name@,
                decreases k - j,
            {
                if str_eq(self.groups[j].name.as_str(), self.groups[k].name.as_str()) {
                    return false;
                }
                j = j + 1;
            }
            k = k + 1;
        }
        let mut k: usize = 0;
        while k < self.tags.len()
            invariant
                group_names_unique(self.groups@),
                k <= self.tags@.len(),
                forall|p: int, q: int| 0 <= p < k && 0 <= q < k && p != q ==> (#[trigger] self.tags@[p]).name@
                    != (#[trigger] self.tags@[q]).name@,
            decreases self.tags@.len() - k,
        {
            let mut j: usize = 0;
            while j < k
                invariant
                    j <= k < self.tags@.len(),
                    forall|p: int| 0 <= p < j ==> (#[trigger] self.tags@[p]).name@ != self.tags@[k as int].name@,
                decreases k - j,
            {
                if str_eq(self.tags[j].name.as_str(), self.tags[k].name.as_str()) {
                    return false;
                }
                j = j + 1;
            }
            k = k + 1;
        }
        true
    }

    /// Whether the whole invariant holds.
    pub fn check(&self) -> (r: bool)
        ensures
            r == self.wf(),
    {
        self.check_ids() && self.check_links() && self.check_unique() && self.check_counts()
            && self.check_primary() && self.check_names()
    }
}

/// One more than the largest id of `ids`, 1 when there is none.
pub open spec fn next_after(ids: Seq<i32>) -> int
    decreases ids.len(),
{
    if ids.len() == 0 {
        1
    } else {
        let m = next_after(ids.drop_last());
        if ids.last() + 1 > m {
            ids.last() + 1
        } else {
            m
        }
    }
}

/// One more than the largest of `ids` (at least 1), when that fits.
fn next_id(ids: &Vec<i32>) -> (r: Option<i32>)
    ensures
        match r {
            Some(n) => n == next_after(ids@),
            None => next_after(ids@) > i32::MAX,
        },
{
    let mut m: i64 = 1;
    let mut k: usize = 0;
    while k < ids.len()
        invariant
            k <= ids@.len(),
            m == next_after(ids@.take(k as int)),
            1 <= m <= i32::MAX as int + 1,
        decreases ids@.len() - k,
    {
        proof {
            assert(ids@.take(k + 1).drop_last() =~= ids@.take(k as int));
        }
        let c = ids[k] as i64 + 1;
        if c > m {
            m = c;
        }
        k = k + 1;
    }
    proof {
        assert(ids@.take(k as int) =~= ids@);
    }
    if m > i32::MAX as i64 {
        None
    } else {
        Some(m as i32)
    }
}

/// The ids of some files, groups or tags.
pub open spec fn file_ids(v: Seq<File>) -> Seq<i32> {
    v.map_values(|f: File| f.id)
}

pub open spec fn group_ids(v: Seq<Group>) -> Seq<i32> {
    v.map_values(|g: Group| g.id)
}

pub open spec fn tag_ids(v: Seq<Tag>) -> Seq<i32> {
    v.map_values(|t: Tag| t.id)
}

/// The catalogue made of stored rows, each next id one more than the
/// largest id in use, when the rows satisfy the invariant; nothing
/// otherwise.
pub fn catalogue_from_rows(
    files: Vec<File>,
    groups: Vec<Group>,
    tags: Vec<Tag>,
    file_groups: Vec<FileGroupDTO>,
    group_tags: Vec<GroupTagDTO>,
    group_relations: Vec<GroupRelation>,
) -> (r: Option<Database>)
    ensures
        match r {
            Some(db) => {
                &&& db.wf()
                &&& db.files@ == files@
                &&& db.groups@ == groups@
                &&& db.tags@ == tags@
                &&& db.file_groups@ == file_groups@
                &&& db.group_tags@ == group_tags@
                &&& db.group_relations@ == group_relations@
                &&& db.next_file_id == next_after(file_ids(files@))
                &&& db.next_group_id == next_after(group_ids(groups@))
                &&& db.next_tag_id == next_after(tag_ids(tags@))
            },
            None => !(next_after(file_ids(files@)) <= i32::MAX && next_after(group_ids(groups@)) <= i32::MAX
                && next_after(tag_ids(tags@)) <= i32::MAX && (Database {
                files,
                groups,
                tags,
                file_groups,
                group_tags,
                group_relations,
                next_file_id: next_after(file_ids(files@)) as i32,
                next_group_id: next_after(group_ids(groups@)) as i32,
                next_tag_id: next_after(tag_ids(tags@)) as i32,
            }).wf()),
        },
{
    let mut fids: Vec<i32> = Vec::new();
    let mut k: usize = 0;
    while k < files.len()
        invariant
            k <= files@.len(),
            fids@ == file_ids(files@.take(k as int)),
        decreases files@.len() - k,
    {
        fids.push(files[k].id);
        proof {
            assert(file_ids(files@.take(k + 1)) =~= file_ids(files@.take(k as int)).push(files@[k as int].id));
        }
        k = k + 1;
    }
    let mut gids: Vec<i32> = Vec::new();
    let mut k: usize = 0;
    while k < groups.len()
        invariant
            k <= groups@.len(),
            gids@ == group_ids(groups@.take(k as int)),
        decreases groups@.len() - k,
    {
        gids.push(groups[k].id);
        proof {
            assert(group_ids(groups@.take(k + 1)) =~= group_ids(groups@.take(k as int)).push(groups@[k as int].id));
        }
        k = k + 1;
    }
    let mut tids: Vec<i32> = Vec::new();
    let mut k: usize = 0;
    while k < tags.len()
        invariant
            k <= tags@.len(),
            tids@ == tag_ids(tags@.take(k as int)),
        decreases tags@.len() - k,
    {
        tids.push(tags[k].id);
        proof {
            assert(tag_ids(tags@.take(k + 1)) =~= tag_ids(tags@.take(k as int)).push(tags@[k as int].id));
        }
        k = k + 1;
    }
    proof {
        assert(files@.take(files@.len() as int) =~= files@);
        assert(groups@.take(groups@.len() as int) =~= groups@);
        assert(tags@.take(tags@.len() as int) =~= tags@);
    }
    let nf = match next_id(&fids) {
        Some(n) => n,
        None => {
            return None;
        },
    };
    let ng = match next_id(&gids) {
        Some(n) => n,
        None => {
            return None;
        },
    };
    let nt = match next_id(&tids) {
        Some(n) => n,
        None => {
            return None;
        },
    };
    let db = Database {
        files,
        groups,
        tags,
        file_groups,
        group_tags,
        group_relations,
        next_file_id: nf,
        next_group_id: ng,
        next_tag_id: nt,
    };
    if db.check() {
        Some(db)
    } else {
        None
    }
}

} // verus!

//! Evaluation of query conditions against records, with the three-valued
//! logic of SQL (a LIKE on a missing description is unknown, and unknown
//! stays unknown under NOT), and selection of the records that satisfy a
//! list of conditions.
use vstd::prelude::*;
use crate::models::{
    File, FileCondition, FileGroupCondition, FileGroupDTO, Group, GroupCondition, GroupRelation,
    GroupRelationCondition, GroupTagCondition, GroupTagDTO, Tag, TagCondition,
};
use crate::text::{ascii_lower, str_eq};

verus! {

/// SQL AND over true / false / unknown (`None`).
pub open spec fn and3(a: Option<bool>, b: Option<bool>) -> Option<bool> {
    if a == Some(false) || b == Some(false) {
        Some(false)
    } else if a is None || b is None {
        None
    } else {
        Some(true)
    }
}

/// SQL OR over true / false / unknown (`None`).
pub open spec fn or3(a: Option<bool>, b: Option<bool>) -> Option<bool> {
    if a == Some(true) || b == Some(true) {
        Some(true)
    } else if a is None || b is None {
        None
    } else {
        Some(false)
    }
}

/// SQL NOT over true / false / unknown (`None`).
pub open spec fn not3(a: Option<bool>) -> Option<bool> {
    match a {
        Some(b) => Some(!b),
        None => None,
    }
}

fn exec_and3(a: Option<bool>, b: Option<bool>) -> (r: Option<bool>)
    ensures
        r == and3(a, b),
{
    if a == Some(false) || b == Some(false) {
        Some(false)
    } else if a.is_none() || b.is_none() {
        None
    } else {
        Some(true)
    }
}

fn exec_or3(a: Option<bool>, b: Option<bool>) -> (r: Option<bool>)
    ensures
        r == or3(a, b),
{
    if a == Some(true) || b == Some(true) {
        Some(true)
    } else if a.is_none() || b.is_none() {
        None
    } else {
        Some(false)
    }
}

/// SQL `s LIKE p`: `%` matches any run of characters, `_` any one
/// character, and letters compare without regard to ASCII case.
pub open spec fn like_match(s: Seq<char>, p: Seq<char>) -> bool
    decreases p.len(), s.len(),
{
    if p.len() == 0 {
        s.len() == 0
    } else if p[0] == '%' {
        like_match(s, p.drop_first()) || (s.len() > 0 && like_match(s.drop_first(), p))
    } else if s.len() == 0 {
        false
    } else if p[0] == '_' || ascii_lower(p[0]) == ascii_lower(s[0]) {
        like_match(s.drop_first(), p.drop_first())
    } else {
        false
    }
}

fn chars_of(s: &str) -> (r: Vec<char>)
    ensures
        r@ == s@,
{
    let n = s.unicode_len();
    let mut v: Vec<char> = Vec::new();
    let mut i: usize = 0;
    while i < n
        invariant
            n == s@.len(),
            i <= n,
            v@ == s@.take(i as int),
        decreases n - i,
    {
        v.push(s.get_char(i));
        i = i + 1;
        assert(v@ =~= s@.take(i as int));
    }
    assert(s@.take(n as int) =~= s@);
    v
}

fn lower_char(c: char) -> (r: char)
    ensures
        r == ascii_lower(c),
{
    if 'A' <= c && c <= 'Z' {
        let r = ((c as u32) + 32) as u8 as char;
        assert(r == ((c as u32) + 32) as char);
        r
    } else {
        c
    }
}

/// Evaluates `s LIKE p` by dynamic programming over the suffixes of the
/// pattern and of the string.
pub fn like(s: &str, p: &str) -> (r: bool)
    ensures
        r == like_match(s@, p@),
{
    let sv = chars_of(s);
    let pv = chars_of(p);
    let n = sv.len();
    let m = pv.len();
    // row[i] == like_match(s@.skip(i), p@.skip(j)) for the current j
    let mut row: Vec<bool> = Vec::new();
    let mut i: usize = 0;
    while i < n
        invariant
            n == s@.len(),
            i <= n,
            row@.len() == i,
            forall|k: int| 0 <= k < i ==> #[trigger] row@[k] == (k == n),
        decreases n - i,
    {
        row.push(false);
        i = i + 1;
    }
    row.push(true);
    assert forall|k: int| 0 <= k <= n implies #[trigger] row@[k] == like_match(s@.skip(k), p@.skip(m as int)) by {
        assert(p@.skip(m as int).len() == 0);
    }
    let mut j: usize = m;
    while j > 0
        invariant
            sv@ == s@,
            pv@ == p@,
            n == s@.len(),
            m == p@.len(),
            j <= m,
            row@.len() == n + 1,
            forall|k: int| 0 <= k <= n ==> #[trigger] row@[k] == like_match(s@.skip(k), p@.skip(j as int)),
        decreases j,
    {
        let jj = j - 1;
        let pc = pv[jj];
        let mut next: Vec<bool> = Vec::new();
        let mut t: usize = 0;
        while t < n
            invariant
                t <= n,
                next@.len() == t,
            decreases n - t,
        {
            next.push(false);
            t = t + 1;
        }
        next.push(false);
        let ghost pj = p@.skip(jj as int);
        assert(pj[0] == pc);
        assert(pj.drop_first() =~= p@.skip(j as int));
        if pc == '%' {
            let last = row[n];
            next.set(n, last);
            assert(s@.skip(n as int).len() == 0);
            assert(like_match(s@.skip(n as int), pj) == like_match(s@.skip(n as int), pj.drop_first()));
            let mut k: usize = n;
            while k > 0
                invariant
                    n == s@.len(),
                    k <= n,
                    next@.len() == n + 1,
                    row@.len() == n + 1,
                    pj == p@.skip(jj as int),
                    pj.len() > 0,
                    pj[0] == '%',
                    pj.drop_first() == p@.skip(j as int),
                    forall|q: int| 0 <= q <= n ==> #[trigger] row@[q] == like_match(s@.skip(q), p@.skip(j as int)),
                    forall|q: int| k <= q <= n ==> #[trigger] next@[q] == like_match(s@.skip(q), pj),
                decreases k,
            {
                let kk = k - 1;
                let v = row[kk] || next[kk + 1];
                proof {
                    assert(s@.skip(kk as int).drop_first() =~= s@.skip(kk + 1));
                }
                next.set(kk, v);
                k = kk;
            }
        } else {
            let mut k: usize = 0;
            while k < n
                invariant
                    sv@ == s@,
                    n == s@.len(),
                    k <= n,
                    next@.len() == n + 1,
                    row@.len() == n + 1,
                    pj == p@.skip(jj as int),
                    pj.len() > 0,
                    pj[0] == pc,
                    pc != '%',
                    pj.drop_first() == p@.skip(j as int),
                    forall|q: int| 0 <= q <= n ==> #[trigger] row@[q] == like_match(s@.skip(q), p@.skip(j as int)),
                    forall|q: int| 0 <= q < k ==> #[trigger] next@[q] == like_match(s@.skip(q), pj),
                    next@[n as int] == false,
                decreases n - k,
            {
                let sc = sv[k];
                let v = (pc == '_' || lower_char(pc) == lower_char(sc)) && row[k + 1];
                proof {
                    assert(s@.skip(k as int)[0] == s@[k as int]);
                    assert(s@.skip(k as int).drop_first() =~= s@.skip(k + 1));
                }
                next.set(k, v);
                k = k + 1;
            }
            assert(s@.skip(n as int).len() == 0);
        }
        row = next;
        j = jj;
    }
    assert(s@.skip(0) =~= s@);
    assert(p@.skip(0) =~= p@);
    row[0]
}

fn string_in(s: &String, vs: &Vec<String>) -> (r: bool)
    ensures
        r == (exists|k: int| 0 <= k < vs@.len() && (#[trigger] vs@[k])@ == s@),
{
    let mut k: usize = 0;
    while k < vs.len()
        invariant
            k <= vs@.len(),
            forall|q: int| 0 <= q < k ==> (#[trigger] vs@[q])@ != s@,
        decreases vs@.len() - k,
    {
        if str_eq(vs[k].as_str(), s.as_str()) {
            return true;
        }
        k = k + 1;
    }
    false
}

fn i32_in(x: i32, vs: &Vec<i32>) -> (r: bool)
    ensures
        r == vs@.contains(x),
{
    let mut k: usize = 0;
    while k < vs.len()
        invariant
            k <= vs@.len(),
            forall|q: int| 0 <= q < k ==> vs@[q] != x,
        decreases vs@.len() - k,
    {
        if vs[k] == x {
            return true;
        }
        k = k + 1;
    }
    false
}

fn i64_in(x: i64, vs: &Vec<i64>) -> (r: bool)
    ensures
        r == vs@.contains(x),
{
    let mut k: usize = 0;
    while k < vs.len()
        invariant
            k <= vs@.len(),
            forall|q: int| 0 <= q < k ==> vs@[q] != x,
        decreases vs@.len() - k,
    {
        if vs[k] == x {
            return true;
        }
        k = k + 1;
    }
    false
}


// ---- conditions on files ----

/// The truth value of condition `c` for the file `r`.
pub open spec fn file_eval(c: FileCondition, r: File) -> Option<bool>
    decreases c,
{
    match c {
        FileCondition::Id(v) => Some(r.id == v),
        FileCondition::IdGreaterThan(v) => Some(r.id > v),
        FileCondition::IdLessThan(v) => Some(r.id < v),
        FileCondition::IdIn(v) => Some(v@.contains(r.id)),
        FileCondition::Type(v) => Some(r.type_@ == v@),
        FileCondition::TypeLike(v) => Some(like_match(r.type_@, v@)),
        FileCondition::TypeIn(v) => Some(exists|k: int| 0 <= k < v@.len() && (#[trigger] v@[k])@ == r.type_@),
        FileCondition::Path(v) => Some(r.path@ == v@),
        FileCondition::PathLike(v) => Some(like_match(r.path@, v@)),
        FileCondition::PathIn(v) => Some(exists|k: int| 0 <= k < v@.len() && (#[trigger] v@[k])@ == r.path@),
        FileCondition::DescriptionLike(v) => match r.description {
            Some(d) => Some(like_match(d@, v@)),
            None => None,
        },
        FileCondition::ReferenceCount(v) => Some(r.reference_count == v),
        FileCondition::ReferenceCountGreaterThan(v) => Some(r.reference_count > v),
        FileCondition::ReferenceCountLessThan(v) => Some(r.reference_count < v),
        FileCondition::ReferenceCountIn(v) => Some(v@.contains(r.reference_count)),
        FileCondition::GroupId(v) => Some(r.group_id == v),
        FileCondition::GroupIdGreaterThan(v) => Some(r.group_id > v),
        FileCondition::GroupIdLessThan(v) => Some(r.group_id < v),
        FileCondition::GroupIdIn(v) => Some(v@.contains(r.group_id)),
        FileCondition::And(cs) => file_eval_all(cs@, r),
        FileCondition::Or(cs) => file_eval_any(cs@, r),
        FileCondition::Not(b) => not3(file_eval(*b, r)),
    }
}

/// SQL AND of all of `cs` (true when `cs` is empty).
pub open spec fn file_eval_all(cs: Seq<FileCondition>, r: File) -> Option<bool>
    decreases cs,
{
    if cs.len() == 0 {
        Some(true)
    } else {
        and3(file_eval_all(cs.drop_last(), r), file_eval(cs.last(), r))
    }
}

/// SQL OR of all of `cs` (false when `cs` is empty).
pub open spec fn file_eval_any(cs: Seq<FileCondition>, r: File) -> Option<bool>
    decreases cs,
{
    if cs.len() == 0 {
        Some(false)
    } else {
        or3(file_eval_any(cs.drop_last(), r), file_eval(cs.last(), r))
    }
}

/// The files of `rs`, in order, for which every condition of `cs` is true.
pub open spec fn files_where(rs: Seq<File>, cs: Seq<FileCondition>) -> Seq<File>
    decreases rs.len(),
{
    if rs.len() == 0 {
        Seq::<File>::empty()
    } else {
        let prev = files_where(rs.drop_last(), cs);
        if file_eval_all(cs, rs.last()) == Some(true) {
            prev.push(rs.last())
        } else {
            prev
        }
    }
}

/// Evaluates condition `c` on the file `r`.
pub fn eval_file_condition(c: &FileCondition, r: &File) -> (res: Option<bool>)
    ensures
        res == file_eval(*c, *r),
    decreases c,
{
    match c {
        FileCondition::Id(v) => Some(r.id == *v),
        FileCondition::IdGreaterThan(v) => Some(r.id > *v),
        FileCondition::IdLessThan(v) => Some(r.id < *v),
        FileCondition::IdIn(v) => Some(i32_in(r.id, v)),
        FileCondition::Type(v) => Some(str_eq(r.type_.as_str(), v.as_str())),
        FileCondition::TypeLike(v) => Some(like(r.type_.as_str(), v.as_str())),
        FileCondition::TypeIn(v) => Some(string_in(&r.type_, v)),
        FileCondition::Path(v) => Some(str_eq(r.path.as_str(), v.as_str())),
        FileCondition::PathLike(v) => Some(like(r.path.as_str(), v.as_str())),
        FileCondition::PathIn(v) => Some(string_in(&r.path, v)),
        FileCondition::DescriptionLike(v) => match &r.description {
            Some(d) => Some(like(d.as_str(), v.as_str())),
            None => None,
        },
        FileCondition::ReferenceCount(v) => Some(r.reference_count == *v),
        FileCondition::ReferenceCountGreaterThan(v) => Some(r.reference_count > *v),
        FileCondition::ReferenceCountLessThan(v) => Some(r.reference_count < *v),
        FileCondition::ReferenceCountIn(v) => Some(i32_in(r.reference_count, v)),
        FileCondition::GroupId(v) => Some(r.group_id == *v),
        FileCondition::GroupIdGreaterThan(v) => Some(r.group_id > *v),
        FileCondition::GroupIdLessThan(v) => Some(r.group_id < *v),
        FileCondition::GroupIdIn(v) => Some(i32_in(r.group_id, v)),
        FileCondition::And(cs) => eval_all_file_conditions(cs, r),
        FileCondition::Or(cs) => eval_any_file_conditions(cs, r),
        FileCondition::Not(b) => {
            let x = eval_file_condition(b, r);
            match x {
                Some(t) => Some(!t),
                None => None,
            }
        },
    }
}

/// Evaluates the SQL OR of the conditions of `cs` on the file `r`.
pub fn eval_any_file_conditions(cs: &Vec<FileCondition>, r: &File) -> (res: Option<bool>)
    ensures
        res == file_eval_any(cs@, *r),
    decreases cs,
{
    let mut acc: Option<bool> = Some(false);
    let mut k: usize = 0;
    while k < cs.len()
        invariant
            k <= cs@.len(),
            acc == file_eval_any(cs@.take(k as int), *r),
        decreases cs@.len() - k,
    {
        proof {
            assert(cs@.take(k + 1).drop_last() =~= cs@.take(k as int));
        }
        let x = eval_file_condition(&cs[k], r);
        acc = exec_or3(acc, x);
        k = k + 1;
    }
    assert(cs@.take(k as int) =~= cs@);
    acc
}

/// Evaluates the SQL AND of all conditions of `cs` on the file `r`.
pub fn eval_all_file_conditions(cs: &Vec<FileCondition>, r: &File) -> (res: Option<bool>)
    ensures
        res == file_eval_all(cs@, *r),
    decreases cs,
{
    let mut acc: Option<bool> = Some(true);
    let mut k: usize = 0;
    while k < cs.len()
        invariant
            k <= cs@.len(),
            acc == file_eval_all(cs@.take(k as int), *r),
        decreases cs@.len() - k,
    {
        proof {
            assert(cs@.take(k + 1).drop_last() =~= cs@.take(k as int));
        }
        let x = eval_file_condition(&cs[k], r);
        acc = exec_and3(acc, x);
        k = k + 1;
    }
    assert(cs@.take(k as int) =~= cs@);
    acc
}


/// `s` with `a` added at the end when `b` holds.
pub open spec fn push_opt<A>(s: Seq<A>, b: bool, a: A) -> Seq<A> {
    if b {
        s.push(a)
    } else {
        s
    }
}

/// At most `limit` elements of `s` from the front when the limit is given
/// and not negative; all of `s` otherwise, as SQL's `LIMIT` does.
pub open spec fn take_limit<A>(s: Seq<A>, limit: Option<i64>) -> Seq<A> {
    match limit {
        Some(n) => if 0 <= n && n < s.len() {
            s.take(n as int)
        } else {
            s
        },
        None => s,
    }
}

/// Cuts `v` down to `limit` elements, as `take_limit` says.
pub fn apply_limit<A>(v: &mut Vec<A>, limit: Option<i64>)
    ensures
        final(v)@ == take_limit(old(v)@, limit),
{
    match limit {
        Some(n) => {
            if n >= 0 && (n as u64) < (v.len() as u64) {
                v.truncate(n as usize);
                proof {
                    assert(final(v)@ =~= old(v)@.take(n as int));
                }
            }
        },
        None => {},
    }
}


/// `s` without its first `offset` elements when the offset is given and
/// positive, as SQL's `OFFSET` does.
pub open spec fn skip_offset<A>(s: Seq<A>, offset: Option<i64>) -> Seq<A> {
    match offset {
        Some(n) => if n <= 0 {
            s
        } else if n < s.len() {
            s.skip(n as int)
        } else {
            Seq::empty()
        },
        None => s,
    }
}

/// Drops the first elements of `v`, as `skip_offset` says.
pub fn apply_offset<A>(v: Vec<A>, offset: Option<i64>) -> (r: Vec<A>)
    ensures
        r@ == skip_offset(v@, offset),
{
    match offset {
        Some(n) => {
            if n <= 0 {
                v
            } else if (n as u64) < (v.len() as u64) {
                let mut w = v;
                let tail = w.split_off(n as usize);
                proof {
                    assert(tail@ =~= v@.skip(n as int));
                }
                tail
            } else {
                Vec::new()
            }
        },
        None => v,
    }
}


// ---- conditions on groups ----

/// The truth value of condition `c` for the group `r`.
pub open spec fn group_eval(c: GroupCondition, r: Group) -> Option<bool>
    decreases c,
{
    match c {
        GroupCondition::Id(v) => Some(r.id == v),
        GroupCondition::IdGreaterThan(v) => Some(r.id > v),
        GroupCondition::IdLessThan(v) => Some(r.id < v),
        GroupCondition::IdIn(v) => Some(v@.contains(r.id)),
        GroupCondition::Name(v) => Some(r.name@ == v@),
        GroupCondition::NameLike(v) => Some(like_match(r.name@, v@)),
        GroupCondition::NameIn(v) => Some(exists|k: int| 0 <= k < v@.len() && (#[trigger] v@[k])@ == r.name@),
        GroupCondition::DescriptionLike(v) => match r.description {
            Some(d) => Some(like_match(d@, v@)),
            None => None,
        },
        GroupCondition::IsPrimary(v) => Some(r.is_primary == v),
        GroupCondition::ReferenceCount(v) => Some(r.reference_count == v),
        GroupCondition::ReferenceCountGreaterThan(v) => Some(r.reference_count > v),
        GroupCondition::ReferenceCountLessThan(v) => Some(r.reference_count < v),
        GroupCondition::ReferenceCountIn(v) => Some(v@.contains(r.reference_count)),
        GroupCondition::ClickCount(v) => Some(r.click_count == v),
        GroupCondition::ClickCountGreaterThan(v) => Some(r.click_count > v),
        GroupCondition::ClickCountLessThan(v) => Some(r.click_count < v),
        GroupCondition::ClickCountIn(v) => Some(v@.contains(r.click_count)),
        GroupCondition::ShareCount(v) => Some(r.share_count == v),
        GroupCondition::ShareCountGreaterThan(v) => Some(r.share_count > v),
        GroupCondition::ShareCountLessThan(v) => Some(r.share_count < v),
        GroupCondition::ShareCountIn(v) => Some(v@.contains(r.share_count)),
        GroupCondition::CreateTime(v) => Some(r.create_time == v),
        GroupCondition::CreateTimeGreaterThan(v) => Some(r.create_time > v),
        GroupCondition::CreateTimeLessThan(v) => Some(r.create_time < v),
        GroupCondition::CreateTimeIn(v) => Some(v@.contains(r.create_time)),
        GroupCondition::ModifyTime(v) => Some(r.modify_time == v),
        GroupCondition::ModifyTimeGreaterThan(v) => Some(r.modify_time > v),
        GroupCondition::ModifyTimeLessThan(v) => Some(r.modify_time < v),
        GroupCondition::ModifyTimeIn(v) => Some(v@.contains(r.modify_time)),
        GroupCondition::And(cs) => group_eval_all(cs@, r),
        GroupCondition::Or(cs) => group_eval_any(cs@, r),
        GroupCondition::Not(b) => not3(group_eval(*b, r)),
    }
}

/// SQL AND of all of `cs` (true when `cs` is empty).
pub open spec fn group_eval_all(cs: Seq<GroupCondition>, r: Group) -> Option<bool>
    decreases cs,
{
    if cs.len() == 0 {
        Some(true)
    } else {
        and3(group_eval_all(cs.drop_last(), r), group_eval(cs.last(), r))
    }
}

/// SQL OR of all of `cs` (false when `cs` is empty).
pub open spec fn group_eval_any(cs: Seq<GroupCondition>, r: Group) -> Option<bool>
    decreases cs,
{
    if cs.len() == 0 {
        Some(false)
    } else {
        or3(group_eval_any(cs.drop_last(), r), group_eval(cs.last(), r))
    }
}

/// The groups of `rs`, in order, for which every condition of `cs` is true.
pub open spec fn groups_where(rs: Seq<Group>, cs: Seq<GroupCondition>) -> Seq<Group>
    decreases rs.len(),
{
    if rs.len() == 0 {
        Seq::<Group>::empty()
    } else {
        let prev = groups_where(rs.drop_last(), cs);
        if group_eval_all(cs, rs.last()) == Some(true) {
            prev.push(rs.last())
        } else {
            prev
        }
    }
}

/// Evaluates condition `c` on the group `r`.
pub fn eval_group_condition(c: &GroupCondition, r: &Group) -> (res: Option<bool>)
    ensures
        res == group_eval(*c, *r),
    decreases c,
{
    match c {
        GroupCondition::Id(v) => Some(r.id == *v),
        GroupCondition::IdGreaterThan(v) => Some(r.id > *v),
        GroupCondition::IdLessThan(v) => Some(r.id < *v),
        GroupCondition::IdIn(v) => Some(i32_in(r.id, v)),
        GroupCondition::Name(v) => Some(str_eq(r.name.as_str(), v.as_str())),
        GroupCondition::NameLike(v) => Some(like(r.name.as_str(), v.as_str())),
        GroupCondition::NameIn(v) => Some(string_in(&r.name, v)),
        GroupCondition::DescriptionLike(v) => match &r.description {
            Some(d) => Some(like(d.as_str(), v.as_str())),
            None => None,
        },
        GroupCondition::IsPrimary(v) => Some(r.is_primary == *v),
        GroupCondition::ReferenceCount(v) => Some(r.reference_count == *v),
        GroupCondition::ReferenceCountGreaterThan(v) => Some(r.reference_count > *v),
        GroupCondition::ReferenceCountLessThan(v) => Some(r.reference_count < *v),
        GroupCondition::ReferenceCountIn(v) => Some(i32_in(r.reference_count, v)),
        GroupCondition::ClickCount(v) => Some(r.click_count == *v),
        GroupCondition::ClickCountGreaterThan(v) => Some(r.click_count > *v),
        GroupCondition::ClickCountLessThan(v) => Some(r.click_count < *v),
        GroupCondition::ClickCountIn(v) => Some(i32_in(r.click_count, v)),
        GroupCondition::ShareCount(v) => Some(r.share_count == *v),
        GroupCondition::ShareCountGreaterThan(v) => Some(r.share_count > *v),
        GroupCondition::ShareCountLessThan(v) => Some(r.share_count < *v),
        GroupCondition::ShareCountIn(v) => Some(i32_in(r.share_count, v)),
        GroupCondition::CreateTime(v) => Some(r.create_time == *v),
        GroupCondition::CreateTimeGreaterThan(v) => Some(r.create_time > *v),
        GroupCondition::CreateTimeLessThan(v) => Some(r.create_time < *v),
        GroupCondition::CreateTimeIn(v) => Some(i64_in(r.create_time, v)),
        GroupCondition::ModifyTime(v) => Some(r.modify_time == *v),
        GroupCondition::ModifyTimeGreaterThan(v) => Some(r.modify_time > *v),
        GroupCondition::ModifyTimeLessThan(v) => Some(r.modify_time < *v),
        GroupCondition::ModifyTimeIn(v) => Some(i64_in(r.modify_time, v)),
        GroupCondition::And(cs) => eval_all_group_conditions(cs, r),
        GroupCondition::Or(cs) => eval_any_group_conditions(cs, r),
        GroupCondition::Not(b) => {
            let x = eval_group_condition(b, r);
            match x {
                Some(t) => Some(!t),
                None => None,
            }
        },
    }
}

/// Evaluates the SQL OR of the conditions of `cs` on the group `r`.
pub fn eval_any_group_conditions(cs: &Vec<GroupCondition>, r: &Group) -> (res: Option<bool>)
    ensures
        res == group_eval_any(cs@, *r),
    decreases cs,
{
    let mut acc: Option<bool> = Some(false);
    let mut k: usize = 0;
    while k < cs.len()
        invariant
            k <= cs@.len(),
            acc == group_eval_any(cs@.take(k as int), *r),
        decreases cs@.len() - k,
    {
        proof {
            assert(cs@.take(k + 1).drop_last() =~= cs@.take(k as int));
        }
        let x = eval_group_condition(&cs[k], r);
        acc = exec_or3(acc, x);
        k = k + 1;
    }
    assert(cs@.take(k as int) =~= cs@);
    acc
}

/// Evaluates the SQL AND of all conditions of `cs` on the group `r`.
pub fn eval_all_group_conditions(cs: &Vec<GroupCondition>, r: &Group) -> (res: Option<bool>)
    ensures
        res == group_eval_all(cs@, *r),
    decreases cs,
{
    let mut acc: Option<bool> = Some(true);
    let mut k: usize = 0;
    while k < cs.len()
        invariant
            k <= cs@.len(),
            acc == group_eval_all(cs@.take(k as int), *r),
        decreases cs@.len() - k,
    {
        proof {
            assert(cs@.take(k + 1).drop_last() =~= cs@.take(k as int));
        }
        let x = eval_group_condition(&cs[k], r);
        acc = exec_and3(acc, x);
        k = k + 1;
    }
    assert(cs@.take(k as int) =~= cs@);
    acc
}


// ---- conditions on tags ----

/// The truth value of condition `c` for the tag `r`.
pub open spec fn tag_eval(c: TagCondition, r: Tag) -> Option<bool>
    decreases c,
{
    match c {
        TagCondition::Id(v) => Some(r.id == v),
        TagCondition::IdGreaterThan(v) => Some(r.id > v),
        TagCondition::IdLessThan(v) => Some(r.id < v),
        TagCondition::IdIn(v) => Some(v@.contains(r.id)),
        TagCondition::Name(v) => Some(r.name@ == v@),
        TagCondition::NameLike(v) => Some(like_match(r.name@, v@)),
        TagCondition::NameIn(v) => Some(exists|k: int| 0 <= k < v@.len() && (#[trigger] v@[k])@ == r.name@),
        TagCondition::ReferenceCount(v) => Some(r.reference_count == v),
        TagCondition::ReferenceCountGreaterThan(v) => Some(r.reference_count > v),
        TagCondition::ReferenceCountLessThan(v) => Some(r.reference_count < v),
        TagCondition::ReferenceCountIn(v) => Some(v@.contains(r.reference_count)),
        TagCondition::And(cs) => tag_eval_all(cs@, r),
        TagCondition::Or(cs) => tag_eval_any(cs@, r),
        TagCondition::Not(b) => not3(tag_eval(*b, r)),
    }
}

/// SQL AND of all of `cs` (true when `cs` is empty).
pub open spec fn tag_eval_all(cs: Seq<TagCondition>, r: Tag) -> Option<bool>
    decreases cs,
{
    if cs.len() == 0 {
        Some(true)
    } else {
        and3(tag_eval_all(cs.drop_last(), r), tag_eval(cs.last(), r))
    }
}

/// SQL OR of all of `cs` (false when `cs` is empty).
pub open spec fn tag_eval_any(cs: Seq<TagCondition>, r: Tag) -> Option<bool>
    decreases cs,
{
    if cs.len() == 0 {
        Some(false)
    } else {
        or3(tag_eval_any(cs.drop_last(), r), tag_eval(cs.last(), r))
    }
}

/// The tags of `rs`, in order, for which every condition of `cs` is true.
pub open spec fn tags_where(rs: Seq<Tag>, cs: Seq<TagCondition>) -> Seq<Tag>
    decreases rs.len(),
{
    if rs.len() == 0 {
        Seq::<Tag>::empty()
    } else {
        let prev = tags_where(rs.drop_last(), cs);
        if tag_eval_all(cs, rs.last()) == Some(true) {
            prev.push(rs.last())
        } else {
            prev
        }
    }
}

/// Evaluates condition `c` on the tag `r`.
pub fn eval_tag_condition(c: &TagCondition, r: &Tag) -> (res: Option<bool>)
    ensures
        res == tag_eval(*c, *r),
    decreases c,
{
    match c {
        TagCondition::Id(v) => Some(r.id == *v),
        TagCondition::IdGreaterThan(v) => Some(r.id > *v),
        TagCondition::IdLessThan(v) => Some(r.id < *v),
        TagCondition::IdIn(v) => Some(i32_in(r.id, v)),
        TagCondition::Name(v) => Some(str_eq(r.name.as_str(), v.as_str())),
        TagCondition::NameLike(v) => Some(like(r.name.as_str(), v.as_str())),
        TagCondition::NameIn(v) => Some(string_in(&r.name, v)),
        TagCondition::ReferenceCount(v) => Some(r.reference_count == *v),
        TagCondition::ReferenceCountGreaterThan(v) => Some(r.reference_count > *v),
        TagCondition::ReferenceCountLessThan(v) => Some(r.reference_count < *v),
        TagCondition::ReferenceCountIn(v) => Some(i32_in(r.reference_count, v)),
        TagCondition::And(cs) => eval_all_tag_conditions(cs, r),
        TagCondition::Or(cs) => eval_any_tag_conditions(cs, r),
        TagCondition::Not(b) => {
            let x = eval_tag_condition(b, r);
            match x {
                Some(t) => Some(!t),
                None => None,
            }
        },
    }
}

/// Evaluates the SQL OR of the conditions of `cs` on the tag `r`.
pub fn eval_any_tag_conditions(cs: &Vec<TagCondition>, r: &Tag) -> (res: Option<bool>)
    ensures
        res == tag_eval_any(cs@, *r),
    decreases cs,
{
    let mut acc: Option<bool> = Some(false);
    let mut k: usize = 0;
    while k < cs.len()
        invariant
            k <= cs@.len(),
            acc == tag_eval_any(cs@.take(k as int), *r),
        decreases cs@.len() - k,
    {
        proof {
            assert(cs@.take(k + 1).drop_last() =~= cs@.take(k as int));
        }
        let x = eval_tag_condition(&cs[k], r);
        acc = exec_or3(acc, x);
        k = k + 1;
    }
    assert(cs@.take(k as int) =~= cs@);
    acc
}

/// Evaluates the SQL AND of all conditions of `cs` on the tag `r`.
pub fn eval_all_tag_conditions(cs: &Vec<TagCondition>, r: &Tag) -> (res: Option<bool>)
    ensures
        res == tag_eval_all(cs@, *r),
    decreases cs,
{
    let mut acc: Option<bool> = Some(true);
    let mut k: usize = 0;
    while k < cs.len()
        invariant
            k <= cs@.len(),
            acc == tag_eval_all(cs@.take(k as int), *r),
        decreases cs@.len() - k,
    {
        proof {
            assert(cs@.take(k + 1).drop_last() =~= cs@.take(k as int));
        }
        let x = eval_tag_condition(&cs[k], r);
        acc = exec_and3(acc, x);
        k = k + 1;
    }
    assert(cs@.take(k as int) =~= cs@);
    acc
}


// ---- conditions on file/group links ----

/// The truth value of condition `c` for the file/group link `r`.
pub open spec fn file_group_eval(c: FileGroupCondition, r: FileGroupDTO) -> Option<bool>
    decreases c,
{
    match c {
        FileGroupCondition::FileId(v) => Some(r.file_id == v),
        FileGroupCondition::FileIdGreaterThan(v) => Some(r.file_id > v),
        FileGroupCondition::FileIdLessThan(v) => Some(r.file_id < v),
        FileGroupCondition::FileIdIn(v) => Some(v@.contains(r.file_id)),
        FileGroupCondition::GroupId(v) => Some(r.group_id == v),
        FileGroupCondition::GroupIdGreaterThan(v) => Some(r.group_id > v),
        FileGroupCondition::GroupIdLessThan(v) => Some(r.group_id < v),
        FileGroupCondition::GroupIdIn(v) => Some(v@.contains(r.group_id)),
        FileGroupCondition::RelationType(v) => Some(r.relation_type == v),
        FileGroupCondition::RelationTypeGreaterThan(v) => Some(r.relation_type > v),
        FileGroupCondition::RelationTypeLessThan(v) => Some(r.relation_type < v),
        FileGroupCondition::RelationTypeIn(v) => Some(v@.contains(r.relation_type)),
        FileGroupCondition::And(cs) => file_group_eval_all(cs@, r),
        FileGroupCondition::Or(cs) => file_group_eval_any(cs@, r),
        FileGroupCondition::Not(b) => not3(file_group_eval(*b, r)),
    }
}

/// SQL AND of all of `cs` (true when `cs` is empty).
pub open spec fn file_group_eval_all(cs: Seq<FileGroupCondition>, r: FileGroupDTO) -> Option<bool>
    decreases cs,
{
    if cs.len() == 0 {
        Some(true)
    } else {
        and3(file_group_eval_all(cs.drop_last(), r), file_group_eval(cs.last(), r))
    }
}

/// SQL OR of all of `cs` (false when `cs` is empty).
pub open spec fn file_group_eval_any(cs: Seq<FileGroupCondition>, r: FileGroupDTO) -> Option<bool>
    decreases cs,
{
    if cs.len() == 0 {
        Some(false)
    } else {
        or3(file_group_eval_any(cs.drop_last(), r), file_group_eval(cs.last(), r))
    }
}

/// The file/group links of `rs`, in order, for which every condition of `cs` is true.
pub open spec fn file_groups_where(rs: Seq<FileGroupDTO>, cs: Seq<FileGroupCondition>) -> Seq<FileGroupDTO>
    decreases rs.len(),
{
    if rs.len() == 0 {
        Seq::<FileGroupDTO>::empty()
    } else {
        let prev = file_groups_where(rs.drop_last(), cs);
        if file_group_eval_all(cs, rs.last()) == Some(true) {
            prev.push(rs.last())
        } else {
            prev
        }
    }
}

/// Evaluates condition `c` on the file/group link `r`.
pub fn eval_file_group_condition(c: &FileGroupCondition, r: &FileGroupDTO) -> (res: Option<bool>)
    ensures
        res == file_group_eval(*c, *r),
    decreases c,
{
    match c {
        FileGroupCondition::FileId(v) => Some(r.file_id == *v),
        FileGroupCondition::FileIdGreaterThan(v) => Some(r.file_id > *v),
        FileGroupCondition::FileIdLessThan(v) => Some(r.file_id < *v),
        FileGroupCondition::FileIdIn(v) => Some(i32_in(r.file_id, v)),
        FileGroupCondition::GroupId(v) => Some(r.group_id == *v),
        FileGroupCondition::GroupIdGreaterThan(v) => Some(r.group_id > *v),
        FileGroupCondition::GroupIdLessThan(v) => Some(r.group_id < *v),
        FileGroupCondition::GroupIdIn(v) => Some(i32_in(r.group_id, v)),
        FileGroupCondition::RelationType(v) => Some(r.relation_type == *v),
        FileGroupCondition::RelationTypeGreaterThan(v) => Some(r.relation_type > *v),
        FileGroupCondition::RelationTypeLessThan(v) => Some(r.relation_type < *v),
        FileGroupCondition::RelationTypeIn(v) => Some(i32_in(r.relation_type, v)),
        FileGroupCondition::And(cs) => eval_all_file_group_conditions(cs, r),
        FileGroupCondition::Or(cs) => eval_any_file_group_conditions(cs, r),
        FileGroupCondition::Not(b) => {
            let x = eval_file_group_condition(b, r);
            match x {
                Some(t) => Some(!t),
                None => None,
            }
        },
    }
}

/// Evaluates the SQL OR of the conditions of `cs` on the file/group link `r`.
pub fn eval_any_file_group_conditions(cs: &Vec<FileGroupCondition>, r: &FileGroupDTO) -> (res: Option<bool>)
    ensures
        res == file_group_eval_any(cs@, *r),
    decreases cs,
{
    let mut acc: Option<bool> = Some(false);
    let mut k: usize = 0;
    while k < cs.len()
        invariant
            k <= cs@.len(),
            acc == file_group_eval_any(cs@.take(k as int), *r),
        decreases cs@.len() - k,
    {
        proof {
            assert(cs@.take(k + 1).drop_last() =~= cs@.take(k as int));
        }
        let x = eval_file_group_condition(&cs[k], r);
        acc = exec_or3(acc, x);
        k = k + 1;
    }
    assert(cs@.take(k as int) =~= cs@);
    acc
}

/// Evaluates the SQL AND of all conditions of `cs` on the file/group link `r`.
pub fn eval_all_file_group_conditions(cs: &Vec<FileGroupCondition>, r: &FileGroupDTO) -> (res: Option<bool>)
    ensures
        res == file_group_eval_all(cs@, *r),
    decreases cs,
{
    let mut acc: Option<bool> = Some(true);
    let mut k: usize = 0;
    while k < cs.len()
        invariant
            k <= cs@.len(),
            acc == file_group_eval_all(cs@.take(k as int), *r),
        decreases cs@.len() - k,
    {
        proof {
            assert(cs@.take(k + 1).drop_last() =~= cs@.take(k as int));
        }
        let x = eval_file_group_condition(&cs[k], r);
        acc = exec_and3(acc, x);
        k = k + 1;
    }
    assert(cs@.take(k as int) =~= cs@);
    acc
}


// ---- conditions on group/tag links ----

/// The truth value of condition `c` for the group/tag link `r`.
pub open spec fn group_tag_eval(c: GroupTagCondition, r: GroupTagDTO) -> Option<bool>
    decreases c,
{
    match c {
        GroupTagCondition::GroupId(v) => Some(r.group_id == v),
        GroupTagCondition::GroupIdGreaterThan(v) => Some(r.group_id > v),
        GroupTagCondition::GroupIdLessThan(v) => Some(r.group_id < v),
        GroupTagCondition::GroupIdIn(v) => Some(v@.contains(r.group_id)),
        GroupTagCondition::TagId(v) => Some(r.tag_id == v),
        GroupTagCondition::TagIdGreaterThan(v) => Some(r.tag_id > v),
        GroupTagCondition::TagIdLessThan(v) => Some(r.tag_id < v),
        GroupTagCondition::TagIdIn(v) => Some(v@.contains(r.tag_id)),
        GroupTagCondition::And(cs) => group_tag_eval_all(cs@, r),
        GroupTagCondition::Or(cs) => group_tag_eval_any(cs@, r),
        GroupTagCondition::Not(b) => not3(group_tag_eval(*b, r)),
    }
}

/// SQL AND of all of `cs` (true when `cs` is empty).
pub open spec fn group_tag_eval_all(cs: Seq<GroupTagCondition>, r: GroupTagDTO) -> Option<bool>
    decreases cs,
{
    if cs.len() == 0 {
        Some(true)
    } else {
        and3(group_tag_eval_all(cs.drop_last(), r), group_tag_eval(cs.last(), r))
    }
}

/// SQL OR of all of `cs` (false when `cs` is empty).
pub open spec fn group_tag_eval_any(cs: Seq<GroupTagCondition>, r: GroupTagDTO) -> Option<bool>
    decreases cs,
{
    if cs.len() == 0 {
        Some(false)
    } else {
        or3(group_tag_eval_any(cs.drop_last(), r), group_tag_eval(cs.last(), r))
    }
}

/// The group/tag links of `rs`, in order, for which every condition of `cs` is true.
pub open spec fn group_tags_where(rs: Seq<GroupTagDTO>, cs: Seq<GroupTagCondition>) -> Seq<GroupTagDTO>
    decreases rs.len(),
{
    if rs.len() == 0 {
        Seq::<GroupTagDTO>::empty()
    } else {
        let prev = group_tags_where(rs.drop_last(), cs);
        if group_tag_eval_all(cs, rs.last()) == Some(true) {
            prev.push(rs.last())
        } else {
            prev
        }
    }
}

/// Evaluates condition `c` on the group/tag link `r`.
pub fn eval_group_tag_condition(c: &GroupTagCondition, r: &GroupTagDTO) -> (res: Option<bool>)
    ensures
        res == group_tag_eval(*c, *r),
    decreases c,
{
    match c {
        GroupTagCondition::GroupId(v) => Some(r.group_id == *v),
        GroupTagCondition::GroupIdGreaterThan(v) => Some(r.group_id > *v),
        GroupTagCondition::GroupIdLessThan(v) => Some(r.group_id < *v),
        GroupTagCondition::GroupIdIn(v) => Some(i32_in(r.group_id, v)),
        GroupTagCondition::TagId(v) => Some(r.tag_id == *v),
        GroupTagCondition::TagIdGreaterThan(v) => Some(r.tag_id > *v),
        GroupTagCondition::TagIdLessThan(v) => Some(r.tag_id < *v),
        GroupTagCondition::TagIdIn(v) => Some(i32_in(r.tag_id, v)),
        GroupTagCondition::And(cs) => eval_all_group_tag_conditions(cs, r),
        GroupTagCondition::Or(cs) => eval_any_group_tag_conditions(cs, r),
        GroupTagCondition::Not(b) => {
            let x = eval_group_tag_condition(b, r);
            match x {
                Some(t) => Some(!t),
                None => None,
            }
        },
    }
}

/// Evaluates the SQL OR of the conditions of `cs` on the group/tag link `r`.
pub fn eval_any_group_tag_conditions(cs: &Vec<GroupTagCondition>, r: &GroupTagDTO) -> (res: Option<bool>)
    ensures
        res == group_tag_eval_any(cs@, *r),
    decreases cs,
{
    let mut acc: Option<bool> = Some(false);
    let mut k: usize = 0;
    while k < cs.len()
        invariant
            k <= cs@.len(),
            acc == group_tag_eval_any(cs@.take(k as int), *r),
        decreases cs@.len() - k,
    {
        proof {
            assert(cs@.take(k + 1).drop_last() =~= cs@.take(k as int));
        }
        let x = eval_group_tag_condition(&cs[k], r);
        acc = exec_or3(acc, x);
        k = k + 1;
    }
    assert(cs@.take(k as int) =~= cs@);
    acc
}

/// Evaluates the SQL AND of all conditions of `cs` on the group/tag link `r`.
pub fn eval_all_group_tag_conditions(cs: &Vec<GroupTagCondition>, r: &GroupTagDTO) -> (res: Option<bool>)
    ensures
        res == group_tag_eval_all(cs@, *r),
    decreases cs,
{
    let mut acc: Option<bool> = Some(true);
    let mut k: usize = 0;
    while k < cs.len()
        invariant
            k <= cs@.len(),
            acc == group_tag_eval_all(cs@.take(k as int), *r),
        decreases cs@.len() - k,
    {
        proof {
            assert(cs@.take(k + 1).drop_last() =~= cs@.take(k as int));
        }
        let x = eval_group_tag_condition(&cs[k], r);
        acc = exec_and3(acc, x);
        k = k + 1;
    }
    assert(cs@.take(k as int) =~= cs@);
    acc
}


// ---- conditions on group relations ----

/// The truth value of condition `c` for the group relation `r`.
pub open spec fn group_relation_eval(c: GroupRelationCondition, r: GroupRelation) -> Option<bool>
    decreases c,
{
    match c {
        GroupRelationCondition::FirstGroupId(v) => Some(r.first_group_id == v),
        GroupRelationCondition::FirstGroupIdGreaterThan(v) => Some(r.first_group_id > v),
        GroupRelationCondition::FirstGroupIdLessThan(v) => Some(r.first_group_id < v),
        GroupRelationCondition::FirstGroupIdIn(v) => Some(v@.contains(r.first_group_id)),
        GroupRelationCondition::SecondGroupId(v) => Some(r.second_group_id == v),
        GroupRelationCondition::SecondGroupIdGreaterThan(v) => Some(r.second_group_id > v),
        GroupRelationCondition::SecondGroupIdLessThan(v) => Some(r.second_group_id < v),
        GroupRelationCondition::SecondGroupIdIn(v) => Some(v@.contains(r.second_group_id)),
        GroupRelationCondition::RelationType(v) => Some(r.relation_type == v),
        GroupRelationCondition::RelationTypeGreaterThan(v) => Some(r.relation_type > v),
        GroupRelationCondition::RelationTypeLessThan(v) => Some(r.relation_type < v),
        GroupRelationCondition::RelationTypeIn(v) => Some(v@.contains(r.relation_type)),
        GroupRelationCondition::And(cs) => group_relation_eval_all(cs@, r),
        GroupRelationCondition::Or(cs) => group_relation_eval_any(cs@, r),
        GroupRelationCondition::Not(b) => not3(group_relation_eval(*b, r)),
    }
}

/// SQL AND of all of `cs` (true when `cs` is empty).
pub open spec fn group_relation_eval_all(cs: Seq<GroupRelationCondition>, r: GroupRelation) -> Option<bool>
    decreases cs,
{
    if cs.len() == 0 {
        Some(true)
    } else {
        and3(group_relation_eval_all(cs.drop_last(), r), group_relation_eval(cs.last(), r))
    }
}

/// SQL OR of all of `cs` (false when `cs` is empty).
pub open spec fn group_relation_eval_any(cs: Seq<GroupRelationCondition>, r: GroupRelation) -> Option<bool>
    decreases cs,
{
    if cs.len() == 0 {
        Some(false)
    } else {
        or3(group_relation_eval_any(cs.drop_last(), r), group_relation_eval(cs.last(), r))
    }
}

/// The group relations of `rs`, in order, for which every condition of `cs` is true.
pub open spec fn group_relations_where(rs: Seq<GroupRelation>, cs: Seq<GroupRelationCondition>) -> Seq<GroupRelation>
    decreases rs.len(),
{
    if rs.len() == 0 {
        Seq::<GroupRelation>::empty()
    } else {
        let prev = group_relations_where(rs.drop_last(), cs);
        if group_relation_eval_all(cs, rs.last()) == Some(true) {
            prev.push(rs.last())
        } else {
            prev
        }
    }
}

/// Evaluates condition `c` on the group relation `r`.
pub fn eval_group_relation_condition(c: &GroupRelationCondition, r: &GroupRelation) -> (res: Option<bool>)
    ensures
        res == group_relation_eval(*c, *r),
    decreases c,
{
    match c {
        GroupRelationCondition::FirstGroupId(v) => Some(r.first_group_id == *v),
        GroupRelationCondition::FirstGroupIdGreaterThan(v) => Some(r.first_group_id > *v),
        GroupRelationCondition::FirstGroupIdLessThan(v) => Some(r.first_group_id < *v),
        GroupRelationCondition::FirstGroupIdIn(v) => Some(i32_in(r.first_group_id, v)),
        GroupRelationCondition::SecondGroupId(v) => Some(r.second_group_id == *v),
        GroupRelationCondition::SecondGroupIdGreaterThan(v) => Some(r.second_group_id > *v),
        GroupRelationCondition::SecondGroupIdLessThan(v) => Some(r.second_group_id < *v),
        GroupRelationCondition::SecondGroupIdIn(v) => Some(i32_in(r.second_group_id, v)),
        GroupRelationCondition::RelationType(v) => Some(r.relation_type == *v),
        GroupRelationCondition::RelationTypeGreaterThan(v) => Some(r.relation_type > *v),
        GroupRelationCondition::RelationTypeLessThan(v) => Some(r.relation_type < *v),
        GroupRelationCondition::RelationTypeIn(v) => Some(i32_in(r.relation_type, v)),
        GroupRelationCondition::And(cs) => eval_all_group_relation_conditions(cs, r),
        GroupRelationCondition::Or(cs) => eval_any_group_relation_conditions(cs, r),
        GroupRelationCondition::Not(b) => {
            let x = eval_group_relation_condition(b, r);
            match x {
                Some(t) => Some(!t),
                None => None,
            }
        },
    }
}

/// Evaluates the SQL OR of the conditions of `cs` on the group relation `r`.
pub fn eval_any_group_relation_conditions(cs: &Vec<GroupRelationCondition>, r: &GroupRelation) -> (res: Option<bool>)
    ensures
        res == group_relation_eval_any(cs@, *r),
    decreases cs,
{
    let mut acc: Option<bool> = Some(false);
    let mut k: usize = 0;
    while k < cs.len()
        invariant
            k <= cs@.len(),
            acc == group_relation_eval_any(cs@.take(k as int), *r),
        decreases cs@.len() - k,
    {
        proof {
            assert(cs@.take(k + 1).drop_last() =~= cs@.take(k as int));
        }
        let x = eval_group_relation_condition(&cs[k], r);
        acc = exec_or3(acc, x);
        k = k + 1;
    }
    assert(cs@.take(k as int) =~= cs@);
    acc
}

/// Evaluates the SQL AND of all conditions of `cs` on the group relation `r`.
pub fn eval_all_group_relation_conditions(cs: &Vec<GroupRelationCondition>, r: &GroupRelation) -> (res: Option<bool>)
    ensures
        res == group_relation_eval_all(cs@, *r),
    decreases cs,
{
    let mut acc: Option<bool> = Some(true);
    let mut k: usize = 0;
    while k < cs.len()
        invariant
            k <= cs@.len(),
            acc == group_relation_eval_all(cs@.take(k as int), *r),
        decreases cs@.len() - k,
    {
        proof {
            assert(cs@.take(k + 1).drop_last() =~= cs@.take(k as int));
        }
        let x = eval_group_relation_condition(&cs[k], r);
        acc = exec_and3(acc, x);
        k = k + 1;
    }
    assert(cs@.take(k as int) =~= cs@);
    acc
}

/// The files that `files_where` keeps are exactly those of `rs` for which every
/// condition of `cs` is true.
pub proof fn lemma_files_where_members(rs: Seq<File>, cs: Seq<FileCondition>)
    ensures
        forall|x: File| #[trigger] files_where(rs, cs).contains(x) <==> (rs.contains(x) && file_eval_all(cs, x) == Some(true)),
    decreases rs.len(),
{
    if rs.len() > 0 {
        let t = rs.drop_last();
        lemma_files_where_members(t, cs);
        let prev = files_where(t, cs);
        assert forall|x: File| #[trigger] files_where(rs, cs).contains(x) <==> (rs.contains(x) && file_eval_all(cs, x) == Some(true)) by {
            let out = files_where(rs, cs);
            assert(out == (if file_eval_all(cs, rs.last()) == Some(true) {
                prev.push(rs.last())
            } else {
                prev
            }));
            if out.contains(x) {
                let q = choose|q: int| 0 <= q < out.len() && out[q] == x;
                if q < prev.len() {
                    assert(prev[q] == x);
                    assert(prev.contains(x));
                    let j = choose|j: int| 0 <= j < t.len() && t[j] == x;
                    assert(rs[j] == x);
                } else {
                    assert(x == rs.last());
                    assert(rs[rs.len() - 1] == x);
                }
            }
            if rs.contains(x) && file_eval_all(cs, x) == Some(true) {
                let j = choose|j: int| 0 <= j < rs.len() && rs[j] == x;
                if j < rs.len() - 1 {
                    assert(t[j] == x);
                    assert(t.contains(x));
                    assert(prev.contains(x));
                    let q = choose|q: int| 0 <= q < prev.len() && prev[q] == x;
                    assert(out[q] == x);
                } else {
                    assert(out[prev.len() as int] == x);
                }
            }
        }
    }
}

/// Adding a condition (when `b`) to a list makes all of them true exactly
/// when the list was and the condition is.
pub proof fn lemma_file_eval_all_push_opt(s: Seq<FileCondition>, b: bool, c: FileCondition, x: File)
    ensures
        (file_eval_all(push_opt(s, b, c), x) == Some(true)) == (file_eval_all(s, x) == Some(true) && (b ==> file_eval(c, x)
            == Some(true))),
{
    if b {
        let t = s.push(c);
        assert(push_opt(s, b, c) == t);
        assert(t.drop_last() =~= s);
        assert(t.last() == c);
        assert(file_eval_all(t, x) == and3(file_eval_all(s, x), file_eval(c, x)));
        let a = file_eval_all(s, x);
        let e = file_eval(c, x);
        if and3(a, e) == Some(true) {
            assert(a != Some(false) && e != Some(false) && a is Some && e is Some);
            assert(a == Some(true)) by {
                assert(a->0 != false);
            }
            assert(e == Some(true)) by {
                assert(e->0 != false);
            }
        }
    } else {
        assert(push_opt(s, b, c) == s);
    }
}

/// The groups that `groups_where` keeps are exactly those of `rs` for which every
/// condition of `cs` is true.
pub proof fn lemma_groups_where_members(rs: Seq<Group>, cs: Seq<GroupCondition>)
    ensures
        forall|x: Group| #[trigger] groups_where(rs, cs).contains(x) <==> (rs.contains(x) && group_eval_all(cs, x) == Some(true)),
    decreases rs.len(),
{
    if rs.len() > 0 {
        let t = rs.drop_last();
        lemma_groups_where_members(t, cs);
        let prev = groups_where(t, cs);
        assert forall|x: Group| #[trigger] groups_where(rs, cs).contains(x) <==> (rs.contains(x) && group_eval_all(cs, x) == Some(true)) by {
            let out = groups_where(rs, cs);
            assert(out == (if group_eval_all(cs, rs.last()) == Some(true) {
                prev.push(rs.last())
            } else {
                prev
            }));
            if out.contains(x) {
                let q = choose|q: int| 0 <= q < out.len() && out[q] == x;
                if q < prev.len() {
                    assert(prev[q] == x);
                    assert(prev.contains(x));
                    let j = choose|j: int| 0 <= j < t.len() && t[j] == x;
                    assert(rs[j] == x);
                } else {
                    assert(x == rs.last());
                    assert(rs[rs.len() - 1] == x);
                }
            }
            if rs.contains(x) && group_eval_all(cs, x) == Some(true) {
                let j = choose|j: int| 0 <= j < rs.len() && rs[j] == x;
                if j < rs.len() - 1 {
                    assert(t[j] == x);
                    assert(t.contains(x));
                    assert(prev.contains(x));
                    let q = choose|q: int| 0 <= q < prev.len() && prev[q] == x;
                    assert(out[q] == x);
                } else {
                    assert(out[prev.len() as int] == x);
                }
            }
        }
    }
}

/// Adding a condition (when `b`) to a list makes all of them true exactly
/// when the list was and the condition is.
pub proof fn lemma_group_eval_all_push_opt(s: Seq<GroupCondition>, b: bool, c: GroupCondition, x: Group)
    ensures
        (group_eval_all(push_opt(s, b, c), x) == Some(true)) == (group_eval_all(s, x) == Some(true) && (b ==> group_eval(c, x)
            == Some(true))),
{
    if b {
        let t = s.push(c);
        assert(push_opt(s, b, c) == t);
        assert(t.drop_last() =~= s);
        assert(t.last() == c);
        assert(group_eval_all(t, x) == and3(group_eval_all(s, x), group_eval(c, x)));
        let a = group_eval_all(s, x);
        let e = group_eval(c, x);
        if and3(a, e) == Some(true) {
            assert(a != Some(false) && e != Some(false) && a is Some && e is Some);
            assert(a == Some(true)) by {
                assert(a->0 != false);
            }
            assert(e == Some(true)) by {
                assert(e->0 != false);
            }
        }
    } else {
        assert(push_opt(s, b, c) == s);
    }
}

/// The tags that `tags_where` keeps are exactly those of `rs` for which every
/// condition of `cs` is true.
pub proof fn lemma_tags_where_members(rs: Seq<Tag>, cs: Seq<TagCondition>)
    ensures
        forall|x: Tag| #[trigger] tags_where(rs, cs).contains(x) <==> (rs.contains(x) && tag_eval_all(cs, x) == Some(true)),
    decreases rs.len(),
{
    if rs.len() > 0 {
        let t = rs.drop_last();
        lemma_tags_where_members(t, cs);
        let prev = tags_where(t, cs);
        assert forall|x: Tag| #[trigger] tags_where(rs, cs).contains(x) <==> (rs.contains(x) && tag_eval_all(cs, x) == Some(true)) by {
            let out = tags_where(rs, cs);
            assert(out == (if tag_eval_all(cs, rs.last()) == Some(true) {
                prev.push(rs.last())
            } else {
                prev
            }));
            if out.contains(x) {
                let q = choose|q: int| 0 <= q < out.len() && out[q] == x;
                if q < prev.len() {
                    assert(prev[q] == x);
                    assert(prev.contains(x));
                    let j = choose|j: int| 0 <= j < t.len() && t[j] == x;
                    assert(rs[j] == x);
                } else {
                    assert(x == rs.last());
                    assert(rs[rs.len() - 1] == x);
                }
            }
            if rs.contains(x) && tag_eval_all(cs, x) == Some(true) {
                let j = choose|j: int| 0 <= j < rs.len() && rs[j] == x;
                if j < rs.len() - 1 {
                    assert(t[j] == x);
                    assert(t.contains(x));
                    assert(prev.contains(x));
                    let q = choose|q: int| 0 <= q < prev.len() && prev[q] == x;
                    assert(out[q] == x);
                } else {
                    assert(out[prev.len() as int] == x);
                }
            }
        }
    }
}

/// Adding a condition (when `b`) to a list makes all of them true exactly
/// when the list was and the condition is.
pub proof fn lemma_tag_eval_all_push_opt(s: Seq<TagCondition>, b: bool, c: TagCondition, x: Tag)
    ensures
        (tag_eval_all(push_opt(s, b, c), x) == Some(true)) == (tag_eval_all(s, x) == Some(true) && (b ==> tag_eval(c, x)
            == Some(true))),
{
    if b {
        let t = s.push(c);
        assert(push_opt(s, b, c) == t);
        assert(t.drop_last() =~= s);
        assert(t.last() == c);
        assert(tag_eval_all(t, x) == and3(tag_eval_all(s, x), tag_eval(c, x)));
        let a = tag_eval_all(s, x);
        let e = tag_eval(c, x);
        if and3(a, e) == Some(true) {
            assert(a != Some(false) && e != Some(false) && a is Some && e is Some);
            assert(a == Some(true)) by {
                assert(a->0 != false);
            }
            assert(e == Some(true)) by {
                assert(e->0 != false);
            }
        }
    } else {
        assert(push_opt(s, b, c) == s);
    }
}

/// A window that an offset and a limit cut from `s` is a run of `s`: its
/// elements are those of `s` from some position `d` on.
pub proof fn lemma_window<A>(s: Seq<A>, offset: Option<i64>, limit: Option<i64>) -> (d: int)
    ensures
        0 <= d,
        d + take_limit(skip_offset(s, offset), limit).len() <= s.len(),
        forall|i: int|
            0 <= i < take_limit(skip_offset(s, offset), limit).len() ==> #[trigger] take_limit(skip_offset(s, offset), limit)[i]
                == s[i + d],
{
    match offset {
        Some(n) => if n <= 0 {
            0
        } else if n < s.len() {
            n as int
        } else {
            0
        },
        None => 0,
    }
}

/// The pattern `%` alone matches every text.
pub proof fn law_like_percent_matches_all(s: Seq<char>)
    ensures
        like_match(s, seq!['%']),
    decreases s.len(),
{
    let p = seq!['%'];
    assert(p.len() == 1 && p[0] == '%');
    assert(p.drop_first() =~= Seq::<char>::empty());
    assert(like_match(s, p) == (like_match(s, p.drop_first()) || (s.len() > 0 && like_match(s.drop_first(), p))));
    if s.len() > 0 {
        law_like_percent_matches_all(s.drop_first());
    }
}

/// A text without `%` matches itself as a pattern.
pub proof fn law_like_text_matches_itself(s: Seq<char>)
    requires
        !s.contains('%'),
    ensures
        like_match(s, s),
    decreases s.len(),
{
    if s.len() > 0 {
        assert(!s.drop_first().contains('%')) by {
            if s.drop_first().contains('%') {
                let k = choose|k: int| 0 <= k < s.drop_first().len() && s.drop_first()[k] == '%';
                assert(s[k + 1] == '%');
            }
        }
        assert(s[0] != '%') by {
            if s[0] == '%' {
                assert(s.contains('%'));
            }
        }
        law_like_text_matches_itself(s.drop_first());
    }
}

/// A pattern without `%` matches only texts of its own length.
pub proof fn law_like_fixed_length(s: Seq<char>, p: Seq<char>)
    requires
        !p.contains('%'),
        like_match(s, p),
    ensures
        s.len() == p.len(),
    decreases p.len(),
{
    if p.len() > 0 {
        assert(p[0] != '%') by {
            if p[0] == '%' {
                assert(p.contains('%'));
            }
        }
        assert(!p.drop_first().contains('%')) by {
            if p.drop_first().contains('%') {
                let k = choose|k: int| 0 <= k < p.drop_first().len() && p.drop_first()[k] == '%';
                assert(p[k + 1] == '%');
            }
        }
        law_like_fixed_length(s.drop_first(), p.drop_first());
    }
}

/// A pattern without `%` and `_` matches a text of the same length exactly
/// when the two agree at every position up to ASCII case.
pub proof fn law_like_plain_pattern(s: Seq<char>, p: Seq<char>)
    requires
        !p.contains('%'),
        !p.contains('_'),
        s.len() == p.len(),
    ensures
        like_match(s, p) == (forall|i: int| 0 <= i < p.len() ==> #[trigger] ascii_lower(p[i]) == ascii_lower(s[i])),
    decreases p.len(),
{
    if p.len() > 0 {
        assert(p[0] != '%' && p[0] != '_') by {
            if p[0] == '%' {
                assert(p.contains('%'));
            }
            if p[0] == '_' {
                assert(p.contains('_'));
            }
        }
        let p2 = p.drop_first();
        let s2 = s.drop_first();
        assert(!p2.contains('%') && !p2.contains('_')) by {
            if p2.contains('%') {
                let k = choose|k: int| 0 <= k < p2.len() && p2[k] == '%';
                assert(p[k + 1] == '%');
            }
            if p2.contains('_') {
                let k = choose|k: int| 0 <= k < p2.len() && p2[k] == '_';
                assert(p[k + 1] == '_');
            }
        }
        law_like_plain_pattern(s2, p2);
        if forall|i: int| 0 <= i < p.len() ==> #[trigger] ascii_lower(p[i]) == ascii_lower(s[i]) {
            assert forall|i: int| 0 <= i < p2.len() implies #[trigger] ascii_lower(p2[i]) == ascii_lower(s2[i]) by {
                assert(ascii_lower(p[i + 1]) == ascii_lower(s[i + 1]));
            }
            assert(ascii_lower(p[0]) == ascii_lower(s[0]));
        }
        if like_match(s, p) {
            assert forall|i: int| 0 <= i < p.len() implies #[trigger] ascii_lower(p[i]) == ascii_lower(s[i]) by {
                if i > 0 {
                    assert(ascii_lower(p2[i - 1]) == ascii_lower(s2[i - 1]));
                }
            }
        }
    }
}

/// A limit `n` that is not negative keeps the first `n` elements (all of
/// them when there are fewer); an offset `n` above zero drops the first
/// `n` elements (all of them when there are fewer).
pub proof fn law_limit_and_offset<A>(s: Seq<A>, n: i64)
    ensures
        0 <= n ==> take_limit(s, Some(n)) == s.take(if n < s.len() { n as int } else { s.len() as int }),
        0 < n ==> skip_offset(s, Some(n)) == s.skip(if n < s.len() { n as int } else { s.len() as int }),
        take_limit(s, None) == s,
        skip_offset(s, None) == s,
{
    if 0 <= n && n >= s.len() {
        assert(s.take(s.len() as int) =~= s);
    }
    if 0 < n && n >= s.len() {
        assert(s.skip(s.len() as int) =~= Seq::<A>::empty());
    }
}

} // verus!

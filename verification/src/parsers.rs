//! Parsers for the command-line forms of query conditions (`key value`
//! pairs) and orderings (`field:direction` words).
use vstd::prelude::*;
use vstd::string::*;
use crate::models::{
    FileCondition, FileGroupCondition, FileGroupOrderBy, FileOrderBy, GroupCondition,
    GroupOrderBy, GroupRelationCondition, GroupRelationOrderBy, GroupTagCondition,
    GroupTagOrderBy, OrderDirection, TagCondition, TagOrderBy,
};
use crate::models::{File, FileGroupDTO, Group, GroupRelation, GroupTagDTO, Tag};
use crate::query::{file_eval, group_eval, like_match, tag_eval};
use crate::sorting::{file_before, flag_value, group_before, int_before, tag_before, text_before};
use crate::text::{
    lowercase_is, lowers_to, parse_bool, parse_i32, spec_parse_bool, spec_parse_i32, spec_split,
    split_on, str_eq,
};

verus! {

/// What `s.split(',').map(|x| x.parse::<i32>()).collect::<Result<Vec<_>, _>>()`
/// gives: every piece must parse.
pub open spec fn spec_parse_i32_list(s: Seq<char>) -> Option<Seq<i32>> {
    let parts = spec_split(s, ',');
    if forall|k: int| 0 <= k < parts.len() ==> (#[trigger] spec_parse_i32(parts[k])) is Some {
        Some(Seq::new(parts.len(), |k: int| spec_parse_i32(parts[k]).unwrap()))
    } else {
        None
    }
}

/// The strings `vs` read as the character sequences `ss`.
pub open spec fn strings_are(vs: Seq<String>, ss: Seq<Seq<char>>) -> bool {
    &&& vs.len() == ss.len()
    &&& forall|k: int| 0 <= k < vs.len() ==> (#[trigger] vs[k])@ == ss[k]
}

/// The arguments as character sequences.
pub open spec fn arg_views(args: Seq<String>) -> Seq<Seq<char>> {
    args.map_values(|s: String| s@)
}

/// Parses a comma separated list of `i32` values; `None` when any piece
/// fails to parse.
pub fn parse_i32_list(s: &str) -> (r: Option<Vec<i32>>)
    ensures
        match r {
            Some(v) => spec_parse_i32_list(s@) == Some(v@),
            None => spec_parse_i32_list(s@) is None,
        },
{
    let parts = split_on(s, ',');
    let ghost ps = spec_split(s@, ',');
    let mut values: Vec<i32> = Vec::new();
    let mut k: usize = 0;
    while k < parts.len()
        invariant
            parts@.len() == ps.len(),
            forall|j: int| 0 <= j < parts@.len() ==> #[trigger] parts@[j]@ == ps[j],
            ps == spec_split(s@, ','),
            k <= parts@.len(),
            values@.len() == k,
            forall|j: int| 0 <= j < k ==> spec_parse_i32(ps[j]) == Some(#[trigger] values@[j]),
        decreases parts@.len() - k,
    {
        match parse_i32(parts[k].as_str()) {
            Some(v) => {
                values.push(v);
            },
            None => {
                assert(spec_parse_i32(ps[k as int]) is None);
                return None;
            },
        }
        k = k + 1;
    }
    assert forall|j: int| 0 <= j < ps.len() implies (#[trigger] spec_parse_i32(ps[j])) is Some by {
        assert(spec_parse_i32(ps[j]) == Some(values@[j]));
    }
    assert(values@ =~= Seq::new(ps.len(), |j: int| spec_parse_i32(ps[j]).unwrap())) by {
        assert forall|j: int| 0 <= j < ps.len() implies values@[j] == spec_parse_i32(ps[j]).unwrap() by {
            assert(spec_parse_i32(ps[j]) == Some(values@[j]));
        }
    }
    Some(values)
}

/// Splits a comma separated list of strings.
pub fn parse_string_list(s: &str) -> (r: Vec<String>)
    ensures
        strings_are(r@, spec_split(s@, ',')),
{
    split_on(s, ',')
}


// ---- conditions on files ----

/// `key` names a condition on files.
pub open spec fn file_condition_key(key: Seq<char>) -> bool {
    key == "id"@
    || key == "id_gt"@
    || key == "id_lt"@
    || key == "id_in"@
    || key == "type"@
    || key == "type_like"@
    || key == "type_in"@
    || key == "path"@
    || key == "path_like"@
    || key == "path_in"@
    || key == "ref_count"@
    || key == "ref_count_gt"@
    || key == "ref_count_lt"@
    || key == "ref_count_in"@
    || key == "group_id"@
    || key == "group_id_gt"@
    || key == "group_id_lt"@
    || key == "group_id_in"@
}

/// The value `val` given for `key` is well formed.
pub open spec fn file_condition_yields(key: Seq<char>, val: Seq<char>) -> bool {
    if key == "id"@ {
        spec_parse_i32(val) is Some
    } else if key == "id_gt"@ {
        spec_parse_i32(val) is Some
    } else if key == "id_lt"@ {
        spec_parse_i32(val) is Some
    } else if key == "id_in"@ {
        spec_parse_i32_list(val) is Some
    } else if key == "type"@ {
        true
    } else if key == "type_like"@ {
        true
    } else if key == "type_in"@ {
        true
    } else if key == "path"@ {
        true
    } else if key == "path_like"@ {
        true
    } else if key == "path_in"@ {
        true
    } else if key == "ref_count"@ {
        spec_parse_i32(val) is Some
    } else if key == "ref_count_gt"@ {
        spec_parse_i32(val) is Some
    } else if key == "ref_count_lt"@ {
        spec_parse_i32(val) is Some
    } else if key == "ref_count_in"@ {
        spec_parse_i32_list(val) is Some
    } else if key == "group_id"@ {
        spec_parse_i32(val) is Some
    } else if key == "group_id_gt"@ {
        spec_parse_i32(val) is Some
    } else if key == "group_id_lt"@ {
        spec_parse_i32(val) is Some
    } else if key == "group_id_in"@ {
        spec_parse_i32_list(val) is Some
    } else {
        false
    }
}

/// `c` is the condition that `key` and `val` stand for.
pub open spec fn file_condition_parsed(key: Seq<char>, val: Seq<char>, c: FileCondition) -> bool {
    if key == "id"@ {
        c matches FileCondition::Id(v) && spec_parse_i32(val) == Some(v)
    } else if key == "id_gt"@ {
        c matches FileCondition::IdGreaterThan(v) && spec_parse_i32(val) == Some(v)
    } else if key == "id_lt"@ {
        c matches FileCondition::IdLessThan(v) && spec_parse_i32(val) == Some(v)
    } else if key == "id_in"@ {
        c matches FileCondition::IdIn(vs) && spec_parse_i32_list(val) == Some(vs@)
    } else if key == "type"@ {
        c matches FileCondition::Type(v) && v@ == val
    } else if key == "type_like"@ {
        c matches FileCondition::TypeLike(v) && v@ == val
    } else if key == "type_in"@ {
        c matches FileCondition::TypeIn(vs) && strings_are(vs@, spec_split(val, ','))
    } else if key == "path"@ {
        c matches FileCondition::Path(v) && v@ == val
    } else if key == "path_like"@ {
        c matches FileCondition::PathLike(v) && v@ == val
    } else if key == "path_in"@ {
        c matches FileCondition::PathIn(vs) && strings_are(vs@, spec_split(val, ','))
    } else if key == "ref_count"@ {
        c matches FileCondition::ReferenceCount(v) && spec_parse_i32(val) == Some(v)
    } else if key == "ref_count_gt"@ {
        c matches FileCondition::ReferenceCountGreaterThan(v) && spec_parse_i32(val) == Some(v)
    } else if key == "ref_count_lt"@ {
        c matches FileCondition::ReferenceCountLessThan(v) && spec_parse_i32(val) == Some(v)
    } else if key == "ref_count_in"@ {
        c matches FileCondition::ReferenceCountIn(vs) && spec_parse_i32_list(val) == Some(vs@)
    } else if key == "group_id"@ {
        c matches FileCondition::GroupId(v) && spec_parse_i32(val) == Some(v)
    } else if key == "group_id_gt"@ {
        c matches FileCondition::GroupIdGreaterThan(v) && spec_parse_i32(val) == Some(v)
    } else if key == "group_id_lt"@ {
        c matches FileCondition::GroupIdLessThan(v) && spec_parse_i32(val) == Some(v)
    } else if key == "group_id_in"@ {
        c matches FileCondition::GroupIdIn(vs) && spec_parse_i32_list(val) == Some(vs@)
    } else {
        false
    }
}

/// `out` is what parsing `args` from position `i` on gives: a known key
/// followed by a value consumes both words and yields a condition when the
/// value is well formed; any other word is skipped.
pub open spec fn file_conditions_from(args: Seq<Seq<char>>, i: int, out: Seq<FileCondition>) -> bool
    decreases args.len() - i,
{
    if i < 0 || i >= args.len() {
        out.len() == 0
    } else if i + 1 < args.len() && file_condition_key(args[i]) {
        if file_condition_yields(args[i], args[i + 1]) {
            &&& out.len() > 0
            &&& file_condition_parsed(args[i], args[i + 1], out[0])
            &&& file_conditions_from(args, i + 2, out.drop_first())
        } else {
            file_conditions_from(args, i + 2, out)
        }
    } else {
        file_conditions_from(args, i + 1, out)
    }
}

/// The condition for one `key value` pair: `None` for an unknown key,
/// `Some(None)` for a malformed value.
fn file_condition_from(key: &str, val: &str) -> (r: Option<Option<FileCondition>>)
    ensures
        r is None <==> !file_condition_key(key@),
        r matches Some(x) ==> (x is Some <==> file_condition_yields(key@, val@)),
        r matches Some(Some(c)) ==> file_condition_parsed(key@, val@, c),
{
    if str_eq(key, "id") {
        match parse_i32(val) {
            Some(v) => Some(Some(FileCondition::Id(v))),
            None => Some(None),
        }
    } else if str_eq(key, "id_gt") {
        match parse_i32(val) {
            Some(v) => Some(Some(FileCondition::IdGreaterThan(v))),
            None => Some(None),
        }
    } else if str_eq(key, "id_lt") {
        match parse_i32(val) {
            Some(v) => Some(Some(FileCondition::IdLessThan(v))),
            None => Some(None),
        }
    } else if str_eq(key, "id_in") {
        match parse_i32_list(val) {
            Some(vs) => Some(Some(FileCondition::IdIn(vs))),
            None => Some(None),
        }
    } else if str_eq(key, "type") {
        Some(Some(FileCondition::Type(val.to_string())))
    } else if str_eq(key, "type_like") {
        Some(Some(FileCondition::TypeLike(val.to_string())))
    } else if str_eq(key, "type_in") {
        Some(Some(FileCondition::TypeIn(parse_string_list(val))))
    } else if str_eq(key, "path") {
        Some(Some(FileCondition::Path(val.to_string())))
    } else if str_eq(key, "path_like") {
        Some(Some(FileCondition::PathLike(val.to_string())))
    } else if str_eq(key, "path_in") {
        Some(Some(FileCondition::PathIn(parse_string_list(val))))
    } else if str_eq(key, "ref_count") {
        match parse_i32(val) {
            Some(v) => Some(Some(FileCondition::ReferenceCount(v))),
            None => Some(None),
        }
    } else if str_eq(key, "ref_count_gt") {
        match parse_i32(val) {
            Some(v) => Some(Some(FileCondition::ReferenceCountGreaterThan(v))),
            None => Some(None),
        }
    } else if str_eq(key, "ref_count_lt") {
        match parse_i32(val) {
            Some(v) => Some(Some(FileCondition::ReferenceCountLessThan(v))),
            None => Some(None),
        }
    } else if str_eq(key, "ref_count_in") {
        match parse_i32_list(val) {
            Some(vs) => Some(Some(FileCondition::ReferenceCountIn(vs))),
            None => Some(None),
        }
    } else if str_eq(key, "group_id") {
        match parse_i32(val) {
            Some(v) => Some(Some(FileCondition::GroupId(v))),
            None => Some(None),
        }
    } else if str_eq(key, "group_id_gt") {
        match parse_i32(val) {
            Some(v) => Some(Some(FileCondition::GroupIdGreaterThan(v))),
            None => Some(None),
        }
    } else if str_eq(key, "group_id_lt") {
        match parse_i32(val) {
            Some(v) => Some(Some(FileCondition::GroupIdLessThan(v))),
            None => Some(None),
        }
    } else if str_eq(key, "group_id_in") {
        match parse_i32_list(val) {
            Some(vs) => Some(Some(FileCondition::GroupIdIn(vs))),
            None => Some(None),
        }
    } else {
        None
    }
}

/// Parses conditions on files from `key value` argument pairs.
pub fn parse_file_conditions(args: &[String]) -> (r: Vec<FileCondition>)
    ensures
        file_conditions_from(arg_views(args@), 0, r@),
{
    let ghost a = arg_views(args@);
    let mut conditions: Vec<FileCondition> = Vec::new();
    let mut i: usize = 0;
    while i < args.len()
        invariant
            a == arg_views(args@),
            a.len() == args@.len(),
            i <= args@.len(),
            forall|tail: Seq<FileCondition>|
                #[trigger] file_conditions_from(a, i as int, tail) ==> file_conditions_from(
                    a,
                    0,
                    conditions@ + tail,
                ),
        decreases args@.len() - i,
    {
        let ghost old_conditions = conditions@;
        if i + 1 < args.len() {
            let key = args[i].as_str();
            let val = args[i + 1].as_str();
            assert(a[i as int] == key@ && a[i + 1] == val@);
            match file_condition_from(key, val) {
                Some(Some(c)) => {
                    conditions.push(c);
                    proof {
                        assert forall|tail: Seq<FileCondition>|
                            #[trigger] file_conditions_from(a, i + 2, tail) implies file_conditions_from(
                                a,
                                0,
                                conditions@ + tail,
                            ) by {
                            let t2 = seq![c] + tail;
                            assert(t2.drop_first() =~= tail);
                            assert(file_conditions_from(a, i as int, t2));
                            assert(old_conditions + t2 =~= conditions@ + tail);
                        }
                    }
                    i = i + 2;
                },
                Some(None) => {
                    proof {
                        assert forall|tail: Seq<FileCondition>|
                            #[trigger] file_conditions_from(a, i + 2, tail) implies file_conditions_from(
                                a,
                                0,
                                conditions@ + tail,
                            ) by {
                            assert(file_conditions_from(a, i as int, tail));
                        }
                    }
                    i = i + 2;
                },
                None => {
                    proof {
                        assert forall|tail: Seq<FileCondition>|
                            #[trigger] file_conditions_from(a, i + 1, tail) implies file_conditions_from(
                                a,
                                0,
                                conditions@ + tail,
                            ) by {
                            assert(file_conditions_from(a, i as int, tail));
                        }
                    }
                    i = i + 1;
                },
            }
        } else {
            proof {
                assert forall|tail: Seq<FileCondition>|
                    #[trigger] file_conditions_from(a, i + 1, tail) implies file_conditions_from(
                        a,
                        0,
                        conditions@ + tail,
                    ) by {
                    assert(file_conditions_from(a, i as int, tail));
                }
            }
            i = i + 1;
        }
    }
    assert(file_conditions_from(a, i as int, Seq::<FileCondition>::empty()));
    assert(conditions@ + Seq::<FileCondition>::empty() =~= conditions@);
    conditions
}


// ---- conditions on groups ----

/// `key` names a condition on groups.
pub open spec fn group_condition_key(key: Seq<char>) -> bool {
    key == "id"@
    || key == "id_gt"@
    || key == "id_lt"@
    || key == "id_in"@
    || key == "name"@
    || key == "name_like"@
    || key == "name_in"@
    || key == "ref_count"@
    || key == "ref_count_gt"@
    || key == "ref_count_lt"@
    || key == "ref_count_in"@
    || key == "is_primary"@
    || key == "click_count"@
    || key == "click_count_gt"@
    || key == "click_count_lt"@
    || key == "click_count_in"@
    || key == "share_count"@
    || key == "share_count_gt"@
    || key == "share_count_lt"@
    || key == "share_count_in"@
}

/// The value `val` given for `key` is well formed.
pub open spec fn group_condition_yields(key: Seq<char>, val: Seq<char>) -> bool {
    if key == "id"@ {
        spec_parse_i32(val) is Some
    } else if key == "id_gt"@ {
        spec_parse_i32(val) is Some
    } else if key == "id_lt"@ {
        spec_parse_i32(val) is Some
    } else if key == "id_in"@ {
        spec_parse_i32_list(val) is Some
    } else if key == "name"@ {
        true
    } else if key == "name_like"@ {
        true
    } else if key == "name_in"@ {
        true
    } else if key == "ref_count"@ {
        spec_parse_i32(val) is Some
    } else if key == "ref_count_gt"@ {
        spec_parse_i32(val) is Some
    } else if key == "ref_count_lt"@ {
        spec_parse_i32(val) is Some
    } else if key == "ref_count_in"@ {
        spec_parse_i32_list(val) is Some
    } else if key == "is_primary"@ {
        spec_parse_bool(val) is Some
    } else if key == "click_count"@ {
        spec_parse_i32(val) is Some
    } else if key == "click_count_gt"@ {
        spec_parse_i32(val) is Some
    } else if key == "click_count_lt"@ {
        spec_parse_i32(val) is Some
    } else if key == "click_count_in"@ {
        spec_parse_i32_list(val) is Some
    } else if key == "share_count"@ {
        spec_parse_i32(val) is Some
    } else if key == "share_count_gt"@ {
        spec_parse_i32(val) is Some
    } else if key == "share_count_lt"@ {
        spec_parse_i32(val) is Some
    } else if key == "share_count_in"@ {
        spec_parse_i32_list(val) is Some
    } else {
        false
    }
}

/// `c` is the condition that `key` and `val` stand for.
pub open spec fn group_condition_parsed(key: Seq<char>, val: Seq<char>, c: GroupCondition) -> bool {
    if key == "id"@ {
        c matches GroupCondition::Id(v) && spec_parse_i32(val) == Some(v)
    } else if key == "id_gt"@ {
        c matches GroupCondition::IdGreaterThan(v) && spec_parse_i32(val) == Some(v)
    } else if key == "id_lt"@ {
        c matches GroupCondition::IdLessThan(v) && spec_parse_i32(val) == Some(v)
    } else if key == "id_in"@ {
        c matches GroupCondition::IdIn(vs) && spec_parse_i32_list(val) == Some(vs@)
    } else if key == "name"@ {
        c matches GroupCondition::Name(v) && v@ == val
    } else if key == "name_like"@ {
        c matches GroupCondition::NameLike(v) && v@ == val
    } else if key == "name_in"@ {
        c matches GroupCondition::NameIn(vs) && strings_are(vs@, spec_split(val, ','))
    } else if key == "ref_count"@ {
        c matches GroupCondition::ReferenceCount(v) && spec_parse_i32(val) == Some(v)
    } else if key == "ref_count_gt"@ {
        c matches GroupCondition::ReferenceCountGreaterThan(v) && spec_parse_i32(val) == Some(v)
    } else if key == "ref_count_lt"@ {
        c matches GroupCondition::ReferenceCountLessThan(v) && spec_parse_i32(val) == Some(v)
    } else if key == "ref_count_in"@ {
        c matches GroupCondition::ReferenceCountIn(vs) && spec_parse_i32_list(val) == Some(vs@)
    } else if key == "is_primary"@ {
        c matches GroupCondition::IsPrimary(v) && spec_parse_bool(val) == Some(v)
    } else if key == "click_count"@ {
        c matches GroupCondition::ClickCount(v) && spec_parse_i32(val) == Some(v)
    } else if key == "click_count_gt"@ {
        c matches GroupCondition::ClickCountGreaterThan(v) && spec_parse_i32(val) == Some(v)
    } else if key == "click_count_lt"@ {
        c matches GroupCondition::ClickCountLessThan(v) && spec_parse_i32(val) == Some(v)
    } else if key == "click_count_in"@ {
        c matches GroupCondition::ClickCountIn(vs) && spec_parse_i32_list(val) == Some(vs@)
    } else if key == "share_count"@ {
        c matches GroupCondition::ShareCount(v) && spec_parse_i32(val) == Some(v)
    } else if key == "share_count_gt"@ {
        c matches GroupCondition::ShareCountGreaterThan(v) && spec_parse_i32(val) == Some(v)
    } else if key == "share_count_lt"@ {
        c matches GroupCondition::ShareCountLessThan(v) && spec_parse_i32(val) == Some(v)
    } else if key == "share_count_in"@ {
        c matches GroupCondition::ShareCountIn(vs) && spec_parse_i32_list(val) == Some(vs@)
    } else {
        false
    }
}

/// `out` is what parsing `args` from position `i` on gives: a known key
/// followed by a value consumes both words and yields a condition when the
/// value is well formed; any other word is skipped.
pub open spec fn group_conditions_from(args: Seq<Seq<char>>, i: int, out: Seq<GroupCondition>) -> bool
    decreases args.len() - i,
{
    if i < 0 || i >= args.len() {
        out.len() == 0
    } else if i + 1 < args.len() && group_condition_key(args[i]) {
        if group_condition_yields(args[i], args[i + 1]) {
            &&& out.len() > 0
            &&& group_condition_parsed(args[i], args[i + 1], out[0])
            &&& group_conditions_from(args, i + 2, out.drop_first())
        } else {
            group_conditions_from(args, i + 2, out)
        }
    } else {
        group_conditions_from(args, i + 1, out)
    }
}

/// The condition for one `key value` pair: `None` for an unknown key,
/// `Some(None)` for a malformed value.
fn group_condition_from(key: &str, val: &str) -> (r: Option<Option<GroupCondition>>)
    ensures
        r is None <==> !group_condition_key(key@),
        r matches Some(x) ==> (x is Some <==> group_condition_yields(key@, val@)),
        r matches Some(Some(c)) ==> group_condition_parsed(key@, val@, c),
{
    if str_eq(key, "id") {
        match parse_i32(val) {
            Some(v) => Some(Some(GroupCondition::Id(v))),
            None => Some(None),
        }
    } else if str_eq(key, "id_gt") {
        match parse_i32(val) {
            Some(v) => Some(Some(GroupCondition::IdGreaterThan(v))),
            None => Some(None),
        }
    } else if str_eq(key, "id_lt") {
        match parse_i32(val) {
            Some(v) => Some(Some(GroupCondition::IdLessThan(v))),
            None => Some(None),
        }
    } else if str_eq(key, "id_in") {
        match parse_i32_list(val) {
            Some(vs) => Some(Some(GroupCondition::IdIn(vs))),
            None => Some(None),
        }
    } else if str_eq(key, "name") {
        Some(Some(GroupCondition::Name(val.to_string())))
    } else if str_eq(key, "name_like") {
        Some(Some(GroupCondition::NameLike(val.to_string())))
    } else if str_eq(key, "name_in") {
        Some(Some(GroupCondition::NameIn(parse_string_list(val))))
    } else if str_eq(key, "ref_count") {
        match parse_i32(val) {
            Some(v) => Some(Some(GroupCondition::ReferenceCount(v))),
            None => Some(None),
        }
    } else if str_eq(key, "ref_count_gt") {
        match parse_i32(val) {
            Some(v) => Some(Some(GroupCondition::ReferenceCountGreaterThan(v))),
            None => Some(None),
        }
    } else if str_eq(key, "ref_count_lt") {
        match parse_i32(val) {
            Some(v) => Some(Some(GroupCondition::ReferenceCountLessThan(v))),
            None => Some(None),
        }
    } else if str_eq(key, "ref_count_in") {
        match parse_i32_list(val) {
            Some(vs) => Some(Some(GroupCondition::ReferenceCountIn(vs))),
            None => Some(None),
        }
    } else if str_eq(key, "is_primary") {
        match parse_bool(val) {
            Some(v) => Some(Some(GroupCondition::IsPrimary(v))),
            None => Some(None),
        }
    } else if str_eq(key, "click_count") {
        match parse_i32(val) {
            Some(v) => Some(Some(GroupCondition::ClickCount(v))),
            None => Some(None),
        }
    } else if str_eq(key, "click_count_gt") {
        match parse_i32(val) {
            Some(v) => Some(Some(GroupCondition::ClickCountGreaterThan(v))),
            None => Some(None),
        }
    } else if str_eq(key, "click_count_lt") {
        match parse_i32(val) {
            Some(v) => Some(Some(GroupCondition::ClickCountLessThan(v))),
            None => Some(None),
        }
    } else if str_eq(key, "click_count_in") {
        match parse_i32_list(val) {
            Some(vs) => Some(Some(GroupCondition::ClickCountIn(vs))),
            None => Some(None),
        }
    } else if str_eq(key, "share_count") {
        match parse_i32(val) {
            Some(v) => Some(Some(GroupCondition::ShareCount(v))),
            None => Some(None),
        }
    } else if str_eq(key, "share_count_gt") {
        match parse_i32(val) {
            Some(v) => Some(Some(GroupCondition::ShareCountGreaterThan(v))),
            None => Some(None),
        }
    } else if str_eq(key, "share_count_lt") {
        match parse_i32(val) {
            Some(v) => Some(Some(GroupCondition::ShareCountLessThan(v))),
            None => Some(None),
        }
    } else if str_eq(key, "share_count_in") {
        match parse_i32_list(val) {
            Some(vs) => Some(Some(GroupCondition::ShareCountIn(vs))),
            None => Some(None),
        }
    } else {
        None
    }
}

/// Parses conditions on groups from `key value` argument pairs.
pub fn parse_group_conditions(args: &[String]) -> (r: Vec<GroupCondition>)
    ensures
        group_conditions_from(arg_views(args@), 0, r@),
{
    let ghost a = arg_views(args@);
    let mut conditions: Vec<GroupCondition> = Vec::new();
    let mut i: usize = 0;
    while i < args.len()
        invariant
            a == arg_views(args@),
            a.len() == args@.len(),
            i <= args@.len(),
            forall|tail: Seq<GroupCondition>|
                #[trigger] group_conditions_from(a, i as int, tail) ==> group_conditions_from(
                    a,
                    0,
                    conditions@ + tail,
                ),
        decreases args@.len() - i,
    {
        let ghost old_conditions = conditions@;
        if i + 1 < args.len() {
            let key = args[i].as_str();
            let val = args[i + 1].as_str();
            assert(a[i as int] == key@ && a[i + 1] == val@);
            match group_condition_from(key, val) {
                Some(Some(c)) => {
                    conditions.push(c);
                    proof {
                        assert forall|tail: Seq<GroupCondition>|
                            #[trigger] group_conditions_from(a, i + 2, tail) implies group_conditions_from(
                                a,
                                0,
                                conditions@ + tail,
                            ) by {
                            let t2 = seq![c] + tail;
                            assert(t2.drop_first() =~= tail);
                            assert(group_conditions_from(a, i as int, t2));
                            assert(old_conditions + t2 =~= conditions@ + tail);
                        }
                    }
                    i = i + 2;
                },
                Some(None) => {
                    proof {
                        assert forall|tail: Seq<GroupCondition>|
                            #[trigger] group_conditions_from(a, i + 2, tail) implies group_conditions_from(
                                a,
                                0,
                                conditions@ + tail,
                            ) by {
                            assert(group_conditions_from(a, i as int, tail));
                        }
                    }
                    i = i + 2;
                },
                None => {
                    proof {
                        assert forall|tail: Seq<GroupCondition>|
                            #[trigger] group_conditions_from(a, i + 1, tail) implies group_conditions_from(
                                a,
                                0,
                                conditions@ + tail,
                            ) by {
                            assert(group_conditions_from(a, i as int, tail));
                        }
                    }
                    i = i + 1;
                },
            }
        } else {
            proof {
                assert forall|tail: Seq<GroupCondition>|
                    #[trigger] group_conditions_from(a, i + 1, tail) implies group_conditions_from(
                        a,
                        0,
                        conditions@ + tail,
                    ) by {
                    assert(group_conditions_from(a, i as int, tail));
                }
            }
            i = i + 1;
        }
    }
    assert(group_conditions_from(a, i as int, Seq::<GroupCondition>::empty()));
    assert(conditions@ + Seq::<GroupCondition>::empty() =~= conditions@);
    conditions
}


// ---- conditions on tags ----

/// `key` names a condition on tags.
pub open spec fn tag_condition_key(key: Seq<char>) -> bool {
    key == "id"@
    || key == "id_gt"@
    || key == "id_lt"@
    || key == "id_in"@
    || key == "name"@
    || key == "name_like"@
    || key == "name_in"@
    || key == "ref_count"@
    || key == "ref_count_gt"@
    || key == "ref_count_lt"@
    || key == "ref_count_in"@
}

/// The value `val` given for `key` is well formed.
pub open spec fn tag_condition_yields(key: Seq<char>, val: Seq<char>) -> bool {
    if key == "id"@ {
        spec_parse_i32(val) is Some
    } else if key == "id_gt"@ {
        spec_parse_i32(val) is Some
    } else if key == "id_lt"@ {
        spec_parse_i32(val) is Some
    } else if key == "id_in"@ {
        spec_parse_i32_list(val) is Some
    } else if key == "name"@ {
        true
    } else if key == "name_like"@ {
        true
    } else if key == "name_in"@ {
        true
    } else if key == "ref_count"@ {
        spec_parse_i32(val) is Some
    } else if key == "ref_count_gt"@ {
        spec_parse_i32(val) is Some
    } else if key == "ref_count_lt"@ {
        spec_parse_i32(val) is Some
    } else if key == "ref_count_in"@ {
        spec_parse_i32_list(val) is Some
    } else {
        false
    }
}

/// `c` is the condition that `key` and `val` stand for.
pub open spec fn tag_condition_parsed(key: Seq<char>, val: Seq<char>, c: TagCondition) -> bool {
    if key == "id"@ {
        c matches TagCondition::Id(v) && spec_parse_i32(val) == Some(v)
    } else if key == "id_gt"@ {
        c matches TagCondition::IdGreaterThan(v) && spec_parse_i32(val) == Some(v)
    } else if key == "id_lt"@ {
        c matches TagCondition::IdLessThan(v) && spec_parse_i32(val) == Some(v)
    } else if key == "id_in"@ {
        c matches TagCondition::IdIn(vs) && spec_parse_i32_list(val) == Some(vs@)
    } else if key == "name"@ {
        c matches TagCondition::Name(v) && v@ == val
    } else if key == "name_like"@ {
        c matches TagCondition::NameLike(v) && v@ == val
    } else if key == "name_in"@ {
        c matches TagCondition::NameIn(vs) && strings_are(vs@, spec_split(val, ','))
    } else if key == "ref_count"@ {
        c matches TagCondition::ReferenceCount(v) && spec_parse_i32(val) == Some(v)
    } else if key == "ref_count_gt"@ {
        c matches TagCondition::ReferenceCountGreaterThan(v) && spec_parse_i32(val) == Some(v)
    } else if key == "ref_count_lt"@ {
        c matches TagCondition::ReferenceCountLessThan(v) && spec_parse_i32(val) == Some(v)
    } else if key == "ref_count_in"@ {
        c matches TagCondition::ReferenceCountIn(vs) && spec_parse_i32_list(val) == Some(vs@)
    } else {
        false
    }
}

/// `out` is what parsing `args` from position `i` on gives: a known key
/// followed by a value consumes both words and yields a condition when the
/// value is well formed; any other word is skipped.
pub open spec fn tag_conditions_from(args: Seq<Seq<char>>, i: int, out: Seq<TagCondition>) -> bool
    decreases args.len() - i,
{
    if i < 0 || i >= args.len() {
        out.len() == 0
    } else if i + 1 < args.len() && tag_condition_key(args[i]) {
        if tag_condition_yields(args[i], args[i + 1]) {
            &&& out.len() > 0
            &&& tag_condition_parsed(args[i], args[i + 1], out[0])
            &&& tag_conditions_from(args, i + 2, out.drop_first())
        } else {
            tag_conditions_from(args, i + 2, out)
        }
    } else {
        tag_conditions_from(args, i + 1, out)
    }
}

/// The condition for one `key value` pair: `None` for an unknown key,
/// `Some(None)` for a malformed value.
fn tag_condition_from(key: &str, val: &str) -> (r: Option<Option<TagCondition>>)
    ensures
        r is None <==> !tag_condition_key(key@),
        r matches Some(x) ==> (x is Some <==> tag_condition_yields(key@, val@)),
        r matches Some(Some(c)) ==> tag_condition_parsed(key@, val@, c),
{
    if str_eq(key, "id") {
        match parse_i32(val) {
            Some(v) => Some(Some(TagCondition::Id(v))),
            None => Some(None),
        }
    } else if str_eq(key, "id_gt") {
        match parse_i32(val) {
            Some(v) => Some(Some(TagCondition::IdGreaterThan(v))),
            None => Some(None),
        }
    } else if str_eq(key, "id_lt") {
        match parse_i32(val) {
            Some(v) => Some(Some(TagCondition::IdLessThan(v))),
            None => Some(None),
        }
    } else if str_eq(key, "id_in") {
        match parse_i32_list(val) {
            Some(vs) => Some(Some(TagCondition::IdIn(vs))),
            None => Some(None),
        }
    } else if str_eq(key, "name") {
        Some(Some(TagCondition::Name(val.to_string())))
    } else if str_eq(key, "name_like") {
        Some(Some(TagCondition::NameLike(val.to_string())))
    } else if str_eq(key, "name_in") {
        Some(Some(TagCondition::NameIn(parse_string_list(val))))
    } else if str_eq(key, "ref_count") {
        match parse_i32(val) {
            Some(v) => Some(Some(TagCondition::ReferenceCount(v))),
            None => Some(None),
        }
    } else if str_eq(key, "ref_count_gt") {
        match parse_i32(val) {
            Some(v) => Some(Some(TagCondition::ReferenceCountGreaterThan(v))),
            None => Some(None),
        }
    } else if str_eq(key, "ref_count_lt") {
        match parse_i32(val) {
            Some(v) => Some(Some(TagCondition::ReferenceCountLessThan(v))),
            None => Some(None),
        }
    } else if str_eq(key, "ref_count_in") {
        match parse_i32_list(val) {
            Some(vs) => Some(Some(TagCondition::ReferenceCountIn(vs))),
            None => Some(None),
        }
    } else {
        None
    }
}

/// Parses conditions on tags from `key value` argument pairs.
pub fn parse_tag_conditions(args: &[String]) -> (r: Vec<TagCondition>)
    ensures
        tag_conditions_from(arg_views(args@), 0, r@),
{
    let ghost a = arg_views(args@);
    let mut conditions: Vec<TagCondition> = Vec::new();
    let mut i: usize = 0;
    while i < args.len()
        invariant
            a == arg_views(args@),
            a.len() == args@.len(),
            i <= args@.len(),
            forall|tail: Seq<TagCondition>|
                #[trigger] tag_conditions_from(a, i as int, tail) ==> tag_conditions_from(
                    a,
                    0,
                    conditions@ + tail,
                ),
        decreases args@.len() - i,
    {
        let ghost old_conditions = conditions@;
        if i + 1 < args.len() {
            let key = args[i].as_str();
            let val = args[i + 1].as_str();
            assert(a[i as int] == key@ && a[i + 1] == val@);
            match tag_condition_from(key, val) {
                Some(Some(c)) => {
                    conditions.push(c);
                    proof {
                        assert forall|tail: Seq<TagCondition>|
                            #[trigger] tag_conditions_from(a, i + 2, tail) implies tag_conditions_from(
                                a,
                                0,
                                conditions@ + tail,
                            ) by {
                            let t2 = seq![c] + tail;
                            assert(t2.drop_first() =~= tail);
                            assert(tag_conditions_from(a, i as int, t2));
                            assert(old_conditions + t2 =~= conditions@ + tail);
                        }
                    }
                    i = i + 2;
                },
                Some(None) => {
                    proof {
                        assert forall|tail: Seq<TagCondition>|
                            #[trigger] tag_conditions_from(a, i + 2, tail) implies tag_conditions_from(
                                a,
                                0,
                                conditions@ + tail,
                            ) by {
                            assert(tag_conditions_from(a, i as int, tail));
                        }
                    }
                    i = i + 2;
                },
                None => {
                    proof {
                        assert forall|tail: Seq<TagCondition>|
                            #[trigger] tag_conditions_from(a, i + 1, tail) implies tag_conditions_from(
                                a,
                                0,
                                conditions@ + tail,
                            ) by {
                            assert(tag_conditions_from(a, i as int, tail));
                        }
                    }
                    i = i + 1;
                },
            }
        } else {
            proof {
                assert forall|tail: Seq<TagCondition>|
                    #[trigger] tag_conditions_from(a, i + 1, tail) implies tag_conditions_from(
                        a,
                        0,
                        conditions@ + tail,
                    ) by {
                    assert(tag_conditions_from(a, i as int, tail));
                }
            }
            i = i + 1;
        }
    }
    assert(tag_conditions_from(a, i as int, Seq::<TagCondition>::empty()));
    assert(conditions@ + Seq::<TagCondition>::empty() =~= conditions@);
    conditions
}


// ---- conditions on file/group links ----

/// `key` names a condition on file/group links.
pub open spec fn file_group_condition_key(key: Seq<char>) -> bool {
    key == "file_id"@
    || key == "file_id_gt"@
    || key == "file_id_lt"@
    || key == "file_id_in"@
    || key == "group_id"@
    || key == "group_id_gt"@
    || key == "group_id_lt"@
    || key == "group_id_in"@
    || key == "relation_type"@
    || key == "relation_type_gt"@
    || key == "relation_type_lt"@
    || key == "relation_type_in"@
}

/// The value `val` given for `key` is well formed.
pub open spec fn file_group_condition_yields(key: Seq<char>, val: Seq<char>) -> bool {
    if key == "file_id"@ {
        spec_parse_i32(val) is Some
    } else if key == "file_id_gt"@ {
        spec_parse_i32(val) is Some
    } else if key == "file_id_lt"@ {
        spec_parse_i32(val) is Some
    } else if key == "file_id_in"@ {
        spec_parse_i32_list(val) is Some
    } else if key == "group_id"@ {
        spec_parse_i32(val) is Some
    } else if key == "group_id_gt"@ {
        spec_parse_i32(val) is Some
    } else if key == "group_id_lt"@ {
        spec_parse_i32(val) is Some
    } else if key == "group_id_in"@ {
        spec_parse_i32_list(val) is Some
    } else if key == "relation_type"@ {
        spec_parse_i32(val) is Some
    } else if key == "relation_type_gt"@ {
        spec_parse_i32(val) is Some
    } else if key == "relation_type_lt"@ {
        spec_parse_i32(val) is Some
    } else if key == "relation_type_in"@ {
        spec_parse_i32_list(val) is Some
    } else {
        false
    }
}

/// `c` is the condition that `key` and `val` stand for.
pub open spec fn file_group_condition_parsed(key: Seq<char>, val: Seq<char>, c: FileGroupCondition) -> bool {
    if key == "file_id"@ {
        c matches FileGroupCondition::FileId(v) && spec_parse_i32(val) == Some(v)
    } else if key == "file_id_gt"@ {
        c matches FileGroupCondition::FileIdGreaterThan(v) && spec_parse_i32(val) == Some(v)
    } else if key == "file_id_lt"@ {
        c matches FileGroupCondition::FileIdLessThan(v) && spec_parse_i32(val) == Some(v)
    } else if key == "file_id_in"@ {
        c matches FileGroupCondition::FileIdIn(vs) && spec_parse_i32_list(val) == Some(vs@)
    } else if key == "group_id"@ {
        c matches FileGroupCondition::GroupId(v) && spec_parse_i32(val) == Some(v)
    } else if key == "group_id_gt"@ {
        c matches FileGroupCondition::GroupIdGreaterThan(v) && spec_parse_i32(val) == Some(v)
    } else if key == "group_id_lt"@ {
        c matches FileGroupCondition::GroupIdLessThan(v) && spec_parse_i32(val) == Some(v)
    } else if key == "group_id_in"@ {
        c matches FileGroupCondition::GroupIdIn(vs) && spec_parse_i32_list(val) == Some(vs@)
    } else if key == "relation_type"@ {
        c matches FileGroupCondition::RelationType(v) && spec_parse_i32(val) == Some(v)
    } else if key == "relation_type_gt"@ {
        c matches FileGroupCondition::RelationTypeGreaterThan(v) && spec_parse_i32(val) == Some(v)
    } else if key == "relation_type_lt"@ {
        c matches FileGroupCondition::RelationTypeLessThan(v) && spec_parse_i32(val) == Some(v)
    } else if key == "relation_type_in"@ {
        c matches FileGroupCondition::RelationTypeIn(vs) && spec_parse_i32_list(val) == Some(vs@)
    } else {
        false
    }
}

/// `out` is what parsing `args` from position `i` on gives: a known key
/// followed by a value consumes both words and yields a condition when the
/// value is well formed; any other word is skipped.
pub open spec fn file_group_conditions_from(args: Seq<Seq<char>>, i: int, out: Seq<FileGroupCondition>) -> bool
    decreases args.len() - i,
{
    if i < 0 || i >= args.len() {
        out.len() == 0
    } else if i + 1 < args.len() && file_group_condition_key(args[i]) {
        if file_group_condition_yields(args[i], args[i + 1]) {
            &&& out.len() > 0
            &&& file_group_condition_parsed(args[i], args[i + 1], out[0])
            &&& file_group_conditions_from(args, i + 2, out.drop_first())
        } else {
            file_group_conditions_from(args, i + 2, out)
        }
    } else {
        file_group_conditions_from(args, i + 1, out)
    }
}

/// The condition for one `key value` pair: `None` for an unknown key,
/// `Some(None)` for a malformed value.
fn file_group_condition_from(key: &str, val: &str) -> (r: Option<Option<FileGroupCondition>>)
    ensures
        r is None <==> !file_group_condition_key(key@),
        r matches Some(x) ==> (x is Some <==> file_group_condition_yields(key@, val@)),
        r matches Some(Some(c)) ==> file_group_condition_parsed(key@, val@, c),
{
    if str_eq(key, "file_id") {
        match parse_i32(val) {
            Some(v) => Some(Some(FileGroupCondition::FileId(v))),
            None => Some(None),
        }
    } else if str_eq(key, "file_id_gt") {
        match parse_i32(val) {
            Some(v) => Some(Some(FileGroupCondition::FileIdGreaterThan(v))),
            None => Some(None),
        }
    } else if str_eq(key, "file_id_lt") {
        match parse_i32(val) {
            Some(v) => Some(Some(FileGroupCondition::FileIdLessThan(v))),
            None => Some(None),
        }
    } else if str_eq(key, "file_id_in") {
        match parse_i32_list(val) {
            Some(vs) => Some(Some(FileGroupCondition::FileIdIn(vs))),
            None => Some(None),
        }
    } else if str_eq(key, "group_id") {
        match parse_i32(val) {
            Some(v) => Some(Some(FileGroupCondition::GroupId(v))),
            None => Some(None),
        }
    } else if str_eq(key, "group_id_gt") {
        match parse_i32(val) {
            Some(v) => Some(Some(FileGroupCondition::GroupIdGreaterThan(v))),
            None => Some(None),
        }
    } else if str_eq(key, "group_id_lt") {
        match parse_i32(val) {
            Some(v) => Some(Some(FileGroupCondition::GroupIdLessThan(v))),
            None => Some(None),
        }
    } else if str_eq(key, "group_id_in") {
        match parse_i32_list(val) {
            Some(vs) => Some(Some(FileGroupCondition::GroupIdIn(vs))),
            None => Some(None),
        }
    } else if str_eq(key, "relation_type") {
        match parse_i32(val) {
            Some(v) => Some(Some(FileGroupCondition::RelationType(v))),
            None => Some(None),
        }
    } else if str_eq(key, "relation_type_gt") {
        match parse_i32(val) {
            Some(v) => Some(Some(FileGroupCondition::RelationTypeGreaterThan(v))),
            None => Some(None),
        }
    } else if str_eq(key, "relation_type_lt") {
        match parse_i32(val) {
            Some(v) => Some(Some(FileGroupCondition::RelationTypeLessThan(v))),
            None => Some(None),
        }
    } else if str_eq(key, "relation_type_in") {
        match parse_i32_list(val) {
            Some(vs) => Some(Some(FileGroupCondition::RelationTypeIn(vs))),
            None => Some(None),
        }
    } else {
        None
    }
}

/// Parses conditions on file/group links from `key value` argument pairs.
pub fn parse_file_group_conditions(args: &[String]) -> (r: Vec<FileGroupCondition>)
    ensures
        file_group_conditions_from(arg_views(args@), 0, r@),
{
    let ghost a = arg_views(args@);
    let mut conditions: Vec<FileGroupCondition> = Vec::new();
    let mut i: usize = 0;
    while i < args.len()
        invariant
            a == arg_views(args@),
            a.len() == args@.len(),
            i <= args@.len(),
            forall|tail: Seq<FileGroupCondition>|
                #[trigger] file_group_conditions_from(a, i as int, tail) ==> file_group_conditions_from(
                    a,
                    0,
                    conditions@ + tail,
                ),
        decreases args@.len() - i,
    {
        let ghost old_conditions = conditions@;
        if i + 1 < args.len() {
            let key = args[i].as_str();
            let val = args[i + 1].as_str();
            assert(a[i as int] == key@ && a[i + 1] == val@);
            match file_group_condition_from(key, val) {
                Some(Some(c)) => {
                    conditions.push(c);
                    proof {
                        assert forall|tail: Seq<FileGroupCondition>|
                            #[trigger] file_group_conditions_from(a, i + 2, tail) implies file_group_conditions_from(
                                a,
                                0,
                                conditions@ + tail,
                            ) by {
                            let t2 = seq![c] + tail;
                            assert(t2.drop_first() =~= tail);
                            assert(file_group_conditions_from(a, i as int, t2));
                            assert(old_conditions + t2 =~= conditions@ + tail);
                        }
                    }
                    i = i + 2;
                },
                Some(None) => {
                    proof {
                        assert forall|tail: Seq<FileGroupCondition>|
                            #[trigger] file_group_conditions_from(a, i + 2, tail) implies file_group_conditions_from(
                                a,
                                0,
                                conditions@ + tail,
                            ) by {
                            assert(file_group_conditions_from(a, i as int, tail));
                        }
                    }
                    i = i + 2;
                },
                None => {
                    proof {
                        assert forall|tail: Seq<FileGroupCondition>|
                            #[trigger] file_group_conditions_from(a, i + 1, tail) implies file_group_conditions_from(
                                a,
                                0,
                                conditions@ + tail,
                            ) by {
                            assert(file_group_conditions_from(a, i as int, tail));
                        }
                    }
                    i = i + 1;
                },
            }
        } else {
            proof {
                assert forall|tail: Seq<FileGroupCondition>|
                    #[trigger] file_group_conditions_from(a, i + 1, tail) implies file_group_conditions_from(
                        a,
                        0,
                        conditions@ + tail,
                    ) by {
                    assert(file_group_conditions_from(a, i as int, tail));
                }
            }
            i = i + 1;
        }
    }
    assert(file_group_conditions_from(a, i as int, Seq::<FileGroupCondition>::empty()));
    assert(conditions@ + Seq::<FileGroupCondition>::empty() =~= conditions@);
    conditions
}


// ---- conditions on group/tag links ----

/// `key` names a condition on group/tag links.
pub open spec fn group_tag_condition_key(key: Seq<char>) -> bool {
    key == "group_id"@
    || key == "group_id_gt"@
    || key == "group_id_lt"@
    || key == "group_id_in"@
    || key == "tag_id"@
    || key == "tag_id_gt"@
    || key == "tag_id_lt"@
    || key == "tag_id_in"@
}

/// The value `val` given for `key` is well formed.
pub open spec fn group_tag_condition_yields(key: Seq<char>, val: Seq<char>) -> bool {
    if key == "group_id"@ {
        spec_parse_i32(val) is Some
    } else if key == "group_id_gt"@ {
        spec_parse_i32(val) is Some
    } else if key == "group_id_lt"@ {
        spec_parse_i32(val) is Some
    } else if key == "group_id_in"@ {
        spec_parse_i32_list(val) is Some
    } else if key == "tag_id"@ {
        spec_parse_i32(val) is Some
    } else if key == "tag_id_gt"@ {
        spec_parse_i32(val) is Some
    } else if key == "tag_id_lt"@ {
        spec_parse_i32(val) is Some
    } else if key == "tag_id_in"@ {
        spec_parse_i32_list(val) is Some
    } else {
        false
    }
}

/// `c` is the condition that `key` and `val` stand for.
pub open spec fn group_tag_condition_parsed(key: Seq<char>, val: Seq<char>, c: GroupTagCondition) -> bool {
    if key == "group_id"@ {
        c matches GroupTagCondition::GroupId(v) && spec_parse_i32(val) == Some(v)
    } else if key == "group_id_gt"@ {
        c matches GroupTagCondition::GroupIdGreaterThan(v) && spec_parse_i32(val) == Some(v)
    } else if key == "group_id_lt"@ {
        c matches GroupTagCondition::GroupIdLessThan(v) && spec_parse_i32(val) == Some(v)
    } else if key == "group_id_in"@ {
        c matches GroupTagCondition::GroupIdIn(vs) && spec_parse_i32_list(val) == Some(vs@)
    } else if key == "tag_id"@ {
        c matches GroupTagCondition::TagId(v) && spec_parse_i32(val) == Some(v)
    } else if key == "tag_id_gt"@ {
        c matches GroupTagCondition::TagIdGreaterThan(v) && spec_parse_i32(val) == Some(v)
    } else if key == "tag_id_lt"@ {
        c matches GroupTagCondition::TagIdLessThan(v) && spec_parse_i32(val) == Some(v)
    } else if key == "tag_id_in"@ {
        c matches GroupTagCondition::TagIdIn(vs) && spec_parse_i32_list(val) == Some(vs@)
    } else {
        false
    }
}

/// `out` is what parsing `args` from position `i` on gives: a known key
/// followed by a value consumes both words and yields a condition when the
/// value is well formed; any other word is skipped.
pub open spec fn group_tag_conditions_from(args: Seq<Seq<char>>, i: int, out: Seq<GroupTagCondition>) -> bool
    decreases args.len() - i,
{
    if i < 0 || i >= args.len() {
        out.len() == 0
    } else if i + 1 < args.len() && group_tag_condition_key(args[i]) {
        if group_tag_condition_yields(args[i], args[i + 1]) {
            &&& out.len() > 0
            &&& group_tag_condition_parsed(args[i], args[i + 1], out[0])
            &&& group_tag_conditions_from(args, i + 2, out.drop_first())
        } else {
            group_tag_conditions_from(args, i + 2, out)
        }
    } else {
        group_tag_conditions_from(args, i + 1, out)
    }
}

/// The condition for one `key value` pair: `None` for an unknown key,
/// `Some(None)` for a malformed value.
fn group_tag_condition_from(key: &str, val: &str) -> (r: Option<Option<GroupTagCondition>>)
    ensures
        r is None <==> !group_tag_condition_key(key@),
        r matches Some(x) ==> (x is Some <==> group_tag_condition_yields(key@, val@)),
        r matches Some(Some(c)) ==> group_tag_condition_parsed(key@, val@, c),
{
    if str_eq(key, "group_id") {
        match parse_i32(val) {
            Some(v) => Some(Some(GroupTagCondition::GroupId(v))),
            None => Some(None),
        }
    } else if str_eq(key, "group_id_gt") {
        match parse_i32(val) {
            Some(v) => Some(Some(GroupTagCondition::GroupIdGreaterThan(v))),
            None => Some(None),
        }
    } else if str_eq(key, "group_id_lt") {
        match parse_i32(val) {
            Some(v) => Some(Some(GroupTagCondition::GroupIdLessThan(v))),
            None => Some(None),
        }
    } else if str_eq(key, "group_id_in") {
        match parse_i32_list(val) {
            Some(vs) => Some(Some(GroupTagCondition::GroupIdIn(vs))),
            None => Some(None),
        }
    } else if str_eq(key, "tag_id") {
        match parse_i32(val) {
            Some(v) => Some(Some(GroupTagCondition::TagId(v))),
            None => Some(None),
        }
    } else if str_eq(key, "tag_id_gt") {
        match parse_i32(val) {
            Some(v) => Some(Some(GroupTagCondition::TagIdGreaterThan(v))),
            None => Some(None),
        }
    } else if str_eq(key, "tag_id_lt") {
        match parse_i32(val) {
            Some(v) => Some(Some(GroupTagCondition::TagIdLessThan(v))),
            None => Some(None),
        }
    } else if str_eq(key, "tag_id_in") {
        match parse_i32_list(val) {
            Some(vs) => Some(Some(GroupTagCondition::TagIdIn(vs))),
            None => Some(None),
        }
    } else {
        None
    }
}

/// Parses conditions on group/tag links from `key value` argument pairs.
pub fn parse_group_tag_conditions(args: &[String]) -> (r: Vec<GroupTagCondition>)
    ensures
        group_tag_conditions_from(arg_views(args@), 0, r@),
{
    let ghost a = arg_views(args@);
    let mut conditions: Vec<GroupTagCondition> = Vec::new();
    let mut i: usize = 0;
    while i < args.len()
        invariant
            a == arg_views(args@),
            a.len() == args@.len(),
            i <= args@.len(),
            forall|tail: Seq<GroupTagCondition>|
                #[trigger] group_tag_conditions_from(a, i as int, tail) ==> group_tag_conditions_from(
                    a,
                    0,
                    conditions@ + tail,
                ),
        decreases args@.len() - i,
    {
        let ghost old_conditions = conditions@;
        if i + 1 < args.len() {
            let key = args[i].as_str();
            let val = args[i + 1].as_str();
            assert(a[i as int] == key@ && a[i + 1] == val@);
            match group_tag_condition_from(key, val) {
                Some(Some(c)) => {
                    conditions.push(c);
                    proof {
                        assert forall|tail: Seq<GroupTagCondition>|
                            #[trigger] group_tag_conditions_from(a, i + 2, tail) implies group_tag_conditions_from(
                                a,
                                0,
                                conditions@ + tail,
                            ) by {
                            let t2 = seq![c] + tail;
                            assert(t2.drop_first() =~= tail);
                            assert(group_tag_conditions_from(a, i as int, t2));
                            assert(old_conditions + t2 =~= conditions@ + tail);
                        }
                    }
                    i = i + 2;
                },
                Some(None) => {
                    proof {
                        assert forall|tail: Seq<GroupTagCondition>|
                            #[trigger] group_tag_conditions_from(a, i + 2, tail) implies group_tag_conditions_from(
                                a,
                                0,
                                conditions@ + tail,
                            ) by {
                            assert(group_tag_conditions_from(a, i as int, tail));
                        }
                    }
                    i = i + 2;
                },
                None => {
                    proof {
                        assert forall|tail: Seq<GroupTagCondition>|
                            #[trigger] group_tag_conditions_from(a, i + 1, tail) implies group_tag_conditions_from(
                                a,
                                0,
                                conditions@ + tail,
                            ) by {
                            assert(group_tag_conditions_from(a, i as int, tail));
                        }
                    }
                    i = i + 1;
                },
            }
        } else {
            proof {
                assert forall|tail: Seq<GroupTagCondition>|
                    #[trigger] group_tag_conditions_from(a, i + 1, tail) implies group_tag_conditions_from(
                        a,
                        0,
                        conditions@ + tail,
                    ) by {
                    assert(group_tag_conditions_from(a, i as int, tail));
                }
            }
            i = i + 1;
        }
    }
    assert(group_tag_conditions_from(a, i as int, Seq::<GroupTagCondition>::empty()));
    assert(conditions@ + Seq::<GroupTagCondition>::empty() =~= conditions@);
    conditions
}


// ---- conditions on group relations ----

/// `key` names a condition on group relations.
pub open spec fn group_relation_condition_key(key: Seq<char>) -> bool {
    key == "first_group_id"@
    || key == "first_group_id_gt"@
    || key == "first_group_id_lt"@
    || key == "first_group_id_in"@
    || key == "second_group_id"@
    || key == "second_group_id_gt"@
    || key == "second_group_id_lt"@
    || key == "second_group_id_in"@
    || key == "relation_type"@
    || key == "relation_type_gt"@
    || key == "relation_type_lt"@
    || key == "relation_type_in"@
}

/// The value `val` given for `key` is well formed.
pub open spec fn group_relation_condition_yields(key: Seq<char>, val: Seq<char>) -> bool {
    if key == "first_group_id"@ {
        spec_parse_i32(val) is Some
    } else if key == "first_group_id_gt"@ {
        spec_parse_i32(val) is Some
    } else if key == "first_group_id_lt"@ {
        spec_parse_i32(val) is Some
    } else if key == "first_group_id_in"@ {
        spec_parse_i32_list(val) is Some
    } else if key == "second_group_id"@ {
        spec_parse_i32(val) is Some
    } else if key == "second_group_id_gt"@ {
        spec_parse_i32(val) is Some
    } else if key == "second_group_id_lt"@ {
        spec_parse_i32(val) is Some
    } else if key == "second_group_id_in"@ {
        spec_parse_i32_list(val) is Some
    } else if key == "relation_type"@ {
        spec_parse_i32(val) is Some
    } else if key == "relation_type_gt"@ {
        spec_parse_i32(val) is Some
    } else if key == "relation_type_lt"@ {
        spec_parse_i32(val) is Some
    } else if key == "relation_type_in"@ {
        spec_parse_i32_list(val) is Some
    } else {
        false
    }
}

/// `c` is the condition that `key` and `val` stand for.
pub open spec fn group_relation_condition_parsed(key: Seq<char>, val: Seq<char>, c: GroupRelationCondition) -> bool {
    if key == "first_group_id"@ {
        c matches GroupRelationCondition::FirstGroupId(v) && spec_parse_i32(val) == Some(v)
    } else if key == "first_group_id_gt"@ {
        c matches GroupRelationCondition::FirstGroupIdGreaterThan(v) && spec_parse_i32(val) == Some(v)
    } else if key == "first_group_id_lt"@ {
        c matches GroupRelationCondition::FirstGroupIdLessThan(v) && spec_parse_i32(val) == Some(v)
    } else if key == "first_group_id_in"@ {
        c matches GroupRelationCondition::FirstGroupIdIn(vs) && spec_parse_i32_list(val) == Some(vs@)
    } else if key == "second_group_id"@ {
        c matches GroupRelationCondition::SecondGroupId(v) && spec_parse_i32(val) == Some(v)
    } else if key == "second_group_id_gt"@ {
        c matches GroupRelationCondition::SecondGroupIdGreaterThan(v) && spec_parse_i32(val) == Some(v)
    } else if key == "second_group_id_lt"@ {
        c matches GroupRelationCondition::SecondGroupIdLessThan(v) && spec_parse_i32(val) == Some(v)
    } else if key == "second_group_id_in"@ {
        c matches GroupRelationCondition::SecondGroupIdIn(vs) && spec_parse_i32_list(val) == Some(vs@)
    } else if key == "relation_type"@ {
        c matches GroupRelationCondition::RelationType(v) && spec_parse_i32(val) == Some(v)
    } else if key == "relation_type_gt"@ {
        c matches GroupRelationCondition::RelationTypeGreaterThan(v) && spec_parse_i32(val) == Some(v)
    } else if key == "relation_type_lt"@ {
        c matches GroupRelationCondition::RelationTypeLessThan(v) && spec_parse_i32(val) == Some(v)
    } else if key == "relation_type_in"@ {
        c matches GroupRelationCondition::RelationTypeIn(vs) && spec_parse_i32_list(val) == Some(vs@)
    } else {
        false
    }
}

/// `out` is what parsing `args` from position `i` on gives: a known key
/// followed by a value consumes both words and yields a condition when the
/// value is well formed; any other word is skipped.
pub open spec fn group_relation_conditions_from(args: Seq<Seq<char>>, i: int, out: Seq<GroupRelationCondition>) -> bool
    decreases args.len() - i,
{
    if i < 0 || i >= args.len() {
        out.len() == 0
    } else if i + 1 < args.len() && group_relation_condition_key(args[i]) {
        if group_relation_condition_yields(args[i], args[i + 1]) {
            &&& out.len() > 0
            &&& group_relation_condition_parsed(args[i], args[i + 1], out[0])
            &&& group_relation_conditions_from(args, i + 2, out.drop_first())
        } else {
            group_relation_conditions_from(args, i + 2, out)
        }
    } else {
        group_relation_conditions_from(args, i + 1, out)
    }
}

/// The condition for one `key value` pair: `None` for an unknown key,
/// `Some(None)` for a malformed value.
fn group_relation_condition_from(key: &str, val: &str) -> (r: Option<Option<GroupRelationCondition>>)
    ensures
        r is None <==> !group_relation_condition_key(key@),
        r matches Some(x) ==> (x is Some <==> group_relation_condition_yields(key@, val@)),
        r matches Some(Some(c)) ==> group_relation_condition_parsed(key@, val@, c),
{
    if str_eq(key, "first_group_id") {
        match parse_i32(val) {
            Some(v) => Some(Some(GroupRelationCondition::FirstGroupId(v))),
            None => Some(None),
        }
    } else if str_eq(key, "first_group_id_gt") {
        match parse_i32(val) {
            Some(v) => Some(Some(GroupRelationCondition::FirstGroupIdGreaterThan(v))),
            None => Some(None),
        }
    } else if str_eq(key, "first_group_id_lt") {
        match parse_i32(val) {
            Some(v) => Some(Some(GroupRelationCondition::FirstGroupIdLessThan(v))),
            None => Some(None),
        }
    } else if str_eq(key, "first_group_id_in") {
        match parse_i32_list(val) {
            Some(vs) => Some(Some(GroupRelationCondition::FirstGroupIdIn(vs))),
            None => Some(None),
        }
    } else if str_eq(key, "second_group_id") {
        match parse_i32(val) {
            Some(v) => Some(Some(GroupRelationCondition::SecondGroupId(v))),
            None => Some(None),
        }
    } else if str_eq(key, "second_group_id_gt") {
        match parse_i32(val) {
            Some(v) => Some(Some(GroupRelationCondition::SecondGroupIdGreaterThan(v))),
            None => Some(None),
        }
    } else if str_eq(key, "second_group_id_lt") {
        match parse_i32(val) {
            Some(v) => Some(Some(GroupRelationCondition::SecondGroupIdLessThan(v))),
            None => Some(None),
        }
    } else if str_eq(key, "second_group_id_in") {
        match parse_i32_list(val) {
            Some(vs) => Some(Some(GroupRelationCondition::SecondGroupIdIn(vs))),
            None => Some(None),
        }
    } else if str_eq(key, "relation_type") {
        match parse_i32(val) {
            Some(v) => Some(Some(GroupRelationCondition::RelationType(v))),
            None => Some(None),
        }
    } else if str_eq(key, "relation_type_gt") {
        match parse_i32(val) {
            Some(v) => Some(Some(GroupRelationCondition::RelationTypeGreaterThan(v))),
            None => Some(None),
        }
    } else if str_eq(key, "relation_type_lt") {
        match parse_i32(val) {
            Some(v) => Some(Some(GroupRelationCondition::RelationTypeLessThan(v))),
            None => Some(None),
        }
    } else if str_eq(key, "relation_type_in") {
        match parse_i32_list(val) {
            Some(vs) => Some(Some(GroupRelationCondition::RelationTypeIn(vs))),
            None => Some(None),
        }
    } else {
        None
    }
}

/// Parses conditions on group relations from `key value` argument pairs.
pub fn parse_group_relation_conditions(args: &[String]) -> (r: Vec<GroupRelationCondition>)
    ensures
        group_relation_conditions_from(arg_views(args@), 0, r@),
{
    let ghost a = arg_views(args@);
    let mut conditions: Vec<GroupRelationCondition> = Vec::new();
    let mut i: usize = 0;
    while i < args.len()
        invariant
            a == arg_views(args@),
            a.len() == args@.len(),
            i <= args@.len(),
            forall|tail: Seq<GroupRelationCondition>|
                #[trigger] group_relation_conditions_from(a, i as int, tail) ==> group_relation_conditions_from(
                    a,
                    0,
                    conditions@ + tail,
                ),
        decreases args@.len() - i,
    {
        let ghost old_conditions = conditions@;
        if i + 1 < args.len() {
            let key = args[i].as_str();
            let val = args[i + 1].as_str();
            assert(a[i as int] == key@ && a[i + 1] == val@);
            match group_relation_condition_from(key, val) {
                Some(Some(c)) => {
                    conditions.push(c);
                    proof {
                        assert forall|tail: Seq<GroupRelationCondition>|
                            #[trigger] group_relation_conditions_from(a, i + 2, tail) implies group_relation_conditions_from(
                                a,
                                0,
                                conditions@ + tail,
                            ) by {
                            let t2 = seq![c] + tail;
                            assert(t2.drop_first() =~= tail);
                            assert(group_relation_conditions_from(a, i as int, t2));
                            assert(old_conditions + t2 =~= conditions@ + tail);
                        }
                    }
                    i = i + 2;
                },
                Some(None) => {
                    proof {
                        assert forall|tail: Seq<GroupRelationCondition>|
                            #[trigger] group_relation_conditions_from(a, i + 2, tail) implies group_relation_conditions_from(
                                a,
                                0,
                                conditions@ + tail,
                            ) by {
                            assert(group_relation_conditions_from(a, i as int, tail));
                        }
                    }
                    i = i + 2;
                },
                None => {
                    proof {
                        assert forall|tail: Seq<GroupRelationCondition>|
                            #[trigger] group_relation_conditions_from(a, i + 1, tail) implies group_relation_conditions_from(
                                a,
                                0,
                                conditions@ + tail,
                            ) by {
                            assert(group_relation_conditions_from(a, i as int, tail));
                        }
                    }
                    i = i + 1;
                },
            }
        } else {
            proof {
                assert forall|tail: Seq<GroupRelationCondition>|
                    #[trigger] group_relation_conditions_from(a, i + 1, tail) implies group_relation_conditions_from(
                        a,
                        0,
                        conditions@ + tail,
                    ) by {
                    assert(group_relation_conditions_from(a, i as int, tail));
                }
            }
            i = i + 1;
        }
    }
    assert(group_relation_conditions_from(a, i as int, Seq::<GroupRelationCondition>::empty()));
    assert(conditions@ + Seq::<GroupRelationCondition>::empty() =~= conditions@);
    conditions
}


// ---- orderings of files ----

/// The ordering that one `field:direction` word gives, if any.
pub open spec fn file_order_for(arg: Seq<char>) -> Option<FileOrderBy> {
    let parts = spec_split(arg, ':');
    if parts.len() != 2 {
        None
    } else {
        let dir = if lowers_to(parts[1], "asc"@) {
            Some(OrderDirection::Asc)
        } else if lowers_to(parts[1], "desc"@) {
            Some(OrderDirection::Desc)
        } else {
            None
        };
        match dir {
            None => None,
            Some(d) => {
                if parts[0] == "id"@ {
                    Some(FileOrderBy::Id(d))
                } else if parts[0] == "type"@ {
                    Some(FileOrderBy::Type(d))
                } else if parts[0] == "path"@ {
                    Some(FileOrderBy::Path(d))
                } else if parts[0] == "ref_count"@ {
                    Some(FileOrderBy::ReferenceCount(d))
                } else if parts[0] == "group_id"@ {
                    Some(FileOrderBy::GroupId(d))
                } else {
                    None
                }
            },
        }
    }
}

/// The orderings that the words `args` give, in order; words that give none
/// are skipped.
pub open spec fn file_orders(args: Seq<Seq<char>>) -> Seq<FileOrderBy>
    decreases args.len(),
{
    if args.len() == 0 {
        Seq::<FileOrderBy>::empty()
    } else {
        let r = file_orders(args.drop_last());
        match file_order_for(args.last()) {
            Some(o) => r.push(o),
            None => r,
        }
    }
}

fn file_order_from(arg: &str) -> (r: Option<FileOrderBy>)
    ensures
        r == file_order_for(arg@),
{
    let parts = split_on(arg, ':');
    if parts.len() != 2 {
        return None;
    }
    let dir = if lowercase_is(parts[1].as_str(), "asc") {
        OrderDirection::Asc
    } else if lowercase_is(parts[1].as_str(), "desc") {
        OrderDirection::Desc
    } else {
        return None;
    };
    let field = parts[0].as_str();
    if str_eq(field, "id") {
        Some(FileOrderBy::Id(dir))
    } else if str_eq(field, "type") {
        Some(FileOrderBy::Type(dir))
    } else if str_eq(field, "path") {
        Some(FileOrderBy::Path(dir))
    } else if str_eq(field, "ref_count") {
        Some(FileOrderBy::ReferenceCount(dir))
    } else if str_eq(field, "group_id") {
        Some(FileOrderBy::GroupId(dir))
    } else {
        None
    }
}

/// Parses orderings of files from `field:direction` words.
pub fn parse_file_order_by(args: &[String]) -> (r: Vec<FileOrderBy>)
    ensures
        r@ == file_orders(arg_views(args@)),
{
    let ghost a = arg_views(args@);
    let mut order_bys: Vec<FileOrderBy> = Vec::new();
    let mut i: usize = 0;
    while i < args.len()
        invariant
            a == arg_views(args@),
            a.len() == args@.len(),
            i <= args@.len(),
            order_bys@ == file_orders(a.take(i as int)),
        decreases args@.len() - i,
    {
        proof {
            assert(a.take(i + 1).drop_last() =~= a.take(i as int));
        }
        match file_order_from(args[i].as_str()) {
            Some(o) => {
                order_bys.push(o);
            },
            None => {},
        }
        i = i + 1;
    }
    assert(a.take(i as int) =~= a);
    order_bys
}


// ---- orderings of groups ----

/// The ordering that one `field:direction` word gives, if any.
pub open spec fn group_order_for(arg: Seq<char>) -> Option<GroupOrderBy> {
    let parts = spec_split(arg, ':');
    if parts.len() != 2 {
        None
    } else {
        let dir = if lowers_to(parts[1], "asc"@) {
            Some(OrderDirection::Asc)
        } else if lowers_to(parts[1], "desc"@) {
            Some(OrderDirection::Desc)
        } else {
            None
        };
        match dir {
            None => None,
            Some(d) => {
                if parts[0] == "id"@ {
                    Some(GroupOrderBy::Id(d))
                } else if parts[0] == "name"@ {
                    Some(GroupOrderBy::Name(d))
                } else if parts[0] == "ref_count"@ {
                    Some(GroupOrderBy::ReferenceCount(d))
                } else if parts[0] == "is_primary"@ {
                    Some(GroupOrderBy::IsPrimary(d))
                } else if parts[0] == "click_count"@ {
                    Some(GroupOrderBy::ClickCount(d))
                } else if parts[0] == "share_count"@ {
                    Some(GroupOrderBy::ShareCount(d))
                } else if parts[0] == "create_time"@ {
                    Some(GroupOrderBy::CreateTime(d))
                } else if parts[0] == "modify_time"@ {
                    Some(GroupOrderBy::ModifyTime(d))
                } else {
                    None
                }
            },
        }
    }
}

/// The orderings that the words `args` give, in order; words that give none
/// are skipped.
pub open spec fn group_orders(args: Seq<Seq<char>>) -> Seq<GroupOrderBy>
    decreases args.len(),
{
    if args.len() == 0 {
        Seq::<GroupOrderBy>::empty()
    } else {
        let r = group_orders(args.drop_last());
        match group_order_for(args.last()) {
            Some(o) => r.push(o),
            None => r,
        }
    }
}

fn group_order_from(arg: &str) -> (r: Option<GroupOrderBy>)
    ensures
        r == group_order_for(arg@),
{
    let parts = split_on(arg, ':');
    if parts.len() != 2 {
        return None;
    }
    let dir = if lowercase_is(parts[1].as_str(), "asc") {
        OrderDirection::Asc
    } else if lowercase_is(parts[1].as_str(), "desc") {
        OrderDirection::Desc
    } else {
        return None;
    };
    let field = parts[0].as_str();
    if str_eq(field, "id") {
        Some(GroupOrderBy::Id(dir))
    } else if str_eq(field, "name") {
        Some(GroupOrderBy::Name(dir))
    } else if str_eq(field, "ref_count") {
        Some(GroupOrderBy::ReferenceCount(dir))
    } else if str_eq(field, "is_primary") {
        Some(GroupOrderBy::IsPrimary(dir))
    } else if str_eq(field, "click_count") {
        Some(GroupOrderBy::ClickCount(dir))
    } else if str_eq(field, "share_count") {
        Some(GroupOrderBy::ShareCount(dir))
    } else if str_eq(field, "create_time") {
        Some(GroupOrderBy::CreateTime(dir))
    } else if str_eq(field, "modify_time") {
        Some(GroupOrderBy::ModifyTime(dir))
    } else {
        None
    }
}

/// Parses orderings of groups from `field:direction` words.
pub fn parse_group_order_by(args: &[String]) -> (r: Vec<GroupOrderBy>)
    ensures
        r@ == group_orders(arg_views(args@)),
{
    let ghost a = arg_views(args@);
    let mut order_bys: Vec<GroupOrderBy> = Vec::new();
    let mut i: usize = 0;
    while i < args.len()
        invariant
            a == arg_views(args@),
            a.len() == args@.len(),
            i <= args@.len(),
            order_bys@ == group_orders(a.take(i as int)),
        decreases args@.len() - i,
    {
        proof {
            assert(a.take(i + 1).drop_last() =~= a.take(i as int));
        }
        match group_order_from(args[i].as_str()) {
            Some(o) => {
                order_bys.push(o);
            },
            None => {},
        }
        i = i + 1;
    }
    assert(a.take(i as int) =~= a);
    order_bys
}


// ---- orderings of tags ----

/// The ordering that one `field:direction` word gives, if any.
pub open spec fn tag_order_for(arg: Seq<char>) -> Option<TagOrderBy> {
    let parts = spec_split(arg, ':');
    if parts.len() != 2 {
        None
    } else {
        let dir = if lowers_to(parts[1], "asc"@) {
            Some(OrderDirection::Asc)
        } else if lowers_to(parts[1], "desc"@) {
            Some(OrderDirection::Desc)
        } else {
            None
        };
        match dir {
            None => None,
            Some(d) => {
                if parts[0] == "id"@ {
                    Some(TagOrderBy::Id(d))
                } else if parts[0] == "name"@ {
                    Some(TagOrderBy::Name(d))
                } else if parts[0] == "ref_count"@ {
                    Some(TagOrderBy::ReferenceCount(d))
                } else {
                    None
                }
            },
        }
    }
}

/// The orderings that the words `args` give, in order; words that give none
/// are skipped.
pub open spec fn tag_orders(args: Seq<Seq<char>>) -> Seq<TagOrderBy>
    decreases args.len(),
{
    if args.len() == 0 {
        Seq::<TagOrderBy>::empty()
    } else {
        let r = tag_orders(args.drop_last());
        match tag_order_for(args.last()) {
            Some(o) => r.push(o),
            None => r,
        }
    }
}

fn tag_order_from(arg: &str) -> (r: Option<TagOrderBy>)
    ensures
        r == tag_order_for(arg@),
{
    let parts = split_on(arg, ':');
    if parts.len() != 2 {
        return None;
    }
    let dir = if lowercase_is(parts[1].as_str(), "asc") {
        OrderDirection::Asc
    } else if lowercase_is(parts[1].as_str(), "desc") {
        OrderDirection::Desc
    } else {
        return None;
    };
    let field = parts[0].as_str();
    if str_eq(field, "id") {
        Some(TagOrderBy::Id(dir))
    } else if str_eq(field, "name") {
        Some(TagOrderBy::Name(dir))
    } else if str_eq(field, "ref_count") {
        Some(TagOrderBy::ReferenceCount(dir))
    } else {
        None
    }
}

/// Parses orderings of tags from `field:direction` words.
pub fn parse_tag_order_by(args: &[String]) -> (r: Vec<TagOrderBy>)
    ensures
        r@ == tag_orders(arg_views(args@)),
{
    let ghost a = arg_views(args@);
    let mut order_bys: Vec<TagOrderBy> = Vec::new();
    let mut i: usize = 0;
    while i < args.len()
        invariant
            a == arg_views(args@),
            a.len() == args@.len(),
            i <= args@.len(),
            order_bys@ == tag_orders(a.take(i as int)),
        decreases args@.len() - i,
    {
        proof {
            assert(a.take(i + 1).drop_last() =~= a.take(i as int));
        }
        match tag_order_from(args[i].as_str()) {
            Some(o) => {
                order_bys.push(o);
            },
            None => {},
        }
        i = i + 1;
    }
    assert(a.take(i as int) =~= a);
    order_bys
}


// ---- orderings of file/group links ----

/// The ordering that one `field:direction` word gives, if any.
pub open spec fn file_group_order_for(arg: Seq<char>) -> Option<FileGroupOrderBy> {
    let parts = spec_split(arg, ':');
    if parts.len() != 2 {
        None
    } else {
        let dir = if lowers_to(parts[1], "asc"@) {
            Some(OrderDirection::Asc)
        } else if lowers_to(parts[1], "desc"@) {
            Some(OrderDirection::Desc)
        } else {
            None
        };
        match dir {
            None => None,
            Some(d) => {
                if parts[0] == "file_id"@ {
                    Some(FileGroupOrderBy::FileId(d))
                } else if parts[0] == "group_id"@ {
                    Some(FileGroupOrderBy::GroupId(d))
                } else {
                    None
                }
            },
        }
    }
}

/// The orderings that the words `args` give, in order; words that give none
/// are skipped.
pub open spec fn file_group_orders(args: Seq<Seq<char>>) -> Seq<FileGroupOrderBy>
    decreases args.len(),
{
    if args.len() == 0 {
        Seq::<FileGroupOrderBy>::empty()
    } else {
        let r = file_group_orders(args.drop_last());
        match file_group_order_for(args.last()) {
            Some(o) => r.push(o),
            None => r,
        }
    }
}

fn file_group_order_from(arg: &str) -> (r: Option<FileGroupOrderBy>)
    ensures
        r == file_group_order_for(arg@),
{
    let parts = split_on(arg, ':');
    if parts.len() != 2 {
        return None;
    }
    let dir = if lowercase_is(parts[1].as_str(), "asc") {
        OrderDirection::Asc
    } else if lowercase_is(parts[1].as_str(), "desc") {
        OrderDirection::Desc
    } else {
        return None;
    };
    let field = parts[0].as_str();
    if str_eq(field, "file_id") {
        Some(FileGroupOrderBy::FileId(dir))
    } else if str_eq(field, "group_id") {
        Some(FileGroupOrderBy::GroupId(dir))
    } else {
        None
    }
}

/// Parses orderings of file/group links from `field:direction` words.
pub fn parse_file_group_order_by(args: &[String]) -> (r: Vec<FileGroupOrderBy>)
    ensures
        r@ == file_group_orders(arg_views(args@)),
{
    let ghost a = arg_views(args@);
    let mut order_bys: Vec<FileGroupOrderBy> = Vec::new();
    let mut i: usize = 0;
    while i < args.len()
        invariant
            a == arg_views(args@),
            a.len() == args@.len(),
            i <= args@.len(),
            order_bys@ == file_group_orders(a.take(i as int)),
        decreases args@.len() - i,
    {
        proof {
            assert(a.take(i + 1).drop_last() =~= a.take(i as int));
        }
        match file_group_order_from(args[i].as_str()) {
            Some(o) => {
                order_bys.push(o);
            },
            None => {},
        }
        i = i + 1;
    }
    assert(a.take(i as int) =~= a);
    order_bys
}


// ---- orderings of group/tag links ----

/// The ordering that one `field:direction` word gives, if any.
pub open spec fn group_tag_order_for(arg: Seq<char>) -> Option<GroupTagOrderBy> {
    let parts = spec_split(arg, ':');
    if parts.len() != 2 {
        None
    } else {
        let dir = if lowers_to(parts[1], "asc"@) {
            Some(OrderDirection::Asc)
        } else if lowers_to(parts[1], "desc"@) {
            Some(OrderDirection::Desc)
        } else {
            None
        };
        match dir {
            None => None,
            Some(d) => {
                if parts[0] == "group_id"@ {
                    Some(GroupTagOrderBy::GroupId(d))
                } else if parts[0] == "tag_id"@ {
                    Some(GroupTagOrderBy::TagId(d))
                } else {
                    None
                }
            },
        }
    }
}

/// The orderings that the words `args` give, in order; words that give none
/// are skipped.
pub open spec fn group_tag_orders(args: Seq<Seq<char>>) -> Seq<GroupTagOrderBy>
    decreases args.len(),
{
    if args.len() == 0 {
        Seq::<GroupTagOrderBy>::empty()
    } else {
        let r = group_tag_orders(args.drop_last());
        match group_tag_order_for(args.last()) {
            Some(o) => r.push(o),
            None => r,
        }
    }
}

fn group_tag_order_from(arg: &str) -> (r: Option<GroupTagOrderBy>)
    ensures
        r == group_tag_order_for(arg@),
{
    let parts = split_on(arg, ':');
    if parts.len() != 2 {
        return None;
    }
    let dir = if lowercase_is(parts[1].as_str(), "asc") {
        OrderDirection::Asc
    } else if lowercase_is(parts[1].as_str(), "desc") {
        OrderDirection::Desc
    } else {
        return None;
    };
    let field = parts[0].as_str();
    if str_eq(field, "group_id") {
        Some(GroupTagOrderBy::GroupId(dir))
    } else if str_eq(field, "tag_id") {
        Some(GroupTagOrderBy::TagId(dir))
    } else {
        None
    }
}

/// Parses orderings of group/tag links from `field:direction` words.
pub fn parse_group_tag_order_by(args: &[String]) -> (r: Vec<GroupTagOrderBy>)
    ensures
        r@ == group_tag_orders(arg_views(args@)),
{
    let ghost a = arg_views(args@);
    let mut order_bys: Vec<GroupTagOrderBy> = Vec::new();
    let mut i: usize = 0;
    while i < args.len()
        invariant
            a == arg_views(args@),
            a.len() == args@.len(),
            i <= args@.len(),
            order_bys@ == group_tag_orders(a.take(i as int)),
        decreases args@.len() - i,
    {
        proof {
            assert(a.take(i + 1).drop_last() =~= a.take(i as int));
        }
        match group_tag_order_from(args[i].as_str()) {
            Some(o) => {
                order_bys.push(o);
            },
            None => {},
        }
        i = i + 1;
    }
    assert(a.take(i as int) =~= a);
    order_bys
}


// ---- orderings of group relations ----

/// The ordering that one `field:direction` word gives, if any.
pub open spec fn group_relation_order_for(arg: Seq<char>) -> Option<GroupRelationOrderBy> {
    let parts = spec_split(arg, ':');
    if parts.len() == 0 || parts.len() > 2 {
        None
    } else {
        let d = if parts.len() == 2 && parts[1] == "desc"@ {
            OrderDirection::Desc
        } else {
            OrderDirection::Asc
        };
        match Some(d) {
            None => None,
            Some(d) => {
                if parts[0] == "first_group_id"@ {
                    Some(GroupRelationOrderBy::FirstGroupId(d))
                } else if parts[0] == "second_group_id"@ {
                    Some(GroupRelationOrderBy::SecondGroupId(d))
                } else if parts[0] == "relation_type"@ {
                    Some(GroupRelationOrderBy::RelationType(d))
                } else {
                    None
                }
            },
        }
    }
}

/// The orderings that the words `args` give, in order; words that give none
/// are skipped.
pub open spec fn group_relation_orders(args: Seq<Seq<char>>) -> Seq<GroupRelationOrderBy>
    decreases args.len(),
{
    if args.len() == 0 {
        Seq::<GroupRelationOrderBy>::empty()
    } else {
        let r = group_relation_orders(args.drop_last());
        match group_relation_order_for(args.last()) {
            Some(o) => r.push(o),
            None => r,
        }
    }
}

fn group_relation_order_from(arg: &str) -> (r: Option<GroupRelationOrderBy>)
    ensures
        r == group_relation_order_for(arg@),
{
    let parts = split_on(arg, ':');
    if parts.len() == 0 || parts.len() > 2 {
        return None;
    }
    let dir = if parts.len() == 2 && str_eq(parts[1].as_str(), "desc") {
        OrderDirection::Desc
    } else {
        OrderDirection::Asc
    };
    let field = parts[0].as_str();
    if str_eq(field, "first_group_id") {
        Some(GroupRelationOrderBy::FirstGroupId(dir))
    } else if str_eq(field, "second_group_id") {
        Some(GroupRelationOrderBy::SecondGroupId(dir))
    } else if str_eq(field, "relation_type") {
        Some(GroupRelationOrderBy::RelationType(dir))
    } else {
        None
    }
}

/// Parses orderings of group relations from `field:direction` words.
pub fn parse_group_relation_order_by(args: &[String]) -> (r: Vec<GroupRelationOrderBy>)
    ensures
        r@ == group_relation_orders(arg_views(args@)),
{
    let ghost a = arg_views(args@);
    let mut order_bys: Vec<GroupRelationOrderBy> = Vec::new();
    let mut i: usize = 0;
    while i < args.len()
        invariant
            a == arg_views(args@),
            a.len() == args@.len(),
            i <= args@.len(),
            order_bys@ == group_relation_orders(a.take(i as int)),
        decreases args@.len() - i,
    {
        proof {
            assert(a.take(i + 1).drop_last() =~= a.take(i as int));
        }
        match group_relation_order_from(args[i].as_str()) {
            Some(o) => {
                order_bys.push(o);
            },
            None => {},
        }
        i = i + 1;
    }
    assert(a.take(i as int) =~= a);
    order_bys
}

/// The conditions that pick the files an update changes: those parsed from
/// `args`, or, when no word is given, the selected file alone; nothing
/// when there are neither words nor a selection.
pub fn file_update_conditions(args: &[String], selected: Option<i32>) -> (r: Option<Vec<FileCondition>>)
    ensures
        args@.len() == 0 ==> match selected {
            Some(id) => r matches Some(v) && v@ == seq![FileCondition::Id(id)],
            None => r is None,
        },
        args@.len() > 0 ==> (r matches Some(v) && file_conditions_from(arg_views(args@), 0, v@)),
{
    if args.len() == 0 {
        match selected {
            Some(id) => {
                let v = vec![FileCondition::Id(id)];
                Some(v)
            },
            None => None,
        }
    } else {
        Some(parse_file_conditions(args))
    }
}

/// The conditions that pick the groups an update changes: those parsed from
/// `args`, or, when no word is given, the selected group alone; nothing
/// when there are neither words nor a selection.
pub fn group_update_conditions(args: &[String], selected: Option<i32>) -> (r: Option<Vec<GroupCondition>>)
    ensures
        args@.len() == 0 ==> match selected {
            Some(id) => r matches Some(v) && v@ == seq![GroupCondition::Id(id)],
            None => r is None,
        },
        args@.len() > 0 ==> (r matches Some(v) && group_conditions_from(arg_views(args@), 0, v@)),
{
    if args.len() == 0 {
        match selected {
            Some(id) => {
                let v = vec![GroupCondition::Id(id)];
                Some(v)
            },
            None => None,
        }
    } else {
        Some(parse_group_conditions(args))
    }
}

/// The conditions that pick the tags an update changes: those parsed from
/// `args`, or, when no word is given, the selected tag alone; nothing
/// when there are neither words nor a selection.
pub fn tag_update_conditions(args: &[String], selected: Option<i32>) -> (r: Option<Vec<TagCondition>>)
    ensures
        args@.len() == 0 ==> match selected {
            Some(id) => r matches Some(v) && v@ == seq![TagCondition::Id(id)],
            None => r is None,
        },
        args@.len() > 0 ==> (r matches Some(v) && tag_conditions_from(arg_views(args@), 0, v@)),
{
    if args.len() == 0 {
        match selected {
            Some(id) => {
                let v = vec![TagCondition::Id(id)];
                Some(v)
            },
            None => None,
        }
    } else {
        Some(parse_tag_conditions(args))
    }
}

// ---- laws of the parsers ----

/// Parsing the orderings of files word by word distributes over joining
/// two lists of words: the words of `a` give their orderings first, then
/// those of `b`.
pub proof fn law_file_orders_concat(a: Seq<Seq<char>>, b: Seq<Seq<char>>)
    ensures
        file_orders(a + b) == file_orders(a) + file_orders(b),
    decreases b.len(),
{
    if b.len() == 0 {
        assert(a + b =~= a);
        assert(file_orders(a) + file_orders(b) =~= file_orders(a));
    } else {
        law_file_orders_concat(a, b.drop_last());
        assert((a + b).drop_last() =~= a + b.drop_last());
        assert((a + b).last() == b.last());
        match file_order_for(b.last()) {
            Some(o) => {
                assert(file_orders(a) + file_orders(b.drop_last()).push(o) =~= (file_orders(a) + file_orders(
                    b.drop_last(),
                )).push(o));
            },
            None => {},
        }
    }
}

/// Each word gives at most one ordering of files.
pub proof fn law_file_orders_len(a: Seq<Seq<char>>)
    ensures
        file_orders(a).len() <= a.len(),
    decreases a.len(),
{
    if a.len() > 0 {
        law_file_orders_len(a.drop_last());
    }
}

/// Each word gives at most one ordering of groups, and the words give one
/// each exactly when every word is a known field, a colon and a direction.
pub proof fn law_group_orders_len(a: Seq<Seq<char>>)
    ensures
        group_orders(a).len() <= a.len(),
        group_orders(a).len() == a.len() <==> forall|i: int| 0 <= i < a.len() ==> #[trigger] group_order_for(a[i]) is Some,
    decreases a.len(),
{
    if a.len() > 0 {
        let t = a.drop_last();
        law_group_orders_len(t);
        if group_orders(a).len() == a.len() {
            assert(group_order_for(a.last()) is Some);
            assert forall|i: int| 0 <= i < a.len() implies #[trigger] group_order_for(a[i]) is Some by {
                if i < a.len() - 1 {
                    assert(a[i] == t[i]);
                    assert(group_order_for(t[i]) is Some);
                }
            }
        }
        if forall|i: int| 0 <= i < a.len() ==> #[trigger] group_order_for(a[i]) is Some {
            assert forall|i: int| 0 <= i < t.len() implies #[trigger] group_order_for(t[i]) is Some by {
                assert(a[i] == t[i]);
            }
            assert(group_order_for(a[a.len() - 1]) is Some);
        }
    }
}

/// Parsing conditions on files from position `i + p.len()` of `p + b` is
/// parsing them from position `i` of `b`.
proof fn lemma_file_conditions_shift(p: Seq<Seq<char>>, b: Seq<Seq<char>>, i: int, out: Seq<FileCondition>)
    requires
        0 <= i,
    ensures
        file_conditions_from(p + b, i + p.len(), out) == file_conditions_from(b, i, out),
    decreases b.len() - i,
{
    let a = p + b;
    let j = i + p.len();
    if i < b.len() {
        assert(a[j] == b[i]);
        if i + 1 < b.len() {
            assert(a[j + 1] == b[i + 1]);
        }
        lemma_file_conditions_shift(p, b, i + 1, out);
        if i + 2 <= b.len() {
            lemma_file_conditions_shift(p, b, i + 2, out);
            if out.len() > 0 {
                lemma_file_conditions_shift(p, b, i + 2, out.drop_first());
            }
        }
    }
}

/// A complete `key value` pair of a known key is parsed by itself, whatever
/// words follow it: it gives its condition (when the value is well formed)
/// and the words after it give the rest.
pub proof fn law_file_condition_pair_first(k: Seq<char>, v: Seq<char>, b: Seq<Seq<char>>, out: Seq<FileCondition>)
    requires
        file_condition_key(k),
    ensures
        file_conditions_from(seq![k, v] + b, 0, out) == (if file_condition_yields(k, v) {
            &&& out.len() > 0
            &&& file_condition_parsed(k, v, out[0])
            &&& file_conditions_from(b, 0, out.drop_first())
        } else {
            file_conditions_from(b, 0, out)
        }),
{
    let a = seq![k, v] + b;
    assert(a[0] == k && a[1] == v);
    lemma_file_conditions_shift(seq![k, v], b, 0, out);
    if out.len() > 0 {
        lemma_file_conditions_shift(seq![k, v], b, 0, out.drop_first());
    }
}

/// Parsing a complete `key value` pair of a known key followed by more
/// words gives what the pair alone gives followed by what the other words
/// give.
pub proof fn law_file_conditions_pair_concat(
    k: Seq<char>,
    v: Seq<char>,
    b: Seq<Seq<char>>,
    first: Seq<FileCondition>,
    rest: Seq<FileCondition>,
)
    requires
        file_condition_key(k),
        file_conditions_from(seq![k, v], 0, first),
        file_conditions_from(b, 0, rest),
    ensures
        file_conditions_from(seq![k, v] + b, 0, first + rest),
{
    let p = seq![k, v];
    assert(p[0] == k && p[1] == v);
    law_file_condition_pair_first(k, v, b, first + rest);
    if file_condition_yields(k, v) {
        assert(file_conditions_from(p, 2, first.drop_first()));
        assert(first.drop_first().len() == 0);
        assert((first + rest)[0] == first[0]);
        assert((first + rest).drop_first() =~= rest);
    } else {
        assert(file_conditions_from(p, 2, first));
        assert(first.len() == 0);
        assert(first + rest =~= rest);
    }
}

/// What the condition that a known key and its value give says of a file
/// `f`: `key` names the column it reads and how it compares it with the
/// value (equal, greater, less, one of a comma separated list, or an SQL
/// `LIKE` pattern).
pub proof fn law_file_condition_meaning(key: Seq<char>, val: Seq<char>, c: FileCondition, f: File)
    requires
        file_condition_parsed(key, val, c),
    ensures
        file_eval(c, f) == (if key == "id"@ {
            Some(f.id == spec_parse_i32(val)->0)
        } else if key == "id_gt"@ {
            Some(f.id > spec_parse_i32(val)->0)
        } else if key == "id_lt"@ {
            Some(f.id < spec_parse_i32(val)->0)
        } else if key == "id_in"@ {
            Some(spec_parse_i32_list(val)->0.contains(f.id))
        } else if key == "type"@ {
            Some(f.type_@ == val)
        } else if key == "type_like"@ {
            Some(like_match(f.type_@, val))
        } else if key == "type_in"@ {
            Some(spec_split(val, ',').contains(f.type_@))
        } else if key == "path"@ {
            Some(f.path@ == val)
        } else if key == "path_like"@ {
            Some(like_match(f.path@, val))
        } else if key == "path_in"@ {
            Some(spec_split(val, ',').contains(f.path@))
        } else if key == "ref_count"@ {
            Some(f.reference_count == spec_parse_i32(val)->0)
        } else if key == "ref_count_gt"@ {
            Some(f.reference_count > spec_parse_i32(val)->0)
        } else if key == "ref_count_lt"@ {
            Some(f.reference_count < spec_parse_i32(val)->0)
        } else if key == "ref_count_in"@ {
            Some(spec_parse_i32_list(val)->0.contains(f.reference_count))
        } else if key == "group_id"@ {
            Some(f.group_id == spec_parse_i32(val)->0)
        } else if key == "group_id_gt"@ {
            Some(f.group_id > spec_parse_i32(val)->0)
        } else if key == "group_id_lt"@ {
            Some(f.group_id < spec_parse_i32(val)->0)
        } else if key == "group_id_in"@ {
            Some(spec_parse_i32_list(val)->0.contains(f.group_id))
        } else {
            None
        }),
{
    let pieces = spec_split(val, ',');
    match c {
        FileCondition::TypeIn(vs) => {
            if key == "type_in"@ {
                lemma_listed_text(vs@, pieces, f.type_@);
            }
        },
        FileCondition::PathIn(vs) => {
            if key == "path_in"@ {
                lemma_listed_text(vs@, pieces, f.path@);
            }
        },
        _ => {},
    }
}

/// A text is one of strings that read as `pieces` exactly when it is one of
/// the pieces.
proof fn lemma_listed_text(vs: Seq<String>, pieces: Seq<Seq<char>>, t: Seq<char>)
    requires
        strings_are(vs, pieces),
    ensures
        (exists|k: int| 0 <= k < vs.len() && (#[trigger] vs[k])@ == t) == pieces.contains(t),
{
    if exists|k: int| 0 <= k < vs.len() && (#[trigger] vs[k])@ == t {
        let k = choose|k: int| 0 <= k < vs.len() && (#[trigger] vs[k])@ == t;
        assert(pieces[k] == t);
    }
    if pieces.contains(t) {
        let k = choose|k: int| 0 <= k < pieces.len() && pieces[k] == t;
        assert(vs[k]@ == t);
    }
}

/// What the condition that a known key and its value give says of a
/// group `r`: `key` names the column it reads and how it compares it with
/// the value (equal, greater, less, one of a comma separated list, or an
/// SQL `LIKE` pattern).
pub proof fn law_group_condition_meaning(key: Seq<char>, val: Seq<char>, c: GroupCondition, r: Group)
    requires
        group_condition_parsed(key, val, c),
    ensures
        group_eval(c, r) == (if key == "id"@ {
            Some(r.id == spec_parse_i32(val)->0)
        } else if key == "id_gt"@ {
            Some(r.id > spec_parse_i32(val)->0)
        } else if key == "id_lt"@ {
            Some(r.id < spec_parse_i32(val)->0)
        } else if key == "id_in"@ {
            Some(spec_parse_i32_list(val)->0.contains(r.id))
        } else if key == "name"@ {
            Some(r.name@ == val)
        } else if key == "name_like"@ {
            Some(like_match(r.name@, val))
        } else if key == "name_in"@ {
            Some(spec_split(val, ',').contains(r.name@))
        } else if key == "ref_count"@ {
            Some(r.reference_count == spec_parse_i32(val)->0)
        } else if key == "ref_count_gt"@ {
            Some(r.reference_count > spec_parse_i32(val)->0)
        } else if key == "ref_count_lt"@ {
            Some(r.reference_count < spec_parse_i32(val)->0)
        } else if key == "ref_count_in"@ {
            Some(spec_parse_i32_list(val)->0.contains(r.reference_count))
        } else if key == "is_primary"@ {
            Some(r.is_primary == spec_parse_bool(val)->0)
        } else if key == "click_count"@ {
            Some(r.click_count == spec_parse_i32(val)->0)
        } else if key == "click_count_gt"@ {
            Some(r.click_count > spec_parse_i32(val)->0)
        } else if key == "click_count_lt"@ {
            Some(r.click_count < spec_parse_i32(val)->0)
        } else if key == "click_count_in"@ {
            Some(spec_parse_i32_list(val)->0.contains(r.click_count))
        } else if key == "share_count"@ {
            Some(r.share_count == spec_parse_i32(val)->0)
        } else if key == "share_count_gt"@ {
            Some(r.share_count > spec_parse_i32(val)->0)
        } else if key == "share_count_lt"@ {
            Some(r.share_count < spec_parse_i32(val)->0)
        } else if key == "share_count_in"@ {
            Some(spec_parse_i32_list(val)->0.contains(r.share_count))
        } else {
            None
        }),
{
    match c {
        GroupCondition::NameIn(vs) => {
            if key == "name_in"@ {
                lemma_listed_text(vs@, spec_split(val, ','), r.name@);
            }
        },
        _ => {},
    }
}

/// What the condition that a known key and its value give says of a
/// tag `r`: `key` names the column it reads and how it compares it with
/// the value (equal, greater, less, one of a comma separated list, or an
/// SQL `LIKE` pattern).
pub proof fn law_tag_condition_meaning(key: Seq<char>, val: Seq<char>, c: TagCondition, r: Tag)
    requires
        tag_condition_parsed(key, val, c),
    ensures
        tag_eval(c, r) == (if key == "id"@ {
            Some(r.id == spec_parse_i32(val)->0)
        } else if key == "id_gt"@ {
            Some(r.id > spec_parse_i32(val)->0)
        } else if key == "id_lt"@ {
            Some(r.id < spec_parse_i32(val)->0)
        } else if key == "id_in"@ {
            Some(spec_parse_i32_list(val)->0.contains(r.id))
        } else if key == "name"@ {
            Some(r.name@ == val)
        } else if key == "name_like"@ {
            Some(like_match(r.name@, val))
        } else if key == "name_in"@ {
            Some(spec_split(val, ',').contains(r.name@))
        } else if key == "ref_count"@ {
            Some(r.reference_count == spec_parse_i32(val)->0)
        } else if key == "ref_count_gt"@ {
            Some(r.reference_count > spec_parse_i32(val)->0)
        } else if key == "ref_count_lt"@ {
            Some(r.reference_count < spec_parse_i32(val)->0)
        } else if key == "ref_count_in"@ {
            Some(spec_parse_i32_list(val)->0.contains(r.reference_count))
        } else {
            None
        }),
{
    match c {
        TagCondition::NameIn(vs) => {
            if key == "name_in"@ {
                lemma_listed_text(vs@, spec_split(val, ','), r.name@);
            }
        },
        _ => {},
    }
}

/// What the ordering that a word `field:direction` gives means for two
/// files: `a` comes before `b` when the column that `field` names is
/// smaller in `a` (larger, for a descending direction).
pub proof fn law_file_order_meaning(arg: Seq<char>, a: File, b: File)
    requires
        file_order_for(arg) is Some,
    ensures
        ({
            let parts = spec_split(arg, ':');
            let d = if lowers_to(parts[1], "asc"@) {
                OrderDirection::Asc
            } else {
                OrderDirection::Desc
            };
            file_before(a, b, file_order_for(arg)->0) == (if parts[0] == "id"@ {
            int_before(d, a.id as int, b.id as int)
        } else if parts[0] == "type"@ {
            text_before(d, a.type_@, b.type_@)
        } else if parts[0] == "path"@ {
            text_before(d, a.path@, b.path@)
        } else if parts[0] == "ref_count"@ {
            int_before(d, a.reference_count as int, b.reference_count as int)
        } else if parts[0] == "group_id"@ {
            int_before(d, a.group_id as int, b.group_id as int)
        } else {
            false
        })
        }),
{
}

/// What the ordering that a word `field:direction` gives means for two
/// groups: `a` comes before `b` when the column that `field` names is
/// smaller in `a` (larger, for a descending direction).
pub proof fn law_group_order_meaning(arg: Seq<char>, a: Group, b: Group)
    requires
        group_order_for(arg) is Some,
    ensures
        ({
            let parts = spec_split(arg, ':');
            let d = if lowers_to(parts[1], "asc"@) {
                OrderDirection::Asc
            } else {
                OrderDirection::Desc
            };
            group_before(a, b, group_order_for(arg)->0) == (if parts[0] == "id"@ {
            int_before(d, a.id as int, b.id as int)
        } else if parts[0] == "name"@ {
            text_before(d, a.name@, b.name@)
        } else if parts[0] == "ref_count"@ {
            int_before(d, a.reference_count as int, b.reference_count as int)
        } else if parts[0] == "is_primary"@ {
            int_before(d, flag_value(a.is_primary), flag_value(b.is_primary))
        } else if parts[0] == "click_count"@ {
            int_before(d, a.click_count as int, b.click_count as int)
        } else if parts[0] == "share_count"@ {
            int_before(d, a.share_count as int, b.share_count as int)
        } else if parts[0] == "create_time"@ {
            int_before(d, a.create_time as int, b.create_time as int)
        } else if parts[0] == "modify_time"@ {
            int_before(d, a.modify_time as int, b.modify_time as int)
        } else {
            false
        })
        }),
{
}

/// What the ordering that a word `field:direction` gives means for two
/// tags: `a` comes before `b` when the column that `field` names is
/// smaller in `a` (larger, for a descending direction).
pub proof fn law_tag_order_meaning(arg: Seq<char>, a: Tag, b: Tag)
    requires
        tag_order_for(arg) is Some,
    ensures
        ({
            let parts = spec_split(arg, ':');
            let d = if lowers_to(parts[1], "asc"@) {
                OrderDirection::Asc
            } else {
                OrderDirection::Desc
            };
            tag_before(a, b, tag_order_for(arg)->0) == (if parts[0] == "id"@ {
            int_before(d, a.id as int, b.id as int)
        } else if parts[0] == "name"@ {
            text_before(d, a.name@, b.name@)
        } else if parts[0] == "ref_count"@ {
            int_before(d, a.reference_count as int, b.reference_count as int)
        } else {
            false
        })
        }),
{
}

/// What the condition that a known key and its value give says of a
/// file/group link `r`: `key` names the column it reads and how it compares it
/// with the value (equal, greater, less, or one of a comma separated list).
pub proof fn law_file_group_condition_meaning(key: Seq<char>, val: Seq<char>, c: FileGroupCondition, r: FileGroupDTO)
    requires
        file_group_condition_parsed(key, val, c),
    ensures
        crate::query::file_group_eval(c, r) == (if key == "file_id"@ {
            Some(r.file_id == spec_parse_i32(val)->0)
        } else if key == "file_id_gt"@ {
            Some(r.file_id > spec_parse_i32(val)->0)
        } else if key == "file_id_lt"@ {
            Some(r.file_id < spec_parse_i32(val)->0)
        } else if key == "file_id_in"@ {
            Some(spec_parse_i32_list(val)->0.contains(r.file_id))
        } else if key == "group_id"@ {
            Some(r.group_id == spec_parse_i32(val)->0)
        } else if key == "group_id_gt"@ {
            Some(r.group_id > spec_parse_i32(val)->0)
        } else if key == "group_id_lt"@ {
            Some(r.group_id < spec_parse_i32(val)->0)
        } else if key == "group_id_in"@ {
            Some(spec_parse_i32_list(val)->0.contains(r.group_id))
        } else if key == "relation_type"@ {
            Some(r.relation_type == spec_parse_i32(val)->0)
        } else if key == "relation_type_gt"@ {
            Some(r.relation_type > spec_parse_i32(val)->0)
        } else if key == "relation_type_lt"@ {
            Some(r.relation_type < spec_parse_i32(val)->0)
        } else if key == "relation_type_in"@ {
            Some(spec_parse_i32_list(val)->0.contains(r.relation_type))
        } else {
            None
        }),
{
}

/// What the condition that a known key and its value give says of a
/// group/tag link `r`: `key` names the column it reads and how it compares it
/// with the value (equal, greater, less, or one of a comma separated list).
pub proof fn law_group_tag_condition_meaning(key: Seq<char>, val: Seq<char>, c: GroupTagCondition, r: GroupTagDTO)
    requires
        group_tag_condition_parsed(key, val, c),
    ensures
        crate::query::group_tag_eval(c, r) == (if key == "group_id"@ {
            Some(r.group_id == spec_parse_i32(val)->0)
        } else if key == "group_id_gt"@ {
            Some(r.group_id > spec_parse_i32(val)->0)
        } else if key == "group_id_lt"@ {
            Some(r.group_id < spec_parse_i32(val)->0)
        } else if key == "group_id_in"@ {
            Some(spec_parse_i32_list(val)->0.contains(r.group_id))
        } else if key == "tag_id"@ {
            Some(r.tag_id == spec_parse_i32(val)->0)
        } else if key == "tag_id_gt"@ {
            Some(r.tag_id > spec_parse_i32(val)->0)
        } else if key == "tag_id_lt"@ {
            Some(r.tag_id < spec_parse_i32(val)->0)
        } else if key == "tag_id_in"@ {
            Some(spec_parse_i32_list(val)->0.contains(r.tag_id))
        } else {
            None
        }),
{
}

/// What the condition that a known key and its value give says of a
/// group relation `r`: `key` names the column it reads and how it compares it
/// with the value (equal, greater, less, or one of a comma separated list).
pub proof fn law_group_relation_condition_meaning(key: Seq<char>, val: Seq<char>, c: GroupRelationCondition, r: GroupRelation)
    requires
        group_relation_condition_parsed(key, val, c),
    ensures
        crate::query::group_relation_eval(c, r) == (if key == "first_group_id"@ {
            Some(r.first_group_id == spec_parse_i32(val)->0)
        } else if key == "first_group_id_gt"@ {
            Some(r.first_group_id > spec_parse_i32(val)->0)
        } else if key == "first_group_id_lt"@ {
            Some(r.first_group_id < spec_parse_i32(val)->0)
        } else if key == "first_group_id_in"@ {
            Some(spec_parse_i32_list(val)->0.contains(r.first_group_id))
        } else if key == "second_group_id"@ {
            Some(r.second_group_id == spec_parse_i32(val)->0)
        } else if key == "second_group_id_gt"@ {
            Some(r.second_group_id > spec_parse_i32(val)->0)
        } else if key == "second_group_id_lt"@ {
            Some(r.second_group_id < spec_parse_i32(val)->0)
        } else if key == "second_group_id_in"@ {
            Some(spec_parse_i32_list(val)->0.contains(r.second_group_id))
        } else if key == "relation_type"@ {
            Some(r.relation_type == spec_parse_i32(val)->0)
        } else if key == "relation_type_gt"@ {
            Some(r.relation_type > spec_parse_i32(val)->0)
        } else if key == "relation_type_lt"@ {
            Some(r.relation_type < spec_parse_i32(val)->0)
        } else if key == "relation_type_in"@ {
            Some(spec_parse_i32_list(val)->0.contains(r.relation_type))
        } else {
            None
        }),
{
}

/// What the ordering that a word `field:direction` gives means for two
/// file/group links: `a` comes before `b` when the column that `field` names is
/// smaller in `a` (larger, for a descending direction).
pub proof fn law_file_group_order_meaning(arg: Seq<char>, a: FileGroupDTO, b: FileGroupDTO)
    requires
        file_group_order_for(arg) is Some,
    ensures
        ({
            let parts = spec_split(arg, ':');
            let d = if lowers_to(parts[1], "asc"@) {
                OrderDirection::Asc
            } else {
                OrderDirection::Desc
            };
            crate::sorting::file_group_before(a, b, file_group_order_for(arg)->0) == (if parts[0] == "file_id"@ {
            int_before(d, a.file_id as int, b.file_id as int)
        } else if parts[0] == "group_id"@ {
            int_before(d, a.group_id as int, b.group_id as int)
        } else {
            false
        })
        }),
{
}

/// What the ordering that a word `field:direction` gives means for two
/// group/tag links: `a` comes before `b` when the column that `field` names is
/// smaller in `a` (larger, for a descending direction).
pub proof fn law_group_tag_order_meaning(arg: Seq<char>, a: GroupTagDTO, b: GroupTagDTO)
    requires
        group_tag_order_for(arg) is Some,
    ensures
        ({
            let parts = spec_split(arg, ':');
            let d = if lowers_to(parts[1], "asc"@) {
                OrderDirection::Asc
            } else {
                OrderDirection::Desc
            };
            crate::sorting::group_tag_before(a, b, group_tag_order_for(arg)->0) == (if parts[0] == "group_id"@ {
            int_before(d, a.group_id as int, b.group_id as int)
        } else if parts[0] == "tag_id"@ {
            int_before(d, a.tag_id as int, b.tag_id as int)
        } else {
            false
        })
        }),
{
}

/// What the ordering that a word `field:direction` gives means for two
/// group relations: `a` comes before `b` when the column that `field` names is
/// smaller in `a` (larger, for a descending direction).
pub proof fn law_group_relation_order_meaning(arg: Seq<char>, a: GroupRelation, b: GroupRelation)
    requires
        group_relation_order_for(arg) is Some,
    ensures
        ({
            let parts = spec_split(arg, ':');
            let d = if parts.len() == 2 && parts[1] == "desc"@ {
                OrderDirection::Desc
            } else {
                OrderDirection::Asc
            };
            crate::sorting::group_relation_before(a, b, group_relation_order_for(arg)->0) == (if parts[0] == "first_group_id"@ {
            int_before(d, a.first_group_id as int, b.first_group_id as int)
        } else if parts[0] == "second_group_id"@ {
            int_before(d, a.second_group_id as int, b.second_group_id as int)
        } else if parts[0] == "relation_type"@ {
            int_before(d, a.relation_type as int, b.relation_type as int)
        } else {
            false
        })
        }),
{
}

/// `idx` gives, for each condition of `out`, the position of the key word
/// it was parsed from: a known key at or after `lo`, followed by its value;
/// the pairs do not overlap and come in the order of the conditions.
pub open spec fn group_pairs_used(args: Seq<Seq<char>>, out: Seq<GroupCondition>, idx: Seq<int>, lo: int) -> bool {
    &&& idx.len() == out.len()
    &&& forall|j: int| 0 <= j < idx.len() ==> lo <= #[trigger] idx[j] && idx[j] + 1 < args.len()
        && group_condition_key(args[idx[j]]) && group_condition_parsed(args[idx[j]], args[idx[j] + 1], out[j])
    &&& forall|j: int| 0 <= j < idx.len() - 1 ==> #[trigger] idx[j] + 2 <= idx[j + 1]
}

/// Every condition parsed from `args` from position `i` on comes from a
/// `key value` pair of a known key at or after `i`, the pairs used do not
/// overlap and keep the order of the words, so at most half of the
/// remaining words give a condition.
pub proof fn law_group_conditions_from_pairs(args: Seq<Seq<char>>, i: int, out: Seq<GroupCondition>) -> (idx: Seq<int>)
    requires
        0 <= i <= args.len(),
        group_conditions_from(args, i, out),
    ensures
        group_pairs_used(args, out, idx, i),
        2 * out.len() <= args.len() - i,
    decreases args.len() - i,
{
    if i >= args.len() {
        Seq::<int>::empty()
    } else if i + 1 < args.len() && group_condition_key(args[i]) {
        if group_condition_yields(args[i], args[i + 1]) {
            let rest = law_group_conditions_from_pairs(args, i + 2, out.drop_first());
            let idx = seq![i] + rest;
            assert forall|j: int| 0 <= j < idx.len() implies i <= #[trigger] idx[j] && idx[j] + 1 < args.len()
                && group_condition_key(args[idx[j]]) && group_condition_parsed(args[idx[j]], args[idx[j] + 1], out[j]) by {
                if j > 0 {
                    assert(idx[j] == rest[j - 1]);
                    assert(out.drop_first()[j - 1] == out[j]);
                }
            }
            assert forall|j: int| 0 <= j < idx.len() - 1 implies #[trigger] idx[j] + 2 <= idx[j + 1] by {
                assert(idx[j + 1] == rest[j]);
                if j > 0 {
                    assert(idx[j] == rest[j - 1]);
                }
            }
            idx
        } else {
            law_group_conditions_from_pairs(args, i + 2, out)
        }
    } else {
        law_group_conditions_from_pairs(args, i + 1, out)
    }
}

} // verus!

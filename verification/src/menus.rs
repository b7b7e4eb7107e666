//! The numbered menus of the interactive query and update tools: what a
//! number typed at a menu selects, and the condition or change that a
//! typed answer gives.
use vstd::prelude::*;
use crate::models::{GroupCondition, GroupTagCondition, UpdateGroupDTO};
use crate::shell::{trim_white, trimmed};
use crate::text::{lowercase_is, lowers_to, parse_i32, spec_parse_i32};

verus! {

/// Which menu is shown: the first one, the one of the parts of an AND or
/// OR, or the one of the condition under a NOT.
#[derive(Clone, Copy, Debug, PartialEq, Eq, Structural)]
pub enum MenuLevel {
    Top,
    Combined,
    Negated,
}

/// The group fields and comparisons of the menu, numbered from 1 in this
/// order.
#[derive(Clone, Copy, Debug, PartialEq, Eq, Structural)]
pub enum GroupField {
    Id,
    IdGreaterThan,
    IdLessThan,
    Name,
    NameLike,
    ReferenceCount,
    ReferenceCountGreaterThan,
    ReferenceCountLessThan,
    IsPrimary,
    ClickCount,
    ClickCountGreaterThan,
    ClickCountLessThan,
    ShareCount,
    ShareCountGreaterThan,
    ShareCountLessThan,
}

/// What a number typed at a group menu selects.
#[derive(Clone, Copy, Debug, PartialEq, Eq, Structural)]
pub enum GroupMenuChoice {
    /// Stop adding conditions.
    Finish,
    /// Ask for a value of the field.
    Ask(GroupField),
    /// Read the parts of an AND.
    All,
    /// Read the parts of an OR.
    Any,
    /// Read the condition under a NOT.
    Negate,
    Invalid,
}

/// The group field with menu number `n`.
pub open spec fn group_field_numbered(n: int) -> Option<GroupField> {
    if n == 1 {
        Some(GroupField::Id)
    } else if n == 2 {
        Some(GroupField::IdGreaterThan)
    } else if n == 3 {
        Some(GroupField::IdLessThan)
    } else if n == 4 {
        Some(GroupField::Name)
    } else if n == 5 {
        Some(GroupField::NameLike)
    } else if n == 6 {
        Some(GroupField::ReferenceCount)
    } else if n == 7 {
        Some(GroupField::ReferenceCountGreaterThan)
    } else if n == 8 {
        Some(GroupField::ReferenceCountLessThan)
    } else if n == 9 {
        Some(GroupField::IsPrimary)
    } else if n == 10 {
        Some(GroupField::ClickCount)
    } else if n == 11 {
        Some(GroupField::ClickCountGreaterThan)
    } else if n == 12 {
        Some(GroupField::ClickCountLessThan)
    } else if n == 13 {
        Some(GroupField::ShareCount)
    } else if n == 14 {
        Some(GroupField::ShareCountGreaterThan)
    } else if n == 15 {
        Some(GroupField::ShareCountLessThan)
    } else {
        None
    }
}

/// What `n` selects at a group menu of `level`: 0 finishes (not under a
/// NOT), 1 to 15 ask for a field, and on the first menu 16, 17 and 18
/// start an AND, an OR and a NOT.
pub open spec fn group_menu_meaning(n: int, level: MenuLevel) -> GroupMenuChoice {
    if n == 0 && level != MenuLevel::Negated {
        GroupMenuChoice::Finish
    } else if group_field_numbered(n) is Some {
        GroupMenuChoice::Ask(group_field_numbered(n)->0)
    } else if level == MenuLevel::Top && n == 16 {
        GroupMenuChoice::All
    } else if level == MenuLevel::Top && n == 17 {
        GroupMenuChoice::Any
    } else if level == MenuLevel::Top && n == 18 {
        GroupMenuChoice::Negate
    } else {
        GroupMenuChoice::Invalid
    }
}

/// What `n` selects at a group menu of `level`.
pub fn group_menu_choice(n: i32, level: MenuLevel) -> (r: GroupMenuChoice)
    ensures
        r == group_menu_meaning(n as int, level),
{
    if n == 0 && level != MenuLevel::Negated {
        return GroupMenuChoice::Finish;
    }
    let field = if n == 1 {
        GroupField::Id
    } else if n == 2 {
        GroupField::IdGreaterThan
    } else if n == 3 {
        GroupField::IdLessThan
    } else if n == 4 {
        GroupField::Name
    } else if n == 5 {
        GroupField::NameLike
    } else if n == 6 {
        GroupField::ReferenceCount
    } else if n == 7 {
        GroupField::ReferenceCountGreaterThan
    } else if n == 8 {
        GroupField::ReferenceCountLessThan
    } else if n == 9 {
        GroupField::IsPrimary
    } else if n == 10 {
        GroupField::ClickCount
    } else if n == 11 {
        GroupField::ClickCountGreaterThan
    } else if n == 12 {
        GroupField::ClickCountLessThan
    } else if n == 13 {
        GroupField::ShareCount
    } else if n == 14 {
        GroupField::ShareCountGreaterThan
    } else if n == 15 {
        GroupField::ShareCountLessThan
    } else if level == MenuLevel::Top && n == 16 {
        return GroupMenuChoice::All;
    } else if level == MenuLevel::Top && n == 17 {
        return GroupMenuChoice::Any;
    } else if level == MenuLevel::Top && n == 18 {
        return GroupMenuChoice::Negate;
    } else {
        return GroupMenuChoice::Invalid;
    };
    GroupMenuChoice::Ask(field)
}

/// The number typed at a menu: the line without surrounding white space,
/// read as a number; 0 when it is none.
pub open spec fn menu_number_of(line: Seq<char>) -> i32 {
    match spec_parse_i32(trimmed(line)) {
        Some(v) => v,
        None => 0,
    }
}

/// The number typed at a menu, as `menu_number_of` says.
pub fn menu_number(line: &str) -> (r: i32)
    ensures
        r == menu_number_of(line@),
{
    let t = trim_white(line);
    match parse_i32(t.as_str()) {
        Some(v) => v,
        None => 0,
    }
}

/// Whether a typed answer agrees: `y` in either case, after white space is
/// taken off.
pub open spec fn says_yes_of(line: Seq<char>) -> bool {
    lowers_to(trimmed(line), "y"@)
}

/// Whether a typed answer agrees, as `says_yes_of` says.
pub fn says_yes(line: &str) -> (r: bool)
    ensures
        r == says_yes_of(line@),
{
    let t = trim_white(line);
    lowercase_is(t.as_str(), "y")
}

/// The truth value that an answer of the query tool gives: `true`, `t`,
/// `yes`, `y` or `1`, or `false`, `f`, `no`, `n` or `0`, in any case and
/// without surrounding white space.
pub open spec fn query_flag_of(answer: Seq<char>) -> Option<bool> {
    let t = trimmed(answer);
    if lowers_to(t, "true"@) || lowers_to(t, "t"@) || lowers_to(t, "yes"@) || lowers_to(t, "y"@) || t == "1"@ {
        Some(true)
    } else if lowers_to(t, "false"@) || lowers_to(t, "f"@) || lowers_to(t, "no"@) || lowers_to(t, "n"@) || t == "0"@ {
        Some(false)
    } else {
        None
    }
}

/// The truth value that an answer of the query tool gives.
pub fn query_flag(answer: &str) -> (r: Option<bool>)
    ensures
        r == query_flag_of(answer@),
{
    let t = trim_white(answer);
    let s = t.as_str();
    if lowercase_is(s, "true") || lowercase_is(s, "t") || lowercase_is(s, "yes") || lowercase_is(s, "y")
        || crate::text::str_eq(s, "1") {
        Some(true)
    } else if lowercase_is(s, "false") || lowercase_is(s, "f") || lowercase_is(s, "no") || lowercase_is(s, "n")
        || crate::text::str_eq(s, "0") {
        Some(false)
    } else {
        None
    }
}

/// The truth value that an answer of the update tool gives: `true`, `1`,
/// `yes` or `y`, or `false`, `0`, `no` or `n`, in any case and without
/// surrounding white space.
pub open spec fn update_flag_of(answer: Seq<char>) -> Option<bool> {
    let t = trimmed(answer);
    if lowers_to(t, "true"@) || t == "1"@ || lowers_to(t, "yes"@) || lowers_to(t, "y"@) {
        Some(true)
    } else if lowers_to(t, "false"@) || t == "0"@ || lowers_to(t, "no"@) || lowers_to(t, "n"@) {
        Some(false)
    } else {
        None
    }
}

/// The truth value that an answer of the update tool gives.
pub fn update_flag(answer: &str) -> (r: Option<bool>)
    ensures
        r == update_flag_of(answer@),
{
    let t = trim_white(answer);
    let s = t.as_str();
    if lowercase_is(s, "true") || crate::text::str_eq(s, "1") || lowercase_is(s, "yes") || lowercase_is(s, "y") {
        Some(true)
    } else if lowercase_is(s, "false") || crate::text::str_eq(s, "0") || lowercase_is(s, "no") || lowercase_is(s, "n") {
        Some(false)
    } else {
        None
    }
}

/// The number that an answer gives: the answer without surrounding white
/// space, read as a number.
pub open spec fn answer_number_of(answer: Seq<char>) -> Option<i32> {
    spec_parse_i32(trimmed(answer))
}

/// The number that an answer gives.
pub fn answer_number(answer: &str) -> (r: Option<i32>)
    ensures
        r == answer_number_of(answer@),
{
    let t = trim_white(answer);
    parse_i32(t.as_str())
}

/// The text that an answer gives: the answer without surrounding white
/// space, when that is not empty.
pub fn answer_text(answer: &str) -> (r: Option<String>)
    ensures
        match r {
            Some(t) => t@ == trimmed(answer@) && t@.len() > 0,
            None => trimmed(answer@).len() == 0,
        },
{
    let t = trim_white(answer);
    if t.unicode_len() == 0 {
        None
    } else {
        Some(t)
    }
}

/// The tool that asks: the query tool and the update tool read a primary
/// flag with different words.
#[derive(Clone, Copy, Debug, PartialEq, Eq, Structural)]
pub enum Tool {
    Query,
    Update,
}

/// The truth value that an answer gives at `tool`.
pub open spec fn flag_of(tool: Tool, answer: Seq<char>) -> Option<bool> {
    match tool {
        Tool::Query => query_flag_of(answer),
        Tool::Update => update_flag_of(answer),
    }
}

/// `c` is the condition on `field` that `answer` gives at `tool`.
pub open spec fn group_answer_is(tool: Tool, field: GroupField, answer: Seq<char>, c: Option<GroupCondition>) -> bool {
    let n = answer_number_of(answer);
    let t = trimmed(answer);
    match field {
        GroupField::Name => if t.len() > 0 { c matches Some(GroupCondition::Name(x)) && x@ == t } else { c is None },
        GroupField::NameLike => if t.len() > 0 {
            c matches Some(GroupCondition::NameLike(x)) && x@ == t
        } else {
            c is None
        },
        GroupField::IsPrimary => c == match flag_of(tool, answer) {
            Some(b) => Some(GroupCondition::IsPrimary(b)),
            None => None,
        },
        _ => match n {
            None => c is None,
            Some(v) => c == Some(match field {
                GroupField::Id => GroupCondition::Id(v),
                GroupField::IdGreaterThan => GroupCondition::IdGreaterThan(v),
                GroupField::IdLessThan => GroupCondition::IdLessThan(v),
                GroupField::ReferenceCount => GroupCondition::ReferenceCount(v),
                GroupField::ReferenceCountGreaterThan => GroupCondition::ReferenceCountGreaterThan(v),
                GroupField::ReferenceCountLessThan => GroupCondition::ReferenceCountLessThan(v),
                GroupField::ClickCount => GroupCondition::ClickCount(v),
                GroupField::ClickCountGreaterThan => GroupCondition::ClickCountGreaterThan(v),
                GroupField::ClickCountLessThan => GroupCondition::ClickCountLessThan(v),
                GroupField::ShareCount => GroupCondition::ShareCount(v),
                GroupField::ShareCountGreaterThan => GroupCondition::ShareCountGreaterThan(v),
                _ => GroupCondition::ShareCountLessThan(v),
            }),
        },
    }
}

/// The condition on `field` that `answer` gives at `tool`, if any.
pub fn group_condition_from_answer(tool: Tool, field: GroupField, answer: &str) -> (r: Option<GroupCondition>)
    ensures
        group_answer_is(tool, field, answer@, r),
{
    match field {
        GroupField::Name => match answer_text(answer) {
            Some(t) => Some(GroupCondition::Name(t)),
            None => None,
        },
        GroupField::NameLike => match answer_text(answer) {
            Some(t) => Some(GroupCondition::NameLike(t)),
            None => None,
        },
        GroupField::IsPrimary => {
            let flag = match tool {
                Tool::Query => query_flag(answer),
                Tool::Update => update_flag(answer),
            };
            match flag {
                Some(b) => Some(GroupCondition::IsPrimary(b)),
                None => None,
            }
        },
        _ => match answer_number(answer) {
            None => None,
            Some(v) => Some(match field {
                GroupField::Id => GroupCondition::Id(v),
                GroupField::IdGreaterThan => GroupCondition::IdGreaterThan(v),
                GroupField::IdLessThan => GroupCondition::IdLessThan(v),
                GroupField::ReferenceCount => GroupCondition::ReferenceCount(v),
                GroupField::ReferenceCountGreaterThan => GroupCondition::ReferenceCountGreaterThan(v),
                GroupField::ReferenceCountLessThan => GroupCondition::ReferenceCountLessThan(v),
                GroupField::ClickCount => GroupCondition::ClickCount(v),
                GroupField::ClickCountGreaterThan => GroupCondition::ClickCountGreaterThan(v),
                GroupField::ClickCountLessThan => GroupCondition::ClickCountLessThan(v),
                GroupField::ShareCount => GroupCondition::ShareCount(v),
                GroupField::ShareCountGreaterThan => GroupCondition::ShareCountGreaterThan(v),
                _ => GroupCondition::ShareCountLessThan(v),
            }),
        },
    }
}

/// The group/tag link fields and comparisons of the menu, numbered from 1
/// in this order.
#[derive(Clone, Copy, Debug, PartialEq, Eq, Structural)]
pub enum GroupTagField {
    GroupId,
    GroupIdGreaterThan,
    GroupIdLessThan,
    TagId,
    TagIdGreaterThan,
    TagIdLessThan,
}

/// What a number typed at a group/tag link menu selects.
#[derive(Clone, Copy, Debug, PartialEq, Eq, Structural)]
pub enum GroupTagMenuChoice {
    Finish,
    Ask(GroupTagField),
    All,
    Any,
    Negate,
    Invalid,
}

/// The link field with menu number `n`.
pub open spec fn group_tag_field_numbered(n: int) -> Option<GroupTagField> {
    if n == 1 {
        Some(GroupTagField::GroupId)
    } else if n == 2 {
        Some(GroupTagField::GroupIdGreaterThan)
    } else if n == 3 {
        Some(GroupTagField::GroupIdLessThan)
    } else if n == 4 {
        Some(GroupTagField::TagId)
    } else if n == 5 {
        Some(GroupTagField::TagIdGreaterThan)
    } else if n == 6 {
        Some(GroupTagField::TagIdLessThan)
    } else {
        None
    }
}

/// What `n` selects at a link menu of `level`: 0 finishes (not under a
/// NOT), 1 to 6 ask for a field, and on the first menu 7, 8 and 9 start an
/// AND, an OR and a NOT.
pub open spec fn group_tag_menu_meaning(n: int, level: MenuLevel) -> GroupTagMenuChoice {
    if n == 0 && level != MenuLevel::Negated {
        GroupTagMenuChoice::Finish
    } else if group_tag_field_numbered(n) is Some {
        GroupTagMenuChoice::Ask(group_tag_field_numbered(n)->0)
    } else if level == MenuLevel::Top && n == 7 {
        GroupTagMenuChoice::All
    } else if level == MenuLevel::Top && n == 8 {
        GroupTagMenuChoice::Any
    } else if level == MenuLevel::Top && n == 9 {
        GroupTagMenuChoice::Negate
    } else {
        GroupTagMenuChoice::Invalid
    }
}

/// What `n` selects at a link menu of `level`.
pub fn group_tag_menu_choice(n: i32, level: MenuLevel) -> (r: GroupTagMenuChoice)
    ensures
        r == group_tag_menu_meaning(n as int, level),
{
    if n == 0 && level != MenuLevel::Negated {
        GroupTagMenuChoice::Finish
    } else if n == 1 {
        GroupTagMenuChoice::Ask(GroupTagField::GroupId)
    } else if n == 2 {
        GroupTagMenuChoice::Ask(GroupTagField::GroupIdGreaterThan)
    } else if n == 3 {
        GroupTagMenuChoice::Ask(GroupTagField::GroupIdLessThan)
    } else if n == 4 {
        GroupTagMenuChoice::Ask(GroupTagField::TagId)
    } else if n == 5 {
        GroupTagMenuChoice::Ask(GroupTagField::TagIdGreaterThan)
    } else if n == 6 {
        GroupTagMenuChoice::Ask(GroupTagField::TagIdLessThan)
    } else if level == MenuLevel::Top && n == 7 {
        GroupTagMenuChoice::All
    } else if level == MenuLevel::Top && n == 8 {
        GroupTagMenuChoice::Any
    } else if level == MenuLevel::Top && n == 9 {
        GroupTagMenuChoice::Negate
    } else {
        GroupTagMenuChoice::Invalid
    }
}

/// The condition on a link field that a number gives.
pub open spec fn group_tag_condition_of(field: GroupTagField, v: i32) -> GroupTagCondition {
    match field {
        GroupTagField::GroupId => GroupTagCondition::GroupId(v),
        GroupTagField::GroupIdGreaterThan => GroupTagCondition::GroupIdGreaterThan(v),
        GroupTagField::GroupIdLessThan => GroupTagCondition::GroupIdLessThan(v),
        GroupTagField::TagId => GroupTagCondition::TagId(v),
        GroupTagField::TagIdGreaterThan => GroupTagCondition::TagIdGreaterThan(v),
        GroupTagField::TagIdLessThan => GroupTagCondition::TagIdLessThan(v),
    }
}

/// The condition on a link field that `answer` gives, if it is a number.
pub fn group_tag_condition_from_answer(field: GroupTagField, answer: &str) -> (r: Option<GroupTagCondition>)
    ensures
        r == match answer_number_of(answer@) {
            Some(v) => Some(group_tag_condition_of(field, v)),
            None => None,
        },
{
    match answer_number(answer) {
        Some(v) => Some(match field {
            GroupTagField::GroupId => GroupTagCondition::GroupId(v),
            GroupTagField::GroupIdGreaterThan => GroupTagCondition::GroupIdGreaterThan(v),
            GroupTagField::GroupIdLessThan => GroupTagCondition::GroupIdLessThan(v),
            GroupTagField::TagId => GroupTagCondition::TagId(v),
            GroupTagField::TagIdGreaterThan => GroupTagCondition::TagIdGreaterThan(v),
            GroupTagField::TagIdLessThan => GroupTagCondition::TagIdLessThan(v),
        }),
        None => None,
    }
}

/// The change that the answers of the update tool give: a name, a
/// reference count, a primary flag, a click count and a share count, each
/// left out when its answer gives none, and the modification time `now`.
pub fn group_update_from_answers(
    name: &str,
    reference_count: &str,
    is_primary: &str,
    click_count: &str,
    share_count: &str,
    now: i64,
) -> (r: UpdateGroupDTO)
    ensures
        r.id is None,
        match r.name {
            Some(t) => t@ == trimmed(name@) && t@.len() > 0,
            None => trimmed(name@).len() == 0,
        },
        r.reference_count == answer_number_of(reference_count@),
        r.is_primary == update_flag_of(is_primary@),
        r.click_count == answer_number_of(click_count@),
        r.share_count == answer_number_of(share_count@),
        r.create_time is None,
        r.modify_time == Some(now),
        r.description is None,
{
    UpdateGroupDTO {
        id: None,
        name: answer_text(name),
        reference_count: answer_number(reference_count),
        is_primary: update_flag(is_primary),
        click_count: answer_number(click_count),
        share_count: answer_number(share_count),
        create_time: None,
        modify_time: Some(now),
        description: None,
    }
}

/// What the condition that an answer at group menu number `n` gives says of
/// a group `g`: 1 to 3 compare the id with the number typed (equal,
/// greater, less), 4 and 5 the name with the text (equal, SQL `LIKE`),
/// 6 to 8 the reference count, 9 the primary flag, 10 to 12 the clicks and
/// 13 to 15 the shares.
pub proof fn law_group_menu_condition_meaning(tool: Tool, n: int, answer: Seq<char>, c: GroupCondition, g: crate::models::Group)
    requires
        group_field_numbered(n) is Some,
        group_answer_is(tool, group_field_numbered(n)->0, answer, Some(c)),
    ensures
        ({
            let v = answer_number_of(answer)->0;
            let t = trimmed(answer);
            crate::query::group_eval(c, g) == Some(if n == 1 {
                g.id == v
            } else if n == 2 {
                g.id > v
            } else if n == 3 {
                g.id < v
            } else if n == 4 {
                g.name@ == t
            } else if n == 5 {
                crate::query::like_match(g.name@, t)
            } else if n == 6 {
                g.reference_count == v
            } else if n == 7 {
                g.reference_count > v
            } else if n == 8 {
                g.reference_count < v
            } else if n == 9 {
                g.is_primary == flag_of(tool, answer)->0
            } else if n == 10 {
                g.click_count == v
            } else if n == 11 {
                g.click_count > v
            } else if n == 12 {
                g.click_count < v
            } else if n == 13 {
                g.share_count == v
            } else if n == 14 {
                g.share_count > v
            } else if n == 15 {
                g.share_count < v
            } else {
                false
            })
        }),
{
}

/// What the condition that an answer gives for link field number `n` says
/// of a link `l`: 1 to 3 compare the group id with the number typed
/// (equal, greater, less), 4 to 6 the tag id.
pub proof fn law_group_tag_menu_condition_meaning(n: int, v: i32, l: crate::models::GroupTagDTO)
    requires
        group_tag_field_numbered(n) is Some,
    ensures
        crate::query::group_tag_eval(group_tag_condition_of(group_tag_field_numbered(n)->0, v), l) == Some(if n == 1 {
            l.group_id == v
        } else if n == 2 {
            l.group_id > v
        } else if n == 3 {
            l.group_id < v
        } else if n == 4 {
            l.tag_id == v
        } else if n == 5 {
            l.tag_id > v
        } else {
            l.tag_id < v
        }),
{
}

} // verus!

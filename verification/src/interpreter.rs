//! The expression interpreter: an expression `entity action params`, such
//! as `file list --where id=3 --limit 5` or `tag create urgent`, is read
//! into a request, which is then carried out on the catalogue.
use vstd::prelude::*;
use crate::context::Context;
use crate::errors::{AppError, DbError};
use crate::models::{
    CreateFileDTO, CreateGroupDTO, CreateTagDTO, File, FileCondition, FileGroupDTO, FileOrderBy, FileQueryOptions, Group,
    GroupCondition, GroupOrderBy, GroupQueryOptions, GroupTagDTO, OrderDirection, Tag, TagCondition, TagOrderBy,
    TagQueryOptions,
};
use crate::query::{files_where, groups_where, skip_offset, tags_where, take_limit};
use crate::service::file_group::{create_file_group, create_file_group_error, fg_link_added};
use crate::service::files::{create_file, create_file_error, file_created, files_arranged, get_file_by_id, select_files_by_conditions_with_options};
use crate::service::group_tag::{create_group_tag, create_group_tag_error, gt_link_added};
use crate::service::groups::{
    create_group, get_group_by_id, group_created, group_creation_refused, groups_arranged,
    select_groups_by_conditions_with_options,
};
use crate::service::tags::{
    create_tag, get_tag_by_id, select_tags_by_conditions_with_options, tag_created, tag_creation_refused, tags_arranged,
};
use crate::store::{file_of, group_of, has_file, has_group, has_tag, tag_of, Database};
use crate::shell::{split_words, trim_white, trimmed, views, words};
use crate::text::{parse_i32, parse_i64, spec_parse_i32, spec_parse_i64, spec_split, split_on, str_eq};

verus! {

/// The options of a `list` expression: the conditions given with `--where`,
/// the column given with `--order-by`, and `--limit` and `--offset`.
pub struct ListArgs {
    pub conditions: Vec<String>,
    pub order_by: Option<String>,
    pub limit: Option<i64>,
    pub offset: Option<i64>,
}

/// What a `ListArgs` holds, with its texts as character sequences.
pub struct ListScan {
    pub conditions: Seq<Seq<char>>,
    pub order_by: Option<Seq<char>>,
    pub limit: Option<i64>,
    pub offset: Option<i64>,
}

/// The text of an optional string.
pub open spec fn opt_view(o: Option<String>) -> Option<Seq<char>> {
    match o {
        Some(s) => Some(s@),
        None => None,
    }
}

impl ListArgs {
    pub open spec fn scan(&self) -> ListScan {
        ListScan {
            conditions: views(self.conditions@),
            order_by: opt_view(self.order_by),
            limit: self.limit,
            offset: self.offset,
        }
    }
}

/// The options that the words `ws` from index `i` on give, starting from
/// `acc`. A flag takes the next word as its value; a flag without one, and
/// any other word, is passed over. A limit or offset that does not parse
/// leaves the one before in place.
pub open spec fn scan_list(ws: Seq<Seq<char>>, i: int, acc: ListScan) -> ListScan
    decreases ws.len() - i,
{
    if i < 0 || i >= ws.len() {
        acc
    } else if ws[i] == "--where"@ && i + 1 < ws.len() {
        scan_list(
            ws,
            i + 2,
            ListScan { conditions: acc.conditions.push(ws[i + 1]), order_by: acc.order_by, limit: acc.limit, offset: acc.offset },
        )
    } else if ws[i] == "--order-by"@ && i + 1 < ws.len() {
        scan_list(
            ws,
            i + 2,
            ListScan { conditions: acc.conditions, order_by: Some(ws[i + 1]), limit: acc.limit, offset: acc.offset },
        )
    } else if ws[i] == "--limit"@ && i + 1 < ws.len() {
        let limit = if spec_parse_i64(ws[i + 1]) is Some { spec_parse_i64(ws[i + 1]) } else { acc.limit };
        scan_list(ws, i + 2, ListScan { conditions: acc.conditions, order_by: acc.order_by, limit, offset: acc.offset })
    } else if ws[i] == "--offset"@ && i + 1 < ws.len() {
        let offset = if spec_parse_i64(ws[i + 1]) is Some { spec_parse_i64(ws[i + 1]) } else { acc.offset };
        scan_list(ws, i + 2, ListScan { conditions: acc.conditions, order_by: acc.order_by, limit: acc.limit, offset })
    } else {
        scan_list(ws, i + 1, acc)
    }
}

/// The options that the words `ws` of a `list` expression give.
pub open spec fn list_scan(ws: Seq<Seq<char>>) -> ListScan {
    scan_list(ws, 0, ListScan { conditions: Seq::empty(), order_by: None, limit: None, offset: None })
}

/// Reads the options of a `list` expression from its words.
pub fn read_list_args(ws: &Vec<String>) -> (r: ListArgs)
    ensures
        r.scan() == list_scan(views(ws@)),
{
    let ghost vs = views(ws@);
    let mut conditions: Vec<String> = Vec::new();
    let mut order_by: Option<String> = None;
    let mut limit: Option<i64> = None;
    let mut offset: Option<i64> = None;
    let mut i: usize = 0;
    proof {
        assert(views(conditions@) =~= Seq::<Seq<char>>::empty());
    }
    while i < ws.len()
        invariant
            vs == views(ws@),
            vs.len() == ws@.len(),
            i <= ws@.len() + 1,
            list_scan(vs) == scan_list(
                vs,
                i as int,
                ListScan { conditions: views(conditions@), order_by: opt_view(order_by), limit, offset },
            ),
        decreases ws@.len() + 1 - i,
    {
        let w = ws[i].as_str();
        proof {
            assert(vs[i as int] == w@);
        }
        let has_value = i + 1 < ws.len();
        if has_value && str_eq(w, "--where") {
            let ghost before = conditions@;
            conditions.push(ws[i + 1].clone());
            proof {
                assert(views(conditions@) =~= views(before).push(vs[i + 1]));
            }
            i = i + 2;
        } else if has_value && str_eq(w, "--order-by") {
            order_by = Some(ws[i + 1].clone());
            i = i + 2;
        } else if has_value && str_eq(w, "--limit") {
            match parse_i64(ws[i + 1].as_str()) {
                Some(l) => {
                    limit = Some(l);
                },
                None => {},
            }
            i = i + 2;
        } else if has_value && str_eq(w, "--offset") {
            match parse_i64(ws[i + 1].as_str()) {
                Some(o) => {
                    offset = Some(o);
                },
                None => {},
            }
            i = i + 2;
        } else {
            i = i + 1;
        }
    }
    ListArgs { conditions, order_by, limit, offset }
}

/// The key and the value of a condition `key=value`: the two sides of its
/// one `=`, trimmed. A text without exactly one `=` has none.
pub open spec fn condition_pair(t: Seq<char>) -> Option<(Seq<char>, Seq<char>)> {
    let parts = spec_split(t, '=');
    if parts.len() == 2 {
        Some((trimmed(parts[0]), trimmed(parts[1])))
    } else {
        None
    }
}

/// Reads the key and the value of a condition `key=value`.
fn read_condition_pair(t: &str) -> (r: Option<(String, String)>)
    ensures
        match r {
            Some((k, v)) => condition_pair(t@) == Some((k@, v@)),
            None => condition_pair(t@) is None,
        },
{
    let parts = split_on(t, '=');
    if parts.len() == 2 {
        let k = trim_white(parts[0].as_str());
        let v = trim_white(parts[1].as_str());
        Some((k, v))
    } else {
        None
    }
}

/// Whether the condition text `t` gives a condition on files: `id=` with a
/// number, `path=` or `type=`.
pub open spec fn gives_file_condition(t: Seq<char>) -> bool {
    match condition_pair(t) {
        Some((k, v)) => (k == "id"@ && spec_parse_i32(v) is Some) || k == "path"@ || k == "type"@,
        None => false,
    }
}

/// `c` is the condition on files that the text `t` gives.
pub open spec fn file_condition_is(t: Seq<char>, c: FileCondition) -> bool {
    (match condition_pair(t) {
        Some((k, v)) => if k == "id"@ {
            c matches FileCondition::Id(x) && spec_parse_i32(v) == Some(x)
        } else if k == "path"@ {
            c matches FileCondition::Path(p) && p@ == v
        } else {
            c matches FileCondition::Type(x) && x@ == v
        },
        None => false,
    }) && (c is Id || c is Path || c is Type)
}

/// `cs` are the conditions on files that the texts `ts` give, in order;
/// texts that give none are passed over.
pub open spec fn file_conditions_are(ts: Seq<Seq<char>>, cs: Seq<FileCondition>) -> bool
    decreases ts.len(),
{
    if ts.len() == 0 {
        cs.len() == 0
    } else if gives_file_condition(ts.last()) {
        cs.len() > 0 && file_condition_is(ts.last(), cs.last()) && file_conditions_are(ts.drop_last(), cs.drop_last())
    } else {
        file_conditions_are(ts.drop_last(), cs)
    }
}

/// The condition on files that the text `t` gives, if any.
fn file_condition_of(t: &str) -> (r: Option<FileCondition>)
    ensures
        r is Some <==> gives_file_condition(t@),
        r matches Some(c) ==> file_condition_is(t@, c),
{
    proof {
        reveal_strlit("id");
        reveal_strlit("path");
        reveal_strlit("type");
    }
    match read_condition_pair(t) {
        Some((k, v)) => {
            proof {
                assert(condition_pair(t@).unwrap().0 == k@);
            }
            if str_eq(k.as_str(), "id") {
                match parse_i32(v.as_str()) {
                    Some(n) => Some(FileCondition::Id(n)),
                    None => None,
                }
            } else if str_eq(k.as_str(), "path") {
                Some(FileCondition::Path(v))
            } else if str_eq(k.as_str(), "type") {
                Some(FileCondition::Type(v))
            } else {
                None
            }
        },
        None => None,
    }
}

/// The conditions on files that the texts `ts` give.
pub fn file_conditions_of(ts: &Vec<String>) -> (r: Vec<FileCondition>)
    ensures
        file_conditions_are(views(ts@), r@),
{
    let ghost vs = views(ts@);
    let mut out: Vec<FileCondition> = Vec::new();
    let mut i: usize = 0;
    while i < ts.len()
        invariant
            vs == views(ts@),
            vs.len() == ts@.len(),
            i <= ts@.len(),
            file_conditions_are(vs.take(i as int), out@),
        decreases ts@.len() - i,
    {
        let ghost before = out@;
        proof {
            assert(vs.take(i + 1).drop_last() =~= vs.take(i as int));
            assert(vs.take(i + 1).last() == ts@[i as int]@);
        }
        match file_condition_of(ts[i].as_str()) {
            Some(c) => {
                out.push(c);
                proof {
                    assert(out@.drop_last() =~= before);
                }
            },
            None => {},
        }
        i = i + 1;
    }
    proof {
        assert(vs.take(i as int) =~= vs);
    }
    out
}

/// Whether the condition text `t` gives a condition on groups or tags:
/// `id=` with a number, or `name=`.
pub open spec fn gives_named_condition(t: Seq<char>) -> bool {
    match condition_pair(t) {
        Some((k, v)) => (k == "id"@ && spec_parse_i32(v) is Some) || k == "name"@,
        None => false,
    }
}

/// `c` is the condition on groups that the text `t` gives.
pub open spec fn group_condition_is(t: Seq<char>, c: GroupCondition) -> bool {
    (match condition_pair(t) {
        Some((k, v)) => if k == "id"@ {
            c matches GroupCondition::Id(x) && spec_parse_i32(v) == Some(x)
        } else {
            c matches GroupCondition::Name(x) && x@ == v
        },
        None => false,
    }) && (c is Id || c is Name)
}

/// `cs` are the conditions on groups that the texts `ts` give, in order.
pub open spec fn group_conditions_are(ts: Seq<Seq<char>>, cs: Seq<GroupCondition>) -> bool
    decreases ts.len(),
{
    if ts.len() == 0 {
        cs.len() == 0
    } else if gives_named_condition(ts.last()) {
        cs.len() > 0 && group_condition_is(ts.last(), cs.last()) && group_conditions_are(ts.drop_last(), cs.drop_last())
    } else {
        group_conditions_are(ts.drop_last(), cs)
    }
}

/// The condition on groups that the text `t` gives, if any.
fn group_condition_of(t: &str) -> (r: Option<GroupCondition>)
    ensures
        r is Some <==> gives_named_condition(t@),
        r matches Some(c) ==> group_condition_is(t@, c),
{
    proof {
        reveal_strlit("id");
        reveal_strlit("name");
    }
    match read_condition_pair(t) {
        Some((k, v)) => {
            proof {
                assert(condition_pair(t@).unwrap().0 == k@);
            }
            if str_eq(k.as_str(), "id") {
                match parse_i32(v.as_str()) {
                    Some(n) => Some(GroupCondition::Id(n)),
                    None => None,
                }
            } else if str_eq(k.as_str(), "name") {
                Some(GroupCondition::Name(v))
            } else {
                None
            }
        },
        None => None,
    }
}

/// The conditions on groups that the texts `ts` give.
pub fn group_conditions_of(ts: &Vec<String>) -> (r: Vec<GroupCondition>)
    ensures
        group_conditions_are(views(ts@), r@),
{
    let ghost vs = views(ts@);
    let mut out: Vec<GroupCondition> = Vec::new();
    let mut i: usize = 0;
    while i < ts.len()
        invariant
            vs == views(ts@),
            vs.len() == ts@.len(),
            i <= ts@.len(),
            group_conditions_are(vs.take(i as int), out@),
        decreases ts@.len() - i,
    {
        let ghost before = out@;
        proof {
            assert(vs.take(i + 1).drop_last() =~= vs.take(i as int));
            assert(vs.take(i + 1).last() == ts@[i as int]@);
        }
        match group_condition_of(ts[i].as_str()) {
            Some(c) => {
                out.push(c);
                proof {
                    assert(out@.drop_last() =~= before);
                }
            },
            None => {},
        }
        i = i + 1;
    }
    proof {
        assert(vs.take(i as int) =~= vs);
    }
    out
}

/// `c` is the condition on tags that the text `t` gives.
pub open spec fn tag_condition_is(t: Seq<char>, c: TagCondition) -> bool {
    (match condition_pair(t) {
        Some((k, v)) => if k == "id"@ {
            c matches TagCondition::Id(x) && spec_parse_i32(v) == Some(x)
        } else {
            c matches TagCondition::Name(x) && x@ == v
        },
        None => false,
    }) && (c is Id || c is Name)
}

/// `cs` are the conditions on tags that the texts `ts` give, in order.
pub open spec fn tag_conditions_are(ts: Seq<Seq<char>>, cs: Seq<TagCondition>) -> bool
    decreases ts.len(),
{
    if ts.len() == 0 {
        cs.len() == 0
    } else if gives_named_condition(ts.last()) {
        cs.len() > 0 && tag_condition_is(ts.last(), cs.last()) && tag_conditions_are(ts.drop_last(), cs.drop_last())
    } else {
        tag_conditions_are(ts.drop_last(), cs)
    }
}

/// The condition on tags that the text `t` gives, if any.
fn tag_condition_of(t: &str) -> (r: Option<TagCondition>)
    ensures
        r is Some <==> gives_named_condition(t@),
        r matches Some(c) ==> tag_condition_is(t@, c),
{
    proof {
        reveal_strlit("id");
        reveal_strlit("name");
    }
    match read_condition_pair(t) {
        Some((k, v)) => {
            proof {
                assert(condition_pair(t@).unwrap().0 == k@);
            }
            if str_eq(k.as_str(), "id") {
                match parse_i32(v.as_str()) {
                    Some(n) => Some(TagCondition::Id(n)),
                    None => None,
                }
            } else if str_eq(k.as_str(), "name") {
                Some(TagCondition::Name(v))
            } else {
                None
            }
        },
        None => None,
    }
}

/// The conditions on tags that the texts `ts` give.
pub fn tag_conditions_of(ts: &Vec<String>) -> (r: Vec<TagCondition>)
    ensures
        tag_conditions_are(views(ts@), r@),
{
    let ghost vs = views(ts@);
    let mut out: Vec<TagCondition> = Vec::new();
    let mut i: usize = 0;
    while i < ts.len()
        invariant
            vs == views(ts@),
            vs.len() == ts@.len(),
            i <= ts@.len(),
            tag_conditions_are(vs.take(i as int), out@),
        decreases ts@.len() - i,
    {
        let ghost before = out@;
        proof {
            assert(vs.take(i + 1).drop_last() =~= vs.take(i as int));
            assert(vs.take(i + 1).last() == ts@[i as int]@);
        }
        match tag_condition_of(ts[i].as_str()) {
            Some(c) => {
                out.push(c);
                proof {
                    assert(out@.drop_last() =~= before);
                }
            },
            None => {},
        }
        i = i + 1;
    }
    proof {
        assert(vs.take(i as int) =~= vs);
    }
    out
}

/// The order of a file listing: by the column named, ascending; by id when
/// none or another is named.
pub open spec fn file_order_of(o: Option<Seq<char>>) -> FileOrderBy {
    match o {
        Some(t) => if t == "path"@ {
            FileOrderBy::Path(OrderDirection::Asc)
        } else if t == "type"@ {
            FileOrderBy::Type(OrderDirection::Asc)
        } else if t == "reference_count"@ {
            FileOrderBy::ReferenceCount(OrderDirection::Asc)
        } else if t == "group_id"@ {
            FileOrderBy::GroupId(OrderDirection::Asc)
        } else {
            FileOrderBy::Id(OrderDirection::Asc)
        },
        None => FileOrderBy::Id(OrderDirection::Asc),
    }
}

/// The order of a file listing, as `file_order_of` says.
pub fn file_order(o: &Option<String>) -> (r: FileOrderBy)
    ensures
        r == file_order_of(opt_view(*o)),
{
    match o {
        Some(t) => if str_eq(t.as_str(), "path") {
            FileOrderBy::Path(OrderDirection::Asc)
        } else if str_eq(t.as_str(), "type") {
            FileOrderBy::Type(OrderDirection::Asc)
        } else if str_eq(t.as_str(), "reference_count") {
            FileOrderBy::ReferenceCount(OrderDirection::Asc)
        } else if str_eq(t.as_str(), "group_id") {
            FileOrderBy::GroupId(OrderDirection::Asc)
        } else {
            FileOrderBy::Id(OrderDirection::Asc)
        },
        None => FileOrderBy::Id(OrderDirection::Asc),
    }
}

/// The order of a group listing: by name or reference count when named,
/// ascending; by id otherwise.
pub open spec fn group_order_of(o: Option<Seq<char>>) -> GroupOrderBy {
    match o {
        Some(t) => if t == "name"@ {
            GroupOrderBy::Name(OrderDirection::Asc)
        } else if t == "reference_count"@ {
            GroupOrderBy::ReferenceCount(OrderDirection::Asc)
        } else {
            GroupOrderBy::Id(OrderDirection::Asc)
        },
        None => GroupOrderBy::Id(OrderDirection::Asc),
    }
}

/// The order of a group listing, as `group_order_of` says.
pub fn group_order(o: &Option<String>) -> (r: GroupOrderBy)
    ensures
        r == group_order_of(opt_view(*o)),
{
    match o {
        Some(t) => if str_eq(t.as_str(), "name") {
            GroupOrderBy::Name(OrderDirection::Asc)
        } else if str_eq(t.as_str(), "reference_count") {
            GroupOrderBy::ReferenceCount(OrderDirection::Asc)
        } else {
            GroupOrderBy::Id(OrderDirection::Asc)
        },
        None => GroupOrderBy::Id(OrderDirection::Asc),
    }
}

/// The order of a tag listing: by name or reference count when named,
/// ascending; by id otherwise.
pub open spec fn tag_order_of(o: Option<Seq<char>>) -> TagOrderBy {
    match o {
        Some(t) => if t == "name"@ {
            TagOrderBy::Name(OrderDirection::Asc)
        } else if t == "reference_count"@ {
            TagOrderBy::ReferenceCount(OrderDirection::Asc)
        } else {
            TagOrderBy::Id(OrderDirection::Asc)
        },
        None => TagOrderBy::Id(OrderDirection::Asc),
    }
}

/// The order of a tag listing, as `tag_order_of` says.
pub fn tag_order(o: &Option<String>) -> (r: TagOrderBy)
    ensures
        r == tag_order_of(opt_view(*o)),
{
    match o {
        Some(t) => if str_eq(t.as_str(), "name") {
            TagOrderBy::Name(OrderDirection::Asc)
        } else if str_eq(t.as_str(), "reference_count") {
            TagOrderBy::ReferenceCount(OrderDirection::Asc)
        } else {
            TagOrderBy::Id(OrderDirection::Asc)
        },
        None => TagOrderBy::Id(OrderDirection::Asc),
    }
}

/// What an expression asks for.
pub enum Request {
    ListFiles(ListArgs),
    GetFile(i32),
    CreateFile { path: String, type_: String, group_id: i32 },
    ListGroups(ListArgs),
    GetGroup(i32),
    CreateGroup(String),
    ListTags(ListArgs),
    GetTag(i32),
    CreateTag(String),
    LinkFileGroup { file_id: i32, group_id: i32 },
    LinkGroupTag { group_id: i32, tag_id: i32 },
}

/// Why an expression was not carried out.
#[derive(Debug)]
pub enum EvalError {
    /// The expression is not `entity action [params]`.
    InvalidExpression,
    UnknownEntity(String),
    UnknownFileAction(String),
    UnknownGroupAction(String),
    UnknownTagAction(String),
    UnknownLinkAction(String),
    MissingFileId,
    MissingGroupId,
    MissingTagId,
    MissingGroupName,
    MissingTagName,
    InvalidFileId,
    InvalidGroupId,
    InvalidTagId,
    /// `file create` needs a path and a type.
    FileCreateUsage,
    /// `link file-group` needs a file id and a group id.
    FileGroupUsage,
    /// `link group-tag` needs a group id and a tag id.
    GroupTagUsage,
    GetFileFailed(AppError),
    CreateFileFailed(AppError),
    GetGroupFailed(AppError),
    CreateGroupFailed(AppError),
    GetTagFailed(AppError),
    CreateTagFailed(AppError),
    LinkFileGroupFailed(AppError),
    LinkGroupTagFailed(AppError),
}

/// `r` is what the `file` expression with `action` and the words `ws`
/// asks for.
pub open spec fn file_request_is(action: Seq<char>, ws: Seq<Seq<char>>, r: Result<Request, EvalError>) -> bool {
    if action == "list"@ {
        r matches Ok(Request::ListFiles(a)) && a.scan() == list_scan(ws)
    } else if action == "get"@ {
        if ws.len() == 0 {
            r == Err::<Request, EvalError>(EvalError::MissingFileId)
        } else {
            match spec_parse_i32(ws[0]) {
                Some(id) => r == Ok::<Request, EvalError>(Request::GetFile(id)),
                None => r == Err::<Request, EvalError>(EvalError::InvalidFileId),
            }
        }
    } else if action == "create"@ {
        if ws.len() < 2 {
            r == Err::<Request, EvalError>(EvalError::FileCreateUsage)
        } else if ws.len() > 2 && spec_parse_i32(ws[2]) is None {
            r == Err::<Request, EvalError>(EvalError::InvalidGroupId)
        } else {
            r matches Ok(Request::CreateFile { path, type_, group_id }) && path@ == ws[0] && type_@ == ws[1]
                && group_id == (if ws.len() > 2 { spec_parse_i32(ws[2])->0 } else { 0 })
        }
    } else {
        r matches Err(EvalError::UnknownFileAction(a)) && a@ == action
    }
}

/// `r` is what the `group` expression with `action` and the words `ws`
/// asks for.
pub open spec fn group_request_is(action: Seq<char>, ws: Seq<Seq<char>>, r: Result<Request, EvalError>) -> bool {
    if action == "list"@ {
        r matches Ok(Request::ListGroups(a)) && a.scan() == list_scan(ws)
    } else if action == "get"@ {
        if ws.len() == 0 {
            r == Err::<Request, EvalError>(EvalError::MissingGroupId)
        } else {
            match spec_parse_i32(ws[0]) {
                Some(id) => r == Ok::<Request, EvalError>(Request::GetGroup(id)),
                None => r == Err::<Request, EvalError>(EvalError::InvalidGroupId),
            }
        }
    } else if action == "create"@ {
        if ws.len() == 0 {
            r == Err::<Request, EvalError>(EvalError::MissingGroupName)
        } else {
            r matches Ok(Request::CreateGroup(name)) && name@ == ws[0]
        }
    } else {
        r matches Err(EvalError::UnknownGroupAction(a)) && a@ == action
    }
}

/// `r` is what the `tag` expression with `action` and the words `ws` asks
/// for.
pub open spec fn tag_request_is(action: Seq<char>, ws: Seq<Seq<char>>, r: Result<Request, EvalError>) -> bool {
    if action == "list"@ {
        r matches Ok(Request::ListTags(a)) && a.scan() == list_scan(ws)
    } else if action == "get"@ {
        if ws.len() == 0 {
            r == Err::<Request, EvalError>(EvalError::MissingTagId)
        } else {
            match spec_parse_i32(ws[0]) {
                Some(id) => r == Ok::<Request, EvalError>(Request::GetTag(id)),
                None => r == Err::<Request, EvalError>(EvalError::InvalidTagId),
            }
        }
    } else if action == "create"@ {
        if ws.len() == 0 {
            r == Err::<Request, EvalError>(EvalError::MissingTagName)
        } else {
            r matches Ok(Request::CreateTag(name)) && name@ == ws[0]
        }
    } else {
        r matches Err(EvalError::UnknownTagAction(a)) && a@ == action
    }
}

/// `r` is what the `link` expression with `action` and the words `ws`
/// asks for.
pub open spec fn link_request_is(action: Seq<char>, ws: Seq<Seq<char>>, r: Result<Request, EvalError>) -> bool {
    if action == "file-group"@ {
        if ws.len() < 2 {
            r == Err::<Request, EvalError>(EvalError::FileGroupUsage)
        } else {
            match (spec_parse_i32(ws[0]), spec_parse_i32(ws[1])) {
                (None, _) => r == Err::<Request, EvalError>(EvalError::InvalidFileId),
                (Some(_), None) => r == Err::<Request, EvalError>(EvalError::InvalidGroupId),
                (Some(f), Some(g)) => r == Ok::<Request, EvalError>(Request::LinkFileGroup { file_id: f, group_id: g }),
            }
        }
    } else if action == "group-tag"@ {
        if ws.len() < 2 {
            r == Err::<Request, EvalError>(EvalError::GroupTagUsage)
        } else {
            match (spec_parse_i32(ws[0]), spec_parse_i32(ws[1])) {
                (None, _) => r == Err::<Request, EvalError>(EvalError::InvalidGroupId),
                (Some(_), None) => r == Err::<Request, EvalError>(EvalError::InvalidTagId),
                (Some(g), Some(t)) => r == Ok::<Request, EvalError>(Request::LinkGroupTag { group_id: g, tag_id: t }),
            }
        }
    } else {
        r matches Err(EvalError::UnknownLinkAction(a)) && a@ == action
    }
}

/// `r` is what the expression with `entity`, `action` and `params` asks
/// for; the parameters are read as words separated by white space.
pub open spec fn request_is(entity: Seq<char>, action: Seq<char>, params: Seq<char>, r: Result<Request, EvalError>) -> bool {
    let ws = words(params);
    if entity == "file"@ {
        file_request_is(action, ws, r)
    } else if entity == "group"@ {
        group_request_is(action, ws, r)
    } else if entity == "tag"@ {
        tag_request_is(action, ws, r)
    } else if entity == "link"@ {
        link_request_is(action, ws, r)
    } else {
        r matches Err(EvalError::UnknownEntity(e)) && e@ == entity
    }
}

fn file_request(action: &str, ws: &Vec<String>) -> (r: Result<Request, EvalError>)
    ensures
        file_request_is(action@, views(ws@), r),
{
    let ghost vs = views(ws@);
    proof {
        assert(vs.len() == ws@.len());
    }
    if str_eq(action, "list") {
        Ok(Request::ListFiles(read_list_args(ws)))
    } else if str_eq(action, "get") {
        if ws.len() == 0 {
            return Err(EvalError::MissingFileId);
        }
        proof {
            assert(vs[0] == ws@[0]@);
        }
        match parse_i32(ws[0].as_str()) {
            Some(id) => Ok(Request::GetFile(id)),
            None => Err(EvalError::InvalidFileId),
        }
    } else if str_eq(action, "create") {
        if ws.len() < 2 {
            return Err(EvalError::FileCreateUsage);
        }
        proof {
            assert(vs[0] == ws@[0]@ && vs[1] == ws@[1]@);
        }
        let group_id = if ws.len() > 2 {
            proof {
                assert(vs[2] == ws@[2]@);
            }
            match parse_i32(ws[2].as_str()) {
                Some(g) => g,
                None => {
                    return Err(EvalError::InvalidGroupId);
                },
            }
        } else {
            0
        };
        Ok(Request::CreateFile { path: ws[0].clone(), type_: ws[1].clone(), group_id })
    } else {
        Err(EvalError::UnknownFileAction(action.to_string()))
    }
}

fn group_request(action: &str, ws: &Vec<String>) -> (r: Result<Request, EvalError>)
    ensures
        group_request_is(action@, views(ws@), r),
{
    let ghost vs = views(ws@);
    proof {
        assert(vs.len() == ws@.len());
    }
    if str_eq(action, "list") {
        Ok(Request::ListGroups(read_list_args(ws)))
    } else if str_eq(action, "get") {
        if ws.len() == 0 {
            return Err(EvalError::MissingGroupId);
        }
        proof {
            assert(vs[0] == ws@[0]@);
        }
        match parse_i32(ws[0].as_str()) {
            Some(id) => Ok(Request::GetGroup(id)),
            None => Err(EvalError::InvalidGroupId),
        }
    } else if str_eq(action, "create") {
        if ws.len() == 0 {
            return Err(EvalError::MissingGroupName);
        }
        proof {
            assert(vs[0] == ws@[0]@);
        }
        Ok(Request::CreateGroup(ws[0].clone()))
    } else {
        Err(EvalError::UnknownGroupAction(action.to_string()))
    }
}

fn tag_request(action: &str, ws: &Vec<String>) -> (r: Result<Request, EvalError>)
    ensures
        tag_request_is(action@, views(ws@), r),
{
    let ghost vs = views(ws@);
    proof {
        assert(vs.len() == ws@.len());
    }
    if str_eq(action, "list") {
        Ok(Request::ListTags(read_list_args(ws)))
    } else if str_eq(action, "get") {
        if ws.len() == 0 {
            return Err(EvalError::MissingTagId);
        }
        proof {
            assert(vs[0] == ws@[0]@);
        }
        match parse_i32(ws[0].as_str()) {
            Some(id) => Ok(Request::GetTag(id)),
            None => Err(EvalError::InvalidTagId),
        }
    } else if str_eq(action, "create") {
        if ws.len() == 0 {
            return Err(EvalError::MissingTagName);
        }
        proof {
            assert(vs[0] == ws@[0]@);
        }
        Ok(Request::CreateTag(ws[0].clone()))
    } else {
        Err(EvalError::UnknownTagAction(action.to_string()))
    }
}

fn link_request(action: &str, ws: &Vec<String>) -> (r: Result<Request, EvalError>)
    ensures
        link_request_is(action@, views(ws@), r),
{
    let ghost vs = views(ws@);
    proof {
        assert(vs.len() == ws@.len());
    }
    if str_eq(action, "file-group") {
        if ws.len() < 2 {
            return Err(EvalError::FileGroupUsage);
        }
        proof {
            assert(vs[0] == ws@[0]@ && vs[1] == ws@[1]@);
        }
        let file_id = match parse_i32(ws[0].as_str()) {
            Some(f) => f,
            None => {
                return Err(EvalError::InvalidFileId);
            },
        };
        let group_id = match parse_i32(ws[1].as_str()) {
            Some(g) => g,
            None => {
                return Err(EvalError::InvalidGroupId);
            },
        };
        Ok(Request::LinkFileGroup { file_id, group_id })
    } else if str_eq(action, "group-tag") {
        if ws.len() < 2 {
            return Err(EvalError::GroupTagUsage);
        }
        proof {
            assert(vs[0] == ws@[0]@ && vs[1] == ws@[1]@);
        }
        let group_id = match parse_i32(ws[0].as_str()) {
            Some(g) => g,
            None => {
                return Err(EvalError::InvalidGroupId);
            },
        };
        let tag_id = match parse_i32(ws[1].as_str()) {
            Some(t) => t,
            None => {
                return Err(EvalError::InvalidTagId);
            },
        };
        Ok(Request::LinkGroupTag { group_id, tag_id })
    } else {
        Err(EvalError::UnknownLinkAction(action.to_string()))
    }
}

/// Reads what the expression with `entity`, `action` and `params` asks for.
pub fn parse_request(entity: &str, action: &str, params: &str) -> (r: Result<Request, EvalError>)
    ensures
        request_is(entity@, action@, params@, r),
{
    let ws = split_words(params);
    if str_eq(entity, "file") {
        file_request(action, &ws)
    } else if str_eq(entity, "group") {
        group_request(action, &ws)
    } else if str_eq(entity, "tag") {
        tag_request(action, &ws)
    } else if str_eq(entity, "link") {
        link_request(action, &ws)
    } else {
        Err(EvalError::UnknownEntity(entity.to_string()))
    }
}

/// What carrying out a request gave.
#[derive(Debug)]
pub enum EvalOutput {
    Files(Vec<File>),
    File(File),
    FileCreated(i32),
    Groups(Vec<Group>),
    Group(Group),
    GroupCreated(i32),
    Tags(Vec<Tag>),
    Tag(Tag),
    TagCreated(i32),
    FileGroupLinked,
    GroupTagLinked,
}

/// The file listing of `o` that `a` asks for: the files that meet its
/// conditions, ordered, from its offset on, cut to its limit.
pub open spec fn files_listed(o: Database, a: ListScan, v: Seq<File>) -> bool {
    exists|cs: Seq<FileCondition>, s: Seq<File>|
        file_conditions_are(a.conditions, cs) && files_arranged(files_where(o.files@, cs), s, seq![file_order_of(a.order_by)])
            && v == take_limit(skip_offset(s, a.offset), a.limit)
}

/// The group listing of `o` that `a` asks for.
pub open spec fn groups_listed(o: Database, a: ListScan, v: Seq<Group>) -> bool {
    exists|cs: Seq<GroupCondition>, s: Seq<Group>|
        group_conditions_are(a.conditions, cs) && groups_arranged(groups_where(o.groups@, cs), s, seq![group_order_of(a.order_by)])
            && v == take_limit(skip_offset(s, a.offset), a.limit)
}

/// The tag listing of `o` that `a` asks for.
pub open spec fn tags_listed(o: Database, a: ListScan, v: Seq<Tag>) -> bool {
    exists|cs: Seq<TagCondition>, s: Seq<Tag>|
        tag_conditions_are(a.conditions, cs) && tags_arranged(tags_where(o.tags@, cs), s, seq![tag_order_of(a.order_by)])
            && v == take_limit(skip_offset(s, a.offset), a.limit)
}

/// A file listing comes sorted by the column that its order word names
/// (the id when it names none), ascending: no file of the listing comes
/// before an earlier one in that column.
pub proof fn law_file_listing_sorted(o: Database, a: ListScan, v: Seq<File>)
    requires
        files_listed(o, a, v),
    ensures
        forall|i: int, j: int|
            0 <= i < j < v.len() ==> !(match a.order_by {
                Some(t) => if t == "path"@ {
                    crate::text::text_lt(v[j].path@, v[i].path@)
                } else if t == "type"@ {
                    crate::text::text_lt(v[j].type_@, v[i].type_@)
                } else if t == "reference_count"@ {
                    v[j].reference_count < v[i].reference_count
                } else if t == "group_id"@ {
                    v[j].group_id < v[i].group_id
                } else {
                    v[j].id < v[i].id
                },
                None => v[j].id < v[i].id,
            }),
{
    let ob = file_order_of(a.order_by);
    let (cs, s) = choose|cs: Seq<FileCondition>, s: Seq<File>|
        file_conditions_are(a.conditions, cs) && files_arranged(files_where(o.files@, cs), s, seq![ob])
            && v == take_limit(skip_offset(s, a.offset), a.limit);
    assert(seq![ob].last() == ob);
    assert(crate::sorting::files_sorted(s, ob));
    let d = crate::query::lemma_window(s, a.offset, a.limit);
    assert forall|i: int, j: int| 0 <= i < j < v.len() implies !(match a.order_by {
        Some(t) => if t == "path"@ {
                    crate::text::text_lt(v[j].path@, v[i].path@)
                } else if t == "type"@ {
                    crate::text::text_lt(v[j].type_@, v[i].type_@)
                } else if t == "reference_count"@ {
                    v[j].reference_count < v[i].reference_count
                } else if t == "group_id"@ {
                    v[j].group_id < v[i].group_id
                } else {
                    v[j].id < v[i].id
                },
        None => v[j].id < v[i].id,
    }) by {
        assert(v[i] == s[i + d]);
        assert(v[j] == s[j + d]);
        assert(!crate::sorting::file_before(s[j + d], s[i + d], ob));
    }
}

/// A group listing comes sorted by the column that its order word names
/// (the id when it names none), ascending: no group of the listing comes
/// before an earlier one in that column.
pub proof fn law_group_listing_sorted(o: Database, a: ListScan, v: Seq<Group>)
    requires
        groups_listed(o, a, v),
    ensures
        forall|i: int, j: int|
            0 <= i < j < v.len() ==> !(match a.order_by {
                Some(t) => if t == "name"@ {
                    crate::text::text_lt(v[j].name@, v[i].name@)
                } else if t == "reference_count"@ {
                    v[j].reference_count < v[i].reference_count
                } else {
                    v[j].id < v[i].id
                },
                None => v[j].id < v[i].id,
            }),
{
    let ob = group_order_of(a.order_by);
    let (cs, s) = choose|cs: Seq<GroupCondition>, s: Seq<Group>|
        group_conditions_are(a.conditions, cs) && groups_arranged(groups_where(o.groups@, cs), s, seq![ob])
            && v == take_limit(skip_offset(s, a.offset), a.limit);
    assert(seq![ob].last() == ob);
    assert(crate::sorting::groups_sorted(s, ob));
    let d = crate::query::lemma_window(s, a.offset, a.limit);
    assert forall|i: int, j: int| 0 <= i < j < v.len() implies !(match a.order_by {
        Some(t) => if t == "name"@ {
                    crate::text::text_lt(v[j].name@, v[i].name@)
                } else if t == "reference_count"@ {
                    v[j].reference_count < v[i].reference_count
                } else {
                    v[j].id < v[i].id
                },
        None => v[j].id < v[i].id,
    }) by {
        assert(v[i] == s[i + d]);
        assert(v[j] == s[j + d]);
        assert(!crate::sorting::group_before(s[j + d], s[i + d], ob));
    }
}

/// A tag listing comes sorted by the column that its order word names
/// (the id when it names none), ascending: no tag of the listing comes
/// before an earlier one in that column.
pub proof fn law_tag_listing_sorted(o: Database, a: ListScan, v: Seq<Tag>)
    requires
        tags_listed(o, a, v),
    ensures
        forall|i: int, j: int|
            0 <= i < j < v.len() ==> !(match a.order_by {
                Some(t) => if t == "name"@ {
                    crate::text::text_lt(v[j].name@, v[i].name@)
                } else if t == "reference_count"@ {
                    v[j].reference_count < v[i].reference_count
                } else {
                    v[j].id < v[i].id
                },
                None => v[j].id < v[i].id,
            }),
{
    let ob = tag_order_of(a.order_by);
    let (cs, s) = choose|cs: Seq<TagCondition>, s: Seq<Tag>|
        tag_conditions_are(a.conditions, cs) && tags_arranged(tags_where(o.tags@, cs), s, seq![ob])
            && v == take_limit(skip_offset(s, a.offset), a.limit);
    assert(seq![ob].last() == ob);
    assert(crate::sorting::tags_sorted(s, ob));
    let d = crate::query::lemma_window(s, a.offset, a.limit);
    assert forall|i: int, j: int| 0 <= i < j < v.len() implies !(match a.order_by {
        Some(t) => if t == "name"@ {
                    crate::text::text_lt(v[j].name@, v[i].name@)
                } else if t == "reference_count"@ {
                    v[j].reference_count < v[i].reference_count
                } else {
                    v[j].id < v[i].id
                },
        None => v[j].id < v[i].id,
    }) by {
        assert(v[i] == s[i + d]);
        assert(v[j] == s[j + d]);
        assert(!crate::sorting::tag_before(s[j + d], s[i + d], ob));
    }
}

/// What the condition that a `key=value` text gives says of a file `r`:
/// the column that the key names equals the value.
pub proof fn law_file_where_text_meaning(t: Seq<char>, c: FileCondition, r: File)
    requires
        file_condition_is(t, c),
    ensures
        match condition_pair(t) {
            None => false,
            Some((k, v)) => crate::query::file_eval(c, r) == Some(if k == "id"@ {
                r.id == spec_parse_i32(v)->0
            } else if k == "path"@ {
                r.path@ == v
            } else {
                r.type_@ == v
            })
        },
{
}

/// What the condition that a `key=value` text gives says of a group `r`:
/// the column that the key names equals the value.
pub proof fn law_group_where_text_meaning(t: Seq<char>, c: GroupCondition, r: Group)
    requires
        group_condition_is(t, c),
    ensures
        match condition_pair(t) {
            None => false,
            Some((k, v)) => crate::query::group_eval(c, r) == Some(if k == "id"@ {
                r.id == spec_parse_i32(v)->0
            } else {
                r.name@ == v
            })
        },
{
}

/// What the condition that a `key=value` text gives says of a tag `r`:
/// the column that the key names equals the value.
pub proof fn law_tag_where_text_meaning(t: Seq<char>, c: TagCondition, r: Tag)
    requires
        tag_condition_is(t, c),
    ensures
        match condition_pair(t) {
            None => false,
            Some((k, v)) => crate::query::tag_eval(c, r) == Some(if k == "id"@ {
                r.id == spec_parse_i32(v)->0
            } else {
                r.name@ == v
            })
        },
{
}

/// Carrying out `req` on `o` gave `n` and `r`. Listings and lookups change
/// nothing; a creation or a link does what the catalogue's own operation
/// does, and its refusal is passed on.
pub open spec fn request_done(o: Database, n: Database, req: Request, r: Result<EvalOutput, EvalError>) -> bool {
    match req {
        Request::ListFiles(a) => n == o && (r matches Ok(EvalOutput::Files(v)) && files_listed(o, a.scan(), v@)),
        Request::GetFile(id) => n == o && r == if has_file(o.files@, id) {
            Ok::<EvalOutput, EvalError>(EvalOutput::File(file_of(o.files@, id)))
        } else {
            Err::<EvalOutput, EvalError>(EvalError::GetFileFailed(AppError::DatabaseError(DbError::NotFound)))
        },
        Request::CreateFile { path, type_, group_id } => {
            let dto = CreateFileDTO { type_, path, group_id, description: None };
            match create_file_error(o, dto) {
                Some(e) => n == o && r == Err::<EvalOutput, EvalError>(EvalError::CreateFileFailed(e)),
                None => r == Ok::<EvalOutput, EvalError>(EvalOutput::FileCreated(o.next_file_id)) && file_created(o, n, dto, o.next_file_id),
            }
        },
        Request::ListGroups(a) => n == o && (r matches Ok(EvalOutput::Groups(v)) && groups_listed(o, a.scan(), v@)),
        Request::GetGroup(id) => n == o && r == if has_group(o.groups@, id) {
            Ok::<EvalOutput, EvalError>(EvalOutput::Group(group_of(o.groups@, id)))
        } else {
            Err::<EvalOutput, EvalError>(EvalError::GetGroupFailed(AppError::DatabaseError(DbError::NotFound)))
        },
        Request::CreateGroup(name) => {
            let dto = CreateGroupDTO { name, description: None };
            match r {
                Ok(EvalOutput::GroupCreated(id)) => group_created(o, n, dto, id),
                Err(EvalError::CreateGroupFailed(e)) => n == o && group_creation_refused(o, dto, e),
                _ => false,
            }
        },
        Request::ListTags(a) => n == o && (r matches Ok(EvalOutput::Tags(v)) && tags_listed(o, a.scan(), v@)),
        Request::GetTag(id) => n == o && r == if has_tag(o.tags@, id) {
            Ok::<EvalOutput, EvalError>(EvalOutput::Tag(tag_of(o.tags@, id)))
        } else {
            Err::<EvalOutput, EvalError>(EvalError::GetTagFailed(AppError::DatabaseError(DbError::NotFound)))
        },
        Request::CreateTag(name) => {
            let dto = CreateTagDTO { name, description: None };
            match r {
                Ok(EvalOutput::TagCreated(id)) => tag_created(o, n, dto, id),
                Err(EvalError::CreateTagFailed(e)) => n == o && tag_creation_refused(o, dto, e),
                _ => false,
            }
        },
        Request::LinkFileGroup { file_id, group_id } => {
            let dto = FileGroupDTO { file_id, group_id, relation_type: 1 };
            match create_file_group_error(o, dto) {
                Some(e) => n == o && r == Err::<EvalOutput, EvalError>(EvalError::LinkFileGroupFailed(e)),
                None => r == Ok::<EvalOutput, EvalError>(EvalOutput::FileGroupLinked) && fg_link_added(o, n, dto),
            }
        },
        Request::LinkGroupTag { group_id, tag_id } => {
            let dto = GroupTagDTO { group_id, tag_id };
            match create_group_tag_error(o, dto) {
                Some(e) => n == o && r == Err::<EvalOutput, EvalError>(EvalError::LinkGroupTagFailed(e)),
                None => r == Ok::<EvalOutput, EvalError>(EvalOutput::GroupTagLinked) && gt_link_added(o, n, dto),
            }
        },
    }
}

/// Carries out a request on the catalogue.
pub fn run_request(db: &mut Database, req: Request) -> (r: Result<EvalOutput, EvalError>)
    requires
        old(db).wf(),
    ensures
        final(db).wf(),
        request_done(*old(db), *final(db), req, r),
{
    match req {
        Request::ListFiles(a) => {
            let mut order_by: Vec<FileOrderBy> = Vec::new();
            order_by.push(file_order(&a.order_by));
            let options = FileQueryOptions { limit: a.limit, offset: a.offset, order_by };
            proof {
                assert(options.order_by@ =~= seq![file_order_of(a.scan().order_by)]);
            }
            match select_files_by_conditions_with_options(db, file_conditions_of(&a.conditions), options) {
                Ok(v) => Ok(EvalOutput::Files(v)),
                Err(_) => Ok(EvalOutput::Files(Vec::new())),
            }
        },
        Request::GetFile(id) => match get_file_by_id(db, id) {
            Ok(f) => Ok(EvalOutput::File(f)),
            Err(e) => Err(EvalError::GetFileFailed(e)),
        },
        Request::CreateFile { path, type_, group_id } => {
            let dto = CreateFileDTO { type_, path, group_id, description: None };
            match create_file(db, dto) {
                Ok(id) => Ok(EvalOutput::FileCreated(id)),
                Err(e) => Err(EvalError::CreateFileFailed(e)),
            }
        },
        Request::ListGroups(a) => {
            let mut order_by: Vec<GroupOrderBy> = Vec::new();
            order_by.push(group_order(&a.order_by));
            let options = GroupQueryOptions { limit: a.limit, offset: a.offset, order_by };
            proof {
                assert(options.order_by@ =~= seq![group_order_of(a.scan().order_by)]);
            }
            match select_groups_by_conditions_with_options(db, group_conditions_of(&a.conditions), options) {
                Ok(v) => Ok(EvalOutput::Groups(v)),
                Err(_) => Ok(EvalOutput::Groups(Vec::new())),
            }
        },
        Request::GetGroup(id) => match get_group_by_id(db, id) {
            Ok(g) => Ok(EvalOutput::Group(g)),
            Err(e) => Err(EvalError::GetGroupFailed(e)),
        },
        Request::CreateGroup(name) => {
            let dto = CreateGroupDTO { name, description: None };
            match create_group(db, &dto) {
                Ok(id) => Ok(EvalOutput::GroupCreated(id)),
                Err(e) => Err(EvalError::CreateGroupFailed(e)),
            }
        },
        Request::ListTags(a) => {
            let mut order_by: Vec<TagOrderBy> = Vec::new();
            order_by.push(tag_order(&a.order_by));
            let options = TagQueryOptions { limit: a.limit, offset: a.offset, order_by };
            proof {
                assert(options.order_by@ =~= seq![tag_order_of(a.scan().order_by)]);
            }
            match select_tags_by_conditions_with_options(db, tag_conditions_of(&a.conditions), options) {
                Ok(v) => Ok(EvalOutput::Tags(v)),
                Err(_) => Ok(EvalOutput::Tags(Vec::new())),
            }
        },
        Request::GetTag(id) => match get_tag_by_id(db, id) {
            Ok(t) => Ok(EvalOutput::Tag(t)),
            Err(e) => Err(EvalError::GetTagFailed(e)),
        },
        Request::CreateTag(name) => {
            let dto = CreateTagDTO { name, description: None };
            match create_tag(db, &dto) {
                Ok(id) => Ok(EvalOutput::TagCreated(id)),
                Err(e) => Err(EvalError::CreateTagFailed(e)),
            }
        },
        Request::LinkFileGroup { file_id, group_id } => {
            match create_file_group(db, FileGroupDTO { file_id, group_id, relation_type: 1 }) {
                Ok(_) => Ok(EvalOutput::FileGroupLinked),
                Err(e) => Err(EvalError::LinkFileGroupFailed(e)),
            }
        },
        Request::LinkGroupTag { group_id, tag_id } => {
            match create_group_tag(db, GroupTagDTO { group_id, tag_id }) {
                Ok(_) => Ok(EvalOutput::GroupTagLinked),
                Err(e) => Err(EvalError::LinkGroupTagFailed(e)),
            }
        },
    }
}

/// The pattern of an expression: a word for the entity, white space, a
/// word for the action, and optionally white space and the parameters.
pub const EXPRESSION_PATTERN: &'static str = "^(\\w+)\\s+(\\w+)(?:\\s+(.+))?$";

/// Whether `regex::Regex::new` accepts `pattern`.
pub uninterp spec fn regex_accepts(pattern: Seq<char>) -> bool;

/// The capture groups (group 0 for the whole match first) that a regex
/// built from `pattern` finds in `text`, each absent when it takes no
/// part in the match, or nothing when the regex does not match.
pub uninterp spec fn regex_captures(pattern: Seq<char>, text: Seq<char>) -> Option<Seq<Option<Seq<char>>>>;

/// A capture group as text.
pub open spec fn group_view(g: Option<String>) -> Option<Seq<char>> {
    match g {
        Some(s) => Some(s@),
        None => None,
    }
}

/// The capture groups as texts.
pub open spec fn groups_view(v: Seq<Option<String>>) -> Seq<Option<Seq<char>>> {
    v.map_values(|g: Option<String>| group_view(g))
}

/// Builds a regex from `pattern` with `regex::Regex::new` and collects the
/// capture groups of its first match in `text` with `Regex::captures`:
/// `None` when the pattern is refused, `Some(None)` when there is no
/// match. What the groups hold is named by `regex_captures`: the pattern
/// language, the Unicode classes and how the match backtracks are the
/// `regex` crate's.
#[verifier::external_body]
fn regex_captures_of(pattern: &str, text: &str) -> (r: Option<Option<Vec<Option<String>>>>)
    ensures
        r is None <==> !regex_accepts(pattern@),
        r matches Some(c) ==> match c {
            Some(v) => regex_captures(pattern@, text@) == Some(groups_view(v@)),
            None => regex_captures(pattern@, text@) is None,
        },
{
    match regex::Regex::new(pattern) {
        Ok(re) => Some(re.captures(text).map(|caps| caps.iter().map(|m| m.map(|m| m.as_str().to_string())).collect())),
        Err(_) => None,
    }
}

/// The text of capture group `i`, empty when the group is missing or took
/// no part in the match.
pub open spec fn part_of(g: Seq<Option<Seq<char>>>, i: int) -> Seq<char> {
    if 0 <= i < g.len() && g[i] is Some {
        g[i]->0
    } else {
        Seq::<char>::empty()
    }
}

/// The entity, the action and the parameters that the capture groups `g`
/// of a match give: groups 1, 2 and 3, each empty when absent.
pub open spec fn expression_parts_of(g: Option<Seq<Option<Seq<char>>>>) -> Option<(Seq<char>, Seq<char>, Seq<char>)> {
    match g {
        Some(v) => Some((part_of(v, 1), part_of(v, 2), part_of(v, 3))),
        None => None,
    }
}

fn part_at(v: &Vec<Option<String>>, i: usize) -> (r: String)
    ensures
        r@ == part_of(groups_view(v@), i as int),
{
    if i < v.len() {
        match &v[i] {
            Some(t) => t.clone(),
            None => String::new(),
        }
    } else {
        String::new()
    }
}

/// The entity, the action and the parameters of an expression from the
/// capture groups of its match, or nothing without a match.
pub fn expression_parts(groups: Option<Vec<Option<String>>>) -> (r: Option<(String, String, String)>)
    ensures
        match r {
            Some((e, a, p)) => groups matches Some(v) && expression_parts_of(Some(groups_view(v@))) == Some(
                (e@, a@, p@),
            ),
            None => groups is None,
        },
{
    match groups {
        Some(v) => Some((part_at(&v, 1), part_at(&v, 2), part_at(&v, 3))),
        None => None,
    }
}

/// Evaluating the expression whose parts are `entity`, `action` and
/// `params` on `o` gave `n` and `r`: what it asks for was carried out, or
/// the reason it could not be read is the answer.
pub open spec fn evaluated(o: Database, n: Database, entity: Seq<char>, action: Seq<char>, params: Seq<char>, r: Result<EvalOutput, EvalError>) -> bool {
    exists|q: Result<Request, EvalError>|
        request_is(entity, action, params, q) && match q {
            Ok(req) => request_done(o, n, req, r),
            Err(e) => n == o && r == Err::<EvalOutput, EvalError>(e),
        }
}

/// Evaluates an expression from its captured parts; without parts the
/// expression is invalid.
pub fn eval_captured(parts: Option<(String, String, String)>, db: &mut Database) -> (r: Result<EvalOutput, EvalError>)
    requires
        old(db).wf(),
    ensures
        final(db).wf(),
        match parts {
            Some((e, a, p)) => evaluated(*old(db), *final(db), e@, a@, p@, r),
            None => *final(db) == *old(db) && r == Err::<EvalOutput, EvalError>(EvalError::InvalidExpression),
        },
{
    match parts {
        Some((e, a, p)) => {
            let q = parse_request(e.as_str(), a.as_str(), p.as_str());
            match q {
                Ok(req) => run_request(db, req),
                Err(x) => Err(x),
            }
        },
        None => Err(EvalError::InvalidExpression),
    }
}

/// Evaluates an expression `entity action [params]` on the catalogue: the
/// expression pattern splits it into its parts, which are then read and
/// carried out. The session's selection is left as it is. Should the
/// `regex` crate refuse the pattern, the expression counts as invalid.
pub fn eval_expression(expr: &str, db: &mut Database, context: &mut Context) -> (r: Result<EvalOutput, EvalError>)
    requires
        old(db).wf(),
    ensures
        final(db).wf(),
        *final(context) == *old(context),
        !regex_accepts(EXPRESSION_PATTERN@) ==> *final(db) == *old(db) && r == Err::<EvalOutput, EvalError>(
            EvalError::InvalidExpression,
        ),
        regex_accepts(EXPRESSION_PATTERN@) ==> match expression_parts_of(regex_captures(EXPRESSION_PATTERN@, expr@)) {
            Some((e, a, p)) => evaluated(*old(db), *final(db), e, a, p, r),
            None => *final(db) == *old(db) && r == Err::<EvalOutput, EvalError>(EvalError::InvalidExpression),
        },
{
    match regex_captures_of(EXPRESSION_PATTERN, expr) {
        Some(groups) => eval_captured(expression_parts(groups), db),
        None => Err(EvalError::InvalidExpression),
    }
}

} // verus!

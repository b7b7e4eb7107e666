//! Records of the catalogue (files, groups, tags and the three association
//! tables), the conditions and orderings that select them, and the data
//! objects used to create and update them.
use vstd::prelude::*;

verus! {

/// Relation type of a parent/child link between two groups.
pub const RELATION_TYPE_PARENT_CHILD: i32 = 1;

/// A stored file. Its primary group is `group_id`; `reference_count` is the
/// number of file/group links of the file.
#[derive(Debug)]
pub struct File {
    pub id: i32,
    pub type_: String,
    pub path: String,
    pub reference_count: i32,
    pub group_id: i32,
    pub description: Option<String>,
}

/// A group of files. `reference_count` counts the file links, tag links and
/// group relations (at either end) that name the group.
#[derive(Debug)]
pub struct Group {
    pub id: i32,
    pub name: String,
    pub reference_count: i32,
    pub is_primary: bool,
    pub click_count: i32,
    pub share_count: i32,
    /// Creation time, in seconds since the Unix epoch.
    pub create_time: i64,
    /// Last modification time, in seconds since the Unix epoch.
    pub modify_time: i64,
    pub description: Option<String>,
}

/// A tag; `reference_count` is the number of groups carrying it.
#[derive(Debug)]
pub struct Tag {
    pub id: i32,
    pub name: String,
    pub reference_count: i32,
    pub description: Option<String>,
}

/// A copy of an optional text.
pub fn copy_text(t: &Option<String>) -> (r: Option<String>)
    ensures
        r == *t,
{
    match t {
        Some(s) => Some(s.clone()),
        None => None,
    }
}

impl Clone for File {
    fn clone(&self) -> (r: Self)
        ensures
            r == *self,
    {
        File {
            id: self.id,
            type_: self.type_.clone(),
            path: self.path.clone(),
            reference_count: self.reference_count,
            group_id: self.group_id,
            description: copy_text(&self.description),
        }
    }
}

impl Clone for Group {
    fn clone(&self) -> (r: Self)
        ensures
            r == *self,
    {
        Group {
            id: self.id,
            name: self.name.clone(),
            reference_count: self.reference_count,
            is_primary: self.is_primary,
            click_count: self.click_count,
            share_count: self.share_count,
            create_time: self.create_time,
            modify_time: self.modify_time,
            description: copy_text(&self.description),
        }
    }
}

impl Clone for Tag {
    fn clone(&self) -> (r: Self)
        ensures
            r == *self,
    {
        Tag {
            id: self.id,
            name: self.name.clone(),
            reference_count: self.reference_count,
            description: copy_text(&self.description),
        }
    }
}

/// A group with the trees of the groups below it.
#[derive(Debug)]
pub struct GroupTreeNode {
    pub group: Group,
    pub children: Vec<GroupTreeNode>,
}

/// A link between a file and a group.
#[derive(Clone, Copy, Debug, PartialEq, Eq, Structural)]
pub struct FileGroupDTO {
    pub file_id: i32,
    pub group_id: i32,
    pub relation_type: i32,
}

/// A link between a group and a tag.
#[derive(Clone, Copy, Debug, PartialEq, Eq, Structural)]
pub struct GroupTagDTO {
    pub group_id: i32,
    pub tag_id: i32,
}

/// A typed relation from a first group to a second group; for the
/// parent/child type the first group is the parent.
#[derive(Clone, Copy, Debug, PartialEq, Eq, Structural)]
pub struct GroupRelation {
    pub first_group_id: i32,
    pub second_group_id: i32,
    pub relation_type: i32,
}

/// Data for a new file.
#[derive(Clone, Debug)]
pub struct CreateFileDTO {
    pub type_: String,
    pub path: String,
    pub group_id: i32,
    pub description: Option<String>,
}

/// Data for a new group.
#[derive(Clone, Debug)]
pub struct CreateGroupDTO {
    pub name: String,
    pub description: Option<String>,
}

/// Data for a new tag.
#[derive(Clone, Debug)]
pub struct CreateTagDTO {
    pub name: String,
    pub description: Option<String>,
}

/// Fields to change on a file; `None` leaves a field as it is.
#[derive(Clone, Debug)]
pub struct UpdateFileDTO {
    pub path: Option<String>,
    pub type_: Option<String>,
    pub reference_count: Option<i32>,
    pub group_id: Option<i32>,
    pub description: Option<String>,
}

/// Fields to change on a group; `None` leaves a field as it is.
#[derive(Clone, Debug)]
pub struct UpdateGroupDTO {
    pub id: Option<i32>,
    pub name: Option<String>,
    pub reference_count: Option<i32>,
    pub is_primary: Option<bool>,
    pub click_count: Option<i32>,
    pub share_count: Option<i32>,
    pub create_time: Option<i64>,
    pub modify_time: Option<i64>,
    pub description: Option<String>,
}

/// Fields to change on a tag; `None` leaves a field as it is.
#[derive(Clone, Debug)]
pub struct UpdateTagDTO {
    pub name: Option<String>,
    pub reference_count: Option<i32>,
    pub description: Option<String>,
}

impl UpdateFileDTO {
    /// A copy of the update.
    pub fn duplicate(&self) -> (r: UpdateFileDTO)
        ensures
            r == *self,
    {
        UpdateFileDTO {
            path: copy_text(&self.path),
            type_: copy_text(&self.type_),
            reference_count: self.reference_count,
            group_id: self.group_id,
            description: copy_text(&self.description),
        }
    }
}

impl Default for UpdateFileDTO {
    fn default() -> (r: Self)
        ensures
            r.path is None,
            r.type_ is None,
            r.reference_count is None,
            r.group_id is None,
            r.description is None,
    {
        UpdateFileDTO { path: None, type_: None, reference_count: None, group_id: None, description: None }
    }
}

impl Default for UpdateGroupDTO {
    fn default() -> (r: Self)
        ensures
            r.id is None,
            r.name is None,
            r.reference_count is None,
            r.is_primary is None,
            r.click_count is None,
            r.share_count is None,
            r.create_time is None,
            r.modify_time is None,
            r.description is None,
    {
        UpdateGroupDTO {
            id: None,
            name: None,
            reference_count: None,
            is_primary: None,
            click_count: None,
            share_count: None,
            create_time: None,
            modify_time: None,
            description: None,
        }
    }
}

impl Default for UpdateTagDTO {
    fn default() -> (r: Self)
        ensures
            r.name is None,
            r.reference_count is None,
            r.description is None,
    {
        UpdateTagDTO { name: None, reference_count: None, description: None }
    }
}

/// Simple equality filter on files (string fields match as LIKE patterns
/// where a query says so).
#[derive(Clone, Debug)]
pub struct FileFilter {
    pub id: Option<i32>,
    pub type_: Option<String>,
    pub path: Option<String>,
    pub reference_count: Option<i32>,
    pub group_id: Option<i32>,
    pub description: Option<String>,
}

/// Simple filter on groups.
#[derive(Clone, Debug)]
pub struct GroupFilter {
    pub id: Option<i32>,
    pub name: Option<String>,
    pub reference_count: Option<i32>,
    pub is_primary: Option<bool>,
    pub click_count: Option<i32>,
    pub share_count: Option<i32>,
    pub create_time: Option<i64>,
    pub modify_time: Option<i64>,
    pub description: Option<String>,
}

/// Simple filter on tags.
#[derive(Clone, Debug)]
pub struct TagFilter {
    pub id: Option<i32>,
    pub name: Option<String>,
    pub reference_count: Option<i32>,
}

impl Default for FileFilter {
    fn default() -> (r: Self)
        ensures
            r.id is None,
            r.type_ is None,
            r.path is None,
            r.reference_count is None,
            r.group_id is None,
            r.description is None,
    {
        FileFilter { id: None, type_: None, path: None, reference_count: None, group_id: None, description: None }
    }
}

impl Default for GroupFilter {
    fn default() -> (r: Self)
        ensures
            r.id is None,
            r.name is None,
            r.reference_count is None,
            r.is_primary is None,
            r.click_count is None,
            r.share_count is None,
            r.create_time is None,
            r.modify_time is None,
            r.description is None,
    {
        GroupFilter {
            id: None,
            name: None,
            reference_count: None,
            is_primary: None,
            click_count: None,
            share_count: None,
            create_time: None,
            modify_time: None,
            description: None,
        }
    }
}

impl Default for TagFilter {
    fn default() -> (r: Self)
        ensures
            r.id is None,
            r.name is None,
            r.reference_count is None,
    {
        TagFilter { id: None, name: None, reference_count: None }
    }
}

/// Direction of an ordering.
#[derive(Clone, Copy, Debug, PartialEq, Eq, Structural)]
pub enum OrderDirection {
    Asc,
    Desc,
}

#[derive(Clone, Copy, Debug, PartialEq, Eq, Structural)]
pub enum FileOrderBy {
    Id(OrderDirection),
    Type(OrderDirection),
    Path(OrderDirection),
    ReferenceCount(OrderDirection),
    GroupId(OrderDirection),
}

#[derive(Clone, Copy, Debug, PartialEq, Eq, Structural)]
pub enum GroupOrderBy {
    Id(OrderDirection),
    Name(OrderDirection),
    ReferenceCount(OrderDirection),
    IsPrimary(OrderDirection),
    ClickCount(OrderDirection),
    ShareCount(OrderDirection),
    CreateTime(OrderDirection),
    ModifyTime(OrderDirection),
}

#[derive(Clone, Copy, Debug, PartialEq, Eq, Structural)]
pub enum TagOrderBy {
    Id(OrderDirection),
    Name(OrderDirection),
    ReferenceCount(OrderDirection),
}

#[derive(Clone, Copy, Debug, PartialEq, Eq, Structural)]
pub enum FileGroupOrderBy {
    FileId(OrderDirection),
    GroupId(OrderDirection),
}

#[derive(Clone, Copy, Debug, PartialEq, Eq, Structural)]
pub enum GroupTagOrderBy {
    GroupId(OrderDirection),
    TagId(OrderDirection),
}

#[derive(Clone, Copy, Debug, PartialEq, Eq, Structural)]
pub enum GroupRelationOrderBy {
    FirstGroupId(OrderDirection),
    SecondGroupId(OrderDirection),
    RelationType(OrderDirection),
}

/// Paging and ordering of a query on files: at most `limit` results after
/// skipping `offset` of them, ordered by the last entry of `order_by`.
#[derive(Debug)]
pub struct FileQueryOptions {
    pub limit: Option<i64>,
    pub offset: Option<i64>,
    pub order_by: Vec<FileOrderBy>,
}

impl Default for FileQueryOptions {
    fn default() -> (r: Self)
        ensures
            r.limit is None,
            r.offset is None,
            r.order_by@.len() == 0,
    {
        FileQueryOptions { limit: None, offset: None, order_by: Vec::new() }
    }
}

/// Paging and ordering of a query on groups: at most `limit` results after
/// skipping `offset` of them, ordered by the last entry of `order_by`.
#[derive(Debug)]
pub struct GroupQueryOptions {
    pub limit: Option<i64>,
    pub offset: Option<i64>,
    pub order_by: Vec<GroupOrderBy>,
}

impl Default for GroupQueryOptions {
    fn default() -> (r: Self)
        ensures
            r.limit is None,
            r.offset is None,
            r.order_by@.len() == 0,
    {
        GroupQueryOptions { limit: None, offset: None, order_by: Vec::new() }
    }
}

/// Paging and ordering of a query on tags: at most `limit` results after
/// skipping `offset` of them, ordered by the last entry of `order_by`.
#[derive(Debug)]
pub struct TagQueryOptions {
    pub limit: Option<i64>,
    pub offset: Option<i64>,
    pub order_by: Vec<TagOrderBy>,
}

impl Default for TagQueryOptions {
    fn default() -> (r: Self)
        ensures
            r.limit is None,
            r.offset is None,
            r.order_by@.len() == 0,
    {
        TagQueryOptions { limit: None, offset: None, order_by: Vec::new() }
    }
}

/// Paging and ordering of a query on file/group links: at most `limit` results after
/// skipping `offset` of them, ordered by the last entry of `order_by`.
#[derive(Debug)]
pub struct FileGroupQueryOptions {
    pub limit: Option<i64>,
    pub offset: Option<i64>,
    pub order_by: Vec<FileGroupOrderBy>,
}

impl Default for FileGroupQueryOptions {
    fn default() -> (r: Self)
        ensures
            r.limit is None,
            r.offset is None,
            r.order_by@.len() == 0,
    {
        FileGroupQueryOptions { limit: None, offset: None, order_by: Vec::new() }
    }
}

/// Paging and ordering of a query on group/tag links: at most `limit` results after
/// skipping `offset` of them, ordered by the last entry of `order_by`.
#[derive(Debug)]
pub struct GroupTagQueryOptions {
    pub limit: Option<i64>,
    pub offset: Option<i64>,
    pub order_by: Vec<GroupTagOrderBy>,
}

impl Default for GroupTagQueryOptions {
    fn default() -> (r: Self)
        ensures
            r.limit is None,
            r.offset is None,
            r.order_by@.len() == 0,
    {
        GroupTagQueryOptions { limit: None, offset: None, order_by: Vec::new() }
    }
}

/// Paging and ordering of a query on group relations: at most `limit` results after
/// skipping `offset` of them, ordered by the last entry of `order_by`.
#[derive(Debug)]
pub struct GroupRelationQueryOptions {
    pub limit: Option<i64>,
    pub offset: Option<i64>,
    pub order_by: Vec<GroupRelationOrderBy>,
}

impl Default for GroupRelationQueryOptions {
    fn default() -> (r: Self)
        ensures
            r.limit is None,
            r.offset is None,
            r.order_by@.len() == 0,
    {
        GroupRelationQueryOptions { limit: None, offset: None, order_by: Vec::new() }
    }
}

/// A condition on files.
#[derive(Debug)]
pub enum FileCondition {
    Id(i32),
    Type(String),
    Path(String),
    ReferenceCount(i32),
    GroupId(i32),
    IdGreaterThan(i32),
    IdLessThan(i32),
    TypeLike(String),
    PathLike(String),
    DescriptionLike(String),
    ReferenceCountGreaterThan(i32),
    ReferenceCountLessThan(i32),
    GroupIdGreaterThan(i32),
    GroupIdLessThan(i32),
    IdIn(Vec<i32>),
    TypeIn(Vec<String>),
    PathIn(Vec<String>),
    ReferenceCountIn(Vec<i32>),
    GroupIdIn(Vec<i32>),
    And(Vec<FileCondition>),
    Or(Vec<FileCondition>),
    Not(Box<FileCondition>),
}

/// A condition on groups.
#[derive(Debug)]
pub enum GroupCondition {
    Id(i32),
    Name(String),
    ReferenceCount(i32),
    IsPrimary(bool),
    ClickCount(i32),
    ShareCount(i32),
    CreateTime(i64),
    ModifyTime(i64),
    IdGreaterThan(i32),
    IdLessThan(i32),
    NameLike(String),
    DescriptionLike(String),
    ReferenceCountGreaterThan(i32),
    ReferenceCountLessThan(i32),
    ClickCountGreaterThan(i32),
    ClickCountLessThan(i32),
    ShareCountGreaterThan(i32),
    ShareCountLessThan(i32),
    CreateTimeGreaterThan(i64),
    CreateTimeLessThan(i64),
    ModifyTimeGreaterThan(i64),
    ModifyTimeLessThan(i64),
    IdIn(Vec<i32>),
    NameIn(Vec<String>),
    ReferenceCountIn(Vec<i32>),
    ClickCountIn(Vec<i32>),
    ShareCountIn(Vec<i32>),
    CreateTimeIn(Vec<i64>),
    ModifyTimeIn(Vec<i64>),
    And(Vec<GroupCondition>),
    Or(Vec<GroupCondition>),
    Not(Box<GroupCondition>),
}

/// A condition on tags.
#[derive(Debug)]
pub enum TagCondition {
    Id(i32),
    Name(String),
    ReferenceCount(i32),
    IdGreaterThan(i32),
    IdLessThan(i32),
    NameLike(String),
    ReferenceCountGreaterThan(i32),
    ReferenceCountLessThan(i32),
    IdIn(Vec<i32>),
    NameIn(Vec<String>),
    ReferenceCountIn(Vec<i32>),
    And(Vec<TagCondition>),
    Or(Vec<TagCondition>),
    Not(Box<TagCondition>),
}

/// A condition on file/group links.
#[derive(Debug)]
pub enum FileGroupCondition {
    FileId(i32),
    GroupId(i32),
    RelationType(i32),
    FileIdGreaterThan(i32),
    FileIdLessThan(i32),
    GroupIdGreaterThan(i32),
    GroupIdLessThan(i32),
    RelationTypeGreaterThan(i32),
    RelationTypeLessThan(i32),
    FileIdIn(Vec<i32>),
    GroupIdIn(Vec<i32>),
    RelationTypeIn(Vec<i32>),
    And(Vec<FileGroupCondition>),
    Or(Vec<FileGroupCondition>),
    Not(Box<FileGroupCondition>),
}

/// A condition on group/tag links.
#[derive(Debug)]
pub enum GroupTagCondition {
    GroupId(i32),
    TagId(i32),
    GroupIdGreaterThan(i32),
    GroupIdLessThan(i32),
    TagIdGreaterThan(i32),
    TagIdLessThan(i32),
    GroupIdIn(Vec<i32>),
    TagIdIn(Vec<i32>),
    And(Vec<GroupTagCondition>),
    Or(Vec<GroupTagCondition>),
    Not(Box<GroupTagCondition>),
}

/// A condition on group relations.
#[derive(Debug)]
pub enum GroupRelationCondition {
    FirstGroupId(i32),
    SecondGroupId(i32),
    RelationType(i32),
    FirstGroupIdGreaterThan(i32),
    FirstGroupIdLessThan(i32),
    SecondGroupIdGreaterThan(i32),
    SecondGroupIdLessThan(i32),
    RelationTypeGreaterThan(i32),
    RelationTypeLessThan(i32),
    FirstGroupIdIn(Vec<i32>),
    SecondGroupIdIn(Vec<i32>),
    RelationTypeIn(Vec<i32>),
    And(Vec<GroupRelationCondition>),
    Or(Vec<GroupRelationCondition>),
    Not(Box<GroupRelationCondition>),
}

} // verus!

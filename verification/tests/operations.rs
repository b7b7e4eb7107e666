use file_classification::errors::{AppError, DbError};
use file_classification::models::{
    CreateFileDTO, CreateGroupDTO, CreateTagDTO, FileCondition, FileFilter, FileGroupCondition, FileGroupDTO,
    FileOrderBy, FileQueryOptions, GroupCondition, GroupOrderBy, GroupQueryOptions, GroupRelation,
    GroupRelationCondition, GroupTagCondition, GroupTagDTO, OrderDirection, TagCondition, TagFilter, UpdateFileDTO,
    UpdateGroupDTO, UpdateTagDTO, RELATION_TYPE_PARENT_CHILD,
};
use file_classification::service::{batch, file_group, files, group_relations, group_tag, groups, tags};
use file_classification::load::catalogue_from_rows;
use file_classification::models::Group;
use file_classification::store::Database;

fn group(db: &mut Database, name: &str) -> i32 {
    groups::create_group(db, &CreateGroupDTO { name: name.to_string(), description: None }).unwrap()
}

fn file(db: &mut Database, path: &str, type_: &str, group_id: i32) -> i32 {
    files::create_file(
        db,
        CreateFileDTO { type_: type_.to_string(), path: path.to_string(), group_id, description: None },
    )
    .unwrap()
}

fn tag(db: &mut Database, name: &str) -> i32 {
    tags::create_tag(db, &CreateTagDTO { name: name.to_string(), description: None }).unwrap()
}

fn link(db: &mut Database, file_id: i32, group_id: i32) {
    file_group::create_file_group(db, FileGroupDTO { file_id, group_id, relation_type: 1 }).unwrap();
}

fn parent(first: i32, second: i32) -> GroupRelation {
    GroupRelation { first_group_id: first, second_group_id: second, relation_type: RELATION_TYPE_PARENT_CHILD }
}

fn ids_of_files(v: &[file_classification::models::File]) -> Vec<i32> {
    v.iter().map(|f| f.id).collect()
}

fn group_update() -> UpdateGroupDTO {
    UpdateGroupDTO {
        id: None,
        name: None,
        reference_count: None,
        is_primary: None,
        click_count: None,
        share_count: None,
        create_time: None,
        modify_time: None,
        description: None,
    }
}

fn file_update() -> UpdateFileDTO {
    UpdateFileDTO { path: None, type_: None, reference_count: None, group_id: None, description: None }
}

#[test]
fn ids_are_handed_out_in_order() {
    let mut db = Database::new();
    assert_eq!(group(&mut db, "a"), 1);
    assert_eq!(group(&mut db, "b"), 2);
    assert_eq!(tag(&mut db, "t"), 1);
    assert_eq!(file(&mut db, "/x", "txt", 1), 1);
}

#[test]
fn creating_a_file_makes_its_group_primary() {
    let mut db = Database::new();
    let g = group(&mut db, "a");
    let f = file(&mut db, "/x", "txt", g);
    let gr = groups::get_group_by_id(&db, g).unwrap();
    assert!(gr.is_primary);
    assert_eq!(gr.reference_count, 1);
    assert_eq!(files::get_file_by_id(&db, f).unwrap().group_id, g);
    let links = file_group::select_file_groups_by_conditions_with_limit(&db, vec![], None).unwrap();
    assert_eq!(links, vec![FileGroupDTO { file_id: f, group_id: g, relation_type: 1 }]);
}

#[test]
fn file_creation_errors() {
    let mut db = Database::new();
    let g = group(&mut db, "a");
    let dto = |group_id| CreateFileDTO { type_: "t".into(), path: "/p".into(), group_id, description: None };
    assert!(matches!(files::create_file(&mut db, dto(9)), Err(AppError::DatabaseError(DbError::NotFound))));
    file(&mut db, "/x", "txt", g);
    assert!(matches!(files::create_file(&mut db, dto(g)), Err(AppError::CannotBindToPrimaryGroup)));
    let h = group(&mut db, "b");
    link(&mut db, 1, h);
    assert!(matches!(files::create_file(&mut db, dto(h)), Err(AppError::FuturePrimaryGroupShouldBeEmpty)));
    let k = group(&mut db, "c");
    let child = group(&mut db, "d");
    group_relations::create_group_relation(&mut db, parent(k, child)).unwrap();
    assert!(matches!(files::create_file(&mut db, dto(k)), Err(AppError::FuturePrimaryGroupShouldBeEmpty)));
}

#[test]
fn group_and_tag_names_are_unique() {
    let mut db = Database::new();
    group(&mut db, "a");
    let again = groups::create_group(&mut db, &CreateGroupDTO { name: "a".into(), description: None });
    assert!(matches!(again, Err(AppError::DatabaseError(DbError::UniqueViolation))));
    tag(&mut db, "t");
    assert!(matches!(
        tags::create_tag_by_name(&mut db, "t"),
        Err(AppError::DatabaseError(DbError::UniqueViolation))
    ));
    assert_eq!(groups::find_group_by_name(&db, "a").unwrap().map(|g| g.id), Some(1));
    assert!(groups::find_group_by_name(&db, "zz").unwrap().is_none());
    assert_eq!(tags::find_tag_by_name(&db, "t").map(|t| t.id), Some(1));
}

#[test]
fn new_groups_start_empty_and_timestamped() {
    let mut db = Database::new();
    let id = groups::create_group_at(&mut db, &CreateGroupDTO { name: "g".into(), description: Some("d".into()) }, 1700)
        .unwrap();
    let g = groups::get_group_by_id(&db, id).unwrap();
    assert_eq!((g.reference_count, g.click_count, g.share_count), (0, 0, 0));
    assert_eq!((g.create_time, g.modify_time), (1700, 1700));
    assert!(!g.is_primary);
    assert_eq!(g.description.as_deref(), Some("d"));
    let now = groups::create_group(&mut db, &CreateGroupDTO { name: "h".into(), description: None }).unwrap();
    assert!(groups::get_group_by_id(&db, now).unwrap().create_time > 1_600_000_000);
}

#[test]
fn links_are_checked() {
    let mut db = Database::new();
    let g = group(&mut db, "a");
    let h = group(&mut db, "b");
    let f = file(&mut db, "/x", "txt", g);
    let t = tag(&mut db, "t");
    let fg = |file_id, group_id| FileGroupDTO { file_id, group_id, relation_type: 1 };
    assert!(matches!(file_group::create_file_group(&mut db, fg(f, 99)), Err(AppError::GroupNotFound)));
    assert!(matches!(file_group::create_file_group(&mut db, fg(99, h)), Err(AppError::FileNotFound)));
    assert!(matches!(file_group::create_file_group(&mut db, fg(f, g)), Err(AppError::CannotBindToPrimaryGroup)));
    link(&mut db, f, h);
    assert!(matches!(
        file_group::create_file_group(&mut db, fg(f, h)),
        Err(AppError::DatabaseError(DbError::UniqueViolation))
    ));
    assert!(matches!(file_group::delete_file_group_by_dto(&mut db, &fg(f, g)), Err(AppError::CannotUnbindPrimaryGroup)));
    assert!(matches!(file_group::delete_file_group_by_dto(&mut db, &fg(f, h)), Ok(1)));
    assert!(matches!(file_group::delete_file_group_by_dto(&mut db, &fg(f, h)), Ok(0)));
    let gt = GroupTagDTO { group_id: h, tag_id: t };
    assert!(matches!(group_tag::create_group_tag(&mut db, GroupTagDTO { group_id: h, tag_id: 5 }), Err(AppError::TagNotFound)));
    group_tag::create_group_tag(&mut db, gt).unwrap();
    assert!(matches!(group_tag::create_group_tag(&mut db, gt), Err(AppError::DatabaseError(DbError::UniqueViolation))));
    assert_eq!(tags::get_tag_by_id(&db, t).unwrap().reference_count, 1);
    assert!(matches!(group_tag::delete_group_tag_by_dto(&mut db, &gt), Ok(1)));
    assert!(matches!(group_tag::delete_group_tag_by_dto(&mut db, &gt), Ok(0)));
    assert_eq!(tags::get_tag_by_id(&db, t).unwrap().reference_count, 0);
}

#[test]
fn batch_unlinking_is_all_or_nothing() {
    let mut db = Database::new();
    let g = group(&mut db, "a");
    let h = group(&mut db, "b");
    let k = group(&mut db, "c");
    let f = file(&mut db, "/x", "txt", g);
    link(&mut db, f, h);
    link(&mut db, f, k);
    let fg = |group_id| FileGroupDTO { file_id: f, group_id, relation_type: 1 };
    // The link to the primary group cannot go, so nothing goes.
    assert!(matches!(
        file_group::delete_file_groups_by_dtos(&mut db, vec![fg(h), fg(g)]),
        Err(AppError::CannotUnbindPrimaryGroup)
    ));
    assert_eq!(file_group::select_file_groups_by_conditions_with_limit(&db, vec![], None).unwrap().len(), 3);
    assert_eq!(files::get_file_by_id(&db, f).unwrap().reference_count, 3);
    // A link named twice, or not stored, counts once or not at all.
    assert!(matches!(file_group::delete_file_groups_by_dtos(&mut db, vec![fg(h), fg(h), fg(99)]), Err(AppError::GroupNotFound)));
    assert!(matches!(file_group::delete_file_groups_by_dtos(&mut db, vec![fg(h), fg(h)]), Ok(1)));
    assert_eq!(files::get_file_by_id(&db, f).unwrap().reference_count, 2);
    assert!(matches!(
        file_group::delete_file_groups_by_conditions(&mut db, vec![FileGroupCondition::GroupId(k)]),
        Ok(1)
    ));
    assert!(matches!(
        file_group::delete_file_groups_by_conditions(&mut db, vec![FileGroupCondition::FileId(f)]),
        Err(AppError::CannotUnbindPrimaryGroup)
    ));
    let left = file_group::select_file_groups_by_conditions_with_limit(&db, vec![], None).unwrap();
    assert_eq!(left, vec![fg(g)]);
}

#[test]
fn batch_untagging() {
    let mut db = Database::new();
    let g = group(&mut db, "a");
    let h = group(&mut db, "b");
    let t = tag(&mut db, "t");
    let u = tag(&mut db, "u");
    for (group_id, tag_id) in [(g, t), (g, u), (h, t)] {
        group_tag::create_group_tag(&mut db, GroupTagDTO { group_id, tag_id }).unwrap();
    }
    assert!(matches!(
        group_tag::delete_group_tags_by_dtos(&mut db, vec![GroupTagDTO { group_id: g, tag_id: t }, GroupTagDTO { group_id: 9, tag_id: t }]),
        Err(AppError::GroupNotFound)
    ));
    assert_eq!(tags::get_tag_by_id(&db, t).unwrap().reference_count, 2);
    assert!(matches!(group_tag::delete_group_tags_by_conditions(&mut db, vec![GroupTagCondition::TagId(t)]), Ok(2)));
    assert_eq!(tags::get_tag_by_id(&db, t).unwrap().reference_count, 0);
    assert_eq!(groups::get_group_by_id(&db, g).unwrap().reference_count, 1);
    let left = group_tag::select_group_tags_by_conditions_with_limit(&db, vec![], None).unwrap();
    assert_eq!(left, vec![GroupTagDTO { group_id: g, tag_id: u }]);
}

#[test]
fn relations_between_groups() {
    let mut db = Database::new();
    let a = group(&mut db, "a");
    let b = group(&mut db, "b");
    let c = group(&mut db, "c");
    assert!(matches!(group_relations::create_group_relation(&mut db, parent(a, a)), Err(AppError::GroupRelationCycleDetected)));
    assert!(matches!(group_relations::create_group_relation(&mut db, parent(a, 9)), Err(AppError::GroupNotFound)));
    group_relations::create_group_relation(&mut db, parent(a, b)).unwrap();
    group_relations::create_group_relation(&mut db, parent(b, c)).unwrap();
    // `a` and `b` are above `c`: neither may become a child of `c`.
    assert!(matches!(group_relations::create_group_relation(&mut db, parent(c, a)), Err(AppError::GroupRelationCycleDetected)));
    assert!(matches!(group_relations::create_group_relation(&mut db, parent(c, b)), Err(AppError::GroupRelationCycleDetected)));
    assert!(group_relations::would_create_cycle(&db, c, b, 1));
    assert!(!group_relations::would_create_cycle(&db, a, c, 1));
    // A second path down from `a` to `c` closes no cycle.
    group_relations::create_group_relation(&mut db, parent(a, c)).unwrap();
    assert!(matches!(group_relations::create_group_relation(&mut db, parent(b, c)), Err(AppError::GroupRelationAlreadyExists)));
    assert_eq!(group_relations::get_direct_children_ids(&db, a).unwrap(), vec![b, c]);
    assert_eq!(group_relations::get_direct_parents_ids(&db, c).unwrap(), vec![b, a]);
    assert_eq!(groups::get_group_by_id(&db, b).unwrap().reference_count, 2);
    let other = GroupRelation { first_group_id: a, second_group_id: b, relation_type: 2 };
    group_relations::create_group_relation(&mut db, other).unwrap();
    assert!(matches!(group_relations::create_group_relation(&mut db, other), Err(AppError::GroupRelationAlreadyExists)));
    assert!(matches!(
        group_relations::delete_group_relations_by_conditions(&mut db, vec![GroupRelationCondition::FirstGroupId(a)]),
        Ok(3)
    ));
    assert!(matches!(group_relations::delete_group_relation(&mut db, &parent(a, b)), Ok(0)));
    assert!(matches!(group_relations::delete_group_relation(&mut db, &parent(b, c)), Ok(1)));
    assert_eq!(groups::get_group_by_id(&db, b).unwrap().reference_count, 0);
    let f = file(&mut db, "/x", "txt", a);
    assert!(f > 0);
    assert!(matches!(group_relations::create_group_relation(&mut db, parent(a, b)), Err(AppError::PrimaryGroupCannotBeParent)));
}

#[test]
fn queries_filter_order_and_page() {
    let mut db = Database::new();
    for (i, name) in ["g1", "g2", "g3", "g4"].iter().enumerate() {
        let g = group(&mut db, name);
        file(&mut db, &format!("/d/{}.txt", i), if i % 2 == 0 { "txt" } else { "md" }, g);
    }
    let all = files::select_files_by_conditions_with_limit(&db, vec![], None).unwrap();
    assert_eq!(ids_of_files(&all), vec![1, 2, 3, 4]);
    let txt = files::select_files_by_conditions_with_limit(&db, vec![FileCondition::Type("txt".into())], None).unwrap();
    assert_eq!(ids_of_files(&txt), vec![1, 3]);
    let not_txt = files::select_files_by_conditions_with_limit(
        &db,
        vec![FileCondition::Not(Box::new(FileCondition::Type("txt".into())))],
        Some(1),
    )
    .unwrap();
    assert_eq!(ids_of_files(&not_txt), vec![2]);
    let either = files::select_files_by_conditions_with_limit(
        &db,
        vec![FileCondition::Or(vec![FileCondition::Id(4), FileCondition::PathLike("%/0.%".into())])],
        None,
    )
    .unwrap();
    assert_eq!(ids_of_files(&either), vec![1, 4]);
    let options = FileQueryOptions {
        limit: Some(2),
        offset: Some(1),
        order_by: vec![FileOrderBy::Id(OrderDirection::Desc)],
    };
    let page = files::select_files_by_conditions_with_options(&db, vec![], options).unwrap();
    assert_eq!(ids_of_files(&page), vec![3, 2]);
    let negative = files::select_files_by_conditions_with_limit(&db, vec![], Some(-1)).unwrap();
    assert_eq!(negative.len(), 4);
    let by_group = files::select_file_by_group_id(&db, 2).unwrap();
    assert_eq!(ids_of_files(&by_group), vec![2]);
    let filter = FileFilter { type_: Some("m%".into()), ..FileFilter::default() };
    assert_eq!(ids_of_files(&files::select_files_by_filter_with_limit(&db, filter, None).unwrap()), vec![2, 4]);
    let groups_desc = groups::select_groups_by_conditions_with_options(
        &db,
        vec![GroupCondition::NameIn(vec!["g1".into(), "g3".into()])],
        GroupQueryOptions { limit: None, offset: None, order_by: vec![GroupOrderBy::Name(OrderDirection::Desc)] },
    )
    .unwrap();
    assert_eq!(groups_desc.iter().map(|g| g.id).collect::<Vec<_>>(), vec![3, 1]);
    let tag_filter = TagFilter { id: None, name: Some("%".into()), reference_count: None };
    assert!(tags::select_tags_by_filter(&db, tag_filter, 10).unwrap().is_empty());
}

#[test]
fn like_patterns_follow_sql() {
    let mut db = Database::new();
    for name in ["alpha", "Alphabet", "beta", "a_c", "abc"] {
        group(&mut db, name);
    }
    let like = |p: &str| {
        groups::select_groups_by_conditions_with_limit(&db, vec![GroupCondition::NameLike(p.into())], None)
            .unwrap()
            .iter()
            .map(|g| g.id)
            .collect::<Vec<_>>()
    };
    assert_eq!(like("alpha%"), vec![1, 2]);
    assert_eq!(like("%ta"), vec![3]);
    assert_eq!(like("a_c"), vec![4, 5]);
    assert_eq!(like("%"), vec![1, 2, 3, 4, 5]);
    assert!(like("").is_empty());
}

#[test]
fn updates_keep_the_catalogue_fields() {
    let mut db = Database::new();
    let g = group(&mut db, "a");
    let h = group(&mut db, "b");
    let f = file(&mut db, "/x", "txt", g);
    let rc = UpdateFileDTO { reference_count: Some(3), ..file_update() };
    assert!(matches!(files::update_file_by_id(&mut db, f, rc), Err(AppError::CannotModifyReferenceCount)));
    assert!(matches!(
        files::update_file_by_id(&mut db, 77, file_update()),
        Err(AppError::DatabaseError(DbError::NotFound))
    ));
    let mv = UpdateFileDTO { group_id: Some(h), path: Some("/y".into()), ..file_update() };
    assert!(matches!(files::update_file_by_id(&mut db, f, mv), Ok(1)));
    let moved = files::get_file_by_id(&db, f).unwrap();
    assert_eq!((moved.group_id, moved.path.as_str()), (h, "/y"));
    assert!(groups::get_group_by_id(&db, h).unwrap().is_primary);
    assert!(!groups::get_group_by_id(&db, g).unwrap().is_primary);
    assert_eq!(groups::get_group_by_id(&db, g).unwrap().reference_count, 0);

    let primary = UpdateGroupDTO { is_primary: Some(true), ..group_update() };
    assert!(matches!(groups::update_group_by_id(&mut db, g, primary), Err(AppError::CannotModifyPrimaryStatus)));
    let id_change = UpdateGroupDTO { id: Some(5), ..group_update() };
    assert!(matches!(groups::update_group_by_id(&mut db, g, id_change), Err(AppError::CannotModifyId)));
    let rename = UpdateGroupDTO { name: Some("b".into()), ..group_update() };
    assert!(matches!(
        groups::update_group_by_id(&mut db, g, rename),
        Err(AppError::DatabaseError(DbError::UniqueViolation))
    ));
    let clicks = UpdateGroupDTO { click_count: Some(7), ..group_update() };
    assert!(matches!(groups::update_groups_by_conditions(&mut db, vec![], clicks), Ok(2)));
    assert_eq!(groups::get_group_by_id(&db, h).unwrap().click_count, 7);
    let both_named = UpdateGroupDTO { name: Some("z".into()), ..group_update() };
    assert!(matches!(
        groups::update_groups_by_conditions(&mut db, vec![], both_named),
        Err(AppError::DatabaseError(DbError::UniqueViolation))
    ));
    let t = tag(&mut db, "t");
    let tag_rc = UpdateTagDTO { name: None, reference_count: Some(1), description: None };
    assert!(matches!(tags::update_tag_by_id(&mut db, t, tag_rc), Err(AppError::CannotModifyReferenceCount)));
    let tag_desc = UpdateTagDTO { name: None, reference_count: None, description: Some("d".into()) };
    assert!(matches!(tags::update_tags_by_conditions(&mut db, vec![TagCondition::Id(t)], tag_desc), Ok(1)));
    assert_eq!(tags::get_tag_by_id(&db, t).unwrap().description.as_deref(), Some("d"));
}

#[test]
fn updating_files_by_conditions_rolls_back() {
    let mut db = Database::new();
    let g = group(&mut db, "a");
    let h = group(&mut db, "b");
    file(&mut db, "/x", "txt", g);
    file(&mut db, "/y", "txt", h);
    let k = group(&mut db, "c");
    let to_k = UpdateFileDTO { group_id: Some(k), ..file_update() };
    // The second file cannot move into the group the first one made primary.
    assert!(matches!(files::update_files_by_conditions(&mut db, vec![], to_k), Err(AppError::CannotBindToPrimaryGroup)));
    assert_eq!(files::get_file_by_id(&db, 1).unwrap().group_id, g);
    assert!(!groups::get_group_by_id(&db, k).unwrap().is_primary);
    let retype = UpdateFileDTO { type_: Some("md".into()), ..file_update() };
    assert!(matches!(files::update_files_by_conditions(&mut db, vec![], retype), Ok(2)));
    assert_eq!(files::get_file_by_id(&db, 2).unwrap().type_, "md");
}

#[test]
fn deleting_records() {
    let mut db = Database::new();
    let g = group(&mut db, "a");
    let h = group(&mut db, "b");
    let f = file(&mut db, "/x", "txt", g);
    let t = tag(&mut db, "t");
    link(&mut db, f, h);
    group_tag::create_group_tag(&mut db, GroupTagDTO { group_id: h, tag_id: t }).unwrap();
    assert!(matches!(tags::delete_tag(&mut db, 42), Ok(0)));
    assert!(matches!(groups::delete_group(&mut db, 42), Err(AppError::GroupNotFound)));
    assert!(matches!(groups::delete_group_by_id(&mut db, 42), Ok(0)));
    assert!(matches!(
        groups::delete_group_by_id(&mut db, h),
        Err(AppError::DatabaseError(DbError::ForeignKeyViolation))
    ));
    assert!(matches!(batch::delete_files_by_ids(&mut db, vec![f, f]), Err(AppError::DatabaseError(DbError::NotFound))));
    assert!(matches!(groups::delete_group(&mut db, h), Ok(1)));
    assert_eq!(tags::get_tag_by_id(&db, t).unwrap().reference_count, 0);
    assert_eq!(files::get_file_by_id(&db, f).unwrap().reference_count, 1);
    assert!(matches!(tags::delete_tag(&mut db, t), Ok(1)));
    assert!(matches!(batch::delete_files_by_conditions(&mut db, vec![FileCondition::Path("/x".into())]), Ok(1)));
    assert!(groups::find_group_by_id(&db, g).is_none());
    assert!(matches!(batch::delete_groups_by_ids(&mut db, vec![]), Ok(0)));
    let x = group(&mut db, "x");
    let y = group(&mut db, "y");
    assert!(matches!(batch::delete_groups_by_conditions(&mut db, vec![GroupCondition::IdIn(vec![x, y])]), Ok(2)));
    assert!(matches!(batch::delete_tags_by_ids(&mut db, vec![1]), Ok(0)));
    tag(&mut db, "n");
    assert!(matches!(batch::delete_tags_by_conditions(&mut db, vec![]), Ok(1)));
}

#[test]
fn group_trees() {
    let mut db = Database::new();
    let a = group(&mut db, "a");
    let b = group(&mut db, "b");
    let c = group(&mut db, "c");
    let d = group(&mut db, "d");
    for (p, ch) in [(a, b), (a, c), (b, d)] {
        group_relations::create_group_relation(&mut db, parent(p, ch)).unwrap();
    }
    assert!(groups::tree_within(&db, a, 3));
    assert!(!groups::tree_within(&db, a, 2));
    let tree = groups::get_group_tree(&db, a).unwrap();
    assert_eq!(tree.group.id, a);
    assert_eq!(tree.children.iter().map(|t| t.group.id).collect::<Vec<_>>(), vec![b, c]);
    assert_eq!(tree.children[0].children[0].group.id, d);
    assert!(tree.children[1].children.is_empty());
    assert!(matches!(groups::get_group_tree(&db, 99), Err(AppError::GroupNotFound)));
    // A relation of the same type back up to `a` would close a cycle.
    assert!(matches!(group_relations::create_group_relation(&mut db, parent(d, a)), Err(AppError::GroupRelationCycleDetected)));
    assert!(groups::tree_within(&db, a, 3));
    // The check looks at one relation type only; the tree follows every
    // type, so a relation of another type back up makes it endless.
    let back = GroupRelation { first_group_id: d, second_group_id: a, relation_type: 2 };
    group_relations::create_group_relation(&mut db, back).unwrap();
    assert!(!groups::tree_within(&db, a, 5));
}

#[test]
fn error_codes() {
    assert_eq!(AppError::GroupNotFound.code(), 1001);
    assert_eq!(AppError::CreateFileFailed("x".into()).code(), 2002);
    assert_eq!(AppError::CannotUnbindPrimaryGroup.code(), 5005);
    assert_eq!(AppError::GroupRelationCycleDetected.code(), 6001);
    assert_eq!(AppError::CannotModifyReferenceCount.code(), 7002);
    assert_eq!(AppError::ValidationError(String::new()).code(), 8001);
    assert_eq!(AppError::DatabaseError(DbError::NotFound).code(), 9001);
}

#[test]
fn identifiers_can_run_out() {
    let last = Group {
        id: i32::MAX - 1,
        name: "last".into(),
        reference_count: 0,
        is_primary: false,
        click_count: 0,
        share_count: 0,
        create_time: 0,
        modify_time: 0,
        description: None,
    };
    let mut db = catalogue_from_rows(vec![], vec![last], vec![], vec![], vec![], vec![]).unwrap();
    assert_eq!(db.next_group_id, i32::MAX);
    let more = groups::create_group(&mut db, &CreateGroupDTO { name: "more".into(), description: None });
    assert!(matches!(more, Err(AppError::DatabaseError(DbError::IdExhausted))));
    assert!(groups::find_group_by_name(&db, "more").unwrap().is_none());
}

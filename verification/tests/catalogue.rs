use file_classification::errors::AppError;
use file_classification::models::{
    CreateFileDTO, CreateGroupDTO, CreateTagDTO, File, FileGroupDTO, Group, GroupFilter, GroupRelation,
    GroupTagDTO, Tag, UpdateFileDTO, UpdateGroupDTO, UpdateTagDTO, RELATION_TYPE_PARENT_CHILD,
};
use file_classification::service::{file_group as file_group_service, files as files_service};
use file_classification::service::{group_relations as group_relations_service, group_tag as group_tag_service};
use file_classification::service::{groups as groups_service, tags as tags_service};
use file_classification::store::Database;

fn setup() -> Database {
    Database::new()
}

fn create_group(db: &mut Database, name: &str) -> i32 {
    groups_service::create_group(db, &CreateGroupDTO { name: name.to_string(), description: None })
        .expect("创建分组失败")
}

fn create_file(db: &mut Database, path: &str, group_id: i32) -> i32 {
    files_service::create_file(
        db,
        CreateFileDTO { type_: "txt".to_string(), path: path.to_string(), group_id, description: None },
    )
    .expect("创建文件失败")
}

fn create_tag(db: &mut Database, name: &str) -> i32 {
    tags_service::create_tag(db, &CreateTagDTO { name: name.to_string(), description: None })
        .expect("创建标签失败")
}

fn find_group(db: &Database, id: i32) -> Option<Group> {
    groups_service::find_group_by_id(db, id)
}

fn get_group(db: &Database, id: i32) -> Group {
    groups_service::get_group_by_id(db, id).expect("查询分组失败")
}

fn get_file(db: &Database, id: i32) -> File {
    files_service::get_file_by_id(db, id).expect("查询文件失败")
}

fn get_tag(db: &Database, id: i32) -> Tag {
    tags_service::get_tag_by_id(db, id).expect("查询标签失败")
}

#[test]
fn test_foreign_keys_are_enforced() {
    let mut db = setup();
    let group_id = create_group(&mut db, "A");
    let file_id = create_file(&mut db, "/a.txt", group_id);

    let res = groups_service::delete_group_by_id(&mut db, group_id);
    assert!(res.is_err(), "删除被文件引用的组应被外键拦截");

    let file = get_file(&db, file_id);
    assert_eq!(file.id, file_id);
}

#[test]
fn test_reference_counts_are_consistent() {
    let mut db = setup();
    let g1 = create_group(&mut db, "A");
    let g2 = create_group(&mut db, "B");
    let tag = create_tag(&mut db, "t");

    let file_id = create_file(&mut db, "/a.txt", g1);
    assert_eq!(get_file(&db, file_id).reference_count, 1);
    assert_eq!(get_group(&db, g1).reference_count, 1);

    file_group_service::create_file_group(&mut db, FileGroupDTO { file_id, group_id: g2, relation_type: 1 })
        .unwrap();
    assert_eq!(get_file(&db, file_id).reference_count, 2);
    assert_eq!(get_group(&db, g2).reference_count, 1);

    group_tag_service::create_group_tag(&mut db, GroupTagDTO { group_id: g1, tag_id: tag }).unwrap();
    assert_eq!(get_group(&db, g1).reference_count, 2);
    assert_eq!(get_tag(&db, tag).reference_count, 1);

    group_relations_service::create_group_relation(
        &mut db,
        GroupRelation { first_group_id: g2, second_group_id: g1, relation_type: RELATION_TYPE_PARENT_CHILD },
    )
    .unwrap();
    assert_eq!(get_group(&db, g2).reference_count, 2);
    assert_eq!(get_group(&db, g1).reference_count, 3);
    assert_eq!(group_relations_service::get_direct_parents_ids(&db, g1).unwrap(), vec![g2]);
}

#[test]
fn test_delete_file_cascades() {
    let mut db = setup();
    let g1 = create_group(&mut db, "A");
    let g2 = create_group(&mut db, "B");
    let tag = create_tag(&mut db, "t");

    let file_id = create_file(&mut db, "/a.txt", g1);
    file_group_service::create_file_group(&mut db, FileGroupDTO { file_id, group_id: g2, relation_type: 1 })
        .unwrap();
    group_tag_service::create_group_tag(&mut db, GroupTagDTO { group_id: g1, tag_id: tag }).unwrap();

    files_service::delete_file(&mut db, file_id).unwrap();

    assert!(find_group(&db, g1).is_none(), "文件的主组应随文件删除");
    assert!(files_service::find_file_by_id(&db, file_id).is_none());
    assert_eq!(get_group(&db, g2).reference_count, 0);
    assert_eq!(get_tag(&db, tag).reference_count, 0);

    let file_id2 = create_file(&mut db, "/b.txt", g2);
    assert_eq!(get_file(&db, file_id2).reference_count, 1);
}

#[test]
fn test_delete_non_primary_group() {
    let mut db = setup();
    let g1 = create_group(&mut db, "A");
    let g2 = create_group(&mut db, "B");
    let file_id = create_file(&mut db, "/a.txt", g1);
    file_group_service::create_file_group(&mut db, FileGroupDTO { file_id, group_id: g2, relation_type: 1 })
        .unwrap();
    assert_eq!(get_file(&db, file_id).reference_count, 2);

    groups_service::delete_group(&mut db, g2).unwrap();

    assert!(find_group(&db, g2).is_none());
    assert_eq!(get_file(&db, file_id).reference_count, 1);

    files_service::delete_file(&mut db, file_id).unwrap();
    assert!(find_group(&db, g1).is_none(), "删除文件时其主组应级联删除");
}

#[test]
fn test_delete_primary_group_cascades() {
    let mut db = setup();
    let a = create_group(&mut db, "A");
    let b = create_group(&mut db, "B");
    let tag = create_tag(&mut db, "t");

    let file_id = create_file(&mut db, "/a.txt", a);
    file_group_service::create_file_group(&mut db, FileGroupDTO { file_id, group_id: b, relation_type: 1 })
        .unwrap();
    group_tag_service::create_group_tag(&mut db, GroupTagDTO { group_id: a, tag_id: tag }).unwrap();
    group_relations_service::create_group_relation(
        &mut db,
        GroupRelation { first_group_id: b, second_group_id: a, relation_type: RELATION_TYPE_PARENT_CHILD },
    )
    .unwrap();

    groups_service::delete_group(&mut db, a).unwrap();

    assert!(find_group(&db, a).is_none(), "主组应被删除");
    assert!(files_service::find_file_by_id(&db, file_id).is_none());
    assert_eq!(get_group(&db, b).reference_count, 0, "B 的父子关系与文件关联应全部释放");
    assert_eq!(get_tag(&db, tag).reference_count, 0);

    let file_id2 = create_file(&mut db, "/b.txt", b);
    assert_eq!(get_file(&db, file_id2).reference_count, 1);
}

#[test]
fn test_group_relation_parent_id_lifecycle() {
    let mut db = setup();
    let b = create_group(&mut db, "B");
    let c = create_group(&mut db, "C");

    group_relations_service::create_group_relation(
        &mut db,
        GroupRelation { first_group_id: b, second_group_id: c, relation_type: RELATION_TYPE_PARENT_CHILD },
    )
    .unwrap();
    assert_eq!(group_relations_service::get_direct_parents_ids(&db, c).unwrap(), vec![b]);
    assert_eq!(get_group(&db, b).reference_count, 1);
    assert_eq!(get_group(&db, c).reference_count, 1);

    group_relations_service::delete_group_relation(
        &mut db,
        &GroupRelation { first_group_id: b, second_group_id: c, relation_type: RELATION_TYPE_PARENT_CHILD },
    )
    .unwrap();
    assert!(group_relations_service::get_direct_parents_ids(&db, c).unwrap().is_empty());
    assert_eq!(get_group(&db, b).reference_count, 0);
    assert_eq!(get_group(&db, c).reference_count, 0);

    group_relations_service::create_group_relation(
        &mut db,
        GroupRelation { first_group_id: b, second_group_id: c, relation_type: RELATION_TYPE_PARENT_CHILD },
    )
    .unwrap();
    assert_eq!(get_group(&db, b).reference_count, 1);

    groups_service::delete_group(&mut db, c).unwrap();
    assert!(find_group(&db, c).is_none());
    assert_eq!(get_group(&db, b).reference_count, 0);

    let file_id = create_file(&mut db, "/b.txt", b);
    assert_eq!(get_file(&db, file_id).reference_count, 1);
}

#[test]
fn test_update_rejects_business_fields() {
    let mut db = setup();
    let g1 = create_group(&mut db, "A");

    let res = groups_service::update_group_by_id(
        &mut db,
        g1,
        UpdateGroupDTO { is_primary: Some(true), ..Default::default() },
    );
    assert_err_is(res, AppError::CannotModifyPrimaryStatus);

    let res = groups_service::update_group_by_id(
        &mut db,
        g1,
        UpdateGroupDTO { reference_count: Some(10), ..Default::default() },
    );
    assert_err_is(res, AppError::CannotModifyReferenceCount);

    let file_id = create_file(&mut db, "/a.txt", g1);
    let res = files_service::update_file_by_id(
        &mut db,
        file_id,
        UpdateFileDTO { reference_count: Some(5), ..Default::default() },
    );
    assert!(matches!(res, Err(AppError::CannotModifyReferenceCount)));

    let tag_id = create_tag(&mut db, "t");
    let res = tags_service::update_tag_by_id(
        &mut db,
        tag_id,
        UpdateTagDTO { reference_count: Some(3), ..Default::default() },
    );
    assert_err_is(res, AppError::CannotModifyReferenceCount);

    let res = groups_service::update_group_by_id(
        &mut db,
        g1,
        UpdateGroupDTO { name: Some("A2".to_string()), ..Default::default() },
    );
    assert_eq!(res.unwrap(), 1);
    assert_eq!(find_group(&db, g1).unwrap().name, "A2");
}

fn assert_err_is(result: Result<usize, AppError>, expected: AppError) {
    match result {
        Err(e) => assert_eq!(e.code(), expected.code()),
        Ok(_) => panic!("期望业务错误，实际成功"),
    }
}

#[test]
fn test_filter_limit_uses_like_and_description() {
    let mut db = setup();

    groups_service::create_group(
        &mut db,
        &CreateGroupDTO { name: "alpha".to_string(), description: Some("meme folder".to_string()) },
    )
    .unwrap();
    groups_service::create_group(&mut db, &CreateGroupDTO { name: "alphabet".to_string(), description: None })
        .unwrap();

    let by_name = groups_service::select_groups_by_filter_with_limit(
        &db,
        GroupFilter { name: Some("%pha%".to_string()), ..Default::default() },
        None,
    )
    .unwrap();
    let names: Vec<String> = by_name.iter().map(|g| g.name.clone()).collect();
    assert!(names.contains(&"alpha".to_string()));
    assert!(names.contains(&"alphabet".to_string()));

    let by_desc = groups_service::select_groups_by_filter_with_limit(
        &db,
        GroupFilter { description: Some("%meme%".to_string()), ..Default::default() },
        None,
    )
    .unwrap();
    assert_eq!(by_desc.len(), 1);
    assert_eq!(by_desc[0].name, "alpha");
}

use file_classification::models::{
    CreateFileDTO, CreateGroupDTO, CreateTagDTO, FileGroupDTO, GroupRelation, GroupTagDTO, UpdateFileDTO,
    UpdateGroupDTO, UpdateTagDTO, RELATION_TYPE_PARENT_CHILD,
};
use file_classification::service::{file_group, files, group_relations, group_tag, groups, tags};
use file_classification::store::Database;

fn sample() -> Database {
    let mut db = Database::new();
    for name in ["a", "b", "c"] {
        groups::create_group(&mut db, &CreateGroupDTO { name: name.into(), description: None }).unwrap();
    }
    files::create_file(&mut db, CreateFileDTO { type_: "txt".into(), path: "/x".into(), group_id: 1, description: None })
        .unwrap();
    tags::create_tag(&mut db, &CreateTagDTO { name: "t".into(), description: None }).unwrap();
    db
}

fn snapshot(db: &Database) -> String {
    format!("{:?}", db)
}

#[test]
fn link_then_unlink_gives_back_the_catalogue() {
    let mut db = sample();
    let before = snapshot(&db);
    let dto = FileGroupDTO { file_id: 1, group_id: 2, relation_type: 1 };
    file_group::create_file_group(&mut db, dto).unwrap();
    assert_ne!(snapshot(&db), before);
    assert_eq!(file_group::delete_file_group_by_dto(&mut db, &dto).unwrap(), 1);
    assert_eq!(snapshot(&db), before);
}

#[test]
fn tag_then_untag_gives_back_the_catalogue() {
    let mut db = sample();
    let before = snapshot(&db);
    let dto = GroupTagDTO { group_id: 3, tag_id: 1 };
    group_tag::create_group_tag(&mut db, dto).unwrap();
    assert_eq!(group_tag::delete_group_tag_by_dto(&mut db, &dto).unwrap(), 1);
    assert_eq!(snapshot(&db), before);
}

#[test]
fn relate_then_unrelate_gives_back_the_catalogue() {
    let mut db = sample();
    let before = snapshot(&db);
    let rel = GroupRelation { first_group_id: 2, second_group_id: 3, relation_type: RELATION_TYPE_PARENT_CHILD };
    group_relations::create_group_relation(&mut db, rel).unwrap();
    assert_eq!(group_relations::delete_group_relation(&mut db, &rel).unwrap(), 1);
    assert_eq!(snapshot(&db), before);
}

#[test]
fn a_created_file_is_read_back() {
    let mut db = sample();
    let id = files::create_file(
        &mut db,
        CreateFileDTO { type_: "md".into(), path: "/y".into(), group_id: 2, description: Some("d".into()) },
    )
    .unwrap();
    let f = files::get_file_by_id(&db, id).unwrap();
    assert_eq!((f.type_.as_str(), f.path.as_str(), f.reference_count, f.group_id), ("md", "/y", 1, 2));
    assert_eq!(f.description.as_deref(), Some("d"));
    assert!(groups::get_group_by_id(&db, 2).unwrap().is_primary);
}

#[test]
fn a_created_group_is_read_back() {
    let mut db = sample();
    let id = groups::create_group_at(&mut db, &CreateGroupDTO { name: "new".into(), description: None }, 99).unwrap();
    let g = groups::get_group_by_id(&db, id).unwrap();
    assert_eq!((g.name.as_str(), g.reference_count, g.is_primary, g.create_time), ("new", 0, false, 99));
}

#[test]
fn a_deleted_file_is_gone_with_its_primary_group() {
    let mut db = sample();
    file_group::create_file_group(&mut db, FileGroupDTO { file_id: 1, group_id: 2, relation_type: 1 }).unwrap();
    group_tag::create_group_tag(&mut db, GroupTagDTO { group_id: 1, tag_id: 1 }).unwrap();
    files::delete_file(&mut db, 1).unwrap();
    assert!(files::find_file_by_id(&db, 1).is_none());
    assert!(groups::find_group_by_id(&db, 1).is_none());
    assert!(file_group::select_file_groups_by_conditions_with_limit(&db, vec![], None).unwrap().is_empty());
    assert!(group_tag::select_group_tags_by_conditions_with_limit(&db, vec![], None).unwrap().is_empty());
    assert_eq!(groups::get_group_by_id(&db, 2).unwrap().reference_count, 0);
    assert_eq!(tags::get_tag_by_id(&db, 1).unwrap().reference_count, 0);
}

#[test]
fn an_updated_group_is_read_back() {
    let mut db = sample();
    let dto = UpdateGroupDTO {
        id: Some(2),
        name: Some("renamed".into()),
        reference_count: None,
        is_primary: None,
        click_count: Some(4),
        share_count: None,
        create_time: None,
        modify_time: Some(5),
        description: Some("x".into()),
    };
    let before = groups::get_group_by_id(&db, 2).unwrap();
    assert_eq!(groups::update_group_by_id(&mut db, 2, dto).unwrap(), 1);
    let g = groups::get_group_by_id(&db, 2).unwrap();
    assert_eq!((g.name.as_str(), g.click_count, g.modify_time), ("renamed", 4, 5));
    assert_eq!((g.share_count, g.create_time, g.reference_count), (before.share_count, before.create_time, 0));
    assert_eq!(g.description.as_deref(), Some("x"));
}

#[test]
fn unlinked_links_are_gone_and_others_stay() {
    let mut db = sample();
    for g in [2, 3] {
        file_group::create_file_group(&mut db, FileGroupDTO { file_id: 1, group_id: g, relation_type: 1 }).unwrap();
    }
    let removed = file_group::delete_file_groups_by_dtos(&mut db, vec![FileGroupDTO { file_id: 1, group_id: 3, relation_type: 7 }])
        .unwrap();
    assert_eq!(removed, 1);
    let left = file_group::select_file_groups_by_conditions_with_limit(&db, vec![], None).unwrap();
    assert_eq!(left.iter().map(|l| l.group_id).collect::<Vec<_>>(), vec![1, 2]);
}

#[test]
fn every_operation_keeps_the_catalogue_consistent() {
    let mut db = sample();
    assert!(db.check());
    file_group::create_file_group(&mut db, FileGroupDTO { file_id: 1, group_id: 2, relation_type: 1 }).unwrap();
    group_tag::create_group_tag(&mut db, GroupTagDTO { group_id: 2, tag_id: 1 }).unwrap();
    group_relations::create_group_relation(
        &mut db,
        GroupRelation { first_group_id: 2, second_group_id: 3, relation_type: RELATION_TYPE_PARENT_CHILD },
    )
    .unwrap();
    assert!(db.check());
    groups::delete_group(&mut db, 2).unwrap();
    assert!(db.check());
    files::delete_file(&mut db, 1).unwrap();
    assert!(db.check());
    assert_eq!(groups::get_group_by_id(&db, 3).unwrap().reference_count, 0);
}

#[test]
fn an_updated_tag_and_file_are_read_back() {
    let mut db = sample();
    let update = UpdateTagDTO { name: Some("u".into()), reference_count: None, description: Some("d".into()) };
    assert_eq!(tags::update_tag_by_id(&mut db, 1, update).unwrap(), 1);
    let t = tags::get_tag_by_id(&db, 1).unwrap();
    assert_eq!((t.name.as_str(), t.description.as_deref(), t.reference_count), ("u", Some("d"), 0));
    let update = UpdateFileDTO { path: Some("/z".into()), type_: None, reference_count: None, group_id: Some(3), description: None };
    assert_eq!(files::update_file_by_id(&mut db, 1, update).unwrap(), 1);
    let f = files::get_file_by_id(&db, 1).unwrap();
    assert_eq!((f.path.as_str(), f.type_.as_str(), f.group_id, f.reference_count), ("/z", "txt", 3, 1));
}

#[test]
fn a_created_tag_is_found() {
    let mut db = sample();
    let id = tags::create_tag(&mut db, &CreateTagDTO { name: "fresh".into(), description: None }).unwrap();
    let t = tags::get_tag_by_id(&db, id).unwrap();
    assert_eq!((t.name.as_str(), t.reference_count), ("fresh", 0));
}

#[test]
fn names_stay_unique() {
    let mut db = sample();
    let rename = UpdateGroupDTO {
        id: None,
        name: Some("a".into()),
        reference_count: None,
        is_primary: None,
        click_count: None,
        share_count: None,
        create_time: None,
        modify_time: None,
        description: None,
    };
    assert!(groups::update_group_by_id(&mut db, 2, rename).is_err());
    assert!(groups::create_group(&mut db, &CreateGroupDTO { name: "b".into(), description: None }).is_err());
    assert!(db.check());
}

#[test]
fn a_deleted_file_leaves_the_other_files_as_they_were() {
    let mut db = sample();
    groups::create_group(&mut db, &CreateGroupDTO { name: "d".into(), description: None }).unwrap();
    let second = files::create_file(
        &mut db,
        CreateFileDTO { type_: "png".into(), path: "/y".into(), group_id: 4, description: None },
    )
    .unwrap();
    file_group::create_file_group(&mut db, FileGroupDTO { file_id: second, group_id: 2, relation_type: 1 }).unwrap();
    let before = files::get_file_by_id(&db, second).unwrap();
    files::delete_file(&mut db, 1).unwrap();
    let after = files::get_file_by_id(&db, second).unwrap();
    assert_eq!(format!("{:?}", before), format!("{:?}", after));
    assert_eq!(after.reference_count, 2);
}

#[test]
fn identifiers_start_at_one_and_count_up() {
    let mut db = Database::new();
    assert_eq!((db.next_file_id, db.next_group_id, db.next_tag_id), (1, 1, 1));
    let g = groups::create_group(&mut db, &CreateGroupDTO { name: "a".into(), description: None }).unwrap();
    assert_eq!(g, 1);
    assert_eq!((db.next_file_id, db.next_group_id, db.next_tag_id), (1, 2, 1));
    let t = tags::create_tag(&mut db, &CreateTagDTO { name: "t".into(), description: None }).unwrap();
    assert_eq!(t, 1);
    assert_eq!((db.next_file_id, db.next_group_id, db.next_tag_id), (1, 2, 2));
    group_tag::create_group_tag(&mut db, GroupTagDTO { group_id: g, tag_id: t }).unwrap();
    assert_eq!((db.next_file_id, db.next_group_id, db.next_tag_id), (1, 2, 2));
}

#[test]
fn a_relation_that_closes_a_cycle_is_refused() {
    let mut db = sample();
    let rel = |p: i32, c: i32| GroupRelation { first_group_id: p, second_group_id: c, relation_type: RELATION_TYPE_PARENT_CHILD };
    group_relations::create_group_relation(&mut db, rel(2, 3)).unwrap();
    assert!(group_relations::create_group_relation(&mut db, rel(3, 2)).is_err());
    assert!(group_relations::would_create_cycle(&db, 3, 2, RELATION_TYPE_PARENT_CHILD));
    assert!(group_relations::get_direct_parents_ids(&db, 2).unwrap().is_empty());
}

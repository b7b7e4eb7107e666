use file_classification::context::Context;
use file_classification::errors::{AppError, DbError};
use file_classification::interpreter::{
    eval_captured, eval_expression, expression_parts, file_conditions_of, parse_request, read_list_args, run_request, EvalError, EvalOutput,
    Request,
};
use file_classification::load::catalogue_from_rows;
use file_classification::models::{File, FileGroupDTO, Group, GroupRelation, GroupTagDTO, Tag};
use file_classification::store::Database;

fn strings(words: &[&str]) -> Vec<String> {
    words.iter().map(|w| w.to_string()).collect()
}

fn eval(db: &mut Database, expr: &str) -> Result<EvalOutput, EvalError> {
    let mut context = Context::new();
    let r = eval_expression(expr, db, &mut context);
    assert_eq!(context, Context::new());
    r
}

#[test]
fn expressions_must_have_an_entity_and_an_action() {
    let mut db = Database::new();
    assert!(matches!(eval(&mut db, "file"), Err(EvalError::InvalidExpression)));
    assert!(matches!(eval(&mut db, "file list "), Err(EvalError::InvalidExpression)));
    assert!(matches!(eval(&mut db, "file.list"), Err(EvalError::InvalidExpression)));
    assert!(matches!(eval(&mut db, "disk list"), Err(EvalError::UnknownEntity(e)) if e == "disk"));
    assert!(matches!(eval(&mut db, "file open x"), Err(EvalError::UnknownFileAction(a)) if a == "open"));
    // `-` is no word character, so a link expression never matches the pattern.
    assert!(matches!(eval(&mut db, "link file-group 1 2"), Err(EvalError::InvalidExpression)));
    assert!(matches!(eval(&mut db, "link tags 1 2"), Err(EvalError::UnknownLinkAction(a)) if a == "tags"));
    assert!(matches!(eval_captured(None, &mut db), Err(EvalError::InvalidExpression)));
}

#[test]
fn expressions_create_list_and_link() {
    let mut db = Database::new();
    assert!(matches!(eval(&mut db, "group create holiday"), Ok(EvalOutput::GroupCreated(1))));
    assert!(matches!(eval(&mut db, "group create trips"), Ok(EvalOutput::GroupCreated(2))));
    assert!(matches!(
        eval(&mut db, "group create holiday"),
        Err(EvalError::CreateGroupFailed(AppError::DatabaseError(DbError::UniqueViolation)))
    ));
    assert!(matches!(eval(&mut db, "file create /a.jpg image 1"), Ok(EvalOutput::FileCreated(1))));
    assert!(matches!(eval(&mut db, "file create /b.jpg image x"), Err(EvalError::InvalidGroupId)));
    assert!(matches!(eval(&mut db, "file create /b.jpg"), Err(EvalError::FileCreateUsage)));
    assert!(matches!(
        eval(&mut db, "file create /b.jpg image"),
        Err(EvalError::CreateFileFailed(AppError::DatabaseError(DbError::NotFound)))
    ));
    assert!(matches!(eval(&mut db, "tag create sea"), Ok(EvalOutput::TagCreated(1))));
    assert!(matches!(eval(&mut db, "tag create"), Err(EvalError::MissingTagName)));
    let mut link = |action: &str, params: &str| match parse_request("link", action, params) {
        Ok(req) => run_request(&mut db, req),
        Err(e) => Err(e),
    };
    assert!(matches!(link("file-group", "1 2"), Ok(EvalOutput::FileGroupLinked)));
    assert!(matches!(link("file-group", "1 1"), Err(EvalError::LinkFileGroupFailed(AppError::CannotBindToPrimaryGroup))));
    assert!(matches!(link("file-group", "1"), Err(EvalError::FileGroupUsage)));
    assert!(matches!(link("file-group", "x 1"), Err(EvalError::InvalidFileId)));
    assert!(matches!(link("group-tag", "2 y"), Err(EvalError::InvalidTagId)));
    assert!(matches!(link("group-tag", "2 1"), Ok(EvalOutput::GroupTagLinked)));
    assert!(matches!(link("group-tag", "2 1"), Err(EvalError::LinkGroupTagFailed(AppError::DatabaseError(DbError::UniqueViolation)))));
    match eval(&mut db, "group get 2") {
        Ok(EvalOutput::Group(g)) => assert_eq!((g.name.as_str(), g.reference_count), ("trips", 2)),
        _ => panic!("group 2 should be found"),
    }
    assert!(matches!(
        eval(&mut db, "tag get 9"),
        Err(EvalError::GetTagFailed(AppError::DatabaseError(DbError::NotFound)))
    ));
    assert!(matches!(eval(&mut db, "file get"), Err(EvalError::MissingFileId)));
    assert!(matches!(eval(&mut db, "file get one"), Err(EvalError::InvalidFileId)));
    match eval(&mut db, "group list --order-by name --limit 1") {
        Ok(EvalOutput::Groups(v)) => assert_eq!(v.iter().map(|g| g.id).collect::<Vec<_>>(), vec![1]),
        _ => panic!("groups should be listed"),
    }
    match eval(&mut db, "group list --where name=trips --where bogus") {
        Ok(EvalOutput::Groups(v)) => assert_eq!(v.iter().map(|g| g.id).collect::<Vec<_>>(), vec![2]),
        _ => panic!("groups should be listed"),
    }
    match eval(&mut db, "file list   --where  id=1 --offset 1") {
        Ok(EvalOutput::Files(v)) => assert!(v.is_empty()),
        _ => panic!("files should be listed"),
    }
}

#[test]
fn list_options_and_conditions() {
    let args = read_list_args(&strings(&["--limit", "5", "--limit", "x", "--where", "a=b", "stray", "--offset"]));
    assert_eq!(args.limit, Some(5));
    assert_eq!(args.offset, None);
    assert_eq!(args.conditions, strings(&["a=b"]));
    assert_eq!(args.order_by, None);
    let cs = file_conditions_of(&strings(&["id=3", " path = /x ", "id=z", "a=b=c", "type=txt", "noequals"]));
    assert_eq!(format!("{:?}", cs), r#"[Id(3), Path("/x"), Type("txt")]"#);
    assert!(matches!(parse_request("tag", "get", " 7 "), Ok(Request::GetTag(7))));
    assert!(matches!(parse_request("link", "group-tag", "a 1"), Err(EvalError::InvalidGroupId)));
}

fn file_row(id: i32, group_id: i32, reference_count: i32) -> File {
    File { id, type_: "txt".into(), path: format!("/{}", id), reference_count, group_id, description: None }
}

fn group_row(id: i32, is_primary: bool, reference_count: i32) -> Group {
    Group {
        id,
        name: format!("g{}", id),
        reference_count,
        is_primary,
        click_count: 0,
        share_count: 0,
        create_time: 0,
        modify_time: 0,
        description: None,
    }
}

#[test]
fn loading_checks_the_rows() {
    let ok = catalogue_from_rows(
        vec![file_row(4, 7, 1)],
        vec![group_row(7, true, 2), group_row(3, false, 2)],
        vec![Tag { id: 2, name: "t".into(), reference_count: 1, description: None }],
        vec![FileGroupDTO { file_id: 4, group_id: 7, relation_type: 1 }],
        vec![GroupTagDTO { group_id: 3, tag_id: 2 }],
        vec![GroupRelation { first_group_id: 3, second_group_id: 7, relation_type: 1 }],
    );
    let mut db = ok.expect("consistent rows load");
    assert_eq!((db.next_file_id, db.next_group_id, db.next_tag_id), (5, 8, 3));
    assert!(matches!(eval(&mut db, "group create next"), Ok(EvalOutput::GroupCreated(8))));

    let wrong_count = catalogue_from_rows(
        vec![file_row(4, 7, 2)],
        vec![group_row(7, true, 1)],
        vec![],
        vec![FileGroupDTO { file_id: 4, group_id: 7, relation_type: 1 }],
        vec![],
        vec![],
    );
    assert!(wrong_count.is_none());
    let dangling = catalogue_from_rows(vec![], vec![], vec![], vec![], vec![GroupTagDTO { group_id: 1, tag_id: 1 }], vec![]);
    assert!(dangling.is_none());
    let twice = catalogue_from_rows(vec![], vec![group_row(1, false, 0), group_row(1, false, 0)], vec![], vec![], vec![], vec![]);
    assert!(twice.is_none());
    let not_primary = catalogue_from_rows(
        vec![file_row(1, 1, 1)],
        vec![group_row(1, false, 1)],
        vec![],
        vec![FileGroupDTO { file_id: 1, group_id: 1, relation_type: 1 }],
        vec![],
        vec![],
    );
    assert!(not_primary.is_none());
    let same_name = Group { name: "g1".into(), ..group_row(2, false, 0) };
    let clash = catalogue_from_rows(vec![], vec![group_row(1, false, 0), same_name], vec![], vec![], vec![], vec![]);
    assert!(clash.is_none());
    let tags_clash = catalogue_from_rows(
        vec![],
        vec![],
        vec![
            Tag { id: 1, name: "t".into(), reference_count: 0, description: None },
            Tag { id: 2, name: "t".into(), reference_count: 0, description: None },
        ],
        vec![],
        vec![],
        vec![],
    );
    assert!(tags_clash.is_none());
    let ownerless_primary = catalogue_from_rows(vec![], vec![group_row(1, true, 0)], vec![], vec![], vec![], vec![]);
    assert!(ownerless_primary.is_none());
    let full = catalogue_from_rows(vec![], vec![group_row(i32::MAX, false, 0)], vec![], vec![], vec![], vec![]);
    assert!(full.is_none());
    assert!(catalogue_from_rows(vec![], vec![], vec![], vec![], vec![], vec![]).is_some());
}

#[test]
fn expression_parts_come_from_the_groups() {
    let groups = vec![Some("file list".to_string()), Some("file".to_string()), Some("list".to_string()), None];
    let (e, a, p) = expression_parts(Some(groups)).unwrap();
    assert_eq!((e.as_str(), a.as_str(), p.as_str()), ("file", "list", ""));
    let groups = vec![Some("x".to_string()), Some("tag".to_string()), Some("create".to_string()), Some("a b".to_string())];
    let (e, a, p) = expression_parts(Some(groups)).unwrap();
    assert_eq!((e.as_str(), a.as_str(), p.as_str()), ("tag", "create", "a b"));
    let (e, a, p) = expression_parts(Some(vec![Some("x".to_string())])).unwrap();
    assert_eq!((e.as_str(), a.as_str(), p.as_str()), ("", "", ""));
    assert!(expression_parts(None).is_none());
    let mut db = Database::new();
    let mut context = Context::new();
    assert!(matches!(eval_expression("tag   create   urgent", &mut db, &mut context), Ok(EvalOutput::TagCreated(1))));
    assert!(matches!(eval_expression("tag", &mut db, &mut context), Err(EvalError::InvalidExpression)));
}

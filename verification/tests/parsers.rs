use file_classification::models::{
    FileGroupOrderBy, FileOrderBy, GroupOrderBy, GroupRelationOrderBy, GroupTagOrderBy, OrderDirection, TagOrderBy,
};
use file_classification::parsers::{
    file_update_conditions, group_update_conditions, tag_update_conditions,
    parse_file_conditions, parse_file_group_conditions, parse_file_group_order_by, parse_file_order_by,
    parse_group_conditions, parse_group_order_by, parse_group_relation_conditions, parse_group_relation_order_by,
    parse_group_tag_conditions, parse_group_tag_order_by, parse_i32_list, parse_string_list, parse_tag_conditions,
    parse_tag_order_by,
};

fn args(words: &[&str]) -> Vec<String> {
    words.iter().map(|w| w.to_string()).collect()
}

#[test]
fn file_conditions_read_key_value_pairs() {
    let cs = parse_file_conditions(&args(&["id", "3", "path_like", "%a%", "type_in", "txt,md", "group_id_in", "1,2"]));
    assert_eq!(format!("{:?}", cs), r#"[Id(3), PathLike("%a%"), TypeIn(["txt", "md"]), GroupIdIn([1, 2])]"#);
}

#[test]
fn file_conditions_skip_bad_values_and_unknown_keys() {
    let cs = parse_file_conditions(&args(&["id", "x", "bogus", "ref_count_gt", "2", "id_in", "1,a", "path"]));
    assert_eq!(format!("{:?}", cs), "[ReferenceCountGreaterThan(2)]");
}

#[test]
fn group_conditions_read_every_kind_of_value() {
    let cs = parse_group_conditions(&args(&[
        "name", "A", "is_primary", "true", "click_count_lt", "5", "share_count_in", "1,2,3", "name_like", "%x",
    ]));
    assert_eq!(
        format!("{:?}", cs),
        r#"[Name("A"), IsPrimary(true), ClickCountLessThan(5), ShareCountIn([1, 2, 3]), NameLike("%x")]"#
    );
    let bad = parse_group_conditions(&args(&["is_primary", "yes", "id_gt", "-4"]));
    assert_eq!(format!("{:?}", bad), "[IdGreaterThan(-4)]");
}

#[test]
fn tag_conditions_read_key_value_pairs() {
    let cs = parse_tag_conditions(&args(&["name_in", "a,b", "ref_count", "0", "id_lt", "+7"]));
    assert_eq!(format!("{:?}", cs), r#"[NameIn(["a", "b"]), ReferenceCount(0), IdLessThan(7)]"#);
}

#[test]
fn link_conditions_read_key_value_pairs() {
    let fg = parse_file_group_conditions(&args(&["file_id", "1", "relation_type_gt", "0", "group_id_in", "4,5"]));
    assert_eq!(format!("{:?}", fg), "[FileId(1), RelationTypeGreaterThan(0), GroupIdIn([4, 5])]");
    let gt = parse_group_tag_conditions(&args(&["tag_id", "9", "group_id_lt", "3"]));
    assert_eq!(format!("{:?}", gt), "[TagId(9), GroupIdLessThan(3)]");
    let gr = parse_group_relation_conditions(&args(&["first_group_id", "1", "second_group_id_in", "2,3", "relation_type", "1"]));
    assert_eq!(format!("{:?}", gr), "[FirstGroupId(1), SecondGroupIdIn([2, 3]), RelationType(1)]");
}

#[test]
fn order_by_reads_field_and_direction() {
    assert_eq!(
        parse_file_order_by(&args(&["path:DESC", "ref_count:asc", "id", "size:asc", "id:up"])),
        vec![FileOrderBy::Path(OrderDirection::Desc), FileOrderBy::ReferenceCount(OrderDirection::Asc)]
    );
    assert_eq!(
        parse_group_order_by(&args(&["create_time:desc", "is_primary:Asc"])),
        vec![GroupOrderBy::CreateTime(OrderDirection::Desc), GroupOrderBy::IsPrimary(OrderDirection::Asc)]
    );
    assert_eq!(parse_tag_order_by(&args(&["name:asc", "name:asc:x"])), vec![TagOrderBy::Name(OrderDirection::Asc)]);
    assert_eq!(
        parse_file_group_order_by(&args(&["group_id:desc"])),
        vec![FileGroupOrderBy::GroupId(OrderDirection::Desc)]
    );
    assert_eq!(parse_group_tag_order_by(&args(&["tag_id:asc"])), vec![GroupTagOrderBy::TagId(OrderDirection::Asc)]);
}

#[test]
fn relation_order_by_defaults_to_ascending() {
    assert_eq!(
        parse_group_relation_order_by(&args(&["first_group_id", "relation_type:desc", "second_group_id:DESC", "x:y:z"])),
        vec![
            GroupRelationOrderBy::FirstGroupId(OrderDirection::Asc),
            GroupRelationOrderBy::RelationType(OrderDirection::Desc),
            GroupRelationOrderBy::SecondGroupId(OrderDirection::Asc),
        ]
    );
}

#[test]
fn lists_split_on_commas() {
    assert_eq!(parse_i32_list("1,-2,+3"), Some(vec![1, -2, 3]));
    assert_eq!(parse_i32_list("1,,2"), None);
    assert_eq!(parse_i32_list("2147483648"), None);
    assert_eq!(parse_string_list("a,,b"), vec!["a".to_string(), String::new(), "b".to_string()]);
}

#[test]
fn orderings_of_joined_words_are_joined_orderings() {
    let a = args(&["id:asc", "bogus", "path:DESC"]);
    let b = args(&["type:desc", "group_id:up"]);
    let joined: Vec<String> = a.iter().chain(b.iter()).cloned().collect();
    let mut expected = parse_file_order_by(&a);
    expected.extend(parse_file_order_by(&b));
    assert_eq!(format!("{:?}", parse_file_order_by(&joined)), format!("{:?}", expected));
    assert_eq!(parse_file_order_by(&joined).len(), 3);
    assert_eq!(parse_group_order_by(&args(&["id:asc", "name:desc"])).len(), 2);
    assert_eq!(parse_group_order_by(&args(&["id:asc", "name"])).len(), 1);
}

#[test]
fn a_complete_pair_parses_by_itself() {
    let rest = args(&["path_like", "%.txt", "junk"]);
    let mut joined = args(&["id", "4"]);
    joined.extend(rest.iter().cloned());
    let mut expected = parse_file_conditions(&args(&["id", "4"]));
    expected.extend(parse_file_conditions(&rest));
    assert_eq!(format!("{:?}", parse_file_conditions(&joined)), format!("{:?}", expected));
    assert_eq!(parse_group_conditions(&args(&["name", "a", "x", "id", "2"])).len(), 2);
}

#[test]
fn an_update_without_conditions_targets_the_selection() {
    assert_eq!(format!("{:?}", file_update_conditions(&[], Some(4))), "Some([Id(4)])");
    assert!(file_update_conditions(&[], None).is_none());
    assert_eq!(format!("{:?}", file_update_conditions(&args(&["id", "2"]), Some(4))), "Some([Id(2)])");
    assert_eq!(format!("{:?}", group_update_conditions(&[], Some(7))), "Some([Id(7)])");
    assert!(group_update_conditions(&[], None).is_none());
    assert_eq!(format!("{:?}", tag_update_conditions(&[], Some(1))), "Some([Id(1)])");
    assert_eq!(format!("{:?}", tag_update_conditions(&args(&["name", "x"]), None)), "Some([Name(\"x\")])");
}

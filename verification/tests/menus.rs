use file_classification::menus::{
    answer_number, answer_text, group_condition_from_answer, group_menu_choice, group_tag_condition_from_answer,
    group_tag_menu_choice, group_update_from_answers, menu_number, query_flag, says_yes, update_flag, GroupField,
    GroupMenuChoice, GroupTagField, GroupTagMenuChoice, MenuLevel, Tool,
};

#[test]
fn group_menu_numbers() {
    assert_eq!(group_menu_choice(0, MenuLevel::Top), GroupMenuChoice::Finish);
    assert_eq!(group_menu_choice(1, MenuLevel::Top), GroupMenuChoice::Ask(GroupField::Id));
    assert_eq!(group_menu_choice(9, MenuLevel::Combined), GroupMenuChoice::Ask(GroupField::IsPrimary));
    assert_eq!(group_menu_choice(15, MenuLevel::Negated), GroupMenuChoice::Ask(GroupField::ShareCountLessThan));
    assert_eq!(group_menu_choice(16, MenuLevel::Top), GroupMenuChoice::All);
    assert_eq!(group_menu_choice(17, MenuLevel::Top), GroupMenuChoice::Any);
    assert_eq!(group_menu_choice(18, MenuLevel::Top), GroupMenuChoice::Negate);
    assert_eq!(group_menu_choice(16, MenuLevel::Combined), GroupMenuChoice::Invalid);
    assert_eq!(group_menu_choice(0, MenuLevel::Negated), GroupMenuChoice::Invalid);
    assert_eq!(group_menu_choice(-3, MenuLevel::Top), GroupMenuChoice::Invalid);
}

#[test]
fn link_menu_numbers() {
    assert_eq!(group_tag_menu_choice(0, MenuLevel::Combined), GroupTagMenuChoice::Finish);
    assert_eq!(group_tag_menu_choice(4, MenuLevel::Top), GroupTagMenuChoice::Ask(GroupTagField::TagId));
    assert_eq!(group_tag_menu_choice(7, MenuLevel::Top), GroupTagMenuChoice::All);
    assert_eq!(group_tag_menu_choice(9, MenuLevel::Top), GroupTagMenuChoice::Negate);
    assert_eq!(group_tag_menu_choice(7, MenuLevel::Combined), GroupTagMenuChoice::Invalid);
    assert_eq!(group_tag_menu_choice(0, MenuLevel::Negated), GroupTagMenuChoice::Invalid);
}

#[test]
fn typed_answers() {
    assert_eq!(menu_number(" 12\n"), 12);
    assert_eq!(menu_number("x"), 0);
    assert_eq!(menu_number(""), 0);
    assert!(says_yes(" Y\n"));
    assert!(!says_yes("yes"));
    assert_eq!(answer_number(" -5 \n"), Some(-5));
    assert_eq!(answer_number("\n"), None);
    assert_eq!(answer_text("  a b \n"), Some("a b".to_string()));
    assert_eq!(answer_text(" \n"), None);
    assert_eq!(query_flag("T\n"), Some(true));
    assert_eq!(query_flag(" No"), Some(false));
    assert_eq!(query_flag("maybe"), None);
    assert_eq!(update_flag("t"), None);
    assert_eq!(update_flag("YES"), Some(true));
    assert_eq!(update_flag("0"), Some(false));
}

#[test]
fn answers_give_conditions() {
    let c = group_condition_from_answer(Tool::Query, GroupField::ClickCountGreaterThan, "7\n");
    assert_eq!(format!("{:?}", c), "Some(ClickCountGreaterThan(7))");
    let c = group_condition_from_answer(Tool::Query, GroupField::NameLike, " %a% \n");
    assert_eq!(format!("{:?}", c), r#"Some(NameLike("%a%"))"#);
    assert!(group_condition_from_answer(Tool::Query, GroupField::Name, "  \n").is_none());
    assert!(group_condition_from_answer(Tool::Query, GroupField::Id, "one").is_none());
    let c = group_condition_from_answer(Tool::Query, GroupField::IsPrimary, "f");
    assert_eq!(format!("{:?}", c), "Some(IsPrimary(false))");
    assert!(group_condition_from_answer(Tool::Update, GroupField::IsPrimary, "f").is_none());
    let c = group_tag_condition_from_answer(GroupTagField::GroupIdLessThan, "3");
    assert_eq!(format!("{:?}", c), "Some(GroupIdLessThan(3))");
    assert!(group_tag_condition_from_answer(GroupTagField::TagId, "").is_none());
}

#[test]
fn answers_give_an_update() {
    let dto = group_update_from_answers(" new \n", "\n", "y\n", "4\n", "x\n", 1234);
    assert_eq!(dto.name.as_deref(), Some("new"));
    assert_eq!(dto.reference_count, None);
    assert_eq!(dto.is_primary, Some(true));
    assert_eq!(dto.click_count, Some(4));
    assert_eq!(dto.share_count, None);
    assert_eq!((dto.id, dto.create_time, dto.modify_time), (None, None, Some(1234)));
    assert!(dto.description.is_none());
}

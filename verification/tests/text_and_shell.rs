use file_classification::service::groups::seconds_from_offset;
use file_classification::context::Context;
use file_classification::shell::{
    apply_selection, command_args, parse_simple_command, repl_commands, split_words, trim_white, white, EntityKind, SimpleCommand, Usage,
};
use file_classification::text::{
    lowercase_is, parse_bool, parse_i32, parse_i64, split_on, str_eq, text_less,
};

fn strings(words: &[&str]) -> Vec<String> {
    words.iter().map(|w| w.to_string()).collect()
}

#[test]
fn integers_parse_as_str_parse_does() {
    assert_eq!(parse_i32("42"), Some(42));
    assert_eq!(parse_i32("-2147483648"), Some(i32::MIN));
    assert_eq!(parse_i32("+2147483647"), Some(i32::MAX));
    assert_eq!(parse_i32("2147483648"), None);
    assert_eq!(parse_i32(""), None);
    assert_eq!(parse_i32("-"), None);
    assert_eq!(parse_i32(" 1"), None);
    assert_eq!(parse_i32("1a"), None);
    assert_eq!(parse_i64("9223372036854775807"), Some(i64::MAX));
    assert_eq!(parse_i64("-9223372036854775808"), Some(i64::MIN));
    assert_eq!(parse_i64("9223372036854775808"), None);
    assert_eq!(parse_i64("007"), Some(7));
}

#[test]
fn booleans_are_true_or_false_only() {
    assert_eq!(parse_bool("true"), Some(true));
    assert_eq!(parse_bool("false"), Some(false));
    assert_eq!(parse_bool("True"), None);
    assert_eq!(parse_bool("1"), None);
}

#[test]
fn text_helpers() {
    assert!(str_eq("abc", "abc"));
    assert!(!str_eq("abc", "abd"));
    assert_eq!(split_on("a=b=c", '='), strings(&["a", "b", "c"]));
    assert_eq!(split_on("", ','), strings(&[""]));
    assert!(lowercase_is("DeSc", "desc"));
    assert!(!lowercase_is("des", "desc"));
    assert!(text_less("abc", "abd"));
    assert!(text_less("ab", "abc"));
    assert!(!text_less("b", "abc"));
    assert!(!text_less("same", "same"));
}

#[test]
fn white_space_is_unicode_white_space() {
    assert!(white(' ') && white('\t') && white('\u{3000}') && white('\u{85}'));
    assert!(!white('a') && !white('\u{200B}'));
    assert_eq!(trim_white("\u{3000} a b \n"), "a b");
    assert_eq!(split_words("  file  list\t--limit 3 "), strings(&["file", "list", "--limit", "3"]));
    assert!(split_words(" \n ").is_empty());
}

#[test]
fn session_lines_split_on_semicolons() {
    assert_eq!(repl_commands(" ls ;; cd 3 ;  "), strings(&["ls", "cd 3"]));
    assert!(repl_commands(";;").is_empty());
}

#[test]
fn commands_split_as_a_shell_does() {
    assert_eq!(
        command_args(r#"file create --path "/a b.txt" --type 'x'"#),
        strings(&["file_classification_cli", "file", "create", "--path", "/a b.txt", "--type", "x"])
    );
    assert_eq!(command_args("file list \"unclosed"), strings(&["file_classification_cli"]));
}

#[test]
fn short_commands() {
    assert!(matches!(parse_simple_command("   "), SimpleCommand::Nothing));
    assert!(matches!(parse_simple_command("ls"), SimpleCommand::List));
    assert!(matches!(parse_simple_command("cd 4"), SimpleCommand::Enter(4)));
    assert!(matches!(parse_simple_command("cd"), SimpleCommand::MissingId));
    assert!(matches!(parse_simple_command("cd -1"), SimpleCommand::InvalidId));
    assert!(matches!(parse_simple_command("cd x"), SimpleCommand::InvalidId));
    assert!(matches!(parse_simple_command("select tag 2"), SimpleCommand::Select(EntityKind::Tag, 2)));
    assert!(matches!(parse_simple_command("select tag"), SimpleCommand::Usage(Usage::Select)));
    assert!(matches!(parse_simple_command("select disk 2"), SimpleCommand::UnknownKind(k) if k == "disk"));
    assert!(matches!(parse_simple_command("new file /x.txt"), SimpleCommand::Create(EntityKind::File, n) if n == "/x.txt"));
    assert!(matches!(parse_simple_command("new group"), SimpleCommand::Usage(Usage::New)));
    assert!(matches!(parse_simple_command("rm group 7"), SimpleCommand::Remove(EntityKind::Group, 7)));
    assert!(matches!(parse_simple_command("rm group 0"), SimpleCommand::InvalidId));
    assert!(matches!(parse_simple_command("rm x"), SimpleCommand::Usage(Usage::Remove)));
    assert!(matches!(parse_simple_command("file list"), SimpleCommand::NotSimple));
}

#[test]
fn context_selection() {
    let mut c = Context::new();
    assert_eq!(c, Context { selected_file_id: None, selected_group_id: None, selected_tag_id: None });
    c.select_group(3);
    assert_eq!(c.group_target(None), Some(3));
    assert_eq!(c.group_target(Some(5)), Some(5));
    assert_eq!(c.file_target(None), None);
    c.select_file(8);
    assert_eq!(c.selected_group_id, None);
    c.forget_file(9);
    assert_eq!(c.selected_file_id, Some(8));
    c.forget_file(8);
    assert_eq!(c.selected_file_id, None);
    c.select_tag(2);
    c.forget_tag(2);
    assert_eq!(c, Context::new());
}

#[test]
fn short_commands_change_the_selection() {
    let mut c = Context::new();
    c.select_tag(9);
    assert!(apply_selection(&mut c, &parse_simple_command("select file 3")));
    assert_eq!(c, Context { selected_file_id: Some(3), selected_group_id: None, selected_tag_id: None });
    assert!(apply_selection(&mut c, &parse_simple_command("select tag x")));
    assert_eq!(c, Context { selected_file_id: Some(3), selected_group_id: None, selected_tag_id: None });
    assert!(apply_selection(&mut c, &parse_simple_command("cd 5")));
    assert_eq!(c, Context { selected_file_id: None, selected_group_id: Some(5), selected_tag_id: None });
    assert!(apply_selection(&mut c, &parse_simple_command("cd 0")));
    assert_eq!(c.selected_group_id, Some(5));
    assert!(apply_selection(&mut c, &parse_simple_command("   ")));
    assert!(!apply_selection(&mut c, &parse_simple_command("file list")));
    assert_eq!(c, Context { selected_file_id: None, selected_group_id: Some(5), selected_tag_id: None });
}

#[test]
fn the_clock_reads_after_the_epoch() {
    assert!(file_classification::service::groups::now_seconds() > 1_600_000_000);
}

#[test]
fn clock_offsets_become_seconds() {
    assert_eq!(seconds_from_offset(Ok(5)), 5);
    assert_eq!(seconds_from_offset(Err(5)), -5);
    assert_eq!(seconds_from_offset(Ok(u64::MAX)), i64::MAX);
    assert_eq!(seconds_from_offset(Err(u64::MAX)), -i64::MAX);
}

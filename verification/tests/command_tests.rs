use coldb::command::{
    first_word_is, get_command_type, text_starts_with, CommandType, DbCommand, MetaCommand,
};

#[test]
fn meta_commands_are_told_by_their_name() {
    assert_eq!(MetaCommand::new(".exit".to_string()), MetaCommand::Exit);
    assert_eq!(MetaCommand::new(".tables".to_string()), MetaCommand::ListTables);
    assert_eq!(MetaCommand::new(".data".to_string()), MetaCommand::PrintData);
    assert_eq!(
        MetaCommand::new(".exit ".to_string()),
        MetaCommand::Unknown(".exit ".to_string())
    );
    assert_eq!(
        MetaCommand::new(".help".to_string()),
        MetaCommand::Unknown(".help".to_string())
    );
    assert_eq!(
        MetaCommand::new("".to_string()),
        MetaCommand::Unknown("".to_string())
    );
}

#[test]
fn the_path_of_a_snapshot_is_trimmed() {
    assert_eq!(
        MetaCommand::new(".persist db.bin".to_string()),
        MetaCommand::Persist("db.bin".to_string())
    );
    assert_eq!(
        MetaCommand::new(".persist   'my db.bin'  ".to_string()),
        MetaCommand::Persist("my db.bin".to_string())
    );
    assert_eq!(
        MetaCommand::new(".restore \"a.bin\"".to_string()),
        MetaCommand::Restore("a.bin".to_string())
    );
    assert_eq!(
        MetaCommand::new(".persist".to_string()),
        MetaCommand::Persist("".to_string())
    );
    assert_eq!(
        MetaCommand::new(".persistent x.persist".to_string()),
        MetaCommand::Persist("ent x".to_string())
    );
    assert_eq!(
        MetaCommand::trim_command(" .restore\t'q'\n", ".restore"),
        "q"
    );
}

#[test]
fn a_line_with_nothing_to_take_out_is_its_own_argument() {
    assert_eq!(MetaCommand::trim_command("a b.bin", ".persist"), "a b.bin");
    assert_eq!(MetaCommand::trim_command("", ".persist"), "");
    assert_eq!(MetaCommand::trim_command(".persis~", ".persist"), ".persis~");
    assert_eq!(MetaCommand::trim_command("!", ""), "!");
}

#[test]
fn statements_are_told_by_their_first_word() {
    let line = |s: &str| s.to_string();
    assert_eq!(
        DbCommand::new(line("insert into t")),
        DbCommand::Insert(line("insert into t"))
    );
    assert_eq!(
        DbCommand::new(line("update t")),
        DbCommand::Update(line("update t"))
    );
    assert_eq!(
        DbCommand::new(line("delete from t")),
        DbCommand::Delete(line("delete from t"))
    );
    assert_eq!(
        DbCommand::new(line("create table t")),
        DbCommand::CreateTable(line("create table t"))
    );
    assert_eq!(DbCommand::new(line("select")), DbCommand::Select(line("select")));
    assert_eq!(
        DbCommand::new(line("SELECT 1")),
        DbCommand::Unknown(line("SELECT 1"))
    );
    assert_eq!(
        DbCommand::new(line(" select 1")),
        DbCommand::Unknown(line(" select 1"))
    );
    assert_eq!(
        DbCommand::new(line("selects 1")),
        DbCommand::Unknown(line("selects 1"))
    );
    assert_eq!(
        DbCommand::new(line("select\t1")),
        DbCommand::Unknown(line("select\t1"))
    );
    assert_eq!(DbCommand::new(line("")), DbCommand::Unknown(line("")));
}

#[test]
fn a_line_with_a_dot_in_front_is_a_meta_command() {
    assert_eq!(
        get_command_type(&".tables".to_string()),
        CommandType::MetaCommand(MetaCommand::ListTables)
    );
    assert_eq!(
        get_command_type(&".".to_string()),
        CommandType::MetaCommand(MetaCommand::Unknown(".".to_string()))
    );
    assert_eq!(
        get_command_type(&"select 1".to_string()),
        CommandType::DbCommand(DbCommand::Select("select 1".to_string()))
    );
    assert_eq!(
        get_command_type(&"".to_string()),
        CommandType::DbCommand(DbCommand::Unknown("".to_string()))
    );
    assert_eq!(
        get_command_type(&" .exit".to_string()),
        CommandType::DbCommand(DbCommand::Unknown(" .exit".to_string()))
    );
}

#[test]
fn prefixes_and_first_words() {
    assert!(text_starts_with("abc", "ab"));
    assert!(text_starts_with("abc", ""));
    assert!(text_starts_with("abc", "abc"));
    assert!(!text_starts_with("abc", "abcd"));
    assert!(!text_starts_with("abc", "b"));
    assert!(!text_starts_with("", "a"));
    assert!(first_word_is("ab cd", "ab"));
    assert!(first_word_is("ab", "ab"));
    assert!(first_word_is(" ab", ""));
    assert!(first_word_is("", ""));
    assert!(!first_word_is("ab cd", "a"));
    assert!(!first_word_is("ab cd", "abc"));
    assert!(!first_word_is("a", "ab"));
}

#[test]
fn every_match_is_taken_out_from_left_to_right() {
    assert_eq!(MetaCommand::trim_command("a.persistb.persist", ".persist"), "ab");
    assert_eq!(MetaCommand::trim_command("aaa", "aa"), "a");
    assert_eq!(MetaCommand::trim_command("aaaa", "aa"), "");
    assert_eq!(MetaCommand::trim_command("ababa", "aba"), "ba");
    assert_eq!(MetaCommand::trim_command("ab", "abc"), "ab");
    assert_eq!(MetaCommand::trim_command("a'b\"c'", "x"), "abc");
    assert_eq!(MetaCommand::trim_command("é'é", "é"), "");
}

#[test]
fn white_space_of_ascii_is_taken_from_both_ends() {
    assert_eq!(MetaCommand::trim_command(" \t\n\u{b}\u{c}\r x y \r\n", "q"), "x y");
    assert_eq!(MetaCommand::trim_command(" \t ", "q"), "");
    assert_eq!(MetaCommand::trim_command("\u{1c}x\u{1f}", "q"), "\u{1c}x\u{1f}");
    assert_eq!(MetaCommand::trim_command("\u{7f} x", "q"), "\u{7f} x");
}

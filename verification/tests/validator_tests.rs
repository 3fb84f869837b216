use repl_frontend::commands::{multiline_commands, ReplCommand};
use repl_frontend::validator::{
    incomplete_brackets, odd_quotes, starts_with_one_of, ReplValidator, Validation,
};

fn table() -> Vec<ReplCommand> {
    vec![
        ReplCommand { name: ".info", description: "Print the settings", multiline: false },
        ReplCommand { name: ".edit", description: "Write several lines", multiline: true },
        ReplCommand { name: ".set", description: "Change a setting", multiline: false },
        ReplCommand { name: ".prompt", description: "Use a one-off role", multiline: true },
    ]
}

fn validator() -> ReplValidator {
    ReplValidator::new(&table())
}

#[test]
fn trigger_set_is_the_multiline_rows_in_table_order() {
    assert_eq!(multiline_commands(&table()), vec![".edit", ".prompt"]);
}

#[test]
fn trigger_set_of_an_empty_table_is_empty() {
    assert!(multiline_commands(&[]).is_empty());
}

#[test]
fn empty_buffer_is_complete() {
    assert_eq!(validator().validate(""), Validation::Complete);
}

#[test]
fn odd_quote_count_is_incomplete_without_a_trigger() {
    assert_eq!(validator().validate("say \"hello"), Validation::Incomplete);
    assert_eq!(validator().validate("\""), Validation::Incomplete);
    assert_eq!(validator().validate("\"a\" \"b\" \""), Validation::Incomplete);
}

#[test]
fn odd_quote_count_is_incomplete_with_balanced_braces() {
    assert_eq!(validator().validate(".edit {\"}"), Validation::Incomplete);
}

#[test]
fn even_quote_count_without_trigger_is_complete_whatever_the_braces() {
    assert_eq!(validator().validate("hello {"), Validation::Complete);
    assert_eq!(validator().validate("{foo {bar}"), Validation::Complete);
    assert_eq!(validator().validate(".info {{{"), Validation::Complete);
    assert_eq!(validator().validate("say \"hello\" {"), Validation::Complete);
}

#[test]
fn trigger_with_an_open_brace_is_incomplete() {
    assert_eq!(validator().validate(".edit {foo {bar}"), Validation::Incomplete);
    assert_eq!(validator().validate(".prompt {"), Validation::Incomplete);
}

#[test]
fn trigger_with_balanced_braces_is_complete() {
    assert_eq!(validator().validate(".edit {foo {bar}}"), Validation::Complete);
    assert_eq!(validator().validate(".edit"), Validation::Complete);
    assert_eq!(validator().validate(".edit {}\n{}"), Validation::Complete);
}

#[test]
fn trigger_is_found_behind_leading_whitespace() {
    assert_eq!(validator().validate("   .edit {"), Validation::Incomplete);
    assert_eq!(validator().validate("\n\t .edit {"), Validation::Incomplete);
    assert_eq!(validator().validate("\u{3000}.edit {"), Validation::Incomplete);
}

#[test]
fn trigger_must_stand_at_the_start() {
    assert_eq!(validator().validate("x .edit {"), Validation::Complete);
    assert_eq!(validator().validate(".edi {"), Validation::Complete);
}

#[test]
fn trigger_is_a_prefix_not_a_word() {
    assert_eq!(validator().validate(".editor {"), Validation::Incomplete);
}

#[test]
fn closing_brace_without_an_opening_one_is_ignored() {
    assert_eq!(validator().validate(".edit }"), Validation::Complete);
    assert_eq!(validator().validate(".edit }}}"), Validation::Complete);
    assert_eq!(validator().validate(".edit }{"), Validation::Incomplete);
    assert_eq!(validator().validate(".edit {}}{"), Validation::Incomplete);
}

#[test]
fn braces_inside_quotes_count_like_any_other() {
    assert_eq!(validator().validate(".edit \"{\""), Validation::Incomplete);
    assert_eq!(validator().validate(".edit { \"}\""), Validation::Complete);
}

#[test]
fn continuation_lines_are_part_of_the_buffer() {
    assert_eq!(validator().validate(".edit {\nfirst\nsecond"), Validation::Incomplete);
    assert_eq!(validator().validate(".edit {\nfirst\nsecond\n}"), Validation::Complete);
}

#[test]
fn validator_without_triggers_looks_at_quotes_only() {
    let v = ReplValidator::new(&[]);
    assert_eq!(v.validate(".edit {"), Validation::Complete);
    assert_eq!(v.validate(".edit \""), Validation::Incomplete);
}

#[test]
fn odd_quotes_counts_double_quotes_only() {
    assert!(!odd_quotes(""));
    assert!(odd_quotes("\""));
    assert!(!odd_quotes("\"\""));
    assert!(!odd_quotes("'''"));
    assert!(odd_quotes("a\"b\"c\"d"));
}

#[test]
fn starts_with_one_of_tests_each_word() {
    let words = [".edit", ".prompt"];
    assert!(starts_with_one_of(".prompt x", &words));
    assert!(starts_with_one_of(".edit", &words));
    assert!(!starts_with_one_of(" .edit", &words));
    assert!(!starts_with_one_of(".ed", &words));
    assert!(!starts_with_one_of(".edit", &[]));
}

#[test]
fn empty_trigger_word_matches_every_line() {
    assert!(starts_with_one_of("anything", &[""]));
    assert!(incomplete_brackets("{", &[""]));
}

#[test]
fn incomplete_brackets_needs_a_trigger() {
    let words = [".edit"];
    assert!(incomplete_brackets(".edit {", &words));
    assert!(incomplete_brackets("  .edit {{}", &words));
    assert!(!incomplete_brackets(".edit {}", &words));
    assert!(!incomplete_brackets(".other {", &words));
    assert!(!incomplete_brackets("", &words));
}

#[test]
fn blank_line_is_complete_under_any_triggers() {
    for line in ["", " ", "\n", " \t\r\n ", "\u{a0}\u{3000}\u{2028}"] {
        assert_eq!(validator().validate(line), Validation::Complete);
        assert!(!incomplete_brackets(line, &[".edit"]));
        assert!(!incomplete_brackets(line, &[""]));
        assert!(!incomplete_brackets(line, &[]));
    }
}

#[test]
fn leading_whitespace_is_the_white_space_property() {
    let listed = |c: char| {
        let n = c as u32;
        (0x09..=0x0D).contains(&n)
            || n == 0x20
            || n == 0x85
            || n == 0xA0
            || n == 0x1680
            || (0x2000..=0x200A).contains(&n)
            || n == 0x2028
            || n == 0x2029
            || n == 0x202F
            || n == 0x205F
            || n == 0x3000
    };
    let v = validator();
    let mut line = String::new();
    for c in '\0'..=char::MAX {
        if c == '"' {
            continue;
        }
        line.clear();
        line.push(c);
        line.push_str(".edit {");
        let expected = if listed(c) { Validation::Incomplete } else { Validation::Complete };
        assert_eq!(v.validate(&line), expected, "{:?}", c);
    }
}

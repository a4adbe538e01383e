use vault_token_helper::hcl::escape_quoted_string;
use vault_token_helper::hcl::is_printable;
use vault_token_helper::hcl::is_printable_as;
use vault_token_helper::hcl::CategoryGroup;
use vault_token_helper::install::config_contents;
use vault_token_helper::install::overwrite_action;
use vault_token_helper::install::Overwrite;

#[test]
fn escape_plain_word() {
    assert_eq!(escape_quoted_string("hello"), "hello");
}

#[test]
fn escape_double_quote() {
    assert_eq!(escape_quoted_string("a\"b"), "a\\\"b");
}

#[test]
fn escape_dollar_template() {
    assert_eq!(escape_quoted_string("${foo}"), "$${foo}");
}

#[test]
fn escape_percent_template() {
    assert_eq!(escape_quoted_string("%{if x}"), "%%{if x}");
}

#[test]
fn escape_percent_alone() {
    assert_eq!(escape_quoted_string("100%"), "100%");
}

#[test]
fn escape_dollar_not_before_brace() {
    assert_eq!(escape_quoted_string("$HOME $ {"), "$HOME $ {");
}

#[test]
fn escape_newline() {
    assert_eq!(escape_quoted_string("line1\nline2"), "line1\\nline2");
}

#[test]
fn escape_whitespace_controls() {
    assert_eq!(escape_quoted_string("a\r\tb"), "a\\r\\tb");
}

#[test]
fn escape_backslash() {
    assert_eq!(escape_quoted_string("C:\\bin"), "C:\\\\bin");
}

#[test]
fn escape_astral_symbol_kept() {
    assert_eq!(escape_quoted_string("😀"), "😀");
}

#[test]
fn escape_astral_private_use() {
    assert_eq!(escape_quoted_string("\u{f0000}"), "\\U000f0000");
}

#[test]
fn escape_astral_format_character() {
    assert_eq!(escape_quoted_string("x\u{e0001}"), "x\\U000e0001");
}

#[test]
fn escape_control_character() {
    assert_eq!(escape_quoted_string("a\u{7}b"), "a\\u0007b");
}

#[test]
fn escape_format_character() {
    assert_eq!(escape_quoted_string("\u{200b}"), "\\u200b");
}

#[test]
fn escape_non_ascii_letter_kept() {
    assert_eq!(escape_quoted_string("/home/zoë/bin"), "/home/zoë/bin");
}

#[test]
fn escape_empty() {
    assert_eq!(escape_quoted_string(""), "");
}

#[test]
fn printable_classes() {
    assert!(is_printable(' '));
    assert!(is_printable('a'));
    assert!(is_printable('{'));
    assert!(is_printable('€'));
    assert!(!is_printable('\u{a0}'));
    assert!(!is_printable('\u{0}'));
}

#[test]
fn config_file_text() {
    assert_eq!(
        config_contents("/usr/bin/vault-token-helper"),
        "# This file was created by vault-token-helper.\ntoken_helper = \"/usr/bin/vault-token-helper\"\n"
    );
}

#[test]
fn config_file_text_escapes_path() {
    assert_eq!(
        config_contents("/opt/${x}/h\""),
        "# This file was created by vault-token-helper.\ntoken_helper = \"/opt/$${x}/h\\\"\"\n"
    );
}

#[test]
fn overwrite_decisions() {
    assert_eq!(overwrite_action(true, true, false), Overwrite::Write);
    assert_eq!(overwrite_action(false, false, true), Overwrite::Write);
    assert_eq!(overwrite_action(false, true, true), Overwrite::Confirm);
    assert_eq!(overwrite_action(false, true, false), Overwrite::Refuse);
}

#[test]
fn printable_by_group() {
    assert!(is_printable_as(' ', CategoryGroup::Separator));
    assert!(!is_printable_as('\u{a0}', CategoryGroup::Separator));
    assert!(is_printable_as('x', CategoryGroup::Letter));
    assert!(is_printable_as('x', CategoryGroup::Mark));
    assert!(is_printable_as('x', CategoryGroup::Number));
    assert!(is_printable_as('x', CategoryGroup::Punctuation));
    assert!(is_printable_as('x', CategoryGroup::Symbol));
    assert!(!is_printable_as('x', CategoryGroup::Other));
}

//! Tests of the launch configuration and the text primitives.

use ispell::{
    count_words, parse_usize, split_lines, split_on_char, split_whitespace_tokens, trim_str,
    SpellLauncher,
};

#[test]
fn launcher_defaults_to_ispell() {
    let (name, args) = SpellLauncher::new().command_line();
    assert_eq!(name, "ispell");
    assert_eq!(args, vec!["-a".to_string()]);
}

#[test]
fn launcher_aspell_with_dictionary() {
    let (name, args) = SpellLauncher::new().aspell().dictionary("en_GB").command_line();
    assert_eq!(name, "aspell");
    assert_eq!(
        args,
        vec!["-a".to_string(), "-d".to_string(), "en_GB".to_string()]
    );
}

#[test]
fn launcher_hunspell() {
    let (name, args) = SpellLauncher::new().hunspell().command_line();
    assert_eq!(name, "hunspell");
    assert_eq!(args, vec!["-a".to_string()]);
}

#[test]
fn launcher_explicit_command_wins() {
    let (name, _) = SpellLauncher::new().aspell().command("aspell-custom").command_line();
    assert_eq!(name, "aspell-custom");
}

#[test]
fn count_words_examples() {
    assert_eq!(count_words("Testing iff if it works"), 5);
    assert_eq!(count_words(" a  b "), 2);
    assert_eq!(count_words(""), 0);
    assert_eq!(count_words("   "), 0);
    assert_eq!(count_words("a\tb\nc"), 3);
}

#[test]
fn split_whitespace_tokens_examples() {
    assert_eq!(
        split_whitespace_tokens(" one  two\tthree "),
        vec!["one".to_string(), "two".to_string(), "three".to_string()]
    );
    assert!(split_whitespace_tokens("").is_empty());
}

#[test]
fn split_on_char_examples() {
    assert_eq!(
        split_on_char("a:b", ':'),
        vec!["a".to_string(), "b".to_string()]
    );
    assert_eq!(split_on_char("& ", ':'), vec!["& ".to_string()]);
    assert_eq!(
        split_on_char("a::b", ':'),
        vec!["a".to_string(), "".to_string(), "b".to_string()]
    );
    assert_eq!(split_on_char("", ':'), vec!["".to_string()]);
}

#[test]
fn split_lines_examples() {
    assert_eq!(
        split_lines("a\nb\n"),
        vec!["a".to_string(), "b".to_string()]
    );
    assert_eq!(
        split_lines("a\r\nb"),
        vec!["a".to_string(), "b".to_string()]
    );
    assert_eq!(
        split_lines("a\n\nb"),
        vec!["a".to_string(), "".to_string(), "b".to_string()]
    );
    assert!(split_lines("").is_empty());
}

#[test]
fn trim_str_examples() {
    assert_eq!(trim_str("  x\t"), "x");
    assert_eq!(trim_str("x"), "x");
    assert_eq!(trim_str(" \t "), "");
    assert_eq!(trim_str("a b"), "a b");
}

#[test]
fn parse_usize_examples() {
    assert_eq!(parse_usize("123"), Some(123));
    assert_eq!(parse_usize("0"), Some(0));
    assert_eq!(parse_usize(""), None);
    assert_eq!(parse_usize("12x"), None);
    assert_eq!(parse_usize("-3"), None);
    assert_eq!(parse_usize("99999999999999999999999999"), None);
}

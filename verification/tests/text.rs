use mend::text::{first_token, tokenize, trim_str};

#[test]
fn trim_removes_surrounding_whitespace() {
    assert_eq!(trim_str("  hello \t\n"), "hello");
    assert_eq!(trim_str(""), "");
    assert_eq!(trim_str(" \t "), "");
    assert_eq!(trim_str("inner  space"), "inner  space");
}

#[test]
fn tokenize_splits_on_whitespace_runs() {
    assert_eq!(
        tokenize("  cmd  arg1\targ2 "),
        vec!["cmd".to_string(), "arg1".to_string(), "arg2".to_string()]
    );
    assert_eq!(tokenize(""), Vec::<String>::new());
    assert_eq!(tokenize(" \t\n"), Vec::<String>::new());
}

#[test]
fn first_token_is_recipe_name() {
    assert_eq!(first_token("  rename old new"), "rename");
    assert_eq!(first_token(""), "");
    assert_eq!(first_token("   "), "");
}

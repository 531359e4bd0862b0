//! The directive parser, the tag primitives, and the module restriction.
use amphi::ast::{Item, ItemMod, Tag};
use amphi::attr::{find_attribute, pop_attribute, remove_matched_attribute};
use amphi::parse::{
    parse_args, parse_test_args, ArgToken, DirectiveError, ItemModRestrict, LitValue, Mode,
    TargetError,
};

fn tag(name: &str, arg: &str) -> Tag {
    Tag {
        name: name.to_string(),
        arg: arg.to_string(),
    }
}

fn path_opt(value: &str, is_file: bool) -> ArgToken {
    ArgToken::NameValue(
        "path".to_string(),
        LitValue::Str(value.to_string()),
        is_file,
    )
}

fn flag(name: &str) -> ArgToken {
    ArgToken::Flag(name.to_string())
}

#[test]
fn defaults_when_no_options() {
    let parsed = parse_args(&vec![]).unwrap();
    assert_eq!(parsed.mode, Mode::Both);
    assert_eq!(parsed.path, "src".to_string());
}

#[test]
fn restriction_options_set_the_mode() {
    assert_eq!(
        parse_args(&vec![flag("async_only")]).unwrap().mode,
        Mode::AsyncOnly
    );
    assert_eq!(
        parse_args(&vec![flag("blocking_only")]).unwrap().mode,
        Mode::SyncOnly
    );
}

#[test]
fn restriction_options_conflict() {
    assert_eq!(
        parse_args(&vec![flag("async_only"), flag("blocking_only")]),
        Err(DirectiveError::ExclusiveConflict(1))
    );
    assert_eq!(
        parse_args(&vec![flag("blocking_only"), flag("async_only")]),
        Err(DirectiveError::ExclusiveConflict(1))
    );
}

#[test]
fn more_than_two_options_rejected() {
    let tokens = vec![flag("async_only"), flag("async_only"), flag("async_only")];
    assert_eq!(parse_args(&tokens), Err(DirectiveError::TooMany));
}

#[test]
fn bare_literal_rejected() {
    let tokens = vec![ArgToken::Lit(LitValue::Str("x".to_string()))];
    assert_eq!(parse_args(&tokens), Err(DirectiveError::LiteralArg(0)));
}

#[test]
fn unknown_option_rejected() {
    assert_eq!(
        parse_args(&vec![flag("wrong")]),
        Err(DirectiveError::UnknownOption(0))
    );
    assert_eq!(
        parse_args(&vec![ArgToken::OtherMeta]),
        Err(DirectiveError::UnknownOption(0))
    );
}

#[test]
fn absolute_path_rejected() {
    assert_eq!(
        parse_args(&vec![path_opt("/tmp/code.rs", true)]),
        Err(DirectiveError::AbsolutePath(0))
    );
}

#[test]
fn missing_path_rejected() {
    assert_eq!(
        parse_args(&vec![path_opt("no/such.rs", false)]),
        Err(DirectiveError::FileNotFound(0))
    );
}

#[test]
fn non_string_path_rejected() {
    let tokens = vec![ArgToken::NameValue(
        "path".to_string(),
        LitValue::Other,
        false,
    )];
    assert_eq!(parse_args(&tokens), Err(DirectiveError::PathNotString(0)));
}

#[test]
fn path_extension_stripped_and_crate_root_popped() {
    let parsed = parse_args(&vec![path_opt("src/lib.rs", true)]).unwrap();
    assert_eq!(parsed.path, "src".to_string());
    let parsed = parse_args(&vec![path_opt("gen/main.rs", true)]).unwrap();
    assert_eq!(parsed.path, "gen".to_string());
    let parsed = parse_args(&vec![path_opt("gen/api.rs", true)]).unwrap();
    assert_eq!(parsed.path, "gen/api".to_string());
}

#[test]
fn test_directive_defaults_to_the_usual_scope() {
    assert_eq!(parse_test_args(&vec![]).unwrap(), "amphi".to_string());
}

#[test]
fn test_directive_accepts_one_name() {
    let bare = vec![ArgToken::Lit(LitValue::Str("my_mod".to_string()))];
    assert_eq!(parse_test_args(&bare).unwrap(), "my_mod".to_string());
    let named = vec![ArgToken::NameValue(
        "name".to_string(),
        LitValue::Str("my_mod".to_string()),
        false,
    )];
    assert_eq!(parse_test_args(&named).unwrap(), "my_mod".to_string());
}

#[test]
fn test_directive_rejections() {
    let two = vec![
        ArgToken::Lit(LitValue::Str("a".to_string())),
        ArgToken::Lit(LitValue::Str("b".to_string())),
    ];
    assert_eq!(parse_test_args(&two), Err(DirectiveError::TooMany));
    assert_eq!(
        parse_test_args(&vec![ArgToken::Lit(LitValue::Other)]),
        Err(DirectiveError::TestArgInvalid(0))
    );
    let wrong_name = vec![ArgToken::NameValue(
        "scope".to_string(),
        LitValue::Str("m".to_string()),
        false,
    )];
    assert_eq!(
        parse_test_args(&wrong_name),
        Err(DirectiveError::TestArgInvalid(0))
    );
    let non_string = vec![ArgToken::NameValue(
        "name".to_string(),
        LitValue::Other,
        false,
    )];
    assert_eq!(
        parse_test_args(&non_string),
        Err(DirectiveError::TestNameNotString(0))
    );
    assert_eq!(
        parse_test_args(&vec![ArgToken::Flag("name".to_string())]),
        Err(DirectiveError::TestArgInvalid(0))
    );
}

#[test]
fn find_attribute_matches_family_and_argument() {
    let attrs = vec![tag("other", "blocking"), tag("amphi", "asynchronous")];
    assert!(find_attribute(&attrs, &"asynchronous".to_string()));
    assert!(!find_attribute(&attrs, &"blocking".to_string()));
}

#[test]
fn pop_attribute_takes_the_first_of_a_family() {
    let mut attrs = vec![
        tag("other", "zero"),
        tag("non_inline_module", "src/a.rs"),
        tag("non_inline_module", "src/b.rs"),
    ];
    let popped = pop_attribute(&mut attrs, &"non_inline_module".to_string());
    assert_eq!(popped, Some("src/a.rs".to_string()));
    assert_eq!(
        attrs,
        vec![tag("other", "zero"), tag("non_inline_module", "src/b.rs")]
    );
    let none = pop_attribute(&mut attrs, &"absent".to_string());
    assert_eq!(none, None);
    assert_eq!(attrs.len(), 2);
}

#[test]
fn remove_matched_attribute_needs_both_name_and_argument() {
    let mut attrs = vec![
        tag("amphi", "blocking"),
        tag("amphi", "asynchronous"),
        tag("amphi", "blocking"),
    ];
    let removed = remove_matched_attribute(
        &mut attrs,
        &"amphi".to_string(),
        &"blocking".to_string(),
    );
    assert_eq!(removed, Some("blocking".to_string()));
    assert_eq!(attrs, vec![tag("amphi", "asynchronous")]);
    let missed = remove_matched_attribute(&mut attrs, &"amphi".to_string(), &"blocking".to_string());
    assert_eq!(missed, None);
}

#[test]
fn only_a_module_hosts_the_split() {
    let m = Item::Mod(ItemMod {
        tags: vec![],
        name: "root".to_string(),
        content: Some(vec![]),
    });
    assert!(ItemModRestrict::from_item(m).is_ok());
    let not_a_module = Item::TypeDef(vec![], "T".to_string());
    assert_eq!(
        ItemModRestrict::from_item(not_a_module).err(),
        Some(TargetError::NotAModule)
    );
}

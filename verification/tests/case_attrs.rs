use burrtype::attrs::{serde_rename_all, serde_skip, SerdeDirective};
use burrtype::case::CaseConvention;
use burrtype::error::ExportError;

#[test]
fn parse_recognizes_every_convention() {
    assert_eq!(CaseConvention::parse("lowercase"), CaseConvention::Lowercase);
    assert_eq!(CaseConvention::parse("UPPERCASE"), CaseConvention::Uppercase);
    assert_eq!(CaseConvention::parse("PascalCase"), CaseConvention::PascalCase);
    assert_eq!(CaseConvention::parse("camelCase"), CaseConvention::CamelCase);
    assert_eq!(CaseConvention::parse("snake_case"), CaseConvention::SnakeCase);
    assert_eq!(
        CaseConvention::parse("SCREAMING_SNAKE_CASE"),
        CaseConvention::ScreamingSnakeCase
    );
    assert_eq!(CaseConvention::parse("kebab-case"), CaseConvention::KebabCase);
    assert_eq!(
        CaseConvention::parse("SCREAMING-KEBAB-CASE"),
        CaseConvention::ScreamingKebabCase
    );
    assert_eq!(CaseConvention::parse("anything else"), CaseConvention::Default);
}

#[test]
fn transform_applies_each_convention() {
    assert_eq!(CaseConvention::Default.transform("hello_world"), "hello_world");
    assert_eq!(CaseConvention::Lowercase.transform("HelloWorld"), "helloworld");
    assert_eq!(CaseConvention::Uppercase.transform("hello"), "HELLO");
    assert_eq!(CaseConvention::PascalCase.transform("hello_world"), "HelloWorld");
    assert_eq!(CaseConvention::CamelCase.transform("hello_world"), "helloWorld");
    assert_eq!(CaseConvention::SnakeCase.transform("HelloWorld"), "hello_world");
    assert_eq!(
        CaseConvention::ScreamingSnakeCase.transform("helloWorld"),
        "HELLO_WORLD"
    );
    assert_eq!(CaseConvention::KebabCase.transform("hello_world"), "hello-world");
    assert_eq!(
        CaseConvention::ScreamingKebabCase.transform("hello_world"),
        "HELLO-WORLD"
    );
}

#[test]
fn serde_skip_finds_the_marker() {
    let none: Vec<SerdeDirective> = Vec::new();
    assert!(!serde_skip(&none));
    let mut with = Vec::new();
    with.push(SerdeDirective::RenameAll("camelCase".to_string()));
    with.push(SerdeDirective::Skip);
    assert!(serde_skip(&with));
}

#[test]
fn rename_all_takes_the_first_plain_setting() {
    let mut attrs = Vec::new();
    attrs.push(SerdeDirective::RenameAll("camelCase".to_string()));
    attrs.push(SerdeDirective::RenameAll("snake_case".to_string()));
    assert_eq!(serde_rename_all(&attrs), Ok(CaseConvention::CamelCase));
}

#[test]
fn rename_all_accepts_agreeing_split_settings() {
    let mut attrs = Vec::new();
    attrs.push(SerdeDirective::RenameAllSerialize("kebab-case".to_string()));
    attrs.push(SerdeDirective::RenameAllDeserialize("kebab-case".to_string()));
    assert_eq!(serde_rename_all(&attrs), Ok(CaseConvention::KebabCase));
}

#[test]
fn rename_all_rejects_disagreeing_split_settings() {
    let mut attrs = Vec::new();
    attrs.push(SerdeDirective::RenameAllSerialize("kebab-case".to_string()));
    attrs.push(SerdeDirective::RenameAllDeserialize("camelCase".to_string()));
    assert_eq!(
        serde_rename_all(&attrs),
        Err(ExportError::MismatchedCaseConvention)
    );
}

#[test]
fn rename_all_rejects_a_one_sided_setting() {
    let mut attrs = Vec::new();
    attrs.push(SerdeDirective::RenameAllSerialize("camelCase".to_string()));
    assert_eq!(
        serde_rename_all(&attrs),
        Err(ExportError::MismatchedCaseConvention)
    );
}

#[test]
fn rename_all_defaults_when_nothing_is_set() {
    let none: Vec<SerdeDirective> = Vec::new();
    assert_eq!(serde_rename_all(&none), Ok(CaseConvention::Default));
}

use grs::registry::{code_to_rule, name_to_code, rule_to_code, rule_to_name, Rule, all_rules};

#[test]
fn registry_converters() {
    let name = "MissingDoubleAccents";
    let code = "MDA";
    let rule = Rule::MissingDoubleAccents;

    assert_eq!(name_to_code(name), code);
    assert_eq!(code_to_rule(code), Some(rule));
    assert_eq!(rule_to_name(rule), name);
    assert_eq!(rule_to_code(rule), code);
}

#[test]
fn codes_are_distinct() {
    let rules = all_rules();
    for a in rules.iter() {
        for b in rules.iter() {
            if a != b {
                assert_ne!(rule_to_code(*a), rule_to_code(*b));
            }
        }
    }
}

#[test]
fn unknown_code_is_rejected() {
    assert_eq!(code_to_rule("ZZZ"), None);
    assert_eq!(code_to_rule(""), None);
}

#[test]
fn capabilities() {
    assert!(Rule::MonosyllableAccented.has_fix());
    assert!(!Rule::DuplicatedWord.has_fix());
    assert!(!Rule::MultisyllableNotAccented.has_fix());
    assert!(!Rule::ForbiddenChar.has_fix());
    assert!(Rule::ForbiddenDoubleAccent.has_fix());
    assert!(!Rule::OutdatedSpelling.requires_tokenizing());
    assert!(!Rule::AmbiguousChar.requires_tokenizing());
    assert!(!Rule::ForbiddenChar.requires_tokenizing());
    assert!(Rule::MissingDoubleAccents.requires_tokenizing());
    assert!(Rule::Punctuation.requires_tokenizing());
}

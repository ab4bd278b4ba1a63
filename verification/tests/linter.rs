use grs::cli::RuleSelector;
use grs::diagnostic::Fix;
use grs::syllables::num_syllables;
use grs::linter::{apply_fixes, check, fix, lint_only};
use grs::range::TextRange;
use grs::registry::{all_rules, Rule};

#[test]
fn empty_text_yields_no_diagnostics() {
    let diagnostics = check("", &all_rules());
    assert!(diagnostics.is_empty());
}

#[test]
fn check_reports_raw_then_token_rules() {
    let config = vec![Rule::AmbiguousChar, Rule::MonosyllableAccented];
    let diagnostics = check("µμ μέλ", &config);
    assert_eq!(diagnostics.len(), 2);
    assert_eq!(diagnostics[0].kind, Rule::AmbiguousChar);
    assert_eq!(diagnostics[1].kind, Rule::MonosyllableAccented);
}

#[test]
fn fix_converges_in_one_pass() {
    // Both occurrences are fixed together: they do not overlap.
    let config = vec![Rule::MonosyllableAccented];
    let (fixed, messages, counts) = fix("μέλ μέλ", &config);
    assert_eq!(fixed, "μελ μελ");
    assert!(messages.is_empty());
    assert_eq!(counts.get(Rule::MonosyllableAccented), 2);
}

#[test]
fn fix_is_idempotent_when_converged() {
    let config = vec![
        Rule::Punctuation,
        Rule::AmbiguousChar,
        Rule::OutdatedSpelling,
        Rule::MonosyllableAccented,
    ];
    let samples = [
        "αναφέρεται σ'αυτόν ως µμ κακόϋπνος",
        "μέλ μέλ",
        "Εξ άλλου, όλα καλά.",
        "",
    ];
    for text in samples {
        let (once, m1, _) = fix(text, &config);
        assert!(m1.is_empty());
        let (twice, m2, c2) = fix(once.as_str(), &config);
        assert!(m2.is_empty());
        assert_eq!(once, twice);
        for rule in all_rules().iter() {
            assert_eq!(c2.get(*rule), 0);
        }
    }
}

#[test]
fn fix_hits_the_iteration_cap_without_crashing() {
    // Each pass fixes only the first micro sign, so 150 of them outrun
    // the cap of 100 passes.
    let text: String = std::iter::repeat('µ').take(150).collect();
    let config = vec![Rule::AmbiguousChar];
    let (fixed, messages, counts) = fix(text.as_str(), &config);
    assert_eq!(messages.len(), 1);
    assert_eq!(counts.get(Rule::AmbiguousChar), 100);
    let expected: String = std::iter::repeat('μ')
        .take(100)
        .chain(std::iter::repeat('µ').take(50))
        .collect();
    assert_eq!(fixed, expected);
}

#[test]
fn fix_without_fixable_rules_returns_input() {
    let config = vec![Rule::DuplicatedWord, Rule::ForbiddenChar];
    let (fixed, messages, _) = fix("λάθος λάθος πιςτεύοντας", &config);
    assert_eq!(fixed, "λάθος λάθος πιςτεύοντας");
    assert!(messages.is_empty());
}

#[test]
fn fix_applies_several_rules_in_one_run() {
    let config = vec![Rule::OutdatedSpelling, Rule::AmbiguousChar];
    let (fixed, messages, counts) = fix("κακόϋπνος µμ", &config);
    assert_eq!(fixed, "κακόυπνος μμ");
    assert!(messages.is_empty());
    assert_eq!(counts.get(Rule::OutdatedSpelling), 1);
    assert_eq!(counts.get(Rule::AmbiguousChar), 1);
}

#[test]
fn apply_pass_orders_replacements() {
    // Two disjoint fixes land left to right.
    let fixes = vec![
        (
            Rule::AmbiguousChar,
            Fix { replacement: "XY".to_string(), range: TextRange::new(1, 3) },
        ),
        (
            Rule::OutdatedSpelling,
            Fix { replacement: "Z".to_string(), range: TextRange::new(4, 5) },
        ),
    ];
    let (head, tail, applied) = apply_fixes("abcdef", &fixes);
    assert_eq!(head, "aXY");
    assert_eq!(tail, "dZf");
    assert_eq!(applied, vec![Rule::AmbiguousChar, Rule::OutdatedSpelling]);
    let mut joined = head.clone();
    joined.push_str(tail.as_str());
    // The first replacement stands strictly before the second.
    let x = joined.find("XY").unwrap();
    let z = joined.find('Z').unwrap();
    assert!(x < z);
}

#[test]
fn apply_pass_discards_overlap() {
    // The second fix overlaps the first: exactly one is applied.
    let fixes = vec![
        (
            Rule::AmbiguousChar,
            Fix { replacement: "XY".to_string(), range: TextRange::new(1, 4) },
        ),
        (
            Rule::OutdatedSpelling,
            Fix { replacement: "Z".to_string(), range: TextRange::new(3, 5) },
        ),
    ];
    let (head, tail, applied) = apply_fixes("abcdef", &fixes);
    assert_eq!(head, "aXY");
    assert_eq!(tail, "ef");
    assert_eq!(applied, vec![Rule::AmbiguousChar]);
}

#[test]
fn lint_only_counts_by_rule() {
    let config = vec![Rule::MonosyllableAccented, Rule::AmbiguousChar];
    let (messages, counts) = lint_only("µμ μέλ μέλ", &config);
    assert_eq!(messages.len(), 3);
    assert_eq!(counts.get(Rule::MonosyllableAccented), 2);
    assert_eq!(counts.get(Rule::AmbiguousChar), 1);
    assert_eq!(counts.get(Rule::Punctuation), 0);
}

#[test]
fn selector_expands_to_rules() {
    let all = RuleSelector::All.rules();
    assert_eq!(all, all_rules());
    let one = RuleSelector::Selection(Rule::Punctuation).rules();
    assert_eq!(one, vec![Rule::Punctuation]);
    let parsed: RuleSelector = "ALL".parse().unwrap();
    assert_eq!(parsed, RuleSelector::All);
    let parsed: RuleSelector = "MDA".parse().unwrap();
    assert_eq!(parsed, RuleSelector::Selection(Rule::MissingDoubleAccents));
    assert!("BOGUS".parse::<RuleSelector>().is_err());
    let rule: Rule = "OS".parse().unwrap();
    assert_eq!(rule, Rule::OutdatedSpelling);
}

#[test]
fn syllable_machinery() {
    assert_eq!(num_syllables("μέλ"), 1);
    assert_eq!(num_syllables("Αλλο"), 2);
    assert_eq!(num_syllables("άνθρωπος"), 3);
    assert_eq!(num_syllables("ανακαλύφθηκε"), 6);
    assert_eq!(num_syllables(""), 0);
    assert_eq!(num_syllables("αιώνα"), 3);
}

#[test]
fn lint_messages_carry_code_and_context() {
    // Without a terminal the painters leave the text unchanged.
    let config = vec![Rule::AmbiguousChar];
    let (messages, _) = lint_only("µμ μέλ", &config);
    assert_eq!(messages.len(), 1);
    assert!(messages[0].starts_with("AC"));
    assert!(messages[0].contains("µμ μέλ"));
}

#[test]
fn context_window_stops_at_sentence_breaks() {
    let config = vec![Rule::AmbiguousChar];
    let text = "Πρώτη πρόταση. Εδώ στέκει το µμ σημείο. Τρίτη πρόταση.";
    let (messages, _) = lint_only(text, &config);
    assert_eq!(messages.len(), 1);
    assert!(messages[0].contains("Εδώ στέκει το µμ σημείο."));
    assert!(!messages[0].contains("Πρώτη"));
    assert!(!messages[0].contains("Τρίτη"));
}

#[test]
fn settled_head_may_keep_a_discarded_finding() {
    // The mixed-script fix spans the whole token and wins the overlap
    // against the micro-sign fix inside it; its replacement settles into
    // the head, which later passes never rescan. The run still converges:
    // the final tail is clean, as the pass trace states.
    let config = vec![Rule::MixedScripts, Rule::AmbiguousChar];
    let (fixed, messages, counts) = fix("νέoµ", &config);
    assert_eq!(fixed, "νέοµ");
    assert!(messages.is_empty());
    assert_eq!(counts.get(Rule::MixedScripts), 1);
    assert_eq!(counts.get(Rule::AmbiguousChar), 0);
}

use grs::diagnostic::Diagnostic;
use grs::registry::Rule;
use grs::rules::{
    add_final_n, ambiguous_char, duplicated_word, forbidden_accent, forbidden_char,
    missing_accent_capital, missing_double_accents, mixed_scripts, monosyllable_accented,
    multisyllable_not_accented, outdated_spelling, punctuation, remove_final_n,
};
use grs::tokenizer::tokenize;

#[test]
fn test_range_mono() {
    let text = "Ώς κι ο μπαρμπα-Στάθης";
    let doc = tokenize(text);
    let mut diagnostics = Vec::new();
    monosyllable_accented(&doc.tokens()[0], &doc, &mut diagnostics);
    assert!(!diagnostics.is_empty());

    let diagnostic = &diagnostics[0];
    let range = diagnostic.range;
    assert_eq!(range.start(), 0);
    assert_eq!(range.end(), "Ώς".len());
}

#[test]
fn test_range_multi() {
    let text = "Αλλο ";
    let doc = tokenize(text);
    let mut diagnostics = Vec::new();
    multisyllable_not_accented(&doc.tokens()[0], &doc, &mut diagnostics);
    assert!(!diagnostics.is_empty());

    let diagnostic = &diagnostics[0];
    let range = diagnostic.range;
    assert_eq!(range.start(), 0);
    assert_eq!(range.end(), "Αλλο".len());
}

// Requires the given token to be on some position > 0.
#[test]
fn multi_apostrophe() {
    let text = "να ’λεγε";
    let doc = tokenize(text);
    let mut diagnostics = Vec::new();
    // Tokens: να, whitespace, ’, λεγε.
    let token = &doc.tokens()[3];
    assert_eq!(token.text(), "λεγε");
    multisyllable_not_accented(token, &doc, &mut diagnostics);
    assert!(diagnostics.is_empty());
}

// After numbers, with and without accent should be accepted.
#[test]
fn mono_after_number() {
    let text = "του 20ού αιώνα";
    let doc = tokenize(text);
    let mut diagnostics = Vec::new();
    // Tokens: του, whitespace, 20, ού, whitespace, αιώνα.
    let token = &doc.tokens()[3];
    assert_eq!(token.text(), "ού");
    monosyllable_accented(token, &doc, &mut diagnostics);
    assert!(diagnostics.is_empty());
}

#[test]
fn multi_after_number() {
    let text = "ο 39χρονος αγνοούμενος";
    let doc = tokenize(text);
    let mut diagnostics = Vec::new();
    // Tokens: ο, whitespace, 39, χρονος, whitespace, αγνοούμενος.
    let token = &doc.tokens()[3];
    assert_eq!(token.text(), "χρονος");
    multisyllable_not_accented(token, &doc, &mut diagnostics);
    assert!(diagnostics.is_empty());
}

#[test]
fn missing_accent_capital_test_range() {
    let text = "Αλλο ";
    let doc = tokenize(text);
    let mut diagnostics = Vec::new();
    missing_accent_capital(&doc.tokens()[0], &doc, &mut diagnostics);
    assert!(!diagnostics.is_empty());

    let diagnostic = &diagnostics[0];
    let range = diagnostic.range;
    assert_eq!(range.start(), 0);
    assert_eq!(range.end(), "Αλλο".len());
    let fix = diagnostic.fix.as_ref().unwrap();
    assert_eq!(fix.replacement, "Άλλο");
}

#[test]
fn test_tokens_without_error() {
    // A word token followed directly by punctuation: no pronoun, no error.
    let doc = tokenize("άνθρωπος.");
    let mut diagnostics = Vec::new();
    missing_double_accents(&doc.tokens()[0], &doc, &mut diagnostics);
    assert!(diagnostics.is_empty());
}

#[test]
fn test_tokens_with_error() {
    // A proparoxytone word followed by a pronoun and punctuation.
    let doc = tokenize("άνθρωπος του.");
    let mut diagnostics = Vec::new();
    missing_double_accents(&doc.tokens()[0], &doc, &mut diagnostics);
    assert!(!diagnostics.is_empty());
}

#[test]
fn missing_double_accents_test_range() {
    let text = "άνθρωπος του.";
    let doc = tokenize(text);
    let mut diagnostics = Vec::new();
    missing_double_accents(&doc.tokens()[0], &doc, &mut diagnostics);
    assert!(!diagnostics.is_empty());

    let diagnostic = &diagnostics[0];
    let range = diagnostic.range;
    assert_eq!(range.start(), 0);
    assert_eq!(range.end(), "άνθρωπος".len());
    let fix = diagnostic.fix.as_ref().unwrap();
    assert_eq!(fix.replacement, "άνθρωπός");
}

#[test]
fn test_basic() {
    // The first one is the mathematical one, then the Greek one.
    let text = "µμ";
    let mut chars = text.chars();
    let fst = chars.next();
    let snd = chars.next();
    assert_ne!(fst, snd);

    let mut diagnostics = Vec::new();
    ambiguous_char(text, &mut diagnostics);
    assert!(!diagnostics.is_empty());
}

#[test]
fn outdated_spelling_test_basic() {
    let text = "γάιδαρος αρσενικό (θηλυκό γαϊδάρα ή γαϊδούρα)";
    let mut diagnostics = Vec::new();
    outdated_spelling(text, &mut diagnostics);
    assert!(diagnostics.is_empty());

    diagnostics.clear();
    outdated_spelling("κακόϋπνος", &mut diagnostics);
    assert!(!diagnostics.is_empty());

    diagnostics.clear();
    outdated_spelling("Έϊμι Γουάντζ", &mut diagnostics);
    assert!(!diagnostics.is_empty());
}

fn run_token_rule(
    rule: fn(&grs::tokenizer::Token, &grs::tokenizer::Doc, &mut Vec<Diagnostic>),
    text: &str,
) -> Vec<Diagnostic> {
    let doc = tokenize(text);
    let mut diagnostics = Vec::new();
    for token in doc.tokens().iter() {
        rule(token, &doc, &mut diagnostics);
    }
    diagnostics
}

#[test]
fn monosyllable_cases() {
    assert!(!run_token_rule(monosyllable_accented, "μέλ").is_empty());
    assert!(run_token_rule(monosyllable_accented, "μέλ. Και άλλα.").is_empty());
    assert!(run_token_rule(monosyllable_accented, "μέλ… και άλλα.").is_empty());
    assert!(run_token_rule(monosyllable_accented, "ἄρ᾽ Ἀθήνας").is_empty());
    // The interrogative pronoun keeps its extra-list treatment.
    assert!(!run_token_rule(monosyllable_accented, "Μα ποιός ή ποιά έγραψε το λήμμα;").is_empty());
}

#[test]
fn multisyllable_cases() {
    assert!(!run_token_rule(multisyllable_not_accented, "καλημερα").is_empty());
    assert!(run_token_rule(multisyllable_not_accented, "επεξ. επιλεγμένο").is_empty());
    assert!(run_token_rule(multisyllable_not_accented, "του/της").is_empty());
    assert!(run_token_rule(multisyllable_not_accented, "ΒΟΥΤΥΡΑ-ΕΛΑΙΑ").is_empty());
    assert!(run_token_rule(multisyllable_not_accented, "μου 'ρχεται να").is_empty());
    assert!(run_token_rule(multisyllable_not_accented, "γερο - Ευθύμιο").is_empty());
}

#[test]
fn duplicated_word_cases() {
    assert!(!run_token_rule(duplicated_word, "λάθος λάθος").is_empty());
    assert!(run_token_rule(duplicated_word, "δυο δυο").is_empty());
    assert!(run_token_rule(duplicated_word, "Λοιπόν το ένστικτό σου σου φώναξε").is_empty());
    assert!(run_token_rule(duplicated_word, "Ω σ α ν ν ά").is_empty());
    let diags = run_token_rule(duplicated_word, "λάθος λάθος");
    assert_eq!(diags[0].kind, Rule::DuplicatedWord);
    assert!(diags[0].fix.is_none());
    assert_eq!(diags[0].range.start(), 0);
    assert_eq!(diags[0].range.end(), "λάθος λάθος".len());
}

#[test]
fn final_n_cases() {
    // Remove: before a continuant consonant the ν drops.
    let diags = run_token_rule(remove_final_n, "στην διάθεσή σας");
    assert!(!diags.is_empty());
    assert_eq!(diags[0].fix.as_ref().unwrap().replacement, "στη");
    assert!(run_token_rule(remove_final_n, "την 5η θέση").is_empty());
    assert!(run_token_rule(remove_final_n, "εις την θάλασσαν").is_empty());
    // Add: before a vowel or plosive the ν is needed.
    let diags = run_token_rule(add_final_n, "στη πόλη σας");
    assert!(!diags.is_empty());
    assert_eq!(diags[0].fix.as_ref().unwrap().replacement, "στην");
    assert!(run_token_rule(add_final_n, "τη 2η θέση").is_empty());
    assert!(run_token_rule(add_final_n, "φωνή βοώντος εν τη ερήμω").is_empty());
    assert!(run_token_rule(add_final_n, "τη τάξει").is_empty());
}

#[test]
fn forbidden_accent_cases() {
    assert!(run_token_rule(forbidden_accent, "θάλασσα").is_empty());
    assert!(!run_token_rule(forbidden_accent, "η θαλασσότάραχη").is_empty());
    assert!(run_token_rule(forbidden_accent, "το πρόσωπό μου").is_empty());
    assert!(!run_token_rule(forbidden_accent, "το πρόσωσωπό μου").is_empty());
}

#[test]
fn forbidden_char_cases() {
    let mut diagnostics = Vec::new();
    forbidden_char("πιςτεύοντας", &mut diagnostics);
    assert!(!diagnostics.is_empty());
    assert!(diagnostics[0].fix.is_none());
    diagnostics.clear();
    forbidden_char("πιστεύοντας", &mut diagnostics);
    assert!(diagnostics.is_empty());
}

#[test]
fn mixed_scripts_cases() {
    // The o is the Latin letter o.
    let diags = run_token_rule(mixed_scripts, "νέo");
    assert!(!diags.is_empty());
    assert_eq!(diags[0].fix.as_ref().unwrap().replacement, "νέο");
    assert!(run_token_rule(mixed_scripts, "Gravestone").is_empty());
    assert!(run_token_rule(mixed_scripts, "B-λεμφοκύτταρο,").is_empty());
}

#[test]
fn punctuation_cases() {
    let diags = run_token_rule(punctuation, "αναφέρεται σ'αυτόν ως");
    assert!(!diags.is_empty());
    assert_eq!(diags[0].fix.as_ref().unwrap().replacement, "σ' αυτόν");
    assert!(run_token_rule(punctuation, "παρόμοιο μ' αυτό.").is_empty());
    assert!(!run_token_rule(punctuation, "για ν'αναπτυχθεί").is_empty());
    assert!(!run_token_rule(punctuation, "Ουδ'η γης").is_empty());
    assert!(!run_token_rule(punctuation, "κ᾿ἐκρύπτετο").is_empty());
}

#[test]
fn ambiguous_char_range() {
    let mut diagnostics = Vec::new();
    ambiguous_char("αµέσως", &mut diagnostics);
    assert_eq!(diagnostics.len(), 1);
    let d = &diagnostics[0];
    assert_eq!(d.kind, Rule::AmbiguousChar);
    // The micro sign sits after a two-byte alpha.
    assert_eq!(d.range.start(), 2);
    assert_eq!(d.range.end(), 4);
    assert_eq!(d.fix.as_ref().unwrap().replacement, "μ");
}

#[test]
fn outdated_spelling_replacement() {
    let mut diagnostics = Vec::new();
    outdated_spelling("εξ άλλου", &mut diagnostics);
    assert_eq!(diagnostics.len(), 1);
    assert_eq!(diagnostics[0].fix.as_ref().unwrap().replacement, "εξάλλου");
    assert_eq!(diagnostics[0].range.start(), 0);
    assert_eq!(diagnostics[0].range.end(), "εξ άλλου".len());
}

#[test]
fn fixes_replace_at_the_flagged_range() {
    let diags = run_token_rule(remove_final_n, "στην διάθεσή σας");
    let d = &diags[0];
    let f = d.fix.as_ref().unwrap();
    assert_eq!(f.range.start(), d.range.start());
    assert_eq!(f.range.end(), d.range.end());
    assert_eq!(d.range.start(), 0);
    assert_eq!(d.range.end(), "στην".len());
}

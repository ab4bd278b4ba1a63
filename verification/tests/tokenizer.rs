use grs::tokenizer::{tokenize, TokenKind};

fn split(text: &str, expected: &[&str]) {
    let doc = tokenize(text);
    let received: Vec<String> = doc.tokens().iter().map(|t| t.text().to_string()).collect();
    let expected: Vec<String> = expected.iter().map(|s| s.to_string()).collect();
    assert_eq!(received, expected);
}

#[test]
fn test_splitting_ascii() {
    split("Hello world!  ", &["Hello", " ", "world", "!", "  "]);
}

#[test]
fn test_splitting_non_ascii_ws() {
    split("Hello\u{3000}world!", &["Hello", "\u{3000}", "world", "!"]);
}

#[test]
fn test_splitting_greek1() {
    split("Καλημέρα, κόσμε", &["Καλημέρα", ",", " ", "κόσμε"]);
    split("το: Φέγγαρι", &["το", ":", " ", "Φέγγαρι"]);
}

#[test]
fn test_splitting_greek2() {
    split("την «ξεκρέμασε", &["την", " ", "«", "ξεκρέμασε"]);
    split(
        " την  «   ξεκρέμασε ",
        &[" ", "την", "  ", "«", "   ", "ξεκρέμασε", " "],
    );
}

#[test]
fn test_splitting_newlone() {
    split("α\nβ", &["α", "\n", "β"]);
    split("α \nβ", &["α", " \n", "β"]);
    split("α\n β", &["α", "\n ", "β"]);
    split("α \n β", &["α", " \n ", "β"]);
}

#[test]
fn test_splitting_apostrophe() {
    split("όλ' αυτά", &["όλ", "'", " ", "αυτά"]);
    split("ἄρ᾽ Ἀθήνας", &["ἄρ", "᾽", " ", "Ἀθήνας"]);
}

#[test]
fn test_splitting_single_inner_punct() {
    split("σ'αυτόν", &["σ'αυτόν"]);
}

#[test]
fn test_splitting_double_inner_punct() {
    split("του|-πουλος", &["του|-πουλος"]);
}

#[test]
fn test_tokenization_text() {
    let variations = ["α 'β", "α ' β", "α' β"];
    for text in variations {
        let doc = tokenize(text);
        let filtered = doc
            .tokens()
            .iter()
            .filter(|t| t.kind() != TokenKind::Whitespace);
        let expected = ["α", "'", "β"];
        for (rec, exp) in filtered.zip(expected.iter()) {
            println!("'{}' '{:?}'", rec.text(), rec.range());
            assert_eq!(rec.text(), *exp);
        }
    }
}

#[test]
fn ascii_kinds_and_ranges() {
    let doc = tokenize("Hello world!  ");
    let tokens = doc.tokens();
    let expected_texts = ["Hello", " ", "world", "!", "  "];
    let expected_kinds = [
        TokenKind::Word,
        TokenKind::Whitespace,
        TokenKind::Word,
        TokenKind::Punctuation,
        TokenKind::Whitespace,
    ];
    let expected_ranges = [(0, 5), (5, 6), (6, 11), (11, 12), (12, 14)];
    assert_eq!(tokens.len(), 5);
    for k in 0..5 {
        assert_eq!(tokens[k].text(), expected_texts[k]);
        assert_eq!(tokens[k].kind(), expected_kinds[k]);
        assert_eq!(tokens[k].range().start(), expected_ranges[k].0);
        assert_eq!(tokens[k].range().end(), expected_ranges[k].1);
    }
}

#[test]
fn greek_classification() {
    let doc = tokenize("Καλημέρα, world");
    let tokens = doc.tokens();
    assert_eq!(tokens[0].kind(), TokenKind::GreekWord);
    assert_eq!(tokens[3].kind(), TokenKind::Word);
    // The elided inner-apostrophe form stays one Greek word.
    let doc2 = tokenize("σ'αυτόν");
    assert_eq!(doc2.tokens()[0].kind(), TokenKind::GreekWord);
}

#[test]
fn partition_reassembles_source() {
    let samples = [
        "Καλημέρα, κόσμε",
        " την  «   ξεκρέμασε ",
        "του|-πουλος",
        "2ος αιώνας",
        "",
        "   ",
        "α \n β!",
    ];
    for text in samples {
        let doc = tokenize(text);
        let mut rebuilt = String::new();
        let mut next_start = 0usize;
        for t in doc.tokens().iter() {
            assert_eq!(t.range().start(), next_start);
            next_start = t.range().end();
            rebuilt.push_str(t.text());
        }
        assert_eq!(next_start, text.len());
        assert_eq!(rebuilt, text);
    }
}

#[test]
fn digits_are_punctuation() {
    let doc = tokenize("2ος");
    let tokens = doc.tokens();
    assert_eq!(tokens.len(), 2);
    assert_eq!(tokens[0].text(), "2");
    assert_eq!(tokens[0].kind(), TokenKind::Punctuation);
    assert_eq!(tokens[1].text(), "ος");
    assert_eq!(tokens[1].kind(), TokenKind::GreekWord);
}

#[test]
fn doc_queries() {
    let doc = tokenize("του 20ού αιώνα");
    let tokens = doc.tokens();
    // Tokens: του, ws, 20, ού, ws, αιώνα.
    assert_eq!(tokens[3].text(), "ού");
    assert!(doc.previous_token_is_num(&tokens[3]));
    let next = doc.next_token_not_whitespace(&tokens[0]).unwrap();
    assert_eq!(next.text(), "20");
    let prev = doc.prev_token_not_whitespace(&tokens[3]).unwrap();
    assert_eq!(prev.text(), "20");
    let greek = doc.next_token_greek_word(&tokens[0]).unwrap();
    assert_eq!(greek.text(), "ού");
    let doc2 = tokenize("μέλ. Και άλλα.");
    assert!(doc2.is_abbreviation_or_ends_with_dot(&doc2.tokens()[0]));
    let doc3 = tokenize("μέλ και");
    assert!(!doc3.is_abbreviation_or_ends_with_dot(&doc3.tokens()[0]));
}

#[test]
fn token_context_window() {
    let doc = tokenize("α β\nγ");
    let ctx = doc.context(&doc.tokens()[2]);
    assert!(ctx.contains('α'));
    assert!(ctx.contains('γ'));
    assert!(!ctx.contains('\n'));
}

#[test]
fn abbreviation_needs_adjacent_punctuation() {
    // An apostrophe directly after the word marks an elision.
    let doc = tokenize("όλ' αυτά");
    assert!(doc.is_abbreviation_or_ends_with_dot(&doc.tokens()[0]));
    // With a space before the apostrophe it does not.
    let doc2 = tokenize("όλ ' αυτά");
    assert_eq!(doc2.tokens()[0].text(), "όλ");
    assert!(!doc2.is_abbreviation_or_ends_with_dot(&doc2.tokens()[0]));
}

//! The checker and the convergent fixer.
use vstd::prelude::*;

verus! {

use crate::chars::{blen, char_pos, is_boundary};
use vstd::multiset::Multiset;
use crate::diagnostic::{Diagnostic, Fix, diag_wf, fix_wf};
use vstd::string::{StrSliceExecFns, StringExecFns};
use crate::range::TextRange;
use crate::registry::{Rule, RULE_COUNT};
use crate::rules;
use crate::tokenizer::{Doc, Token, TokenKind, tokenize, token_at_ok};

/// Per-rule counts of applied fixes or reported diagnostics.
pub struct RuleCounter {
    counts: Vec<usize>,
}

impl RuleCounter {
    /// The counts, indexed by `Rule::index`.
    pub closed spec fn spec_counts(&self) -> Seq<usize> {
        self.counts@
    }

    /// A counter always holds one count per rule.
    pub open spec fn wf(&self) -> bool {
        self.spec_counts().len() == RULE_COUNT
    }

    /// A fresh counter, all zeroes.
    pub fn new() -> (r: Self)
        ensures
            r.wf(),
            forall|k: int| 0 <= k < RULE_COUNT ==> #[trigger] r.spec_counts()[k] == 0,
    {
        let mut counts: Vec<usize> = Vec::new();
        let mut k: usize = 0;
        while k < RULE_COUNT
            invariant
                k <= RULE_COUNT,
                counts@.len() == k,
                forall|j: int| 0 <= j < k ==> #[trigger] counts@[j] == 0,
            decreases RULE_COUNT - k,
        {
            counts.push(0);
            k += 1;
        }
        RuleCounter { counts }
    }

    /// Count one more occurrence of `rule` (saturating at the top).
    pub fn bump(&mut self, rule: Rule)
        requires
            old(self).wf(),
        ensures
            final(self).wf(),
            ({
                let before = old(self).spec_counts()[rule.spec_index() as int];
                let after = final(self).spec_counts()[rule.spec_index() as int];
                after == if before < usize::MAX {
                    (before + 1) as int
                } else {
                    before as int
                }
            }),
            forall|k: int|
                0 <= k < RULE_COUNT && k != rule.spec_index()
                    ==> #[trigger] final(self).spec_counts()[k] == old(self).spec_counts()[k],
    {
        let idx = rule.index();
        let c = self.counts[idx];
        if c < usize::MAX {
            self.counts.set(idx, c + 1);
        }
    }

    /// The count recorded for `rule`.
    pub fn get(&self, rule: Rule) -> (r: usize)
        requires
            self.wf(),
        ensures
            r == self.spec_counts()[rule.spec_index() as int],
    {
        self.counts[rule.index()]
    }
}

/// Whether the configuration names this rule.
pub fn config_contains(config: &Vec<Rule>, rule: Rule) -> (r: bool)
    ensures
        r == config@.contains(rule),
{
    let mut k: usize = 0;
    while k < config.len()
        invariant
            k <= config@.len(),
            forall|j: int| 0 <= j < k ==> config@[j] != rule,
        decreases config@.len() - k,
    {
        if config[k] == rule {
            return true;
        }
        k += 1;
    }
    false
}

/// Whether any configured rule needs the token sequence.
pub fn any_requires_tokenizing(config: &Vec<Rule>) -> (r: bool)
    ensures
        r == exists|q: int|
            0 <= q < config@.len() && (#[trigger] config@[q]).spec_requires_tokenizing(),
{
    let mut k: usize = 0;
    while k < config.len()
        invariant
            k <= config@.len(),
            forall|j: int| 0 <= j < k ==> !(#[trigger] config@[j]).spec_requires_tokenizing(),
        decreases config@.len() - k,
    {
        if config[k].requires_tokenizing() {
            return true;
        }
        k += 1;
    }
    false
}

/// Every diagnostic is well formed against the text and reported by a
/// configured rule.
pub open spec fn check_output_ok(ds: Seq<Diagnostic>, s: Seq<char>, config: Seq<Rule>) -> bool {
    forall|q: int|
        0 <= q < ds.len() ==> diag_wf(#[trigger] ds[q], s) && config.contains(ds[q].kind)
}

/// The diagnostics of the raw-text rules stand before those of the
/// token-context rules: once a token-context diagnostic appears, no
/// raw-text diagnostic follows.
pub open spec fn raw_before_token_diags(ds: Seq<Diagnostic>) -> bool {
    forall|i: int, j: int|
        0 <= i < j < ds.len() && (#[trigger] ds[i]).kind.spec_requires_tokenizing()
            ==> (#[trigger] ds[j]).kind.spec_requires_tokenizing()
}

/// Some diagnostic of the list reports `kind`.
pub open spec fn has_kind(ds: Seq<Diagnostic>, kind: Rule) -> bool {
    exists|q: int| 0 <= q < ds.len() && (#[trigger] ds[q]).kind == kind
}

/// Some diagnostic of the list reports `kind` and carries a fix.
pub open spec fn has_kind_fix(ds: Seq<Diagnostic>, kind: Rule) -> bool {
    exists|q: int| 0 <= q < ds.len() && (#[trigger] ds[q]).kind == kind && ds[q].fix is Some
}

/// A reported kind stays reported when the list only grows at the end.
proof fn lemma_has_kind_preserved(g0: Seq<Diagnostic>, now: Seq<Diagnostic>, kind: Rule)
    requires
        now.len() >= g0.len(),
        forall|q: int| 0 <= q < g0.len() ==> now[q] == #[trigger] g0[q],
        has_kind(g0, kind),
    ensures
        has_kind(now, kind),
{
    let q0 = choose|q: int| 0 <= q < g0.len() && (#[trigger] g0[q]).kind == kind;
    assert(now[q0].kind == kind);
}

/// A reported fix-carrying kind stays reported when the list only grows
/// at the end.
proof fn lemma_has_kind_fix_preserved(g0: Seq<Diagnostic>, now: Seq<Diagnostic>, kind: Rule)
    requires
        now.len() >= g0.len(),
        forall|q: int| 0 <= q < g0.len() ==> now[q] == #[trigger] g0[q],
        has_kind_fix(g0, kind),
    ensures
        has_kind_fix(now, kind),
{
    let q0 = choose|q: int|
        0 <= q < g0.len() && (#[trigger] g0[q]).kind == kind && g0[q].fix is Some;
    assert(now[q0].kind == kind && now[q0].fix is Some);
}

/// A kind reported by the grown list but absent from every new entry was
/// already reported before.
proof fn lemma_has_kind_source(g0: Seq<Diagnostic>, now: Seq<Diagnostic>, kind2: Rule)
    requires
        now.len() >= g0.len(),
        forall|q: int| 0 <= q < g0.len() ==> now[q] == #[trigger] g0[q],
        forall|q: int| g0.len() <= q < now.len() ==> (#[trigger] now[q]).kind != kind2,
        has_kind(now, kind2),
    ensures
        has_kind(g0, kind2),
{
    let q0 = choose|q: int| 0 <= q < now.len() && (#[trigger] now[q]).kind == kind2;
    assert(0 <= q0 < g0.len());
    assert(g0[q0].kind == kind2);
}

/// After one token-context rule ran, the diagnostics list is still a
/// valid check output: the old entries are untouched and the one new
/// entry, if any, is well formed, configured, and needs tokens.
proof fn lemma_ctx_push(
    g0: Seq<Diagnostic>,
    now: Seq<Diagnostic>,
    s: Seq<char>,
    config: Seq<Rule>,
    kind: Rule,
)
    requires
        check_output_ok(g0, s, config),
        forall|q: int| 0 <= q < g0.len() ==> (#[trigger] g0[q]).kind.spec_requires_tokenizing(),
        g0.len() <= now.len() <= g0.len() + 1,
        now.take(g0.len() as int) == g0,
        now.len() > g0.len() ==> diag_wf(now.last(), s) && now.last().kind == kind,
        config.contains(kind),
        kind.spec_requires_tokenizing(),
    ensures
        check_output_ok(now, s, config),
        forall|q: int| 0 <= q < now.len() ==> (#[trigger] now[q]).kind.spec_requires_tokenizing(),
        forall|q: int| 0 <= q < g0.len() ==> now[q] == #[trigger] g0[q],
{
    assert forall|q: int| 0 <= q < now.len() implies diag_wf(#[trigger] now[q], s)
        && config.contains(now[q].kind) && now[q].kind.spec_requires_tokenizing() by {
        if q < g0.len() {
            assert(now.take(g0.len() as int)[q] == now[q]);
            assert(g0[q] == now[q]);
        } else {
            assert(now[q] == now.last());
        }
    }
    assert forall|q: int| 0 <= q < g0.len() implies now[q] == #[trigger] g0[q] by {
        assert(now.take(g0.len() as int)[q] == now[q]);
    }
}

/// After one raw-text rule ran, the diagnostics list is still a valid
/// check output: the old entries are untouched and every new entry is
/// well formed, configured, and needs no tokens.
proof fn lemma_raw_push(
    g0: Seq<Diagnostic>,
    now: Seq<Diagnostic>,
    s: Seq<char>,
    config: Seq<Rule>,
    kind: Rule,
)
    requires
        check_output_ok(g0, s, config),
        forall|q: int| 0 <= q < g0.len() ==> !(#[trigger] g0[q]).kind.spec_requires_tokenizing(),
        g0.len() <= now.len(),
        now.take(g0.len() as int) == g0,
        forall|q: int|
            g0.len() <= q < now.len() ==> diag_wf(#[trigger] now[q], s) && now[q].kind == kind,
        config.contains(kind),
        !kind.spec_requires_tokenizing(),
    ensures
        check_output_ok(now, s, config),
        forall|q: int| 0 <= q < now.len() ==> !(#[trigger] now[q]).kind.spec_requires_tokenizing(),
        forall|q: int| 0 <= q < g0.len() ==> now[q] == #[trigger] g0[q],
{
    assert forall|q: int| 0 <= q < now.len() implies diag_wf(#[trigger] now[q], s)
        && config.contains(now[q].kind) && !now[q].kind.spec_requires_tokenizing() by {
        if q < g0.len() {
            assert(now.take(g0.len() as int)[q] == now[q]);
            assert(g0[q] == now[q]);
        }
    }
    assert forall|q: int| 0 <= q < g0.len() implies now[q] == #[trigger] g0[q] by {
        assert(now.take(g0.len() as int)[q] == now[q]);
    }
}

/// Run every configured token-context rule on one Greek word token.
/// Complete for the exactly specified rules: where their firing condition
/// holds, the returned list reports them.
#[verifier::rlimit(100)]
#[verifier::spinoff_prover]
fn check_token_with_context(token: &Token, doc: &Doc, config: &Vec<Rule>) -> (r: Vec<Diagnostic>)
    requires
        doc.wf(),
        doc.has_token(*token),
    ensures
        check_output_ok(r@, doc.spec_text(), config@),
        forall|q: int| 0 <= q < r@.len() ==> (#[trigger] r@[q]).kind.spec_requires_tokenizing(),
        config@.contains(Rule::DuplicatedWord) && rules::duplicated_here(doc, *token)
            ==> has_kind(r@, Rule::DuplicatedWord),
        config@.contains(Rule::AddFinalN) && rules::add_n_here(doc, *token) ==> has_kind_fix(
            r@,
            Rule::AddFinalN,
        ),
        config@.contains(Rule::RemoveFinalN) && rules::remove_n_here(doc, *token) ==> has_kind_fix(
            r@,
            Rule::RemoveFinalN,
        ),
{
    let mut diagnostics: Vec<Diagnostic> = Vec::new();
    if config_contains(config, Rule::MonosyllableAccented) {
        let ghost g0 = diagnostics@;
        rules::monosyllable_accented(token, doc, &mut diagnostics);
        proof {
            lemma_ctx_push(g0, diagnostics@, doc.spec_text(), config@, Rule::MonosyllableAccented);

        }
    }
    if config_contains(config, Rule::MissingAccentCapital) {
        let ghost g0 = diagnostics@;
        rules::missing_accent_capital(token, doc, &mut diagnostics);
        proof {
            lemma_ctx_push(g0, diagnostics@, doc.spec_text(), config@, Rule::MissingAccentCapital);

        }
    }
    if config_contains(config, Rule::MultisyllableNotAccented) {
        let ghost g0 = diagnostics@;
        rules::multisyllable_not_accented(token, doc, &mut diagnostics);
        proof {
            lemma_ctx_push(g0, diagnostics@, doc.spec_text(), config@, Rule::MultisyllableNotAccented);

        }
    }
    if config_contains(config, Rule::MissingDoubleAccents) {
        let ghost g0 = diagnostics@;
        rules::missing_double_accents(token, doc, &mut diagnostics);
        proof {
            lemma_ctx_push(g0, diagnostics@, doc.spec_text(), config@, Rule::MissingDoubleAccents);

        }
    }
    if config_contains(config, Rule::AddFinalN) {
        let ghost g0 = diagnostics@;
        rules::add_final_n(token, doc, &mut diagnostics);
        proof {
            lemma_ctx_push(g0, diagnostics@, doc.spec_text(), config@, Rule::AddFinalN);
            if rules::add_n_here(doc, *token) {
                assert(diagnostics@.len() == g0.len() + 1);
                assert(diagnostics@[diagnostics@.len() - 1] == diagnostics@.last());
                assert(has_kind_fix(diagnostics@, Rule::AddFinalN));
            }
        }
    }
    if config_contains(config, Rule::RemoveFinalN) {
        let ghost g0 = diagnostics@;
        rules::remove_final_n(token, doc, &mut diagnostics);
        proof {
            lemma_ctx_push(g0, diagnostics@, doc.spec_text(), config@, Rule::RemoveFinalN);
            if rules::remove_n_here(doc, *token) {
                assert(diagnostics@.len() == g0.len() + 1);
                assert(diagnostics@[diagnostics@.len() - 1] == diagnostics@.last());
                assert(has_kind_fix(diagnostics@, Rule::RemoveFinalN));
            }
            if config@.contains(Rule::AddFinalN) && rules::add_n_here(doc, *token) {
                lemma_has_kind_fix_preserved(g0, diagnostics@, Rule::AddFinalN);
            }
        }
    }
    if config_contains(config, Rule::DuplicatedWord) {
        let ghost g0 = diagnostics@;
        rules::duplicated_word(token, doc, &mut diagnostics);
        proof {
            lemma_ctx_push(g0, diagnostics@, doc.spec_text(), config@, Rule::DuplicatedWord);
            if rules::duplicated_here(doc, *token) {
                assert(diagnostics@.len() == g0.len() + 1);
                assert(diagnostics@[diagnostics@.len() - 1] == diagnostics@.last());
                assert(has_kind(diagnostics@, Rule::DuplicatedWord));
            }
            if config@.contains(Rule::AddFinalN) && rules::add_n_here(doc, *token) {
                lemma_has_kind_fix_preserved(g0, diagnostics@, Rule::AddFinalN);
            }
            if config@.contains(Rule::RemoveFinalN) && rules::remove_n_here(doc, *token) {
                lemma_has_kind_fix_preserved(g0, diagnostics@, Rule::RemoveFinalN);
            }
        }
    }
    if config_contains(config, Rule::ForbiddenAccent) {
        let ghost g0 = diagnostics@;
        rules::forbidden_accent(token, doc, &mut diagnostics);
        proof {
            lemma_ctx_push(g0, diagnostics@, doc.spec_text(), config@, Rule::ForbiddenAccent);
            if config@.contains(Rule::AddFinalN) && rules::add_n_here(doc, *token) {
                lemma_has_kind_fix_preserved(g0, diagnostics@, Rule::AddFinalN);
            }
            if config@.contains(Rule::RemoveFinalN) && rules::remove_n_here(doc, *token) {
                lemma_has_kind_fix_preserved(g0, diagnostics@, Rule::RemoveFinalN);
            }
            if config@.contains(Rule::DuplicatedWord) && rules::duplicated_here(doc, *token) {
                lemma_has_kind_preserved(g0, diagnostics@, Rule::DuplicatedWord);
            }
        }
    }
    if config_contains(config, Rule::ForbiddenDoubleAccent) {
        let ghost g0 = diagnostics@;
        rules::forbidden_double_accent(token, doc, &mut diagnostics);
        proof {
            lemma_ctx_push(g0, diagnostics@, doc.spec_text(), config@, Rule::ForbiddenDoubleAccent);
            if config@.contains(Rule::AddFinalN) && rules::add_n_here(doc, *token) {
                lemma_has_kind_fix_preserved(g0, diagnostics@, Rule::AddFinalN);
            }
            if config@.contains(Rule::RemoveFinalN) && rules::remove_n_here(doc, *token) {
                lemma_has_kind_fix_preserved(g0, diagnostics@, Rule::RemoveFinalN);
            }
            if config@.contains(Rule::DuplicatedWord) && rules::duplicated_here(doc, *token) {
                lemma_has_kind_preserved(g0, diagnostics@, Rule::DuplicatedWord);
            }
        }
    }
    if config_contains(config, Rule::Punctuation) {
        let ghost g0 = diagnostics@;
        rules::punctuation(token, doc, &mut diagnostics);
        proof {
            lemma_ctx_push(g0, diagnostics@, doc.spec_text(), config@, Rule::Punctuation);
            if config@.contains(Rule::AddFinalN) && rules::add_n_here(doc, *token) {
                lemma_has_kind_fix_preserved(g0, diagnostics@, Rule::AddFinalN);
            }
            if config@.contains(Rule::RemoveFinalN) && rules::remove_n_here(doc, *token) {
                lemma_has_kind_fix_preserved(g0, diagnostics@, Rule::RemoveFinalN);
            }
            if config@.contains(Rule::DuplicatedWord) && rules::duplicated_here(doc, *token) {
                lemma_has_kind_preserved(g0, diagnostics@, Rule::DuplicatedWord);
            }
        }
    }
    diagnostics
}

/// Run every configured raw-text rule against the untokenized text.
/// Complete and sound for the exactly specified rules: a configured
/// micro-sign or misplaced-sigma finding is reported precisely when its
/// condition holds in the text.
fn check_raw(text: &str, config: &Vec<Rule>) -> (r: Vec<Diagnostic>)
    ensures
        check_output_ok(r@, text@, config@),
        forall|q: int| 0 <= q < r@.len() ==> !(#[trigger] r@[q]).kind.spec_requires_tokenizing(),
        config@.len() == 0 ==> r@.len() == 0,
        text@.len() == 0 ==> r@.len() == 0,
        config@.contains(Rule::AmbiguousChar) && (exists|p: int|
            0 <= p < text@.len() && text@[p] == rules::spec_micro()) ==> has_kind_fix(
            r@,
            Rule::AmbiguousChar,
        ),
        has_kind(r@, Rule::AmbiguousChar) ==> exists|p: int|
            0 <= p < text@.len() && text@[p] == rules::spec_micro(),
        config@.contains(Rule::ForbiddenChar) && (exists|p: int|
            rules::forbidden_pair_at(text@, p)) ==> has_kind(r@, Rule::ForbiddenChar),
        has_kind(r@, Rule::ForbiddenChar) ==> exists|p: int| rules::forbidden_pair_at(text@, p),
{
    let mut diagnostics: Vec<Diagnostic> = Vec::new();
    if config_contains(config, Rule::OutdatedSpelling) {
        let ghost g0 = diagnostics@;
        rules::outdated_spelling(text, &mut diagnostics);
        proof {
            lemma_raw_push(g0, diagnostics@, text@, config@, Rule::OutdatedSpelling);
            if has_kind(diagnostics@, Rule::AmbiguousChar) {
                lemma_has_kind_source(g0, diagnostics@, Rule::AmbiguousChar);
            }
            if has_kind(diagnostics@, Rule::ForbiddenChar) {
                lemma_has_kind_source(g0, diagnostics@, Rule::ForbiddenChar);
            }
            if text@.len() == 0 && diagnostics@.len() > g0.len() {
                // An outdated-spelling finding names a non-empty pattern
                // occurring in the text, impossible when it is empty.
                rules::lemma_outdated_patterns_nonempty();
                assert(rules::outdated_diag_ok(diagnostics@[g0.len() as int], text@));
                assert(false);
            }
        }
    }
    if config_contains(config, Rule::AmbiguousChar) {
        let ghost g0 = diagnostics@;
        rules::ambiguous_char(text, &mut diagnostics);
        proof {
            lemma_raw_push(g0, diagnostics@, text@, config@, Rule::AmbiguousChar);
            if exists|p: int| 0 <= p < text@.len() && text@[p] == rules::spec_micro() {
                assert(diagnostics@.len() == g0.len() + 1);
                assert(diagnostics@[diagnostics@.len() - 1] == diagnostics@.last());
                assert(has_kind_fix(diagnostics@, Rule::AmbiguousChar));
            }
            if has_kind(diagnostics@, Rule::AmbiguousChar) && diagnostics@.len() == g0.len() {
                lemma_has_kind_source(g0, diagnostics@, Rule::AmbiguousChar);
            }
            if has_kind(diagnostics@, Rule::ForbiddenChar) {
                lemma_has_kind_source(g0, diagnostics@, Rule::ForbiddenChar);
            }
        }
    }
    if config_contains(config, Rule::ForbiddenChar) {
        let ghost g0 = diagnostics@;
        rules::forbidden_char(text, &mut diagnostics);
        proof {
            lemma_raw_push(g0, diagnostics@, text@, config@, Rule::ForbiddenChar);
            if exists|p: int| rules::forbidden_pair_at(text@, p) {
                assert(diagnostics@.len() > g0.len());
                assert(diagnostics@[g0.len() as int].kind == Rule::ForbiddenChar);
                assert(has_kind(diagnostics@, Rule::ForbiddenChar));
            }
            if config@.contains(Rule::AmbiguousChar) && (exists|p: int|
                0 <= p < text@.len() && text@[p] == rules::spec_micro()) {
                lemma_has_kind_fix_preserved(g0, diagnostics@, Rule::AmbiguousChar);
            }
            if has_kind(diagnostics@, Rule::AmbiguousChar) {
                lemma_has_kind_source(g0, diagnostics@, Rule::AmbiguousChar);
            }
            if has_kind(diagnostics@, Rule::ForbiddenChar) && !(exists|p: int|
                rules::forbidden_pair_at(text@, p)) {
                lemma_has_kind_source(g0, diagnostics@, Rule::ForbiddenChar);
                assert(false);
            }
        }
    }
    diagnostics
}

/// Completeness over the first `upto` tokens of a well-formed document,
/// for the token rules with exact firing conditions: wherever one of them
/// fires on a Greek word token, the list reports it (with a fix, for the
/// fixing rules).
pub open spec fn token_rules_complete_upto(
    ds: Seq<Diagnostic>,
    doc: Doc,
    config: Seq<Rule>,
    upto: int,
) -> bool {
    forall|t: int|
        0 <= t < upto && t < doc.spec_tokens().len() && (#[trigger] doc.spec_tokens()[
            t
        ]).spec_kind() == TokenKind::GreekWord ==> {
            let tok = doc.spec_tokens()[t];
            &&& (config.contains(Rule::DuplicatedWord) && rules::duplicated_here(&doc, tok)
                ==> has_kind(ds, Rule::DuplicatedWord))
            &&& (config.contains(Rule::AddFinalN) && rules::add_n_here(&doc, tok) ==> has_kind_fix(
                ds,
                Rule::AddFinalN,
            ))
            &&& (config.contains(Rule::RemoveFinalN) && rules::remove_n_here(&doc, tok)
                ==> has_kind_fix(ds, Rule::RemoveFinalN))
        }
}

/// Completeness over all tokens of a well-formed document.
pub open spec fn token_rules_complete(ds: Seq<Diagnostic>, doc: Doc, config: Seq<Rule>) -> bool {
    token_rules_complete_upto(ds, doc, config, doc.spec_tokens().len() as int)
}

/// Token-rule completeness survives appending diagnostics.
proof fn lemma_token_complete_grow(
    before: Seq<Diagnostic>,
    now: Seq<Diagnostic>,
    doc: Doc,
    config: Seq<Rule>,
    upto: int,
)
    requires
        now.len() >= before.len(),
        forall|q: int| 0 <= q < before.len() ==> now[q] == #[trigger] before[q],
        token_rules_complete_upto(before, doc, config, upto),
    ensures
        token_rules_complete_upto(now, doc, config, upto),
{
    assert forall|t: int|
        0 <= t < upto && t < doc.spec_tokens().len() && (#[trigger] doc.spec_tokens()[
            t
        ]).spec_kind() == TokenKind::GreekWord implies {
        let tok = doc.spec_tokens()[t];
        &&& (config.contains(Rule::DuplicatedWord) && rules::duplicated_here(&doc, tok)
            ==> has_kind(now, Rule::DuplicatedWord))
        &&& (config.contains(Rule::AddFinalN) && rules::add_n_here(&doc, tok) ==> has_kind_fix(
            now,
            Rule::AddFinalN,
        ))
        &&& (config.contains(Rule::RemoveFinalN) && rules::remove_n_here(&doc, tok)
            ==> has_kind_fix(now, Rule::RemoveFinalN))
    } by {
        let tok = doc.spec_tokens()[t];
        if config.contains(Rule::DuplicatedWord) && rules::duplicated_here(&doc, tok) {
            lemma_has_kind_preserved(before, now, Rule::DuplicatedWord);
        }
        if config.contains(Rule::AddFinalN) && rules::add_n_here(&doc, tok) {
            lemma_has_kind_fix_preserved(before, now, Rule::AddFinalN);
        }
        if config.contains(Rule::RemoveFinalN) && rules::remove_n_here(&doc, tok) {
            lemma_has_kind_fix_preserved(before, now, Rule::RemoveFinalN);
        }
    }
}

/// A kind reported in the appended part is reported in the whole.
proof fn lemma_has_kind_append(before: Seq<Diagnostic>, ex: Seq<Diagnostic>, kind: Rule)
    requires
        has_kind(ex, kind),
    ensures
        has_kind(before + ex, kind),
{
    let q0 = choose|q: int| 0 <= q < ex.len() && (#[trigger] ex[q]).kind == kind;
    assert((before + ex)[before.len() + q0].kind == kind);
}

/// A fix-carrying kind reported in the appended part is reported in the
/// whole.
proof fn lemma_has_kind_fix_append(before: Seq<Diagnostic>, ex: Seq<Diagnostic>, kind: Rule)
    requires
        has_kind_fix(ex, kind),
    ensures
        has_kind_fix(before + ex, kind),
{
    let q0 = choose|q: int|
        0 <= q < ex.len() && (#[trigger] ex[q]).kind == kind && ex[q].fix is Some;
    assert((before + ex)[before.len() + q0].kind == kind && (before + ex)[before.len()
        + q0].fix is Some);
}

/// Everything one call of the checker promises of its result: every
/// diagnostic is well formed and reported by a configured rule; raw-text
/// findings stand before token-context ones; an empty configuration or an
/// empty text yields nothing; a configured micro-sign or misplaced-sigma
/// finding is always reported; and the token rules with exact firing
/// conditions are complete over the tokens of a well-formed document of
/// the text.
pub open spec fn check_post(s: Seq<char>, config: Seq<Rule>, ds: Seq<Diagnostic>) -> bool {
    &&& check_output_ok(ds, s, config)
    &&& raw_before_token_diags(ds)
    &&& (config.len() == 0 ==> ds.len() == 0)
    &&& (s.len() == 0 ==> ds.len() == 0)
    &&& (config.contains(Rule::AmbiguousChar) && (exists|p: int|
        0 <= p < s.len() && s[p] == rules::spec_micro()) ==> has_kind_fix(ds, Rule::AmbiguousChar))
    &&& (has_kind(ds, Rule::AmbiguousChar) ==> exists|p: int|
        0 <= p < s.len() && s[p] == rules::spec_micro())
    &&& (config.contains(Rule::ForbiddenChar) && (exists|p: int| rules::forbidden_pair_at(s, p))
        ==> has_kind(ds, Rule::ForbiddenChar))
    &&& (has_kind(ds, Rule::ForbiddenChar) ==> exists|p: int| rules::forbidden_pair_at(s, p))
    &&& ((exists|q: int| 0 <= q < config.len() && (#[trigger] config[q]).spec_requires_tokenizing())
        ==> exists|d: Doc| (#[trigger] d.wf()) && d.spec_text() == s && token_rules_complete(
        ds,
        d,
        config,
    ))
}

/// Run every configured rule over one text snapshot and collect all
/// diagnostics: the raw-text rules first, then the token-context rules in
/// token order. When no configured rule needs tokens, the text is never
/// tokenized — the required short-circuit, since tokenization dominates
/// the cost on large inputs.
#[verifier::rlimit(60)]
pub fn check(text: &str, config: &Vec<Rule>) -> (r: Vec<Diagnostic>)
    ensures
        check_post(text@, config@, r@),
{
    let mut diagnostics = check_raw(text, config);
    let ghost m = diagnostics@.len() as int;
    // Early exit: no configured rule needs tokenizing.
    if !any_requires_tokenizing(config) {
        proof {
            assert(0 <= m <= diagnostics@.len());
        }
        return diagnostics;
    }
    let doc = tokenize(text);
    proof {
        if text@.len() == 0 && doc.spec_tokens().len() > 0 {
            assert(0 <= (doc.spec_spans()[0]).0 < doc.spec_spans()[0].1 <= text@.len());
        }
    }
    let tokens = doc.tokens();
    let n = tokens.len();
    let mut i: usize = 0;
    while i < n
        invariant
            doc.wf(),
            doc.spec_text() == text@,
            n == doc.spec_tokens().len(),
            i <= n,
            check_output_ok(diagnostics@, text@, config@),
            config@.len() > 0,
            text@.len() == 0 ==> n == 0,
            text@.len() == 0 ==> diagnostics@.len() == 0,
            0 <= m <= diagnostics@.len(),
            forall|q: int| 0 <= q < m ==> !(#[trigger] diagnostics@[q]).kind.spec_requires_tokenizing(),
            forall|q: int|
                m <= q < diagnostics@.len() ==> (#[trigger] diagnostics@[q]).kind.spec_requires_tokenizing(),
            config@.contains(Rule::AmbiguousChar) && (exists|p: int|
                0 <= p < text@.len() && text@[p] == rules::spec_micro()) ==> has_kind_fix(
                diagnostics@,
                Rule::AmbiguousChar,
            ),
            config@.contains(Rule::ForbiddenChar) && (exists|p: int|
                rules::forbidden_pair_at(text@, p)) ==> has_kind(diagnostics@, Rule::ForbiddenChar),
            has_kind(diagnostics@, Rule::AmbiguousChar) ==> exists|p: int|
                0 <= p < text@.len() && text@[p] == rules::spec_micro(),
            has_kind(diagnostics@, Rule::ForbiddenChar) ==> exists|p: int|
                rules::forbidden_pair_at(text@, p),
            token_rules_complete_upto(diagnostics@, doc, config@, i as int),
        decreases n - i,
    {
        let token = &doc.tokens()[i];
        proof {
            assert(token_at_ok(
                doc.spec_tokens()[i as int],
                doc.spec_spans()[i as int],
                doc.spec_text(),
                i as int,
            ));
        }
        if token.is_whitespace() || token.is_punctuation() {
            // No rules concern these two.
            proof {
                lemma_token_complete_grow(diagnostics@, diagnostics@, doc, config@, i as int);
            }
        } else if token.is_greek_word() {
            let mut extra = check_token_with_context(token, &doc, config);
            let ghost before = diagnostics@;
            let ghost ex = extra@;
            diagnostics.append(&mut extra);
            proof {
                assert(diagnostics@ == before + ex);
                assert forall|q: int|
                    0 <= q < diagnostics@.len() implies diag_wf(#[trigger] diagnostics@[q], text@)
                    && config@.contains(diagnostics@[q].kind) && (q >= m
                    ==> diagnostics@[q].kind.spec_requires_tokenizing()) && (q < m
                    ==> !diagnostics@[q].kind.spec_requires_tokenizing()) by {
                    if q < before.len() {
                        assert(diagnostics@[q] == before[q]);
                    } else {
                        assert(diagnostics@[q] == ex[q - before.len()]);
                    }
                }
                if config@.contains(Rule::AmbiguousChar) && (exists|p: int|
                    0 <= p < text@.len() && text@[p] == rules::spec_micro()) {
                    lemma_has_kind_fix_preserved(before, diagnostics@, Rule::AmbiguousChar);
                }
                if config@.contains(Rule::ForbiddenChar) && (exists|p: int|
                    rules::forbidden_pair_at(text@, p)) {
                    lemma_has_kind_preserved(before, diagnostics@, Rule::ForbiddenChar);
                }
                assert forall|q: int|
                    before.len() <= q < diagnostics@.len() implies (#[trigger] diagnostics@[q]).kind
                    != Rule::AmbiguousChar && diagnostics@[q].kind != Rule::ForbiddenChar by {
                    assert(diagnostics@[q] == ex[q - before.len()]);
                    assert(diagnostics@[q].kind.spec_requires_tokenizing());
                }
                if has_kind(diagnostics@, Rule::AmbiguousChar) {
                    lemma_has_kind_source(before, diagnostics@, Rule::AmbiguousChar);
                }
                if has_kind(diagnostics@, Rule::ForbiddenChar) {
                    lemma_has_kind_source(before, diagnostics@, Rule::ForbiddenChar);
                }
                lemma_token_complete_grow(before, diagnostics@, doc, config@, i as int);
                let tok = doc.spec_tokens()[i as int];
                if config@.contains(Rule::DuplicatedWord) && rules::duplicated_here(&doc, tok) {
                    lemma_has_kind_append(before, ex, Rule::DuplicatedWord);
                }
                if config@.contains(Rule::AddFinalN) && rules::add_n_here(&doc, tok) {
                    lemma_has_kind_fix_append(before, ex, Rule::AddFinalN);
                }
                if config@.contains(Rule::RemoveFinalN) && rules::remove_n_here(&doc, tok) {
                    lemma_has_kind_fix_append(before, ex, Rule::RemoveFinalN);
                }
                assert(token_rules_complete_upto(diagnostics@, doc, config@, i + 1));
            }
        } else {
            // A non-Greek word: only the mixed-script repair applies.
            if config_contains(config, Rule::MixedScripts) {
                let ghost g0 = diagnostics@;
                rules::mixed_scripts(token, &doc, &mut diagnostics);
                proof {
                    assert forall|q: int|
                        0 <= q < diagnostics@.len() implies diag_wf(
                        #[trigger] diagnostics@[q],
                        text@,
                    ) && config@.contains(diagnostics@[q].kind) && (q >= m
                        ==> diagnostics@[q].kind.spec_requires_tokenizing()) && (q < m
                        ==> !diagnostics@[q].kind.spec_requires_tokenizing()) by {
                        if q < g0.len() {
                            assert(diagnostics@.take(g0.len() as int)[q] == diagnostics@[q]);
                            assert(g0[q] == diagnostics@[q]);
                        } else if q == diagnostics@.len() - 1 && g0.len() < diagnostics@.len() {
                            assert(diagnostics@[q] == diagnostics@.last());
                        }
                    }
                    assert forall|q: int| 0 <= q < g0.len() implies diagnostics@[q] == #[trigger] g0[q] by {
                        assert(diagnostics@.take(g0.len() as int)[q] == diagnostics@[q]);
                    }
                    if config@.contains(Rule::AmbiguousChar) && (exists|p: int|
                        0 <= p < text@.len() && text@[p] == rules::spec_micro()) {
                        lemma_has_kind_fix_preserved(g0, diagnostics@, Rule::AmbiguousChar);
                    }
                    if config@.contains(Rule::ForbiddenChar) && (exists|p: int|
                        rules::forbidden_pair_at(text@, p)) {
                        lemma_has_kind_preserved(g0, diagnostics@, Rule::ForbiddenChar);
                    }
                    assert forall|q: int|
                        g0.len() <= q < diagnostics@.len() implies (#[trigger] diagnostics@[
                        q
                    ]).kind != Rule::AmbiguousChar && diagnostics@[q].kind != Rule::ForbiddenChar by {
                        assert(diagnostics@[q] == diagnostics@.last());
                        assert(diagnostics@[q].kind == Rule::MixedScripts);
                    }
                    if has_kind(diagnostics@, Rule::AmbiguousChar) {
                        lemma_has_kind_source(g0, diagnostics@, Rule::AmbiguousChar);
                    }
                    if has_kind(diagnostics@, Rule::ForbiddenChar) {
                        lemma_has_kind_source(g0, diagnostics@, Rule::ForbiddenChar);
                    }
                    lemma_token_complete_grow(g0, diagnostics@, doc, config@, i as int);
                }
            } else {
                proof {
                    lemma_token_complete_grow(diagnostics@, diagnostics@, doc, config@, i as int);
                }
            }
        }
        i += 1;
    }
    proof {
        assert(doc.wf() && doc.spec_text() == text@ && token_rules_complete(
            diagnostics@,
            doc,
            config@,
        ));
        assert(exists|d: Doc| (#[trigger] d.wf()) && d.spec_text() == text@
            && token_rules_complete(diagnostics@, d, config@));
    }
    diagnostics
}

/// The application order of two fixes: any duplicated-word fix first,
/// then ascending start position.
pub open spec fn fix_le(a: (Rule, Fix), b: (Rule, Fix)) -> bool {
    if a.0 == Rule::DuplicatedWord && b.0 != Rule::DuplicatedWord {
        true
    } else if b.0 == Rule::DuplicatedWord && a.0 != Rule::DuplicatedWord {
        false
    } else {
        a.1.range.spec_start() <= b.1.range.spec_start()
    }
}

/// Whether two fixes are ordered by [`fix_le`].
fn fix_le_exec(a: &(Rule, Fix), b: &(Rule, Fix)) -> (r: bool)
    ensures
        r == fix_le(*a, *b),
{
    let a_dup = a.0 == Rule::DuplicatedWord;
    let b_dup = b.0 == Rule::DuplicatedWord;
    if a_dup && !b_dup {
        true
    } else if b_dup && !a_dup {
        false
    } else {
        a.1.range.start() <= b.1.range.start()
    }
}

/// Sort the fixes for application: duplicated-word fixes first, then
/// ascending start position; insertion keeps equal fixes in their
/// original order. The result is a permutation of the input.
fn sort_fixes(v: Vec<(Rule, Fix)>) -> (r: Vec<(Rule, Fix)>)
    ensures
        r@.len() == v@.len(),
        r@.to_multiset() == v@.to_multiset(),
        forall|k: int| 0 <= k < r@.len() - 1 ==> fix_le(#[trigger] r@[k], r@[k + 1]),
{
    broadcast use vstd::seq_lib::group_to_multiset_ensures;

    let mut out: Vec<(Rule, Fix)> = Vec::new();
    let mut i: usize = 0;
    proof {
        assert(v@.take(0) =~= Seq::<(Rule, Fix)>::empty());
        assert(Seq::<(Rule, Fix)>::empty().to_multiset() =~= Multiset::<(Rule, Fix)>::empty());
    }
    while i < v.len()
        invariant
            i <= v@.len(),
            out@.len() == i,
            out@.to_multiset() == v@.take(i as int).to_multiset(),
            forall|k: int| 0 <= k < out@.len() - 1 ==> fix_le(#[trigger] out@[k], out@[k + 1]),
        decreases v@.len() - i,
    {
        let x = (v[i].0, Fix { replacement: v[i].1.replacement.clone(), range: v[i].1.range });
        proof {
            assert(x == v@[i as int]);
        }
        let mut p: usize = 0;
        while p < out.len() && fix_le_exec(&out[p], &x)
            invariant
                p <= out@.len(),
                forall|k: int| 0 <= k < p ==> fix_le(#[trigger] out@[k], x),
            decreases out@.len() - p,
        {
            p += 1;
        }
        let ghost out0 = out@;
        out.insert(p, x);
        proof {
            out0.insert_ensures(p as int, x);
            assert forall|k: int| 0 <= k < out@.len() - 1 implies fix_le(
                #[trigger] out@[k],
                out@[k + 1],
            ) by {
                if k + 1 < p {
                    assert(out@[k] == out0[k] && out@[k + 1] == out0[k + 1]);
                } else if k + 1 == p {
                    assert(out@[k] == out0[k] && out@[k + 1] == x);
                } else if k == p {
                    assert(out@[k] == x && out@[k + 1] == out0[k]);
                    assert(!fix_le(out0[k], x));
                } else {
                    assert(out@[k] == out0[k - 1] && out@[k + 1] == out0[k]);
                }
            }
            assert(out@ =~= out0.take(p as int).push(x) + out0.skip(p as int));
            vstd::seq_lib::lemma_multiset_commutative(out0.take(p as int).push(x), out0.skip(p as int));
            vstd::seq_lib::lemma_multiset_commutative(out0.take(p as int), out0.skip(p as int));
            assert(out0.take(p as int) + out0.skip(p as int) =~= out0);
            out0.take(p as int).to_multiset_ensures();
            assert(out0.take(p as int).push(x).to_multiset() =~= out0.take(
                p as int,
            ).to_multiset().insert(x));
            assert(v@.take(i + 1) =~= v@.take(i as int).push(v@[i as int]));
            v@.take(i as int).to_multiset_ensures();
            assert(v@.take(i as int).push(v@[i as int]).to_multiset() =~= v@.take(
                i as int,
            ).to_multiset().insert(v@[i as int]));
            assert(out@.to_multiset() =~= v@.take(i + 1).to_multiset());
        }
        i += 1;
    }
    proof {
        assert(v@.take(v@.len() as int) =~= v@);
    }
    out
}

/// What one pass of fix application produces, from character position
/// `from` on: each fix in turn is discarded when it starts before the
/// bytes already written, and otherwise contributes the untouched span
/// before it and its replacement.
pub open spec fn apply_text_model(s: Seq<char>, fixes: Seq<(Rule, Fix)>, from: int) -> Seq<char>
    decreases fixes.len(),
{
    if fixes.len() == 0 {
        s.skip(from)
    } else {
        let f = fixes[0].1;
        let bs = f.range.spec_start() as int;
        let be = f.range.spec_end() as int;
        if bs < blen(s.take(from)) {
            apply_text_model(s, fixes.drop_first(), from)
        } else {
            s.subrange(from, char_pos(s, bs)) + f.replacement@ + apply_text_model(
                s,
                fixes.drop_first(),
                char_pos(s, be),
            )
        }
    }
}

/// The rules of the fixes that one pass applies, in application order.
pub open spec fn applied_rules_model(s: Seq<char>, fixes: Seq<(Rule, Fix)>, from: int) -> Seq<Rule>
    decreases fixes.len(),
{
    if fixes.len() == 0 {
        Seq::empty()
    } else {
        let f = fixes[0].1;
        let bs = f.range.spec_start() as int;
        let be = f.range.spec_end() as int;
        if bs < blen(s.take(from)) {
            applied_rules_model(s, fixes.drop_first(), from)
        } else {
            seq![fixes[0].0] + applied_rules_model(s, fixes.drop_first(), char_pos(s, be))
        }
    }
}

/// Two prefixes with the same byte length are the same prefix.
proof fn lemma_blen_inj(s: Seq<char>, i: int, j: int)
    requires
        0 <= i <= s.len(),
        0 <= j <= s.len(),
        blen(s.take(i)) == blen(s.take(j)),
    ensures
        i == j,
{
    if i < j {
        crate::chars::lemma_blen_strict_mono(s, i, j);
    }
    if j < i {
        crate::chars::lemma_blen_strict_mono(s, j, i);
    }
}

/// The character position of the boundary at the byte length of a given
/// prefix is that prefix's length.
proof fn lemma_char_pos_of(s: Seq<char>, j: int)
    requires
        0 <= j <= s.len(),
    ensures
        char_pos(s, blen(s.take(j)) as int) == j,
{
    let b = blen(s.take(j)) as int;
    assert(is_boundary(s, b)) by {
        assert(0 <= j <= s.len() && blen(s.take(j)) == b);
    }
    let p = char_pos(s, b);
    assert(0 <= p <= s.len() && blen(s.take(p)) == b);
    lemma_blen_inj(s, p, j);
}

/// Move the character cursor forward to the boundary at byte position
/// `b`.
fn seek_boundary(offs: &Vec<usize>, ci: usize, b: usize, Ghost(s): Ghost<Seq<char>>) -> (r: usize)
    requires
        offs@.len() == s.len() + 1,
        forall|k: int| 0 <= k <= s.len() ==> #[trigger] offs@[k] == blen(s.take(k)),
        ci <= s.len(),
        offs@[ci as int] <= b,
        is_boundary(s, b as int),
    ensures
        ci <= r <= s.len(),
        offs@[r as int] == b,
        blen(s.take(r as int)) == b,
{
    let ghost j0 = char_pos(s, b as int);
    proof {
        assert(0 <= j0 <= s.len() && blen(s.take(j0)) == b as int);
        if (ci as int) > j0 {
            crate::chars::lemma_blen_strict_mono(s, j0, ci as int);
        }
    }
    let m = offs.len();
    let mut cur = ci;
    while offs[cur] != b
        invariant
            m == offs@.len(),
            cur < m,
            offs@.len() == s.len() + 1,
            forall|k: int| 0 <= k <= s.len() ==> #[trigger] offs@[k] == blen(s.take(k)),
            0 <= j0 <= s.len(),
            blen(s.take(j0)) == b as int,
            ci <= cur <= j0,
        decreases j0 - cur,
    {
        proof {
            if (cur as int) == j0 {
                assert(offs@[cur as int] == b);
            }
            assert((cur as int) < j0);
        }
        cur += 1;
    }
    cur
}

/// Apply one sorted list of fixes to the text, left to right, discarding
/// any fix that overlaps one already applied. Returns the settled head
/// (everything up to and including the first replacement, which later
/// passes never rescan), the rewritten tail, and the rules applied, in
/// order. Head and tail together are exactly one pass of the model.
#[verifier::rlimit(100)]
pub fn apply_fixes(text: &str, fixes: &Vec<(Rule, Fix)>) -> (r: (String, String, Vec<Rule>))
    requires
        forall|q: int| 0 <= q < fixes@.len() ==> fix_wf((#[trigger] fixes@[q]).1, text@),
    ensures
        r.0@ + r.1@ == apply_text_model(text@, fixes@, 0),
        r.2@ == applied_rules_model(text@, fixes@, 0),
        fixes@.len() == 0 ==> r.0@.len() == 0 && r.1@ == text@,
        fixes@.len() > 0 ==> r.2@.len() >= 1,
        fixes@.len() > 0 ==> r.0@ == text@.subrange(
            0,
            char_pos(text@, fixes@[0].1.range.spec_start() as int),
        ) + fixes@[0].1.replacement@,
{
    let s_ghost: Ghost<Seq<char>> = Ghost(text@);
    if fixes.len() == 0 {
        let head = String::new();
        let tail = text.to_owned();
        proof {
            assert(apply_text_model(text@, fixes@, 0) =~= text@);
            assert(head@ + tail@ =~= text@);
        }
        return (head, tail, Vec::new());
    }
    let total = crate::chars::byte_len(text);
    let chars = crate::chars::str_to_chars(text);
    let offs = crate::chars::byte_offsets(&chars);
    let n = chars.len();
    let mut head = String::new();
    let mut scratch = String::new();
    let mut applied: Vec<Rule> = Vec::new();
    let mut ci: usize = 0;
    let mut fi: usize = 0;
    proof {
        assert(text@.take(0) =~= Seq::<char>::empty());
        assert(vstd::utf8::encode_utf8(Seq::<char>::empty()) =~= Seq::<u8>::empty());
        assert(blen(text@.take(0)) == 0);
        assert(fixes@.skip(0) =~= fixes@);
        assert(head@ + scratch@ =~= Seq::<char>::empty());
        assert(head@ + scratch@ + apply_text_model(text@, fixes@, 0) =~= apply_text_model(
            text@,
            fixes@,
            0,
        ));
        assert(applied@ + applied_rules_model(text@, fixes@, 0) =~= applied_rules_model(
            text@,
            fixes@,
            0,
        ));
    }
    while fi < fixes.len()
        invariant
            n == chars@.len(),
            chars@ == text@,
            blen(text@) <= usize::MAX,
            offs@.len() == n + 1,
            forall|k: int| 0 <= k <= n ==> #[trigger] offs@[k] == blen(text@.take(k)),
            forall|q: int| 0 <= q < fixes@.len() ==> fix_wf((#[trigger] fixes@[q]).1, text@),
            fi <= fixes@.len(),
            ci <= n,
            blen(text@.take(0)) == 0,
            head@ + scratch@ + apply_text_model(text@, fixes@.skip(fi as int), ci as int)
                == apply_text_model(text@, fixes@, 0),
            applied@ + applied_rules_model(text@, fixes@.skip(fi as int), ci as int)
                == applied_rules_model(text@, fixes@, 0),
            fi > 0 ==> applied@.len() >= 1,
            fi == 0 ==> ci == 0 && applied@.len() == 0 && head@.len() == 0 && scratch@.len() == 0,
            fi > 0 ==> head@ == text@.subrange(
                0,
                char_pos(text@, fixes@[0].1.range.spec_start() as int),
            ) + fixes@[0].1.replacement@,
        decreases fixes@.len() - fi,
    {
        let a = fixes[fi].1.range.start();
        let b = fixes[fi].1.range.end();
        let ghost rest = fixes@.skip(fi as int);
        proof {
            assert(rest[0] == fixes@[fi as int]);
            assert(rest.drop_first() =~= fixes@.skip(fi + 1));
        }
        if a < offs[ci] {
            // Overlaps a fix already applied this pass: discarded, to be
            // re-derived next pass against the new text.
            proof {
                assert(apply_text_model(text@, rest, ci as int) == apply_text_model(
                    text@,
                    fixes@.skip(fi + 1),
                    ci as int,
                ));
                assert(applied_rules_model(text@, rest, ci as int) == applied_rules_model(
                    text@,
                    fixes@.skip(fi + 1),
                    ci as int,
                ));
            }
            fi += 1;
            continue ;
        }
        // The fix range sits on character boundaries at or after the
        // cursor: copy the untouched span, then the replacement.
        let pa = seek_boundary(&offs, ci, a, Ghost(text@));
        proof {
            lemma_char_pos_of(text@, pa as int);
        }
        let pre = text.substring_char(ci, pa);
        let ghost head0 = head@;
        let ghost scratch0 = scratch@;
        if fi == 0 {
            head.append(pre);
            head.append(fixes[fi].1.replacement.as_str());
        } else {
            scratch.append(pre);
            scratch.append(fixes[fi].1.replacement.as_str());
        }
        let pb = seek_boundary(&offs, pa, b, Ghost(text@));
        proof {
            lemma_char_pos_of(text@, pb as int);
        }
        let ghost applied0 = applied@;
        applied.push(fixes[fi].0);
        proof {
            let ghost ci0 = ci as int;
            let f = fixes@[fi as int].1;
            assert(char_pos(text@, f.range.spec_start() as int) == pa as int);
            assert(char_pos(text@, f.range.spec_end() as int) == pb as int);
            assert(!(f.range.spec_start() < blen(text@.take(ci0))));
            assert(rest.drop_first() =~= fixes@.skip(fi + 1));
            assert(apply_text_model(text@, rest, ci0) =~= text@.subrange(ci0, pa as int)
                + f.replacement@ + apply_text_model(text@, fixes@.skip(fi + 1), pb as int));
            assert(applied_rules_model(text@, rest, ci0) =~= seq![fixes@[fi as int].0]
                + applied_rules_model(text@, fixes@.skip(fi + 1), pb as int));
            if fi == 0 {
                assert(scratch0 =~= Seq::<char>::empty());
                assert(head0 =~= Seq::<char>::empty());
                assert(head@ =~= head0 + text@.subrange(ci0, pa as int) + f.replacement@);
                assert(head@ + scratch@ + apply_text_model(text@, fixes@.skip(fi + 1), pb as int)
                    =~= head0 + scratch0 + apply_text_model(text@, rest, ci0));
            } else {
                assert(head@ + scratch@ + apply_text_model(text@, fixes@.skip(fi + 1), pb as int)
                    =~= head0 + scratch0 + apply_text_model(text@, rest, ci0));
            }
            assert(applied@ + applied_rules_model(text@, fixes@.skip(fi + 1), pb as int)
                =~= applied0 + applied_rules_model(text@, rest, ci0));
        }
        ci = pb;
        fi += 1;
    }
    let tail_piece = text.substring_char(ci, n);
    scratch.append(tail_piece);
    proof {
        assert(fixes@.skip(fixes@.len() as int) =~= Seq::<(Rule, Fix)>::empty());
        assert(apply_text_model(text@, fixes@.skip(fixes@.len() as int), ci as int) =~= text@.skip(
            ci as int,
        ));
        assert(head@ + scratch@ =~= apply_text_model(text@, fixes@, 0));
        assert(applied@ + Seq::<Rule>::empty() =~= applied@);
    }
    (head, scratch, applied)
}


/// Where the context window before `p` opens: right after the nearest
/// period or newline, or right after the space that would be the sixth
/// counting backwards from `p`, or at the start of the text.
pub open spec fn spec_ctx_start(s: Seq<char>, p: int, spaces: int) -> int
    decreases p,
{
    if p <= 0 {
        0
    } else if s[p - 1] == '.' || s[p - 1] == '\n' {
        p
    } else if s[p - 1] == ' ' && spaces + 1 > 5 {
        p
    } else {
        spec_ctx_start(s, p - 1, if s[p - 1] == ' ' { spaces + 1 } else { spaces })
    }
}

/// Where the context window from `p` on closes: right after the nearest
/// period or newline, or right after the sixth space, or at the end of
/// the text.
pub open spec fn spec_ctx_end(s: Seq<char>, p: int, spaces: int) -> int
    decreases s.len() - p,
{
    if p < 0 || p >= s.len() {
        s.len() as int
    } else if s[p] == '.' || s[p] == '\n' {
        p + 1
    } else if s[p] == ' ' && spaces + 1 > 5 {
        p + 1
    } else {
        spec_ctx_end(s, p + 1, if s[p] == ' ' { spaces + 1 } else { spaces })
    }
}

/// The opening of the context window before character `from`.
pub fn context_start(chars: &Vec<char>, from: usize) -> (r: usize)
    requires
        from <= chars@.len(),
    ensures
        r == spec_ctx_start(chars@, from as int, 0),
        r <= from,
{
    let mut p = from;
    let mut spaces: usize = 0;
    loop
        invariant
            p <= from <= chars@.len(),
            spaces <= 5,
            spec_ctx_start(chars@, from as int, 0) == spec_ctx_start(chars@, p as int, spaces as int),
        ensures
            p <= from,
            p == spec_ctx_start(chars@, from as int, 0),
        decreases p,
    {
        if p == 0 {
            break ;
        }
        let c = chars[p - 1];
        if c == '.' || c == '\n' {
            break ;
        }
        if c == ' ' {
            if spaces + 1 > 5 {
                break ;
            }
            spaces += 1;
        }
        p -= 1;
    }
    p
}

/// The close of the context window from character `from` on.
pub fn context_end(chars: &Vec<char>, from: usize) -> (r: usize)
    requires
        from <= chars@.len(),
    ensures
        r == spec_ctx_end(chars@, from as int, 0),
        from <= r <= chars@.len(),
{
    let n = chars.len();
    let mut p = from;
    let mut spaces: usize = 0;
    let mut result = n;
    loop
        invariant
            from <= p <= n,
            n == chars@.len(),
            spaces <= 5,
            spec_ctx_end(chars@, from as int, 0) == spec_ctx_end(chars@, p as int, spaces as int),
        ensures
            from <= result <= n,
            result == spec_ctx_end(chars@, from as int, 0),
        decreases n - p,
    {
        if p >= n {
            result = n;
            break ;
        }
        let c = chars[p];
        if c == '.' || c == '\n' {
            result = p + 1;
            break ;
        }
        if c == ' ' {
            if spaces + 1 > 5 {
                result = p + 1;
                break ;
            }
            spaces += 1;
        }
        p += 1;
    }
    result
}

/// Sentence context around a byte range, for display: the window runs to
/// the nearest sentence break on either side (at most five spaces away),
/// with the range itself painted red, an ellipsis marking a cut, and the
/// whole message trimmed.
pub fn get_context_message(text: &str, range: &TextRange) -> (r: String)
    requires
        range.wf(),
        range.spec_end() <= blen(text@),
        is_boundary(text@, range.spec_start() as int),
        is_boundary(text@, range.spec_end() as int),
{
    let total = crate::chars::byte_len(text);
    let chars = crate::chars::str_to_chars(text);
    let offs = crate::chars::byte_offsets(&chars);
    let n = chars.len();
    proof {
        assert(text@.take(0) =~= Seq::<char>::empty());
        assert(vstd::utf8::encode_utf8(Seq::<char>::empty()) =~= Seq::<u8>::empty());
    }
    let cs = seek_boundary(&offs, 0, range.start(), Ghost(text@));
    let ce = seek_boundary(&offs, cs, range.end(), Ghost(text@));
    let ctx_start = context_start(&chars, cs);
    let ctx_end = context_end(&chars, ce);
    // A window edge that stopped at a space was cut short: mark it.
    let ell_start = ctx_start > 0 && chars[ctx_start - 1] == ' ';
    let ell_end = ctx_end > 0 && ctx_end < n && chars[ctx_end - 1] == ' ';
    let mut msg = String::new();
    if ell_start {
        msg.append("[\u{2026}] ");
    }
    msg.append(text.substring_char(ctx_start, cs));
    let highlighted = crate::paint::paint_red(text.substring_char(cs, ce));
    msg.append(highlighted.as_str());
    msg.append(text.substring_char(ce, ctx_end));
    if ell_end {
        msg.append("[\u{2026}] ");
    }
    trim_str(msg.as_str())
}

/// The string with leading and trailing whitespace dropped.
pub fn trim_str(s: &str) -> (r: String)
    ensures
        r@.len() <= s@.len(),
{
    let chars = crate::chars::str_to_chars(s);
    let n = chars.len();
    let mut a: usize = 0;
    while a < n && crate::chars::is_whitespace_char(chars[a])
        invariant
            a <= n,
            n == chars@.len(),
        decreases n - a,
    {
        a += 1;
    }
    let mut b: usize = n;
    while b > a && crate::chars::is_whitespace_char(chars[b - 1])
        invariant
            a <= b <= n,
            n == chars@.len(),
        decreases b,
    {
        b -= 1;
    }
    proof {
        assert(chars@ == s@);
    }
    text_slice(s, a, b)
}

/// The characters of `s` between `a` and `b`, as an owned string.
fn text_slice(s: &str, a: usize, b: usize) -> (r: String)
    requires
        a <= b <= s@.len(),
    ensures
        r@ == s@.subrange(a as int, b as int),
{
    s.substring_char(a, b).to_owned()
}

/// One display line for a diagnostic: its rule code, a fixable marker,
/// and the sentence context with the range painted.
pub fn get_rich_context_message(text: &str, range: &TextRange, rule: Rule) -> (r: String)
    requires
        range.wf(),
        range.spec_end() <= blen(text@),
        is_boundary(text@, range.spec_start() as int),
        is_boundary(text@, range.spec_end() as int),
{
    let ctx = get_context_message(text, range);
    let code = crate::registry::rule_to_code(rule);
    let code_len = crate::chars::str_to_chars(code.as_str()).len();
    let mut msg = crate::paint::paint_cyan(code.as_str());
    let mut pad = code_len;
    while pad < 3
        decreases 3 - pad,
    {
        msg.append(" ");
        pad += 1;
    }
    msg.append(": ");
    if rule.has_fix() {
        msg.append("[");
        let star = crate::paint::paint_cyan("*");
        msg.append(star.as_str());
        msg.append("]");
    } else {
        msg.append("   ");
    }
    msg.append(" ");
    msg.append(ctx.as_str());
    msg
}

/// The fix-carrying diagnostics of a list, as rule-and-fix pairs, in
/// order.
pub open spec fn fixes_of(ds: Seq<Diagnostic>) -> Seq<(Rule, Fix)>
    decreases ds.len(),
{
    if ds.len() == 0 {
        Seq::empty()
    } else {
        (match ds[0].fix {
            Some(f) => seq![(ds[0].kind, f)],
            None => Seq::empty(),
        }) + fixes_of(ds.drop_first())
    }
}

/// Every fix-carrying pair of a valid check output names a configured
/// rule that can fix — so the fixer's counter only ever counts those.
pub proof fn lemma_fixes_of_kinds(ds: Seq<Diagnostic>, s: Seq<char>, config: Seq<Rule>)
    requires
        check_output_ok(ds, s, config),
    ensures
        forall|j: int|
            0 <= j < fixes_of(ds).len() ==> config.contains((#[trigger] fixes_of(ds)[j]).0)
                && fixes_of(ds)[j].0.spec_has_fix(),
    decreases ds.len(),
{
    if ds.len() > 0 {
        assert(diag_wf(ds[0], s) && config.contains(ds[0].kind));
        assert forall|q: int| 0 <= q < ds.drop_first().len() implies diag_wf(
            #[trigger] ds.drop_first()[q],
            s,
        ) && config.contains(ds.drop_first()[q].kind) by {
            assert(ds.drop_first()[q] == ds[q + 1]);
        }
        lemma_fixes_of_kinds(ds.drop_first(), s, config);
        let head = (match ds[0].fix {
            Some(f) => seq![(ds[0].kind, f)],
            None => Seq::<(Rule, Fix)>::empty(),
        });
        assert forall|j: int|
            0 <= j < fixes_of(ds).len() implies config.contains(
            (#[trigger] fixes_of(ds)[j]).0,
        ) && fixes_of(ds)[j].0.spec_has_fix() by {
            if j < head.len() {
                assert(fixes_of(ds)[j] == head[j]);
            } else {
                assert(fixes_of(ds)[j] == fixes_of(ds.drop_first())[j - head.len()]);
            }
        }
    }
}

/// Adjacent ordering by [`fix_le`] over a whole list.
pub open spec fn sorted_by_fix_le(fixes: Seq<(Rule, Fix)>) -> bool {
    forall|k: int| 0 <= k < fixes.len() - 1 ==> fix_le(#[trigger] fixes[k], fixes[k + 1])
}

/// The settled head of one pass: the untouched text before the first fix,
/// then its replacement. The first fix of a pass is always applied.
pub open spec fn pass_head(s: Seq<char>, fixes: Seq<(Rule, Fix)>) -> Seq<char> {
    s.subrange(0, char_pos(s, fixes[0].1.range.spec_start() as int)) + fixes[0].1.replacement@
}

/// The rewritten tail of one pass: the rest of the fixes applied from the
/// end of the first one on. The next pass checks only this tail.
pub open spec fn pass_tail(s: Seq<char>, fixes: Seq<(Rule, Fix)>) -> Seq<char> {
    apply_text_model(s, fixes.drop_first(), char_pos(s, fixes[0].1.range.spec_end() as int))
}

/// One pass splits into its settled head and its rewritten tail.
proof fn lemma_pass_split(s: Seq<char>, fixes: Seq<(Rule, Fix)>)
    requires
        fixes.len() > 0,
        fix_wf(fixes[0].1, s),
    ensures
        apply_text_model(s, fixes, 0) == pass_head(s, fixes) + pass_tail(s, fixes),
{
    assert(s.take(0) =~= Seq::<char>::empty());
    assert(vstd::utf8::encode_utf8(Seq::<char>::empty()) =~= Seq::<u8>::empty());
    assert(!(fixes[0].1.range.spec_start() < blen(s.take(0))));
}

/// Concatenation cancels on the left.
proof fn lemma_concat_cancel(a: Seq<char>, b: Seq<char>, c: Seq<char>)
    requires
        a + b == a + c,
    ensures
        b == c,
{
    assert(a.len() + b.len() == (a + b).len());
    assert(a.len() + c.len() == (a + c).len());
    assert(b.len() == c.len());
    assert forall|k: int| 0 <= k < b.len() implies b[k] == c[k] by {
        let i = a.len() + k;
        assert((a + b)[i] == b[k]);
        assert((a + c)[i] == c[k]);
        assert((a + b)[i] == (a + c)[i]);
    }
    assert(b =~= c);
}

/// The settled heads of the completed passes, concatenated from pass `k`
/// on.
pub open spec fn heads_concat(
    texts: Seq<Seq<char>>,
    fixlists: Seq<Seq<(Rule, Fix)>>,
    k: int,
) -> Seq<char>
    decreases fixlists.len() - k,
{
    if k < 0 || k >= fixlists.len() {
        Seq::empty()
    } else {
        pass_head(texts[k], fixlists[k]) + heads_concat(texts, fixlists, k + 1)
    }
}

/// The rules applied over the completed passes from pass `k` on, in
/// order.
pub open spec fn applied_concat(
    texts: Seq<Seq<char>>,
    fixlists: Seq<Seq<(Rule, Fix)>>,
    k: int,
) -> Seq<Rule>
    decreases fixlists.len() - k,
{
    if k < 0 || k >= fixlists.len() {
        Seq::empty()
    } else {
        applied_rules_model(texts[k], fixlists[k], 0) + applied_concat(texts, fixlists, k + 1)
    }
}

/// Extending the trace by one pass appends that pass's head.
proof fn lemma_heads_concat_snoc(
    texts: Seq<Seq<char>>,
    fixlists: Seq<Seq<(Rule, Fix)>>,
    t2: Seq<char>,
    fl2: Seq<(Rule, Fix)>,
    k: int,
)
    requires
        texts.len() == fixlists.len() + 1,
        0 <= k <= fixlists.len(),
    ensures
        heads_concat(texts.push(t2), fixlists.push(fl2), k) == heads_concat(texts, fixlists, k)
            + pass_head(texts.last(), fl2),
    decreases fixlists.len() - k,
{
    let nt = texts.push(t2);
    let nf = fixlists.push(fl2);
    if k == fixlists.len() {
        assert(nt[k] == texts.last());
        assert(nf[k] == fl2);
        assert(heads_concat(nt, nf, k + 1) =~= Seq::<char>::empty());
        assert(heads_concat(texts, fixlists, k) =~= Seq::<char>::empty());
        assert(heads_concat(nt, nf, k) =~= pass_head(texts.last(), fl2));
        assert(heads_concat(texts, fixlists, k) + pass_head(texts.last(), fl2) =~= pass_head(
            texts.last(),
            fl2,
        ));
    } else {
        lemma_heads_concat_snoc(texts, fixlists, t2, fl2, k + 1);
        assert(nt[k] == texts[k]);
        assert(nf[k] == fixlists[k]);
        assert(heads_concat(nt, nf, k) =~= heads_concat(texts, fixlists, k) + pass_head(
            texts.last(),
            fl2,
        ));
    }
}

/// Extending the trace by one pass appends that pass's applied rules.
proof fn lemma_applied_concat_snoc(
    texts: Seq<Seq<char>>,
    fixlists: Seq<Seq<(Rule, Fix)>>,
    t2: Seq<char>,
    fl2: Seq<(Rule, Fix)>,
    k: int,
)
    requires
        texts.len() == fixlists.len() + 1,
        0 <= k <= fixlists.len(),
    ensures
        applied_concat(texts.push(t2), fixlists.push(fl2), k) == applied_concat(texts, fixlists, k)
            + applied_rules_model(texts.last(), fl2, 0),
    decreases fixlists.len() - k,
{
    let nt = texts.push(t2);
    let nf = fixlists.push(fl2);
    if k == fixlists.len() {
        assert(nt[k] == texts.last());
        assert(nf[k] == fl2);
        assert(applied_concat(nt, nf, k + 1) =~= Seq::<Rule>::empty());
        assert(applied_concat(texts, fixlists, k) =~= Seq::<Rule>::empty());
        assert(applied_concat(nt, nf, k) =~= applied_rules_model(texts.last(), fl2, 0));
        assert(applied_concat(texts, fixlists, k) + applied_rules_model(texts.last(), fl2, 0)
            =~= applied_rules_model(texts.last(), fl2, 0));
    } else {
        lemma_applied_concat_snoc(texts, fixlists, t2, fl2, k + 1);
        assert(nt[k] == texts[k]);
        assert(nf[k] == fixlists[k]);
        assert(applied_concat(nt, nf, k) =~= applied_concat(texts, fixlists, k)
            + applied_rules_model(texts.last(), fl2, 0));
    }
}

/// How often a rule occurs in a list of applied rules.
pub open spec fn count_rule(rs: Seq<Rule>, rule: Rule) -> nat
    decreases rs.len(),
{
    if rs.len() == 0 {
        0
    } else {
        count_rule(rs.drop_last(), rule) + if rs.last() == rule {
            1nat
        } else {
            0nat
        }
    }
}

/// Two rules with the same index are the same rule.
proof fn lemma_rule_index_injective(a: Rule, b: Rule)
    requires
        a.spec_index() == b.spec_index(),
    ensures
        a == b,
{
}

/// The rules configured to fix: the fixable subset of the configuration.
pub open spec fn fixable_of(config: Seq<Rule>) -> Seq<Rule> {
    config.filter(|r: Rule| r.spec_has_fix())
}

/// The counter records, for every rule, how often it occurs among the
/// applied rules (saturating at the top of `usize`).
pub open spec fn counter_matches(counter: RuleCounter, applied: Seq<Rule>) -> bool {
    &&& counter.wf()
    &&& forall|rule: Rule|
        #[trigger] counter.spec_counts()[rule.spec_index() as int] == if count_rule(applied, rule)
            <= usize::MAX {
            count_rule(applied, rule) as int
        } else {
            usize::MAX as int
        }
}

/// The completed passes of one fixer run are coherent: pass `k` checked
/// `texts[k]` (its findings are a valid checker output for the fixable
/// configuration), sorted exactly its fix-carrying findings, applied
/// them, and handed the rewritten tail to pass `k + 1`.
pub open spec fn passes_ok(
    config: Seq<Rule>,
    texts: Seq<Seq<char>>,
    diaglists: Seq<Seq<Diagnostic>>,
    fixlists: Seq<Seq<(Rule, Fix)>>,
) -> bool {
    &&& texts.len() == fixlists.len() + 1
    &&& diaglists.len() == fixlists.len()
    &&& forall|k: int|
        0 <= k < fixlists.len() ==> {
            &&& check_post(texts[k], fixable_of(config), #[trigger] diaglists[k])
            &&& fixlists[k].to_multiset() == fixes_of(diaglists[k]).to_multiset()
            &&& sorted_by_fix_le(fixlists[k])
            &&& fixlists[k].len() > 0
            &&& texts[k + 1] == pass_tail(texts[k], fixlists[k])
        }
}

/// Appending one coherent pass keeps the passes coherent.
proof fn lemma_passes_snoc(
    config: Seq<Rule>,
    texts: Seq<Seq<char>>,
    diaglists: Seq<Seq<Diagnostic>>,
    fixlists: Seq<Seq<(Rule, Fix)>>,
    t2: Seq<char>,
    ds2: Seq<Diagnostic>,
    fl2: Seq<(Rule, Fix)>,
)
    requires
        passes_ok(config, texts, diaglists, fixlists),
        check_post(texts.last(), fixable_of(config), ds2),
        fl2.to_multiset() == fixes_of(ds2).to_multiset(),
        sorted_by_fix_le(fl2),
        fl2.len() > 0,
        t2 == pass_tail(texts.last(), fl2),
    ensures
        passes_ok(config, texts.push(t2), diaglists.push(ds2), fixlists.push(fl2)),
{
    let nt = texts.push(t2);
    let nd = diaglists.push(ds2);
    let nf = fixlists.push(fl2);
    assert forall|k: int| 0 <= k < nf.len() implies {
        &&& check_post(nt[k], fixable_of(config), #[trigger] nd[k])
        &&& nf[k].to_multiset() == fixes_of(nd[k]).to_multiset()
        &&& sorted_by_fix_le(nf[k])
        &&& nf[k].len() > 0
        &&& nt[k + 1] == pass_tail(nt[k], nf[k])
    } by {
        if k < fixlists.len() {
            assert(nt[k] == texts[k] && nd[k] == diaglists[k] && nf[k] == fixlists[k]);
            assert(nt[k + 1] == texts[k + 1]);
            assert(check_post(texts[k], fixable_of(config), diaglists[k]));
        } else {
            assert(nt[k] == texts.last() && nd[k] == ds2 && nf[k] == fl2);
            assert(nt[k + 1] == t2);
        }
    }
}

/// What one run of the fixer did, pass by pass. `texts` holds the working
/// text of each pass and ends with the final tail; the passes are
/// coherent (see [`passes_ok`]). The result is the concatenation of the
/// settled heads plus the final tail; the counter counts exactly the
/// rules of the applied fixes; and the run either converged — a last
/// check of the final tail found nothing fixable — or stopped with one
/// warning after exactly the capped number of passes.
pub open spec fn fix_trace_ok(
    orig: Seq<char>,
    config: Seq<Rule>,
    texts: Seq<Seq<char>>,
    diaglists: Seq<Seq<Diagnostic>>,
    fixlists: Seq<Seq<(Rule, Fix)>>,
    out: Seq<char>,
    warnings: int,
    counter: RuleCounter,
) -> bool {
    &&& texts.len() >= 1
    &&& texts[0] == orig
    &&& passes_ok(config, texts, diaglists, fixlists)
    &&& out == heads_concat(texts, fixlists, 0) + texts.last()
    &&& counter_matches(counter, applied_concat(texts, fixlists, 0))
    &&& 0 <= warnings <= 1
    &&& (warnings == 0 ==> exists|ds: Seq<Diagnostic>|
        #[trigger] check_post(texts.last(), fixable_of(config), ds) && fixes_of(ds).len() == 0)
    &&& (warnings == 1 ==> texts.len() == MAX_ITERATIONS + 1)
}

/// One occurrence more in the counted list raises one count.
proof fn lemma_count_push(rs: Seq<Rule>, x: Rule, rule: Rule)
    ensures
        count_rule(rs.push(x), rule) == count_rule(rs, rule) + if x == rule {
            1nat
        } else {
            0nat
        },
{
    assert(rs.push(x).drop_last() =~= rs);
    assert(rs.push(x).last() == x);
}

/// The cap on check-and-apply passes; hitting it stops the loop with a
/// warning rather than an error.
pub const MAX_ITERATIONS: usize = 100;

/// Keep only the rules that can fix: exactly the fixable subset of the
/// configuration, in order.
fn fixable_rules(config: &Vec<Rule>) -> (r: Vec<Rule>)
    ensures
        r@ == fixable_of(config@),
        forall|q: int|
            0 <= q < r@.len() ==> (#[trigger] r@[q]).spec_has_fix() && config@.contains(r@[q]),
        (forall|q: int| 0 <= q < config@.len() ==> !(#[trigger] config@[q]).spec_has_fix())
            ==> r@.len() == 0,
{
    let mut r: Vec<Rule> = Vec::new();
    let mut k: usize = 0;
    proof {
        assert(config@.take(0) =~= Seq::<Rule>::empty());
        reveal_with_fuel(Seq::filter, 2);
    }
    while k < config.len()
        invariant
            k <= config@.len(),
            r@ == config@.take(k as int).filter(|rule: Rule| rule.spec_has_fix()),
            forall|q: int|
                0 <= q < r@.len() ==> (#[trigger] r@[q]).spec_has_fix() && config@.contains(
                    r@[q],
                ),
        decreases config@.len() - k,
    {
        let rule = config[k];
        if rule.has_fix() {
            r.push(rule);
        }
        proof {
            reveal_with_fuel(Seq::filter, 2);
            assert(config@.take(k + 1).drop_last() =~= config@.take(k as int));
            assert(config@.take(k + 1).last() == config@[k as int]);
        }
        k += 1;
    }
    proof {
        assert(config@.take(config@.len() as int) =~= config@);
        if r@.len() > 0 {
            assert(r@[0].spec_has_fix() && config@.contains(r@[0]));
        }
    }
    r
}

/// Repeatedly check the text and apply the proposed fixes until no
/// fixable diagnostic remains or the iteration cap is hit.
///
/// Rules that cannot fix are dropped up front: they could never change
/// the text. Each pass checks the working text, sorts the fixes
/// (duplicated-word first, then by start position), and applies them left
/// to right, discarding overlaps; everything before each pass's first
/// applied fix is settled into the result and never rescanned. Returns
/// the fixed text, at most one warning (only when the cap was hit), and
/// how often each rule's fix was applied. The whole run is pinned by a
/// pass trace (see [`fix_trace_ok`]): the result is the settled heads
/// plus the final tail of a coherent run whose every pass checked its
/// text per [`check_post`], and which converged unless the warning says
/// the cap stopped it.
#[verifier::rlimit(100)]
pub fn fix(text: &str, config: &Vec<Rule>) -> (r: (String, Vec<String>, RuleCounter))
    ensures
        r.2.wf(),
        r.1@.len() <= 1,
        (forall|q: int| 0 <= q < config@.len() ==> !(#[trigger] config@[q]).spec_has_fix())
            ==> r.0@ == text@,
        exists|texts: Seq<Seq<char>>, diaglists: Seq<Seq<Diagnostic>>, fixlists: Seq<
            Seq<(Rule, Fix)>,
        >| #[trigger] fix_trace_ok(
            text@,
            config@,
            texts,
            diaglists,
            fixlists,
            r.0@,
            r.1@.len() as int,
            r.2,
        ),
{
    let fixable = fixable_rules(config);
    let mut transformed = text.to_owned();
    let mut final_out = String::new();
    let mut counter = RuleCounter::new();
    let mut messages: Vec<String> = Vec::new();
    let mut iterations: usize = 0;
    let ghost mut texts: Seq<Seq<char>> = seq![text@];
    let ghost mut diaglists: Seq<Seq<Diagnostic>> = Seq::empty();
    let ghost mut fixlists: Seq<Seq<(Rule, Fix)>> = Seq::empty();
    proof {
        assert(heads_concat(texts, fixlists, 0) =~= Seq::<char>::empty());
        assert(applied_concat(texts, fixlists, 0) =~= Seq::<Rule>::empty());
        assert(final_out@ =~= heads_concat(texts, fixlists, 0));
        assert forall|rule: Rule| #[trigger] counter.spec_counts()[rule.spec_index() as int]
            == if count_rule(applied_concat(texts, fixlists, 0), rule) <= usize::MAX {
            count_rule(applied_concat(texts, fixlists, 0), rule) as int
        } else {
            usize::MAX as int
        } by {
            assert(rule.spec_index() < RULE_COUNT);
            assert(count_rule(applied_concat(texts, fixlists, 0), rule) == 0);
        }
    }
    loop
        invariant_except_break
            messages@.len() == 0,
            iterations < MAX_ITERATIONS,
        invariant
            counter.wf(),
            fixable@ == fixable_of(config@),
            forall|q: int|
                0 <= q < fixable@.len() ==> (#[trigger] fixable@[q]).spec_has_fix()
                    && config@.contains(fixable@[q]),
            fixable@.len() == 0 ==> final_out@.len() == 0 && transformed@ == text@,
            texts.len() == iterations + 1,
            texts[0] == text@,
            texts.last() == transformed@,
            passes_ok(config@, texts, diaglists, fixlists),
            final_out@ == heads_concat(texts, fixlists, 0),
            counter_matches(counter, applied_concat(texts, fixlists, 0)),
        ensures
            counter.wf(),
            messages@.len() <= 1,
            fixable@.len() == 0 ==> final_out@.len() == 0 && transformed@ == text@,
            texts[0] == text@,
            texts.last() == transformed@,
            passes_ok(config@, texts, diaglists, fixlists),
            final_out@ == heads_concat(texts, fixlists, 0),
            counter_matches(counter, applied_concat(texts, fixlists, 0)),
            messages@.len() == 0 ==> exists|ds: Seq<Diagnostic>|
                #[trigger] check_post(texts.last(), fixable_of(config@), ds) && fixes_of(ds).len()
                    == 0,
            messages@.len() == 1 ==> texts.len() == MAX_ITERATIONS + 1,
        decreases MAX_ITERATIONS - iterations,
    {
        let diagnostics = check(transformed.as_str(), &fixable);
        let ghost diags0 = diagnostics@;
        let ghost snapshot = transformed@;
        // Keep the diagnostics that carry a fix.
        let mut rest = diagnostics;
        let mut with_fixes: Vec<(Rule, Fix)> = Vec::new();
        proof {
            assert(fixes_of(diags0) =~= with_fixes@ + fixes_of(rest@));
        }
        while rest.len() > 0
            invariant
                check_output_ok(rest@, snapshot, fixable@),
                transformed@ == snapshot,
                with_fixes@.len() + rest@.len() <= diags0.len(),
                fixes_of(diags0) == with_fixes@ + fixes_of(rest@),
                forall|q: int|
                    0 <= q < with_fixes@.len() ==> fix_wf(
                        (#[trigger] with_fixes@[q]).1,
                        snapshot,
                    ),
            decreases rest@.len(),
        {
            let ghost rest0 = rest@;
            let ghost wf0 = with_fixes@;
            let d = rest.remove(0);
            proof {
                assert(diag_wf(d, snapshot));
                assert forall|q: int| 0 <= q < rest@.len() implies diag_wf(
                    #[trigger] rest@[q],
                    snapshot,
                ) && fixable@.contains(rest@[q].kind) by {}
                assert(rest0.drop_first() =~= rest@);
                assert(d == rest0[0]);
            }
            match d.fix {
                Some(f) => {
                    let ghost pair = (d.kind, f);
                    with_fixes.push((d.kind, f));
                    proof {
                        assert(fixes_of(rest0) =~= seq![pair] + fixes_of(rest@));
                        assert(wf0 + (seq![pair] + fixes_of(rest@)) =~= (wf0 + seq![pair])
                            + fixes_of(rest@));
                        assert(wf0 + seq![pair] =~= wf0.push(pair));
                        assert(with_fixes@ == wf0.push(pair));
                    }
                },
                None => {
                    proof {
                        assert(fixes_of(rest0) =~= Seq::<(Rule, Fix)>::empty() + fixes_of(rest@));
                        assert(Seq::<(Rule, Fix)>::empty() + fixes_of(rest@) =~= fixes_of(rest@));
                    }
                },
            }
        }
        proof {
            assert(fixes_of(rest@) =~= Seq::<(Rule, Fix)>::empty());
            assert(with_fixes@ + Seq::<(Rule, Fix)>::empty() =~= with_fixes@);
            assert(fixes_of(diags0) == with_fixes@);
        }
        // Converged: nothing fixable remains.
        if with_fixes.len() == 0 {
            proof {
                assert(check_post(texts.last(), fixable_of(config@), diags0) && fixes_of(
                    diags0,
                ).len() == 0);
            }
            break ;
        }
        proof {
            // A configuration with no fixable rule yields no diagnostics,
            // so this point is only reached with one.
            if fixable@.len() == 0 {
                assert(diags0.len() == 0);
            }
        }
        let sorted = sort_fixes(with_fixes);
        proof {
            broadcast use vstd::seq_lib::group_to_multiset_ensures;

            assert forall|q: int| 0 <= q < sorted@.len() implies fix_wf(
                (#[trigger] sorted@[q]).1,
                snapshot,
            ) by {
                assert(sorted@.to_multiset().count(sorted@[q]) > 0);
                assert(sorted@.contains(sorted@[q]));
            }
        }
        let (head, tail, applied) = apply_fixes(transformed.as_str(), &sorted);
        proof {
            // The pass splits into its settled head and rewritten tail.
            assert(head@ == pass_head(snapshot, sorted@));
            lemma_pass_split(snapshot, sorted@);
            lemma_concat_cancel(pass_head(snapshot, sorted@), tail@, pass_tail(snapshot, sorted@));
            assert(tail@ == pass_tail(snapshot, sorted@));
        }
        final_out.append(head.as_str());
        transformed = tail;
        let ghost applied_prev = applied_concat(texts, fixlists, 0);
        proof {
            lemma_heads_concat_snoc(texts, fixlists, tail@, sorted@, 0);
            lemma_applied_concat_snoc(texts, fixlists, tail@, sorted@, 0);
            lemma_passes_snoc(config@, texts, diaglists, fixlists, tail@, diags0, sorted@);
            texts = texts.push(tail@);
            diaglists = diaglists.push(diags0);
            fixlists = fixlists.push(sorted@);
            assert(applied_concat(texts, fixlists, 0) == applied_prev + applied@);
        }
        let mut k: usize = 0;
        while k < applied.len()
            invariant
                counter.wf(),
                k <= applied@.len(),
                forall|rule: Rule| #[trigger] counter.spec_counts()[rule.spec_index() as int]
                    == if count_rule(applied_prev + applied@.take(k as int), rule) <= usize::MAX {
                    count_rule(applied_prev + applied@.take(k as int), rule) as int
                } else {
                    usize::MAX as int
                },
            decreases applied@.len() - k,
        {
            let x = applied[k];
            let ghost cur = applied_prev + applied@.take(k as int);
            counter.bump(x);
            proof {
                assert(applied_prev + applied@.take(k + 1) =~= cur.push(x));
                assert forall|rule: Rule| #[trigger] counter.spec_counts()[rule.spec_index() as int]
                    == if count_rule(cur.push(x), rule) <= usize::MAX {
                    count_rule(cur.push(x), rule) as int
                } else {
                    usize::MAX as int
                } by {
                    lemma_count_push(cur, x, rule);
                    if rule != x && rule.spec_index() == x.spec_index() {
                        lemma_rule_index_injective(rule, x);
                    }
                }
            }
            k += 1;
        }
        proof {
            assert(applied_prev + applied@.take(applied@.len() as int) =~= applied_prev
                + applied@);
            assert(counter_matches(counter, applied_concat(texts, fixlists, 0)));
        }
        iterations += 1;
        if iterations == MAX_ITERATIONS {
            // The rule set oscillates; stop with the best text so far.
            let warning =
                "the fix loop reached its iteration cap before the text stabilized".to_owned();
            messages.push(warning);
            break ;
        }
    }
    final_out.append(transformed.as_str());
    let result = (final_out, messages, counter);
    proof {
        assert(fix_trace_ok(
            text@,
            config@,
            texts,
            diaglists,
            fixlists,
            result.0@,
            result.1@.len() as int,
            result.2,
        ));
        assert(exists|t: Seq<Seq<char>>, d: Seq<Seq<Diagnostic>>, f: Seq<Seq<(Rule, Fix)>>|
            #[trigger] fix_trace_ok(
                text@,
                config@,
                t,
                d,
                f,
                result.0@,
                result.1@.len() as int,
                result.2,
            ));
    }
    result
}

/// The kinds of the diagnostics, in order.
pub open spec fn kinds_of(ds: Seq<Diagnostic>) -> Seq<Rule>
    decreases ds.len(),
{
    if ds.len() == 0 {
        Seq::empty()
    } else {
        seq![ds[0].kind] + kinds_of(ds.drop_first())
    }
}

/// Check the text once and report one display message per diagnostic,
/// with per-rule counts: for some valid checker output of this text and
/// configuration, there is one message per finding and the counter counts
/// exactly the findings' kinds.
pub fn lint_only(text: &str, config: &Vec<Rule>) -> (r: (Vec<String>, RuleCounter))
    ensures
        r.1.wf(),
        exists|ds: Seq<Diagnostic>|
            #[trigger] check_post(text@, config@, ds) && r.0@.len() == ds.len() && counter_matches(
                r.1,
                kinds_of(ds),
            ),
{
    let diagnostics = check(text, config);
    let ghost diags0 = diagnostics@;
    let mut counter = RuleCounter::new();
    let mut messages: Vec<String> = Vec::new();
    let ghost mut processed: Seq<Rule> = Seq::empty();
    proof {
        assert(kinds_of(diags0) =~= processed + kinds_of(diagnostics@));
        assert forall|rule: Rule| #[trigger] counter.spec_counts()[rule.spec_index() as int]
            == if count_rule(processed, rule) <= usize::MAX {
            count_rule(processed, rule) as int
        } else {
            usize::MAX as int
        } by {
            assert(rule.spec_index() < RULE_COUNT);
            assert(count_rule(processed, rule) == 0);
        }
    }
    let mut rest = diagnostics;
    while rest.len() > 0
        invariant
            counter.wf(),
            check_output_ok(rest@, text@, config@),
            kinds_of(diags0) == processed + kinds_of(rest@),
            messages@.len() == processed.len(),
            processed.len() + rest@.len() == diags0.len(),
            counter_matches(counter, processed),
        decreases rest@.len(),
    {
        let ghost rest0 = rest@;
        let d = rest.remove(0);
        proof {
            assert(diag_wf(d, text@));
            assert forall|q: int| 0 <= q < rest@.len() implies diag_wf(#[trigger] rest@[q], text@)
                && config@.contains(rest@[q].kind) by {}
            assert(rest0.drop_first() =~= rest@);
            assert(d == rest0[0]);
            assert(kinds_of(rest0) =~= seq![d.kind] + kinds_of(rest@));
            assert(processed + (seq![d.kind] + kinds_of(rest@)) =~= (processed + seq![d.kind])
                + kinds_of(rest@));
            assert(processed + seq![d.kind] =~= processed.push(d.kind));
        }
        let ghost processed0 = processed;
        counter.bump(d.kind);
        proof {
            processed = processed.push(d.kind);
            assert forall|rule: Rule| #[trigger] counter.spec_counts()[rule.spec_index() as int]
                == if count_rule(processed, rule) <= usize::MAX {
                count_rule(processed, rule) as int
            } else {
                usize::MAX as int
            } by {
                lemma_count_push(processed0, d.kind, rule);
                if rule != d.kind && rule.spec_index() == d.kind.spec_index() {
                    lemma_rule_index_injective(rule, d.kind);
                }
            }
        }
        let msg = get_rich_context_message(text, &d.range, d.kind);
        messages.push(msg);
    }
    proof {
        assert(kinds_of(rest@) =~= Seq::<Rule>::empty());
        assert(processed + Seq::<Rule>::empty() =~= processed);
        assert(kinds_of(diags0) == processed);
        assert(check_post(text@, config@, diags0) && messages@.len() == diags0.len()
            && counter_matches(counter, kinds_of(diags0)));
    }
    (messages, counter)
}

/// Prefixes whose byte lengths are ordered are themselves ordered.
proof fn lemma_blen_le_inv(s: Seq<char>, i: int, j: int)
    requires
        0 <= i <= s.len(),
        0 <= j <= s.len(),
        blen(s.take(i)) <= blen(s.take(j)),
    ensures
        i <= j,
{
    if j < i {
        crate::chars::lemma_blen_strict_mono(s, j, i);
    }
}

/// The boundary behind `char_pos` exists and has the stated byte length.
proof fn lemma_char_pos_props(s: Seq<char>, b: int)
    requires
        is_boundary(s, b),
    ensures
        0 <= char_pos(s, b) <= s.len(),
        blen(s.take(char_pos(s, b))) == b,
{
    let j = choose|j: int| 0 <= j <= s.len() && blen(s.take(j)) == b;
    assert(0 <= char_pos(s, b) <= s.len() && blen(s.take(char_pos(s, b))) == b);
}

/// The ordering law of one pass: two well-formed fixes that do not
/// overlap, applied in order, both land, and the first one's replacement
/// stands strictly before the second one's in the output.
pub proof fn lemma_pass_ordering(s: Seq<char>, f1: (Rule, Fix), f2: (Rule, Fix))
    requires
        fix_wf(f1.1, s),
        fix_wf(f2.1, s),
        f1.1.range.spec_end() <= f2.1.range.spec_start(),
    ensures
        ({
            let p1s = char_pos(s, f1.1.range.spec_start() as int);
            let p1e = char_pos(s, f1.1.range.spec_end() as int);
            let p2s = char_pos(s, f2.1.range.spec_start() as int);
            let p2e = char_pos(s, f2.1.range.spec_end() as int);
            apply_text_model(s, seq![f1, f2], 0) == s.take(p1s) + f1.1.replacement@ + s.subrange(
                p1e,
                p2s,
            ) + f2.1.replacement@ + s.skip(p2e)
        }),
        applied_rules_model(s, seq![f1, f2], 0) == seq![f1.0, f2.0],
{
    assert(s.take(0) =~= Seq::<char>::empty());
    assert(vstd::utf8::encode_utf8(Seq::<char>::empty()) =~= Seq::<u8>::empty());
    let p1s = char_pos(s, f1.1.range.spec_start() as int);
    let p1e = char_pos(s, f1.1.range.spec_end() as int);
    let p2s = char_pos(s, f2.1.range.spec_start() as int);
    let p2e = char_pos(s, f2.1.range.spec_end() as int);
    lemma_char_pos_props(s, f1.1.range.spec_start() as int);
    lemma_char_pos_props(s, f1.1.range.spec_end() as int);
    lemma_char_pos_props(s, f2.1.range.spec_start() as int);
    lemma_char_pos_props(s, f2.1.range.spec_end() as int);
    lemma_blen_le_inv(s, p1e, p2s);
    let fs = seq![f1, f2];
    assert(fs.drop_first() =~= seq![f2]);
    assert(seq![f2].drop_first() =~= Seq::<(Rule, Fix)>::empty());
    assert(!(f1.1.range.spec_start() < blen(s.take(0))));
    assert(!(f2.1.range.spec_start() < blen(s.take(p1e))));
    assert(apply_text_model(s, seq![f2], p1e) == s.subrange(p1e, p2s) + f2.1.replacement@
        + apply_text_model(s, Seq::<(Rule, Fix)>::empty(), p2e));
    assert(apply_text_model(s, Seq::<(Rule, Fix)>::empty(), p2e) =~= s.skip(p2e));
    assert(s.subrange(0, p1s) =~= s.take(p1s));
    assert(apply_text_model(s, fs, 0) =~= s.take(p1s) + f1.1.replacement@ + s.subrange(p1e, p2s)
        + f2.1.replacement@ + s.skip(p2e));
    assert(applied_rules_model(s, Seq::<(Rule, Fix)>::empty(), p2e) =~= Seq::<Rule>::empty());
    assert(applied_rules_model(s, seq![f2], p1e) =~= seq![f2.0] + Seq::<Rule>::empty());
    assert(seq![f2.0] + Seq::<Rule>::empty() =~= seq![f2.0]);
    assert(applied_rules_model(s, fs, 0) =~= seq![f1.0] + seq![f2.0]);
    assert(seq![f1.0] + seq![f2.0] =~= seq![f1.0, f2.0]);
}

/// The overlap-discard law of one pass: when the second fix overlaps the
/// first, exactly one of the two is applied — the first — and the other
/// is dropped for this pass only.
pub proof fn lemma_pass_overlap_discard(s: Seq<char>, f1: (Rule, Fix), f2: (Rule, Fix))
    requires
        fix_wf(f1.1, s),
        fix_wf(f2.1, s),
        f2.1.range.spec_start() < f1.1.range.spec_end(),
    ensures
        ({
            let p1s = char_pos(s, f1.1.range.spec_start() as int);
            let p1e = char_pos(s, f1.1.range.spec_end() as int);
            apply_text_model(s, seq![f1, f2], 0) == s.take(p1s) + f1.1.replacement@ + s.skip(p1e)
        }),
        applied_rules_model(s, seq![f1, f2], 0) == seq![f1.0],
{
    assert(s.take(0) =~= Seq::<char>::empty());
    assert(vstd::utf8::encode_utf8(Seq::<char>::empty()) =~= Seq::<u8>::empty());
    let p1s = char_pos(s, f1.1.range.spec_start() as int);
    let p1e = char_pos(s, f1.1.range.spec_end() as int);
    lemma_char_pos_props(s, f1.1.range.spec_start() as int);
    lemma_char_pos_props(s, f1.1.range.spec_end() as int);
    let fs = seq![f1, f2];
    assert(fs.drop_first() =~= seq![f2]);
    assert(seq![f2].drop_first() =~= Seq::<(Rule, Fix)>::empty());
    assert(!(f1.1.range.spec_start() < blen(s.take(0))));
    assert(f2.1.range.spec_start() < blen(s.take(p1e)));
    assert(apply_text_model(s, seq![f2], p1e) == apply_text_model(
        s,
        Seq::<(Rule, Fix)>::empty(),
        p1e,
    ));
    assert(apply_text_model(s, Seq::<(Rule, Fix)>::empty(), p1e) =~= s.skip(p1e));
    assert(s.subrange(0, p1s) =~= s.take(p1s));
    assert(apply_text_model(s, fs, 0) =~= s.take(p1s) + f1.1.replacement@ + s.skip(p1e));
    assert(applied_rules_model(s, Seq::<(Rule, Fix)>::empty(), p1e) =~= Seq::<Rule>::empty());
    assert(applied_rules_model(s, seq![f2], p1e) =~= Seq::<Rule>::empty());
    assert(seq![f1.0] + Seq::<Rule>::empty() =~= seq![f1.0]);
    assert(applied_rules_model(s, fs, 0) =~= seq![f1.0]);
}

} // verus!

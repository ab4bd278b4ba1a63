use vstd::prelude::*;

verus! {

use crate::chars::{blen, byte_offsets, byte_len, str_eq, str_to_chars, is_boundary};
use crate::diagnostic::{Diagnostic, Fix, diag_wf};
use crate::range::TextRange;
use crate::registry::Rule;
use vstd::string::StrSliceExecFns;

/// The multi-pattern matcher of the aho-corasick crate, declared so that
/// a value of it can be built once and passed around.
#[verifier::external_type_specification]
#[verifier::external_body]
pub struct ExAhoCorasick(aho_corasick::AhoCorasick);

/// How many outdated spellings the table holds.
pub const OUTDATED_COUNT: usize = 20;

/// The outdated spelling at `k` and what to write today: superfluous
/// diaereses, a doubled consonant, and split prepositional compounds,
/// with their capitalized variants.
pub fn outdated_pair(k: usize) -> (r: (&'static str, &'static str))
    requires
        k < OUTDATED_COUNT,
    ensures
        (r.0@, r.1@) == spec_outdated_pairs()[k as int],
{
    match k {
        0 => ("άϊ", "άι"),
        1 => ("άϋ", "άυ"),
        2 => ("έϊ", "έι"),
        3 => ("έϋ", "έυ"),
        4 => ("όϊ", "όι"),
        5 => ("όϋ", "όυ"),
        6 => ("ούϊ", "ούι"),
        7 => ("Άϊ", "Άι"),
        8 => ("Άϋ", "Άυ"),
        9 => ("Έϊ", "Έι"),
        10 => ("Έϋ", "Έυ"),
        11 => ("Όϊ", "Όι"),
        12 => ("Όϋ", "Όυ"),
        13 => ("Ούϊ", "Ούι"),
        14 => ("κρεββάτι", "κρεβάτι"),
        15 => ("Κρεββάτι", "Κρεβάτι"),
        16 => ("εξ άλλου", "εξάλλου"),
        17 => ("Εξ άλλου", "Εξάλλου"),
        18 => ("εξ αιτίας", "εξαιτίας"),
        _ => ("Εξ αιτίας", "Εξαιτίας"),
    }
}

/// The outdated spellings and their replacements, as character sequences.
pub open spec fn spec_outdated_pairs() -> Seq<(Seq<char>, Seq<char>)> {
    seq![
        ("άϊ"@, "άι"@),
        ("άϋ"@, "άυ"@),
        ("έϊ"@, "έι"@),
        ("έϋ"@, "έυ"@),
        ("όϊ"@, "όι"@),
        ("όϋ"@, "όυ"@),
        ("ούϊ"@, "ούι"@),
        ("Άϊ"@, "Άι"@),
        ("Άϋ"@, "Άυ"@),
        ("Έϊ"@, "Έι"@),
        ("Έϋ"@, "Έυ"@),
        ("Όϊ"@, "Όι"@),
        ("Όϋ"@, "Όυ"@),
        ("Ούϊ"@, "Ούι"@),
        ("κρεββάτι"@, "κρεβάτι"@),
        ("Κρεββάτι"@, "Κρεβάτι"@),
        ("εξ άλλου"@, "εξάλλου"@),
        ("Εξ άλλου"@, "Εξάλλου"@),
        ("εξ αιτίας"@, "εξαιτίας"@),
        ("Εξ αιτίας"@, "Εξαιτίας"@),
    ]
}


/// Every outdated spelling in the table is a non-empty string.
pub proof fn lemma_outdated_patterns_nonempty()
    ensures
        forall|k: int|
            0 <= k < spec_outdated_pairs().len() ==> (#[trigger] spec_outdated_pairs()[k]).0.len()
                > 0,
{
    reveal_strlit("άϊ");
    reveal_strlit("άϋ");
    reveal_strlit("έϊ");
    reveal_strlit("έϋ");
    reveal_strlit("όϊ");
    reveal_strlit("όϋ");
    reveal_strlit("ούϊ");
    reveal_strlit("Άϊ");
    reveal_strlit("Άϋ");
    reveal_strlit("Έϊ");
    reveal_strlit("Έϋ");
    reveal_strlit("Όϊ");
    reveal_strlit("Όϋ");
    reveal_strlit("Ούϊ");
    reveal_strlit("κρεββάτι");
    reveal_strlit("Κρεββάτι");
    reveal_strlit("εξ άλλου");
    reveal_strlit("Εξ άλλου");
    reveal_strlit("εξ αιτίας");
    reveal_strlit("Εξ αιτίας");
    assert(spec_outdated_pairs()[0].0.len() > 0);
    assert(spec_outdated_pairs()[1].0.len() > 0);
    assert(spec_outdated_pairs()[2].0.len() > 0);
    assert(spec_outdated_pairs()[3].0.len() > 0);
    assert(spec_outdated_pairs()[4].0.len() > 0);
    assert(spec_outdated_pairs()[5].0.len() > 0);
    assert(spec_outdated_pairs()[6].0.len() > 0);
    assert(spec_outdated_pairs()[7].0.len() > 0);
    assert(spec_outdated_pairs()[8].0.len() > 0);
    assert(spec_outdated_pairs()[9].0.len() > 0);
    assert(spec_outdated_pairs()[10].0.len() > 0);
    assert(spec_outdated_pairs()[11].0.len() > 0);
    assert(spec_outdated_pairs()[12].0.len() > 0);
    assert(spec_outdated_pairs()[13].0.len() > 0);
    assert(spec_outdated_pairs()[14].0.len() > 0);
    assert(spec_outdated_pairs()[15].0.len() > 0);
    assert(spec_outdated_pairs()[16].0.len() > 0);
    assert(spec_outdated_pairs()[17].0.len() > 0);
    assert(spec_outdated_pairs()[18].0.len() > 0);
    assert(spec_outdated_pairs()[19].0.len() > 0);
}

/// Build the multi-pattern matcher over the outdated spellings.
///
/// Relies on `aho_corasick::AhoCorasick::new`: with the default (standard)
/// match semantics it builds an automaton over exactly the given
/// patterns, or reports a build error.
#[verifier::external_body]
fn build_matcher(patterns: &Vec<String>) -> (r: Option<aho_corasick::AhoCorasick>)
{
    aho_corasick::AhoCorasick::new(patterns.iter().map(|s| s.as_str())).ok()
}

/// All the non-overlapping matches of the automaton's patterns in `text`,
/// as byte ranges.
///
/// Relies on `aho_corasick::AhoCorasick::try_find_iter`: it yields the
/// non-overlapping matches of the automaton in the haystack, each with
/// its start and end byte offsets. Nothing is assumed of the result; the
/// caller checks every range against the text before using it.
#[verifier::external_body]
fn find_matches(ac: &aho_corasick::AhoCorasick, text: &str) -> (r: Vec<(usize, usize)>)
{
    match ac.try_find_iter(text) {
        Ok(it) => it.map(|m| (m.start(), m.end())).collect(),
        Err(_) => Vec::new(),
    }
}

/// What an outdated-spelling diagnostic says: some entry of the table
/// occurs at the diagnostic's byte range, and the fix replaces exactly
/// that occurrence with the table's replacement.
pub open spec fn outdated_diag_ok(d: Diagnostic, s: Seq<char>) -> bool {
    &&& diag_wf(d, s)
    &&& d.kind == Rule::OutdatedSpelling
    &&& exists|k: int, pa: int, pb: int|
        {
            &&& 0 <= k < spec_outdated_pairs().len()
            &&& 0 <= pa <= pb <= s.len()
            &&& s.subrange(pa, pb) == spec_outdated_pairs()[k].0
            &&& d.range.spec_start() == blen(s.take(pa))
            &&& d.range.spec_end() == blen(s.take(pb))
            &&& match d.fix {
                Some(f) => f.replacement@ == spec_outdated_pairs()[k].1 && f.range == d.range,
                None => false,
            }
        }
}

/// Locate the character index whose byte offset is `b`, if `b` sits on a
/// character boundary.
fn char_index_of(offs: &Vec<usize>, b: usize) -> (r: Option<usize>)
    requires
        offs@.len() > 0,
    ensures
        match r {
            Some(p) => p < offs@.len() && offs@[p as int] == b,
            None => forall|p: int| 0 <= p < offs@.len() ==> offs@[p] != b,
        },
{
    let mut p: usize = 0;
    while p < offs.len()
        invariant
            p <= offs@.len(),
            forall|k: int| 0 <= k < p ==> offs@[k] != b,
        decreases offs@.len() - p,
    {
        if offs[p] == b {
            return Some(p);
        }
        p += 1;
    }
    None
}

/// Detect outdated spellings anywhere in the text, and propose today's
/// spelling for each occurrence the matcher reports. The matcher's
/// answers are validated: only ranges that name an exact occurrence of a
/// table entry become diagnostics.
#[verifier::rlimit(60)]
pub fn outdated_spelling(text: &str, diagnostics: &mut Vec<Diagnostic>)
    ensures
        final(diagnostics)@.len() >= old(diagnostics)@.len(),
        final(diagnostics)@.take(old(diagnostics)@.len() as int) == old(diagnostics)@,
        forall|k: int|
            old(diagnostics)@.len() <= k < final(diagnostics)@.len() ==> outdated_diag_ok(
                #[trigger] final(diagnostics)@[k],
                text@,
            ),
{
    proof {
        assert(diagnostics@.take(diagnostics@.len() as int) =~= diagnostics@);
    }
    let mut patterns: Vec<String> = Vec::new();
    let mut k: usize = 0;
    while k < OUTDATED_COUNT
        invariant
            k <= OUTDATED_COUNT,
            patterns@.len() == k,
        decreases OUTDATED_COUNT - k,
    {
        patterns.push(outdated_pair(k).0.to_owned());
        k += 1;
    }
    let ac = match build_matcher(&patterns) {
        Some(ac) => ac,
        None => { return ; },
    };
    let matches = find_matches(&ac, text);
    let total = byte_len(text);
    let chars = str_to_chars(text);
    let offs = byte_offsets(&chars);
    let n = chars.len();
    let ghost old_diags = diagnostics@;
    let mut m: usize = 0;
    while m < matches.len()
        invariant
            n == chars@.len(),
            chars@ == text@,
            blen(text@) <= usize::MAX,
            offs@.len() == n + 1,
            forall|j: int| 0 <= j <= n ==> #[trigger] offs@[j] == blen(text@.take(j)),
            m <= matches@.len(),
            diagnostics@.len() >= old_diags.len(),
            diagnostics@.take(old_diags.len() as int) == old_diags,
            forall|j: int|
                old_diags.len() <= j < diagnostics@.len() ==> outdated_diag_ok(
                    #[trigger] diagnostics@[j],
                    text@,
                ),
        decreases matches@.len() - m,
    {
        let (a, b) = matches[m];
        m += 1;
        // Validate the reported byte range: both ends must be character
        // boundaries, in order.
        let pa = match char_index_of(&offs, a) {
            Some(p) => p,
            None => { continue ; },
        };
        let pb = match char_index_of(&offs, b) {
            Some(p) => p,
            None => { continue ; },
        };
        if pa > pb {
            continue ;
        }
        let sub = text.substring_char(pa, pb);
        // Validate the content: it must be an entry of the table.
        let mut k: usize = 0;
        while k < OUTDATED_COUNT
            invariant
                n == chars@.len(),
                chars@ == text@,
                blen(text@) <= usize::MAX,
                offs@.len() == n + 1,
                forall|j: int| 0 <= j <= n ==> #[trigger] offs@[j] == blen(text@.take(j)),
                pa <= pb <= n,
                a == offs@[pa as int],
                b == offs@[pb as int],
                sub@ == text@.subrange(pa as int, pb as int),
                diagnostics@.len() >= old_diags.len(),
                diagnostics@.take(old_diags.len() as int) == old_diags,
                forall|j: int|
                    old_diags.len() <= j < diagnostics@.len() ==> outdated_diag_ok(
                        #[trigger] diagnostics@[j],
                        text@,
                    ),
            decreases OUTDATED_COUNT - k,
        {
            let (target, destination) = outdated_pair(k);
            if str_eq(sub, target) {
                proof {
                    crate::chars::lemma_blen_take_le(text@, pb as int);
                    if pa < pb {
                        crate::chars::lemma_blen_strict_mono(text@, pa as int, pb as int);
                    }
                    assert(is_boundary(text@, a as int)) by {
                        assert(0 <= pa as int <= text@.len() && blen(text@.take(pa as int))
                            == a as int);
                    }
                    assert(is_boundary(text@, b as int)) by {
                        assert(0 <= pb as int <= text@.len() && blen(text@.take(pb as int))
                            == b as int);
                    }
                }
                let range = TextRange::new(a, b);
                let d = Diagnostic {
                    kind: Rule::OutdatedSpelling,
                    range,
                    fix: Some(Fix { replacement: destination.to_owned(), range }),
                };
                let ghost before = diagnostics@;
                diagnostics.push(d);
                proof {
                    assert(diagnostics@.take(old_diags.len() as int) =~= before.take(
                        old_diags.len() as int,
                    ));
                    assert(outdated_diag_ok(d, text@)) by {
                        assert(0 <= k < spec_outdated_pairs().len() && 0 <= pa as int <= pb as int
                            <= text@.len() && text@.subrange(pa as int, pb as int)
                            == spec_outdated_pairs()[k as int].0 && d.range.spec_start() == blen(
                            text@.take(pa as int),
                        ) && d.range.spec_end() == blen(text@.take(pb as int)));
                    }
                }
                break ;
            }
            k += 1;
        }
    }
}

} // verus!

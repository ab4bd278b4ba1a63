use vstd::prelude::*;

verus! {

use crate::chars::{blen, is_boundary};
use crate::range::TextRange;
use crate::registry::Rule;

/// A proposed replacement for a byte range within a specific text
/// snapshot.
#[derive(Debug, Clone)]
pub struct Fix {
    pub replacement: String,
    pub range: TextRange,
}

/// A reported condition: a rule identifier, a display range, and an
/// optional fix.
#[derive(Debug, Clone)]
pub struct Diagnostic {
    pub kind: Rule,
    /// Range of the diagnostic. Only used to visualize it; the fix's own
    /// range is what string replacement uses.
    pub range: TextRange,
    pub fix: Option<Fix>,
}

/// A fix is well formed against the text it was computed from: its range
/// runs forward, stays inside the text, and both ends sit on character
/// boundaries.
pub open spec fn fix_wf(f: Fix, s: Seq<char>) -> bool {
    &&& f.range.wf()
    &&& f.range.spec_end() <= blen(s)
    &&& is_boundary(s, f.range.spec_start() as int)
    &&& is_boundary(s, f.range.spec_end() as int)
}

/// A diagnostic is well formed against the text it was computed from: its
/// display range stays in bounds, and a fix, when present, is well formed
/// and only attached by a rule that can fix.
pub open spec fn diag_wf(d: Diagnostic, s: Seq<char>) -> bool {
    &&& d.range.wf()
    &&& d.range.spec_end() <= blen(s)
    &&& is_boundary(s, d.range.spec_start() as int)
    &&& is_boundary(s, d.range.spec_end() as int)
    &&& match d.fix {
        Some(f) => fix_wf(f, s) && d.kind.spec_has_fix(),
        None => true,
    }
}

} // verus!

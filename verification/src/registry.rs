use vstd::prelude::*;

verus! {

/// The closed, finite set of checkable conditions.
///
/// Every rule carries two compile-time-fixed capabilities: whether it can
/// ever attach a fix ([`Rule::has_fix`]) and whether it needs the token
/// sequence or runs on the raw text ([`Rule::requires_tokenizing`]).
#[derive(Debug, Clone, Copy, PartialEq, Eq, Hash, Structural)]
pub enum Rule {
    MissingDoubleAccents,
    MissingAccentCapital,
    DuplicatedWord,
    AddFinalN,
    RemoveFinalN,
    OutdatedSpelling,
    MonosyllableAccented,
    MultisyllableNotAccented,
    MixedScripts,
    AmbiguousChar,
    ForbiddenAccent,
    ForbiddenDoubleAccent,
    ForbiddenChar,
    Punctuation,
}

/// How many rules there are.
pub const RULE_COUNT: usize = 14;

impl Rule {
    /// Whether this rule can ever attach a fix to a diagnostic.
    pub open spec fn spec_has_fix(&self) -> bool {
        match self {
            Rule::MissingDoubleAccents => true,
            Rule::MissingAccentCapital => true,
            Rule::DuplicatedWord => false,
            Rule::AddFinalN => true,
            Rule::RemoveFinalN => true,
            Rule::OutdatedSpelling => true,
            Rule::MonosyllableAccented => true,
            Rule::MultisyllableNotAccented => false,
            Rule::MixedScripts => true,
            Rule::AmbiguousChar => true,
            Rule::ForbiddenAccent => false,
            Rule::ForbiddenDoubleAccent => true,
            Rule::ForbiddenChar => false,
            Rule::Punctuation => true,
        }
    }

    /// Whether this rule runs over the token sequence (as opposed to the
    /// raw, untokenized text).
    pub open spec fn spec_requires_tokenizing(&self) -> bool {
        !matches!(self, Rule::OutdatedSpelling | Rule::AmbiguousChar | Rule::ForbiddenChar)
    }

    #[verifier::when_used_as_spec(spec_has_fix)]
    pub fn has_fix(&self) -> (r: bool)
        ensures
            r == self.spec_has_fix(),
    {
        matches!(
            self,
            Rule::MissingDoubleAccents
            | Rule::MissingAccentCapital
            | Rule::AddFinalN
            | Rule::RemoveFinalN
            | Rule::OutdatedSpelling
            | Rule::MonosyllableAccented
            | Rule::MixedScripts
            | Rule::AmbiguousChar
            | Rule::ForbiddenDoubleAccent
            | Rule::Punctuation
        )
    }

    #[verifier::when_used_as_spec(spec_requires_tokenizing)]
    pub fn requires_tokenizing(&self) -> (r: bool)
        ensures
            r == self.spec_requires_tokenizing(),
    {
        !matches!(self, Rule::OutdatedSpelling | Rule::AmbiguousChar | Rule::ForbiddenChar)
    }

    /// A stable position of the rule inside [`all_rules`], usable as a
    /// vector index.
    pub open spec fn spec_index(self) -> usize {
        match self {
            Rule::MissingDoubleAccents => 0,
            Rule::MissingAccentCapital => 1,
            Rule::DuplicatedWord => 2,
            Rule::AddFinalN => 3,
            Rule::RemoveFinalN => 4,
            Rule::OutdatedSpelling => 5,
            Rule::MonosyllableAccented => 6,
            Rule::MultisyllableNotAccented => 7,
            Rule::MixedScripts => 8,
            Rule::AmbiguousChar => 9,
            Rule::ForbiddenAccent => 10,
            Rule::ForbiddenDoubleAccent => 11,
            Rule::ForbiddenChar => 12,
            Rule::Punctuation => 13,
        }
    }

    #[verifier::when_used_as_spec(spec_index)]
    pub fn index(self) -> (r: usize)
        ensures
            r == self.spec_index(),
            r < RULE_COUNT,
    {
        match self {
            Rule::MissingDoubleAccents => 0,
            Rule::MissingAccentCapital => 1,
            Rule::DuplicatedWord => 2,
            Rule::AddFinalN => 3,
            Rule::RemoveFinalN => 4,
            Rule::OutdatedSpelling => 5,
            Rule::MonosyllableAccented => 6,
            Rule::MultisyllableNotAccented => 7,
            Rule::MixedScripts => 8,
            Rule::AmbiguousChar => 9,
            Rule::ForbiddenAccent => 10,
            Rule::ForbiddenDoubleAccent => 11,
            Rule::ForbiddenChar => 12,
            Rule::Punctuation => 13,
        }
    }
}

/// Every rule, in declaration order.
pub open spec fn all_rules_seq() -> Seq<Rule> {
    seq![
        Rule::MissingDoubleAccents,
        Rule::MissingAccentCapital,
        Rule::DuplicatedWord,
        Rule::AddFinalN,
        Rule::RemoveFinalN,
        Rule::OutdatedSpelling,
        Rule::MonosyllableAccented,
        Rule::MultisyllableNotAccented,
        Rule::MixedScripts,
        Rule::AmbiguousChar,
        Rule::ForbiddenAccent,
        Rule::ForbiddenDoubleAccent,
        Rule::ForbiddenChar,
        Rule::Punctuation,
    ]
}

/// Every rule, in declaration order.
pub fn all_rules() -> (r: Vec<Rule>)
    ensures
        r@ == all_rules_seq(),
        r@.len() == RULE_COUNT,
{
    let r = vec![
        Rule::MissingDoubleAccents,
        Rule::MissingAccentCapital,
        Rule::DuplicatedWord,
        Rule::AddFinalN,
        Rule::RemoveFinalN,
        Rule::OutdatedSpelling,
        Rule::MonosyllableAccented,
        Rule::MultisyllableNotAccented,
        Rule::MixedScripts,
        Rule::AmbiguousChar,
        Rule::ForbiddenAccent,
        Rule::ForbiddenDoubleAccent,
        Rule::ForbiddenChar,
        Rule::Punctuation,
    ];
    proof {
        assert(r@ =~= all_rules_seq());
    }
    r
}

/// The `CamelCase` name of a rule.
pub open spec fn spec_rule_name(rule: Rule) -> Seq<char> {
    match rule {
        Rule::MissingDoubleAccents => "MissingDoubleAccents"@,
        Rule::MissingAccentCapital => "MissingAccentCapital"@,
        Rule::DuplicatedWord => "DuplicatedWord"@,
        Rule::AddFinalN => "AddFinalN"@,
        Rule::RemoveFinalN => "RemoveFinalN"@,
        Rule::OutdatedSpelling => "OutdatedSpelling"@,
        Rule::MonosyllableAccented => "MonosyllableAccented"@,
        Rule::MultisyllableNotAccented => "MultisyllableNotAccented"@,
        Rule::MixedScripts => "MixedScripts"@,
        Rule::AmbiguousChar => "AmbiguousChar"@,
        Rule::ForbiddenAccent => "ForbiddenAccent"@,
        Rule::ForbiddenDoubleAccent => "ForbiddenDoubleAccent"@,
        Rule::ForbiddenChar => "ForbiddenChar"@,
        Rule::Punctuation => "Punctuation"@,
    }
}

/// Get the name from the rule:
/// `Rule::MissingDoubleAccents` => "MissingDoubleAccents"
pub fn rule_to_name(rule: Rule) -> (r: &'static str)
    ensures
        r@ == spec_rule_name(rule),
{
    match rule {
        Rule::MissingDoubleAccents => "MissingDoubleAccents",
        Rule::MissingAccentCapital => "MissingAccentCapital",
        Rule::DuplicatedWord => "DuplicatedWord",
        Rule::AddFinalN => "AddFinalN",
        Rule::RemoveFinalN => "RemoveFinalN",
        Rule::OutdatedSpelling => "OutdatedSpelling",
        Rule::MonosyllableAccented => "MonosyllableAccented",
        Rule::MultisyllableNotAccented => "MultisyllableNotAccented",
        Rule::MixedScripts => "MixedScripts",
        Rule::AmbiguousChar => "AmbiguousChar",
        Rule::ForbiddenAccent => "ForbiddenAccent",
        Rule::ForbiddenDoubleAccent => "ForbiddenDoubleAccent",
        Rule::ForbiddenChar => "ForbiddenChar",
        Rule::Punctuation => "Punctuation",
    }
}

/// Whether a character is an ASCII capital letter.
pub open spec fn spec_is_ascii_capital(c: char) -> bool {
    'A' <= c <= 'Z'
}

/// The short code of a name: its ASCII capital letters, in order.
pub open spec fn spec_code_of_name(name: Seq<char>) -> Seq<char>
    decreases name.len(),
{
    if name.len() == 0 {
        Seq::empty()
    } else {
        let rest = spec_code_of_name(name.drop_last());
        if spec_is_ascii_capital(name.last()) {
            rest.push(name.last())
        } else {
            rest
        }
    }
}

/// Get the code from the name:
/// "MissingDoubleAccents" => "MDA"
pub fn name_to_code(name: &str) -> (r: String)
    ensures
        r@ == spec_code_of_name(name@),
{
    let chars = crate::chars::str_to_chars(name);
    let mut out = String::new();
    let mut i: usize = 0;
    while i < chars.len()
        invariant
            i <= chars@.len(),
            chars@ == name@,
            out@ == spec_code_of_name(name@.take(i as int)),
        decreases chars@.len() - i,
    {
        let c = chars[i];
        if 'A' <= c && c <= 'Z' {
            crate::chars::push_char(&mut out, c);
        }
        proof {
            assert(name@.take(i + 1).drop_last() =~= name@.take(i as int));
            assert(name@.take(i + 1).last() == name@[i as int]);
        }
        i += 1;
    }
    proof {
        assert(name@.take(name@.len() as int) =~= name@);
    }
    out
}

/// Get the code from the rule:
/// `Rule::MissingDoubleAccents` => "MDA"
pub fn rule_to_code(rule: Rule) -> (r: String)
    ensures
        r@ == spec_code_of_name(spec_rule_name(rule)),
{
    name_to_code(rule_to_name(rule))
}

/// Get the rule from the code:
/// "MDA" => `Rule::MissingDoubleAccents`
///
/// Returns the first rule whose code equals `code`, and `None` when no
/// rule has that code.
pub fn code_to_rule(code: &str) -> (r: Option<Rule>)
    ensures
        match r {
            Some(rule) => spec_code_of_name(spec_rule_name(rule)) == code@,
            None => forall|rule: Rule| #[trigger]
                spec_code_of_name(spec_rule_name(rule)) != code@,
        },
{
    let rules = all_rules();
    let code_string = code.to_owned();
    let mut i: usize = 0;
    while i < rules.len()
        invariant
            i <= rules@.len(),
            rules@ == all_rules_seq(),
            code_string@ == code@,
            forall|j: int| 0 <= j < i ==> #[trigger]
                spec_code_of_name(spec_rule_name(rules@[j])) != code@,
        decreases rules@.len() - i,
    {
        let rule = rules[i];
        if rule_to_code(rule) == code_string {
            return Some(rule);
        }
        i += 1;
    }
    proof {
        assert forall|rule: Rule| #[trigger]
            spec_code_of_name(spec_rule_name(rule)) != code@ by {
            let rs = all_rules_seq();
            assert(rule == rs[rule.spec_index() as int]);
        }
    }
    None
}

} // verus!

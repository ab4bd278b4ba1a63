use vstd::prelude::*;

verus! {

use crate::registry::{Rule, all_rules, all_rules_seq, code_to_rule, spec_code_of_name,
    spec_rule_name};

/// What a command-line rule selection names: every rule, or one rule.
#[derive(Debug, Clone, Copy, PartialEq, Eq, Hash, Structural)]
pub enum RuleSelector {
    All,
    Selection(Rule),
}

impl RuleSelector {
    /// The rules this selector names.
    pub fn rules(&self) -> (r: Vec<Rule>)
        ensures
            match self {
                RuleSelector::All => r@ == all_rules_seq(),
                RuleSelector::Selection(rule) => r@ == seq![*rule],
            },
    {
        match self {
            RuleSelector::All => all_rules(),
            RuleSelector::Selection(rule) => {
                let mut v: Vec<Rule> = Vec::new();
                v.push(*rule);
                proof {
                    assert(v@ =~= seq![*rule]);
                }
                v
            },
        }
    }
}

impl core::str::FromStr for RuleSelector {
    type Err = String;

    /// Parse a selector: the word ALL, or a rule code.
    fn from_str(code: &str) -> (r: Result<Self, String>)
        ensures
            match r {
                Ok(RuleSelector::All) => code@ == "ALL"@,
                Ok(RuleSelector::Selection(rule)) => spec_code_of_name(spec_rule_name(rule))
                    == code@,
                Err(_) => code@ != "ALL"@ && forall|rule: Rule| #[trigger]
                    spec_code_of_name(spec_rule_name(rule)) != code@,
            },
    {
        if crate::chars::str_eq(code, "ALL") {
            return Ok(RuleSelector::All);
        }
        match code_to_rule(code) {
            Some(rule) => Ok(RuleSelector::Selection(rule)),
            None => {
                let mut msg = "Unknown rule code: ".to_owned();
                msg.append(code);
                Err(msg)
            },
        }
    }
}

impl core::str::FromStr for Rule {
    type Err = String;

    /// Parse a rule from its code.
    fn from_str(code: &str) -> (r: Result<Self, String>)
        ensures
            match r {
                Ok(rule) => spec_code_of_name(spec_rule_name(rule)) == code@,
                Err(_) => forall|rule: Rule| #[trigger] spec_code_of_name(spec_rule_name(rule))
                    != code@,
            },
    {
        match code_to_rule(code) {
            Some(rule) => Ok(rule),
            None => {
                let mut msg = "Unknown rule code: ".to_owned();
                msg.append(code);
                Err(msg)
            },
        }
    }
}

} // verus!

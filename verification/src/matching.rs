//! Matching one live window title against the ordered rule set.
//!
//! A rule matches a title when the title contains at least one of the
//! rule's target substrings and, unless the exception list is empty, none
//! of its exception substrings.  Rules are consulted in declaration order
//! and the first satisfying rule wins.

use vstd::prelude::*;
use crate::data_manager::Target;
use crate::utils::contains_sub;
use crate::utils::spec_contains;

verus! {

/// The title contains at least one of the given substrings.
pub open spec fn hits_any(title: Seq<char>, pats: Seq<String>) -> bool {
    exists|k: int| 0 <= k < pats.len() && spec_contains(title, pats[k]@)
}

/// The rule governs the title: some target substring occurs in it, and
/// either the exception list is empty or no exception substring does.
pub open spec fn rule_matches(title: Seq<char>, rule: Target) -> bool {
    hits_any(title, rule.targets@) && (rule.exceptions@.len() == 0 || !hits_any(
        title,
        rule.exceptions@,
    ))
}

/// Index of the first rule that governs the title, if any.
pub open spec fn first_match(title: Seq<char>, rules: Seq<Target>) -> Option<int>
    decreases rules.len(),
{
    if rules.len() == 0 {
        None
    } else if rule_matches(title, rules[0]) {
        Some(0int)
    } else {
        match first_match(title, rules.skip(1)) {
            None => None,
            Some(j) => Some(j + 1),
        }
    }
}

/// What `first_match` finds is a governing rule preceded only by
/// non-governing ones; when it finds none, no rule governs.
pub proof fn lemma_first_match(title: Seq<char>, rules: Seq<Target>)
    ensures
        match first_match(title, rules) {
            Some(i) => 0 <= i < rules.len() && rule_matches(title, rules[i]) && (forall|j: int|
                0 <= j < i ==> !rule_matches(title, rules[j])),
            None => forall|j: int| 0 <= j < rules.len() ==> !rule_matches(title, rules[j]),
        },
    decreases rules.len(),
{
    if rules.len() > 0 {
        lemma_first_match(title, rules.skip(1));
        assert(forall|k: int| 1 <= k < rules.len() ==> rules[k] == rules.skip(1)[k - 1]);
    }
}

/// First match wins: when a rule governs the title and no earlier rule
/// does, that rule is chosen, whatever the rules after it say.
pub proof fn lemma_first_match_wins(title: Seq<char>, rules: Seq<Target>, a: int)
    requires
        0 <= a < rules.len(),
        rule_matches(title, rules[a]),
        forall|j: int| 0 <= j < a ==> !rule_matches(title, rules[j]),
    ensures
        first_match(title, rules) == Some(a),
{
    lemma_first_match(title, rules);
    match first_match(title, rules) {
        Some(i) => {
            if i < a {
                assert(!rule_matches(title, rules[i]));
            } else if i > a {
                assert(!rule_matches(title, rules[a]));
            }
        },
        None => {
            assert(!rule_matches(title, rules[a]));
        },
    }
}

/// An earlier governing rule bounds the choice: the chosen rule stands no
/// later than any rule that governs the title.
pub proof fn lemma_earlier_match_bounds_choice(title: Seq<char>, rules: Seq<Target>, a: int)
    requires
        0 <= a < rules.len(),
        rule_matches(title, rules[a]),
    ensures
        first_match(title, rules).is_some(),
        first_match(title, rules).unwrap() <= a,
        rule_matches(title, rules[first_match(title, rules).unwrap()]),
{
    lemma_first_match(title, rules);
    match first_match(title, rules) {
        Some(i) => {
            if i > a {
                assert(!rule_matches(title, rules[a]));
            }
        },
        None => {
            assert(!rule_matches(title, rules[a]));
        },
    }
}

/// The title contains at least one of the given substrings.
pub fn title_hits_any(title: &str, pats: &Vec<String>) -> (r: bool)
    ensures
        r == hits_any(title@, pats@),
{
    let n = pats.len();
    let mut i: usize = 0;
    while i < n
        invariant
            n == pats@.len(),
            i <= n,
            forall|k: int| 0 <= k < i ==> !spec_contains(title@, pats@[k]@),
        decreases n - i,
    {
        if contains_sub(title, pats[i].as_str()) {
            return true;
        }
        i = i + 1;
    }
    false
}

/// The given rule governs the title.
pub fn target_matches(title: &str, rule: &Target) -> (r: bool)
    ensures
        r == rule_matches(title@, *rule),
{
    if !title_hits_any(title, &rule.targets) {
        return false;
    }
    if rule.exceptions.len() == 0 {
        return true;
    }
    !title_hits_any(title, &rule.exceptions)
}

/// Index of the first rule that governs the title, if any.
pub fn match_target(title: &str, rules: &Vec<Target>) -> (r: Option<usize>)
    ensures
        match r {
            Some(i) => first_match(title@, rules@) == Some(i as int),
            None => first_match(title@, rules@).is_none(),
        },
{
    let n = rules.len();
    let mut i: usize = 0;
    while i < n
        invariant
            n == rules@.len(),
            i <= n,
            forall|j: int| 0 <= j < i ==> !rule_matches(title@, rules@[j]),
        decreases n - i,
    {
        if target_matches(title, &rules[i]) {
            proof {
                lemma_first_match_wins(title@, rules@, i as int);
            }
            return Some(i);
        }
        i = i + 1;
    }
    proof {
        lemma_first_match(title@, rules@);
    }
    None
}

} // verus!

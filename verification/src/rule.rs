//! Range rules and their evaluation against a score.

use vstd::prelude::*;
use crate::score::Score;

verus! {

/// A named classification band: the scores from `min_score`, inclusive, up to
/// `max_score`, exclusive.
#[derive(Clone, Debug, PartialEq, Eq)]
pub struct RangeRule {
    pub min_score: Score,
    pub max_score: Score,
    pub priority: u8,
    pub label: String,
}

/// A range rule as mathematical data.
pub struct RuleView {
    pub min_score: Score,
    pub max_score: Score,
    pub priority: u8,
    pub label: Seq<char>,
}

impl View for RangeRule {
    type V = RuleView;

    open spec fn view(&self) -> RuleView {
        RuleView {
            min_score: self.min_score,
            max_score: self.max_score,
            priority: self.priority,
            label: self.label@,
        }
    }
}

impl RuleView {
    /// Whether the score lies in the rule's half-open interval.
    pub open spec fn contains(self, score: Score) -> bool {
        score.ge(self.min_score) && score.lt(self.max_score)
    }
}

impl RangeRule {
    /// Whether the score lies in the rule's half-open interval.
    pub fn matches(&self, score: Score) -> (hit: bool)
        ensures
            hit <==> score.ge(self.min_score) && score.lt(self.max_score),
            hit == self@.contains(score),
    {
        score.ge(self.min_score) && score.lt(self.max_score)
    }
}

/// The views of a list of rules, in order.
pub open spec fn rule_views(rules: Seq<RangeRule>) -> Seq<RuleView> {
    rules.map_values(|rule: RangeRule| rule@)
}

/// The rules whose interval contains the score, in the order of `rules`.
pub open spec fn matching(score: Score, rules: Seq<RuleView>) -> Seq<RuleView> {
    rules.filter(|rule: RuleView| rule.contains(score))
}

/// The rules of `rules` whose interval contains `score`, each once, in the
/// order in which `rules` lists them.
pub fn matched_rules<'a>(score: Score, rules: &'a Vec<RangeRule>) -> (matched: Vec<&'a RangeRule>)
    ensures
        matched@.map_values(|rule: &RangeRule| rule@) == matching(score, rule_views(rules@)),
{
    let mut matched: Vec<&'a RangeRule> = Vec::new();
    let mut i: usize = 0;
    proof {
        reveal(Seq::filter);
        assert(rule_views(rules@).take(0) =~= Seq::<RuleView>::empty());
        assert(matched@.map_values(|rule: &RangeRule| rule@) =~= Seq::<RuleView>::empty());
    }
    while i < rules.len()
        invariant
            i <= rules.len(),
            matched@.map_values(|rule: &RangeRule| rule@) == matching(
                score,
                rule_views(rules@).take(i as int),
            ),
        decreases rules.len() - i,
    {
        let rule = &rules[i];
        let ghost before = matched@;
        let hit = rule.matches(score);
        if hit {
            matched.push(rule);
        }
        proof {
            let views = rule_views(rules@);
            assert(views.take(i + 1).drop_last() =~= views.take(i as int));
            assert(views.take(i + 1).last() == rules@[i as int]@);
            reveal(Seq::filter);
            if hit {
                assert(matched@.map_values(|rule: &RangeRule| rule@) =~= before.map_values(
                    |rule: &RangeRule| rule@,
                ).push(rule@));
            }
        }
        i += 1;
    }
    proof {
        assert(rule_views(rules@).take(i as int) =~= rule_views(rules@));
    }
    matched
}

/// How many of the rules before place `i` the score matches.
pub open spec fn matches_before(score: Score, rules: Seq<RuleView>, i: int) -> int {
    matching(score, rules.take(i)).len() as int
}

/// The matches among the first `i` rules are the first matches among all.
pub proof fn lemma_matches_of_a_prefix(score: Score, rules: Seq<RuleView>, i: int)
    requires
        0 <= i <= rules.len(),
    ensures
        matching(score, rules.take(i)).is_prefix_of(matching(score, rules)),
{
    rules.take(i).lemma_filter_monotone(rules, |rule: RuleView| rule.contains(score));
}

/// What one more rule adds to the matches: itself when the score matches it,
/// else nothing.
pub proof fn lemma_matches_of_one_more(score: Score, rules: Seq<RuleView>, i: int)
    requires
        0 <= i < rules.len(),
    ensures
        matching(score, rules.take(i + 1)) == if rules[i].contains(score) {
            matching(score, rules.take(i)).push(rules[i])
        } else {
            matching(score, rules.take(i))
        },
{
    reveal(Seq::filter);
    assert(rules.take(i + 1).drop_last() =~= rules.take(i));
}

/// No rule is skipped: a rule that the score matches is among the matches,
/// after as many of them as there are matching rules before it.
pub proof fn lemma_matched_rule_has_place(score: Score, rules: Seq<RuleView>, i: int)
    requires
        0 <= i < rules.len(),
        rules[i].contains(score),
    ensures
        0 <= matches_before(score, rules, i) < matching(score, rules).len(),
        matching(score, rules)[matches_before(score, rules, i)] == rules[i],
{
    lemma_matches_of_one_more(score, rules, i);
    lemma_matches_of_a_prefix(score, rules, i + 1);
    let upto = matching(score, rules.take(i + 1));
    assert(upto[matches_before(score, rules, i)] == matching(score, rules).subrange(
        0,
        upto.len() as int,
    )[matches_before(score, rules, i)]);
}

/// Matches keep the order of the rules: of two rules that the score matches,
/// the earlier one has the earlier place among the matches.
pub proof fn lemma_matches_keep_rule_order(score: Score, rules: Seq<RuleView>, i: int, j: int)
    requires
        0 <= i < j < rules.len(),
        rules[i].contains(score),
        rules[j].contains(score),
    ensures
        matches_before(score, rules, i) < matches_before(score, rules, j),
{
    lemma_matches_of_one_more(score, rules, i);
    assert(rules.take(j).take(i + 1) =~= rules.take(i + 1));
    lemma_matches_of_a_prefix(score, rules.take(j), i + 1);
}

/// No rule is matched twice, and nothing else is: each of the matches is
/// one rule that the score matches, and `source` is its place among the rules.
pub proof fn lemma_every_match_is_a_rule(score: Score, rules: Seq<RuleView>, place: int) -> (source:
    int)
    requires
        0 <= place < matching(score, rules).len(),
    ensures
        0 <= source < rules.len(),
        rules[source].contains(score),
        matches_before(score, rules, source) == place,
        matching(score, rules)[place] == rules[source],
    decreases rules.len(),
{
    reveal(Seq::filter);
    let newest = rules.len() - 1;
    let earlier = rules.drop_last();
    assert(rules.take(newest) =~= earlier);
    if rules[newest].contains(score) && place == matching(score, earlier).len() {
        newest
    } else {
        let source = lemma_every_match_is_a_rule(score, earlier, place);
        assert(earlier.take(source) =~= rules.take(source));
        source
    }
}

/// Rules that the score does not match add nothing to the matches.
pub proof fn lemma_unmatched_rules_add_nothing(
    score: Score,
    rules: Seq<RuleView>,
    from: int,
    to: int,
)
    requires
        0 <= from <= to <= rules.len(),
        forall|k: int| from <= k < to ==> !(#[trigger] rules[k]).contains(score),
    ensures
        matching(score, rules.take(to)) == matching(score, rules.take(from)),
    decreases to - from,
{
    if from < to {
        lemma_unmatched_rules_add_nothing(score, rules, from, to - 1);
        lemma_matches_of_one_more(score, rules, to - 1);
    }
}

/// A score that equals a rule's upper bound is outside the rule, whatever the
/// rule's lower bound is.
pub proof fn lemma_upper_bound_is_excluded(rule: RuleView)
    ensures
        !rule.contains(rule.max_score),
{
}

/// A score that equals a rule's lower bound is inside the rule exactly when
/// the rule's bounds are numbers with the lower one below the upper one.
pub proof fn lemma_lower_bound_is_included(rule: RuleView)
    ensures
        rule.contains(rule.min_score) <==> rule.min_score.lt(rule.max_score),
{
}

} // verus!

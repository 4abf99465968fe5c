//! Assembling a report: one row per student, ordered by severity.

use vstd::prelude::*;
use vstd::string::StringExecFns;
use crate::order::{
    lemma_position_follows_order, lemma_position_is_onto, lemma_preceding_in_range,
    lemma_preceding_is_monotone, position, preceding, precedes,
};
use crate::record::{
    row_views, student_view, student_views, IdentityRecord, IdentityView, ReportingRecord,
    ReportingView, ScoreRecord, StudentView,
};
use crate::rule::{
    lemma_every_match_is_a_rule, lemma_matched_rule_has_place, lemma_matches_of_one_more,
    lemma_unmatched_rules_add_nothing, matched_rules, matches_before, matching, rule_views,
    RangeRule, RuleView,
};
use crate::score::Score;

verus! {

/// The labels of the given rules, in order.
pub open spec fn labels_of(matched: Seq<RuleView>) -> Seq<Seq<char>> {
    matched.map_values(|rule: RuleView| rule.label)
}

/// The highest priority among the given rules, 0 when there is none.
pub open spec fn highest_priority_of(matched: Seq<RuleView>) -> int
    decreases matched.len(),
{
    if matched.len() == 0 {
        0
    } else {
        let rest = highest_priority_of(matched.drop_last());
        if matched.last().priority > rest {
            matched.last().priority as int
        } else {
            rest
        }
    }
}

/// The key by which a student with this score is ordered under these rules:
/// the highest priority among the rules that the score matches, 0 when it
/// matches none.
pub open spec fn sort_key_of(score: Score, rules: Seq<RuleView>) -> int {
    highest_priority_of(matching(score, rules))
}

/// First name, one space, last name.
pub open spec fn full_name_of(identity: IdentityView) -> Seq<char> {
    identity.first_name + seq![' '] + identity.last_name
}

/// The report row of a student under the given rules.
pub open spec fn row_of(student: StudentView, rules: Seq<RuleView>) -> ReportingView {
    ReportingView {
        full_name: full_name_of(student.identity),
        score: student.score,
        matched_labels: labels_of(matching(student.score, rules)),
    }
}

/// The sort keys of the students, in input order.
pub open spec fn sort_keys_of(students: Seq<StudentView>, rules: Seq<RuleView>) -> Seq<int> {
    students.map_values(|student: StudentView| sort_key_of(student.score, rules))
}

/// Whether `rows` is the report on `students` under `rules`: as many rows as
/// students, and the row of each student at the place that the order of the
/// sort keys gives it.
pub open spec fn is_report_of(
    rows: Seq<ReportingView>,
    students: Seq<StudentView>,
    rules: Seq<RuleView>,
) -> bool {
    &&& rows.len() == students.len()
    &&& forall|i: int|
        0 <= i < students.len() ==> rows[#[trigger] position(sort_keys_of(students, rules), i)]
            == row_of(students[i], rules)
}

/// The displayed name of a student.
pub fn full_name(identity: &IdentityRecord) -> (name: String)
    ensures
        name@ == full_name_of(identity@),
{
    let mut name = identity.first_name.clone();
    proof {
        reveal_strlit(" ");
        assert(" "@ =~= seq![' ']);
    }
    name.append(" ");
    name.append(identity.last_name.as_str());
    name
}

/// The labels of the matched rules, in matched order.
pub fn matched_labels(matched: &Vec<&RangeRule>) -> (labels: Vec<String>)
    ensures
        labels@.map_values(|label: String| label@) == labels_of(
            matched@.map_values(|rule: &RangeRule| rule@),
        ),
{
    let mut labels: Vec<String> = Vec::new();
    let mut i: usize = 0;
    while i < matched.len()
        invariant
            i <= matched.len(),
            labels@.len() == i,
            forall|j: int| 0 <= j < i ==> (#[trigger] labels@[j])@ == matched@[j].label@,
        decreases matched.len() - i,
    {
        labels.push(matched[i].label.clone());
        i += 1;
    }
    assert(labels@.map_values(|label: String| label@) =~= labels_of(
        matched@.map_values(|rule: &RangeRule| rule@),
    ));
    labels
}

/// The sort key that the matched rules give: their highest priority, 0 when
/// nothing matched.
pub fn sort_key(matched: &Vec<&RangeRule>) -> (key: u8)
    ensures
        key == highest_priority_of(matched@.map_values(|rule: &RangeRule| rule@)),
{
    let ghost views = matched@.map_values(|rule: &RangeRule| rule@);
    let mut key: u8 = 0;
    let mut i: usize = 0;
    while i < matched.len()
        invariant
            i <= matched.len(),
            views == matched@.map_values(|rule: &RangeRule| rule@),
            key == highest_priority_of(views.take(i as int)),
        decreases matched.len() - i,
    {
        proof {
            assert(views.take(i + 1).drop_last() =~= views.take(i as int));
        }
        if matched[i].priority > key {
            key = matched[i].priority;
        }
        i += 1;
    }
    assert(views.take(i as int) =~= views);
    key
}

/// The report on the fetched students: one row for each of them, with the
/// labels of the rules that the student's score matches, a higher sort key
/// before a lower one, and equal keys in the order of `aggregated`.
pub fn assemble(aggregated: &Vec<(IdentityRecord, ScoreRecord)>, rules: &Vec<RangeRule>) -> (rows:
    Vec<ReportingRecord>)
    ensures
        is_report_of(row_views(rows@), student_views(aggregated@), rule_views(rules@)),
{
    let ghost students = student_views(aggregated@);
    let ghost keys = sort_keys_of(students, rule_views(rules@));
    let mut rows: Vec<ReportingRecord> = Vec::new();
    let mut seen: Vec<u8> = Vec::new();
    let mut k: usize = 0;
    while k < aggregated.len()
        invariant
            k <= aggregated.len(),
            students == student_views(aggregated@),
            keys == sort_keys_of(students, rule_views(rules@)),
            rows@.len() == k,
            seen@.len() == k,
            forall|i: int| 0 <= i < k ==> #[trigger] seen@[i] == keys[i],
            forall|i: int|
                0 <= i < k ==> rows@[#[trigger] preceding(keys, i, k as int)]@ == row_of(
                    students[i],
                    rule_views(rules@),
                ),
        decreases aggregated.len() - k,
    {
        let student = &aggregated[k];
        let matched = matched_rules(student.1.score, rules);
        let key = sort_key(&matched);
        let row = ReportingRecord {
            full_name: full_name(&student.0),
            score: student.1.score,
            matched_labels: matched_labels(&matched),
        };
        assert(row@ == row_of(students[k as int], rule_views(rules@)));
        assert(key == keys[k as int]);
        let mut place: usize = 0;
        let mut j: usize = 0;
        while j < k
            invariant
                j <= k,
                k < aggregated.len(),
                keys.len() == aggregated.len(),
                seen@.len() == k,
                forall|i: int| 0 <= i < k ==> #[trigger] seen@[i] == keys[i],
                key == keys[k as int],
                place <= j,
                place == preceding(keys, k as int, j as int),
            decreases k - j,
        {
            if seen[j] >= key {
                place += 1;
            }
            j += 1;
        }
        let ghost before = rows@;
        rows.insert(place, row);
        seen.push(key);
        proof {
            assert(!precedes(keys, k as int, k as int));
            assert forall|i: int| 0 <= i < k + 1 implies rows@[#[trigger] preceding(
                keys,
                i,
                k + 1,
            )]@ == row_of(students[i], rule_views(rules@)) by {
                if i < k {
                    let old_place = preceding(keys, i, k as int);
                    lemma_preceding_in_range(keys, i, k as int);
                    assert(before[old_place]@ == row_of(students[i], rule_views(rules@)));
                    if precedes(keys, k as int, i) {
                        lemma_preceding_is_monotone(keys, k as int, i, k as int);
                    } else {
                        assert(precedes(keys, i, k as int));
                        lemma_preceding_is_monotone(keys, i, k as int, k as int);
                    }
                }
            }
        }
        k += 1;
    }
    proof {
        assert forall|i: int| 0 <= i < students.len() implies row_views(rows@)[#[trigger] position(
            keys,
            i,
        )] == row_of(students[i], rule_views(rules@)) by {
            lemma_preceding_in_range(keys, i, keys.len() as int);
            assert(preceding(keys, i, k as int) == position(keys, i));
        }
    }
    rows
}

/// The highest priority is at least every priority of the given rules, and
/// it is the priority of one of them unless it is 0.
pub proof fn lemma_highest_priority_is_a_maximum(matched: Seq<RuleView>)
    ensures
        0 <= highest_priority_of(matched) <= u8::MAX,
        forall|a: int|
            0 <= a < matched.len() ==> (#[trigger] matched[a]).priority <= highest_priority_of(
                matched,
            ),
        highest_priority_of(matched) == 0 || exists|a: int|
            0 <= a < matched.len() && (#[trigger] matched[a]).priority == highest_priority_of(
                matched,
            ),
    decreases matched.len(),
{
    if matched.len() > 0 {
        let earlier = matched.drop_last();
        lemma_highest_priority_is_a_maximum(earlier);
        assert forall|a: int| 0 <= a < matched.len() implies (#[trigger] matched[a]).priority
            <= highest_priority_of(matched) by {
            if a < matched.len() - 1 {
                assert(earlier[a] == matched[a]);
            }
        }
        if highest_priority_of(matched) != 0 {
            if matched.last().priority > highest_priority_of(earlier) {
                assert(matched[matched.len() - 1].priority == highest_priority_of(matched));
            } else {
                let a = choose|a: int|
                    0 <= a < earlier.len() && (#[trigger] earlier[a]).priority
                        == highest_priority_of(earlier);
                assert(matched[a].priority == highest_priority_of(matched));
            }
        }
    }
}

/// The sort key is the highest priority among the rules that the score
/// matches: no such rule has a higher one, and unless the key is 0 one of
/// them has exactly it. A score that matches no rule has key 0.
pub proof fn lemma_sort_key_is_highest_matching_priority(score: Score, rules: Seq<RuleView>)
    ensures
        0 <= sort_key_of(score, rules) <= u8::MAX,
        forall|i: int|
            0 <= i < rules.len() && (#[trigger] rules[i]).contains(score) ==> rules[i].priority
                <= sort_key_of(score, rules),
        sort_key_of(score, rules) == 0 || exists|i: int|
            0 <= i < rules.len() && (#[trigger] rules[i]).contains(score) && rules[i].priority
                == sort_key_of(score, rules),
        (forall|i: int| 0 <= i < rules.len() ==> !(#[trigger] rules[i]).contains(score))
            ==> sort_key_of(score, rules) == 0,
{
    let matched = matching(score, rules);
    lemma_highest_priority_is_a_maximum(matched);
    assert forall|i: int| 0 <= i < rules.len() && (#[trigger] rules[i]).contains(score) implies
        rules[i].priority <= sort_key_of(score, rules) by {
        lemma_matched_rule_has_place(score, rules, i);
        assert(matched[matches_before(score, rules, i)].priority <= highest_priority_of(matched));
    }
    if sort_key_of(score, rules) != 0 {
        let a = choose|a: int|
            0 <= a < matched.len() && (#[trigger] matched[a]).priority == highest_priority_of(
                matched,
            );
        let i = lemma_every_match_is_a_rule(score, rules, a);
        assert(rules[i].contains(score) && rules[i].priority == sort_key_of(score, rules));
    }
}

/// A score inside two rules carries the labels of both, in the order of the
/// rules, and is ordered by the higher of their priorities.
///
/// When the two are the only rules that the score matches, the labels are
/// exactly theirs and the sort key is exactly the higher priority.
pub proof fn lemma_two_matches_give_both_labels(
    score: Score,
    rules: Seq<RuleView>,
    i: int,
    j: int,
)
    requires
        0 <= i < j < rules.len(),
        rules[i].contains(score),
        rules[j].contains(score),
    ensures
        0 <= matches_before(score, rules, i) < matches_before(score, rules, j) < labels_of(
            matching(score, rules),
        ).len(),
        labels_of(matching(score, rules))[matches_before(score, rules, i)] == rules[i].label,
        labels_of(matching(score, rules))[matches_before(score, rules, j)] == rules[j].label,
        sort_key_of(score, rules) >= rules[i].priority,
        sort_key_of(score, rules) >= rules[j].priority,
        (forall|k: int|
            0 <= k < rules.len() && k != i && k != j ==> !(#[trigger] rules[k]).contains(score))
            ==> {
            &&& labels_of(matching(score, rules)) == seq![rules[i].label, rules[j].label]
            &&& sort_key_of(score, rules) == if rules[i].priority > rules[j].priority {
                rules[i].priority
            } else {
                rules[j].priority
            }
        },
{
    lemma_matched_rule_has_place(score, rules, i);
    lemma_matched_rule_has_place(score, rules, j);
    crate::rule::lemma_matches_keep_rule_order(score, rules, i, j);
    lemma_sort_key_is_highest_matching_priority(score, rules);
    if forall|k: int|
        0 <= k < rules.len() && k != i && k != j ==> !(#[trigger] rules[k]).contains(score) {
        let n = rules.len() as int;
        assert(rules.take(0) =~= Seq::<RuleView>::empty());
        assert(matching(score, rules.take(0)) =~= Seq::<RuleView>::empty()) by {
            reveal(Seq::filter);
        }
        lemma_unmatched_rules_add_nothing(score, rules, 0, i);
        lemma_matches_of_one_more(score, rules, i);
        lemma_unmatched_rules_add_nothing(score, rules, i + 1, j);
        lemma_matches_of_one_more(score, rules, j);
        lemma_unmatched_rules_add_nothing(score, rules, j + 1, n);
        assert(rules.take(n) =~= rules);
        assert(matching(score, rules) =~= seq![rules[i], rules[j]]);
        assert(labels_of(matching(score, rules)) =~= seq![rules[i].label, rules[j].label]);
        let matched = matching(score, rules);
        assert(matched.drop_last() =~= seq![rules[i]]);
        assert(matched.drop_last().drop_last() =~= Seq::<RuleView>::empty());
        reveal_with_fuel(highest_priority_of, 3);
    }
}

/// A report is determined by the students and the rules: two reports on the
/// same students under the same rules are the same rows in the same order.
pub proof fn lemma_report_is_unique(
    first: Seq<ReportingView>,
    second: Seq<ReportingView>,
    students: Seq<StudentView>,
    rules: Seq<RuleView>,
)
    requires
        is_report_of(first, students, rules),
        is_report_of(second, students, rules),
    ensures
        first == second,
{
    let keys = sort_keys_of(students, rules);
    assert forall|place: int| 0 <= place < first.len() implies first[place] == second[place] by {
        let source = lemma_position_is_onto(keys, place);
        assert(first[position(keys, source)] == row_of(students[source], rules));
        assert(second[position(keys, source)] == row_of(students[source], rules));
    }
    assert(first =~= second);
}

/// Every row of a report is the row of one student, and `source` is the place
/// of that student in the input.
pub proof fn lemma_row_has_a_source(
    rows: Seq<ReportingView>,
    students: Seq<StudentView>,
    rules: Seq<RuleView>,
    place: int,
) -> (source: int)
    requires
        is_report_of(rows, students, rules),
        0 <= place < rows.len(),
    ensures
        0 <= source < students.len(),
        position(sort_keys_of(students, rules), source) == place,
        rows[place] == row_of(students[source], rules),
{
    let source = lemma_position_is_onto(sort_keys_of(students, rules), place);
    assert(rows[position(sort_keys_of(students, rules), source)] == row_of(
        students[source],
        rules,
    ));
    source
}

/// The rows of a report descend by sort key: no row has a higher key than a
/// row before it.
pub proof fn lemma_rows_descend_by_sort_key(
    rows: Seq<ReportingView>,
    students: Seq<StudentView>,
    rules: Seq<RuleView>,
    earlier: int,
    later: int,
)
    requires
        is_report_of(rows, students, rules),
        0 <= earlier < later < rows.len(),
    ensures
        sort_key_of(rows[earlier].score, rules) >= sort_key_of(rows[later].score, rules),
{
    let keys = sort_keys_of(students, rules);
    let i = lemma_row_has_a_source(rows, students, rules, earlier);
    let j = lemma_row_has_a_source(rows, students, rules, later);
    lemma_position_follows_order(keys, i, j);
}

/// The order of a report is stable: of two students, the one with the higher
/// sort key has the earlier row, and with equal keys the one that is earlier
/// in the input has.
pub proof fn lemma_equal_keys_keep_input_order(
    students: Seq<StudentView>,
    rules: Seq<RuleView>,
    i: int,
    j: int,
)
    requires
        0 <= i < students.len(),
        0 <= j < students.len(),
        i != j,
    ensures
        0 <= position(sort_keys_of(students, rules), i) < students.len(),
        sort_key_of(students[i].score, rules) > sort_key_of(students[j].score, rules)
            ==> position(sort_keys_of(students, rules), i) < position(
            sort_keys_of(students, rules),
            j,
        ),
        sort_key_of(students[i].score, rules) == sort_key_of(students[j].score, rules) && i < j
            ==> position(sort_keys_of(students, rules), i) < position(
            sort_keys_of(students, rules),
            j,
        ),
{
    let keys = sort_keys_of(students, rules);
    lemma_position_follows_order(keys, i, j);
    crate::order::lemma_position_in_range(keys, i);
}

} // verus!

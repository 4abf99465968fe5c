use student_reports::definition::ReportDefinition;
use student_reports::record::{IdentityRecord, ReportingRecord, ScoreRecord};
use student_reports::report::{assemble, full_name, matched_labels, sort_key};
use student_reports::rule::{matched_rules, RangeRule};
use student_reports::score::Score;

fn score(value: f64) -> Score {
    Score::from_bits(value.to_bits())
}

fn rule(min: f64, max: f64, priority: u8, label: &str) -> RangeRule {
    RangeRule { min_score: score(min), max_score: score(max), priority, label: label.to_string() }
}

fn student(first: &str, last: &str, value: f64) -> (IdentityRecord, ScoreRecord) {
    (
        IdentityRecord { first_name: first.to_string(), last_name: last.to_string() },
        ScoreRecord { score: score(value) },
    )
}

fn row(name: &str, value: f64, labels: &[&str]) -> ReportingRecord {
    ReportingRecord {
        full_name: name.to_string(),
        score: score(value),
        matched_labels: labels.iter().map(|label| label.to_string()).collect(),
    }
}

fn names(rows: &Vec<ReportingRecord>) -> Vec<String> {
    rows.iter().map(|row| row.full_name.clone()).collect()
}

fn three_bands() -> Vec<RangeRule> {
    vec![rule(0.0, 2.0, 1, "low"), rule(2.0, 4.0, 5, "mid"), rule(4.0, 5.0, 9, "high")]
}

#[test]
fn stable_priority_sort() {
    let rules = vec![rule(1.0, 2.0, 5, "five"), rule(2.0, 3.0, 9, "nine")];
    let aggregated = vec![
        student("A", "a", 1.0),
        student("B", "b", 1.5),
        student("C", "c", 2.5),
        student("D", "d", 7.0),
    ];
    let rows = assemble(&aggregated, &rules);
    assert_eq!(names(&rows), vec!["C c", "A a", "B b", "D d"]);
    assert_eq!(
        rows,
        vec![
            row("C c", 2.5, &["nine"]),
            row("A a", 1.0, &["five"]),
            row("B b", 1.5, &["five"]),
            row("D d", 7.0, &[]),
        ]
    );
}

#[test]
fn multi_match_labeling() {
    let rules = vec![rule(0.0, 3.0, 2, "wide"), rule(2.0, 4.0, 7, "narrow"), rule(9.0, 10.0, 9, "far")];
    let matched = matched_rules(score(2.5), &rules);
    assert_eq!(matched_labels(&matched), vec!["wide", "narrow"]);
    assert_eq!(sort_key(&matched), 7);
    let swapped = vec![rule(2.0, 4.0, 7, "narrow"), rule(0.0, 3.0, 2, "wide")];
    let matched = matched_rules(score(2.5), &swapped);
    assert_eq!(matched_labels(&matched), vec!["narrow", "wide"]);
    assert_eq!(sort_key(&matched), 7);
}

#[test]
fn multi_match_orders_by_the_higher_priority() {
    let rules = vec![rule(0.0, 3.0, 2, "wide"), rule(2.0, 4.0, 7, "narrow"), rule(0.0, 1.0, 5, "bottom")];
    let aggregated = vec![student("Low", "L", 0.5), student("Both", "B", 2.5)];
    let rows = assemble(&aggregated, &rules);
    assert_eq!(
        rows,
        vec![row("Both B", 2.5, &["wide", "narrow"]), row("Low L", 0.5, &["wide", "bottom"])]
    );
}

#[test]
fn unmatched_students_have_key_zero_and_stay() {
    let rules = vec![rule(0.0, 1.0, 0, "zero"), rule(1.0, 2.0, 3, "three")];
    let no_match: Vec<&RangeRule> = Vec::new();
    assert_eq!(sort_key(&no_match), 0);
    let aggregated = vec![
        student("None", "N", 5.0),
        student("Zero", "Z", 0.5),
        student("Three", "T", 1.5),
        student("Nan", "X", f64::NAN),
    ];
    let rows = assemble(&aggregated, &rules);
    assert_eq!(
        rows,
        vec![
            row("Three T", 1.5, &["three"]),
            row("None N", 5.0, &[]),
            row("Zero Z", 0.5, &["zero"]),
            row("Nan X", f64::NAN, &[]),
        ]
    );
}

#[test]
fn sort_key_is_the_highest_priority() {
    let rules = vec![
        rule(0.0, 5.0, 3, "a"),
        rule(0.0, 5.0, 255, "b"),
        rule(0.0, 5.0, 0, "c"),
        rule(0.0, 5.0, 254, "d"),
    ];
    assert_eq!(sort_key(&matched_rules(score(1.0), &rules)), 255);
    assert_eq!(sort_key(&matched_rules(score(5.0), &rules)), 0);
    let one: Vec<&RangeRule> = vec![&rules[3]];
    assert_eq!(sort_key(&one), 254);
}

#[test]
fn full_name_joins_with_one_space() {
    let identity = IdentityRecord { first_name: "Alice".to_string(), last_name: "A".to_string() };
    assert_eq!(full_name(&identity), "Alice A");
    let blank = IdentityRecord { first_name: String::new(), last_name: String::new() };
    assert_eq!(full_name(&blank), " ");
}

#[test]
fn assembling_twice_gives_identical_rows() {
    let rules = three_bands();
    let aggregated = vec![
        student("Alice", "A", 1.5),
        student("Bob", "B", 3.0),
        student("Cara", "C", 4.5),
        student("Dan", "D", 3.5),
        student("Eve", "E", -0.0),
    ];
    let first = assemble(&aggregated, &rules);
    let second = assemble(&aggregated, &rules);
    assert_eq!(first, second);
    let bits = |rows: &Vec<ReportingRecord>| -> Vec<u64> {
        rows.iter().map(|row| row.score.to_bits()).collect()
    };
    assert_eq!(bits(&first), bits(&second));
    assert_eq!(names(&first), vec!["Cara C", "Bob B", "Dan D", "Alice A", "Eve E"]);
}

#[test]
fn end_to_end_scenario() {
    let rules = three_bands();
    let aggregated =
        vec![student("Alice", "A", 1.5), student("Bob", "B", 3.0), student("Cara", "C", 4.5)];
    let keys: Vec<u8> = aggregated
        .iter()
        .map(|student| sort_key(&matched_rules(student.1.score, &rules)))
        .collect();
    assert_eq!(keys, vec![1, 5, 9]);
    let rows = assemble(&aggregated, &rules);
    assert_eq!(
        rows,
        vec![
            row("Cara C", 4.5, &["high"]),
            row("Bob B", 3.0, &["mid"]),
            row("Alice A", 1.5, &["low"]),
        ]
    );
}

#[test]
fn already_ordered_and_reversed_inputs() {
    let rules = three_bands();
    let descending =
        vec![student("Cara", "C", 4.5), student("Bob", "B", 3.0), student("Alice", "A", 1.5)];
    assert_eq!(names(&assemble(&descending, &rules)), vec!["Cara C", "Bob B", "Alice A"]);
    let ties = vec![
        student("One", "1", 2.0),
        student("Two", "2", 3.0),
        student("Three", "3", 2.5),
        student("Four", "4", 3.5),
    ];
    assert_eq!(names(&assemble(&ties, &rules)), vec!["One 1", "Two 2", "Three 3", "Four 4"]);
}

#[test]
fn no_students_no_rows() {
    assert_eq!(assemble(&Vec::new(), &three_bands()), Vec::new());
}

#[test]
fn no_rules_keep_input_order() {
    let aggregated = vec![student("B", "b", 3.0), student("A", "a", 1.0)];
    assert_eq!(
        assemble(&aggregated, &Vec::new()),
        vec![row("B b", 3.0, &[]), row("A a", 1.0, &[])]
    );
}

#[test]
fn render_job_of_a_definition() {
    let definition = ReportDefinition {
        label: "Eligibility".to_string(),
        schedule: "weekly".to_string(),
        recipients: vec!["coach@example.org".to_string()],
        template_name: "eligibility".to_string(),
        rules: three_bands(),
        student_ids: vec![101, 102, 103],
    };
    assert_eq!(definition.template_path(), "./templates/eligibility.liquid");
    assert_eq!(definition.output_file(), "eligibility.html");
    let aggregated =
        vec![student("Alice", "A", 1.5), student("Bob", "B", 3.0), student("Cara", "C", 4.5)];
    let job = definition.render_job(&aggregated);
    assert_eq!(job.template_path, "./templates/eligibility.liquid");
    assert_eq!(job.display_name, "Mr. Smith");
    assert_eq!(job.output_file, "eligibility.html");
    assert_eq!(job.students, assemble(&aggregated, &definition.rules));
    assert_eq!(names(&job.students), vec!["Cara C", "Bob B", "Alice A"]);
}

use gradebook_analytics::patterns::analyze_student_patterns;
use gradebook_analytics::progression::calculate_progression_metrics;
use gradebook_analytics::quality::calculate_cronbachs_alpha;
use gradebook_analytics::risk::assess_student_risk;
use gradebook_analytics::stats::{calculate_mean, calculate_std_deviation, SCALE};
use gradebook_analytics::topics::extract_chapter_name;
use gradebook_analytics::{Assignment, Grade};

fn grade(student: &str, assignment: &str, score: u32, max_score: u32) -> Grade {
    Grade {
        student_id: student.to_string(),
        assignment_id: assignment.to_string(),
        score,
        max_score,
        submitted_at: None,
        due_date: None,
    }
}

#[test]
fn test_risk_assessment() {
    let grades = vec![grade("S1", "A1", 50, 100), grade("S1", "A2", 45, 100)];
    let grade_refs: Vec<&Grade> = grades.iter().collect();
    let assignments: Vec<Assignment> = vec![];

    let assessment = assess_student_risk("S1", &grade_refs, &assignments);

    // Average is 47.5%, which triggers 40 points (low score),
    // the "medium" band (40-69 points).
    assert_eq!(assessment.risk_level.label(), "medium");
    assert!(assessment.risk_score >= 40);
    assert!(assessment.risk_score < 70);
}

#[test]
fn test_chapter_extraction() {
    assert_eq!(extract_chapter_name("Chapter 1 Quiz"), "Chapter 1");
    assert_eq!(extract_chapter_name("Ch 2 Assignment"), "Chapter 2");
    assert_eq!(extract_chapter_name("Unit 3 Test"), "Unit 3");
    assert_eq!(extract_chapter_name("Random Assignment"), "Other");
}

#[test]
fn test_statistics() {
    // 80%, 85%, 90%, 75%, 95% in hundredths of a percent
    let scores: Vec<u64> = vec![8000, 8500, 9000, 7500, 9500];
    let mean = calculate_mean(&scores);
    assert_eq!(mean, 8500);

    let std_dev = calculate_std_deviation(&scores, mean);
    assert!(std_dev > 0);
}

#[test]
fn test_assessment_quality() {
    let grades = vec![grade("S1", "A1", 80, 100), grade("S1", "A2", 85, 100)];
    let assignments = vec![
        Assignment { id: "A1".to_string(), name: "Quiz 1".to_string(), max_score: 100, due_date: None },
        Assignment { id: "A2".to_string(), name: "Quiz 2".to_string(), max_score: 100, due_date: None },
    ];

    let reliability = calculate_cronbachs_alpha(&grades, &assignments);
    assert!(reliability <= SCALE);
}

#[test]
fn test_learning_progression() {
    let grades = vec![grade("S1", "A1", 60, 100), grade("S1", "A2", 70, 100), grade("S1", "A3", 80, 100)];
    let grade_refs: Vec<&Grade> = grades.iter().collect();
    let assignments: Vec<Assignment> = vec![];

    let metrics = calculate_progression_metrics(&grade_refs, &assignments);

    assert_eq!(metrics.overall_trend.label(), "improving");
    assert!(metrics.velocity > 0);
}

#[test]
fn test_performance_patterns() {
    let grades = vec![grade("S1", "A1", 80, 100), grade("S1", "A2", 82, 100), grade("S1", "A3", 81, 100)];
    let grade_refs: Vec<&Grade> = grades.iter().collect();

    let pattern = analyze_student_patterns("S1", &grade_refs);

    assert!(pattern.consistency_score > 0);
    assert!(pattern.consistency_score <= SCALE);
}

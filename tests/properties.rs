use gradebook_analytics::patterns::{analyze_student_patterns, detect_streaks, PatternKind};
use gradebook_analytics::progression::{calculate_progression_metrics, Momentum, Trend};
use gradebook_analytics::quality::{analyze_item, calculate_cronbachs_alpha, rate_item_quality, rate_reliability, QualityRating, ReliabilityRating};
use gradebook_analytics::records::percentage;
use gradebook_analytics::risk::{assess_student_risk, calculate_recent_average, Recommendation, RiskFactor, RiskLevel};
use gradebook_analytics::stats::{
    calculate_mean, calculate_recent_slope, calculate_std_deviation, calculate_variance, floor_sqrt, internal_consistency,
    linear_regression_slope, SCALE,
};
use gradebook_analytics::topics::{categorize_difficulty, extract_chapter_name, extract_topic, DifficultyLevel};
use gradebook_analytics::{
    analyze_assessment_quality, analyze_chapter_difficulty, analyze_early_intervention, analyze_learning_progression,
    analyze_performance_patterns, Assignment, Grade,
};

fn grade(student: &str, assignment: &str, score: u32, max_score: u32) -> Grade {
    Grade {
        student_id: student.to_string(),
        assignment_id: assignment.to_string(),
        score,
        max_score,
        submitted_at: None,
        due_date: None,
    }
}

fn item(id: &str, name: &str) -> Assignment {
    Assignment { id: id.to_string(), name: name.to_string(), max_score: 100, due_date: None }
}

fn series(student: &str, scores: &[u32]) -> Vec<Grade> {
    scores.iter().enumerate().map(|(i, s)| grade(student, &format!("A{}", i + 1), *s, 100)).collect()
}

#[test]
fn mean_lies_between_min_and_max() {
    let xs: Vec<u64> = vec![3000, 7000, 10000];
    let m = calculate_mean(&xs);
    assert_eq!(m, 6666);
    assert!(3000 <= m && m <= 10000);
    assert_eq!(calculate_mean(&vec![4200]), 4200);
    assert_eq!(calculate_mean(&vec![]), 0);
}

#[test]
fn std_deviation_is_zero_for_short_or_constant_lists() {
    assert_eq!(calculate_std_deviation(&vec![5000], 5000), 0);
    assert_eq!(calculate_std_deviation(&vec![], 0), 0);
    let same: Vec<u64> = vec![7000, 7000, 7000];
    assert_eq!(calculate_std_deviation(&same, calculate_mean(&same)), 0);
    assert_eq!(calculate_variance(&same), 0);
}

#[test]
fn std_deviation_exact_value() {
    let xs: Vec<u64> = vec![8000, 8500, 9000, 7500, 9500];
    // squared deviations 2_500_000 over 4 gives 625_000, whose root is 790.57
    assert_eq!(calculate_variance(&xs), 625_000);
    assert_eq!(calculate_std_deviation(&xs, 8500), 790);
}

#[test]
fn square_root_rounds_down() {
    assert_eq!(floor_sqrt(0), 0);
    assert_eq!(floor_sqrt(15), 3);
    assert_eq!(floor_sqrt(16), 4);
    assert_eq!(floor_sqrt(u128::MAX), u64::MAX);
}

#[test]
fn slope_rounds_down() {
    assert_eq!(linear_regression_slope(&vec![]), 0);
    assert_eq!(linear_regression_slope(&vec![5000]), 0);
    assert_eq!(linear_regression_slope(&vec![6000, 7000, 8000]), 1000);
    assert_eq!(linear_regression_slope(&vec![9000, 8000]), -1000);
    assert_eq!(linear_regression_slope(&vec![0, 0, 1]), 0);
    assert_eq!(linear_regression_slope(&vec![1, 0, 0]), -1);
    assert_eq!(calculate_recent_slope(&vec![9000, 8000, 7000, 7000], 3), -500);
    assert_eq!(calculate_recent_slope(&vec![9000, 8000], 3), 0);
}

#[test]
fn reliability_coefficient_formula() {
    assert_eq!(internal_consistency(&vec![1, 1], 4, 2), 10000);
    assert_eq!(internal_consistency(&vec![1, 2], 4, 3), 3750);
    assert_eq!(internal_consistency(&vec![3, 3], 4, 2), 0);
    assert_eq!(internal_consistency(&vec![1], 4, 1), 0);
    assert_eq!(internal_consistency(&vec![1, 1], 0, 2), 0);
}

#[test]
fn percentage_of_a_grade() {
    assert_eq!(percentage(&grade("S1", "A1", 1, 3)), 3333);
    assert_eq!(percentage(&grade("S1", "A1", 47, 50)), 9400);
    assert_eq!(percentage(&grade("S1", "A1", 0, 0)), 0);
}

#[test]
fn risk_high_with_all_three_factors() {
    let grades = series("S1", &[100, 90, 0, 0]);
    let refs: Vec<&Grade> = grades.iter().collect();
    assert_eq!(calculate_recent_average(&refs, 3), 3000);
    let a = assess_student_risk("S1", &refs, &[]);
    assert_eq!(a.risk_score, 100);
    assert_eq!(a.risk_level, RiskLevel::High);
    assert_eq!(a.factors, vec![RiskFactor::LowAverage(475), RiskFactor::DecliningTrend, RiskFactor::HighMissingRate(50)]);
    assert_eq!(
        a.recommendations,
        vec![Recommendation::ScheduleMeeting, Recommendation::IdentifyStrugglingTopics, Recommendation::CheckPersonalIssues]
    );
    let texts: Vec<String> = a.factors.iter().map(|f| f.message()).collect();
    assert_eq!(texts, vec!["Low average score: 47.5%", "Declining performance trend", "High missing submission rate: 50%"]);
}

#[test]
fn risk_below_average_is_low_with_default_recommendation() {
    let grades = series("S1", &[65, 65]);
    let refs: Vec<&Grade> = grades.iter().collect();
    let a = assess_student_risk("S1", &refs, &[]);
    assert_eq!(a.risk_score, 20);
    assert_eq!(a.risk_level.label(), "low");
    assert_eq!(a.factors, vec![RiskFactor::BelowAverage(650)]);
    assert_eq!(a.factors[0].message(), "Below average score: 65.0%");
    assert_eq!(a.recommendations, vec![Recommendation::ContinueMonitoring]);
    assert_eq!(a.recommendations[0].message(), "Continue monitoring progress");
}

#[test]
fn risk_some_missing_submissions() {
    let grades = series("S1", &[0, 100, 100, 100, 100, 100]);
    let refs: Vec<&Grade> = grades.iter().collect();
    let a = assess_student_risk("S1", &refs, &[]);
    assert_eq!(a.risk_score, 15);
    assert_eq!(a.factors, vec![RiskFactor::SomeMissing(17)]);
    assert_eq!(a.factors[0].message(), "Some missing submissions: 17%");
    assert_eq!(a.recommendations, vec![Recommendation::ContinueMonitoring]);
}

#[test]
fn risk_without_grades() {
    let refs: Vec<&Grade> = vec![];
    let a = assess_student_risk("S9", &refs, &[]);
    assert_eq!(a.student_id, "S9");
    assert_eq!(a.risk_score, 0);
    assert_eq!(a.risk_level, RiskLevel::Low);
    assert_eq!(a.factors, vec![RiskFactor::NoGrades]);
    assert_eq!(a.factors[0].message(), "No grades available");
    assert_eq!(a.recommendations[0].message(), "Monitor student progress");
}

#[test]
fn early_intervention_buckets_students() {
    let mut grades = series("S1", &[100, 90, 0, 0]);
    grades.insert(1, grade("S2", "A1", 65, 100));
    grades.push(grade("S2", "A2", 65, 100));
    let r = analyze_early_intervention(&grades, &vec![]);
    assert_eq!(r.total_students, 2);
    assert_eq!(r.high_risk.len(), 1);
    assert_eq!(r.high_risk[0].student_id, "S1");
    assert!(r.medium_risk.is_empty());
    assert_eq!(r.low_risk.len(), 1);
    assert_eq!(r.low_risk[0].student_id, "S2");
    assert_eq!(r.low_risk[0].risk_score, 20);
}

#[test]
fn topic_labels() {
    assert_eq!(extract_chapter_name("Week 5 Lab"), "Week 5");
    assert_eq!(extract_chapter_name("Module A1 Intro"), "Module A1");
    assert_eq!(extract_chapter_name("Final Ch 7"), "Chapter 7");
    assert_eq!(extract_chapter_name("Chapter - Unit 3"), "Other");
    assert_eq!(extract_chapter_name("Unit"), "Other");
    assert_eq!(extract_chapter_name(""), "Other");
    assert_eq!(extract_chapter_name("chapter 3"), "Other");
    assert_eq!(extract_topic("Ch 2", &vec![false, false, false, true]), "Chapter 2");
    assert_eq!(extract_topic("Ch 2", &vec![false, false, false, false]), "Other");
}

#[test]
fn chapter_difficulty_sorted_hardest_first() {
    let assignments = vec![
        item("A1", "Chapter 1 Quiz"),
        item("A2", "Chapter 1 Test"),
        item("A3", "Unit 2 Test"),
        item("A4", "Random Assignment"),
    ];
    let grades = vec![
        grade("S1", "A1", 90, 100),
        grade("S2", "A1", 80, 100),
        grade("S1", "A2", 100, 100),
        grade("S1", "A3", 50, 100),
        grade("S2", "A3", 60, 100),
    ];
    let r = analyze_chapter_difficulty(&grades, &assignments);
    assert_eq!(r.total_chapters, 2);
    assert_eq!(r.chapters[0].chapter_name, "Unit 2");
    assert_eq!(r.chapters[0].avg_score, 5500);
    assert_eq!(r.chapters[0].std_deviation, 707);
    assert_eq!(r.chapters[0].difficulty_level, DifficultyLevel::VeryHard);
    assert_eq!(r.chapters[0].student_count, 2);
    assert_eq!(r.chapters[1].chapter_name, "Chapter 1");
    assert_eq!(r.chapters[1].avg_score, 9000);
    assert_eq!(r.chapters[1].std_deviation, 1000);
    assert_eq!(r.chapters[1].difficulty_level.label(), "easy");
    assert_eq!(r.chapters[1].assignment_count, 3);
    assert_eq!(r.hardest_chapter.as_deref(), Some("Unit 2"));
    assert_eq!(r.easiest_chapter.as_deref(), Some("Chapter 1"));
}

#[test]
fn chapter_difficulty_without_grades() {
    let r = analyze_chapter_difficulty(&vec![], &vec![item("A1", "Chapter 1 Quiz")]);
    assert_eq!(r.total_chapters, 0);
    assert!(r.chapters.is_empty());
    assert!(r.hardest_chapter.is_none());
    assert!(r.easiest_chapter.is_none());
}

#[test]
fn difficulty_bands() {
    assert_eq!(categorize_difficulty(8500, 0), DifficultyLevel::Easy);
    assert_eq!(categorize_difficulty(8499, 0), DifficultyLevel::Moderate);
    assert_eq!(categorize_difficulty(7000, 0), DifficultyLevel::Moderate);
    assert_eq!(categorize_difficulty(6000, 0), DifficultyLevel::Hard);
    assert_eq!(categorize_difficulty(5999, 0).label(), "very_hard");
}

#[test]
fn reliability_of_consistent_items() {
    let assignments = vec![item("A1", "Quiz 1"), item("A2", "Quiz 2")];
    let grades = vec![
        grade("S1", "A1", 90, 100),
        grade("S1", "A2", 80, 100),
        grade("S2", "A1", 50, 100),
        grade("S2", "A2", 40, 100),
    ];
    let r = analyze_assessment_quality(&grades, &assignments);
    assert_eq!(r.reliability, 10000);
    assert_eq!(r.reliability_rating, ReliabilityRating::Excellent);
    assert_eq!(r.total_items, 2);
    assert_eq!(r.items[0].difficulty_index, 7000);
    assert_eq!(r.items[0].discrimination_index, 5656);
    assert_eq!(r.items[0].quality_rating, QualityRating::Excellent);
    assert_eq!(r.items[0].recommendation, "Well-designed item with good discrimination");
    assert_eq!(r.items[1].difficulty_index, 6000);
    assert!(r.problematic_items.is_empty());
}

#[test]
fn reliability_degenerate_cases_are_zero() {
    let one_item = vec![item("A1", "Quiz 1")];
    let grades = vec![grade("S1", "A1", 90, 100), grade("S2", "A1", 40, 100)];
    assert_eq!(calculate_cronbachs_alpha(&grades, &one_item), 0);
    let two_items = vec![item("A1", "Quiz 1"), item("A2", "Quiz 2")];
    let one_student = vec![grade("S1", "A1", 90, 100), grade("S1", "A2", 40, 100)];
    assert_eq!(calculate_cronbachs_alpha(&one_student, &two_items), 0);
    assert_eq!(calculate_cronbachs_alpha(&vec![], &two_items), 0);
    let r = analyze_assessment_quality(&vec![], &two_items);
    assert_eq!(r.reliability_rating.label(), "insufficient_data");
    assert_eq!(r.items[0].quality_rating, QualityRating::InsufficientData);
    assert_eq!(r.items[0].recommendation, "Not enough data to analyze");
    assert!(r.problematic_items.is_empty());
    let empty = analyze_assessment_quality(&grades, &vec![]);
    assert_eq!(empty.total_items, 0);
    assert_eq!(empty.reliability, 0);
    assert_eq!(empty.reliability_rating, ReliabilityRating::InsufficientData);
}

#[test]
fn missing_grades_count_as_zero_in_the_matrix() {
    let assignments = vec![item("A1", "Quiz 1"), item("A2", "Quiz 2")];
    // S2 has no grade on A2: the matrix holds 0 there
    let grades = vec![grade("S1", "A1", 90, 100), grade("S1", "A2", 80, 100), grade("S2", "A1", 50, 100)];
    // items: [9000, 5000] variance 8e6, [8000, 0] variance 32e6; totals [17000, 5000] variance 72e6
    // 2 * (1 - 40e6 / 72e6) = 0.888..
    assert_eq!(calculate_cronbachs_alpha(&grades, &assignments), 8888);
}

#[test]
fn single_student_two_items_scenario() {
    let assignments = vec![item("A1", "Quiz 1"), item("A2", "Quiz 2")];
    let grades = vec![grade("S1", "A1", 80, 100), grade("S1", "A2", 85, 100)];
    let r = analyze_assessment_quality(&grades, &assignments);
    assert!(r.reliability <= SCALE);
    assert_eq!(r.reliability, 0);
    assert_eq!(r.reliability_rating.label(), "poor");
    assert_eq!(r.items[0].difficulty_index, 8000);
    assert_eq!(r.items[1].difficulty_index, 8500);
    assert_eq!(r.items[0].discrimination_index, 0);
    assert_eq!(r.items[0].quality_rating.label(), "poor");
    assert_eq!(r.items[1].quality_rating, QualityRating::Poor);
    assert_eq!(r.items[0].recommendation, "Low discrimination - consider revising or removing");
    assert_eq!(r.problematic_items, vec!["Quiz 1".to_string(), "Quiz 2".to_string()]);
}

#[test]
fn item_quality_rules() {
    assert_eq!(rate_item_quality(5000, 1999).0, QualityRating::Poor);
    assert_eq!(rate_item_quality(1999, 5000).0, QualityRating::Fair);
    assert_eq!(rate_item_quality(9001, 5000).1, "Extreme difficulty - most students got it very wrong or very right");
    assert_eq!(rate_item_quality(3000, 4000).0, QualityRating::Excellent);
    assert_eq!(rate_item_quality(7001, 4000).0, QualityRating::Good);
    assert_eq!(rate_item_quality(5000, 3999).1, "Acceptable item quality");
    let fair = vec![grade("S1", "A1", 100, 100), grade("S2", "A1", 100, 100), grade("S3", "A1", 100, 100), grade("S4", "A1", 70, 100)];
    let a = analyze_item(&fair, &item("A1", "Quiz 1"));
    assert_eq!((a.difficulty_index, a.discrimination_index), (9250, 3000));
    assert_eq!(a.quality_rating, QualityRating::Fair);
    let good = vec![grade("S1", "A1", 70, 100), grade("S2", "A1", 90, 100)];
    let b = analyze_item(&good, &item("A1", "Quiz 1"));
    assert_eq!((b.difficulty_index, b.discrimination_index), (8000, 2828));
    assert_eq!(b.quality_rating, QualityRating::Good);
    let excellent = vec![grade("S1", "A1", 20, 100), grade("S2", "A1", 80, 100)];
    let c = analyze_item(&excellent, &item("A1", "Quiz 1"));
    assert_eq!((c.difficulty_index, c.discrimination_index), (5000, 8484));
    assert_eq!(c.quality_rating, QualityRating::Excellent);
}

#[test]
fn reliability_bands() {
    assert_eq!(rate_reliability(9000), ReliabilityRating::Excellent);
    assert_eq!(rate_reliability(8999), ReliabilityRating::Good);
    assert_eq!(rate_reliability(7000), ReliabilityRating::Acceptable);
    assert_eq!(rate_reliability(6000).label(), "questionable");
    assert_eq!(rate_reliability(5999), ReliabilityRating::Poor);
}

#[test]
fn progression_improving_scenario() {
    let grades = series("S1", &[60, 70, 80]);
    let refs: Vec<&Grade> = grades.iter().collect();
    let m = calculate_progression_metrics(&refs, &[]);
    assert_eq!(m.velocity, 1000);
    assert!(m.velocity > 0);
    assert_eq!(m.overall_trend, Trend::Improving);
    assert_eq!(m.current_performance, 8000);
    assert_eq!(m.projected_performance, 9000);
    assert_eq!(m.trend_strength, 10000);
    assert_eq!(m.momentum.label(), "steady");
}

#[test]
fn progression_declining_and_accelerating() {
    let grades = series("S1", &[90, 80, 70, 70]);
    let refs: Vec<&Grade> = grades.iter().collect();
    let m = calculate_progression_metrics(&refs, &[]);
    assert_eq!(m.velocity, -700);
    assert_eq!(m.overall_trend.label(), "declining");
    assert_eq!(m.momentum, Momentum::Accelerating);
    assert_eq!(m.current_performance, 7000);
    assert_eq!(m.projected_performance, 6300);
}

#[test]
fn progression_needs_two_grades() {
    let grades = series("S1", &[60]);
    let refs: Vec<&Grade> = grades.iter().collect();
    let m = calculate_progression_metrics(&refs, &[]);
    assert_eq!(m.overall_trend.label(), "insufficient_data");
    assert_eq!(m.momentum.label(), "unknown");
    assert_eq!((m.velocity, m.current_performance, m.projected_performance, m.trend_strength), (0, 0, 0, 0));
}

#[test]
fn class_progression() {
    let mut grades = series("S1", &[60, 70, 80]);
    grades.extend(series("S2", &[90, 80, 70, 70]));
    grades.extend(series("S3", &[90, 50]));
    let r = analyze_learning_progression(&grades, &vec![]);
    assert_eq!(r.total_students, 3);
    assert_eq!(r.student_progressions[0].student_id, "S1");
    assert_eq!(r.student_progressions[1].metrics.velocity, -700);
    assert_eq!(r.student_progressions[2].metrics.velocity, -4000);
    // (1000 - 700 - 4000) / 3 rounded down
    assert_eq!(r.class_velocity, -1234);
    assert_eq!(r.class_average_trend, Trend::Declining);
}

#[test]
fn patterns_consistent_without_streak() {
    let grades = series("S1", &[80, 82, 81]);
    let refs: Vec<&Grade> = grades.iter().collect();
    let p = analyze_student_patterns("S1", &refs);
    assert!(p.consistency_score > 0 && p.consistency_score <= SCALE);
    assert_eq!(p.consistency_score, 9877);
    assert_eq!((p.current_streak, p.longest_streak), (0, 0));
    assert_eq!(p.patterns.len(), 1);
    assert_eq!(p.patterns[0].pattern_type, PatternKind::Consistent);
    assert_eq!(p.patterns[0].confidence, 9877);
    assert_eq!(p.patterns[0].description, "Very consistent performance across assignments");
}

#[test]
fn patterns_improving_streak() {
    let grades = series("S1", &[50, 60, 70, 80]);
    let refs: Vec<&Grade> = grades.iter().collect();
    let p = analyze_student_patterns("S1", &refs);
    assert_eq!(p.consistency_score, 8016);
    assert_eq!((p.current_streak, p.longest_streak), (3, 3));
    assert_eq!(p.patterns.len(), 2);
    assert_eq!(p.patterns[1].pattern_type.label(), "improving_streak");
    assert_eq!(p.patterns[1].confidence, 9000);
    assert_eq!(p.patterns[1].description, "Currently on a 3-assignment improving streak");
}

#[test]
fn patterns_declining_streak() {
    let grades = series("S1", &[90, 80, 70, 60, 50]);
    let refs: Vec<&Grade> = grades.iter().collect();
    let p = analyze_student_patterns("S1", &refs);
    assert_eq!(p.consistency_score, 7742);
    assert_eq!((p.current_streak, p.longest_streak), (-4, -4));
    assert_eq!(p.patterns.len(), 1);
    assert_eq!(p.patterns[0].pattern_type, PatternKind::DecliningStreak);
    assert_eq!(p.patterns[0].description, "Currently on a 4-assignment declining streak");
}

#[test]
fn patterns_volatile() {
    let grades = series("S1", &[10, 90]);
    let refs: Vec<&Grade> = grades.iter().collect();
    let p = analyze_student_patterns("S1", &refs);
    assert_eq!(p.consistency_score, 0);
    assert_eq!(p.current_streak, 1);
    assert_eq!(p.patterns.len(), 1);
    assert_eq!(p.patterns[0].pattern_type.label(), "volatile");
    assert_eq!(p.patterns[0].confidence, 10000);
    let single = series("S2", &[70]);
    let refs: Vec<&Grade> = single.iter().collect();
    let q = analyze_student_patterns("S2", &refs);
    assert_eq!((q.consistency_score, q.current_streak, q.longest_streak), (0, 0, 0));
    assert!(q.patterns.is_empty());
}

#[test]
fn streak_detection() {
    assert_eq!(detect_streaks(&vec![5000, 6000, 7000, 5000, 4000, 3000, 2000]), (-4, -4));
    assert_eq!(detect_streaks(&vec![5000, 6000, 7000, 8000, 6000]), (-1, 3));
    assert_eq!(detect_streaks(&vec![8000, 8200, 8100]), (0, 0));
    assert_eq!(detect_streaks(&vec![8000]), (0, 0));
}

#[test]
fn class_patterns() {
    let mut grades = series("S1", &[80, 82, 81]);
    grades.extend(series("S2", &[10, 90]));
    let r = analyze_performance_patterns(&grades, &vec![]);
    assert_eq!(r.total_students, 2);
    assert_eq!(r.student_patterns[1].student_id, "S2");
    assert_eq!(r.class_consistency, 4938);
}

#[test]
fn extra_credit_above_the_maximum() {
    let grades = series("S1", &[110, 120, 130]);
    let refs: Vec<&Grade> = grades.iter().collect();
    assert_eq!(percentage(&grades[0]), 11000);
    let a = assess_student_risk("S1", &refs, &[]);
    assert_eq!(a.risk_score, 0);
    let m = calculate_progression_metrics(&refs, &[]);
    assert_eq!(m.velocity, 1000);
    assert_eq!(m.current_performance, 13000);
    assert_eq!(m.projected_performance, SCALE);
    let p = analyze_student_patterns("S1", &refs);
    assert_eq!((p.current_streak, p.longest_streak), (2, 2));
}

#[test]
fn zero_max_score_is_handled() {
    let grades = vec![grade("S1", "A1", 0, 0), grade("S1", "A2", 0, 0), grade("S1", "A3", 0, 0)];
    let assignments = vec![item("A1", "Unit 1 Quiz"), item("A2", "Unit 1 Test")];
    let risk = analyze_early_intervention(&grades, &assignments);
    assert_eq!(risk.high_risk.len(), 1);
    let chapters = analyze_chapter_difficulty(&grades, &assignments);
    assert_eq!(chapters.chapters[0].avg_score, 0);
    let quality = analyze_assessment_quality(&grades, &assignments);
    assert_eq!(quality.reliability, 0);
    let progression = analyze_learning_progression(&grades, &assignments);
    assert_eq!(progression.class_velocity, 0);
    let patterns = analyze_performance_patterns(&grades, &assignments);
    assert_eq!(patterns.class_consistency, 0);
}

#[test]
fn insights_are_repeatable() {
    let assignments = vec![item("A1", "Chapter 1 Quiz"), item("A2", "Unit 2 Test"), item("A3", "Week 3 Lab")];
    let mut grades = series("S2", &[55, 75, 40]);
    grades.extend(series("S1", &[90, 85, 95]));
    grades.extend(series("S3", &[0, 60, 70]));
    assert_eq!(
        format!("{:?}", analyze_early_intervention(&grades, &assignments)),
        format!("{:?}", analyze_early_intervention(&grades, &assignments))
    );
    assert_eq!(
        format!("{:?}", analyze_chapter_difficulty(&grades, &assignments)),
        format!("{:?}", analyze_chapter_difficulty(&grades, &assignments))
    );
    assert_eq!(
        format!("{:?}", analyze_assessment_quality(&grades, &assignments)),
        format!("{:?}", analyze_assessment_quality(&grades, &assignments))
    );
    assert_eq!(
        format!("{:?}", analyze_learning_progression(&grades, &assignments)),
        format!("{:?}", analyze_learning_progression(&grades, &assignments))
    );
    assert_eq!(
        format!("{:?}", analyze_performance_patterns(&grades, &assignments)),
        format!("{:?}", analyze_performance_patterns(&grades, &assignments))
    );
}

//! Performance patterns: consistency and streaks of each student.
use vstd::prelude::*;
use crate::cohort::{distinct_ids, group_by_student, lemma_select_valid, of_student, string_views, student_grades};
use crate::records::{Assignment, Grade, deref_all, lemma_percents_in_range, percents, percentages, valid_grades, MAX_PERCENT};
use crate::stats::{
    calculate_mean, calculate_std_deviation, lemma_mean_bound, lemma_root_unique, lemma_variance_bound, mean_of, root,
    variance_about, MAX_LEN, SCALE,
};
use crate::text::{decimal, push_decimal};

verus! {

/// A recognised pattern in a student's scores.
#[derive(Clone, Copy, Debug, PartialEq, Eq, Structural)]
pub enum PatternKind {
    Consistent,
    Volatile,
    ImprovingStreak,
    DecliningStreak,
}

/// One pattern, with its confidence in units of `1 / SCALE`.
#[derive(Clone, Debug)]
pub struct PerformancePattern {
    pub pattern_type: PatternKind,
    pub description: String,
    pub confidence: u64,
}

/// Patterns of one student. Consistency is in units of `1 / SCALE`; a
/// positive streak counts improving steps, a negative one declining steps.
#[derive(Clone, Debug)]
pub struct StudentPattern {
    pub student_id: String,
    pub consistency_score: u64,
    pub current_streak: i64,
    pub longest_streak: i64,
    pub patterns: Vec<PerformancePattern>,
}

/// Patterns of every student, with the class's mean consistency.
#[derive(Clone, Debug)]
pub struct PerformancePatternsResult {
    pub student_patterns: Vec<StudentPattern>,
    pub class_consistency: u64,
    pub total_students: usize,
}

/// Consistency of a series: one minus its coefficient of variation, capped
/// to `[0, 1]`; zero below two values or with a zero mean.
pub open spec fn consistency_for(p: Seq<u64>) -> int {
    let m = mean_of(p);
    if p.len() < 2 || m == 0 {
        0
    } else {
        let cv = SCALE * root(variance_about(p, m)) / m;
        if cv >= SCALE {
            0
        } else {
            SCALE - cv
        }
    }
}

/// The streak after a step of `d`: a rise of more than two points extends
/// or starts an improving streak, a fall of more than two points a declining
/// one, anything else ends the streak.
pub open spec fn next_streak(c: int, d: int) -> int {
    if d > 200 {
        if c > 0 {
            c + 1
        } else {
            1
        }
    } else if d < -200 {
        if c < 0 {
            c - 1
        } else {
            -1
        }
    } else {
        0
    }
}

/// The longer of two streaks by magnitude, the earlier on a tie.
pub open spec fn longer(l: int, c: int) -> int {
    if (if c < 0 { -c } else { c }) > (if l < 0 { -l } else { l }) {
        c
    } else {
        l
    }
}

/// The current streak at the end of the series and the longest one seen.
pub open spec fn streaks(p: Seq<u64>) -> (int, int)
    decreases p.len(),
{
    if p.len() < 2 {
        (0, 0)
    } else {
        let prev = streaks(p.drop_last());
        let c = next_streak(prev.0, p.last() - p[p.len() - 2]);
        (c, longer(prev.1, c))
    }
}

/// The description of a consistent series.
pub open spec fn consistent_text() -> Seq<char> {
    "Very consistent performance across assignments"@
}

/// The description of a volatile series.
pub open spec fn volatile_text() -> Seq<char> {
    "Highly variable performance - scores fluctuate significantly"@
}

/// The description of a streak of `n` steps.
pub open spec fn streak_text(n: nat, improving: bool) -> Seq<char> {
    "Currently on a "@ + decimal(n) + if improving {
        "-assignment improving streak"@
    } else {
        "-assignment declining streak"@
    }
}

/// The patterns of a series: kind, confidence and description of each.
pub open spec fn patterns_of(p: Seq<u64>) -> Seq<(PatternKind, int, Seq<char>)> {
    let c = consistency_for(p);
    let cur = streaks(p).0;
    if p.len() < 2 {
        Seq::empty()
    } else {
        (if c >= 8000 {
            seq![(PatternKind::Consistent, c, consistent_text())]
        } else if c < 5000 {
            seq![(PatternKind::Volatile, SCALE - c, volatile_text())]
        } else {
            Seq::empty()
        }) + (if cur >= 3 {
            seq![(PatternKind::ImprovingStreak, 9000int, streak_text(cur as nat, true))]
        } else if cur <= -3 {
            seq![(PatternKind::DecliningStreak, 9000int, streak_text((-cur) as nat, false))]
        } else {
            Seq::empty()
        })
    }
}

/// The patterns `ps` are, in order, those described by `e`.
pub open spec fn patterns_match(ps: Seq<PerformancePattern>, e: Seq<(PatternKind, int, Seq<char>)>) -> bool {
    &&& ps.len() == e.len()
    &&& forall|i: int| 0 <= i < ps.len() ==> {
        &&& (#[trigger] ps[i]).pattern_type == e[i].0
        &&& ps[i].confidence == e[i].1
        &&& ps[i].description@ == e[i].2
    }
}

/// `sp` holds the patterns of student `sid` whose grades are `gs`.
pub open spec fn pattern_matches(sp: StudentPattern, sid: Seq<char>, gs: Seq<Grade>) -> bool {
    let p = percents(gs);
    &&& sp.student_id@ == sid
    &&& sp.consistency_score == consistency_for(p)
    &&& sp.current_streak == streaks(p).0
    &&& sp.longest_streak == streaks(p).1
    &&& patterns_match(sp.patterns@, patterns_of(p))
}

proof fn lemma_streak_bounds(p: Seq<u64>)
    ensures
        -p.len() <= streaks(p).0 <= p.len(),
        -p.len() <= streaks(p).1 <= p.len(),
    decreases p.len(),
{
    if p.len() >= 2 {
        lemma_streak_bounds(p.drop_last());
    }
}

/// The current streak at the end of the scores and the longest streak seen,
/// by magnitude; positive for improving, negative for declining.
pub fn detect_streaks(scores: &Vec<u64>) -> (r: (i64, i64))
    requires
        scores@.len() <= MAX_LEN,
    ensures
        r.0 == streaks(scores@).0,
        r.1 == streaks(scores@).1,
{
    let n = scores.len();
    if n < 2 {
        return (0, 0);
    }
    let mut current: i64 = 0;
    let mut longest: i64 = 0;
    let mut i: usize = 1;
    while i < n
        invariant
            n == scores@.len(),
            n <= MAX_LEN,
            1 <= i <= n,
            current == streaks(scores@.take(i as int)).0,
            longest == streaks(scores@.take(i as int)).1,
        decreases n - i,
    {
        proof {
            lemma_streak_bounds(scores@.take(i as int));
            assert(scores@.take(i + 1).drop_last() == scores@.take(i as int));
            assert(scores@.take(i + 1).last() == scores@[i as int]);
            assert(scores@.take(i + 1)[i - 1] == scores@[i - 1]);
        }
        let a = scores[i];
        let b = scores[i - 1];
        if a > b && a - b > 200 {
            if current > 0 {
                current = current + 1;
            } else {
                current = 1;
            }
        } else if b > a && b - a > 200 {
            if current < 0 {
                current = current - 1;
            } else {
                current = -1;
            }
        } else {
            current = 0;
        }
        let cur_abs: i64 = if current < 0 { -current } else { current };
        let long_abs: i64 = if longest < 0 { -longest } else { longest };
        if cur_abs > long_abs {
            longest = current;
        }
        i = i + 1;
    }
    assert(scores@.take(n as int) == scores@);
    (current, longest)
}

/// Consistency, streaks and recognised patterns of one student, from the
/// student's grades in input order.
pub fn analyze_student_patterns(student_id: &str, grades: &[&Grade]) -> (r: StudentPattern)
    requires
        valid_grades(deref_all(grades@)),
    ensures
        pattern_matches(r, student_id@, deref_all(grades@)),
        r.consistency_score <= SCALE,
{
    let ghost p = percents(deref_all(grades@));
    if grades.len() < 2 {
        let patterns: Vec<PerformancePattern> = Vec::new();
        assert(patterns@ =~= Seq::<PerformancePattern>::empty());
        return StudentPattern {
            student_id: student_id.to_owned(),
            consistency_score: 0,
            current_streak: 0,
            longest_streak: 0,
            patterns,
        };
    }
    let scores = percentages(grades);
    proof {
        lemma_percents_in_range(deref_all(grades@));
    }
    let mean = calculate_mean(&scores);
    proof {
        lemma_mean_bound(scores@, MAX_PERCENT as int);
    }
    let std_dev = calculate_std_deviation(&scores, mean);
    proof {
        lemma_root_unique(std_dev as int, variance_about(p, mean as int));
        lemma_variance_bound(p, mean as int, MAX_PERCENT as int);
        assert(std_dev <= 2 * MAX_PERCENT) by (nonlinear_arith)
            requires std_dev * std_dev <= 2 * (MAX_PERCENT * MAX_PERCENT), std_dev >= 0;
    }
    let consistency_score: u64 = if mean == 0 {
        0
    } else {
        let cv = SCALE * std_dev / mean;
        if cv >= SCALE {
            0
        } else {
            SCALE - cv
        }
    };
    let (current_streak, longest_streak) = detect_streaks(&scores);
    let mut patterns: Vec<PerformancePattern> = Vec::new();
    if consistency_score >= 8000 {
        patterns.push(PerformancePattern {
            pattern_type: PatternKind::Consistent,
            description: String::from_str("Very consistent performance across assignments"),
            confidence: consistency_score,
        });
    } else if consistency_score < 5000 {
        patterns.push(PerformancePattern {
            pattern_type: PatternKind::Volatile,
            description: String::from_str("Highly variable performance - scores fluctuate significantly"),
            confidence: SCALE - consistency_score,
        });
    }
    let ghost first = patterns@;
    proof {
        lemma_streak_bounds(p);
    }
    if current_streak >= 3 || current_streak <= -3 {
        let improving = current_streak > 0;
        let count: u64 = if improving { current_streak as u64 } else { (-current_streak) as u64 };
        let mut description = String::from_str("Currently on a ");
        push_decimal(&mut description, count);
        if improving {
            description.append("-assignment improving streak");
        } else {
            description.append("-assignment declining streak");
        }
        let pattern_type = if improving { PatternKind::ImprovingStreak } else { PatternKind::DecliningStreak };
        patterns.push(PerformancePattern { pattern_type, description, confidence: 9000 });
    }
    proof {
        let e = patterns_of(p);
        assert(scores@ == p);
        if patterns@.len() > first.len() {
            assert(patterns@ == first.push(patterns@[first.len() as int]));
        } else {
            assert(patterns@ == first);
        }
        assert(patterns@.len() == e.len());
        assert forall|i: int| 0 <= i < patterns@.len() implies {
            &&& (#[trigger] patterns@[i]).pattern_type == e[i].0
            &&& patterns@[i].confidence == e[i].1
            &&& patterns@[i].description@ == e[i].2
        } by {}
    }
    StudentPattern {
        student_id: student_id.to_owned(),
        consistency_score,
        current_streak,
        longest_streak,
        patterns,
    }
}

/// Each student's consistency, students in order of their first grade.
pub open spec fn consistencies(gs: Seq<Grade>) -> Seq<u64> {
    let ids = distinct_ids(gs);
    Seq::new(ids.len(), |j: int| consistency_for(percents(student_grades(gs, ids[j]))) as u64)
}

/// `r` is the performance-patterns report of the grades `gs`.
pub open spec fn is_patterns_report(gs: Seq<Grade>, r: PerformancePatternsResult) -> bool {
    &&& r.total_students == distinct_ids(gs).len()
    &&& r.student_patterns@.len() == r.total_students
    &&& forall|j: int| 0 <= j < r.student_patterns@.len() ==> pattern_matches(
        #[trigger] r.student_patterns@[j],
        distinct_ids(gs)[j],
        student_grades(gs, distinct_ids(gs)[j]),
    )
    &&& r.class_consistency == mean_of(consistencies(gs))
}

/// Patterns of every student, students in order of their first grade, with
/// the class's mean consistency rounded down.
pub fn analyze_performance_patterns(grades: &Vec<Grade>, _assignments: &Vec<Assignment>) -> (r: PerformancePatternsResult)
    requires
        valid_grades(grades@),
    ensures
        is_patterns_report(grades@, r),
{
    let ghost gs = grades@;
    let (ids, groups) = group_by_student(grades);
    let ghost idv = string_views(ids@);
    let ghost cs = consistencies(gs);
    proof {
        crate::cohort::lemma_distinct_ids_len(gs);
    }
    let mut student_patterns: Vec<StudentPattern> = Vec::new();
    let mut scores: Vec<u64> = Vec::new();
    let mut j: usize = 0;
    while j < ids.len()
        invariant
            gs == grades@,
            valid_grades(gs),
            idv == string_views(ids@),
            idv == distinct_ids(gs),
            cs == consistencies(gs),
            ids@.len() <= MAX_LEN,
            groups@.len() == ids@.len(),
            forall|t: int| 0 <= t < groups@.len() ==> deref_all(#[trigger] groups@[t]@) == student_grades(gs, ids@[t]@),
            j <= ids@.len(),
            student_patterns@.len() == j,
            forall|t: int| 0 <= t < j ==> pattern_matches(#[trigger] student_patterns@[t], idv[t], student_grades(gs, idv[t])),
            scores@ == cs.take(j as int),
            forall|t: int| 0 <= t < scores@.len() ==> #[trigger] scores@[t] <= SCALE,
        decreases ids@.len() - j,
    {
        let ghost id = ids@[j as int]@;
        assert(idv[j as int] == id);
        proof {
            lemma_select_valid(gs, of_student(id));
        }
        let sp = analyze_student_patterns(ids[j].as_str(), groups[j].as_slice());
        scores.push(sp.consistency_score);
        student_patterns.push(sp);
        j = j + 1;
        assert(scores@ =~= cs.take(j as int));
    }
    assert(scores@ =~= cs);
    let class_consistency = calculate_mean(&scores);
    PerformancePatternsResult {
        total_students: ids.len(),
        class_consistency,
        student_patterns,
    }
}


/// The two student entries agree field by field.
pub open spec fn same_student_pattern(a: StudentPattern, b: StudentPattern) -> bool {
    &&& a.student_id@ == b.student_id@
    &&& a.consistency_score == b.consistency_score
    &&& a.current_streak == b.current_streak
    &&& a.longest_streak == b.longest_streak
    &&& a.patterns@.len() == b.patterns@.len()
    &&& forall|i: int| 0 <= i < a.patterns@.len() ==> {
        &&& (#[trigger] a.patterns@[i]).pattern_type == b.patterns@[i].pattern_type
        &&& a.patterns@[i].confidence == b.patterns@[i].confidence
        &&& a.patterns@[i].description@ == b.patterns@[i].description@
    }
}

/// The performance-patterns report is determined by the grades: two reports
/// of the same grades agree in every field.
pub proof fn lemma_patterns_report_deterministic(
    gs: Seq<Grade>,
    r1: PerformancePatternsResult,
    r2: PerformancePatternsResult,
)
    requires
        is_patterns_report(gs, r1),
        is_patterns_report(gs, r2),
    ensures
        r1.total_students == r2.total_students,
        r1.class_consistency == r2.class_consistency,
        r1.student_patterns@.len() == r2.student_patterns@.len(),
        forall|j: int| 0 <= j < r1.student_patterns@.len() ==> same_student_pattern(
            #[trigger] r1.student_patterns@[j],
            r2.student_patterns@[j],
        ),
{
    assert forall|j: int| 0 <= j < r1.student_patterns@.len() implies same_student_pattern(
        #[trigger] r1.student_patterns@[j],
        r2.student_patterns@[j],
    ) by {
        let id = distinct_ids(gs)[j];
        let sg = student_grades(gs, id);
        let a = r1.student_patterns@[j];
        let b = r2.student_patterns@[j];
        assert(pattern_matches(a, id, sg));
        assert(pattern_matches(b, id, sg));
        let e = patterns_of(percents(sg));
        assert forall|i: int| 0 <= i < a.patterns@.len() implies {
            &&& (#[trigger] a.patterns@[i]).pattern_type == b.patterns@[i].pattern_type
            &&& a.patterns@[i].confidence == b.patterns@[i].confidence
            &&& a.patterns@[i].description@ == b.patterns@[i].description@
        } by {
            assert(b.patterns@[i].pattern_type == e[i].0);
        }
    }
}

/// The report label of a pattern kind.
pub open spec fn pattern_label(v: PatternKind) -> Seq<char> {
    match v {
        PatternKind::Consistent => "consistent"@,
        PatternKind::Volatile => "volatile"@,
        PatternKind::ImprovingStreak => "improving_streak"@,
        PatternKind::DecliningStreak => "declining_streak"@,
    }
}

impl PatternKind {
    /// The label written for this value in reports.
    pub fn label(&self) -> (r: &'static str)
        ensures
            r@ == pattern_label(*self),
    {
        match self {
            PatternKind::Consistent => "consistent",
            PatternKind::Volatile => "volatile",
            PatternKind::ImprovingStreak => "improving_streak",
            PatternKind::DecliningStreak => "declining_streak",
        }
    }
}

} // verus!

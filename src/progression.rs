//! Learning progression: each student's trend and momentum over input order.
use vstd::prelude::*;
use crate::cohort::{distinct_ids, group_by_student, lemma_select_valid, of_student, string_views, student_grades};
use crate::records::{Assignment, Grade, deref_all, lemma_percents_in_range, percents, percentages, valid_grades};
use crate::stats::{calculate_recent_slope, linear_regression_slope, recent_slope_of, slope_of, MAX_VALUE, SCALE};

verus! {

/// Direction of a series of scores.
#[derive(Clone, Copy, Debug, PartialEq, Eq, Structural)]
pub enum Trend {
    Improving,
    Declining,
    Stable,
    InsufficientData,
}

/// Whether the latest scores move faster or slower than the whole series.
#[derive(Clone, Copy, Debug, PartialEq, Eq, Structural)]
pub enum Momentum {
    Accelerating,
    Decelerating,
    Steady,
    Unknown,
}

/// Progression of one student. Velocity is in hundredths of a percentage
/// point per assessment; performances in hundredths of a percent; strength in
/// units of `1 / SCALE`.
#[derive(Clone, Copy, Debug, PartialEq, Eq, Structural)]
pub struct ProgressionMetrics {
    pub overall_trend: Trend,
    pub trend_strength: u64,
    pub velocity: i64,
    pub momentum: Momentum,
    pub current_performance: u64,
    pub projected_performance: u64,
}

/// The progression of one student.
#[derive(Clone, Debug)]
pub struct StudentProgression {
    pub student_id: String,
    pub metrics: ProgressionMetrics,
}

/// Progression of every student and of the class.
#[derive(Clone, Debug)]
pub struct LearningProgressionResult {
    pub student_progressions: Vec<StudentProgression>,
    pub class_average_trend: Trend,
    pub class_velocity: i64,
    pub total_students: usize,
}

/// Trend of one student: above two points per assessment improving, below
/// minus two declining.
pub open spec fn trend_for(v: int) -> Trend {
    if v > 200 {
        Trend::Improving
    } else if v < -200 {
        Trend::Declining
    } else {
        Trend::Stable
    }
}

/// Trend of the class: above one point per assessment improving, below minus
/// one declining.
pub open spec fn class_trend_for(v: int) -> Trend {
    if v > 100 {
        Trend::Improving
    } else if v < -100 {
        Trend::Declining
    } else {
        Trend::Stable
    }
}

/// Momentum from the slope of the last three scores against the overall slope.
pub open spec fn momentum_for(recent: int, v: int) -> Momentum {
    if recent > v + 100 {
        Momentum::Accelerating
    } else if recent < v - 100 {
        Momentum::Decelerating
    } else {
        Momentum::Steady
    }
}

/// Trend strength: a tenth of the speed in points, capped at 1.
pub open spec fn strength_for(v: int) -> int {
    let a = if v < 0 { -v } else { v };
    if 10 * a >= SCALE {
        SCALE as int
    } else {
        10 * a
    }
}

/// The last score plus the velocity, kept within 0% and 100%.
pub open spec fn projection(current: int, v: int) -> int {
    if current + v < 0 {
        0
    } else if current + v > SCALE {
        SCALE as int
    } else {
        current + v
    }
}

/// Progression of a student whose percentages, in input order, are `p`.
pub open spec fn progression_of(p: Seq<u64>) -> ProgressionMetrics {
    if p.len() < 2 {
        ProgressionMetrics {
            overall_trend: Trend::InsufficientData,
            trend_strength: 0,
            velocity: 0,
            momentum: Momentum::Unknown,
            current_performance: 0,
            projected_performance: 0,
        }
    } else {
        let v = slope_of(p);
        ProgressionMetrics {
            overall_trend: trend_for(v),
            trend_strength: strength_for(v) as u64,
            velocity: v as i64,
            momentum: if p.len() >= 3 {
                momentum_for(recent_slope_of(p, 3), v)
            } else {
                Momentum::Steady
            },
            current_performance: p.last(),
            projected_performance: projection(p.last() as int, v) as u64,
        }
    }
}

/// Progression of one student from the student's grades in input order.
pub fn calculate_progression_metrics(grades: &[&Grade], _assignments: &[Assignment]) -> (r: ProgressionMetrics)
    requires
        valid_grades(deref_all(grades@)),
    ensures
        r == progression_of(percents(deref_all(grades@))),
        -2 * MAX_VALUE - 1 <= r.velocity <= 2 * MAX_VALUE,
{
    if grades.len() < 2 {
        return ProgressionMetrics {
            overall_trend: Trend::InsufficientData,
            trend_strength: 0,
            velocity: 0,
            momentum: Momentum::Unknown,
            current_performance: 0,
            projected_performance: 0,
        };
    }
    let scores = percentages(grades);
    proof {
        lemma_percents_in_range(deref_all(grades@));
    }
    let velocity = linear_regression_slope(&scores);
    let overall_trend = if velocity > 200 {
        Trend::Improving
    } else if velocity < -200 {
        Trend::Declining
    } else {
        Trend::Stable
    };
    let speed: u64 = if velocity < 0 { (-velocity) as u64 } else { velocity as u64 };
    let trend_strength = if speed >= 1000 { SCALE } else { 10 * speed };
    let momentum = if scores.len() >= 3 {
        let recent = calculate_recent_slope(&scores, 3);
        if recent > velocity + 100 {
            Momentum::Accelerating
        } else if recent < velocity - 100 {
            Momentum::Decelerating
        } else {
            Momentum::Steady
        }
    } else {
        Momentum::Steady
    };
    let current_performance = scores[scores.len() - 1];
    let projected = (current_performance as i64) + velocity;
    let projected_performance = if projected < 0 {
        0
    } else if projected > SCALE as i64 {
        SCALE
    } else {
        projected as u64
    };
    proof {
        assert(scores@.last() == scores@[scores@.len() - 1]);
    }
    ProgressionMetrics {
        overall_trend,
        trend_strength,
        velocity,
        momentum,
        current_performance,
        projected_performance,
    }
}

/// The sum of a sequence of signed values.
pub open spec fn sum_signed(xs: Seq<i64>) -> int
    decreases xs.len(),
{
    if xs.len() == 0 {
        0
    } else {
        sum_signed(xs.drop_last()) + xs.last()
    }
}

/// Each student's velocity, students in order of their first grade.
pub open spec fn velocities(gs: Seq<Grade>) -> Seq<i64> {
    let ids = distinct_ids(gs);
    Seq::new(ids.len(), |j: int| progression_of(percents(student_grades(gs, ids[j]))).velocity)
}

/// Mean velocity of the class, rounded down; zero without students.
pub open spec fn class_velocity_of(gs: Seq<Grade>) -> int {
    let vs = velocities(gs);
    if vs.len() == 0 {
        0
    } else {
        sum_signed(vs) / (vs.len() as int)
    }
}

/// Mean of signed values rounded down, from their sum and count.
fn floor_mean(total: i128, count: u64) -> (r: i64)
    requires
        count > 0,
        -(count * (2 * MAX_VALUE + 1)) <= total <= count * (2 * MAX_VALUE),
    ensures
        r == total as int / count as int,
{
    let c = count as i128;
    proof {
        vstd::arithmetic::div_mod::lemma_fundamental_div_mod(total as int, count as int);
        vstd::arithmetic::div_mod::lemma_mod_bound(total as int, count as int);
        let t = total as int;
        let c0 = count as int;
        let q = t / c0;
        let m = t % c0;
        assert(-(2 * MAX_VALUE + 1) <= q <= 2 * MAX_VALUE) by (nonlinear_arith)
            requires c0 * q + m == t,
                0 <= m < c0,
                -(c0 * (2 * MAX_VALUE + 1)) <= t <= c0 * (2 * MAX_VALUE);
    }
    proof {
        assert(count * (2 * MAX_VALUE + 1) <= 0x1_0000_0000_0000_0000_0000_0000_0000) by (nonlinear_arith)
            requires count <= u64::MAX;
    }
    if total >= 0 {
        (total / c) as i64
    } else {
        let d = -total;
        let q = (d + c - 1) / c;
        proof {
            let x = total as int;
            let di = d as int;
            let dn = c as int;
            let qi = q as int;
            vstd::arithmetic::div_mod::lemma_fundamental_div_mod(di + dn - 1, dn);
            vstd::arithmetic::div_mod::lemma_mod_pos_bound(di + dn - 1, dn);
            let rr = (di + dn - 1) % dn;
            assert(dn * qi + rr == di + dn - 1);
            assert(qi * dn >= di) by (nonlinear_arith)
                requires dn * qi + rr == di + dn - 1, rr < dn;
            assert(qi * dn - di < dn) by (nonlinear_arith)
                requires dn * qi + rr == di + dn - 1, rr >= 0;
            assert(x == (-qi) * dn + (qi * dn - di)) by (nonlinear_arith)
                requires x == -di;
            vstd::arithmetic::div_mod::lemma_fundamental_div_mod_converse(x, dn, -qi, qi * dn - di);
        }
        -(q as i64)
    }
}

/// `sp` is the progression of student `sid` whose grades are `gs`.
pub open spec fn progression_matches(sp: StudentProgression, sid: Seq<char>, gs: Seq<Grade>) -> bool {
    &&& sp.student_id@ == sid
    &&& sp.metrics == progression_of(percents(gs))
}

/// `r` is the learning-progression report of the grades `gs`.
pub open spec fn is_progression_report(gs: Seq<Grade>, r: LearningProgressionResult) -> bool {
    &&& r.total_students == distinct_ids(gs).len()
    &&& r.student_progressions@.len() == r.total_students
    &&& forall|j: int| 0 <= j < r.student_progressions@.len() ==> progression_matches(
        #[trigger] r.student_progressions@[j],
        distinct_ids(gs)[j],
        student_grades(gs, distinct_ids(gs)[j]),
    )
    &&& r.class_velocity == class_velocity_of(gs)
    &&& r.class_average_trend == class_trend_for(r.class_velocity as int)
}

/// Progression of every student, students in order of their first grade,
/// with the class's mean velocity and trend.
pub fn analyze_learning_progression(grades: &Vec<Grade>, assignments: &Vec<Assignment>) -> (r: LearningProgressionResult)
    requires
        valid_grades(grades@),
    ensures
        is_progression_report(grades@, r),
{
    let ghost gs = grades@;
    let (ids, groups) = group_by_student(grades);
    let ghost idv = string_views(ids@);
    let ghost vs = velocities(gs);
    let mut student_progressions: Vec<StudentProgression> = Vec::new();
    let mut total: i128 = 0;
    let mut j: usize = 0;
    proof {
        crate::cohort::lemma_distinct_ids_len(gs);
    }
    while j < ids.len()
        invariant
            gs == grades@,
            valid_grades(gs),
            idv == string_views(ids@),
            idv == distinct_ids(gs),
            vs == velocities(gs),
            ids@.len() <= crate::stats::MAX_LEN,
            groups@.len() == ids@.len(),
            forall|t: int| 0 <= t < groups@.len() ==> deref_all(#[trigger] groups@[t]@) == student_grades(gs, ids@[t]@),
            j <= ids@.len(),
            student_progressions@.len() == j,
            forall|t: int| 0 <= t < j ==> progression_matches(#[trigger] student_progressions@[t], idv[t], student_grades(gs, idv[t])),
            total == sum_signed(vs.take(j as int)),
            -(j * (2 * MAX_VALUE + 1)) <= total <= j * (2 * MAX_VALUE),
        decreases ids@.len() - j,
    {
        let ghost id = ids@[j as int]@;
        assert(idv[j as int] == id);
        proof {
            lemma_select_valid(gs, of_student(id));
        }
        let metrics = calculate_progression_metrics(groups[j].as_slice(), assignments.as_slice());
        assert(vs.take(j + 1).drop_last() == vs.take(j as int));
        assert(vs[j as int] == metrics.velocity);
        proof {
            let w = 2 * MAX_VALUE + 1;
            assert((j + 1) * (2 * MAX_VALUE) <= crate::stats::MAX_LEN * (2 * MAX_VALUE)) by (nonlinear_arith)
                requires j + 1 <= crate::stats::MAX_LEN;
            assert((j + 1) * w <= 0x1_0000_0000_0000_0000_0000_0000_0000) by (nonlinear_arith)
                requires j + 1 <= crate::stats::MAX_LEN, w == 2 * MAX_VALUE + 1;
            assert((j + 1) * (2 * MAX_VALUE) <= 0x1_0000_0000_0000_0000_0000_0000_0000) by (nonlinear_arith)
                requires j + 1 <= crate::stats::MAX_LEN;
            assert((j + 1) * w == j * w + w) by (nonlinear_arith);
            assert((j + 1) * (2 * MAX_VALUE) == j * (2 * MAX_VALUE) + 2 * MAX_VALUE) by (nonlinear_arith);
        }
        total = total + metrics.velocity as i128;
        student_progressions.push(StudentProgression { student_id: ids[j].clone(), metrics });
        j = j + 1;
    }
    assert(vs.take(ids@.len() as int) == vs);
    let count = ids.len();
    let class_velocity = if count > 0 { floor_mean(total, count as u64) } else { 0 };
    let class_average_trend = if class_velocity > 100 {
        Trend::Improving
    } else if class_velocity < -100 {
        Trend::Declining
    } else {
        Trend::Stable
    };
    LearningProgressionResult {
        total_students: count,
        class_average_trend,
        class_velocity,
        student_progressions,
    }
}


/// The learning-progression report is determined by the grades: two reports
/// of the same grades agree in every field.
pub proof fn lemma_progression_report_deterministic(
    gs: Seq<Grade>,
    r1: LearningProgressionResult,
    r2: LearningProgressionResult,
)
    requires
        is_progression_report(gs, r1),
        is_progression_report(gs, r2),
    ensures
        r1.total_students == r2.total_students,
        r1.class_velocity == r2.class_velocity,
        r1.class_average_trend == r2.class_average_trend,
        r1.student_progressions@.len() == r2.student_progressions@.len(),
        forall|j: int| 0 <= j < r1.student_progressions@.len() ==> {
            &&& (#[trigger] r1.student_progressions@[j]).student_id@ == r2.student_progressions@[j].student_id@
            &&& r1.student_progressions@[j].metrics == r2.student_progressions@[j].metrics
        },
{
    assert forall|j: int| 0 <= j < r1.student_progressions@.len() implies {
        &&& (#[trigger] r1.student_progressions@[j]).student_id@ == r2.student_progressions@[j].student_id@
        &&& r1.student_progressions@[j].metrics == r2.student_progressions@[j].metrics
    } by {
        let id = distinct_ids(gs)[j];
        assert(progression_matches(r1.student_progressions@[j], id, student_grades(gs, id)));
        assert(progression_matches(r2.student_progressions@[j], id, student_grades(gs, id)));
    }
}

/// The report label of a trend.
pub open spec fn trend_label(v: Trend) -> Seq<char> {
    match v {
        Trend::Improving => "improving"@,
        Trend::Declining => "declining"@,
        Trend::Stable => "stable"@,
        Trend::InsufficientData => "insufficient_data"@,
    }
}

impl Trend {
    /// The label written for this value in reports.
    pub fn label(&self) -> (r: &'static str)
        ensures
            r@ == trend_label(*self),
    {
        match self {
            Trend::Improving => "improving",
            Trend::Declining => "declining",
            Trend::Stable => "stable",
            Trend::InsufficientData => "insufficient_data",
        }
    }
}

/// The report label of a momentum.
pub open spec fn momentum_label(v: Momentum) -> Seq<char> {
    match v {
        Momentum::Accelerating => "accelerating"@,
        Momentum::Decelerating => "decelerating"@,
        Momentum::Steady => "steady"@,
        Momentum::Unknown => "unknown"@,
    }
}

impl Momentum {
    /// The label written for this value in reports.
    pub fn label(&self) -> (r: &'static str)
        ensures
            r@ == momentum_label(*self),
    {
        match self {
            Momentum::Accelerating => "accelerating",
            Momentum::Decelerating => "decelerating",
            Momentum::Steady => "steady",
            Momentum::Unknown => "unknown",
        }
    }
}

} // verus!

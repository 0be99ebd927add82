//! Early-intervention risk assessment per student.
use vstd::prelude::*;
use crate::cohort::{of_student, distinct_ids, group_by_student, select, string_views, student_grades, lemma_select_valid};
use crate::records::{Assignment, Grade, deref_all, lemma_percents_in_range, missing_count, percents, percentages, valid_grades, MAX_PERCENT};
use crate::text::{decimal, digit_char, push_decimal};
use crate::stats::{calculate_mean, calculate_sum, mean_of, sum, lemma_sum_bounds};

verus! {

/// How urgently a student needs attention.
#[derive(Clone, Copy, Debug, PartialEq, Eq, Structural)]
pub enum RiskLevel {
    High,
    Medium,
    Low,
}

/// A reason that contributed to a student's risk score. Averages are in
/// tenths of a percent and rates in whole percent, both rounded half up.
#[derive(Clone, Copy, Debug, PartialEq, Eq, Structural)]
pub enum RiskFactor {
    NoGrades,
    LowAverage(u64),
    BelowAverage(u64),
    DecliningTrend,
    HighMissingRate(u64),
    SomeMissing(u64),
}

/// A suggested action for the teacher.
#[derive(Clone, Copy, Debug, PartialEq, Eq, Structural)]
pub enum Recommendation {
    MonitorProgress,
    ScheduleMeeting,
    IdentifyStrugglingTopics,
    CheckPersonalIssues,
    ContinueMonitoring,
}

/// The risk assessment of one student.
#[derive(Clone, Debug)]
pub struct RiskAssessment {
    pub student_id: String,
    pub risk_level: RiskLevel,
    pub risk_score: u32,
    pub factors: Vec<RiskFactor>,
    pub recommendations: Vec<Recommendation>,
}

/// All students, bucketed by risk level.
#[derive(Clone, Debug)]
pub struct EarlyInterventionResult {
    pub high_risk: Vec<RiskAssessment>,
    pub medium_risk: Vec<RiskAssessment>,
    pub low_risk: Vec<RiskAssessment>,
    pub total_students: usize,
}

/// Mean of the last `k` values (all of them where there are fewer), rounded down.
pub open spec fn recent_mean(p: Seq<u64>, k: int) -> int {
    if p.len() <= k {
        mean_of(p)
    } else {
        mean_of(p.subrange(p.len() - k, p.len() as int))
    }
}

/// Average percentage in tenths of a percent, rounded half up.
pub open spec fn average_tenths(p: Seq<u64>) -> int {
    (2 * sum(p) + 10 * (p.len() as int)) / (20 * (p.len() as int))
}

/// Share of missing submissions in whole percent, rounded half up.
pub open spec fn missing_rate(z: int, n: int) -> int {
    (200 * z + n) / (2 * n)
}

/// The recent mean lies more than ten points below the overall mean.
pub open spec fn declining(p: Seq<u64>) -> bool {
    p.len() >= 3 && recent_mean(p, 3) + 1000 < mean_of(p)
}

/// More than 30% of submissions are missing.
pub open spec fn many_missing(z: int, n: int) -> bool {
    10 * z > 3 * n
}

/// More than 15% of submissions are missing.
pub open spec fn some_missing(z: int, n: int) -> bool {
    20 * z > 3 * n
}

/// Risk score of a student with percentages `p` and `z` missing submissions.
pub open spec fn risk_score_of(p: Seq<u64>, z: int) -> int {
    if p.len() == 0 {
        0
    } else {
        (if mean_of(p) < 6000 {
            40int
        } else if mean_of(p) < 7000 {
            20int
        } else {
            0int
        }) + (if declining(p) {
            30int
        } else {
            0int
        }) + (if many_missing(z, p.len() as int) {
            30int
        } else if some_missing(z, p.len() as int) {
            15int
        } else {
            0int
        })
    }
}

/// Risk level for a score: 70 and above high, 40 and above medium, else low.
pub open spec fn level_for(score: int) -> RiskLevel {
    if score >= 70 {
        RiskLevel::High
    } else if score >= 40 {
        RiskLevel::Medium
    } else {
        RiskLevel::Low
    }
}

/// The factors reported for a student, in rule order.
pub open spec fn risk_factors_of(p: Seq<u64>, z: int) -> Seq<RiskFactor> {
    let n = p.len() as int;
    if n == 0 {
        seq![RiskFactor::NoGrades]
    } else {
        (if mean_of(p) < 6000 {
            seq![RiskFactor::LowAverage(average_tenths(p) as u64)]
        } else if mean_of(p) < 7000 {
            seq![RiskFactor::BelowAverage(average_tenths(p) as u64)]
        } else {
            Seq::empty()
        }) + (if declining(p) {
            seq![RiskFactor::DecliningTrend]
        } else {
            Seq::empty()
        }) + (if many_missing(z, n) {
            seq![RiskFactor::HighMissingRate(missing_rate(z, n) as u64)]
        } else if some_missing(z, n) {
            seq![RiskFactor::SomeMissing(missing_rate(z, n) as u64)]
        } else {
            Seq::empty()
        })
    }
}

/// The recommendations the rules add, before the default.
pub open spec fn rule_recommendations(p: Seq<u64>, z: int) -> Seq<Recommendation> {
    (if mean_of(p) < 6000 {
        seq![Recommendation::ScheduleMeeting]
    } else {
        Seq::empty()
    }) + (if declining(p) {
        seq![Recommendation::IdentifyStrugglingTopics]
    } else {
        Seq::empty()
    }) + (if many_missing(z, p.len() as int) {
        seq![Recommendation::CheckPersonalIssues]
    } else {
        Seq::empty()
    })
}

/// The recommendations reported for a student.
pub open spec fn risk_recommendations_of(p: Seq<u64>, z: int) -> Seq<Recommendation> {
    if p.len() == 0 {
        seq![Recommendation::MonitorProgress]
    } else if rule_recommendations(p, z).len() == 0 {
        seq![Recommendation::ContinueMonitoring]
    } else {
        rule_recommendations(p, z)
    }
}

/// `a` is the assessment of student `sid` whose grades are `gs`.
pub open spec fn risk_matches(a: RiskAssessment, sid: Seq<char>, gs: Seq<Grade>) -> bool {
    let p = percents(gs);
    let z = missing_count(gs);
    &&& a.student_id@ == sid
    &&& a.risk_score == risk_score_of(p, z)
    &&& a.risk_level == level_for(a.risk_score as int)
    &&& a.factors@ == risk_factors_of(p, z)
    &&& a.recommendations@ == risk_recommendations_of(p, z)
}

/// Number of grades with a score of zero.
fn count_missing(grades: &[&Grade]) -> (r: usize)
    ensures
        r == missing_count(deref_all(grades@)),
        r <= grades@.len(),
{
    let n = grades.len();
    let mut count: usize = 0;
    let mut i: usize = 0;
    while i < n
        invariant
            n == grades@.len(),
            i <= n,
            count <= i,
            count == missing_count(deref_all(grades@).take(i as int)),
        decreases n - i,
    {
        assert(deref_all(grades@).take(i + 1).drop_last() == deref_all(grades@).take(i as int));
        assert(deref_all(grades@).take(i + 1).last() == *grades@[i as int]);
        if grades[i].score == 0 {
            count = count + 1;
        }
        i = i + 1;
    }
    assert(deref_all(grades@).take(n as int) == deref_all(grades@));
    count
}

/// Mean percentage of the last `n` grades (all of them where there are
/// fewer), rounded down; zero where there are none.
pub fn calculate_recent_average(grades: &[&Grade], n: usize) -> (r: u64)
    requires
        valid_grades(deref_all(grades@)),
    ensures
        r == recent_mean(percents(deref_all(grades@)), n as int),
        r <= MAX_PERCENT,
{
    let p = percentages(grades);
    proof {
        lemma_percents_in_range(deref_all(grades@));
    }
    let len = p.len();
    let start: usize = if len <= n { 0 } else { len - n };
    let mut recent: Vec<u64> = Vec::new();
    let mut i: usize = start;
    while i < len
        invariant
            len == p@.len(),
            start <= i <= len,
            recent@ == p@.subrange(start as int, i as int),
        decreases len - i,
    {
        recent.push(p[i]);
        i = i + 1;
    }
    proof {
        if len <= n {
            assert(recent@ == p@);
        }
        assert forall|j: int| 0 <= j < recent@.len() implies #[trigger] recent@[j] <= MAX_PERCENT by {
            assert(recent@[j] == p@[start + j]);
        }
        crate::stats::lemma_mean_bound(recent@, MAX_PERCENT as int);
    }
    calculate_mean(&recent)
}

/// Risk assessment of one student from the student's grades in input order.
pub fn assess_student_risk(student_id: &str, grades: &[&Grade], _assignments: &[Assignment]) -> (r: RiskAssessment)
    requires
        valid_grades(deref_all(grades@)),
    ensures
        risk_matches(r, student_id@, deref_all(grades@)),
        r.risk_score <= 100,
{
    let ghost gs = deref_all(grades@);
    let mut factors: Vec<RiskFactor> = Vec::new();
    let mut recommendations: Vec<Recommendation> = Vec::new();
    if grades.len() == 0 {
        factors.push(RiskFactor::NoGrades);
        recommendations.push(Recommendation::MonitorProgress);
        assert(factors@ =~= seq![RiskFactor::NoGrades]);
        assert(recommendations@ =~= seq![Recommendation::MonitorProgress]);
        return RiskAssessment {
            student_id: student_id.to_owned(),
            risk_level: RiskLevel::Low,
            risk_score: 0,
            factors,
            recommendations,
        };
    }
    let p = percentages(grades);
    proof {
        lemma_percents_in_range(gs);
        lemma_sum_bounds(p@, 0, MAX_PERCENT as int);
    }
    let n = p.len();
    let avg = calculate_mean(&p);
    let total = calculate_sum(&p);
    let tenths = ((2 * total + 10 * (n as u128)) / (20 * (n as u128))) as u64;
    proof {
        assert((2 * total + 10 * n) / (20 * n) <= total + 1) by (nonlinear_arith)
            requires n >= 1, total >= 0;
    }
    let mut score: u32 = 0;

    if avg < 6000 {
        score = score + 40;
        factors.push(RiskFactor::LowAverage(tenths));
        recommendations.push(Recommendation::ScheduleMeeting);
    } else if avg < 7000 {
        score = score + 20;
        factors.push(RiskFactor::BelowAverage(tenths));
    }
    let ghost f1 = factors@;
    let ghost r1 = recommendations@;

    let mut is_declining = false;
    if n >= 3 {
        let recent = calculate_recent_average(grades, 3);
        if recent + 1000 < avg {
            is_declining = true;
        }
    }
    if is_declining {
        score = score + 30;
        factors.push(RiskFactor::DecliningTrend);
        recommendations.push(Recommendation::IdentifyStrugglingTopics);
    }
    let ghost f2 = factors@;
    let ghost r2 = recommendations@;

    let zeros = count_missing(grades);
    let rate = ((200 * (zeros as u128) + (n as u128)) / (2 * (n as u128))) as u64;
    proof {
        assert((200 * zeros + n) / (2 * n) <= 200 * zeros + n) by (nonlinear_arith)
            requires n >= 1, zeros >= 0;
    }
    if 10 * (zeros as u128) > 3 * (n as u128) {
        score = score + 30;
        factors.push(RiskFactor::HighMissingRate(rate));
        recommendations.push(Recommendation::CheckPersonalIssues);
    } else if 20 * (zeros as u128) > 3 * (n as u128) {
        score = score + 15;
        factors.push(RiskFactor::SomeMissing(rate));
    }
    proof {
        let z = missing_count(gs);
        assert(p@ == percents(gs));
        assert(factors@ =~= risk_factors_of(p@, z));
        assert(recommendations@ =~= rule_recommendations(p@, z));
    }
    if recommendations.len() == 0 {
        recommendations.push(Recommendation::ContinueMonitoring);
        assert(recommendations@ =~= seq![Recommendation::ContinueMonitoring]);
    }
    let risk_level = if score >= 70 {
        RiskLevel::High
    } else if score >= 40 {
        RiskLevel::Medium
    } else {
        RiskLevel::Low
    };
    RiskAssessment {
        student_id: student_id.to_owned(),
        risk_level,
        risk_score: score,
        factors,
        recommendations,
    }
}

/// Whether student `id` of the grades `gs` has risk level `level`.
pub open spec fn has_level(gs: Seq<Grade>, id: Seq<char>, level: RiskLevel) -> bool {
    let sg = student_grades(gs, id);
    level_for(risk_score_of(percents(sg), missing_count(sg))) == level
}

/// The ids among `ids` whose student has risk level `level`, in order.
pub open spec fn ids_at_level(gs: Seq<Grade>, ids: Seq<Seq<char>>, level: RiskLevel) -> Seq<Seq<char>> {
    select(ids, |id: Seq<char>| has_level(gs, id, level))
}

/// `bucket` holds, in order, the assessments of the students among `ids`
/// at risk level `level`.
pub open spec fn bucket_matches(bucket: Seq<RiskAssessment>, gs: Seq<Grade>, ids: Seq<Seq<char>>, level: RiskLevel) -> bool {
    let sel = ids_at_level(gs, ids, level);
    &&& bucket.len() == sel.len()
    &&& forall|i: int| 0 <= i < bucket.len() ==> risk_matches(#[trigger] bucket[i], sel[i], student_grades(gs, sel[i]))
}

/// `r` is the early-intervention report of the grades `gs`.
pub open spec fn is_early_intervention_report(gs: Seq<Grade>, r: EarlyInterventionResult) -> bool {
    &&& r.total_students == distinct_ids(gs).len()
    &&& bucket_matches(r.high_risk@, gs, distinct_ids(gs), RiskLevel::High)
    &&& bucket_matches(r.medium_risk@, gs, distinct_ids(gs), RiskLevel::Medium)
    &&& bucket_matches(r.low_risk@, gs, distinct_ids(gs), RiskLevel::Low)
}

/// Risk assessment of every student, bucketed into high, medium and low risk.
/// Students come in order of their first grade.
pub fn analyze_early_intervention(grades: &Vec<Grade>, assignments: &Vec<Assignment>) -> (r: EarlyInterventionResult)
    requires
        valid_grades(grades@),
    ensures
        is_early_intervention_report(grades@, r),
{
    let (ids, groups) = group_by_student(grades);
    let ghost idv = string_views(ids@);
    let mut high_risk: Vec<RiskAssessment> = Vec::new();
    let mut medium_risk: Vec<RiskAssessment> = Vec::new();
    let mut low_risk: Vec<RiskAssessment> = Vec::new();
    let mut j: usize = 0;
    while j < ids.len()
        invariant
            valid_grades(grades@),
            idv == string_views(ids@),
            groups@.len() == ids@.len(),
            forall|t: int| 0 <= t < groups@.len() ==> deref_all(#[trigger] groups@[t]@) == student_grades(grades@, ids@[t]@),
            j <= ids@.len(),
            bucket_matches(high_risk@, grades@, idv.take(j as int), RiskLevel::High),
            bucket_matches(medium_risk@, grades@, idv.take(j as int), RiskLevel::Medium),
            bucket_matches(low_risk@, grades@, idv.take(j as int), RiskLevel::Low),
        decreases ids@.len() - j,
    {
        let ghost id = ids@[j as int]@;
        assert(idv.take(j + 1).drop_last() == idv.take(j as int));
        assert(idv.take(j + 1).last() == id);
        assert(deref_all(groups@[j as int]@) == student_grades(grades@, id));
        proof {
            lemma_select_valid(grades@, of_student(id));
        }
        let a = assess_student_risk(ids[j].as_str(), groups[j].as_slice(), assignments.as_slice());
        match a.risk_level {
            RiskLevel::High => {
                high_risk.push(a);
            },
            RiskLevel::Medium => {
                medium_risk.push(a);
            },
            RiskLevel::Low => {
                low_risk.push(a);
            },
        }
        j = j + 1;
    }
    assert(idv.take(ids@.len() as int) == idv);
    EarlyInterventionResult {
        high_risk,
        medium_risk,
        low_risk,
        total_students: ids.len(),
    }
}


/// A student's risk score lies in `[0, 100]`, inside the `[0, 120]` that the
/// three factors could reach; the reported level is the band of that score
/// (see `risk_matches`).
pub proof fn lemma_risk_score_range(p: Seq<u64>, z: int)
    ensures
        0 <= risk_score_of(p, z) <= 100,
{
}

/// The two assessments agree field by field.
pub open spec fn same_assessment(a: RiskAssessment, b: RiskAssessment) -> bool {
    &&& a.student_id@ == b.student_id@
    &&& a.risk_level == b.risk_level
    &&& a.risk_score == b.risk_score
    &&& a.factors@ == b.factors@
    &&& a.recommendations@ == b.recommendations@
}

/// The two buckets agree entry by entry.
pub open spec fn same_bucket(a: Seq<RiskAssessment>, b: Seq<RiskAssessment>) -> bool {
    a.len() == b.len() && forall|i: int| 0 <= i < a.len() ==> same_assessment(#[trigger] a[i], b[i])
}

/// The early-intervention report is determined by the grades: two reports of
/// the same grades agree in every field.
pub proof fn lemma_early_intervention_deterministic(
    gs: Seq<Grade>,
    r1: EarlyInterventionResult,
    r2: EarlyInterventionResult,
)
    requires
        is_early_intervention_report(gs, r1),
        is_early_intervention_report(gs, r2),
    ensures
        r1.total_students == r2.total_students,
        same_bucket(r1.high_risk@, r2.high_risk@),
        same_bucket(r1.medium_risk@, r2.medium_risk@),
        same_bucket(r1.low_risk@, r2.low_risk@),
{
}

/// The report label of a risk level.
pub open spec fn risk_level_label(v: RiskLevel) -> Seq<char> {
    match v {
        RiskLevel::High => "high"@,
        RiskLevel::Medium => "medium"@,
        RiskLevel::Low => "low"@,
    }
}

impl RiskLevel {
    /// The label written for this value in reports.
    pub fn label(&self) -> (r: &'static str)
        ensures
            r@ == risk_level_label(*self),
    {
        match self {
            RiskLevel::High => "high",
            RiskLevel::Medium => "medium",
            RiskLevel::Low => "low",
        }
    }
}

/// A value in tenths written with one decimal place.
pub open spec fn tenths_text(t: nat) -> Seq<char> {
    decimal(t / 10) + seq!['.', digit_char((t % 10) as int)]
}

/// The message of a risk factor.
pub open spec fn factor_text(f: RiskFactor) -> Seq<char> {
    match f {
        RiskFactor::NoGrades => "No grades available"@,
        RiskFactor::LowAverage(t) => "Low average score: "@ + tenths_text(t as nat) + "%"@,
        RiskFactor::BelowAverage(t) => "Below average score: "@ + tenths_text(t as nat) + "%"@,
        RiskFactor::DecliningTrend => "Declining performance trend"@,
        RiskFactor::HighMissingRate(r) => "High missing submission rate: "@ + decimal(r as nat) + "%"@,
        RiskFactor::SomeMissing(r) => "Some missing submissions: "@ + decimal(r as nat) + "%"@,
    }
}

/// The message of a recommendation.
pub open spec fn recommendation_text(r: Recommendation) -> Seq<char> {
    match r {
        Recommendation::MonitorProgress => "Monitor student progress"@,
        Recommendation::ScheduleMeeting => "Schedule one-on-one meeting"@,
        Recommendation::IdentifyStrugglingTopics => "Identify struggling topics"@,
        Recommendation::CheckPersonalIssues => "Check for personal/technical issues"@,
        Recommendation::ContinueMonitoring => "Continue monitoring progress"@,
    }
}

/// Appends a value in tenths with one decimal place.
fn push_tenths(s: &mut String, t: u64)
    ensures
        final(s)@ == old(s)@ + tenths_text(t as nat),
{
    push_decimal(s, t / 10);
    s.append(".");
    let ghost mid = s@;
    push_decimal(s, t % 10);
    proof {
        reveal_strlit(".");
        reveal_with_fuel(decimal, 2);
        assert(decimal((t % 10) as nat) == seq![digit_char((t % 10) as int)]);
        assert(s@ =~= old(s)@ + tenths_text(t as nat));
    }
}

impl RiskFactor {
    /// The message reported for this factor.
    pub fn message(&self) -> (r: String)
        ensures
            r@ == factor_text(*self),
    {
        match self {
            RiskFactor::NoGrades => String::from_str("No grades available"),
            RiskFactor::LowAverage(t) => {
                let mut s = String::from_str("Low average score: ");
                push_tenths(&mut s, *t);
                s.append("%");
                s
            },
            RiskFactor::BelowAverage(t) => {
                let mut s = String::from_str("Below average score: ");
                push_tenths(&mut s, *t);
                s.append("%");
                s
            },
            RiskFactor::DecliningTrend => String::from_str("Declining performance trend"),
            RiskFactor::HighMissingRate(r) => {
                let mut s = String::from_str("High missing submission rate: ");
                push_decimal(&mut s, *r);
                s.append("%");
                s
            },
            RiskFactor::SomeMissing(r) => {
                let mut s = String::from_str("Some missing submissions: ");
                push_decimal(&mut s, *r);
                s.append("%");
                s
            },
        }
    }
}

impl Recommendation {
    /// The message reported for this recommendation.
    pub fn message(&self) -> (r: String)
        ensures
            r@ == recommendation_text(*self),
    {
        match self {
            Recommendation::MonitorProgress => String::from_str("Monitor student progress"),
            Recommendation::ScheduleMeeting => String::from_str("Schedule one-on-one meeting"),
            Recommendation::IdentifyStrugglingTopics => String::from_str("Identify struggling topics"),
            Recommendation::CheckPersonalIssues => String::from_str("Check for personal/technical issues"),
            Recommendation::ContinueMonitoring => String::from_str("Continue monitoring progress"),
        }
    }
}

} // verus!

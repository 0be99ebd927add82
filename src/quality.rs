//! Assessment quality: reliability of the whole assessment and per-item analysis.
use vstd::prelude::*;
use crate::cohort::{cell, distinct_ids, distinct_student_ids, item_grades, item_percentages, matrix_cell, string_views};
use crate::records::{Assignment, Grade, percents, scores_within_max, valid_grades, MAX_PERCENT};
use crate::stats::{
    calculate_mean, calculate_std_deviation, calculate_variance, consistency_of, internal_consistency,
    lemma_mean_bound, lemma_root_unique, lemma_variance_bound, mean_of, root, variance_about,
    variance_of, MAX_LEN, MAX_VALUE, SCALE,
};

verus! {

/// Quality of one assessment item.
#[derive(Clone, Copy, Debug, PartialEq, Eq, Structural)]
pub enum QualityRating {
    Excellent,
    Good,
    Fair,
    Poor,
    InsufficientData,
}

/// Band of the reliability coefficient.
#[derive(Clone, Copy, Debug, PartialEq, Eq, Structural)]
pub enum ReliabilityRating {
    Excellent,
    Good,
    Acceptable,
    Questionable,
    Poor,
    InsufficientData,
}

/// Analysis of one item; indices in units of `1 / SCALE`.
#[derive(Clone, Debug)]
pub struct ItemAnalysis {
    pub assignment_id: String,
    pub assignment_name: String,
    pub discrimination_index: u64,
    pub difficulty_index: u64,
    pub quality_rating: QualityRating,
    pub recommendation: String,
}

/// Quality report of an assessment; reliability in units of `1 / SCALE`.
#[derive(Clone, Debug)]
pub struct AssessmentQualityResult {
    pub reliability: u64,
    pub reliability_rating: ReliabilityRating,
    pub items: Vec<ItemAnalysis>,
    pub problematic_items: Vec<String>,
    pub total_items: usize,
}

/// Rating of an item from its difficulty and discrimination indices.
pub open spec fn quality_for(difficulty: int, discrimination: int) -> QualityRating {
    if discrimination < 2000 {
        QualityRating::Poor
    } else if difficulty < 2000 || difficulty > 9000 {
        QualityRating::Fair
    } else if discrimination >= 4000 && 3000 <= difficulty <= 7000 {
        QualityRating::Excellent
    } else {
        QualityRating::Good
    }
}

/// The advice given with a rating.
pub open spec fn advice(q: QualityRating) -> Seq<char> {
    match q {
        QualityRating::Poor => "Low discrimination - consider revising or removing"@,
        QualityRating::Fair => "Extreme difficulty - most students got it very wrong or very right"@,
        QualityRating::Excellent => "Well-designed item with good discrimination"@,
        QualityRating::Good => "Acceptable item quality"@,
        QualityRating::InsufficientData => "Not enough data to analyze"@,
    }
}

/// Band of a reliability coefficient.
pub open spec fn reliability_band(alpha: int) -> ReliabilityRating {
    if alpha >= 9000 {
        ReliabilityRating::Excellent
    } else if alpha >= 8000 {
        ReliabilityRating::Good
    } else if alpha >= 7000 {
        ReliabilityRating::Acceptable
    } else if alpha >= 6000 {
        ReliabilityRating::Questionable
    } else {
        ReliabilityRating::Poor
    }
}

/// Discrimination index from the standard deviation of the percentages:
/// the deviation over 50 points, capped at 1.
pub open spec fn discrimination_for(sd: int) -> int {
    if 2 * sd >= SCALE {
        SCALE as int
    } else {
        2 * sd
    }
}

/// The percentages recorded for an item.
pub open spec fn item_scores(gs: Seq<Grade>, a: Assignment) -> Seq<u64> {
    percents(item_grades(gs, a.id@))
}

/// Difficulty index of an item: its mean proportion of the maximum score.
pub open spec fn item_difficulty(gs: Seq<Grade>, a: Assignment) -> int {
    mean_of(item_scores(gs, a))
}

/// Discrimination index of an item.
pub open spec fn item_discrimination(gs: Seq<Grade>, a: Assignment) -> int {
    let p = item_scores(gs, a);
    discrimination_for(root(variance_about(p, mean_of(p))))
}

/// Rating of an item; items nobody attempted have insufficient data.
pub open spec fn item_quality(gs: Seq<Grade>, a: Assignment) -> QualityRating {
    if item_scores(gs, a).len() == 0 {
        QualityRating::InsufficientData
    } else {
        quality_for(item_difficulty(gs, a), item_discrimination(gs, a))
    }
}

/// `it` is the analysis of item `a` under the grades `gs`.
pub open spec fn item_matches(it: ItemAnalysis, a: Assignment, gs: Seq<Grade>) -> bool {
    let attempted = item_scores(gs, a).len() > 0;
    &&& it.assignment_id@ == a.id@
    &&& it.assignment_name@ == a.name@
    &&& it.difficulty_index == if attempted { item_difficulty(gs, a) } else { 0 }
    &&& it.discrimination_index == if attempted { item_discrimination(gs, a) } else { 0 }
    &&& it.quality_rating == item_quality(gs, a)
    &&& it.recommendation@ == advice(it.quality_rating)
}

/// Names of the items rated poor, in item order.
pub open spec fn poor_items(gs: Seq<Grade>, asg: Seq<Assignment>) -> Seq<Seq<char>>
    decreases asg.len(),
{
    if asg.len() == 0 {
        Seq::empty()
    } else {
        let prev = poor_items(gs, asg.drop_last());
        if item_quality(gs, asg.last()) == QualityRating::Poor {
            prev.push(asg.last().name@)
        } else {
            prev
        }
    }
}

/// A student's total over all items, absent grades counting as zero.
pub open spec fn row_total(gs: Seq<Grade>, sid: Seq<char>, asg: Seq<Assignment>) -> int
    decreases asg.len(),
{
    if asg.len() == 0 {
        0
    } else {
        row_total(gs, sid, asg.drop_last()) + cell(gs, sid, asg.last().id@)
    }
}

/// One item's column of the score matrix, one entry per student.
pub open spec fn column(gs: Seq<Grade>, a: Assignment) -> Seq<u64> {
    let ids = distinct_ids(gs);
    Seq::new(ids.len(), |i: int| cell(gs, ids[i], a.id@) as u64)
}

/// Each student's total score.
pub open spec fn totals(gs: Seq<Grade>, asg: Seq<Assignment>) -> Seq<u64> {
    let ids = distinct_ids(gs);
    Seq::new(ids.len(), |i: int| row_total(gs, ids[i], asg) as u64)
}

/// Each item's variance over the students.
pub open spec fn item_variances(gs: Seq<Grade>, asg: Seq<Assignment>) -> Seq<u128> {
    Seq::new(asg.len(), |j: int| variance_of(column(gs, asg[j])) as u128)
}

/// The assessment has at least two items and one student.
pub open spec fn enough_data(gs: Seq<Grade>, asg: Seq<Assignment>) -> bool {
    asg.len() >= 2 && distinct_ids(gs).len() >= 1
}

/// Reliability of the assessment over the zero-filled student by item matrix.
pub open spec fn reliability_of(gs: Seq<Grade>, asg: Seq<Assignment>) -> int {
    if !enough_data(gs, asg) {
        0
    } else {
        consistency_of(item_variances(gs, asg), variance_of(totals(gs, asg)), asg.len() as int)
    }
}

/// Band of a reliability coefficient: 0.9 and above excellent, 0.8 good,
/// 0.7 acceptable, 0.6 questionable, below that poor.
pub fn rate_reliability(alpha: u64) -> (r: ReliabilityRating)
    ensures
        r == reliability_band(alpha as int),
{
    if alpha >= 9000 {
        ReliabilityRating::Excellent
    } else if alpha >= 8000 {
        ReliabilityRating::Good
    } else if alpha >= 7000 {
        ReliabilityRating::Acceptable
    } else if alpha >= 6000 {
        ReliabilityRating::Questionable
    } else {
        ReliabilityRating::Poor
    }
}

/// Rating of an item, with its advice, from its difficulty and
/// discrimination indices, rules taken in priority order.
pub fn rate_item_quality(difficulty: u64, discrimination: u64) -> (r: (QualityRating, String))
    ensures
        r.0 == quality_for(difficulty as int, discrimination as int),
        r.1@ == advice(r.0),
{
    if discrimination < 2000 {
        return (QualityRating::Poor, String::from_str("Low discrimination - consider revising or removing"));
    }
    if difficulty < 2000 || difficulty > 9000 {
        return (
            QualityRating::Fair,
            String::from_str("Extreme difficulty - most students got it very wrong or very right"),
        );
    }
    if discrimination >= 4000 && difficulty >= 3000 && difficulty <= 7000 {
        return (QualityRating::Excellent, String::from_str("Well-designed item with good discrimination"));
    }
    (QualityRating::Good, String::from_str("Acceptable item quality"))
}

/// Analysis of one item from the grades recorded for it.
pub fn analyze_item(grades: &Vec<Grade>, assignment: &Assignment) -> (r: ItemAnalysis)
    requires
        valid_grades(grades@),
    ensures
        item_matches(r, *assignment, grades@),
{
    let scores = item_percentages(grades, &assignment.id);
    if scores.len() == 0 {
        return ItemAnalysis {
            assignment_id: assignment.id.clone(),
            assignment_name: assignment.name.clone(),
            discrimination_index: 0,
            difficulty_index: 0,
            quality_rating: QualityRating::InsufficientData,
            recommendation: String::from_str("Not enough data to analyze"),
        };
    }
    let difficulty_index = calculate_mean(&scores);
    proof {
        lemma_mean_bound(scores@, MAX_PERCENT as int);
    }
    let std_dev = calculate_std_deviation(&scores, difficulty_index);
    proof {
        lemma_root_unique(std_dev as int, variance_about(scores@, mean_of(scores@)));
    }
    let discrimination_index = if std_dev >= 5000 { SCALE } else { 2 * std_dev };
    let (quality_rating, recommendation) = rate_item_quality(difficulty_index, discrimination_index);
    ItemAnalysis {
        assignment_id: assignment.id.clone(),
        assignment_name: assignment.name.clone(),
        discrimination_index,
        difficulty_index,
        quality_rating,
        recommendation,
    }
}

proof fn lemma_row_total_bound(gs: Seq<Grade>, sid: Seq<char>, asg: Seq<Assignment>)
    requires
        valid_grades(gs),
        scores_within_max(gs),
    ensures
        0 <= row_total(gs, sid, asg) <= asg.len() * SCALE,
    decreases asg.len(),
{
    if asg.len() > 0 {
        lemma_row_total_bound(gs, sid, asg.drop_last());
        lemma_cell_bound(gs, sid, asg.last().id@);
    }
}

proof fn lemma_cell_bound(gs: Seq<Grade>, sid: Seq<char>, aid: Seq<char>)
    requires
        valid_grades(gs),
        scores_within_max(gs),
    ensures
        0 <= cell(gs, sid, aid) <= SCALE,
{
    let m = crate::cohort::pair_grades(gs, sid, aid);
    if m.len() > 0 {
        crate::cohort::lemma_select_valid(gs, crate::cohort::of_pair(sid, aid));
        assert(crate::records::score_within_max(m[0]));
        crate::records::lemma_percent_bound(m[0]);
    }
}

/// Internal-consistency reliability of the assessment, in units of
/// `1 / SCALE`: the student by item matrix holds each student's first grade on
/// each item, zero where absent; zero with fewer than two items or no student.
pub fn calculate_cronbachs_alpha(grades: &Vec<Grade>, assignments: &Vec<Assignment>) -> (r: u64)
    requires
        valid_grades(grades@),
        scores_within_max(grades@),
        assignments@.len() <= MAX_LEN,
    ensures
        r == reliability_of(grades@, assignments@),
        r <= SCALE,
{
    let ghost gs = grades@;
    let ghost asg = assignments@;
    let k = assignments.len();
    if k < 2 {
        return 0;
    }
    let ids = distinct_student_ids(grades);
    let ghost idv = string_views(ids@);
    let s = ids.len();
    if s == 0 {
        return 0;
    }
    proof {
        crate::cohort::lemma_distinct_ids_len(gs);
    }
    // each student's total over all items
    let mut row_totals: Vec<u64> = Vec::new();
    let mut i: usize = 0;
    while i < s
        invariant
            gs == grades@,
            asg == assignments@,
            valid_grades(gs),
            scores_within_max(gs),
            k == asg.len(),
            k <= MAX_LEN,
            s == ids@.len(),
            idv == string_views(ids@),
            idv == distinct_ids(gs),
            i <= s,
            row_totals@ == totals(gs, asg).take(i as int),
        decreases s - i,
    {
        let mut t: u64 = 0;
        let mut j: usize = 0;
        while j < k
            invariant
                gs == grades@,
                asg == assignments@,
                valid_grades(gs),
                scores_within_max(gs),
                k == asg.len(),
                k <= MAX_LEN,
                i < ids@.len(),
                j <= k,
                t == row_total(gs, ids@[i as int]@, asg.take(j as int)),
                t <= j * SCALE,
            decreases k - j,
        {
            assert(asg.take(j + 1).drop_last() == asg.take(j as int));
            let c = matrix_cell(grades, &ids[i], &assignments[j].id);
            proof {
                lemma_cell_bound(gs, ids@[i as int]@, asg[j as int].id@);
                assert(j * SCALE + SCALE <= MAX_LEN * SCALE) by (nonlinear_arith)
                    requires j < MAX_LEN;
            }
            t = t + c;
            j = j + 1;
        }
        assert(asg.take(k as int) == asg);
        assert(idv[i as int] == ids@[i as int]@);
        row_totals.push(t);
        i = i + 1;
        assert(row_totals@ =~= totals(gs, asg).take(i as int));
    }
    assert(row_totals@ =~= totals(gs, asg));
    proof {
        let b: int = k * SCALE;
        assert(b <= MAX_LEN * SCALE) by (nonlinear_arith)
            requires k <= MAX_LEN, b == k * SCALE;
        assert forall|q: int| 0 <= q < row_totals@.len() implies #[trigger] row_totals@[q] <= b by {
            lemma_row_total_bound(gs, idv[q], asg);
        }
        lemma_mean_bound(row_totals@, b);
        lemma_variance_bound(row_totals@, mean_of(row_totals@), b);
        assert(2 * (b * b) <= 2 * ((MAX_LEN * SCALE) * (MAX_LEN * SCALE))) by (nonlinear_arith)
            requires 0 <= b <= MAX_LEN * SCALE;
    }
    let total_variance = calculate_variance(&row_totals);
    // each item's variance over the students
    let mut variances: Vec<u128> = Vec::new();
    let mut j: usize = 0;
    while j < k
        invariant
            gs == grades@,
            asg == assignments@,
            valid_grades(gs),
            scores_within_max(gs),
            k == asg.len(),
            s == ids@.len(),
            s <= MAX_LEN,
            idv == string_views(ids@),
            idv == distinct_ids(gs),
            j <= k,
            variances@ == item_variances(gs, asg).take(j as int),
            forall|q: int| 0 <= q < variances@.len() ==> #[trigger] variances@[q] <= MAX_VALUE,
        decreases k - j,
    {
        let mut col: Vec<u64> = Vec::new();
        let mut i: usize = 0;
        while i < s
            invariant
                gs == grades@,
                asg == assignments@,
                valid_grades(gs),
                scores_within_max(gs),
                j < asg.len(),
                s == ids@.len(),
                idv == string_views(ids@),
                idv == distinct_ids(gs),
                i <= s,
                col@ == column(gs, asg[j as int]).take(i as int),
                forall|q: int| 0 <= q < col@.len() ==> #[trigger] col@[q] <= SCALE,
            decreases s - i,
        {
            let c = matrix_cell(grades, &ids[i], &assignments[j].id);
            proof {
                lemma_cell_bound(gs, ids@[i as int]@, asg[j as int].id@);
            }
            assert(idv[i as int] == ids@[i as int]@);
            col.push(c);
            i = i + 1;
            assert(col@ =~= column(gs, asg[j as int]).take(i as int));
        }
        assert(col@ =~= column(gs, asg[j as int]));
        proof {
            lemma_mean_bound(col@, SCALE as int);
            lemma_variance_bound(col@, mean_of(col@), SCALE as int);
        }
        let v = calculate_variance(&col);
        variances.push(v);
        j = j + 1;
        assert(variances@ =~= item_variances(gs, asg).take(j as int));
    }
    assert(variances@ =~= item_variances(gs, asg));
    internal_consistency(&variances, total_variance, k)
}

/// `r` is the quality report of the grades `gs` on the items `asg`.
pub open spec fn is_quality_report(gs: Seq<Grade>, asg: Seq<Assignment>, r: AssessmentQualityResult) -> bool {
    &&& r.reliability == reliability_of(gs, asg)
    &&& r.reliability_rating == if enough_data(gs, asg) {
        reliability_band(r.reliability as int)
    } else {
        ReliabilityRating::InsufficientData
    }
    &&& r.total_items == asg.len()
    &&& r.items@.len() == asg.len()
    &&& forall|i: int| 0 <= i < r.items@.len() ==> item_matches(#[trigger] r.items@[i], asg[i], gs)
    &&& string_views(r.problematic_items@) == poor_items(gs, asg)
}

/// Quality report: overall reliability with its band, each item's analysis,
/// and the names of the items rated poor.
pub fn analyze_assessment_quality(grades: &Vec<Grade>, assignments: &Vec<Assignment>) -> (r: AssessmentQualityResult)
    requires
        valid_grades(grades@),
        scores_within_max(grades@),
        assignments@.len() <= MAX_LEN,
    ensures
        is_quality_report(grades@, assignments@, r),
{
    let ghost gs = grades@;
    let ghost asg = assignments@;
    let k = assignments.len();
    if k == 0 {
        let problematic_items: Vec<String> = Vec::new();
        assert(string_views(problematic_items@) =~= poor_items(gs, asg));
        return AssessmentQualityResult {
            reliability: 0,
            reliability_rating: ReliabilityRating::InsufficientData,
            items: Vec::new(),
            problematic_items,
            total_items: 0,
        };
    }
    let reliability = calculate_cronbachs_alpha(grades, assignments);
    let ids = distinct_student_ids(grades);
    let reliability_rating = if k < 2 || ids.len() == 0 {
        ReliabilityRating::InsufficientData
    } else {
        rate_reliability(reliability)
    };
    let mut items: Vec<ItemAnalysis> = Vec::new();
    let mut problematic_items: Vec<String> = Vec::new();
    let mut i: usize = 0;
    while i < k
        invariant
            gs == grades@,
            asg == assignments@,
            valid_grades(gs),
            k == asg.len(),
            i <= k,
            items@.len() == i,
            forall|q: int| 0 <= q < i ==> item_matches(#[trigger] items@[q], asg[q], gs),
            string_views(problematic_items@) == poor_items(gs, asg.take(i as int)),
        decreases k - i,
    {
        assert(asg.take(i + 1).drop_last() == asg.take(i as int));
        assert(asg.take(i + 1).last() == asg[i as int]);
        let analysis = analyze_item(grades, &assignments[i]);
        if analysis.quality_rating == QualityRating::Poor {
            let ghost before = string_views(problematic_items@);
            problematic_items.push(assignments[i].name.clone());
            assert(string_views(problematic_items@) =~= before.push(asg[i as int].name@));
        }
        items.push(analysis);
        i = i + 1;
    }
    assert(asg.take(k as int) == asg);
    AssessmentQualityResult {
        reliability,
        reliability_rating,
        total_items: k,
        problematic_items,
        items,
    }
}


/// The reliability of an assessment always lies in `[0, SCALE]`, and is
/// exactly zero with a single item or a single student.
pub proof fn lemma_reliability_range(gs: Seq<Grade>, asg: Seq<Assignment>)
    ensures
        0 <= reliability_of(gs, asg) <= SCALE,
        asg.len() < 2 || distinct_ids(gs).len() <= 1 ==> reliability_of(gs, asg) == 0,
{
    let t = totals(gs, asg);
    if t.len() >= 2 {
        crate::stats::lemma_sum_bounds(t, 0, u64::MAX as int);
        crate::stats::lemma_mean_bound(t, u64::MAX as int);
        lemma_sq_dev_nonneg(t, mean_of(t));
        let n = t.len() as int;
        let q = crate::stats::sq_dev_sum(t, mean_of(t));
        assert(q / (n - 1) >= 0) by (nonlinear_arith)
            requires q >= 0, n >= 2;
    }
    crate::stats::lemma_consistency_range(item_variances(gs, asg), variance_of(t), asg.len() as int);
}

proof fn lemma_sq_dev_nonneg(xs: Seq<u64>, m: int)
    ensures
        crate::stats::sq_dev_sum(xs, m) >= 0,
    decreases xs.len(),
{
    if xs.len() > 0 {
        lemma_sq_dev_nonneg(xs.drop_last(), m);
        let d = xs.last() - m;
        assert(d * d >= 0) by (nonlinear_arith);
    }
}

/// The two item analyses agree field by field.
pub open spec fn same_item(a: ItemAnalysis, b: ItemAnalysis) -> bool {
    &&& a.assignment_id@ == b.assignment_id@
    &&& a.assignment_name@ == b.assignment_name@
    &&& a.discrimination_index == b.discrimination_index
    &&& a.difficulty_index == b.difficulty_index
    &&& a.quality_rating == b.quality_rating
    &&& a.recommendation@ == b.recommendation@
}

/// The quality report is determined by its inputs: two reports of the same
/// grades and items agree in every field.
pub proof fn lemma_quality_report_deterministic(
    gs: Seq<Grade>,
    asg: Seq<Assignment>,
    r1: AssessmentQualityResult,
    r2: AssessmentQualityResult,
)
    requires
        is_quality_report(gs, asg, r1),
        is_quality_report(gs, asg, r2),
    ensures
        r1.reliability == r2.reliability,
        r1.reliability_rating == r2.reliability_rating,
        r1.total_items == r2.total_items,
        r1.items@.len() == r2.items@.len(),
        forall|i: int| 0 <= i < r1.items@.len() ==> same_item(#[trigger] r1.items@[i], r2.items@[i]),
        string_views(r1.problematic_items@) == string_views(r2.problematic_items@),
{
    assert forall|i: int| 0 <= i < r1.items@.len() implies same_item(#[trigger] r1.items@[i], r2.items@[i]) by {
        assert(item_matches(r1.items@[i], asg[i], gs));
        assert(item_matches(r2.items@[i], asg[i], gs));
    }
}

/// The report label of an item rating.
pub open spec fn quality_label(v: QualityRating) -> Seq<char> {
    match v {
        QualityRating::Excellent => "excellent"@,
        QualityRating::Good => "good"@,
        QualityRating::Fair => "fair"@,
        QualityRating::Poor => "poor"@,
        QualityRating::InsufficientData => "insufficient_data"@,
    }
}

impl QualityRating {
    /// The label written for this value in reports.
    pub fn label(&self) -> (r: &'static str)
        ensures
            r@ == quality_label(*self),
    {
        match self {
            QualityRating::Excellent => "excellent",
            QualityRating::Good => "good",
            QualityRating::Fair => "fair",
            QualityRating::Poor => "poor",
            QualityRating::InsufficientData => "insufficient_data",
        }
    }
}

/// The report label of a reliability band.
pub open spec fn reliability_label(v: ReliabilityRating) -> Seq<char> {
    match v {
        ReliabilityRating::Excellent => "excellent"@,
        ReliabilityRating::Good => "good"@,
        ReliabilityRating::Acceptable => "acceptable"@,
        ReliabilityRating::Questionable => "questionable"@,
        ReliabilityRating::Poor => "poor"@,
        ReliabilityRating::InsufficientData => "insufficient_data"@,
    }
}

impl ReliabilityRating {
    /// The label written for this value in reports.
    pub fn label(&self) -> (r: &'static str)
        ensures
            r@ == reliability_label(*self),
    {
        match self {
            ReliabilityRating::Excellent => "excellent",
            ReliabilityRating::Good => "good",
            ReliabilityRating::Acceptable => "acceptable",
            ReliabilityRating::Questionable => "questionable",
            ReliabilityRating::Poor => "poor",
            ReliabilityRating::InsufficientData => "insufficient_data",
        }
    }
}

} // verus!

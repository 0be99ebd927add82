//! Gradebook records as the engine receives them.
use vstd::prelude::*;
use crate::stats::{MAX_LEN, SCALE, in_range};

verus! {

/// A student of the class.
#[derive(Clone, Debug)]
pub struct Student {
    pub id: String,
    pub name: String,
}

/// One scored submission. `score` and `max_score` are in any common unit
/// (points, half points, hundredths of a point): only their ratio matters.
#[derive(Clone, Debug)]
pub struct Grade {
    pub student_id: String,
    pub assignment_id: String,
    pub score: u32,
    pub max_score: u32,
    pub submitted_at: Option<String>,
    pub due_date: Option<String>,
}

/// An assessment item; its name may carry a topic label such as "Chapter 3".
#[derive(Clone, Debug)]
pub struct Assignment {
    pub id: String,
    pub name: String,
    pub max_score: u32,
    pub due_date: Option<String>,
}

/// The largest percentage a grade can have: a score of `u32::MAX` over a
/// maximum of one, in hundredths of a percent.
pub const MAX_PERCENT: u64 = 42_949_672_950_000;

/// A list of grades the engine can hold.
pub open spec fn valid_grades(gs: Seq<Grade>) -> bool {
    gs.len() <= MAX_LEN
}

/// The score does not exceed the maximum score of its item.
pub open spec fn score_within_max(g: Grade) -> bool {
    g.score <= g.max_score
}

/// No score exceeds the maximum score of its item.
pub open spec fn scores_within_max(gs: Seq<Grade>) -> bool {
    forall|i: int| 0 <= i < gs.len() ==> score_within_max(#[trigger] gs[i])
}

/// The grades behind a list of references.
pub open spec fn deref_all(gs: Seq<&Grade>) -> Seq<Grade> {
    gs.map_values(|g: &Grade| *g)
}

/// Percentage of a grade in hundredths of a percent, rounded down; a grade
/// whose maximum score is zero counts as zero.
pub open spec fn percent(g: Grade) -> int {
    if g.max_score == 0 {
        0
    } else {
        g.score * SCALE / (g.max_score as int)
    }
}

/// The percentages of a list of grades, in order.
pub open spec fn percents(gs: Seq<Grade>) -> Seq<u64> {
    gs.map_values(|g: Grade| percent(g) as u64)
}

/// Percentage of one grade in hundredths of a percent, rounded down; zero
/// where the maximum score is zero.
pub fn percentage(g: &Grade) -> (r: u64)
    ensures
        r == percent(*g),
        r <= MAX_PERCENT,
        score_within_max(*g) ==> r <= SCALE,
{
    proof {
        lemma_percent_bound(*g);
    }
    if g.max_score == 0 {
        0
    } else {
        (g.score as u64) * SCALE / (g.max_score as u64)
    }
}

/// Percentages of the referenced grades, in order.
pub fn percentages(gs: &[&Grade]) -> (r: Vec<u64>)
    ensures
        r@ == percents(deref_all(gs@)),
{
    let n = gs.len();
    let mut out: Vec<u64> = Vec::new();
    let mut i: usize = 0;
    while i < n
        invariant
            n == gs@.len(),
            i <= n,
            out@ == percents(deref_all(gs@)).take(i as int),
        decreases n - i,
    {
        let p = percentage(gs[i]);
        out.push(p);
        i = i + 1;
        assert(out@ =~= percents(deref_all(gs@)).take(i as int));
    }
    out
}


/// The percentages of a list the engine can hold fit the kernel.
pub proof fn lemma_percents_in_range(gs: Seq<Grade>)
    requires
        valid_grades(gs),
    ensures
        in_range(percents(gs)),
        forall|i: int| 0 <= i < gs.len() ==> #[trigger] percents(gs)[i] <= MAX_PERCENT,
{
    assert forall|i: int| 0 <= i < gs.len() implies #[trigger] percents(gs)[i] <= MAX_PERCENT by {
        lemma_percent_bound(gs[i]);
    }
}

/// A percentage is at most `MAX_PERCENT`, and at most `SCALE` when the
/// score is within the maximum.
pub proof fn lemma_percent_bound(g: Grade)
    ensures
        0 <= percent(g) <= MAX_PERCENT,
        score_within_max(g) ==> percent(g) <= SCALE,
{
    if g.max_score != 0 {
        let s = g.score as int;
        let m = g.max_score as int;
        assert(0 <= s * SCALE / m <= s * SCALE) by (nonlinear_arith)
            requires 0 <= s, m > 0;
        assert(s * SCALE <= MAX_PERCENT) by (nonlinear_arith)
            requires 0 <= s <= u32::MAX;
        if s <= m {
            assert(s * SCALE / m <= SCALE) by (nonlinear_arith)
                requires 0 <= s <= m, m > 0;
        }
    }
}

/// The number of grades with a score of zero.
pub open spec fn missing_count(gs: Seq<Grade>) -> int
    decreases gs.len(),
{
    if gs.len() == 0 {
        0
    } else {
        missing_count(gs.drop_last()) + if gs.last().score == 0 { 1int } else { 0int }
    }
}

} // verus!

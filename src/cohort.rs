//! Groupings of flat grade records by student and by assessment item.
use vstd::prelude::*;
use crate::records::{Grade, deref_all, percent, score_within_max, scores_within_max, valid_grades, MAX_PERCENT};

verus! {

/// The views of a list of strings.
pub open spec fn string_views(v: Seq<String>) -> Seq<Seq<char>> {
    v.map_values(|s: String| s@)
}

/// The members of `s` that satisfy `pred`, in order.
pub open spec fn select<A>(s: Seq<A>, pred: spec_fn(A) -> bool) -> Seq<A>
    decreases s.len(),
{
    if s.len() == 0 {
        Seq::empty()
    } else {
        let prev = select(s.drop_last(), pred);
        if pred(s.last()) {
            prev.push(s.last())
        } else {
            prev
        }
    }
}

/// The student ids of the grades, each once, in order of first appearance.
pub open spec fn distinct_ids(gs: Seq<Grade>) -> Seq<Seq<char>>
    decreases gs.len(),
{
    if gs.len() == 0 {
        Seq::empty()
    } else {
        let prev = distinct_ids(gs.drop_last());
        if prev.contains(gs.last().student_id@) {
            prev
        } else {
            prev.push(gs.last().student_id@)
        }
    }
}

/// The grade belongs to student `sid`.
pub open spec fn of_student(sid: Seq<char>) -> spec_fn(Grade) -> bool {
    |g: Grade| g.student_id@ == sid
}

/// The grade is for item `aid`.
pub open spec fn of_item(aid: Seq<char>) -> spec_fn(Grade) -> bool {
    |g: Grade| g.assignment_id@ == aid
}

/// The grades of one student, in input order.
pub open spec fn student_grades(gs: Seq<Grade>, sid: Seq<char>) -> Seq<Grade> {
    select(gs, of_student(sid))
}

/// The grades recorded for one assessment item, in input order.
pub open spec fn item_grades(gs: Seq<Grade>, aid: Seq<char>) -> Seq<Grade> {
    select(gs, of_item(aid))
}

/// The grade is of student `sid` for item `aid`.
pub open spec fn of_pair(sid: Seq<char>, aid: Seq<char>) -> spec_fn(Grade) -> bool {
    |g: Grade| g.student_id@ == sid && g.assignment_id@ == aid
}

/// The grades of one student on one item, in input order.
pub open spec fn pair_grades(gs: Seq<Grade>, sid: Seq<char>, aid: Seq<char>) -> Seq<Grade> {
    select(gs, of_pair(sid, aid))
}

/// Score-matrix cell: the percentage of the student's first grade on the item,
/// or zero where the student has none.
pub open spec fn cell(gs: Seq<Grade>, sid: Seq<char>, aid: Seq<char>) -> int {
    let m = pair_grades(gs, sid, aid);
    if m.len() > 0 {
        percent(m[0])
    } else {
        0
    }
}

/// There are no more distinct ids than grades.
pub proof fn lemma_distinct_ids_len(gs: Seq<Grade>)
    ensures
        distinct_ids(gs).len() <= gs.len(),
    decreases gs.len(),
{
    if gs.len() > 0 {
        lemma_distinct_ids_len(gs.drop_last());
    }
}

/// A selection is no longer than the list.
pub proof fn lemma_select_len<A>(s: Seq<A>, pred: spec_fn(A) -> bool)
    ensures
        select(s, pred).len() <= s.len(),
    decreases s.len(),
{
    if s.len() > 0 {
        lemma_select_len(s.drop_last(), pred);
    }
}

/// Every member of a selection satisfies the predicate and comes from the list.
pub proof fn lemma_select_members<A>(s: Seq<A>, pred: spec_fn(A) -> bool)
    ensures
        forall|i: int| 0 <= i < select(s, pred).len() ==> pred(#[trigger] select(s, pred)[i])
            && s.contains(select(s, pred)[i]),
    decreases s.len(),
{
    if s.len() > 0 {
        lemma_select_members(s.drop_last(), pred);
        let f = select(s, pred);
        let p = select(s.drop_last(), pred);
        assert forall|i: int| 0 <= i < f.len() implies pred(#[trigger] f[i]) && s.contains(f[i]) by {
            if i < p.len() {
                assert(f[i] == p[i]);
                let j = choose|j: int| 0 <= j < s.drop_last().len() && s.drop_last()[j] == p[i];
                assert(s[j] == p[i]);
            } else {
                assert(f[i] == s.last());
                assert(s[s.len() - 1] == s.last());
            }
        }
    }
}

/// A selection from a list the engine can hold can be held too, and keeps
/// every score within its maximum.
pub proof fn lemma_select_valid(gs: Seq<Grade>, pred: spec_fn(Grade) -> bool)
    requires
        valid_grades(gs),
    ensures
        valid_grades(select(gs, pred)),
        scores_within_max(gs) ==> scores_within_max(select(gs, pred)),
{
    lemma_select_len(gs, pred);
    lemma_select_members(gs, pred);
    let f = select(gs, pred);
    if scores_within_max(gs) {
        assert forall|i: int| 0 <= i < f.len() implies score_within_max(#[trigger] f[i]) by {
            let j = choose|j: int| 0 <= j < gs.len() && gs[j] == f[i];
            assert(score_within_max(gs[j]));
        }
    }
}

/// Distinct student ids, in order of first appearance.
pub fn distinct_student_ids(grades: &Vec<Grade>) -> (ids: Vec<String>)
    ensures
        string_views(ids@) == distinct_ids(grades@),
{
    let n = grades.len();
    let mut ids: Vec<String> = Vec::new();
    let mut i: usize = 0;
    while i < n
        invariant
            n == grades@.len(),
            i <= n,
            string_views(ids@) == distinct_ids(grades@.take(i as int)),
        decreases n - i,
    {
        assert(grades@.take(i + 1).drop_last() == grades@.take(i as int));
        let sid = &grades[i].student_id;
        let found = contains_string(&ids, sid);
        if !found {
            ids.push(sid.clone());
            assert(string_views(ids@) =~= distinct_ids(grades@.take(i as int)).push(sid@));
        }
        i = i + 1;
    }
    assert(grades@.take(n as int) == grades@);
    ids
}

/// The grades of one student, in input order.
pub fn grades_of_student<'a>(grades: &'a Vec<Grade>, student_id: &String) -> (r: Vec<&'a Grade>)
    ensures
        deref_all(r@) == student_grades(grades@, student_id@),
{
    let n = grades.len();
    let mut out: Vec<&'a Grade> = Vec::new();
    let mut i: usize = 0;
    while i < n
        invariant
            n == grades@.len(),
            i <= n,
            deref_all(out@) == student_grades(grades@.take(i as int), student_id@),
        decreases n - i,
    {
        assert(grades@.take(i + 1).drop_last() == grades@.take(i as int));
        assert(grades@.take(i + 1).last() == grades@[i as int]);
        let g = &grades[i];
        if g.student_id == *student_id {
            out.push(g);
            assert(deref_all(out@) =~= student_grades(grades@.take(i as int), student_id@).push(*g));
        }
        i = i + 1;
    }
    assert(grades@.take(n as int) == grades@);
    out
}

/// Groups the grades by student: the distinct ids in order of first
/// appearance, and for each the student's grades in input order.
pub fn group_by_student<'a>(grades: &'a Vec<Grade>) -> (r: (Vec<String>, Vec<Vec<&'a Grade>>))
    ensures
        string_views(r.0@) == distinct_ids(grades@),
        r.1@.len() == r.0@.len(),
        forall|j: int| 0 <= j < r.1@.len() ==> deref_all(#[trigger] r.1@[j]@) == student_grades(grades@, r.0@[j]@),
{
    let ids = distinct_student_ids(grades);
    let mut groups: Vec<Vec<&'a Grade>> = Vec::new();
    let mut j: usize = 0;
    while j < ids.len()
        invariant
            j <= ids@.len(),
            groups@.len() == j,
            forall|t: int| 0 <= t < j ==> deref_all(#[trigger] groups@[t]@) == student_grades(grades@, ids@[t]@),
        decreases ids@.len() - j,
    {
        let g = grades_of_student(grades, &ids[j]);
        groups.push(g);
        j = j + 1;
    }
    (ids, groups)
}

/// Percentages of the grades recorded for one item, in input order.
pub fn item_percentages(grades: &Vec<Grade>, assignment_id: &String) -> (r: Vec<u64>)
    requires
        valid_grades(grades@),
    ensures
        r@ == crate::records::percents(item_grades(grades@, assignment_id@)),
        r@.len() <= grades@.len(),
        forall|i: int| 0 <= i < r@.len() ==> #[trigger] r@[i] <= MAX_PERCENT,
{
    let n = grades.len();
    let mut out: Vec<u64> = Vec::new();
    let mut i: usize = 0;
    while i < n
        invariant
            n == grades@.len(),
            valid_grades(grades@),
            i <= n,
            out@ == crate::records::percents(item_grades(grades@.take(i as int), assignment_id@)),
        decreases n - i,
    {
        assert(grades@.take(i + 1).drop_last() == grades@.take(i as int));
        assert(grades@.take(i + 1).last() == grades@[i as int]);
        let g = &grades[i];
        if g.assignment_id == *assignment_id {
            let p = crate::records::percentage(g);
            out.push(p);
            assert(out@ =~= crate::records::percents(item_grades(grades@.take(i + 1), assignment_id@)));
        }
        i = i + 1;
    }
    assert(grades@.take(n as int) == grades@);
    proof {
        lemma_select_valid(grades@, of_item(assignment_id@));
        lemma_select_len(grades@, of_item(assignment_id@));
        crate::records::lemma_percents_in_range(item_grades(grades@, assignment_id@));
    }
    out
}

/// Whether `s` is among the strings of `v`.
pub fn contains_string(v: &Vec<String>, s: &String) -> (r: bool)
    ensures
        r == string_views(v@).contains(s@),
{
    let mut found = false;
    let mut k: usize = 0;
    while k < v.len()
        invariant
            k <= v@.len(),
            found == exists|j: int| 0 <= j < k && v@[j]@ == s@,
        decreases v@.len() - k,
    {
        if v[k] == *s {
            found = true;
        }
        k = k + 1;
    }
    proof {
        let w = string_views(v@);
        if found {
            let j = choose|j: int| 0 <= j < k && v@[j]@ == s@;
            assert(w[j] == s@);
        } else {
            assert forall|j: int| 0 <= j < w.len() implies w[j] != s@ by {
                assert(w[j] == v@[j]@);
            }
        }
    }
    found
}

/// Score-matrix cell: percentage of the student's first grade on the item,
/// zero where there is none.
pub fn matrix_cell(grades: &Vec<Grade>, student_id: &String, assignment_id: &String) -> (r: u64)
    requires
        valid_grades(grades@),
    ensures
        r == cell(grades@, student_id@, assignment_id@),
{
    let n = grades.len();
    let mut found = false;
    let mut val: u64 = 0;
    let mut i: usize = 0;
    while i < n
        invariant
            n == grades@.len(),
            valid_grades(grades@),
            i <= n,
            found == (pair_grades(grades@.take(i as int), student_id@, assignment_id@).len() > 0),
            found ==> val == percent(pair_grades(grades@.take(i as int), student_id@, assignment_id@)[0]),
            !found ==> val == 0,
        decreases n - i,
    {
        assert(grades@.take(i + 1).drop_last() == grades@.take(i as int));
        assert(grades@.take(i + 1).last() == grades@[i as int]);
        let g = &grades[i];
        if !found && g.student_id == *student_id && g.assignment_id == *assignment_id {
            val = crate::records::percentage(g);
            found = true;
        }
        i = i + 1;
    }
    assert(grades@.take(n as int) == grades@);
    val
}

} // verus!

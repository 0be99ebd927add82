//! Topic labels taken from assessment names, and per-topic difficulty.
use vstd::prelude::*;
use crate::cohort::{contains_string, item_grades, item_percentages, string_views};
use crate::records::{Assignment, Grade, percents, valid_grades, MAX_PERCENT};
use crate::stats::{calculate_mean, calculate_std_deviation, is_floor_sqrt, mean_of, variance_about};

verus! {

/// What `char::is_alphanumeric` returns for a character.
pub uninterp spec fn alphanumeric(c: char) -> bool;

/// Relies on `char::is_alphanumeric`: Unicode alphabetic or numeric.
#[verifier::external_body]
fn is_alphanumeric(c: char) -> (r: bool)
    ensures
        r == alphanumeric(c),
{
    c.is_alphanumeric()
}

/// The recognised prefixes, in priority order.
pub open spec fn prefix(k: int) -> Seq<char> {
    if k == 0 {
        "Chapter "@
    } else if k == 1 {
        "Ch "@
    } else if k == 2 {
        "Unit "@
    } else if k == 3 {
        "Week "@
    } else {
        "Module "@
    }
}

/// The label a recognised prefix stands for ("Ch " stands for "Chapter ").
pub open spec fn label_prefix(k: int) -> Seq<char> {
    if k == 1 {
        "Chapter "@
    } else {
        prefix(k)
    }
}

/// The number of recognised prefixes.
pub open spec fn prefix_count() -> int {
    5
}

/// The label of names without a recognised topic.
pub open spec fn other_label() -> Seq<char> {
    "Other"@
}

/// `pat` occurs in `s` at position `i`.
pub open spec fn occurs_at(s: Seq<char>, pat: Seq<char>, i: int) -> bool {
    0 <= i && i + pat.len() <= s.len() && s.subrange(i, i + pat.len()) == pat
}

/// First position at or after `i` where `pat` occurs in `s`, or -1.
pub open spec fn find_from(s: Seq<char>, pat: Seq<char>, i: int) -> int
    decreases s.len() + 1 - i,
{
    if i < 0 || i + pat.len() > s.len() {
        -1
    } else if occurs_at(s, pat, i) {
        i
    } else {
        find_from(s, pat, i + 1)
    }
}

/// Length of the run of `true` flags that starts at `i`.
pub open spec fn run_from(flags: Seq<bool>, i: int) -> int
    decreases flags.len() - i,
{
    if i < 0 || i >= flags.len() || !flags[i] {
        0
    } else {
        1 + run_from(flags, i + 1)
    }
}

/// The topic of a name, trying prefixes from `k` on, where `word[i]` tells
/// whether the character at `i` belongs to a label.
pub open spec fn topic_from(name: Seq<char>, word: Seq<bool>, k: int) -> Seq<char>
    decreases prefix_count() - k,
{
    if k < 0 || k >= prefix_count() {
        other_label()
    } else {
        let i = find_from(name, prefix(k), 0);
        if i < 0 {
            topic_from(name, word, k + 1)
        } else {
            let start = i + prefix(k).len();
            let run = run_from(word, start);
            if run > 0 {
                label_prefix(k) + name.subrange(start, start + run)
            } else {
                other_label()
            }
        }
    }
}

/// The topic of a name given which of its characters are word characters:
/// the first recognised prefix that occurs, followed by the word characters
/// right after its first occurrence; "Other" where no prefix occurs or
/// no word character follows.
pub open spec fn topic_with(name: Seq<char>, word: Seq<bool>) -> Seq<char> {
    topic_from(name, word, 0)
}

/// Which characters of a string are alphanumeric.
pub open spec fn alphanumeric_flags(s: Seq<char>) -> Seq<bool> {
    Seq::new(s.len(), |i: int| alphanumeric(s[i]))
}

/// The topic label of an assessment name.
pub open spec fn topic_of(name: Seq<char>) -> Seq<char> {
    topic_with(name, alphanumeric_flags(name))
}

/// The characters of a string.
fn chars_of(s: &str) -> (r: Vec<char>)
    ensures
        r@ == s@,
{
    let n = s.unicode_len();
    let mut out: Vec<char> = Vec::new();
    let mut i: usize = 0;
    while i < n
        invariant
            n == s@.len(),
            i <= n,
            out@ == s@.take(i as int),
        decreases n - i,
    {
        out.push(s.get_char(i));
        i = i + 1;
        assert(out@ =~= s@.take(i as int));
    }
    assert(s@.take(n as int) == s@);
    out
}

proof fn lemma_find_skip(s: Seq<char>, pat: Seq<char>, i: int, j: int)
    requires
        0 <= i <= j,
        forall|t: int| i <= t < j ==> !occurs_at(s, pat, t),
        j + pat.len() <= s.len() + 1,
    ensures
        find_from(s, pat, i) == find_from(s, pat, j),
    decreases j - i,
{
    if i < j {
        lemma_find_skip(s, pat, i + 1, j);
        assert(!occurs_at(s, pat, i));
    }
}

/// First position of `pat` in `s`, if any.
fn find_first(s: &Vec<char>, pat: &Vec<char>) -> (r: Option<usize>)
    ensures
        r is None ==> find_from(s@, pat@, 0) < 0,
        r matches Some(i) ==> find_from(s@, pat@, 0) == i && i + pat@.len() <= s@.len(),
{
    let n = s.len();
    let m = pat.len();
    if m > n {
        return None;
    }
    let mut i: usize = 0;
    while i <= n - m
        invariant
            n == s@.len(),
            m == pat@.len(),
            m <= n,
            i <= n - m + 1,
            forall|t: int| 0 <= t < i ==> !occurs_at(s@, pat@, t),
        decreases n - i,
    {
        let mut k: usize = 0;
        let mut same = true;
        while k < m
            invariant
                n == s@.len(),
                m == pat@.len(),
                i + m <= n,
                k <= m,
                same == (forall|t: int| 0 <= t < k ==> s@[i + t] == pat@[t]),
            decreases m - k,
        {
            if s[i + k] != pat[k] {
                same = false;
            }
            k = k + 1;
        }
        if same {
            proof {
                assert(s@.subrange(i as int, i + m) =~= pat@);
                lemma_find_skip(s@, pat@, 0, i as int);
            }
            return Some(i);
        }
        proof {
            if occurs_at(s@, pat@, i as int) {
                assert forall|t: int| 0 <= t < m implies s@[i + t] == pat@[t] by {
                    assert(s@.subrange(i as int, i + m)[t] == s@[i + t]);
                }
            }
        }
        i = i + 1;
    }
    proof {
        lemma_find_skip(s@, pat@, 0, i as int);
    }
    None
}

/// Topic label of a name, given for each character of the name whether it
/// is a word character.
pub fn extract_topic(name: &str, word: &Vec<bool>) -> (r: String)
    requires
        word@.len() == name@.len(),
    ensures
        r@ == topic_with(name@, word@),
{
    let chars = chars_of(name);
    let n = chars.len();
    let mut k: usize = 0;
    while k < 5
        invariant
            k <= 5,
            chars@ == name@,
            n == name@.len(),
            word@.len() == n,
            topic_from(name@, word@, 0) == topic_from(name@, word@, k as int),
        decreases 5 - k,
    {
        let pat: &str = if k == 0 {
            "Chapter "
        } else if k == 1 {
            "Ch "
        } else if k == 2 {
            "Unit "
        } else if k == 3 {
            "Week "
        } else {
            "Module "
        };
        let label: &str = if k == 1 {
            "Chapter "
        } else {
            pat
        };
        assert(pat@ == prefix(k as int));
        assert(label@ == label_prefix(k as int));
        let pchars = chars_of(pat);
        match find_first(&chars, &pchars) {
            Some(i) => {
                let start = i + pchars.len();
                let mut end = start;
                while end < n && word[end]
                    invariant
                        start <= end <= n,
                        word@.len() == n,
                        run_from(word@, start as int) == (end - start) + run_from(word@, end as int),
                    decreases n - end,
                {
                    end = end + 1;
                }
                proof {
                    assert(run_from(word@, end as int) == 0);
                }
                let mut out = String::from_str(label);
                if end > start {
                    out.append(name.substring_char(start, end));
                    return out;
                } else {
                    proof {
                        reveal_strlit("Other");
                    }
                    return String::from_str("Other");
                }
            },
            None => {},
        }
        k = k + 1;
    }
    String::from_str("Other")
}

/// Topic label of an assessment name: "Chapter ", "Ch " (read as
/// "Chapter "), "Unit ", "Week " or "Module ", first found in that order,
/// with the alphanumeric run that follows it; "Other" otherwise.
pub fn extract_chapter_name(assignment_name: &str) -> (r: String)
    ensures
        r@ == topic_of(assignment_name@),
{
    let chars = chars_of(assignment_name);
    let mut word: Vec<bool> = Vec::new();
    let mut i: usize = 0;
    while i < chars.len()
        invariant
            i <= chars@.len(),
            chars@ == assignment_name@,
            word@ == alphanumeric_flags(assignment_name@).take(i as int),
        decreases chars@.len() - i,
    {
        word.push(is_alphanumeric(chars[i]));
        i = i + 1;
        assert(word@ =~= alphanumeric_flags(assignment_name@).take(i as int));
    }
    assert(word@ =~= alphanumeric_flags(assignment_name@));
    extract_topic(assignment_name, &word)
}


/// How hard a topic is, judged by its mean percentage.
#[derive(Clone, Copy, Debug, PartialEq, Eq, Structural)]
pub enum DifficultyLevel {
    Easy,
    Moderate,
    Hard,
    VeryHard,
}

/// Statistics of one topic; percentages in hundredths of a percent.
#[derive(Clone, Debug)]
pub struct ChapterStats {
    pub chapter_name: String,
    pub assignment_count: usize,
    pub avg_score: u64,
    pub std_deviation: u64,
    pub difficulty_level: DifficultyLevel,
    pub student_count: usize,
}

/// Topics from hardest to easiest.
#[derive(Clone, Debug)]
pub struct ChapterDifficultyResult {
    pub chapters: Vec<ChapterStats>,
    pub total_chapters: usize,
    pub hardest_chapter: Option<String>,
    pub easiest_chapter: Option<String>,
}

/// Difficulty for a mean percentage: 85% and above easy, 70% moderate,
/// 60% hard, below that very hard.
pub open spec fn difficulty_for(avg: int) -> DifficultyLevel {
    if avg >= 8500 {
        DifficultyLevel::Easy
    } else if avg >= 7000 {
        DifficultyLevel::Moderate
    } else if avg >= 6000 {
        DifficultyLevel::Hard
    } else {
        DifficultyLevel::VeryHard
    }
}

/// Difficulty of a topic from its mean percentage; the spread is not used.
pub fn categorize_difficulty(avg_score: u64, _std_dev: u64) -> (r: DifficultyLevel)
    ensures
        r == difficulty_for(avg_score as int),
{
    if avg_score >= 8500 {
        DifficultyLevel::Easy
    } else if avg_score >= 7000 {
        DifficultyLevel::Moderate
    } else if avg_score >= 6000 {
        DifficultyLevel::Hard
    } else {
        DifficultyLevel::VeryHard
    }
}

/// No two items share an id.
pub open spec fn distinct_item_ids(asg: Seq<Assignment>) -> bool {
    forall|i: int, j: int|
        0 <= i < asg.len() && 0 <= j < asg.len() && i != j ==> #[trigger] asg[i].id@ != #[trigger] asg[j].id@
}

/// The topics that received grades, each once, in order of first appearance.
pub open spec fn topic_list(gs: Seq<Grade>, asg: Seq<Assignment>) -> Seq<Seq<char>>
    decreases asg.len(),
{
    if asg.len() == 0 {
        Seq::empty()
    } else {
        let prev = topic_list(gs, asg.drop_last());
        let a = asg.last();
        if item_grades(gs, a.id@).len() > 0 && !prev.contains(topic_of(a.name@)) {
            prev.push(topic_of(a.name@))
        } else {
            prev
        }
    }
}

/// All percentages recorded for the items of topic `t`, item by item.
pub open spec fn topic_pool(gs: Seq<Grade>, asg: Seq<Assignment>, t: Seq<char>) -> Seq<u64>
    decreases asg.len(),
{
    if asg.len() == 0 {
        Seq::empty()
    } else {
        let a = asg.last();
        topic_pool(gs, asg.drop_last(), t) + if topic_of(a.name@) == t {
            percents(item_grades(gs, a.id@))
        } else {
            Seq::empty()
        }
    }
}

/// `c` holds the statistics of topic `t` whose percentages are `pool`.
pub open spec fn chapter_matches(c: ChapterStats, t: Seq<char>, pool: Seq<u64>) -> bool {
    &&& c.chapter_name@ == t
    &&& c.assignment_count == pool.len()
    &&& c.student_count == pool.len()
    &&& c.avg_score == mean_of(pool)
    &&& is_floor_sqrt(c.std_deviation as int, variance_about(pool, mean_of(pool)))
    &&& c.difficulty_level == difficulty_for(c.avg_score as int)
}

/// Number of entries of `order` from the front whose key is at most `key`.
pub open spec fn first_above(order: Seq<int>, keys: Seq<int>, key: int) -> int
    decreases order.len(),
{
    if order.len() == 0 || keys[order[0]] > key {
        0
    } else {
        1 + first_above(order.drop_first(), keys, key)
    }
}

/// Indices `0..m` ordered by ascending key, equal keys in index order
/// (insertion sort).
pub open spec fn sorted_order(keys: Seq<int>, m: int) -> Seq<int>
    decreases m,
{
    if m <= 0 {
        Seq::empty()
    } else {
        let prev = sorted_order(keys, m - 1);
        prev.insert(first_above(prev, keys, keys[m - 1]), m - 1)
    }
}

/// The mean percentage of each topic, in topic order.
pub open spec fn topic_keys(gs: Seq<Grade>, asg: Seq<Assignment>) -> Seq<int> {
    let tl = topic_list(gs, asg);
    Seq::new(tl.len(), |j: int| mean_of(topic_pool(gs, asg, tl[j])))
}

/// The topic shown at position `i` of the report.
pub open spec fn ranked_topic(gs: Seq<Grade>, asg: Seq<Assignment>, i: int) -> Seq<char> {
    let tl = topic_list(gs, asg);
    tl[sorted_order(topic_keys(gs, asg), tl.len() as int)[i]]
}

proof fn lemma_first_above(order: Seq<int>, keys: Seq<int>, key: int, p: int)
    requires
        0 <= p <= order.len(),
        forall|t: int| 0 <= t < p ==> keys[#[trigger] order[t]] <= key,
        p < order.len() ==> keys[order[p]] > key,
    ensures
        first_above(order, keys, key) == p,
    decreases p,
{
    if p > 0 {
        let rest = order.drop_first();
        assert forall|t: int| 0 <= t < p - 1 implies keys[#[trigger] rest[t]] <= key by {
            assert(rest[t] == order[t + 1]);
        }
        if p - 1 < rest.len() {
            assert(rest[p - 1] == order[p]);
        }
        assert(keys[order[0]] <= key);
        lemma_first_above(rest, keys, key, p - 1);
    }
}

proof fn lemma_take_step(asg: Seq<Assignment>, i: int)
    requires
        0 <= i < asg.len(),
    ensures
        asg.take(i + 1).drop_last() == asg.take(i),
        asg.take(i + 1).last() == asg[i],
{
    assert(asg.take(i + 1).drop_last() =~= asg.take(i));
}

/// The number of grades recorded against the items, item by item.
pub open spec fn items_total(gs: Seq<Grade>, asg: Seq<Assignment>) -> int
    decreases asg.len(),
{
    if asg.len() == 0 {
        0
    } else {
        items_total(gs, asg.drop_last()) + item_grades(gs, asg.last().id@).len()
    }
}

/// The number of items with id `aid`.
pub open spec fn id_hits(asg: Seq<Assignment>, aid: Seq<char>) -> int
    decreases asg.len(),
{
    if asg.len() == 0 {
        0
    } else {
        id_hits(asg.drop_last(), aid) + if asg.last().id@ == aid { 1int } else { 0int }
    }
}

proof fn lemma_hits_absent(asg: Seq<Assignment>, aid: Seq<char>)
    requires
        forall|i: int| 0 <= i < asg.len() ==> #[trigger] asg[i].id@ != aid,
    ensures
        id_hits(asg, aid) == 0,
    decreases asg.len(),
{
    if asg.len() > 0 {
        let p = asg.drop_last();
        assert forall|i: int| 0 <= i < p.len() implies #[trigger] p[i].id@ != aid by {
            assert(p[i] == asg[i]);
        }
        lemma_hits_absent(p, aid);
        assert(asg.last() == asg[asg.len() - 1]);
    }
}

proof fn lemma_hits_at_most_one(asg: Seq<Assignment>, aid: Seq<char>)
    requires
        distinct_item_ids(asg),
    ensures
        0 <= id_hits(asg, aid) <= 1,
    decreases asg.len(),
{
    if asg.len() > 0 {
        let p = asg.drop_last();
        let n = asg.len() as int;
        assert(distinct_item_ids(p)) by {
            assert forall|i: int, j: int|
                0 <= i < p.len() && 0 <= j < p.len() && i != j implies #[trigger] p[i].id@ != #[trigger] p[j].id@ by {
                assert(p[i] == asg[i] && p[j] == asg[j]);
            }
        }
        lemma_hits_at_most_one(p, aid);
        assert(asg.last() == asg[n - 1]);
        if asg.last().id@ == aid {
            assert forall|i: int| 0 <= i < p.len() implies #[trigger] p[i].id@ != aid by {
                assert(p[i] == asg[i]);
                assert(asg[i].id@ != asg[n - 1].id@);
            }
            lemma_hits_absent(p, aid);
        }
    }
}

proof fn lemma_items_total_push(gs: Seq<Grade>, asg: Seq<Assignment>, g: Grade)
    ensures
        items_total(gs.push(g), asg) == items_total(gs, asg) + id_hits(asg, g.assignment_id@),
    decreases asg.len(),
{
    if asg.len() > 0 {
        lemma_items_total_push(gs, asg.drop_last(), g);
        assert(gs.push(g).drop_last() == gs);
    }
}

proof fn lemma_items_total_bound(gs: Seq<Grade>, asg: Seq<Assignment>)
    requires
        distinct_item_ids(asg),
    ensures
        0 <= items_total(gs, asg) <= gs.len(),
    decreases gs.len(),
{
    if gs.len() == 0 {
        lemma_items_total_empty(gs, asg);
    } else {
        let p = gs.drop_last();
        lemma_items_total_bound(p, asg);
        assert(p.push(gs.last()) == gs);
        lemma_items_total_push(p, asg, gs.last());
        lemma_hits_at_most_one(asg, gs.last().assignment_id@);
    }
}

proof fn lemma_items_total_empty(gs: Seq<Grade>, asg: Seq<Assignment>)
    requires
        gs.len() == 0,
    ensures
        items_total(gs, asg) == 0,
    decreases asg.len(),
{
    if asg.len() > 0 {
        lemma_items_total_empty(gs, asg.drop_last());
    }
}

proof fn lemma_pool_bound(gs: Seq<Grade>, asg: Seq<Assignment>, t: Seq<char>)
    ensures
        topic_pool(gs, asg, t).len() <= items_total(gs, asg),
    decreases asg.len(),
{
    if asg.len() > 0 {
        lemma_pool_bound(gs, asg.drop_last(), t);
    }
}

/// `r` is the topic-difficulty report of the grades `gs` on the items `asg`.
pub open spec fn is_chapter_report(gs: Seq<Grade>, asg: Seq<Assignment>, r: ChapterDifficultyResult) -> bool {
    &&& r.total_chapters == topic_list(gs, asg).len()
    &&& r.chapters@.len() == r.total_chapters
    &&& forall|i: int| 0 <= i < r.chapters@.len() ==> chapter_matches(
        #[trigger] r.chapters@[i],
        ranked_topic(gs, asg, i),
        topic_pool(gs, asg, ranked_topic(gs, asg, i)),
    )
    &&& r.total_chapters == 0 ==> r.hardest_chapter is None && r.easiest_chapter is None
    &&& r.total_chapters > 0 ==> (r.hardest_chapter matches Some(h) && h@ == r.chapters@[0].chapter_name@)
    &&& r.total_chapters > 0 ==> (r.easiest_chapter matches Some(e)
        && e@ == r.chapters@[r.total_chapters - 1].chapter_name@)
}

/// Per-topic mean, spread and difficulty of the percentages, topics sorted
/// from the lowest mean (hardest) to the highest (easiest); topics without
/// grades are left out.
pub fn analyze_chapter_difficulty(grades: &Vec<Grade>, assignments: &Vec<Assignment>) -> (r: ChapterDifficultyResult)
    requires
        valid_grades(grades@),
        distinct_item_ids(assignments@),
    ensures
        is_chapter_report(grades@, assignments@, r),
        forall|i: int, j: int| 0 <= i < j < r.chapters@.len() ==>
            #[trigger] r.chapters@[i].avg_score <= #[trigger] r.chapters@[j].avg_score,
{
    let ghost gs = grades@;
    let ghost asg = assignments@;
    let k = assignments.len();
    // topic label of each item
    let mut labels: Vec<String> = Vec::new();
    let mut i: usize = 0;
    while i < k
        invariant
            k == asg.len(),
            asg == assignments@,
            i <= k,
            labels@.len() == i,
            forall|t: int| 0 <= t < i ==> (#[trigger] labels@[t])@ == topic_of(asg[t].name@),
        decreases k - i,
    {
        let l = extract_chapter_name(assignments[i].name.as_str());
        labels.push(l);
        i = i + 1;
    }
    // topics that received grades, in order of first appearance
    let mut topics: Vec<String> = Vec::new();
    i = 0;
    while i < k
        invariant
            k == asg.len(),
            asg == assignments@,
            gs == grades@,
            valid_grades(gs),
            i <= k,
            labels@.len() == k,
            forall|t: int| 0 <= t < k ==> (#[trigger] labels@[t])@ == topic_of(asg[t].name@),
            string_views(topics@) == topic_list(gs, asg.take(i as int)),
        decreases k - i,
    {
        proof {
            lemma_take_step(asg, i as int);
        }
        let p = item_percentages(grades, &assignments[i].id);
        if p.len() > 0 && !contains_string(&topics, &labels[i]) {
            let ghost before = string_views(topics@);
            topics.push(labels[i].clone());
            assert(string_views(topics@) =~= before.push(topic_of(asg[i as int].name@)));
        }
        i = i + 1;
    }
    assert(asg.take(k as int) == asg);
    let ghost tl = topic_list(gs, asg);
    let ghost keys = topic_keys(gs, asg);
    let nt = topics.len();
    let mut chapters: Vec<ChapterStats> = Vec::new();
    let mut j: usize = 0;
    while j < nt
        invariant
            k == asg.len(),
            asg == assignments@,
            gs == grades@,
            valid_grades(gs),
            distinct_item_ids(asg),
            labels@.len() == k,
            forall|t: int| 0 <= t < k ==> (#[trigger] labels@[t])@ == topic_of(asg[t].name@),
            string_views(topics@) == tl,
            tl == topic_list(gs, asg),
            keys == topic_keys(gs, asg),
            nt == tl.len(),
            j <= nt,
            chapters@.len() == j,
            chapters@.len() == sorted_order(keys, j as int).len(),
            forall|t: int| 0 <= t < chapters@.len() ==> 0 <= #[trigger] sorted_order(keys, j as int)[t] < j,
            forall|t: int| 0 <= t < chapters@.len() ==> chapter_matches(
                #[trigger] chapters@[t],
                tl[sorted_order(keys, j as int)[t]],
                topic_pool(gs, asg, tl[sorted_order(keys, j as int)[t]]),
            ),
            forall|t: int| 0 <= t < chapters@.len() ==>
                (#[trigger] chapters@[t]).avg_score == keys[sorted_order(keys, j as int)[t]],
            forall|a: int, b: int| 0 <= a < b < chapters@.len() ==>
                #[trigger] chapters@[a].avg_score <= #[trigger] chapters@[b].avg_score,
        decreases nt - j,
    {
        let ghost t = tl[j as int];
        assert(topics@[j as int]@ == t);
        // every percentage of the topic, item by item
        let mut pool: Vec<u64> = Vec::new();
        let mut i: usize = 0;
        while i < k
            invariant
                k == asg.len(),
                asg == assignments@,
                gs == grades@,
                valid_grades(gs),
                distinct_item_ids(asg),
                labels@.len() == k,
                forall|t: int| 0 <= t < k ==> (#[trigger] labels@[t])@ == topic_of(asg[t].name@),
                j < topics@.len(),
                topics@[j as int]@ == t,
                i <= k,
                pool@ == topic_pool(gs, asg.take(i as int), t),
                forall|q: int| 0 <= q < pool@.len() ==> #[trigger] pool@[q] <= MAX_PERCENT,
            decreases k - i,
        {
            proof {
                lemma_take_step(asg, i as int);
            }
            if labels[i] == topics[j] {
                let mut p = item_percentages(grades, &assignments[i].id);
                let ghost before = pool@;
                let ghost added = p@;
                pool.append(&mut p);
                assert(pool@ =~= topic_pool(gs, asg.take(i + 1), t));
                assert forall|q: int| 0 <= q < pool@.len() implies #[trigger] pool@[q] <= MAX_PERCENT by {
                    if q >= before.len() {
                        assert(pool@[q] == added[q - before.len()]);
                    }
                }
            } else {
                assert(pool@ =~= topic_pool(gs, asg.take(i + 1), t));
            }
            i = i + 1;
        }
        assert(asg.take(k as int) == asg);
        proof {
            lemma_pool_bound(gs, asg, t);
            lemma_items_total_bound(gs, asg);
        }
        let avg = calculate_mean(&pool);
        proof {
            crate::stats::lemma_mean_bound(pool@, MAX_PERCENT as int);
        }
        let sd = calculate_std_deviation(&pool, avg);
        let level = categorize_difficulty(avg, sd);
        let c = ChapterStats {
            chapter_name: topics[j].clone(),
            assignment_count: pool.len(),
            avg_score: avg,
            std_deviation: sd,
            difficulty_level: level,
            student_count: pool.len(),
        };
        assert(keys[j as int] == avg);
        // insert after every topic whose mean is not above this one
        let ghost prev = sorted_order(keys, j as int);
        let mut p: usize = 0;
        while p < chapters.len() && chapters[p].avg_score <= avg
            invariant
                p <= chapters@.len(),
                forall|q: int| 0 <= q < p ==> (#[trigger] chapters@[q]).avg_score <= avg,
            decreases chapters@.len() - p,
        {
            p = p + 1;
        }
        proof {
            assert forall|q: int| 0 <= q < p implies keys[#[trigger] prev[q]] <= keys[j as int] by {
                assert(chapters@[q].avg_score == keys[prev[q]]);
            }
            if p < chapters@.len() {
                assert(chapters@[p as int].avg_score == keys[prev[p as int]]);
            }
            lemma_first_above(prev, keys, keys[j as int], p as int);
        }
        let ghost old_chapters = chapters@;
        chapters.insert(p, c);
        proof {
            let now = sorted_order(keys, j + 1);
            assert(now == prev.insert(p as int, j as int));
            assert forall|q: int| 0 <= q < chapters@.len() implies chapter_matches(
                #[trigger] chapters@[q],
                tl[now[q]],
                topic_pool(gs, asg, tl[now[q]]),
            ) && chapters@[q].avg_score == keys[now[q]] && 0 <= now[q] < j + 1 by {
                if q < p {
                    assert(chapters@[q] == old_chapters[q]);
                    assert(now[q] == prev[q]);
                } else if q == p {
                    assert(now[q] == j);
                } else {
                    assert(chapters@[q] == old_chapters[q - 1]);
                    assert(now[q] == prev[q - 1]);
                }
            }
            assert forall|a: int, b: int| 0 <= a < b < chapters@.len() implies
                #[trigger] chapters@[a].avg_score <= #[trigger] chapters@[b].avg_score by {
                if b < p {
                    assert(chapters@[a] == old_chapters[a] && chapters@[b] == old_chapters[b]);
                } else if b == p {
                    assert(chapters@[a] == old_chapters[a]);
                } else if a < p {
                    assert(chapters@[a] == old_chapters[a] && chapters@[b] == old_chapters[b - 1]);
                    assert(old_chapters[p as int].avg_score <= old_chapters[b - 1].avg_score);
                } else if a == p {
                    assert(chapters@[b] == old_chapters[b - 1]);
                    assert(old_chapters[p as int].avg_score <= old_chapters[b - 1].avg_score);
                } else {
                    assert(chapters@[a] == old_chapters[a - 1] && chapters@[b] == old_chapters[b - 1]);
                }
            }
        }
        j = j + 1;
    }
    let hardest = if nt > 0 { Some(chapters[0].chapter_name.clone()) } else { None };
    let easiest = if nt > 0 { Some(chapters[nt - 1].chapter_name.clone()) } else { None };
    ChapterDifficultyResult { chapters, total_chapters: nt, hardest_chapter: hardest, easiest_chapter: easiest }
}


/// The two topic entries agree field by field.
pub open spec fn same_chapter(a: ChapterStats, b: ChapterStats) -> bool {
    &&& a.chapter_name@ == b.chapter_name@
    &&& a.assignment_count == b.assignment_count
    &&& a.avg_score == b.avg_score
    &&& a.std_deviation == b.std_deviation
    &&& a.difficulty_level == b.difficulty_level
    &&& a.student_count == b.student_count
}

/// The topic-difficulty report is determined by its inputs: two reports of
/// the same grades and items agree in every field.
pub proof fn lemma_chapter_report_deterministic(
    gs: Seq<Grade>,
    asg: Seq<Assignment>,
    r1: ChapterDifficultyResult,
    r2: ChapterDifficultyResult,
)
    requires
        is_chapter_report(gs, asg, r1),
        is_chapter_report(gs, asg, r2),
    ensures
        r1.total_chapters == r2.total_chapters,
        r1.chapters@.len() == r2.chapters@.len(),
        forall|i: int| 0 <= i < r1.chapters@.len() ==> same_chapter(#[trigger] r1.chapters@[i], r2.chapters@[i]),
        r1.hardest_chapter is Some <==> r2.hardest_chapter is Some,
        r1.hardest_chapter matches Some(a) ==> (r2.hardest_chapter matches Some(b) && a@ == b@),
        r1.easiest_chapter matches Some(a) ==> (r2.easiest_chapter matches Some(b) && a@ == b@),
{
    assert forall|i: int| 0 <= i < r1.chapters@.len() implies same_chapter(#[trigger] r1.chapters@[i], r2.chapters@[i]) by {
        let t = ranked_topic(gs, asg, i);
        let pool = topic_pool(gs, asg, t);
        let v = variance_about(pool, mean_of(pool));
        assert(chapter_matches(r1.chapters@[i], t, pool));
        assert(chapter_matches(r2.chapters@[i], t, pool));
        crate::stats::lemma_root_unique(r1.chapters@[i].std_deviation as int, v);
        crate::stats::lemma_root_unique(r2.chapters@[i].std_deviation as int, v);
    }
}

/// The report label of a difficulty level.
pub open spec fn difficulty_label(v: DifficultyLevel) -> Seq<char> {
    match v {
        DifficultyLevel::Easy => "easy"@,
        DifficultyLevel::Moderate => "moderate"@,
        DifficultyLevel::Hard => "hard"@,
        DifficultyLevel::VeryHard => "very_hard"@,
    }
}

impl DifficultyLevel {
    /// The label written for this value in reports.
    pub fn label(&self) -> (r: &'static str)
        ensures
            r@ == difficulty_label(*self),
    {
        match self {
            DifficultyLevel::Easy => "easy",
            DifficultyLevel::Moderate => "moderate",
            DifficultyLevel::Hard => "hard",
            DifficultyLevel::VeryHard => "very_hard",
        }
    }
}

} // verus!

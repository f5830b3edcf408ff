//! The scoring engine: a deterministic function from the correct guesses of a
//! round to per-guesser scores, the artist's score and the artist's streak.
//!
//! Scores are computed with exact integer arithmetic. A guess's normalized time
//! is `min(time_remaining, T) / T` for the round duration `T`, taken as zero when
//! `T` is zero.
use vstd::prelude::*;
use crate::models::{Guess, RoundScores};

verus! {

/// Time score of a guess made with all of the round left.
pub const PMAX: u32 = 500;

/// Time score of a guess made with none of the round left.
pub const PMIN: u32 = 100;

/// Scale of the artist's raw score.
pub const BASE: u32 = 320;

/// The artist's score is capped at this percentage of the top guesser's score.
pub const CAP_PERCENT: u32 = 80;

/// Guesses this many milliseconds apart or less share a rank.
pub const TIE_WINDOW_MS: i64 = 200;

/// Artist bonus for each tier of streak.
pub const STREAK_BONUS_PER_TIER: u32 = 50;

/// Highest streak an artist can hold.
pub const MAX_STREAK: u32 = 5;

// ---------------------------------------------------------------------------
// Time score

/// `min(a, b)` on 32-bit values.
pub open spec fn min_u32(a: u32, b: u32) -> u32 {
    if a <= b {
        a
    } else {
        b
    }
}

/// `floor(PMIN + (PMAX - PMIN) * normalized)` for the normalized time
/// `min(time_remaining, round_duration) / round_duration`.
pub open spec fn time_score(time_remaining: u32, round_duration: u32) -> u32 {
    if round_duration == 0 {
        PMIN
    } else {
        (PMIN + ((PMAX - PMIN) * min_u32(time_remaining, round_duration)) / (round_duration as int)) as u32
    }
}

/// A time score lies between `PMIN` and `PMAX`.
pub proof fn lemma_time_score_bounds(tr: u32, t: u32)
    ensures
        PMIN <= time_score(tr, t) <= PMAX,
{
    if t != 0 {
        let c = min_u32(tr, t);
        assert(400 * c <= 400 * t) by (nonlinear_arith)
            requires
                c <= t,
        ;
        assert((400 * c) / (t as int) <= 400) by (nonlinear_arith)
            requires
                400 * c <= 400 * t,
                t > 0,
                c >= 0,
        ;
        assert((400 * c) / (t as int) >= 0) by (nonlinear_arith)
            requires
                t > 0,
                c >= 0,
        ;
    }
}

/// Time component of a guesser's score.
pub fn calculate_time_score(time_remaining: u32, round_duration: u32) -> (r: u32)
    ensures
        r == time_score(time_remaining, round_duration),
        PMIN <= r <= PMAX,
{
    proof {
        lemma_time_score_bounds(time_remaining, round_duration);
    }
    if round_duration == 0 {
        return PMIN;
    }
    let clamped: u64 = if time_remaining <= round_duration {
        time_remaining as u64
    } else {
        round_duration as u64
    };
    assert(clamped <= u32::MAX);
    let scaled: u64 = (PMAX - PMIN) as u64 * clamped;
    (PMIN as u64 + scaled / round_duration as u64) as u32
}

// ---------------------------------------------------------------------------
// Sorting by insertion

/// First index at or after `i` whose element exceeds `x`, scanning while
/// elements are at most `x`.
pub open spec fn scan_pos(s: Seq<i64>, x: i64, i: int) -> int
    decreases s.len() - i,
{
    if 0 <= i < s.len() && s[i] <= x {
        scan_pos(s, x, i + 1)
    } else {
        i
    }
}

/// `x` placed into `s` after every leading element that is at most `x`.
pub open spec fn insert_sorted(s: Seq<i64>, x: i64) -> Seq<i64> {
    s.insert(scan_pos(s, x, 0), x)
}

/// `s` sorted ascending by insertion.
pub open spec fn isort(s: Seq<i64>) -> Seq<i64>
    decreases s.len(),
{
    if s.len() == 0 {
        s
    } else {
        insert_sorted(isort(s.drop_last()), s.last())
    }
}

/// Whether a sequence is in ascending order.
pub open spec fn ascending(s: Seq<i64>) -> bool {
    forall|i: int, j: int| 0 <= i <= j < s.len() ==> s[i] <= s[j]
}

proof fn lemma_scan_pos_range(s: Seq<i64>, x: i64, i: int)
    requires
        0 <= i <= s.len(),
    ensures
        i <= scan_pos(s, x, i) <= s.len(),
        forall|k: int| i <= k < scan_pos(s, x, i) ==> s[k] <= x,
        scan_pos(s, x, i) < s.len() ==> s[scan_pos(s, x, i)] > x,
    decreases s.len() - i,
{
    if i < s.len() && s[i] <= x {
        lemma_scan_pos_range(s, x, i + 1);
    }
}

proof fn lemma_insert_sorted(s: Seq<i64>, x: i64, lo: int, hi: int)
    ensures
        insert_sorted(s, x).len() == s.len() + 1,
        ascending(s) ==> ascending(insert_sorted(s, x)),
        (lo <= x <= hi && forall|k: int| 0 <= k < s.len() ==> lo <= #[trigger] s[k] <= hi)
            ==> forall|k: int| 0 <= k < s.len() + 1 ==> lo <= #[trigger] insert_sorted(s, x)[k] <= hi,
{
    let p = scan_pos(s, x, 0);
    lemma_scan_pos_range(s, x, 0);
    s.insert_ensures(p, x);
    let r = insert_sorted(s, x);
    assert forall|k: int| 0 <= k < r.len() implies (k < p && r[k] == s[k]) || (k == p && r[k] == x)
        || (k > p && r[k] == s[k - 1]) by {
        if k > p {
            assert(r[(k - 1) + 1] == s[k - 1]);
        }
    }
    if ascending(s) {
        assert forall|i: int, j: int| 0 <= i <= j < r.len() implies r[i] <= r[j] by {
            if i < p && j == p {
                assert(s[i] <= x);
            } else if i == p && j > p {
                assert(s[p] > x);
                assert(s[p] <= s[j - 1]);
            } else if i < p && j > p {
                assert(s[i] <= s[j - 1]);
            } else if i > p {
                assert(s[i - 1] <= s[j - 1]);
            }
        }
    }
}

/// Sorting by insertion keeps the length, yields ascending order, and keeps
/// every element within bounds that held of every input element.
pub proof fn lemma_isort(s: Seq<i64>, lo: int, hi: int)
    ensures
        isort(s).len() == s.len(),
        ascending(isort(s)),
        (forall|k: int| 0 <= k < s.len() ==> lo <= #[trigger] s[k] <= hi)
            ==> forall|k: int| 0 <= k < s.len() ==> lo <= #[trigger] isort(s)[k] <= hi,
    decreases s.len(),
{
    if s.len() > 0 {
        let t = s.drop_last();
        lemma_isort(t, lo, hi);
        lemma_insert_sorted(isort(t), s.last(), lo, hi);
        if forall|k: int| 0 <= k < s.len() ==> lo <= #[trigger] s[k] <= hi {
            assert forall|k: int| 0 <= k < t.len() implies lo <= #[trigger] t[k] <= hi by {
                assert(t[k] == s[k]);
            }
            assert(lo <= s[s.len() - 1] <= hi);
        }
    }
}

proof fn lemma_insert_sorted_multiset(s: Seq<i64>, x: i64)
    ensures
        insert_sorted(s, x).to_multiset() =~= s.to_multiset().insert(x),
{
    let p = scan_pos(s, x, 0);
    lemma_scan_pos_range(s, x, 0);
    s.insert_ensures(p, x);
    let r = insert_sorted(s, x);
    assert(r.remove(p) =~= s);
    r.to_multiset_ensures();
    s.to_multiset_ensures();
    assert(r.contains(x)) by {
        assert(r[p] == x);
    }
    let m = r.to_multiset();
    assert(m.remove(x) =~= s.to_multiset());
    assert(m.count(x) > 0);
    assert(m =~= m.remove(x).insert(x));
}

/// Sorting by insertion rearranges the elements: it keeps each one as often
/// as it occurs.
pub proof fn lemma_isort_permutes(s: Seq<i64>)
    ensures
        isort(s).to_multiset() =~= s.to_multiset(),
    decreases s.len(),
{
    if s.len() > 0 {
        let t = s.drop_last();
        lemma_isort_permutes(t);
        lemma_insert_sorted_multiset(isort(t), s.last());
        t.to_multiset_ensures();
        assert(t.push(s.last()) =~= s);
    }
}

fn insert_into_sorted(v: &mut Vec<i64>, x: i64)
    ensures
        final(v)@ == insert_sorted(old(v)@, x),
{
    let mut i: usize = 0;
    while i < v.len() && v[i] <= x
        invariant
            v@ == old(v)@,
            0 <= i <= v.len(),
            scan_pos(v@, x, i as int) == scan_pos(v@, x, 0),
        decreases v.len() - i,
    {
        i = i + 1;
    }
    v.insert(i, x);
}

/// A copy of `v` sorted ascending.
pub fn sorted_copy(v: &Vec<i64>) -> (r: Vec<i64>)
    ensures
        r@ == isort(v@),
{
    let mut r: Vec<i64> = Vec::new();
    let mut k: usize = 0;
    while k < v.len()
        invariant
            0 <= k <= v.len(),
            r@ == isort(v@.subrange(0, k as int)),
        decreases v.len() - k,
    {
        assert(v@.subrange(0, k + 1).drop_last() =~= v@.subrange(0, k as int));
        insert_into_sorted(&mut r, v[k]);
        k = k + 1;
    }
    assert(v@.subrange(0, v.len() as int) =~= v@);
    r
}

// ---------------------------------------------------------------------------
// Rank bonuses

/// Bonus for rank index `i`: 100, 60 and 30 for the first three, then nothing.
pub open spec fn rank_bonus(i: int) -> u32 {
    if i == 0 {
        100
    } else if i == 1 {
        60
    } else if i == 2 {
        30
    } else {
        0
    }
}

/// Bonus for rank index `i`.
pub fn rank_bonus_at(i: usize) -> (r: u32)
    ensures
        r == rank_bonus(i as int),
{
    if i == 0 {
        100
    } else if i == 1 {
        60
    } else if i == 2 {
        30
    } else {
        0
    }
}

/// End of the tie run that starts at `i`: the first index from `j` on whose
/// time is more than the tie window after `s[i]`.
pub open spec fn run_end(s: Seq<i64>, i: int, j: int) -> int
    decreases s.len() - j,
{
    if 0 <= j < s.len() && s[j] - s[i] <= TIE_WINDOW_MS {
        run_end(s, i, j + 1)
    } else {
        j
    }
}

/// Rank bonuses of the times from index `i` on: every time of a tie run gets
/// the bonus of the run's first index, and the next run starts right after it.
pub open spec fn bonuses_from(s: Seq<i64>, i: int) -> Seq<u32>
    decreases s.len() - i,
{
    if i < 0 || i >= s.len() {
        Seq::empty()
    } else {
        let e = run_end(s, i, i + 1);
        if e <= i || e > s.len() {
            Seq::empty()
        } else {
            Seq::new((e - i) as nat, |k: int| rank_bonus(i)) + bonuses_from(s, e)
        }
    }
}

proof fn lemma_run_end_range(s: Seq<i64>, i: int, j: int)
    requires
        0 <= j <= s.len(),
    ensures
        j <= run_end(s, i, j) <= s.len(),
        forall|k: int| j <= k < run_end(s, i, j) ==> s[k] - s[i] <= TIE_WINDOW_MS,
        run_end(s, i, j) < s.len() ==> s[run_end(s, i, j)] - s[i] > TIE_WINDOW_MS,
    decreases s.len() - j,
{
    if j < s.len() && s[j] - s[i] <= TIE_WINDOW_MS {
        lemma_run_end_range(s, i, j + 1);
    }
}

/// The bonuses from index `i` on are one per remaining time, each at most 100.
pub proof fn lemma_bonuses_from(s: Seq<i64>, i: int)
    requires
        0 <= i <= s.len(),
    ensures
        bonuses_from(s, i).len() == s.len() - i,
        forall|k: int| 0 <= k < bonuses_from(s, i).len() ==> #[trigger] bonuses_from(s, i)[k] <= 100,
    decreases s.len() - i,
{
    if i < s.len() {
        let e = run_end(s, i, i + 1);
        lemma_run_end_range(s, i, i + 1);
        lemma_bonuses_from(s, e);
        let head = Seq::new((e - i) as nat, |k: int| rank_bonus(i));
        let b = bonuses_from(s, i);
        assert(b == head + bonuses_from(s, e));
        assert forall|k: int| 0 <= k < b.len() implies #[trigger] b[k] <= 100 by {
            if k >= head.len() {
                assert(b[k] == bonuses_from(s, e)[k - head.len()]);
            }
        }
    }
}

/// Rank bonuses of a sequence of guess times (normally ascending), one per time.
pub fn calculate_rank_bonuses(times: &Vec<i64>) -> (r: Vec<u32>)
    ensures
        r@ == bonuses_from(times@, 0),
{
    let n = times.len();
    let mut r: Vec<u32> = Vec::new();
    let mut i: usize = 0;
    proof {
        lemma_bonuses_from(times@, 0);
    }
    while i < n
        invariant
            n == times@.len(),
            0 <= i <= n,
            r@ + bonuses_from(times@, i as int) == bonuses_from(times@, 0),
        decreases n - i,
    {
        let start = times[i];
        let mut j: usize = i + 1;
        proof {
            lemma_run_end_range(times@, i as int, i + 1);
        }
        while j < n && (times[j] as i128) - (start as i128) <= TIE_WINDOW_MS as i128
            invariant
                n == times@.len(),
                i < j <= n,
                start == times@[i as int],
                run_end(times@, i as int, j as int) == run_end(times@, i as int, i + 1),
            decreases n - j,
        {
            j = j + 1;
        }
        let ghost e = run_end(times@, i as int, i + 1);
        assert(e == j);
        let bonus = rank_bonus_at(i);
        let ghost before = r@;
        let mut m: usize = i;
        while m < j
            invariant
                i <= m <= j,
                bonus == rank_bonus(i as int),
                r@ == before + Seq::new((m - i) as nat, |k: int| rank_bonus(i as int)),
            decreases j - m,
        {
            r.push(bonus);
            proof {
                assert(r@ =~= before + Seq::new((m + 1 - i) as nat, |k: int| rank_bonus(i as int)));
            }
            m = m + 1;
        }
        proof {
            let head = Seq::new((j - i) as nat, |k: int| rank_bonus(i as int));
            assert(bonuses_from(times@, i as int) == head + bonuses_from(times@, j as int));
            assert(before + (head + bonuses_from(times@, j as int)) =~= (before + head)
                + bonuses_from(times@, j as int));
        }
        i = j;
    }
    assert(bonuses_from(times@, n as int) =~= Seq::<u32>::empty());
    assert(r@ =~= r@ + bonuses_from(times@, n as int));
    r
}

// ---------------------------------------------------------------------------
// Guesser scores

/// Times of a sequence of guesses.
pub open spec fn guess_times(gs: Seq<Guess>) -> Seq<i64> {
    Seq::new(gs.len(), |k: int| gs[k].timestamp_ms)
}

/// First index at or after `i` holding `t`, or the length.
pub open spec fn find_from(s: Seq<i64>, t: i64, i: int) -> int
    decreases s.len() - i,
{
    if 0 <= i < s.len() && s[i] != t {
        find_from(s, t, i + 1)
    } else {
        i
    }
}

/// Rank bonus of a guess made at time `t` among guesses at the times `ts`: the
/// bonus at the first place `t` takes in the ascending order of `ts`.
pub open spec fn bonus_for_time(ts: Seq<i64>, t: i64) -> u32 {
    let sorted = isort(ts);
    let p = find_from(sorted, t, 0);
    let b = bonuses_from(sorted, 0);
    if 0 <= p < b.len() {
        b[p]
    } else {
        0
    }
}

/// Score of guess `k`: its time score plus its rank bonus.
pub open spec fn guesser_score(gs: Seq<Guess>, round_duration: u32, k: int) -> u32 {
    (time_score(gs[k].time_remaining, round_duration) + bonus_for_time(guess_times(gs), gs[k].timestamp_ms)) as u32
}

/// Per-guess scores, keyed by the guessing player, in the order of the guesses.
pub open spec fn guesser_scores(gs: Seq<Guess>, round_duration: u32) -> Seq<(u128, u32)> {
    Seq::new(gs.len(), |k: int| (gs[k].player_id, guesser_score(gs, round_duration, k)))
}

fn times_of(gs: &Vec<Guess>) -> (r: Vec<i64>)
    ensures
        r@ == guess_times(gs@),
{
    let mut r: Vec<i64> = Vec::new();
    let mut k: usize = 0;
    while k < gs.len()
        invariant
            0 <= k <= gs.len(),
            r@ == guess_times(gs@).subrange(0, k as int),
        decreases gs.len() - k,
    {
        r.push(gs[k].timestamp_ms);
        proof {
            assert(r@ =~= guess_times(gs@).subrange(0, k + 1));
        }
        k = k + 1;
    }
    assert(r@ =~= guess_times(gs@));
    r
}

fn find_time(s: &Vec<i64>, t: i64) -> (r: usize)
    ensures
        r == find_from(s@, t, 0),
{
    let mut i: usize = 0;
    while i < s.len() && s[i] != t
        invariant
            0 <= i <= s.len(),
            find_from(s@, t, i as int) == find_from(s@, t, 0),
        decreases s.len() - i,
    {
        i = i + 1;
    }
    i
}

/// Scores of the correct guesses of a round: each guess earns its time score
/// plus the rank bonus of its tie run in time order.
pub fn calculate_guesser_scores(gs: &Vec<Guess>, round_duration: u32) -> (r: Vec<(u128, u32)>)
    ensures
        r@ == guesser_scores(gs@, round_duration),
{
    let times = times_of(gs);
    let sorted = sorted_copy(&times);
    let bonuses = calculate_rank_bonuses(&sorted);
    proof {
        lemma_isort(times@, 0, 0);
        lemma_bonuses_from(sorted@, 0);
    }
    let mut r: Vec<(u128, u32)> = Vec::new();
    let mut k: usize = 0;
    while k < gs.len()
        invariant
            0 <= k <= gs.len(),
            times@ == guess_times(gs@),
            sorted@ == isort(times@),
            bonuses@ == bonuses_from(sorted@, 0),
            forall|i: int| 0 <= i < bonuses@.len() ==> #[trigger] bonuses@[i] <= 100,
            r@ == guesser_scores(gs@, round_duration).subrange(0, k as int),
        decreases gs.len() - k,
    {
        let g = &gs[k];
        let ts = calculate_time_score(g.time_remaining, round_duration);
        let p = find_time(&sorted, g.timestamp_ms);
        let bonus = if p < bonuses.len() {
            bonuses[p]
        } else {
            0
        };
        r.push((g.player_id, ts + bonus));
        proof {
            assert(r@ =~= guesser_scores(gs@, round_duration).subrange(0, k + 1));
        }
        k = k + 1;
    }
    assert(r@ =~= guesser_scores(gs@, round_duration));
    r
}

/// Largest score in a list of guesser scores, or 0 when it is empty.
pub open spec fn top_score(s: Seq<(u128, u32)>) -> u32
    decreases s.len(),
{
    if s.len() == 0 {
        0
    } else {
        let rest = top_score(s.drop_last());
        if s.last().1 >= rest {
            s.last().1
        } else {
            rest
        }
    }
}

/// `top_score` bounds every entry and is one of them (or 0 for none).
pub proof fn lemma_top_score(s: Seq<(u128, u32)>)
    ensures
        forall|k: int| 0 <= k < s.len() ==> #[trigger] s[k].1 <= top_score(s),
        s.len() == 0 ==> top_score(s) == 0,
        s.len() > 0 ==> exists|k: int| 0 <= k < s.len() && #[trigger] s[k].1 == top_score(s),
    decreases s.len(),
{
    if s.len() > 0 {
        let t = s.drop_last();
        lemma_top_score(t);
        assert forall|k: int| 0 <= k < s.len() implies #[trigger] s[k].1 <= top_score(s) by {
            if k < t.len() {
                assert(s[k] == t[k]);
            }
        }
        if s.last().1 >= top_score(t) {
            assert(s[s.len() - 1].1 == top_score(s));
        } else {
            let k = choose|k: int| 0 <= k < t.len() && #[trigger] t[k].1 == top_score(t);
            assert(s[k] == t[k]);
        }
    }
}

fn top_of(s: &Vec<(u128, u32)>) -> (r: u32)
    ensures
        r == top_score(s@),
{
    let mut best: u32 = 0;
    let mut k: usize = 0;
    while k < s.len()
        invariant
            0 <= k <= s.len(),
            best == top_score(s@.subrange(0, k as int)),
        decreases s.len() - k,
    {
        assert(s@.subrange(0, k + 1).drop_last() =~= s@.subrange(0, k as int));
        if s[k].1 >= best {
            best = s[k].1;
        }
        k = k + 1;
    }
    assert(s@.subrange(0, s.len() as int) =~= s@);
    best
}

// ---------------------------------------------------------------------------
// Median of the remaining times

/// Remaining seconds of each guess, clamped to the round duration.
pub open spec fn clamped_remaining(gs: Seq<Guess>, round_duration: u32) -> Seq<i64> {
    Seq::new(gs.len(), |k: int| min_u32(gs[k].time_remaining, round_duration) as i64)
}

/// Twice the median of an ascending sequence (the two middle values summed
/// when the length is even), or 0 when it is empty.
pub open spec fn median_x2(sorted: Seq<i64>) -> int {
    let n = sorted.len() as int;
    if n == 0 {
        0
    } else if n % 2 == 0 {
        sorted[n / 2 - 1] + sorted[n / 2]
    } else {
        2 * sorted[n / 2]
    }
}

/// Twice the median of the guesses' clamped remaining seconds.
pub open spec fn median_remaining_x2(gs: Seq<Guess>, round_duration: u32) -> int {
    median_x2(isort(clamped_remaining(gs, round_duration)))
}

fn median_remaining_times_two(gs: &Vec<Guess>, round_duration: u32) -> (r: u64)
    ensures
        r == median_remaining_x2(gs@, round_duration),
        r <= 2 * (round_duration as int),
{
    let mut rem: Vec<i64> = Vec::new();
    let mut k: usize = 0;
    while k < gs.len()
        invariant
            0 <= k <= gs.len(),
            rem@ == clamped_remaining(gs@, round_duration).subrange(0, k as int),
        decreases gs.len() - k,
    {
        let t = gs[k].time_remaining;
        let c: u32 = if t <= round_duration {
            t
        } else {
            round_duration
        };
        rem.push(c as i64);
        proof {
            assert(rem@ =~= clamped_remaining(gs@, round_duration).subrange(0, k + 1));
        }
        k = k + 1;
    }
    assert(rem@ =~= clamped_remaining(gs@, round_duration));
    let sorted = sorted_copy(&rem);
    proof {
        lemma_isort(rem@, 0, round_duration as int);
        assert forall|k: int| 0 <= k < rem@.len() implies 0 <= #[trigger] rem@[k] <= round_duration by {}
        assert(forall|k: int| 0 <= k < sorted@.len() ==> 0 <= #[trigger] sorted@[k] <= round_duration);
    }
    let n = sorted.len();
    if n == 0 {
        0
    } else if n % 2 == 0 {
        (sorted[n / 2 - 1] + sorted[n / 2]) as u64
    } else {
        (2 * sorted[n / 2]) as u64
    }
}

// ---------------------------------------------------------------------------
// Artist score

/// `round(num / den)` for a non-negative `num` and a positive `den`, halves
/// rounded up.
pub open spec fn round_div(num: int, den: int) -> int {
    (2 * num + den) / (2 * den)
}

/// Artist score for `guessed` correct guesses out of `potential` possible ones,
/// twice the median remaining seconds `median2`, a round of `round_duration`
/// seconds, the top guesser score `top` and the artist's streak.
///
/// With `F = guessed / potential` and median normalized time
/// `M = median2 / (2 * round_duration)`, the raw score is
/// `BASE * F * (0.5 + 0.5 * M)`; the streak adds `50 * min(streak, 5)`; the sum
/// is rounded and capped at `floor(0.8 * top)`. No guesses earn nothing; no
/// potential guessers leave only the cap.
pub open spec fn artist_score(
    guessed: int,
    potential: int,
    median2: int,
    round_duration: int,
    top: int,
    streak: u32,
) -> int {
    let cap = (CAP_PERCENT * top) / 100;
    let t = if round_duration == 0 {
        1
    } else {
        round_duration
    };
    let m = if round_duration == 0 {
        0
    } else {
        median2
    };
    let bonus = STREAK_BONUS_PER_TIER * min_u32(streak, MAX_STREAK);
    // BASE * (guessed / potential) * (2t + m) / (4t) plus the streak bonus,
    // over the common denominator 4 * potential * t.
    let den = 4 * potential * t;
    let num = BASE * guessed * (2 * t + m) + bonus * den;
    if guessed == 0 {
        0
    } else if potential == 0 {
        cap
    } else {
        let rounded = round_div(num, den);
        if rounded <= cap {
            rounded
        } else {
            cap
        }
    }
}

proof fn lemma_artist_score_range(g: int, n: int, m2: int, t: int, top: int, s: u32)
    requires
        g >= 0,
        n >= 0,
        0 <= m2,
        t >= 0,
        top >= 0,
    ensures
        0 <= artist_score(g, n, m2, t, top, s) <= (CAP_PERCENT * top) / 100,
{
    let tt = if t == 0 {
        1
    } else {
        t
    };
    let m = if t == 0 {
        0
    } else {
        m2
    };
    let bonus = STREAK_BONUS_PER_TIER * min_u32(s, MAX_STREAK);
    let den = 4 * n * tt;
    let num = BASE * g * (2 * tt + m) + bonus * den;
    assert(num >= 0) by (nonlinear_arith)
        requires
            g >= 0,
            tt >= 1,
            m >= 0,
            bonus >= 0,
            n >= 0,
            den == 4 * n * tt,
            num == BASE * g * (2 * tt + m) + bonus * den,
    ;
    if g != 0 && n != 0 {
        assert(den > 0) by (nonlinear_arith)
            requires
                n > 0,
                tt > 0,
                den == 4 * n * tt,
        ;
        assert(round_div(num, den) >= 0) by (nonlinear_arith)
            requires
                num >= 0,
                den > 0,
        ;
    }
}

/// Artist score of a round (see `artist_score`), for at most `u32::MAX`
/// twice-median seconds per round second.
pub fn calculate_artist_score(
    guessed: u64,
    potential: u32,
    median2: u64,
    round_duration: u32,
    top: u32,
    streak: u32,
) -> (r: u32)
    requires
        median2 <= 2 * (round_duration as int),
    ensures
        r == artist_score(guessed as int, potential as int, median2 as int, round_duration as int, top as int, streak),
        r <= (CAP_PERCENT * top) / 100,
{
    proof {
        lemma_artist_score_range(guessed as int, potential as int, median2 as int, round_duration as int, top as int, streak);
    }
    let cap: u64 = (CAP_PERCENT as u64 * top as u64) / 100;
    if guessed == 0 {
        return 0;
    }
    if potential == 0 {
        return cap as u32;
    }
    let t: u128 = if round_duration == 0 {
        1
    } else {
        round_duration as u128
    };
    let m: u128 = if round_duration == 0 {
        0
    } else {
        median2 as u128
    };
    let streak_tiers: u32 = if streak <= MAX_STREAK {
        streak
    } else {
        MAX_STREAK
    };
    let bonus: u128 = (STREAK_BONUS_PER_TIER * streak_tiers) as u128;
    let g = guessed as u128;
    let n = potential as u128;
    assert(t <= u32::MAX && m <= 2 * t);
    assert(2 * t + m <= 0x4_0000_0000);
    let w: u128 = 2 * t + m;
    assert(BASE * g * w <= 320 * 0x1_0000_0000_0000_0000 * 0x4_0000_0000) by (nonlinear_arith)
        requires
            g <= u64::MAX,
            w <= 0x4_0000_0000,
    ;
    assert(4 * n * t <= 4 * 0x1_0000_0000 * 0x1_0000_0000) by (nonlinear_arith)
        requires
            n <= u32::MAX,
            t <= u32::MAX,
    ;
    let den: u128 = 4 * n * t;
    assert(bonus * den <= 250 * (4 * 0x1_0000_0000 * 0x1_0000_0000)) by (nonlinear_arith)
        requires
            bonus <= 250,
            den <= 4 * 0x1_0000_0000 * 0x1_0000_0000,
    ;
    let num: u128 = BASE as u128 * g * w + bonus * den;
    assert(den > 0) by (nonlinear_arith)
        requires
            n > 0,
            t > 0,
            den == 4 * n * t,
    ;
    let rounded: u128 = (2 * num + den) / (2 * den);
    if rounded <= cap as u128 {
        rounded as u32
    } else {
        cap as u32
    }
}

// ---------------------------------------------------------------------------
// Streak

/// Number of guesses made with at least half of a `round_duration`-second
/// round left, that is with `2 * time_remaining >= round_duration`.
pub open spec fn early_count(gs: Seq<Guess>, round_duration: u32) -> nat
    decreases gs.len(),
{
    if gs.len() == 0 {
        0
    } else {
        early_count(gs.drop_last(), round_duration) + if 2 * gs.last().time_remaining >= round_duration {
            1nat
        } else {
            0nat
        }
    }
}

/// Whether the artist earned a streak step: strictly more than half of the
/// potential guessers guessed with at least half of the round left.
pub open spec fn earns_streak(gs: Seq<Guess>, round_duration: u32, potential: u32) -> bool {
    early_count(gs, round_duration) >= potential / 2 + 1
}

/// Whether the artist's streak should increment after this round.
pub fn should_increment_artist_streak(
    correct_guesses: &Vec<Guess>,
    round_duration: u32,
    potential_guessers: u32,
) -> (r: bool)
    ensures
        r == earns_streak(correct_guesses@, round_duration, potential_guessers),
{
    let mut count: u64 = 0;
    let mut k: usize = 0;
    while k < correct_guesses.len()
        invariant
            0 <= k <= correct_guesses.len(),
            count == early_count(correct_guesses@.subrange(0, k as int), round_duration),
            count <= k,
        decreases correct_guesses.len() - k,
    {
        assert(correct_guesses@.subrange(0, k + 1).drop_last() =~= correct_guesses@.subrange(0, k as int));
        if 2 * (correct_guesses[k].time_remaining as u64) >= round_duration as u64 {
            count = count + 1;
        }
        k = k + 1;
    }
    assert(correct_guesses@.subrange(0, correct_guesses.len() as int) =~= correct_guesses@);
    count >= (potential_guessers / 2) as u64 + 1
}

/// Streak after a round: one step up (at most `MAX_STREAK`) when earned, else 0.
pub open spec fn next_streak(current: u32, earned: bool) -> u32 {
    if earned {
        if current >= MAX_STREAK {
            MAX_STREAK
        } else {
            (current + 1) as u32
        }
    } else {
        0
    }
}

/// The artist's streak after a round.
pub fn update_artist_streak(current_streak: u32, should_increment: bool) -> (r: u32)
    ensures
        r == next_streak(current_streak, should_increment),
        r <= MAX_STREAK,
{
    if should_increment {
        if current_streak >= MAX_STREAK {
            MAX_STREAK
        } else {
            current_streak + 1
        }
    } else {
        0
    }
}

// ---------------------------------------------------------------------------
// Whole round

/// What scoring a round yields: the inputs echoed, per-guess scores, the median
/// remaining time, and the artist's score from the fraction guessed, that
/// median, the top guesser score and the streak.
pub open spec fn scores_of_round(
    r: RoundScores,
    round_number: u32,
    word: Seq<char>,
    round_duration: u32,
    gs: Seq<Guess>,
    potential_guessers: u32,
    artist_streak: u32,
) -> bool {
    &&& r.round_number == round_number
    &&& r.word@ == word
    &&& r.round_duration == round_duration
    &&& r.artist_streak == artist_streak
    &&& r.potential_guessers == potential_guessers
    &&& r.correct_guesses@ == gs
    &&& r.guesser_scores@ == guesser_scores(gs, round_duration)
    &&& r.median_remaining_x2 == median_remaining_x2(gs, round_duration)
    &&& r.artist_score == artist_score(
        gs.len() as int,
        potential_guessers as int,
        median_remaining_x2(gs, round_duration),
        round_duration as int,
        top_score(guesser_scores(gs, round_duration)) as int,
        artist_streak,
    )
}

/// Scores a round: per-guess scores, the artist's score from the fraction
/// guessed, the median remaining time, the top guesser score and the streak.
pub fn calculate_round_scores(
    round_number: u32,
    word: &str,
    round_duration: u32,
    correct_guesses: Vec<Guess>,
    potential_guessers: u32,
    artist_streak: u32,
) -> (r: RoundScores)
    ensures
        scores_of_round(
            r,
            round_number,
            word@,
            round_duration,
            correct_guesses@,
            potential_guessers,
            artist_streak,
        ),
{
    let scores = calculate_guesser_scores(&correct_guesses, round_duration);
    let median2 = median_remaining_times_two(&correct_guesses, round_duration);
    let top = top_of(&scores);
    let artist = calculate_artist_score(
        correct_guesses.len() as u64,
        potential_guessers,
        median2,
        round_duration,
        top,
        artist_streak,
    );
    RoundScores {
        round_number,
        word: word.to_string(),
        guesser_scores: scores,
        artist_score: artist,
        artist_streak,
        round_duration,
        correct_guesses,
        median_remaining_x2: median2,
        potential_guessers,
    }
}

} // verus!

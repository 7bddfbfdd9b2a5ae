//! Fuzzy matching: where the characters of a pattern occur, in order, in a
//! text, preferring runs of consecutive characters and word boundaries.
//!
//! The scoring of a match is done in floating point by the caller; this
//! module finds the matched positions and the facts the score is made of.
use vstd::prelude::*;

verus! {

/// Whether `char::is_alphanumeric` holds of a character.
pub uninterp spec fn alphanumeric(c: char) -> bool;

/// Whether `char::is_lowercase` holds of a character.
pub uninterp spec fn lower_case(c: char) -> bool;

/// Whether `char::is_uppercase` holds of a character.
pub uninterp spec fn upper_case(c: char) -> bool;

/// Whether `char::is_alphabetic` holds of a character.
pub uninterp spec fn alphabetic(c: char) -> bool;

/// The characters `char::to_lowercase` maps a character to.
pub uninterp spec fn char_lowercase(c: char) -> Seq<char>;

/// `char::is_alphanumeric`, named `alphanumeric`.
#[verifier::external_body]
fn is_alphanumeric(c: char) -> (r: bool)
    ensures
        r == alphanumeric(c),
{
    c.is_alphanumeric()
}

/// `char::is_lowercase`, named `lower_case`.
#[verifier::external_body]
fn is_lowercase(c: char) -> (r: bool)
    ensures
        r == lower_case(c),
{
    c.is_lowercase()
}

/// `char::is_uppercase`, named `upper_case`.
#[verifier::external_body]
fn is_uppercase(c: char) -> (r: bool)
    ensures
        r == upper_case(c),
{
    c.is_uppercase()
}

/// `char::is_alphabetic`, named `alphabetic`.
#[verifier::external_body]
fn is_alphabetic(c: char) -> (r: bool)
    ensures
        r == alphabetic(c),
{
    c.is_alphabetic()
}

/// `char::to_lowercase`, collected; named `char_lowercase`. As documented,
/// it yields at least one character.
#[verifier::external_body]
fn lowercase_of(c: char) -> (r: Vec<char>)
    ensures
        r@ == char_lowercase(c),
        r@.len() >= 1,
{
    c.to_lowercase().collect()
}

/// The lowercase form of a text, character by character.
pub open spec fn lowered(s: Seq<char>) -> Seq<char>
    decreases s.len(),
{
    if s.len() == 0 {
        Seq::empty()
    } else {
        lowered(s.drop_last()) + char_lowercase(s.last())
    }
}

/// Whether `c` is an ASCII digit.
pub open spec fn ascii_digit(c: char) -> bool {
    '0' <= c <= '9'
}

/// Whether a word starts at `current` after `prev`: at the start of the
/// text, after a character that is not alphanumeric, at a change from
/// lower to upper case, or at a letter after a digit.
pub open spec fn word_boundary(prev: Option<char>, current: char) -> bool {
    match prev {
        None => true,
        Some(p) => (!alphanumeric(p) && alphanumeric(current)) || (lower_case(p) && upper_case(current)) || (
        ascii_digit(p) && alphabetic(current)),
    }
}

/// Check if a character is at a word boundary.
pub fn is_word_boundary(prev: Option<char>, current: char) -> (r: bool)
    ensures
        r == word_boundary(prev, current),
{
    match prev {
        None => true,
        Some(p) => {
            let a = !is_alphanumeric(p) && is_alphanumeric(current);
            let b = is_lowercase(p) && is_uppercase(current);
            let c = '0' <= p && p <= '9' && is_alphabetic(current);
            a || b || c
        },
    }
}

/// The lowercase form of a text, character by character.
pub fn lowercase_chars(s: &str) -> (r: Vec<char>)
    ensures
        r@ == lowered(s@),
{
    let cs = crate::base::chars::str_to_chars(s);
    let mut out: Vec<char> = Vec::new();
    let mut i: usize = 0;
    while i < cs.len()
        invariant
            cs@ == s@,
            i <= cs@.len(),
            out@ == lowered(cs@.take(i as int)),
        decreases cs@.len() - i,
    {
        assert(cs@.take(i + 1).drop_last() =~= cs@.take(i as int));
        let low = lowercase_of(cs[i]);
        let mut j: usize = 0;
        let ghost start = out@;
        while j < low.len()
            invariant
                j <= low@.len(),
                out@ == start + low@.take(j as int),
            decreases low@.len() - j,
        {
            out.push(low[j]);
            assert(low@.take(j + 1) =~= low@.take(j as int).push(low@[j as int]));
            j = j + 1;
        }
        assert(low@.take(low@.len() as int) =~= low@);
        i = i + 1;
    }
    assert(cs@.take(cs@.len() as int) =~= cs@);
    out
}

/// How good a position is for the `pi`-th pattern character: 0 right
/// after the previous match, 1 at a word boundary, 2 anywhere else.
pub open spec fn priority(h: Seq<char>, pi: int, prev: int, hi: int) -> int {
    if pi > 0 && hi == prev + 1 {
        0
    } else if hi == 0 || word_boundary(Some(h[hi - 1]), h[hi]) {
        1
    } else {
        2
    }
}

/// The end of the positions looked at for `pc` from `start`: just past the
/// first occurrence more than 50 positions ahead, or the end of the text.
pub open spec fn window_end(h: Seq<char>, pc: char, start: int, from: int) -> int
    decreases h.len() - from,
{
    if from >= h.len() {
        h.len() as int
    } else if from > start + 50 && h[from] == pc {
        from + 1
    } else {
        window_end(h, pc, start, from + 1)
    }
}

/// The best occurrence of `pc` in `h[lo..hi)`: least priority, the earliest
/// among equals.
pub open spec fn best_upto(h: Seq<char>, pc: char, pi: int, prev: int, lo: int, hi: int) -> Option<int>
    decreases hi - lo,
{
    if hi <= lo {
        None
    } else {
        let rest = best_upto(h, pc, pi, prev, lo, hi - 1);
        let j = hi - 1;
        if h[j] == pc {
            match rest {
                None => Some(j),
                Some(b) => if priority(h, pi, prev, j) < priority(h, pi, prev, b) {
                    Some(j)
                } else {
                    Some(b)
                },
            }
        } else {
            rest
        }
    }
}

/// The positions chosen for the first `k` pattern characters, each the
/// best occurrence after the previous one within its window; `None` once a
/// character has none.
pub open spec fn greedy(p: Seq<char>, h: Seq<char>, k: int) -> Option<Seq<int>>
    decreases k,
{
    if k <= 0 {
        Some(Seq::empty())
    } else {
        match greedy(p, h, k - 1) {
            None => None,
            Some(idx) => {
                let start = if k - 1 == 0 { 0 } else { idx.last() + 1 };
                let prev = if k - 1 == 0 { -1 } else { idx.last() };
                match best_upto(h, p[k - 1], k - 1, prev, start, window_end(h, p[k - 1], start, start)) {
                    None => None,
                    Some(pos) => Some(idx.push(pos)),
                }
            },
        }
    }
}

/// The matched positions of `pattern` in `haystack`: none needed for an
/// empty pattern, no match when the pattern is longer, otherwise the
/// greedy choice.
pub open spec fn best_match(pattern: Seq<char>, haystack: Seq<char>) -> Option<Seq<int>> {
    if pattern.len() == 0 {
        Some(Seq::empty())
    } else if pattern.len() > haystack.len() {
        None
    } else {
        greedy(pattern, haystack, pattern.len() as int)
    }
}

/// The positions as integers.
pub open spec fn positions(v: Seq<usize>) -> Seq<int> {
    v.map_values(|i: usize| i as int)
}

/// Once an occurrence of priority 0 is the best, nothing later displaces
/// it.
proof fn lemma_best_zero_stays(h: Seq<char>, pc: char, pi: int, prev: int, lo: int, mid: int, hi: int)
    requires
        lo <= mid <= hi,
        best_upto(h, pc, pi, prev, lo, mid) matches Some(b) && priority(h, pi, prev, b) == 0,
    ensures
        best_upto(h, pc, pi, prev, lo, hi) == best_upto(h, pc, pi, prev, lo, mid),
    decreases hi - mid,
{
    if hi > mid {
        lemma_best_zero_stays(h, pc, pi, prev, lo, mid, hi - 1);
    }
}

/// The window from `from` on ends past `from`, when `from` is inside the
/// text.
proof fn lemma_window_gt(h: Seq<char>, pc: char, start: int, from: int)
    requires
        0 <= from < h.len(),
    ensures
        window_end(h, pc, start, from) > from,
    decreases h.len() - from,
{
    if from + 1 < h.len() {
        lemma_window_gt(h, pc, start, from + 1);
    } else {
        assert(window_end(h, pc, start, from + 1) == h.len());
    }
}

/// The best occurrence of `pc` from `start`, within its window.
fn best_position(pattern_char: char, pi: usize, prev: usize, haystack: &[char], start: usize) -> (r: Option<usize>)
    requires
        start <= haystack@.len(),
        pi > 0 ==> prev + 1 == start,
    ensures
        match best_upto(
            haystack@,
            pattern_char,
            pi as int,
            if pi == 0 { -1 } else { prev as int },
            start as int,
            window_end(haystack@, pattern_char, start as int, start as int),
        ) {
            Some(b) => r == Some(b as usize),
            None => r is None,
        },
{
    let ghost h = haystack@;
    let ghost pv: int = if pi == 0 { -1 } else { prev as int };
    let ghost end = window_end(h, pattern_char, start as int, start as int);
    let m = haystack.len();
    let mut best_pos: Option<usize> = None;
    let mut best_priority: u32 = u32::MAX;
    let mut hi: usize = start;
    while hi < m
        invariant_except_break
            end == window_end(h, pattern_char, start as int, hi as int),
            match best_upto(h, pattern_char, pi as int, pv, start as int, hi as int) {
                Some(b) => best_pos == Some(b as usize) && best_priority == priority(h, pi as int, pv, b),
                None => best_pos is None && best_priority == u32::MAX,
            },
        invariant
            h == haystack@,
            m == h.len(),
            start <= hi <= m,
            pi > 0 ==> prev + 1 == start,
            pv == if pi == 0 { -1 } else { prev as int },
            end == window_end(h, pattern_char, start as int, start as int),
        ensures
            match best_upto(h, pattern_char, pi as int, pv, start as int, end) {
                Some(b) => best_pos == Some(b as usize),
                None => best_pos is None,
            },
        decreases m - hi,
    {
        if haystack[hi] == pattern_char {
            let prio: u32 = if pi > 0 && hi == prev + 1 {
                0
            } else if hi == 0 {
                1
            } else if is_word_boundary(Some(haystack[hi - 1]), haystack[hi]) {
                1
            } else {
                2
            };
            assert(prio == priority(h, pi as int, pv, hi as int));
            if prio < best_priority {
                best_priority = prio;
                best_pos = Some(hi);
                if prio == 0 {
                    proof {
                        lemma_window_gt(h, pattern_char, start as int, hi as int);
                        lemma_best_zero_stays(h, pattern_char, pi as int, pv, start as int, hi + 1, end);
                    }
                    break;
                }
            }
            if hi - start > 50 {
                assert(end == hi + 1);
                break;
            }
        }
        hi = hi + 1;
    }
    best_pos
}

/// Once the greedy choice has failed, it stays failed.
proof fn lemma_greedy_none_stays(p: Seq<char>, h: Seq<char>, k: int, n: int)
    requires
        k <= n,
        greedy(p, h, k) is None,
    ensures
        greedy(p, h, n) is None,
    decreases n - k,
{
    if k < n {
        lemma_greedy_none_stays(p, h, k, n - 1);
    }
}

/// Find the matched positions using a greedy choice that prefers
/// consecutive runs and word boundaries.
pub fn best_match_indices(pattern: &[char], haystack: &[char]) -> (r: Option<Vec<usize>>)
    ensures
        match best_match(pattern@, haystack@) {
            Some(idx) => r matches Some(v) && positions(v@) == idx,
            None => r is None,
        },
{
    let n = pattern.len();
    let m = haystack.len();
    if n == 0 {
        let v: Vec<usize> = Vec::new();
        assert(positions(v@) =~= Seq::<int>::empty());
        return Some(v);
    }
    if n > m {
        return None;
    }
    let mut indices: Vec<usize> = Vec::new();
    let mut search_start: usize = 0;
    let mut pi: usize = 0;
    while pi < n
        invariant
            n == pattern@.len(),
            m == haystack@.len(),
            pi <= n,
            indices@.len() == pi,
            greedy(pattern@, haystack@, pi as int) == Some(positions(indices@)),
            search_start <= m,
            pi == 0 ==> search_start == 0,
            pi > 0 ==> search_start == indices@.last() + 1,
            forall|k: int| 0 <= k < pi ==> #[trigger] indices@[k] < m,
        decreases n - pi,
    {
        let prev: usize = if pi == 0 { 0 } else { indices[pi - 1] };
        let pos = match best_position(pattern[pi], pi, prev, haystack, search_start) {
            Some(p) => p,
            None => {
                proof {
                    assert(positions(indices@).len() == pi);
                    if pi > 0 {
                        assert(positions(indices@).last() == indices@.last() as int);
                    }
                    assert(greedy(pattern@, haystack@, pi + 1) is None);
                    lemma_greedy_none_stays(pattern@, haystack@, pi + 1, n as int);
                }
                return None;
            },
        };
        proof {
            if pi > 0 {
                assert(positions(indices@).last() == indices@.last() as int);
            }
            lemma_best_in_range(
                haystack@,
                pattern@[pi as int],
                pi as int,
                if pi == 0 { -1 } else { prev as int },
                search_start as int,
                window_end(haystack@, pattern@[pi as int], search_start as int, search_start as int),
            );
            lemma_window_le(haystack@, pattern@[pi as int], search_start as int, search_start as int);
        }
        let ghost before = indices@;
        indices.push(pos);
        assert(positions(indices@) =~= positions(before).push(pos as int));
        search_start = pos + 1;
        pi = pi + 1;
    }
    Some(indices)
}

/// The best occurrence lies in the range looked at.
proof fn lemma_best_in_range(h: Seq<char>, pc: char, pi: int, prev: int, lo: int, hi: int)
    ensures
        best_upto(h, pc, pi, prev, lo, hi) matches Some(b) ==> lo <= b < hi && h[b] == pc,
    decreases hi - lo,
{
    if hi > lo {
        lemma_best_in_range(h, pc, pi, prev, lo, hi - 1);
    }
}

/// The window never runs past the end of the text.
proof fn lemma_window_le(h: Seq<char>, pc: char, start: int, from: int)
    ensures
        window_end(h, pc, start, from) <= h.len(),
    decreases h.len() - from,
{
    if from < h.len() {
        lemma_window_le(h, pc, start, from + 1);
    }
}

/// Every match found is a match: the positions increase strictly, and the
/// `k`-th of them holds the `k`-th pattern character.
pub proof fn lemma_best_match_in_order(pattern: Seq<char>, haystack: Seq<char>)
    ensures
        best_match(pattern, haystack) matches Some(idx) ==> {
            &&& idx.len() == pattern.len()
            &&& forall|k: int| 0 <= k < idx.len() ==> 0 <= #[trigger] idx[k] < haystack.len()
                && haystack[idx[k]] == pattern[k]
            &&& forall|j: int, k: int| 0 <= j < k < idx.len() ==> #[trigger] idx[j] < #[trigger] idx[k]
        },
{
    if pattern.len() > 0 && pattern.len() <= haystack.len() {
        lemma_greedy_in_order(pattern, haystack, pattern.len() as int);
    }
}

proof fn lemma_greedy_in_order(p: Seq<char>, h: Seq<char>, n: int)
    requires
        0 <= n <= p.len(),
    ensures
        greedy(p, h, n) matches Some(idx) ==> {
            &&& idx.len() == n
            &&& forall|k: int| 0 <= k < idx.len() ==> 0 <= #[trigger] idx[k] < h.len() && h[idx[k]] == p[k]
            &&& forall|j: int, k: int| 0 <= j < k < idx.len() ==> #[trigger] idx[j] < #[trigger] idx[k]
        },
    decreases n,
{
    if n > 0 {
        lemma_greedy_in_order(p, h, n - 1);
        match greedy(p, h, n - 1) {
            None => {},
            Some(idx) => {
                let start = if n - 1 == 0 { 0 } else { idx.last() + 1 };
                let prev = if n - 1 == 0 { -1 } else { idx.last() };
                let end = window_end(h, p[n - 1], start, start);
                lemma_best_in_range(h, p[n - 1], n - 1, prev, start, end);
                lemma_window_le(h, p[n - 1], start, start);
                match best_upto(h, p[n - 1], n - 1, prev, start, end) {
                    None => {},
                    Some(pos) => {
                        let next = idx.push(pos);
                        assert forall|j: int, k: int| 0 <= j < k < next.len() implies #[trigger] next[j] < #[trigger] next[k] by {
                            if k == next.len() - 1 && j < k {
                                assert(next[j] == idx[j]);
                                if j < idx.len() - 1 {
                                    assert(idx[j] < idx[idx.len() - 1]);
                                }
                            }
                        }
                    },
                }
            },
        }
    }
}

/// Whether position `j` of `h` starts a word.
pub open spec fn at_word_start(h: Seq<char>, j: int) -> bool {
    j == 0 || word_boundary(Some(h[j - 1]), h[j])
}

/// The best occurrence found is an occurrence in the range, and no
/// occurrence in the range ranks better.
proof fn lemma_best_upto_least(h: Seq<char>, pc: char, pi: int, prev: int, lo: int, hi: int)
    requires
        0 <= lo,
        hi <= h.len(),
    ensures
        best_upto(h, pc, pi, prev, lo, hi) matches Some(b) ==> lo <= b < hi && h[b] == pc,
        forall|j: int|
            lo <= j < hi && h[j] == pc ==> (best_upto(h, pc, pi, prev, lo, hi) matches Some(b) && priority(h, pi, prev, b)
                <= priority(h, pi, prev, j)),
    decreases hi - lo,
{
    if hi > lo {
        lemma_best_upto_least(h, pc, pi, prev, lo, hi - 1);
    }
}

/// How a pattern character's position is chosen among its occurrences in
/// a range: the one right after the previous match wins; failing that, an
/// occurrence where a word starts is taken over one inside a word.
pub proof fn lemma_best_prefers_consecutive_then_word_start(h: Seq<char>, pc: char, pi: int, prev: int, lo: int, hi: int)
    requires
        0 <= lo,
        hi <= h.len(),
    ensures
        best_upto(h, pc, pi, prev, lo, hi) matches Some(b) ==> lo <= b < hi && h[b] == pc,
        pi > 0 && lo <= prev + 1 < hi && h[prev + 1] == pc ==> best_upto(h, pc, pi, prev, lo, hi) == Some(prev + 1),
        forall|j: int|
            lo <= j < hi && h[j] == pc && at_word_start(h, j) && !(pi > 0 && lo <= prev + 1 < hi && h[prev + 1] == pc)
                ==> (best_upto(h, pc, pi, prev, lo, hi) matches Some(b) && at_word_start(h, b)),
{
    lemma_best_upto_least(h, pc, pi, prev, lo, hi);
    if pi > 0 && lo <= prev + 1 < hi && h[prev + 1] == pc {
        assert(priority(h, pi, prev, prev + 1) == 0);
    }
    assert forall|j: int|
        lo <= j < hi && h[j] == pc && at_word_start(h, j) && !(pi > 0 && lo <= prev + 1 < hi && h[prev + 1] == pc)
            implies (best_upto(h, pc, pi, prev, lo, hi) matches Some(b) && at_word_start(h, b)) by {
        assert(priority(h, pi, prev, j) <= 1);
    }
}

/// Every occurrence before the best one ranks strictly worse.
proof fn lemma_best_upto_earliest(h: Seq<char>, pc: char, pi: int, prev: int, lo: int, hi: int)
    requires
        0 <= lo,
        hi <= h.len(),
    ensures
        best_upto(h, pc, pi, prev, lo, hi) matches Some(b) ==> forall|j: int|
            lo <= j < b && h[j] == pc ==> priority(h, pi, prev, j) > priority(h, pi, prev, b),
    decreases hi - lo,
{
    if hi > lo {
        lemma_best_upto_earliest(h, pc, pi, prev, lo, hi - 1);
        lemma_best_upto_least(h, pc, pi, prev, lo, hi - 1);
    }
}

/// The occurrence chosen for a pattern character is the first one of the
/// best kind: no occurrence before it comes right after the previous
/// match, and unless it does so itself, it starts a word and no occurrence
/// before it does.
pub proof fn lemma_best_is_first_of_its_kind(h: Seq<char>, pc: char, pi: int, prev: int, lo: int, hi: int)
    requires
        0 <= lo,
        hi <= h.len(),
    ensures
        best_upto(h, pc, pi, prev, lo, hi) matches Some(b) ==> forall|j: int|
            lo <= j < b && h[j] == pc ==> !(pi > 0 && j == prev + 1) && ((pi > 0 && b == prev + 1) || (at_word_start(
                h,
                b,
            ) && !at_word_start(h, j))),
{
    lemma_best_upto_earliest(h, pc, pi, prev, lo, hi);
    if best_upto(h, pc, pi, prev, lo, hi) is Some {
        let b = best_upto(h, pc, pi, prev, lo, hi)->0;
        assert forall|j: int| lo <= j < b && h[j] == pc implies !(pi > 0 && j == prev + 1) && ((pi > 0 && b == prev
            + 1) || (at_word_start(h, b) && !at_word_start(h, j))) by {
            assert(priority(h, pi, prev, j) > priority(h, pi, prev, b));
        }
    }
}

} // verus!

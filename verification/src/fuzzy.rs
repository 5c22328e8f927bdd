use vstd::prelude::*;

use crate::text::{
    char_is_alphanumeric, chars_of, contains_chars, contains_run, is_alphanumeric, lowercase,
    to_lowercase, trim, trimmed,
};

verus! {

/// First index at or after `start` where `c` holds `ch`.
pub open spec fn find_from(c: Seq<char>, ch: char, start: int) -> Option<int>
    decreases c.len() - start,
{
    if start < 0 || start >= c.len() {
        None
    } else if c[start] == ch {
        Some(start)
    } else {
        find_from(c, ch, start + 1)
    }
}

/// Greedy left-to-right match of the first `k` characters of `q` inside `c`: each
/// character is matched at its first occurrence after the previous match.
pub open spec fn greedy_positions(q: Seq<char>, c: Seq<char>, k: int) -> Option<Seq<int>>
    decreases k,
{
    if k <= 0 {
        Some(Seq::empty())
    } else {
        match greedy_positions(q, c, k - 1) {
            None => None,
            Some(p) => {
                let cursor = if p.len() == 0 { 0 } else { p.last() + 1 };
                match find_from(c, q[k - 1], cursor) {
                    None => None,
                    Some(x) => Some(p.push(x)),
                }
            },
        }
    }
}

/// Whether the match at `p[i]` starts a word: the first character, or one after a
/// character that is not alphanumeric.
pub open spec fn at_boundary(c: Seq<char>, pos: int) -> bool {
    pos == 0 || (0 < pos <= c.len() && !char_is_alphanumeric(c[pos - 1]))
}

/// Score contribution of the `i`-th matched position.
pub open spec fn position_bonus(c: Seq<char>, p: Seq<int>, i: int) -> int {
    let boundary: int = if at_boundary(c, p[i]) { 24 } else { 0 };
    let adjacency: int = if i > 0 {
        let gap = p[i] - (p[i - 1] + 1);
        if gap <= 0 { 18 } else if gap < 20 { -gap } else { -20 }
    } else {
        0
    };
    boundary + adjacency
}

/// Sum of the bonuses of the first `n` positions.
pub open spec fn bonus_sum(c: Seq<char>, p: Seq<int>, n: int) -> int
    decreases n,
{
    if n <= 0 {
        0
    } else {
        bonus_sum(c, p, n - 1) + position_bonus(c, p, n - 1)
    }
}

pub open spec fn min_int(a: int, b: int) -> int {
    if a < b { a } else { b }
}

/// The score of the lowercase query `q` (byte length `q_bytes`) against the lowercase
/// candidate `c`, given the greedy match positions `p`.
pub open spec fn total_score(q: Seq<char>, q_bytes: int, c: Seq<char>, p: Seq<int>) -> int {
    let exact: int = if contains_run(c, q) { 80 } else { 0 };
    let shortfall = if c.len() > q_bytes { c.len() - q_bytes } else { 0 };
    100 + bonus_sum(c, p, p.len() as int) + exact - min_int(p[0], 40) - min_int(shortfall, 40)
}

/// What `score` returns: `Some(0)` for a query that is blank once trimmed; `None` when the
/// lowercase query is not a subsequence of the lowercase candidate; otherwise the total.
pub open spec fn score_spec(query: Seq<char>, candidate: Seq<char>) -> Option<i64> {
    lowered_score(lowercase(trimmed(query)), lowercase(candidate))
}

/// The score of the lowercase, trimmed query `q` against the lowercase candidate `c`:
/// `Some(0)` for an empty query; `None` when `q` is not a subsequence of `c`; otherwise the
/// total for the greedy match.
pub open spec fn lowered_score(q: Seq<char>, c: Seq<char>) -> Option<i64> {
    if q.len() == 0 {
        Some(0)
    } else {
        match greedy_positions(q, c, q.len() as int) {
            None => None,
            Some(p) => Some(
                #[verifier::truncate] (total_score(
                    q,
                    (#[verifier::truncate] (vstd::utf8::encode_utf8(q).len() as usize)) as int,
                    c,
                    p,
                ) as i64),
            ),
        }
    }
}

proof fn lemma_find_from_bounds(c: Seq<char>, ch: char, start: int)
    requires
        0 <= start,
    ensures
        find_from(c, ch, start) matches Some(x) ==> start <= x < c.len() && c[x] == ch,
    decreases c.len() - start,
{
    if start < c.len() && c[start] != ch {
        lemma_find_from_bounds(c, ch, start + 1);
    }
}

proof fn lemma_greedy_none_stays(q: Seq<char>, c: Seq<char>, k: int, n: int)
    requires
        0 <= k <= n,
        greedy_positions(q, c, k) is None,
    ensures
        greedy_positions(q, c, n) is None,
    decreases n - k,
{
    if k < n {
        lemma_greedy_none_stays(q, c, k + 1, n);
    }
}

/// Fuzzy score of `candidate` for `query`: higher is a better match, `None` when some
/// query character cannot be matched in order.
pub fn score(query: &str, candidate: &str) -> (r: Option<i64>)
    ensures
        r == score_spec(query@, candidate@),
        trimmed(query@).len() == 0 ==> r == Some(0i64),
{
    let q_string = to_lowercase(trim(query));
    let c_string = to_lowercase(candidate);
    score_lowered(q_string.as_str(), c_string.as_str())
}

/// The score of a query that is already trimmed and lowercase against a lowercase
/// candidate.
pub fn score_lowered(query: &str, candidate: &str) -> (r: Option<i64>)
    ensures
        r == lowered_score(query@, candidate@),
{
    if query.is_empty() {
        return Some(0);
    }
    let q_string = query;
    let c_string = candidate;
    let qv = chars_of(q_string);
    let cv = chars_of(c_string);
    let ghost q = qv@;
    let ghost c = cv@;
    assert(q == query@);
    assert(c == candidate@);
    assert(q.len() > 0);

    let mut positions: Vec<usize> = Vec::new();
    let mut cursor: usize = 0;
    let mut k: usize = 0;
    while k < qv.len()
        invariant
            q == qv@,
            c == cv@,
            q == query@,
            c == candidate@,
            q.len() > 0,
            cv@.len() == cv.len(),
            k <= qv@.len(),
            positions@.len() == k,
            cursor <= cv@.len(),
            k <= cursor,
            k == 0 ==> cursor == 0,
            k > 0 ==> cursor == positions@[k - 1] + 1,
            forall|i: int, j: int| 0 <= i < j < k ==> positions@[i] < positions@[j],
            forall|i: int| 0 <= i < k ==> positions@[i] < cv@.len(),
            greedy_positions(q, c, k as int) matches Some(p) && p.len() == k && (forall|i: int|
                0 <= i < k ==> p[i] == positions@[i] as int),
        decreases qv.len() - k,
    {
        let ch = qv[k];
        let mut j: usize = cursor;
        while j < cv.len() && cv[j] != ch
            invariant
                cursor <= j <= cv@.len(),
                cv@.len() == cv.len(),
                find_from(c, ch, cursor as int) == find_from(c, ch, j as int),
                c == cv@,
            decreases cv.len() - j,
        {
            j += 1;
        }
        let ghost prev = greedy_positions(q, c, k as int)->0;
        assert(prev.len() == 0 ==> cursor == 0);
        assert(prev.len() > 0 ==> prev.last() + 1 == cursor);
        if j == cv.len() {
            proof {
                lemma_greedy_none_stays(q, c, k + 1, q.len() as int);
                assert(greedy_positions(q, c, q.len() as int) is None);
            }
            return None;
        }
        positions.push(j);
        cursor = j + 1;
        k += 1;
        proof {
            let p = greedy_positions(q, c, k as int)->0;
            assert(p == prev.push(j as int));
        }
    }

    let n = positions.len();
    let ghost p = greedy_positions(q, c, q.len() as int)->0;
    let mut total: i128 = 100;
    let mut idx: usize = 0;
    while idx < n
        invariant
            n == positions@.len(),
            n == p.len(),
            c == cv@,
            cv@.len() == cv.len(),
            idx <= n,
            n <= cv@.len(),
            forall|i: int| 0 <= i < n ==> p[i] == positions@[i] as int,
            forall|i: int, j: int| 0 <= i < j < n ==> positions@[i] < positions@[j],
            forall|i: int| 0 <= i < n ==> positions@[i] < cv@.len(),
            total == 100 + bonus_sum(c, p, idx as int),
            100 - 20 * idx <= total <= 100 + 42 * idx,
        decreases n - idx,
    {
        let position = positions[idx];
        let mut bonus: i128 = 0;
        if position == 0 || !is_alphanumeric(cv[position - 1]) {
            bonus = 24;
        }
        if idx > 0 {
            let gap = position - (positions[idx - 1] + 1);
            if gap == 0 {
                bonus = bonus + 18;
            } else if gap < 20 {
                bonus = bonus - gap as i128;
            } else {
                bonus = bonus - 20;
            }
        }
        assert(bonus == position_bonus(c, p, idx as int));
        total = total + bonus;
        idx += 1;
    }
    if contains_chars(&cv, &qv) {
        total = total + 80;
    }
    let first = positions[0];
    if first < 40 {
        total = total - first as i128;
    } else {
        total = total - 40;
    }
    let q_bytes = q_string.len();
    assert(q_bytes == #[verifier::truncate] (vstd::utf8::encode_utf8(q).len() as usize));
    let shortfall = if cv.len() > q_bytes { cv.len() - q_bytes } else { 0 };
    if shortfall < 40 {
        total = total - shortfall as i128;
    } else {
        total = total - 40;
    }
    assert(total == total_score(q, q_bytes as int, c, p));
    Some(#[verifier::truncate] (total as i64))
}

/// Whether `e` lists, for each character of `q` in turn, a position of `c` holding it,
/// each position after the one before.
pub open spec fn embeds(q: Seq<char>, c: Seq<char>, e: Seq<int>) -> bool {
    &&& e.len() == q.len()
    &&& forall|i: int| 0 <= i < e.len() ==> 0 <= #[trigger] e[i] < c.len() && c[e[i]] == q[i]
    &&& forall|i: int, j: int| 0 <= i < j < e.len() ==> e[i] < e[j]
}

/// Whether the characters of `q` occur in `c` in order, not necessarily next to each other.
pub open spec fn is_subsequence(q: Seq<char>, c: Seq<char>) -> bool {
    exists|e: Seq<int>| embeds(q, c, e)
}

proof fn lemma_find_from_first(c: Seq<char>, ch: char, start: int, y: int)
    requires
        0 <= start <= y < c.len(),
        c[y] == ch,
    ensures
        find_from(c, ch, start) matches Some(x) && x <= y,
    decreases y - start,
{
    if c[start] != ch {
        lemma_find_from_first(c, ch, start + 1, y);
    }
}

proof fn lemma_greedy_sound(q: Seq<char>, c: Seq<char>, k: int)
    requires
        0 <= k <= q.len(),
    ensures
        greedy_positions(q, c, k) matches Some(p) ==> embeds(q.take(k), c, p),
    decreases k,
{
    if k > 0 {
        lemma_greedy_sound(q, c, k - 1);
        if let Some(p) = greedy_positions(q, c, k - 1) {
            let cursor = if p.len() == 0 { 0 } else { p.last() + 1 };
            lemma_find_from_bounds(c, q[k - 1], cursor);
            if let Some(x) = find_from(c, q[k - 1], cursor) {
                let e = p.push(x);
                assert(q.take(k - 1) =~= q.take(k).drop_last());
                assert forall|i: int| 0 <= i < e.len() implies 0 <= #[trigger] e[i] < c.len() && c[e[i]] == q.take(k)[i] by {
                    if i < k - 1 {
                        assert(e[i] == p[i]);
                        assert(q.take(k - 1)[i] == q.take(k)[i]);
                    }
                }
                assert forall|i: int, j: int| 0 <= i < j < e.len() implies e[i] < e[j] by {
                    if j == k - 1 && i < k - 1 {
                        assert(p[i] <= p.last());
                    }
                }
            }
        }
    }
}

proof fn lemma_greedy_earliest(q: Seq<char>, c: Seq<char>, e: Seq<int>, k: int)
    requires
        embeds(q, c, e),
        0 <= k <= q.len(),
    ensures
        greedy_positions(q, c, k) matches Some(p) && p.len() == k && (k > 0 ==> p.last() <= e[k - 1]),
    decreases k,
{
    if k > 0 {
        lemma_greedy_earliest(q, c, e, k - 1);
        lemma_greedy_sound(q, c, k - 1);
        let p = greedy_positions(q, c, k - 1)->0;
        let cursor = if p.len() == 0 { 0 } else { p.last() + 1 };
        if k > 1 {
            assert(e[k - 2] < e[k - 1]);
            assert(0 <= p[p.len() - 1]);
        }
        assert(0 <= e[k - 1] < c.len() && c[e[k - 1]] == q[k - 1]);
        lemma_find_from_first(c, q[k - 1], cursor, e[k - 1]);
    }
}

/// A query scores exactly when its trimmed lowercase characters occur in order in the
/// lowercase candidate (a blank query scores every candidate).
pub proof fn lemma_score_iff_subsequence(query: Seq<char>, candidate: Seq<char>)
    ensures
        score_spec(query, candidate) is Some <==> (lowercase(trimmed(query)).len() == 0 || is_subsequence(
            lowercase(trimmed(query)),
            lowercase(candidate),
        )),
{
    let q = lowercase(trimmed(query));
    let c = lowercase(candidate);
    if q.len() > 0 {
        lemma_greedy_sound(q, c, q.len() as int);
        assert(q.take(q.len() as int) =~= q);
        if is_subsequence(q, c) {
            let e = choose|e: Seq<int>| embeds(q, c, e);
            lemma_greedy_earliest(q, c, e, q.len() as int);
        }
    }
}

} // verus!

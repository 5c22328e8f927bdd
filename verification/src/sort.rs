use vstd::prelude::*;

verus! {

/// A sort key: compared by `rank`, then `first`, then `second`, then `text`
/// (character by character, a prefix first), as tuples compare.
pub struct SortKey {
    pub rank: i128,
    pub first: usize,
    pub second: usize,
    pub text: Vec<char>,
}

pub ghost struct KeyView {
    pub rank: int,
    pub first: int,
    pub second: int,
    pub text: Seq<char>,
}

impl View for SortKey {
    type V = KeyView;

    open spec fn view(&self) -> KeyView {
        KeyView { rank: self.rank as int, first: self.first as int, second: self.second as int, text: self.text@ }
    }
}

/// Lexicographic order of `a` and `b` from position `i` on.
pub open spec fn text_less_from(a: Seq<char>, b: Seq<char>, i: int) -> bool
    decreases a.len() - i,
{
    if i < 0 || i >= a.len() {
        i >= 0 && i < b.len()
    } else if i >= b.len() {
        false
    } else if (a[i] as int) < (b[i] as int) {
        true
    } else if (a[i] as int) > (b[i] as int) {
        false
    } else {
        text_less_from(a, b, i + 1)
    }
}

pub open spec fn text_less(a: Seq<char>, b: Seq<char>) -> bool {
    text_less_from(a, b, 0)
}

/// The strict order of keys.
pub open spec fn key_less(a: KeyView, b: KeyView) -> bool {
    a.rank < b.rank || (a.rank == b.rank && (a.first < b.first || (a.first == b.first && (a.second < b.second || (
    a.second == b.second && text_less(a.text, b.text))))))
}

/// Whether the element at index `a` comes before the one at index `b` in a stable sort:
/// a smaller key, or an equal key and an earlier index.
pub open spec fn sorts_before(keys: Seq<KeyView>, a: int, b: int) -> bool {
    key_less(keys[a], keys[b]) || (keys[a] == keys[b] && a < b)
}

/// `order` lists every index of `keys` once, in stable sorted order.
pub open spec fn is_stable_order(keys: Seq<KeyView>, order: Seq<int>) -> bool {
    &&& order.len() == keys.len()
    &&& forall|i: int| 0 <= i < order.len() ==> 0 <= #[trigger] order[i] < keys.len()
    &&& forall|x: int| 0 <= x < keys.len() ==> #[trigger] order.contains(x)
    &&& forall|i: int, j: int| 0 <= i < j < order.len() ==> sorts_before(keys, #[trigger] order[i], #[trigger] order[j])
}

/// The stable sorted order of `keys`: the indices, smallest key first, equal keys in the
/// order they are listed.
pub open spec fn stable_order(keys: Seq<KeyView>) -> Seq<int> {
    choose|order: Seq<int>| is_stable_order(keys, order)
}

proof fn lemma_text_irreflexive(a: Seq<char>, i: int)
    requires
        0 <= i,
    ensures
        !text_less_from(a, a, i),
    decreases a.len() - i,
{
    if i < a.len() {
        lemma_text_irreflexive(a, i + 1);
    }
}

proof fn lemma_text_asymmetric_total(a: Seq<char>, b: Seq<char>, i: int)
    requires
        0 <= i <= a.len(),
        i <= b.len(),
        a.subrange(0, i) == b.subrange(0, i),
    ensures
        text_less_from(a, b, i) ==> !text_less_from(b, a, i),
        a != b ==> text_less_from(a, b, i) || text_less_from(b, a, i),
    decreases a.len() - i,
{
    if i < a.len() && i < b.len() && a[i] == b[i] {
        assert(a.subrange(0, i + 1) =~= a.subrange(0, i).push(a[i]));
        assert(b.subrange(0, i + 1) =~= b.subrange(0, i).push(b[i]));
        lemma_text_asymmetric_total(a, b, i + 1);
    }
    if i == a.len() && i == b.len() {
        assert(a =~= a.subrange(0, i));
        assert(b =~= b.subrange(0, i));
    }
    if i < a.len() && i < b.len() && a[i] != b[i] {
        assert((a[i] as int) != (b[i] as int));
    }
}

proof fn lemma_text_transitive(a: Seq<char>, b: Seq<char>, c: Seq<char>, i: int)
    requires
        0 <= i,
        text_less_from(a, b, i),
        text_less_from(b, c, i),
    ensures
        text_less_from(a, c, i),
    decreases a.len() - i,
{
    if i < a.len() && i < b.len() && i < c.len() && a[i] == b[i] && b[i] == c[i] {
        lemma_text_transitive(a, b, c, i + 1);
    }
}

pub proof fn lemma_key_less_order(a: KeyView, b: KeyView, c: KeyView)
    ensures
        !key_less(a, a),
        key_less(a, b) ==> !key_less(b, a),
        a != b ==> key_less(a, b) || key_less(b, a),
        key_less(a, b) && key_less(b, c) ==> key_less(a, c),
{
    assert(a.text.subrange(0, 0) =~= b.text.subrange(0, 0));
    lemma_text_irreflexive(a.text, 0);
    lemma_text_asymmetric_total(a.text, b.text, 0);
    if text_less(a.text, b.text) && text_less(b.text, c.text) {
        lemma_text_transitive(a.text, b.text, c.text, 0);
    }
    if a != b && a.rank == b.rank && a.first == b.first && a.second == b.second {
        assert(a.text != b.text);
    }
}

pub proof fn lemma_sorts_before_order(keys: Seq<KeyView>, a: int, b: int, c: int)
    requires
        0 <= a < keys.len(),
        0 <= b < keys.len(),
        0 <= c < keys.len(),
    ensures
        !sorts_before(keys, a, a),
        sorts_before(keys, a, b) ==> !sorts_before(keys, b, a),
        a != b ==> sorts_before(keys, a, b) || sorts_before(keys, b, a),
        sorts_before(keys, a, b) && sorts_before(keys, b, c) ==> sorts_before(keys, a, c),
{
    lemma_key_less_order(keys[a], keys[b], keys[c]);
    lemma_key_less_order(keys[b], keys[a], keys[c]);
    lemma_key_less_order(keys[a], keys[c], keys[b]);
    lemma_key_less_order(keys[b], keys[c], keys[a]);
}

proof fn lemma_orders_agree_below(keys: Seq<KeyView>, p1: Seq<int>, p2: Seq<int>, i: int)
    requires
        is_stable_order(keys, p1),
        is_stable_order(keys, p2),
        0 <= i <= p1.len(),
    ensures
        forall|k: int| 0 <= k < i ==> p1[k] == p2[k],
    decreases i,
{
    if i > 0 {
        lemma_orders_agree_below(keys, p1, p2, i - 1);
        let j = i - 1;
        let a = p1[j];
        let b = p2[j];
        if a != b {
            assert(p1.contains(b));
            assert(p2.contains(a));
            let t = choose|t: int| 0 <= t < p1.len() && p1[t] == b;
            let s = choose|s: int| 0 <= s < p2.len() && p2[s] == a;
            lemma_sorts_before_order(keys, a, b, a);
            if t < j {
                assert(p2[t] == b);
                lemma_sorts_before_order(keys, p2[t], p2[j], p2[t]);
                assert(sorts_before(keys, p2[t], p2[j]));
            }
            if s < j {
                assert(p1[s] == a);
                lemma_sorts_before_order(keys, p1[s], p1[j], p1[s]);
                assert(sorts_before(keys, p1[s], p1[j]));
            }
            assert(sorts_before(keys, p1[j], p1[t]));
            assert(sorts_before(keys, p2[j], p2[s]));
        }
    }
}

/// Two stable orders of the same keys are the same order.
pub proof fn lemma_stable_order_unique(keys: Seq<KeyView>, p1: Seq<int>, p2: Seq<int>)
    requires
        is_stable_order(keys, p1),
        is_stable_order(keys, p2),
    ensures
        p1 == p2,
{
    lemma_orders_agree_below(keys, p1, p2, p1.len() as int);
    assert(p1 =~= p2);
}

/// The first position at or after `i` in `s` whose index sorts after `x`, or `s.len()`.
pub open spec fn insertion_point(keys: Seq<KeyView>, s: Seq<int>, x: int, i: int) -> int
    decreases s.len() - i,
{
    if i < 0 || i >= s.len() {
        s.len() as int
    } else if sorts_before(keys, x, s[i]) {
        i
    } else {
        insertion_point(keys, s, x, i + 1)
    }
}

/// The indices below `n`, sorted stably by insertion.
pub open spec fn sorted_prefix(keys: Seq<KeyView>, n: nat) -> Seq<int>
    decreases n,
{
    if n == 0 {
        Seq::empty()
    } else {
        let s = sorted_prefix(keys, (n - 1) as nat);
        s.insert(insertion_point(keys, s, n - 1, 0), n - 1)
    }
}

proof fn lemma_insertion_point(keys: Seq<KeyView>, s: Seq<int>, x: int, i: int)
    requires
        0 <= i <= s.len(),
    ensures
        i <= insertion_point(keys, s, x, i) <= s.len(),
        forall|k: int| i <= k < insertion_point(keys, s, x, i) ==> !sorts_before(keys, x, #[trigger] s[k]),
        insertion_point(keys, s, x, i) < s.len() ==> sorts_before(keys, x, s[insertion_point(keys, s, x, i)]),
    decreases s.len() - i,
{
    if i < s.len() && !sorts_before(keys, x, s[i]) {
        lemma_insertion_point(keys, s, x, i + 1);
    }
}

proof fn lemma_sorted_prefix(keys: Seq<KeyView>, n: nat)
    requires
        n <= keys.len(),
    ensures
        sorted_prefix(keys, n).len() == n,
        forall|i: int| 0 <= i < n ==> 0 <= #[trigger] sorted_prefix(keys, n)[i] < n,
        forall|x: int| 0 <= x < n ==> #[trigger] sorted_prefix(keys, n).contains(x),
        forall|i: int, j: int| 0 <= i < j < n ==> sorts_before(
            keys,
            #[trigger] sorted_prefix(keys, n)[i],
            #[trigger] sorted_prefix(keys, n)[j],
        ),
    decreases n,
{
    if n > 0 {
        let m = (n - 1) as nat;
        lemma_sorted_prefix(keys, m);
        let s = sorted_prefix(keys, m);
        let x = n - 1;
        let p = insertion_point(keys, s, x, 0);
        lemma_insertion_point(keys, s, x, 0);
        s.insert_ensures(p, x);
        let t = sorted_prefix(keys, n);
        assert(t == s.insert(p, x));
        assert forall|i: int| 0 <= i < n implies 0 <= #[trigger] t[i] < n by {
            if i > p {
                assert(t[i] == s[i - 1]);
            }
        }
        assert forall|y: int| 0 <= y < n implies #[trigger] t.contains(y) by {
            if y == x {
                assert(t[p] == x);
            } else {
                assert(s.contains(y));
                let k = choose|k: int| 0 <= k < s.len() && s[k] == y;
                if k < p {
                    assert(t[k] == y);
                } else {
                    assert(t[k + 1] == y);
                }
            }
        }
        // Everything before the insertion point sorts before `x`; everything from it on after.
        assert forall|k: int| 0 <= k < p implies sorts_before(keys, #[trigger] s[k], x) by {
            lemma_sorts_before_order(keys, s[k], x, x);
            assert(!sorts_before(keys, x, s[k]));
            assert(s[k] != x);
        }
        assert forall|k: int| p <= k < s.len() implies sorts_before(keys, x, #[trigger] s[k]) by {
            if k > p {
                lemma_sorts_before_order(keys, x, s[p], s[k]);
            }
        }
        assert forall|i: int, j: int| 0 <= i < j < n implies sorts_before(keys, #[trigger] t[i], #[trigger] t[j]) by {
            if j < p {
                assert(t[i] == s[i] && t[j] == s[j]);
            } else if j == p {
                assert(t[i] == s[i]);
            } else if i < p {
                assert(t[i] == s[i] && t[j] == s[j - 1]);
            } else if i == p {
                assert(t[j] == s[j - 1]);
            } else {
                assert(t[i] == s[i - 1] && t[j] == s[j - 1]);
            }
        }
    }
}

/// Every list of keys has a stable sorted order, and `stable_order` is it.
pub proof fn lemma_stable_order_is_order(keys: Seq<KeyView>)
    ensures
        is_stable_order(keys, stable_order(keys)),
{
    lemma_sorted_prefix(keys, keys.len());
    assert(is_stable_order(keys, sorted_prefix(keys, keys.len())));
}

/// When some key has rank 0 and none has a lower rank, the stable order starts with a key
/// of rank 0.
pub proof fn lemma_rank_zero_first(keys: Seq<KeyView>, x: int)
    requires
        0 <= x < keys.len(),
        keys[x].rank == 0,
        forall|y: int| 0 <= y < keys.len() ==> (#[trigger] keys[y]).rank >= 0,
    ensures
        stable_order(keys).len() == keys.len(),
        0 <= stable_order(keys)[0] < keys.len(),
        keys[stable_order(keys)[0]].rank == 0,
{
    lemma_stable_order_is_order(keys);
    let o = stable_order(keys);
    assert(o.contains(x));
    let t = choose|t: int| 0 <= t < o.len() && o[t] == x;
    if t > 0 {
        assert(sorts_before(keys, o[0], o[t]));
    }
    assert(keys[o[0]].rank >= 0);
}

pub open spec fn key_views(keys: Seq<SortKey>) -> Seq<KeyView> {
    keys.map_values(|k: SortKey| k@)
}

pub open spec fn index_views(order: Seq<usize>) -> Seq<int> {
    order.map_values(|i: usize| i as int)
}

fn text_before(a: &Vec<char>, b: &Vec<char>) -> (r: bool)
    ensures
        r == text_less(a@, b@),
{
    let mut i: usize = 0;
    while i < a.len() && i < b.len() && a[i] == b[i]
        invariant
            i <= a@.len(),
            i <= b@.len(),
            text_less(a@, b@) == text_less_from(a@, b@, i as int),
        decreases a.len() - i,
    {
        i += 1;
    }
    if i == a.len() {
        i < b.len()
    } else if i == b.len() {
        false
    } else {
        a[i] < b[i]
    }
}

fn key_before(a: &SortKey, b: &SortKey) -> (r: bool)
    ensures
        r == key_less(a@, b@),
{
    if a.rank != b.rank {
        return a.rank < b.rank;
    }
    if a.first != b.first {
        return a.first < b.first;
    }
    if a.second != b.second {
        return a.second < b.second;
    }
    text_before(&a.text, &b.text)
}

/// The stable sorted order of `keys`, as indices.
pub fn stable_sort(keys: &Vec<SortKey>) -> (order: Vec<usize>)
    ensures
        index_views(order@) == stable_order(key_views(keys@)),
        is_stable_order(key_views(keys@), index_views(order@)),
{
    let ghost ks = key_views(keys@);
    let mut order: Vec<usize> = Vec::new();
    let mut x: usize = 0;
    while x < keys.len()
        invariant
            x <= keys@.len(),
            ks == key_views(keys@),
            order@.len() == x,
            forall|i: int| 0 <= i < x ==> 0 <= #[trigger] order@[i] < x,
            forall|y: int| 0 <= y < x ==> #[trigger] index_views(order@).contains(y),
            forall|i: int, j: int| 0 <= i < j < x ==> sorts_before(ks, #[trigger] order@[i] as int, #[trigger] order@[j] as int),
        decreases keys.len() - x,
    {
        let mut pos: usize = order.len();
        while pos > 0 && key_before(&keys[x], &keys[order[pos - 1]])
            invariant
                pos <= order@.len(),
                order@.len() == x,
                x < keys@.len(),
                ks == key_views(keys@),
                forall|i: int| 0 <= i < x ==> 0 <= #[trigger] order@[i] < x,
                forall|j: int| pos <= j < x ==> key_less(ks[x as int], ks[#[trigger] order@[j] as int]),
            decreases pos,
        {
            pos -= 1;
        }
        let ghost old_order = order@;
        order.insert(pos, x);
        proof {
            assert forall|i: int, j: int| 0 <= i < j < x + 1 implies sorts_before(ks, #[trigger] order@[i] as int, #[trigger] order@[j] as int) by {
                if i < pos && j < pos {
                    assert(order@[i] == old_order[i] && order@[j] == old_order[j]);
                } else if i > pos && j > pos {
                    assert(order@[i] == old_order[i - 1] && order@[j] == old_order[j - 1]);
                } else if i < pos && j > pos {
                    assert(order@[i] == old_order[i] && order@[j] == old_order[j - 1]);
                } else if i == pos {
                    assert(order@[j] == old_order[j - 1]);
                    assert(key_less(ks[x as int], ks[old_order[j - 1] as int]));
                } else {
                    // j == pos, i < pos
                    let last = old_order[pos - 1] as int;
                    assert(!key_less(ks[x as int], ks[last]));
                    lemma_key_less_order(ks[x as int], ks[last], ks[last]);
                    lemma_key_less_order(ks[last], ks[x as int], ks[last]);
                    assert(sorts_before(ks, last, x as int));
                    if i < pos - 1 {
                        assert(sorts_before(ks, old_order[i] as int, last));
                        lemma_sorts_before_order(ks, old_order[i] as int, last, x as int);
                    }
                    assert(order@[i] == old_order[i]);
                }
            }
            assert forall|y: int| 0 <= y < x + 1 implies #[trigger] index_views(order@).contains(y) by {
                if y == x {
                    assert(index_views(order@)[pos as int] == y);
                } else {
                    assert(index_views(old_order).contains(y));
                    let k = choose|k: int| 0 <= k < old_order.len() && index_views(old_order)[k] == y;
                    if k < pos {
                        assert(index_views(order@)[k] == y);
                    } else {
                        assert(index_views(order@)[k + 1] == y);
                    }
                }
            }
        }
        x += 1;
    }
    proof {
        let o = index_views(order@);
        assert(is_stable_order(ks, o)) by {
            assert forall|i: int, j: int| 0 <= i < j < o.len() implies sorts_before(ks, #[trigger] o[i], #[trigger] o[j]) by {
                assert(sorts_before(ks, order@[i] as int, order@[j] as int));
            }
        }
        lemma_stable_order_unique(ks, o, stable_order(ks));
    }
    order
}

} // verus!

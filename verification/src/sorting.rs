use vstd::prelude::*;

verus! {

broadcast use vstd::std_specs::vec::group_vec_axioms;

/// Lexicographic order on integer sequences; a proper prefix comes first.
pub open spec fn lex_lt(a: Seq<int>, b: Seq<int>) -> bool
    decreases a.len(),
{
    if a.len() == 0 || b.len() == 0 {
        a.len() == 0 && b.len() > 0
    } else if a[0] < b[0] {
        true
    } else if a[0] > b[0] {
        false
    } else {
        lex_lt(a.drop_first(), b.drop_first())
    }
}

pub proof fn lemma_lex_irreflexive(a: Seq<int>)
    ensures
        !lex_lt(a, a),
    decreases a.len(),
{
    if a.len() > 0 {
        lemma_lex_irreflexive(a.drop_first());
    }
}

pub proof fn lemma_lex_trichotomy(a: Seq<int>, b: Seq<int>)
    ensures
        lex_lt(a, b) || a == b || lex_lt(b, a),
        !(lex_lt(a, b) && lex_lt(b, a)),
        lex_lt(a, b) ==> a != b,
    decreases a.len(),
{
    if a.len() == 0 || b.len() == 0 {
        if a.len() == 0 && b.len() == 0 {
            assert(a =~= b);
        }
    } else if a[0] == b[0] {
        lemma_lex_trichotomy(a.drop_first(), b.drop_first());
        if a.drop_first() == b.drop_first() {
            assert(a =~= seq![a[0]] + a.drop_first());
            assert(b =~= seq![b[0]] + b.drop_first());
        }
    }
    if lex_lt(a, b) && a == b {
        lemma_lex_irreflexive(a);
    }
}

pub proof fn lemma_lex_transitive(a: Seq<int>, b: Seq<int>, c: Seq<int>)
    requires
        lex_lt(a, b),
        lex_lt(b, c),
    ensures
        lex_lt(a, c),
    decreases a.len(),
{
    if a.len() > 0 && b.len() > 0 && c.len() > 0 && a[0] == b[0] && b[0] == c[0] {
        lemma_lex_transitive(a.drop_first(), b.drop_first(), c.drop_first());
    }
}

/// The order in which a stable sort by `keys` places the positions `x` and `y`
/// of its input: by key, and by position where the keys are equal.
pub open spec fn placed_before(keys: Seq<Seq<int>>, x: int, y: int) -> bool {
    lex_lt(keys[x], keys[y]) || (keys[x] == keys[y] && x < y)
}

pub proof fn lemma_placed_before_order(keys: Seq<Seq<int>>, x: int, y: int, z: int)
    ensures
        !placed_before(keys, x, x),
        !(placed_before(keys, x, y) && placed_before(keys, y, x)),
        x != y ==> placed_before(keys, x, y) || placed_before(keys, y, x),
        placed_before(keys, x, y) && placed_before(keys, y, z) ==> placed_before(keys, x, z),
{
    lemma_lex_irreflexive(keys[x]);
    lemma_lex_trichotomy(keys[x], keys[y]);
    lemma_lex_trichotomy(keys[y], keys[z]);
    lemma_lex_trichotomy(keys[x], keys[z]);
    if lex_lt(keys[x], keys[y]) && lex_lt(keys[y], keys[z]) {
        lemma_lex_transitive(keys[x], keys[y], keys[z]);
    }
}

/// `x` occurs in `perm`.
pub open spec fn occurs_in(perm: Seq<int>, x: int) -> bool {
    exists|i: int| 0 <= i < perm.len() && perm[i] == x
}

/// `perm` lists the positions `0..keys.len()`, each once, in the order of a
/// stable sort by `keys`.
pub open spec fn is_stable_order(keys: Seq<Seq<int>>, perm: Seq<int>) -> bool {
    &&& perm.len() == keys.len()
    &&& forall|i: int| 0 <= i < perm.len() ==> 0 <= #[trigger] perm[i] < keys.len()
    &&& forall|i: int, j: int| 0 <= i < perm.len() && 0 <= j < perm.len() && i != j ==> perm[i] != perm[j]
    &&& forall|x: int| 0 <= x < keys.len() ==> #[trigger] occurs_in(perm, x)
    &&& forall|i: int, j: int|
        0 <= i < j < perm.len() ==> placed_before(keys, #[trigger] perm[i], #[trigger] perm[j])
}

/// `out` is `input` sorted by `keys` (one key per item, compared
/// lexicographically), items with equal keys keeping their input order.
pub open spec fn is_stable_sort_of<A>(input: Seq<A>, keys: Seq<Seq<int>>, out: Seq<A>) -> bool {
    &&& keys.len() == input.len()
    &&& exists|perm: Seq<int>|
        is_stable_order(keys, perm) && out == Seq::new(input.len(), |i: int| input[perm[i]])
}

/// The stable sort of `input` by `keys`.
pub open spec fn stable_sorted<A>(input: Seq<A>, keys: Seq<Seq<int>>) -> Seq<A> {
    let perm = choose|perm: Seq<int>| is_stable_order(keys, perm);
    Seq::new(input.len(), |i: int| input[perm[i]])
}

/// Two stable orders of the same keys agree on their first `k` positions.
proof fn lemma_stable_orders_agree_upto(keys: Seq<Seq<int>>, p: Seq<int>, q: Seq<int>, k: int)
    requires
        is_stable_order(keys, p),
        is_stable_order(keys, q),
        0 <= k <= p.len(),
    ensures
        forall|i: int| 0 <= i < k ==> p[i] == q[i],
    decreases k,
{
    if k > 0 {
        lemma_stable_orders_agree_upto(keys, p, q, k - 1);
        let m = k - 1;
        let a = p[m];
        let b = q[m];
        if a != b {
            lemma_placed_before_order(keys, a, b, a);
            assert(occurs_in(q, a));
            assert(occurs_in(p, b));
            let j = choose|j: int| 0 <= j < q.len() && q[j] == a;
            let j2 = choose|j: int| 0 <= j < p.len() && p[j] == b;
            if j < m {
                assert(p[j] == q[j]);
            } else {
                assert(placed_before(keys, q[m], q[j]));
                if j2 < m {
                    assert(q[j2] == p[j2]);
                } else {
                    assert(placed_before(keys, p[m], p[j2]));
                }
            }
        }
    }
}

/// There is exactly one stable order for a list of keys.
pub proof fn lemma_stable_order_unique(keys: Seq<Seq<int>>, p: Seq<int>, q: Seq<int>)
    requires
        is_stable_order(keys, p),
        is_stable_order(keys, q),
    ensures
        p == q,
{
    lemma_stable_orders_agree_upto(keys, p, q, p.len() as int);
    assert(p =~= q);
}

/// Where a new last position `x` enters the stable order `q` of the positions before it.
proof fn insertion_point(keys: Seq<Seq<int>>, q: Seq<int>, x: int, m: int) -> (pos: int)
    requires
        0 <= m <= q.len(),
        forall|i: int, j: int|
            0 <= i < j < q.len() ==> placed_before(keys, #[trigger] q[i], #[trigger] q[j]),
        forall|i: int| 0 <= i < q.len() ==> 0 <= #[trigger] q[i] < keys.len(),
        0 <= x < keys.len(),
        forall|i: int| 0 <= i < q.len() ==> #[trigger] q[i] != x,
    ensures
        0 <= pos <= m,
        forall|i: int| 0 <= i < pos ==> placed_before(keys, #[trigger] q[i], x),
        forall|i: int| pos <= i < m ==> placed_before(keys, x, #[trigger] q[i]),
    decreases m,
{
    if m == 0 {
        0
    } else if placed_before(keys, q[m - 1], x) {
        assert forall|i: int| 0 <= i < m implies placed_before(keys, #[trigger] q[i], x) by {
            if i < m - 1 {
                assert(placed_before(keys, q[i], q[m - 1]));
                lemma_placed_before_order(keys, q[i], q[m - 1], x);
            }
        }
        m
    } else {
        lemma_placed_before_order(keys, q[m - 1], x, x);
        insertion_point(keys, q, x, m - 1)
    }
}

/// Inserting the next position into a stable order of the positions before it.
proof fn lemma_insert_position(keys: Seq<Seq<int>>, q: Seq<int>, t: int, pos: int)
    requires
        0 <= t < keys.len(),
        q.len() == t,
        0 <= pos <= t,
        forall|i: int| 0 <= i < q.len() ==> 0 <= #[trigger] q[i] < t,
        forall|i: int, j: int| 0 <= i < q.len() && 0 <= j < q.len() && i != j ==> q[i] != q[j],
        forall|x: int| 0 <= x < t ==> #[trigger] occurs_in(q, x),
        forall|i: int, j: int|
            0 <= i < j < q.len() ==> placed_before(keys, #[trigger] q[i], #[trigger] q[j]),
        forall|i: int| 0 <= i < pos ==> placed_before(keys, #[trigger] q[i], t),
        forall|i: int| pos <= i < t ==> placed_before(keys, t, #[trigger] q[i]),
    ensures
        ({
            let p = q.insert(pos, t);
            &&& forall|i: int| 0 <= i < p.len() ==> 0 <= #[trigger] p[i] < t + 1
            &&& forall|i: int, j: int|
                0 <= i < p.len() && 0 <= j < p.len() && i != j ==> p[i] != p[j]
            &&& forall|x: int| 0 <= x < t + 1 ==> #[trigger] occurs_in(p, x)
            &&& forall|i: int, j: int|
                0 <= i < j < p.len() ==> placed_before(keys, #[trigger] p[i], #[trigger] p[j])
        }),
{
    let p = q.insert(pos, t);
    assert forall|x: int| 0 <= x < t + 1 implies #[trigger] occurs_in(p, x) by {
        if x == t {
            assert(p[pos] == t);
        } else {
            assert(occurs_in(q, x));
            let i = choose|i: int| 0 <= i < q.len() && q[i] == x;
            if i < pos {
                assert(p[i] == x);
            } else {
                assert(p[i + 1] == x);
            }
        }
    }
    assert forall|i: int, j: int| 0 <= i < j < p.len() implies placed_before(keys, #[trigger] p[i], #[trigger] p[j]) by {
        if j < pos {
            assert(p[i] == q[i] && p[j] == q[j]);
        } else if j == pos {
            assert(p[i] == q[i]);
        } else if i < pos {
            assert(p[i] == q[i] && p[j] == q[j - 1]);
            lemma_placed_before_order(keys, q[i], t, q[j - 1]);
        } else if i == pos {
            assert(p[j] == q[j - 1]);
        } else {
            assert(p[i] == q[i - 1] && p[j] == q[j - 1]);
        }
    }
}

/// Every list of keys has a stable order.
pub proof fn lemma_stable_order_exists(keys: Seq<Seq<int>>) -> (perm: Seq<int>)
    ensures
        is_stable_order(keys, perm),
    decreases keys.len(),
{
    if keys.len() == 0 {
        let p: Seq<int> = Seq::empty();
        p
    } else {
        let t = keys.len() - 1;
        let prefix = keys.drop_last();
        let q = lemma_stable_order_exists(prefix);
        assert forall|i: int, j: int| 0 <= i < j < q.len() implies placed_before(keys, #[trigger] q[i], #[trigger] q[j]) by {
            assert(placed_before(prefix, q[i], q[j]));
        }
        let pos = insertion_point(keys, q, t, q.len() as int);
        lemma_insert_position(keys, q, t, pos);
        q.insert(pos, t)
    }
}

/// The stable sort is determined by its input and keys: any output that meets
/// the definition is the one that `stable_sorted` names.
pub proof fn lemma_stable_sorted_is_the_sort<A>(input: Seq<A>, keys: Seq<Seq<int>>, out: Seq<A>)
    requires
        is_stable_sort_of(input, keys, out),
    ensures
        out == stable_sorted(input, keys),
{
    let perm = choose|perm: Seq<int>|
        is_stable_order(keys, perm) && out == Seq::new(input.len(), |i: int| input[perm[i]]);
    let chosen = choose|perm: Seq<int>| is_stable_order(keys, perm);
    lemma_stable_order_unique(keys, perm, chosen);
}

/// `stable_sorted` meets the definition of a stable sort.
pub proof fn lemma_stable_sorted_sorts<A>(input: Seq<A>, keys: Seq<Seq<int>>)
    requires
        keys.len() == input.len(),
    ensures
        is_stable_sort_of(input, keys, stable_sorted(input, keys)),
{
    let p = lemma_stable_order_exists(keys);
    let chosen = choose|perm: Seq<int>| is_stable_order(keys, perm);
    assert(is_stable_order(keys, chosen));
}

/// Keys that never decrease from one position to the next.
pub open spec fn keys_nondecreasing(keys: Seq<Seq<int>>) -> bool {
    forall|i: int, j: int| 0 <= i < j < keys.len() ==> !lex_lt(#[trigger] keys[j], #[trigger] keys[i])
}

/// Sorting what is already in order changes nothing.
pub proof fn lemma_stable_sorted_of_sorted<A>(input: Seq<A>, keys: Seq<Seq<int>>)
    requires
        keys.len() == input.len(),
        keys_nondecreasing(keys),
    ensures
        stable_sorted(input, keys) == input,
{
    let id = Seq::new(keys.len(), |i: int| i);
    assert forall|x: int| 0 <= x < keys.len() implies #[trigger] occurs_in(id, x) by {
        assert(id[x] == x);
    }
    assert forall|i: int, j: int| 0 <= i < j < id.len() implies placed_before(keys, #[trigger] id[i], #[trigger] id[j]) by {
        lemma_lex_trichotomy(keys[i], keys[j]);
    }
    assert(is_stable_order(keys, id));
    assert(input =~= Seq::new(input.len(), |i: int| input[id[i]]));
    lemma_stable_sorted_is_the_sort(input, keys, input);
}

/// Each item of the sorted sequence is the input item at the position that
/// the stable order lists there.
pub proof fn lemma_stable_sorted_items<A>(input: Seq<A>, keys: Seq<Seq<int>>) -> (perm: Seq<int>)
    requires
        keys.len() == input.len(),
    ensures
        is_stable_order(keys, perm),
        stable_sorted(input, keys) == Seq::new(input.len(), |i: int| input[perm[i]]),
{
    lemma_stable_sorted_sorts(input, keys);
    choose|perm: Seq<int>| is_stable_order(keys, perm)
}

/// Sorting by a key function twice is sorting once.
pub proof fn lemma_sort_by_fn_idempotent<A>(input: Seq<A>, kf: spec_fn(A) -> Seq<int>)
    ensures
        ({
            let once = stable_sorted(input, input.map_values(kf));
            stable_sorted(once, once.map_values(kf)) == once
        }),
{
    let keys = input.map_values(kf);
    let perm = lemma_stable_sorted_items(input, keys);
    let once = stable_sorted(input, keys);
    let k2 = once.map_values(kf);
    assert forall|i: int, j: int| 0 <= i < j < k2.len() implies !lex_lt(#[trigger] k2[j], #[trigger] k2[i]) by {
        assert(k2[i] == keys[perm[i]]);
        assert(k2[j] == keys[perm[j]]);
        assert(placed_before(keys, perm[i], perm[j]));
        lemma_lex_trichotomy(keys[perm[i]], keys[perm[j]]);
    }
    lemma_stable_sorted_of_sorted(once, k2);
}

/// `b` holds the items of `a`, rearranged: `b[i] == a[q[i]]` for a
/// one-to-one `q` onto the positions of `a`.
pub open spec fn is_rearrangement<A>(a: Seq<A>, b: Seq<A>, q: Seq<int>) -> bool {
    &&& a.len() == b.len()
    &&& q.len() == a.len()
    &&& forall|i: int| 0 <= i < q.len() ==> 0 <= #[trigger] q[i] < a.len()
    &&& forall|i: int, j: int| 0 <= i < q.len() && 0 <= j < q.len() && i != j ==> q[i] != q[j]
    &&& forall|x: int| 0 <= x < a.len() ==> #[trigger] occurs_in(q, x)
    &&& forall|i: int| 0 <= i < b.len() ==> b[i] == a[#[trigger] q[i]]
}

/// Sorting only rearranges: the sorted sequence holds exactly the input items.
pub proof fn lemma_stable_sorted_rearranges<A>(input: Seq<A>, keys: Seq<Seq<int>>) -> (perm: Seq<int>)
    requires
        keys.len() == input.len(),
    ensures
        is_rearrangement(input, stable_sorted(input, keys), perm),
{
    lemma_stable_sorted_items(input, keys)
}

/// When no two items share a key, any rearrangement of the input sorts to
/// the same sequence.
pub proof fn lemma_sort_ignores_input_order<A>(
    a: Seq<A>,
    b: Seq<A>,
    q: Seq<int>,
    kf: spec_fn(A) -> Seq<int>,
)
    requires
        is_rearrangement(a, b, q),
        forall|i: int, j: int| 0 <= i < a.len() && 0 <= j < a.len() && i != j ==> kf(#[trigger] a[i]) != kf(#[trigger] a[j]),
    ensures
        stable_sorted(a, a.map_values(kf)) == stable_sorted(b, b.map_values(kf)),
{
    let ka = a.map_values(kf);
    let kb = b.map_values(kf);
    let pa = lemma_stable_sorted_items(a, ka);
    let pb = lemma_stable_sorted_items(b, kb);
    let r = Seq::new(pb.len(), |i: int| q[pb[i]]);
    assert forall|i: int| 0 <= i < r.len() implies 0 <= #[trigger] r[i] < a.len() by {
        assert(0 <= pb[i] < b.len());
    }
    assert forall|i: int, j: int| 0 <= i < r.len() && 0 <= j < r.len() && i != j implies r[i] != r[j] by {
        assert(pb[i] != pb[j]);
    }
    assert forall|x: int| 0 <= x < a.len() implies #[trigger] occurs_in(r, x) by {
        assert(occurs_in(q, x));
        let y = choose|y: int| 0 <= y < q.len() && q[y] == x;
        assert(occurs_in(pb, y));
        let i = choose|i: int| 0 <= i < pb.len() && pb[i] == y;
        assert(r[i] == x);
    }
    assert forall|i: int, j: int| 0 <= i < j < r.len() implies placed_before(ka, #[trigger] r[i], #[trigger] r[j]) by {
        assert(placed_before(kb, pb[i], pb[j]));
        assert(kb[pb[i]] == ka[r[i]]);
        assert(kb[pb[j]] == ka[r[j]]);
        assert(r[i] != r[j]);
        lemma_lex_trichotomy(ka[r[i]], ka[r[j]]);
    }
    assert(is_stable_order(ka, r));
    lemma_stable_order_unique(ka, pa, r);
    assert(stable_sorted(a, ka) =~= stable_sorted(b, kb));
}

/// The keys of a sequence as mathematical integers.
pub open spec fn key_model(k: Seq<i128>) -> Seq<int> {
    k.map_values(|x: i128| x as int)
}

/// `a` comes strictly before `b` in lexicographic order.
pub fn lex_less(a: &Vec<i128>, b: &Vec<i128>) -> (r: bool)
    ensures
        r == lex_lt(key_model(a@), key_model(b@)),
{
    let mut i: usize = 0;
    assert(a@.subrange(0, a.len() as int) =~= a@);
    assert(b@.subrange(0, b.len() as int) =~= b@);
    while i < a.len() && i < b.len()
        invariant
            i <= a.len(),
            i <= b.len(),
            lex_lt(key_model(a@), key_model(b@)) == lex_lt(
                key_model(a@.subrange(i as int, a.len() as int)),
                key_model(b@.subrange(i as int, b.len() as int)),
            ),
        decreases a.len() - i,
    {
        let ghost sa = key_model(a@.subrange(i as int, a.len() as int));
        let ghost sb = key_model(b@.subrange(i as int, b.len() as int));
        assert(sa.drop_first() =~= key_model(a@.subrange(i + 1, a.len() as int)));
        assert(sb.drop_first() =~= key_model(b@.subrange(i + 1, b.len() as int)));
        if a[i] < b[i] {
            return true;
        }
        if a[i] > b[i] {
            return false;
        }
        i += 1;
    }
    i == a.len() && i < b.len()
}

/// The keys of a list of items as mathematical integer sequences.
pub open spec fn keys_model(keys: Seq<Vec<i128>>) -> Seq<Seq<int>> {
    keys.map_values(|k: Vec<i128>| key_model(k@))
}

/// Sorts `items` by `keys` (one key per item, compared lexicographically),
/// keeping the input order of items whose keys are equal.
pub fn stable_sort_by_keys<T>(items: Vec<T>, keys: Vec<Vec<i128>>) -> (out: Vec<T>)
    requires
        items.len() == keys.len(),
    ensures
        is_stable_sort_of(items@, keys_model(keys@), out@),
{
    let ghost input = items@;
    let ghost km = keys_model(keys@);
    let n = items.len();
    let mut items = items;
    let mut keys = keys;
    let mut out: Vec<T> = Vec::new();
    let mut out_keys: Vec<Vec<i128>> = Vec::new();
    let ghost mut perm: Seq<int> = Seq::empty();
    let mut t: usize = 0;
    while t < n
        invariant
            n == input.len(),
            km.len() == n,
            t <= n,
            items@ == input.skip(t as int),
            keys_model(keys@) == km.skip(t as int),
            keys@.len() == n - t,
            out@.len() == t,
            out_keys@.len() == t,
            perm.len() == t,
            forall|i: int| 0 <= i < t ==> 0 <= #[trigger] perm[i] < t,
            forall|i: int, j: int| 0 <= i < t && 0 <= j < t && i != j ==> perm[i] != perm[j],
            forall|x: int| 0 <= x < t ==> #[trigger] occurs_in(perm, x),
            forall|i: int, j: int|
                0 <= i < j < t ==> placed_before(km, #[trigger] perm[i], #[trigger] perm[j]),
            forall|i: int| 0 <= i < t ==> out@[i] == input[#[trigger] perm[i]],
            forall|i: int| 0 <= i < t ==> key_model(out_keys@[i]@) == km[#[trigger] perm[i]],
        decreases n - t,
    {
        let ghost keys_before = keys@;
        let ghost items_before = items@;
        let item = items.remove(0);
        let key = keys.remove(0);
        assert(key_model(key@) == km[t as int]) by {
            assert(keys_model(keys_before)[0] == km.skip(t as int)[0]);
        }
        assert(item == input[t as int]) by {
            assert(items_before[0] == input.skip(t as int)[0]);
        }
        let ghost tt = t as int;
        let mut pos: usize = 0;
        while pos < out_keys.len() && !lex_less(&key, &out_keys[pos])
            invariant
                pos <= out_keys@.len() == tt,
                perm.len() == tt,
                key_model(key@) == km[tt],
                forall|i: int| 0 <= i < tt ==> key_model(out_keys@[i]@) == km[#[trigger] perm[i]],
                forall|i: int| 0 <= i < tt ==> 0 <= #[trigger] perm[i] < tt,
                forall|i: int| 0 <= i < pos ==> placed_before(km, #[trigger] perm[i], tt),
            decreases out_keys@.len() - pos,
        {
            proof {
                lemma_lex_trichotomy(km[perm[pos as int]], km[tt]);
            }
            pos += 1;
        }
        proof {
            assert forall|i: int| pos <= i < tt implies placed_before(km, tt, #[trigger] perm[i]) by {
                if pos < tt {
                    assert(lex_lt(km[tt], km[perm[pos as int]]));
                    if i > pos {
                        assert(placed_before(km, perm[pos as int], perm[i]));
                        lemma_lex_trichotomy(km[perm[pos as int]], km[perm[i]]);
                        if lex_lt(km[perm[pos as int]], km[perm[i]]) {
                            lemma_lex_transitive(km[tt], km[perm[pos as int]], km[perm[i]]);
                        }
                    }
                }
            }
            lemma_insert_position(km, perm, tt, pos as int);
        }
        out.insert(pos, item);
        out_keys.insert(pos, key);
        proof {
            let old_perm = perm;
            perm = perm.insert(pos as int, tt);
            assert forall|i: int| 0 <= i < tt + 1 implies out@[i] == input[#[trigger] perm[i]] by {
                if i > pos {
                    assert(perm[i] == old_perm[i - 1]);
                }
            }
            assert forall|i: int| 0 <= i < tt + 1 implies key_model(out_keys@[i]@) == km[#[trigger] perm[i]] by {
                if i > pos {
                    assert(perm[i] == old_perm[i - 1]);
                }
            }
            assert(items@ =~= input.skip(tt + 1));
            assert(keys_model(keys@) =~= km.skip(tt + 1)) by {
                assert(keys@ =~= keys_before.drop_first());
                assert forall|i: int| 0 <= i < keys@.len() implies keys_model(keys@)[i] == km.skip(tt + 1)[i] by {
                    assert(keys_model(keys_before)[i + 1] == km.skip(tt)[i + 1]);
                }
            }
        }
        t += 1;
    }
    proof {
        assert(out@ =~= Seq::new(input.len(), |i: int| input[perm[i]]));
        assert(is_stable_order(km, perm));
    }
    out
}

} // verus!

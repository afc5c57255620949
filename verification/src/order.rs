//! Stable ordering by an integer key, as `sort_by` with a key comparison does.
use vstd::prelude::*;

verus! {

/// `a` may come before `b`: not greater in ascending order, not smaller in
/// descending order.
pub open spec fn before(a: u128, b: u128, desc: bool) -> bool {
    if desc {
        a >= b
    } else {
        a <= b
    }
}

/// `ord` lists every index of `keys` once, in key order, and keeps indices
/// with equal keys in their original order: it is the order that a stable
/// sort by key leaves the elements in.
pub open spec fn is_stable_order(keys: Seq<u128>, ord: Seq<usize>, desc: bool) -> bool {
    &&& ord.len() == keys.len()
    &&& forall|i: int| 0 <= i < ord.len() ==> (#[trigger] ord[i]) < keys.len()
    &&& ord.no_duplicates()
    &&& forall|i: int, j: int|
        0 <= i < j < ord.len() ==> before(keys[#[trigger] ord[i] as int], keys[#[trigger] ord[j] as int], desc)
    &&& forall|i: int, j: int|
        0 <= i < j < ord.len() && keys[#[trigger] ord[i] as int] == keys[#[trigger] ord[j] as int]
            ==> ord[i] < ord[j]
}

/// Only one order is a stable order: the result of `stable_order` is
/// determined by the keys.
pub proof fn lemma_stable_order_unique(keys: Seq<u128>, a: Seq<usize>, b: Seq<usize>, desc: bool)
    requires
        keys.len() <= usize::MAX,
        is_stable_order(keys, a, desc),
        is_stable_order(keys, b, desc),
    ensures
        a == b,
    decreases keys.len(),
{
    // Every index appears in both; compare positions.
    assert forall|i: int| 0 <= i < a.len() implies a[i] == b[i] by {
        lemma_position_determined(keys, a, b, desc, i);
    }
    assert(a =~= b);
}

/// The number of indices that must precede `x` in any stable order.
pub open spec fn rank(keys: Seq<u128>, x: usize, desc: bool) -> int {
    predecessors(keys, x, desc).len() as int
}

/// The indices that must come before `x` in a stable order.
pub open spec fn predecessors(keys: Seq<u128>, x: usize, desc: bool) -> Set<usize> {
    Set::new(
        |y: usize|
            y < keys.len() && y != x && (!before(keys[x as int], keys[y as int], desc) || (keys[y as int]
                == keys[x as int] && y < x)),
    )
}

proof fn lemma_position_determined(keys: Seq<u128>, a: Seq<usize>, b: Seq<usize>, desc: bool, i: int)
    requires
        keys.len() <= usize::MAX,
        is_stable_order(keys, a, desc),
        is_stable_order(keys, b, desc),
        0 <= i < a.len(),
    ensures
        a[i] == b[i],
{
    // In a stable order, the elements before position p are exactly those that
    // must precede the element at p; so position p holds the element whose
    // predecessors number p.
    lemma_prefix_is_predecessors(keys, a, desc, i);
    let x = a[i];
    // find x in b
    assert(b.to_set().len() == keys.len()) by {
        b.unique_seq_to_set();
    }
    assert(b.contains(x)) by {
        lemma_all_indices_present(keys, b, desc, x);
    }
    let j = choose|j: int| 0 <= j < b.len() && b[j] == x;
    lemma_prefix_is_predecessors(keys, b, desc, j);
    // both i and j equal rank(keys, x)
    assert(i == j);
}

/// Every index of `keys` occurs in a stable order.
pub proof fn lemma_all_indices_present(keys: Seq<u128>, ord: Seq<usize>, desc: bool, x: usize)
    requires
        keys.len() <= usize::MAX,
        is_stable_order(keys, ord, desc),
        x < keys.len(),
    ensures
        ord.contains(x),
{
    let full = Set::new(|y: usize| y < keys.len());
    assert(ord.to_set().subset_of(full));
    ord.unique_seq_to_set();
    lemma_index_set_len(keys.len());
    vstd::set_lib::lemma_subset_equality(ord.to_set(), full);
    assert(full.contains(x));
}

proof fn lemma_index_set_len(n: nat)
    requires
        n <= usize::MAX,
    ensures
        Set::new(|y: usize| y < n).finite(),
        Set::new(|y: usize| y < n).len() == n,
    decreases n,
{
    let s = Set::new(|y: usize| y < n);
    if n == 0 {
        assert(s =~= Set::<usize>::empty());
    } else {
        lemma_index_set_len((n - 1) as nat);
        let t = Set::new(|y: usize| y < (n - 1) as nat);
        assert(s =~= t.insert((n - 1) as usize));
    }
}

/// In a stable order, the elements at positions before `p` are exactly the
/// indices that must precede `ord[p]`.
proof fn lemma_prefix_is_predecessors(keys: Seq<u128>, ord: Seq<usize>, desc: bool, p: int)
    requires
        keys.len() <= usize::MAX,
        is_stable_order(keys, ord, desc),
        0 <= p < ord.len(),
    ensures
        ord.take(p).to_set() == predecessors(keys, ord[p], desc),
        p == rank(keys, ord[p], desc),
{
    let x = ord[p];
    let pred = predecessors(keys, x, desc);
    assert forall|y: usize| ord.take(p).to_set().contains(y) implies pred.contains(y) by {
        let q = choose|q: int| 0 <= q < p && ord.take(p)[q] == y;
        assert(ord[q] == y);
        assert(before(keys[ord[q] as int], keys[ord[p] as int], desc));
        if keys[y as int] == keys[x as int] {
            assert(ord[q] < ord[p]);
        }
    }
    assert forall|y: usize| pred.contains(y) implies ord.take(p).to_set().contains(y) by {
        lemma_all_indices_present(keys, ord, desc, y);
        let q = choose|q: int| 0 <= q < ord.len() && ord[q] == y;
        if q > p {
            assert(before(keys[ord[p] as int], keys[ord[q] as int], desc));
            if keys[y as int] == keys[x as int] {
                assert(ord[p] < ord[q]);
            }
        }
        assert(q != p);
        assert(q < p);
        assert(ord.take(p)[q] == y);
    }
    assert(ord.take(p).to_set() =~= pred);
    assert(ord.take(p).no_duplicates()) by {
        assert forall|i: int, j: int| 0 <= i < j < ord.take(p).len() implies ord.take(p)[i]
            != ord.take(p)[j] by {
            assert(ord.take(p)[i] == ord[i] && ord.take(p)[j] == ord[j]);
        }
    }
    ord.take(p).unique_seq_to_set();
}

/// The indices of `keys` in the order that a stable sort by key (ascending,
/// or descending when `desc`) puts them.
pub fn stable_order(keys: &Vec<u128>, desc: bool) -> (ord: Vec<usize>)
    ensures
        is_stable_order(keys@, ord@, desc),
{
    let mut ord: Vec<usize> = Vec::new();
    let mut m: usize = 0;
    while m < keys.len()
        invariant
            m <= keys.len(),
            ord.len() == m,
            forall|i: int| 0 <= i < ord.len() ==> (#[trigger] ord@[i]) < m,
            ord@.no_duplicates(),
            forall|i: int, j: int|
                0 <= i < j < ord.len() ==> before(
                    keys@[#[trigger] ord@[i] as int],
                    keys@[#[trigger] ord@[j] as int],
                    desc,
                ),
            forall|i: int, j: int|
                0 <= i < j < ord.len() && keys@[#[trigger] ord@[i] as int] == keys@[#[trigger] ord@[j] as int]
                    ==> ord@[i] < ord@[j],
        decreases keys.len() - m,
    {
        let km = keys[m];
        let mut p: usize = 0;
        while p < ord.len() && before_exec(keys[ord[p]], km, desc)
            invariant
                p <= ord.len(),
                ord.len() == m,
                m < keys.len(),
                km == keys@[m as int],
                forall|i: int| 0 <= i < ord.len() ==> (#[trigger] ord@[i]) < m,
                forall|q: int| 0 <= q < p ==> before(keys@[#[trigger] ord@[q] as int], km, desc),
            decreases ord.len() - p,
        {
            p = p + 1;
        }
        let ghost old_ord = ord@;
        ord.insert(p, m);
        proof {
            assert(ord@ == old_ord.insert(p as int, m));
            assert forall|i: int| 0 <= i < ord.len() implies (#[trigger] ord@[i]) < m + 1 by {
                if i < p {
                    assert(ord@[i] == old_ord[i]);
                } else if i > p {
                    assert(ord@[i] == old_ord[i - 1]);
                }
            }
            assert forall|i: int, j: int| 0 <= i < j < ord.len() implies ord@[i] != ord@[j] by {
                if i < p && j < p {
                    assert(ord@[i] == old_ord[i] && ord@[j] == old_ord[j]);
                } else if i < p && j == p {
                    assert(ord@[i] == old_ord[i]);
                } else if i < p && j > p {
                    assert(ord@[i] == old_ord[i] && ord@[j] == old_ord[j - 1]);
                } else if i == p {
                    assert(ord@[j] == old_ord[j - 1]);
                } else {
                    assert(ord@[i] == old_ord[i - 1] && ord@[j] == old_ord[j - 1]);
                }
            }
            // elements at and after p (in old_ord) are strictly after km
            assert forall|q: int| p <= q < old_ord.len() implies !before(
                keys@[#[trigger] old_ord[q] as int],
                km,
                desc,
            ) by {
                if q > p {
                    // old_ord[p] strictly after km, and old_ord[q] no earlier than old_ord[p]
                    assert(before(keys@[old_ord[p as int] as int], keys@[old_ord[q] as int], desc));
                }
            }
            assert forall|i: int, j: int| 0 <= i < j < ord.len() implies before(
                keys@[#[trigger] ord@[i] as int],
                keys@[#[trigger] ord@[j] as int],
                desc,
            ) by {
                if i < p && j < p {
                    assert(ord@[i] == old_ord[i] && ord@[j] == old_ord[j]);
                } else if i < p && j == p {
                    assert(ord@[i] == old_ord[i]);
                } else if i < p && j > p {
                    assert(ord@[i] == old_ord[i] && ord@[j] == old_ord[j - 1]);
                } else if i == p {
                    assert(ord@[j] == old_ord[j - 1]);
                    assert(!before(keys@[old_ord[j - 1] as int], km, desc));
                } else {
                    assert(ord@[i] == old_ord[i - 1] && ord@[j] == old_ord[j - 1]);
                }
            }
            assert forall|i: int, j: int|
                0 <= i < j < ord.len() && keys@[#[trigger] ord@[i] as int] == keys@[#[trigger] ord@[j] as int]
                implies ord@[i] < ord@[j] by {
                if i < p && j < p {
                    assert(ord@[i] == old_ord[i] && ord@[j] == old_ord[j]);
                } else if i < p && j == p {
                    assert(ord@[i] == old_ord[i]);
                } else if i < p && j > p {
                    assert(ord@[i] == old_ord[i] && ord@[j] == old_ord[j - 1]);
                } else if i == p {
                    assert(ord@[j] == old_ord[j - 1]);
                    assert(!before(keys@[old_ord[j - 1] as int], km, desc));
                } else {
                    assert(ord@[i] == old_ord[i - 1] && ord@[j] == old_ord[j - 1]);
                }
            }
        }
        m = m + 1;
    }
    ord
}

fn before_exec(a: u128, b: u128, desc: bool) -> (r: bool)
    ensures
        r == before(a, b, desc),
{
    if desc {
        a >= b
    } else {
        a <= b
    }
}

/// The sort key of an optional day number: absent sorts before any day.
pub open spec fn opt_day_key(d: Option<i32>) -> u128 {
    match d {
        Some(x) => (x + 2147483649) as u128,
        None => 0,
    }
}

pub fn opt_day_key_exec(d: Option<i32>) -> (k: u128)
    ensures
        k == opt_day_key(d),
{
    match d {
        Some(x) => (x as i64 + 2147483649i64) as u128,
        None => 0,
    }
}

/// Order between optional day numbers, as `Option<NaiveDate>` compares:
/// `None` first, then by day.
pub proof fn lemma_opt_day_key_order(a: Option<i32>, b: Option<i32>)
    ensures
        (opt_day_key(a) < opt_day_key(b)) == (match (a, b) {
            (None, Some(_)) => true,
            (Some(x), Some(y)) => x < y,
            _ => false,
        }),
        (opt_day_key(a) == opt_day_key(b)) == (a == b),
{
}

/// `a` sorts before `b` as `str`'s `Ord` has it: at the first position where
/// they differ the character with the lower code point comes first, and a
/// proper prefix comes before the longer text.
pub open spec fn text_lt(a: Seq<char>, b: Seq<char>) -> bool
    decreases a.len(),
{
    if b.len() == 0 {
        false
    } else if a.len() == 0 {
        true
    } else if a[0] != b[0] {
        (a[0] as u32) < (b[0] as u32)
    } else {
        text_lt(a.skip(1), b.skip(1))
    }
}

fn text_lt_exec(a: &Vec<char>, b: &Vec<char>) -> (r: bool)
    ensures
        r == text_lt(a@, b@),
{
    let mut i: usize = 0;
    assert(a@.skip(0) =~= a@ && b@.skip(0) =~= b@);
    while i < a.len() && i < b.len()
        invariant
            i <= a.len(),
            i <= b.len(),
            text_lt(a@, b@) == text_lt(a@.skip(i as int), b@.skip(i as int)),
        decreases a.len() - i,
    {
        let x = a[i];
        let y = b[i];
        assert(a@.skip(i as int)[0] == x && b@.skip(i as int)[0] == y);
        if x != y {
            return (x as u32) < (y as u32);
        }
        assert(a@.skip(i as int).skip(1) =~= a@.skip(i + 1));
        assert(b@.skip(i as int).skip(1) =~= b@.skip(i + 1));
        i = i + 1;
    }
    i < b.len()
}

/// How many of the keys sort strictly before `k`.
pub open spec fn text_rank(keys: Seq<Seq<char>>, k: Seq<char>) -> nat {
    keys.filter(|x: Seq<char>| text_lt(x, k)).len()
}

/// The rank of every key: sorting by rank sorts by text.
pub open spec fn text_ranks(keys: Seq<Seq<char>>) -> Seq<u128> {
    keys.map_values(|k: Seq<char>| text_rank(keys, k) as u128)
}

/// The indices of `keys` in the order a stable sort by text (`str`'s `Ord`)
/// puts them: by rank among the keys, equal keys in their original order.
pub fn text_order(keys: &Vec<String>) -> (ord: Vec<usize>)
    ensures
        is_stable_order(text_ranks(keys@.map_values(|s: String| s@)), ord@, false),
{
    let ghost kv = keys@.map_values(|s: String| s@);
    let mut cs: Vec<Vec<char>> = Vec::new();
    let mut k: usize = 0;
    while k < keys.len()
        invariant
            k <= keys.len(),
            kv == keys@.map_values(|s: String| s@),
            cs.len() == k,
            forall|i: int| 0 <= i < k ==> (#[trigger] cs@[i])@ == kv[i],
        decreases keys.len() - k,
    {
        cs.push(crate::text::chars_of(keys[k].as_str()));
        k = k + 1;
    }
    let mut ranks: Vec<u128> = Vec::new();
    let mut i: usize = 0;
    while i < cs.len()
        invariant
            i <= cs.len(),
            cs.len() == keys.len(),
            kv == keys@.map_values(|s: String| s@),
            forall|q: int| 0 <= q < cs.len() ==> (#[trigger] cs@[q])@ == kv[q],
            ranks.len() == i,
            forall|q: int| 0 <= q < i ==> #[trigger] ranks@[q] == text_rank(kv, kv[q]) as u128,
        decreases cs.len() - i,
    {
        let ghost me = kv[i as int];
        let ghost pred = |x: Seq<char>| text_lt(x, me);
        let mut n: u64 = 0;
        let mut j: usize = 0;
        while j < cs.len()
            invariant
                j <= cs.len(),
                i < cs.len(),
                cs.len() == keys.len(),
                kv == keys@.map_values(|s: String| s@),
                forall|q: int| 0 <= q < cs.len() ==> (#[trigger] cs@[q])@ == kv[q],
                me == kv[i as int],
                pred == (|x: Seq<char>| text_lt(x, me)),
                n == kv.take(j as int).filter(pred).len(),
                n <= j,
            decreases cs.len() - j,
        {
            proof {
                assert(kv.take(j + 1) =~= kv.take(j as int).push(kv[j as int]));
                kv.take(j as int).lemma_filter_push(kv[j as int], pred);
            }
            if text_lt_exec(&cs[j], &cs[i]) {
                n = n + 1;
            }
            j = j + 1;
        }
        assert(kv.take(j as int) =~= kv);
        ranks.push(n as u128);
        i = i + 1;
    }
    assert(ranks@ =~= text_ranks(kv));
    stable_order(&ranks, false)
}

proof fn lemma_text_lt_irreflexive(a: Seq<char>)
    ensures
        !text_lt(a, a),
    decreases a.len(),
{
    if a.len() > 0 {
        lemma_text_lt_irreflexive(a.skip(1));
    }
}

proof fn lemma_text_lt_transitive(a: Seq<char>, b: Seq<char>, c: Seq<char>)
    requires
        text_lt(a, b),
        text_lt(b, c),
    ensures
        text_lt(a, c),
    decreases a.len(),
{
    if a.len() > 0 && a[0] == b[0] && b[0] == c[0] {
        lemma_text_lt_transitive(a.skip(1), b.skip(1), c.skip(1));
    }
}

/// Filtering by a weaker predicate keeps at least as many elements, and
/// more when some element passes only the weaker one.
proof fn lemma_filter_len_mono(s: Seq<Seq<char>>, p: spec_fn(Seq<char>) -> bool, q: spec_fn(Seq<char>) -> bool)
    requires
        forall|x: Seq<char>| #[trigger] p(x) ==> q(x),
    ensures
        s.filter(p).len() <= s.filter(q).len(),
        (exists|i: int| 0 <= i < s.len() && q(s[i]) && !p(s[i])) ==> s.filter(p).len() < s.filter(q).len(),
    decreases s.len(),
{
    broadcast use vstd::seq_lib::group_filter_ensures;

    if s.len() > 0 {
        let t = s.drop_last();
        lemma_filter_len_mono(t, p, q);
        assert(s =~= t.push(s.last()));
        t.lemma_filter_push(s.last(), p);
        t.lemma_filter_push(s.last(), q);
        if exists|i: int| 0 <= i < s.len() && q(s[i]) && !p(s[i]) {
            let i = choose|i: int| 0 <= i < s.len() && q(s[i]) && !p(s[i]);
            if i < t.len() {
                assert(t[i] == s[i]);
            }
        }
    }
}

/// The order that `text_order` gives lists the keys in text order: no key
/// sorts strictly before one listed ahead of it.
pub proof fn law_text_order_sorted(keys: Seq<Seq<char>>, ord: Seq<usize>, i: int, j: int)
    requires
        keys.len() <= usize::MAX,
        is_stable_order(text_ranks(keys), ord, false),
        0 <= i < j < ord.len(),
    ensures
        !text_lt(keys[ord[j] as int], keys[ord[i] as int]),
{
    let a = keys[ord[i] as int];
    let b = keys[ord[j] as int];
    assert(before(text_ranks(keys)[ord[i] as int], text_ranks(keys)[ord[j] as int], false));
    if text_lt(b, a) {
        let pb = |x: Seq<char>| text_lt(x, b);
        let pa = |x: Seq<char>| text_lt(x, a);
        assert forall|x: Seq<char>| #[trigger] pb(x) implies pa(x) by {
            lemma_text_lt_transitive(x, b, a);
        }
        lemma_text_lt_irreflexive(b);
        assert(pa(keys[ord[j] as int]) && !pb(keys[ord[j] as int]));
        lemma_filter_len_mono(keys, pb, pa);
        assert(text_rank(keys, b) < text_rank(keys, a));
        assert(text_rank(keys, a) < 0x1_0000_0000_0000_0000_0000_0000_0000_0000) by {
            lemma_filter_len_le(keys, pa);
        }
        assert(text_rank(keys, b) < 0x1_0000_0000_0000_0000_0000_0000_0000_0000) by {
            lemma_filter_len_le(keys, pb);
        }
        assert(text_ranks(keys)[ord[i] as int] == text_rank(keys, a) as u128);
        assert(text_ranks(keys)[ord[j] as int] == text_rank(keys, b) as u128);
    }
}

proof fn lemma_filter_len_le(s: Seq<Seq<char>>, p: spec_fn(Seq<char>) -> bool)
    requires
        s.len() < 0x1_0000_0000_0000_0000,
    ensures
        s.filter(p).len() <= s.len(),
{
    broadcast use vstd::seq_lib::group_filter_ensures;
}

/// Keeping only some of the positions of a sequence that is in key order
/// leaves them in key order.
pub proof fn lemma_filter_keeps_order(
    keys: Seq<u128>,
    ord: Seq<usize>,
    desc: bool,
    pred: spec_fn(usize) -> bool,
)
    requires
        forall|i: int, j: int|
            0 <= i < j < ord.len() ==> before(keys[#[trigger] ord[i] as int], keys[#[trigger] ord[j] as int], desc),
    ensures
        forall|i: int, j: int|
            0 <= i < j < ord.filter(pred).len() ==> before(
                keys[#[trigger] ord.filter(pred)[i] as int],
                keys[#[trigger] ord.filter(pred)[j] as int],
                desc,
            ),
    decreases ord.len(),
{
    broadcast use vstd::seq_lib::group_filter_ensures;

    if ord.len() > 0 {
        let t = ord.drop_last();
        let x = ord.last();
        assert forall|i: int, j: int| 0 <= i < j < t.len() implies before(
            keys[#[trigger] t[i] as int],
            keys[#[trigger] t[j] as int],
            desc,
        ) by {
            assert(t[i] == ord[i] && t[j] == ord[j]);
        }
        lemma_filter_keeps_order(keys, t, desc, pred);
        assert(ord =~= t.push(x));
        t.lemma_filter_push(x, pred);
        let f = ord.filter(pred);
        let ft = t.filter(pred);
        if pred(x) {
            assert(f == ft.push(x));
            assert forall|i: int, j: int| 0 <= i < j < f.len() implies before(
                keys[#[trigger] f[i] as int],
                keys[#[trigger] f[j] as int],
                desc,
            ) by {
                if j < f.len() - 1 {
                    assert(f[i] == ft[i] && f[j] == ft[j]);
                } else {
                    assert(f[i] == ft[i]);
                    assert(ft.contains(ft[i]));
                    t.lemma_filter_contains_rev(pred, ft[i]);
                    let q = choose|q: int| 0 <= q < t.len() && t[q] == ft[i];
                    assert(ord[q] == t[q]);
                    assert(f[j] == x && ord[ord.len() - 1] == x);
                }
            }
        } else {
            assert(f == ft);
        }
    }
}

} // verus!

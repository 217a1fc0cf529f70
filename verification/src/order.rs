//! A stable sort by text keys: positions ordered by a list of texts compared in turn
//! (each as `String`'s `<`), equal keys keeping their original order, as
//! `slice::sort_by` with `cmp` on each text does.
use vstd::prelude::*;

use crate::fetch::kline::{lemma_text_lt_asym, lemma_text_lt_total, lemma_text_lt_trans, text_lt, text_lt_exec};
use crate::text::chars_of;

verus! {

/// Lists of texts in order: the first differing text decides; a proper prefix comes
/// first.
pub open spec fn list_lt(a: Seq<Seq<char>>, b: Seq<Seq<char>>) -> bool
    decreases a.len(),
{
    if a.len() == 0 {
        b.len() > 0
    } else if b.len() == 0 {
        false
    } else if a[0] != b[0] {
        text_lt(a[0], b[0])
    } else {
        list_lt(a.drop_first(), b.drop_first())
    }
}

pub proof fn lemma_list_lt_irrefl(a: Seq<Seq<char>>)
    ensures
        !list_lt(a, a),
    decreases a.len(),
{
    if a.len() > 0 {
        lemma_list_lt_irrefl(a.drop_first());
    }
}

pub proof fn lemma_list_lt_trans(a: Seq<Seq<char>>, b: Seq<Seq<char>>, c: Seq<Seq<char>>)
    requires
        list_lt(a, b),
        list_lt(b, c),
    ensures
        list_lt(a, c),
    decreases a.len(),
{
    if a.len() > 0 && b.len() > 0 && c.len() > 0 {
        if a[0] == b[0] && b[0] == c[0] {
            lemma_list_lt_trans(a.drop_first(), b.drop_first(), c.drop_first());
        } else if a[0] != b[0] && b[0] != c[0] {
            lemma_text_lt_trans(a[0], b[0], c[0]);
            if a[0] == c[0] {
                lemma_text_lt_asym(a[0], b[0]);
            }
        }
    }
}

pub proof fn lemma_list_lt_total(a: Seq<Seq<char>>, b: Seq<Seq<char>>)
    ensures
        a == b || list_lt(a, b) || list_lt(b, a),
    decreases a.len(),
{
    if a.len() > 0 && b.len() > 0 {
        if a[0] == b[0] {
            lemma_list_lt_total(a.drop_first(), b.drop_first());
            if a.drop_first() == b.drop_first() {
                assert(a =~= seq![a[0]] + a.drop_first());
                assert(b =~= seq![b[0]] + b.drop_first());
            }
        } else {
            lemma_text_lt_total(a[0], b[0]);
        }
    } else if a.len() == 0 && b.len() == 0 {
        assert(a =~= b);
    }
}

/// Position `i` goes before position `j`: its key is smaller, or the keys are equal
/// and it comes first.
pub open spec fn before(ks: Seq<Seq<Seq<char>>>, i: int, j: int) -> bool {
    list_lt(ks[i], ks[j]) || (ks[i] == ks[j] && i < j)
}

proof fn lemma_before_trans(ks: Seq<Seq<Seq<char>>>, i: int, j: int, k: int)
    requires
        before(ks, i, j),
        before(ks, j, k),
    ensures
        before(ks, i, k),
{
    if list_lt(ks[i], ks[j]) && list_lt(ks[j], ks[k]) {
        lemma_list_lt_trans(ks[i], ks[j], ks[k]);
    }
}

proof fn lemma_before_irrefl(ks: Seq<Seq<Seq<char>>>, i: int)
    ensures
        !before(ks, i, i),
{
    lemma_list_lt_irrefl(ks[i]);
}

/// The text of text-list keys.
pub open spec fn key_views(keys: Seq<Vec<String>>) -> Seq<Seq<Seq<char>>> {
    keys.map_values(|k: Vec<String>| k@.map_values(|s: String| s@))
}

/// Position `i` is among `d`.
pub open spec fn listed(d: Seq<usize>, i: int) -> bool {
    exists|k: int| 0 <= k < d.len() && d[k] as int == i
}

fn list_lt_exec(a: &Vec<Vec<char>>, b: &Vec<Vec<char>>) -> (r: bool)
    ensures
        r == list_lt(a@.map_values(|v: Vec<char>| v@), b@.map_values(|v: Vec<char>| v@)),
{
    let ghost av = a@.map_values(|v: Vec<char>| v@);
    let ghost bv = b@.map_values(|v: Vec<char>| v@);
    let mut i: usize = 0;
    assert(av.subrange(0, av.len() as int) =~= av);
    assert(bv.subrange(0, bv.len() as int) =~= bv);
    while i < a.len() && i < b.len()
        invariant
            i <= a@.len() && i <= b@.len(),
            av == a@.map_values(|v: Vec<char>| v@),
            bv == b@.map_values(|v: Vec<char>| v@),
            list_lt(av, bv) == list_lt(av.subrange(i as int, av.len() as int), bv.subrange(i as int, bv.len() as int)),
        decreases a.len() - i,
    {
        let ghost x = av.subrange(i as int, av.len() as int);
        let ghost y = bv.subrange(i as int, bv.len() as int);
        assert(x[0] == a@[i as int]@ && y[0] == b@[i as int]@);
        if !crate::text::seq_eq(a[i].as_slice(), b[i].as_slice()) {
            return text_lt_exec(a[i].as_slice(), b[i].as_slice());
        }
        proof {
            assert(x.drop_first() =~= av.subrange(i as int + 1, av.len() as int));
            assert(y.drop_first() =~= bv.subrange(i as int + 1, bv.len() as int));
        }
        i += 1;
    }
    i == a.len() && i < b.len()
}

/// Orders positions by their text-list keys, stably (see `before`): the result lists
/// every position once, in order.
#[verifier::rlimit(40)]
pub fn sort_by_texts(keys: &[Vec<String>]) -> (r: Vec<usize>)
    ensures
        forall|i: int| 0 <= i < keys@.len() ==> #[trigger] listed(r@, i),
        forall|k: int| 0 <= k < r@.len() ==> (#[trigger] r@[k]) < keys@.len(),
        forall|k1: int, k2: int| 0 <= k1 < k2 < r@.len() ==> before(key_views(keys@), #[trigger] r@[k1] as int, #[trigger] r@[k2] as int),
{
    let ghost ks = key_views(keys@);
    let n = keys.len();
    let mut texts: Vec<Vec<Vec<char>>> = Vec::new();
    let mut t: usize = 0;
    while t < n
        invariant
            t <= n == keys@.len(),
            ks == key_views(keys@),
            texts@.len() == t,
            forall|j: int| 0 <= j < t ==> (#[trigger] texts@[j])@.map_values(|v: Vec<char>| v@) == ks[j],
        decreases n - t,
    {
        let mut row: Vec<Vec<char>> = Vec::new();
        let mut q: usize = 0;
        while q < keys[t].len()
            invariant
                t < n == keys@.len(),
                q <= keys@[t as int]@.len(),
                row@.len() == q,
                forall|p: int| 0 <= p < q ==> #[trigger] row@[p]@ == keys@[t as int]@[p]@,
            decreases keys@[t as int]@.len() - q,
        {
            row.push(chars_of(keys[t][q].as_str()));
            q += 1;
        }
        proof {
            assert(row@.map_values(|v: Vec<char>| v@) =~= ks[t as int]);
        }
        texts.push(row);
        t += 1;
    }
    let mut d: Vec<usize> = Vec::new();
    loop
        invariant
            n == ks.len() == texts@.len(),
            forall|j: int| 0 <= j < n ==> (#[trigger] texts@[j])@.map_values(|v: Vec<char>| v@) == ks[j],
            d@.len() <= n,
            forall|k: int| 0 <= k < d@.len() ==> (#[trigger] d@[k]) < n,
            forall|k1: int, k2: int| 0 <= k1 < k2 < d@.len() ==> before(ks, #[trigger] d@[k1] as int, #[trigger] d@[k2] as int),
            d@.len() > 0 ==> forall|i: int| 0 <= i < n ==> #[trigger] listed(d@, i) || before(ks, d@[d@.len() - 1] as int, i),
        ensures
            forall|i: int| 0 <= i < n ==> #[trigger] listed(d@, i),
            forall|k: int| 0 <= k < d@.len() ==> (#[trigger] d@[k]) < n,
            forall|k1: int, k2: int| 0 <= k1 < k2 < d@.len() ==> before(ks, #[trigger] d@[k1] as int, #[trigger] d@[k2] as int),
        decreases n - d@.len(),
    {
        let has_bound = d.len() > 0;
        let bound: usize = if has_bound { d[d.len() - 1] } else { 0 };
        let ghost above = |i: int| !has_bound || before(ks, bound as int, i);
        let mut best: Option<usize> = None;
        let mut i: usize = 0;
        while i < n
            invariant
                n == ks.len() == texts@.len(),
                forall|j: int| 0 <= j < n ==> (#[trigger] texts@[j])@.map_values(|v: Vec<char>| v@) == ks[j],
                i <= n,
                has_bound ==> bound < n,
                above == (|i: int| !has_bound || before(ks, bound as int, i)),
                match best {
                    None => forall|j: int| 0 <= j < i ==> !#[trigger] above(j),
                    Some(b) => b < i && above(b as int) && forall|j: int| 0 <= j < i && #[trigger] above(j) ==> j == b || before(ks, b as int, j),
                },
            decreases n - i,
        {
            let cand = if has_bound {
                let lt = list_lt_exec(&texts[bound], &texts[i]);
                let eq = !lt && !list_lt_exec(&texts[i], &texts[bound]);
                proof {
                    lemma_list_lt_total(ks[bound as int], ks[i as int]);
                }
                lt || (eq && bound < i)
            } else {
                true
            };
            if cand {
                let better = match best {
                    None => true,
                    Some(b) => {
                        let lt = list_lt_exec(&texts[i], &texts[b]);
                        proof {
                            lemma_list_lt_total(ks[b as int], ks[i as int]);
                        }
                        lt
                    },
                };
                if better {
                    proof {
                        if let Some(b) = best {
                            assert(before(ks, i as int, b as int));
                            assert forall|j: int| 0 <= j < i + 1 && #[trigger] above(j) implies j == i || before(ks, i as int, j) by {
                                if j < i && j != b {
                                    lemma_before_trans(ks, i as int, b as int, j);
                                }
                            }
                        }
                    }
                    best = Some(i);
                } else {
                    proof {
                        let b = best.unwrap();
                        lemma_list_lt_total(ks[b as int], ks[i as int]);
                        assert(before(ks, b as int, i as int));
                    }
                }
            }
            i += 1;
        }
        match best {
            None => {
                proof {
                    if has_bound {
                        assert forall|j: int| 0 <= j < n implies #[trigger] listed(d@, j) by {
                            assert(!above(j));
                        }
                    } else {
                        assert(n == 0 || !above(0));
                    }
                }
                break;
            },
            Some(b) => {
                let ghost old_d = d@;
                proof {
                    assert forall|k: int| 0 <= k < old_d.len() implies before(ks, old_d[k] as int, b as int) by {
                        if k < old_d.len() - 1 {
                            lemma_before_trans(ks, old_d[k] as int, bound as int, b as int);
                        }
                    }
                    if old_d.len() > 0 {
                        assert(old_d.len() < n) by {
                            // every listed position is before b, and b is not listed
                            assert(!listed(old_d, b as int)) by {
                                if listed(old_d, b as int) {
                                    let k = choose|k: int| 0 <= k < old_d.len() && old_d[k] as int == b;
                                    lemma_before_irrefl(ks, b as int);
                                }
                            }
                            assert forall|k1: int, k2: int| 0 <= k1 < k2 < old_d.len() implies old_d[k1] != old_d[k2] by {
                                assert(before(ks, old_d[k1] as int, old_d[k2] as int));
                                lemma_before_irrefl(ks, old_d[k1] as int);
                            }
                            lemma_distinct_short(old_d, n as int, b as int);
                        }
                    }
                }
                d.push(b);
                proof {
                    assert forall|j: int| 0 <= j < n implies #[trigger] listed(d@, j) || before(ks, d@[d@.len() - 1] as int, j) by {
                        if old_d.len() > 0 && listed(old_d, j) {
                            let k = choose|k: int| 0 <= k < old_d.len() && old_d[k] as int == j;
                            assert(d@[k] == old_d[k]);
                        } else if j == b {
                            assert(d@[d@.len() - 1] == b);
                        } else {
                            assert(above(j));
                        }
                    }
                }
            },
        }
    }
    d
}

/// A list of distinct positions below `n` that misses one of them is shorter than `n`.
proof fn lemma_distinct_short(d: Seq<usize>, n: int, missing: int)
    requires
        0 <= missing < n,
        !listed(d, missing),
        forall|k: int| 0 <= k < d.len() ==> (#[trigger] d[k]) < n,
        forall|k1: int, k2: int| 0 <= k1 < k2 < d.len() ==> d[k1] != d[k2],
    ensures
        d.len() < n,
{
    let di = d.map_values(|x: usize| x as int);
    assert(di.no_duplicates()) by {
        assert forall|a: int, b: int| 0 <= a < di.len() && 0 <= b < di.len() && a != b implies di[a] != di[b] by {
            if a < b {
                assert(d[a] != d[b]);
            } else {
                assert(d[b] != d[a]);
            }
        }
    }
    let s = di.to_set();
    let full = vstd::set_lib::set_int_range(0, n).remove(missing);
    assert(s.subset_of(full)) by {
        assert forall|x: int| s.contains(x) implies full.contains(x) by {
            let k = choose|k: int| 0 <= k < di.len() && di[k] == x;
            assert(d[k] < n);
            if x == missing {
                assert(listed(d, missing));
            }
        }
    }
    di.unique_seq_to_set();
    vstd::set_lib::lemma_int_range(0, n);
    vstd::set::axiom_set_remove_len(vstd::set_lib::set_int_range(0, n), missing);
    vstd::set_lib::lemma_len_subset(s, full);
}

} // verus!

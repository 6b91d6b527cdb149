use crate::expression::Expression;
use std::collections::HashMap;
use vstd::prelude::*;

verus! {

broadcast use vstd::std_specs::hash::group_hash_axioms;

/// The values of `keys`, in order, under the assignment `t`.
pub open spec fn snapshot(t: Map<u32, bool>, keys: Seq<u32>) -> Seq<bool> {
    Seq::new(keys.len(), |j: int| t[keys[j]])
}

/// The trace lines of the visited assignments `vis`: the values of `keys`
/// in each, and the value of `e` under it.
pub open spec fn trace_of(e: Expression, vis: Seq<Map<u32, bool>>, keys: Seq<u32>) -> Seq<
    (Seq<bool>, bool),
> {
    vis.map_values(|m: Map<u32, bool>| (snapshot(m, keys), e.eval(m)))
}

pub open spec fn views(s: Seq<(Vec<bool>, bool)>) -> Seq<(Seq<bool>, bool)> {
    s.map_values(|x: (Vec<bool>, bool)| (x.0@, x.1))
}

pub open spec fn keys_in(keys: Seq<u32>, t: Map<u32, bool>) -> bool {
    forall|j: int| 0 <= j < keys.len() ==> t.dom().contains(#[trigger] keys[j])
}

/// The depth-first search over the values of `keys[i..]`, true before false:
/// the verdict, the table it leaves, and the complete assignments it visits,
/// in order. It stops at the first assignment that satisfies `e`.
pub open spec fn search(e: Expression, t: Map<u32, bool>, keys: Seq<u32>, i: int) -> (
    bool,
    Map<u32, bool>,
    Seq<Map<u32, bool>>,
)
    decreases keys.len() - i,
{
    if i < 0 || i >= keys.len() {
        (e.eval(t), t, seq![t])
    } else {
        let k = keys[i];
        let (r1, t1, v1) = search(e, t.insert(k, true), keys, i + 1);
        if r1 {
            (true, t1, v1)
        } else {
            let (r2, t2, v2) = search(e, t1.insert(k, false), keys, i + 1);
            (r2, t2, v1 + v2)
        }
    }
}

proof fn lemma_search_dom(e: Expression, t: Map<u32, bool>, keys: Seq<u32>, i: int)
    requires
        keys_in(keys, t),
    ensures
        search(e, t, keys, i).1.dom() == t.dom(),
    decreases keys.len() - i,
{
    if 0 <= i < keys.len() {
        let k = keys[i];
        assert(t.insert(k, true).dom() =~= t.dom());
        lemma_search_dom(e, t.insert(k, true), keys, i + 1);
        let t1 = search(e, t.insert(k, true), keys, i + 1).1;
        assert(t1.insert(k, false).dom() =~= t.dom());
        lemma_search_dom(e, t1.insert(k, false), keys, i + 1);
    }
}

fn snapshot_exec(table: &HashMap<u32, bool>, keys: &Vec<u32>) -> (r: Vec<bool>)
    requires
        keys_in(keys@, table@),
    ensures
        r@ == snapshot(table@, keys@),
{
    let mut r: Vec<bool> = Vec::new();
    let mut j: usize = 0;
    while j < keys.len()
        invariant
            j <= keys@.len(),
            keys_in(keys@, table@),
            r@ =~= Seq::new(j as nat, |x: int| table@[keys@[x]]),
        decreases keys@.len() - j,
    {
        r.push(*table.get(&keys[j]).unwrap());
        j = j + 1;
    }
    r
}

impl Expression {
    /// Searches the assignments of `keys[index..]`, depth first with true
    /// before false, for one under which the expression holds, and stops at
    /// the first. The answer is true exactly when some assignment of those
    /// keys, with the rest of the table kept, makes the expression true. The
    /// table is left at the last assignment visited, and for each visited
    /// assignment the values of `keys` and the expression's value are
    /// appended to `trace`.
    pub fn combinate(
        &self,
        evaluation_table: &mut HashMap<u32, bool>,
        keys: &Vec<u32>,
        index: usize,
        trace: &mut Vec<(Vec<bool>, bool)>,
    ) -> (r: bool)
        requires
            index <= keys@.len(),
            self.covered_by(old(evaluation_table)@),
            keys_in(keys@, old(evaluation_table)@),
        ensures
            ({
                let (res, t, vis) = search(*self, old(evaluation_table)@, keys@, index as int);
                &&& r == res
                &&& final(evaluation_table)@ == t
                &&& views(final(trace)@) == views(old(trace)@) + trace_of(*self, vis, keys@)
            }),
            r <==> exists|t2: Map<u32, bool>|
                agrees_off(old(evaluation_table)@, t2, keys@.subrange(index as int, keys@.len() as int))
                    && self.eval(t2),
        decreases keys@.len() - index,
    {
        proof {
            lemma_search_dom(*self, evaluation_table@, keys@, index as int);
            lemma_combinate_exists(*self, evaluation_table@, keys@, index as int);
        }
        if index < keys.len() {
            let key = keys[index];
            evaluation_table.insert(key, true);
            proof {
                assert(old(evaluation_table)@.insert(key, true).dom() =~= old(
                    evaluation_table,
                )@.dom());
            }
            if self.combinate(evaluation_table, keys, index + 1, trace) {
                return true;
            }
            let ghost mid = trace@;
            let ghost t1 = evaluation_table@;
            proof {
                lemma_search_dom(*self, old(evaluation_table)@.insert(key, true), keys@, index + 1);
            }
            evaluation_table.insert(key, false);
            proof {
                assert(t1.insert(key, false).dom() =~= old(evaluation_table)@.dom());
            }
            let r = self.combinate(evaluation_table, keys, index + 1, trace);
            proof {
                let v1 = search(*self, old(evaluation_table)@.insert(key, true), keys@, index + 1).2;
                let v2 = search(*self, t1.insert(key, false), keys@, index + 1).2;
                assert(trace_of(*self, v1 + v2, keys@) =~= trace_of(*self, v1, keys@) + trace_of(
                    *self,
                    v2,
                    keys@,
                ));
            }
            r
        } else {
            let result = self.evaluate(evaluation_table);
            let snap = snapshot_exec(evaluation_table, keys);
            trace.push((snap, result));
            proof {
                assert(views(final(trace)@) =~= views(old(trace)@) + trace_of(
                    *self,
                    seq![old(evaluation_table)@],
                    keys@,
                ));
            }
            result
        }
    }
}

/// 2 to the power `n`: the number of assignments of `n` variables.
pub open spec fn combinations(n: nat) -> nat
    decreases n,
{
    if n == 0 {
        1
    } else {
        2 * combinations((n - 1) as nat)
    }
}

/// `t2` assigns the same variables as `t`, and differs from it at most on
/// the keys in `ks`.
pub open spec fn agrees_off(t: Map<u32, bool>, t2: Map<u32, bool>, ks: Seq<u32>) -> bool {
    &&& t2.dom() == t.dom()
    &&& forall|k: u32| t.dom().contains(k) && !ks.contains(k) ==> t2[k] == t[k]
}

/// The first assignment that the search tries: every key of `keys[i..]` set
/// to true.
pub open spec fn first_try(t: Map<u32, bool>, keys: Seq<u32>, i: int) -> Map<u32, bool>
    decreases keys.len() - i,
{
    if i < 0 || i >= keys.len() {
        t
    } else {
        first_try(t.insert(keys[i], true), keys, i + 1)
    }
}

proof fn lemma_search_frame(e: Expression, t: Map<u32, bool>, keys: Seq<u32>, i: int)
    requires
        keys_in(keys, t),
        0 <= i <= keys.len(),
    ensures
        agrees_off(t, search(e, t, keys, i).1, keys.subrange(i, keys.len() as int)),
    decreases keys.len() - i,
{
    lemma_search_dom(e, t, keys, i);
    if i < keys.len() {
        let k = keys[i];
        let ks = keys.subrange(i, keys.len() as int);
        let ks1 = keys.subrange(i + 1, keys.len() as int);
        assert(t.insert(k, true).dom() =~= t.dom());
        lemma_search_frame(e, t.insert(k, true), keys, i + 1);
        lemma_search_dom(e, t.insert(k, true), keys, i + 1);
        let t1 = search(e, t.insert(k, true), keys, i + 1).1;
        assert(t1.insert(k, false).dom() =~= t.dom());
        lemma_search_frame(e, t1.insert(k, false), keys, i + 1);
        assert forall|x: u32| ks1.contains(x) implies ks.contains(x) by {
            let j = choose|j: int| 0 <= j < ks1.len() && ks1[j] == x;
            assert(ks[j + 1] == x);
        }
        assert(ks[0] == k);
    }
}

/// The search finds a satisfying assignment exactly when one exists: its
/// verdict is true if and only if some assignment of the keys `keys[i..]`,
/// with every other entry of the table kept, makes the expression true; and
/// false if and only if every such assignment makes it false.
pub proof fn lemma_combinate_exists(e: Expression, t: Map<u32, bool>, keys: Seq<u32>, i: int)
    requires
        keys_in(keys, t),
        0 <= i <= keys.len(),
    ensures
        search(e, t, keys, i).0 <==> exists|t2: Map<u32, bool>|
            agrees_off(t, t2, keys.subrange(i, keys.len() as int)) && e.eval(t2),
        !search(e, t, keys, i).0 <==> forall|t2: Map<u32, bool>|
            agrees_off(t, t2, keys.subrange(i, keys.len() as int)) ==> !e.eval(t2),
    decreases keys.len() - i,
{
    let ks = keys.subrange(i, keys.len() as int);
    if i == keys.len() {
        assert(agrees_off(t, t, ks));
        assert forall|t2: Map<u32, bool>| agrees_off(t, t2, ks) implies t2 == t by {
            assert(t2 =~= t);
        }
    } else {
        let k = keys[i];
        let ks1 = keys.subrange(i + 1, keys.len() as int);
        assert(ks[0] == k);
        assert forall|x: u32| ks1.contains(x) implies ks.contains(x) by {
            let j = choose|j: int| 0 <= j < ks1.len() && ks1[j] == x;
            assert(ks[j + 1] == x);
        }
        assert forall|x: u32| ks.contains(x) && x != k implies ks1.contains(x) by {
            let j = choose|j: int| 0 <= j < ks.len() && ks[j] == x;
            assert(j != 0);
            assert(ks1[j - 1] == x);
        }
        let ta = t.insert(k, true);
        assert(ta.dom() =~= t.dom());
        lemma_combinate_exists(e, ta, keys, i + 1);
        lemma_search_frame(e, ta, keys, i + 1);
        lemma_search_dom(e, ta, keys, i + 1);
        let t1 = search(e, ta, keys, i + 1).1;
        let tb = t1.insert(k, false);
        assert(tb.dom() =~= t.dom());
        lemma_combinate_exists(e, tb, keys, i + 1);
        // A witness for a branch is a witness for the whole search.
        assert forall|t2: Map<u32, bool>| agrees_off(ta, t2, ks1) implies agrees_off(t, t2, ks) by {
        }
        assert forall|t2: Map<u32, bool>| agrees_off(tb, t2, ks1) implies agrees_off(t, t2, ks) by {
        }
        // A witness for the whole search is one for the branch of its value at `k`.
        assert forall|t2: Map<u32, bool>| agrees_off(t, t2, ks) && e.eval(t2) implies search(
            e,
            t,
            keys,
            i,
        ).0 by {
            if t2[k] {
                assert(agrees_off(ta, t2, ks1));
            } else {
                assert(agrees_off(tb, t2, ks1));
            }
        }
    }
}

/// The search stops at the first satisfying assignment: on a true verdict
/// the last assignment visited satisfies the expression and every earlier
/// one does not; on a false verdict none does, and all `2^(n - i)`
/// assignments were visited.
pub proof fn lemma_combinate_stops_at_first(e: Expression, t: Map<u32, bool>, keys: Seq<u32>, i: int)
    requires
        0 <= i <= keys.len(),
    ensures
        ({
            let (r, _, vis) = search(e, t, keys, i);
            &&& vis.len() >= 1
            &&& r == e.eval(vis.last())
            &&& forall|j: int| 0 <= j < vis.len() - 1 ==> !e.eval(#[trigger] vis[j])
            &&& !r ==> vis.len() == combinations((keys.len() - i) as nat)
            &&& vis.len() <= combinations((keys.len() - i) as nat)
        }),
    decreases keys.len() - i,
{
    if i < keys.len() {
        let k = keys[i];
        let ta = t.insert(k, true);
        lemma_combinate_stops_at_first(e, ta, keys, i + 1);
        let t1 = search(e, ta, keys, i + 1).1;
        lemma_combinate_stops_at_first(e, t1.insert(k, false), keys, i + 1);
        let v1 = search(e, ta, keys, i + 1).2;
        let v2 = search(e, t1.insert(k, false), keys, i + 1).2;
        assert(combinations((keys.len() - i) as nat) == 2 * combinations(
            (keys.len() - (i + 1)) as nat,
        ));
        assert forall|j: int| 0 <= j < v1.len() + v2.len() - 1 && !search(e, ta, keys, i + 1).0
            implies !e.eval(#[trigger] (v1 + v2)[j]) by {
            if j < v1.len() {
                assert((v1 + v2)[j] == v1[j]);
            } else {
                assert((v1 + v2)[j] == v2[j - v1.len()]);
            }
        }
    }
}

/// When the first assignment tried, every key true, satisfies the
/// expression, the search visits it alone and answers true.
pub proof fn lemma_combinate_first_try(e: Expression, t: Map<u32, bool>, keys: Seq<u32>, i: int)
    requires
        0 <= i <= keys.len(),
        e.eval(first_try(t, keys, i)),
    ensures
        search(e, t, keys, i).0,
        search(e, t, keys, i).2 == seq![first_try(t, keys, i)],
    decreases keys.len() - i,
{
    if i < keys.len() {
        lemma_combinate_first_try(e, t.insert(keys[i], true), keys, i + 1);
    }
}

proof fn lemma_combinations_positive(n: nat)
    ensures
        combinations(n) >= 1,
    decreases n,
{
    if n > 0 {
        lemma_combinations_positive((n - 1) as nat);
    }
}

/// When some satisfying assignment gives the first searched key the value
/// true, the search never tries that key false: it answers true after
/// visiting at most half of the `2^(n - i)` assignments, so fewer than all.
pub proof fn lemma_combinate_half(e: Expression, t: Map<u32, bool>, keys: Seq<u32>, i: int)
    requires
        keys_in(keys, t),
        0 <= i < keys.len(),
        exists|t2: Map<u32, bool>|
            agrees_off(t, t2, keys.subrange(i, keys.len() as int)) && t2[keys[i]] && e.eval(t2),
    ensures
        search(e, t, keys, i).0,
        search(e, t, keys, i).2.len() <= combinations((keys.len() - i - 1) as nat),
        search(e, t, keys, i).2.len() < combinations((keys.len() - i) as nat),
{
    let k = keys[i];
    let ks = keys.subrange(i, keys.len() as int);
    let ks1 = keys.subrange(i + 1, keys.len() as int);
    let ta = t.insert(k, true);
    assert(ta.dom() =~= t.dom());
    assert forall|x: u32| ks.contains(x) && x != k implies ks1.contains(x) by {
        let j = choose|j: int| 0 <= j < ks.len() && ks[j] == x;
        assert(j != 0);
        assert(ks1[j - 1] == x);
    }
    let t2 = choose|t2: Map<u32, bool>| agrees_off(t, t2, ks) && t2[k] && e.eval(t2);
    assert(agrees_off(ta, t2, ks1));
    lemma_combinate_exists(e, ta, keys, i + 1);
    lemma_combinate_stops_at_first(e, ta, keys, i + 1);
    lemma_combinations_positive((keys.len() - i - 1) as nat);
    assert(combinations((keys.len() - i) as nat) == 2 * combinations((keys.len() - i - 1) as nat));
}

} // verus!

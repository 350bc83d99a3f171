//! Topological ordering of instances along the bridge graph.
//!
//! A bridge makes its callee a dependency of its caller, so instances are
//! created callees-first. `topo_sort` produces that order deterministically
//! (ties broken by lexicographic id) or reports the instances that cannot be
//! ordered as a `BridgeCycle`. The lemmas here pin the two directions down:
//! an order exists exactly when the sort succeeds, and a directed cycle in
//! the bridges rules any order out.

use vstd::prelude::*;

use crate::config::{bridge_refs_ok, instance_ids, Configuration};
use crate::error::ConfigError;
use crate::strutil::{lemma_lex_irrefl, lemma_lex_total, lemma_lex_trans, lemma_str_views_contains,
    lex_lt, seq_contains_str, str_eq, str_lex_lt, str_views, vec_contains_str};

verus! {

/// `ord` is a valid creation order for the instances of `c`: it lists every
/// instance id exactly once, and every bridge's callee strictly before its
/// caller.
pub open spec fn topo_order_ok(c: Configuration, ord: Seq<Seq<char>>) -> bool {
    &&& ord.len() == c.instances@.len()
    &&& ord.no_duplicates()
    &&& forall|k: int| 0 <= k < ord.len() ==> instance_ids(c).contains(#[trigger] ord[k])
    &&& forall|i: int|
        0 <= i < c.instances@.len() ==> ord.contains(#[trigger] instance_ids(c)[i])
    &&& forall|k: int, bi: int|
        0 <= k < ord.len() && 0 <= bi < c.bridges@.len() && (#[trigger] c.bridges@[bi]).caller_id@
            == #[trigger] ord[k] ==> exists|j: int|
            0 <= j < k && ord[j] == c.bridges@[bi].callee_id@
}

/// Some valid creation order exists.
pub open spec fn has_topo_order(c: Configuration) -> bool {
    exists|ord: Seq<Seq<char>>| topo_order_ok(c, ord)
}

/// `cyc` is a directed cycle in the bridge graph: from each listed id a
/// bridge leads to the next, and from the last back to the first.
pub open spec fn is_bridge_cycle(c: Configuration, cyc: Seq<Seq<char>>) -> bool {
    &&& cyc.len() > 0
    &&& forall|m: int|
        0 <= m < cyc.len() ==> exists|bi: int|
            0 <= bi < c.bridges@.len() && (#[trigger] c.bridges@[bi]).caller_id@
                == #[trigger] cyc[m] && c.bridges@[bi].callee_id@ == cyc[
                if m + 1 == cyc.len() {
                    0int
                } else {
                    m + 1
                }]
}

/// Every id emitted before a caller includes its callees: `id` is ready when
/// each bridge it is the caller of has its callee already in `em`.
pub open spec fn ready(c: Configuration, em: Seq<Seq<char>>, id: Seq<char>) -> bool {
    forall|bi: int|
        0 <= bi < c.bridges@.len() && (#[trigger] c.bridges@[bi]).caller_id@ == id
            ==> em.contains(c.bridges@[bi].callee_id@)
}

/// An emission sequence: each element is a declared instance id that is
/// ready once everything before it is emitted.
pub open spec fn emission_ok(c: Configuration, em: Seq<Seq<char>>) -> bool {
    forall|k: int|
        0 <= k < em.len() ==> instance_ids(c).contains(#[trigger] em[k]) && ready(
            c,
            em.subrange(0, k),
            em[k],
        )
}

/// The instance id `x` can be emitted at all: some emission sequence
/// reaches it. The ids that cannot are exactly the ones a bridge cycle
/// traps, and exactly the ones a failing sort reports.
pub open spec fn emittable(c: Configuration, x: Seq<char>) -> bool {
    exists|em: Seq<Seq<char>>| #[trigger] emission_ok(c, em) && em.contains(x)
}

/// No unemitted instance is ready: the sort is stuck on `em`.
pub open spec fn no_candidate(c: Configuration, em: Seq<Seq<char>>) -> bool {
    forall|i: int|
        0 <= i < c.instances@.len() ==> em.contains(#[trigger] instance_ids(c)[i]) || !ready(
            c,
            em,
            instance_ids(c)[i],
        )
}

/// Readiness only grows with the emitted set.
proof fn lemma_ready_monotone(c: Configuration, em1: Seq<Seq<char>>, em2: Seq<Seq<char>>, id: Seq<char>)
    requires
        ready(c, em1, id),
        forall|y: Seq<char>| em1.contains(y) ==> em2.contains(y),
    ensures
        ready(c, em2, id),
{
    assert forall|bi: int|
        0 <= bi < c.bridges@.len() && (#[trigger] c.bridges@[bi]).caller_id@ == id implies
        em2.contains(c.bridges@[bi].callee_id@) by {
        assert(em1.contains(c.bridges@[bi].callee_id@));
    }
}

/// When the sort is stuck on `e`, every emission sequence stays inside `e`:
/// its first `upto` elements are all already emitted.
proof fn lemma_emission_confined(
    c: Configuration,
    e: Seq<Seq<char>>,
    em: Seq<Seq<char>>,
    upto: int,
)
    requires
        emission_ok(c, em),
        no_candidate(c, e),
        0 <= upto <= em.len(),
    ensures
        forall|k: int| 0 <= k < upto ==> e.contains(#[trigger] em[k]),
    decreases upto,
{
    if upto > 0 {
        lemma_emission_confined(c, e, em, upto - 1);
        let x = em[upto - 1];
        assert(instance_ids(c).contains(x));
        let i = choose|i: int| 0 <= i < instance_ids(c).len() && instance_ids(c)[i] == x;
        assert(ready(c, em.subrange(0, upto - 1), x));
        let pre = em.subrange(0, upto - 1);
        assert forall|y: Seq<char>| #![trigger pre.contains(y)] pre.contains(y) implies e.contains(
            y,
        ) by {
            let j = choose|j: int| 0 <= j < pre.len() && pre[j] == y;
            assert(em[j] == y);
        }
        lemma_ready_monotone(c, pre, e, x);
        assert(e.contains(instance_ids(c)[i]) || !ready(c, e, instance_ids(c)[i]));
    }
}

/// At position `k` the order chose a lexicographically least ready id:
/// instance `i`, if unemitted and ready there, is not below the choice.
pub open spec fn min_at(c: Configuration, ord: Seq<Seq<char>>, k: int, i: int) -> bool {
    (!ord.subrange(0, k).contains(instance_ids(c)[i]) && ready(
        c,
        ord.subrange(0, k),
        instance_ids(c)[i],
    )) ==> !lex_lt(instance_ids(c)[i], ord[k])
}

/// The order always emits the lexicographically least ready id: this is the
/// deterministic tie-break, and it makes the order unique.
pub open spec fn greedy_min(c: Configuration, ord: Seq<Seq<char>>) -> bool {
    forall|k: int, i: int|
        0 <= k < ord.len() && 0 <= i < c.instances@.len() ==> #[trigger] min_at(c, ord, k, i)
}

/// No prefix of a valid order reaches into a bridge cycle.
proof fn lemma_ord_avoids_cycle(c: Configuration, ord: Seq<Seq<char>>, cyc: Seq<Seq<char>>, k: int)
    requires
        topo_order_ok(c, ord),
        is_bridge_cycle(c, cyc),
        0 <= k <= ord.len(),
    ensures
        forall|p: int, m: int| 0 <= p < k && 0 <= m < cyc.len() ==> ord[p] != cyc[m],
    decreases k,
{
    if k > 0 {
        lemma_ord_avoids_cycle(c, ord, cyc, k - 1);
        assert forall|m: int| 0 <= m < cyc.len() implies ord[k - 1] != cyc[m] by {
            if ord[k - 1] == cyc[m] {
                let next = if m + 1 == cyc.len() {
                    0int
                } else {
                    m + 1
                };
                let bi = choose|bi: int|
                    0 <= bi < c.bridges@.len() && (#[trigger] c.bridges@[bi]).caller_id@ == cyc[m]
                        && c.bridges@[bi].callee_id@ == cyc[next];
                assert(c.bridges@[bi].caller_id@ == ord[k - 1]);
                let j = choose|j: int| 0 <= j < k - 1 && ord[j] == c.bridges@[bi].callee_id@;
                assert(ord[j] == cyc[next]);
                assert(false);
            }
        }
    }
}

/// Law: a directed cycle in the bridges rules out every topological order.
/// Together with the contract of `check_consistency` this says a cyclic
/// configuration is rejected, and — its static checks passing — rejected
/// with `ConfigError::BridgeCycle`.
pub proof fn lemma_bridge_cycle_unorderable(c: Configuration, cyc: Seq<Seq<char>>)
    requires
        bridge_refs_ok(c),
        is_bridge_cycle(c, cyc),
    ensures
        !has_topo_order(c),
{
    if has_topo_order(c) {
        let ord = choose|ord: Seq<Seq<char>>| topo_order_ok(c, ord);
        lemma_ord_avoids_cycle(c, ord, cyc, ord.len() as int);
        let next0 = if 1 == cyc.len() {
            0int
        } else {
            1int
        };
        let bi = choose|bi: int|
            0 <= bi < c.bridges@.len() && (#[trigger] c.bridges@[bi]).caller_id@ == cyc[0]
                && c.bridges@[bi].callee_id@ == cyc[next0];
        assert(instance_ids(c).contains(cyc[0]));
        let i = choose|i: int| 0 <= i < instance_ids(c).len() && instance_ids(c)[i] == cyc[0];
        assert(ord.contains(instance_ids(c)[i]));
        let p = choose|p: int| 0 <= p < ord.len() && ord[p] == instance_ids(c)[i];
        assert(ord[p] == cyc[0]);
        assert(false);
    }
}

/// Law: a topological order places every bridge's callee strictly before
/// its caller — wherever the two ids stand in the order, the callee's
/// position is the smaller one.
pub proof fn lemma_callee_before_caller(
    c: Configuration,
    ord: Seq<Seq<char>>,
    bi: int,
    ci: int,
    di: int,
)
    requires
        topo_order_ok(c, ord),
        0 <= bi < c.bridges@.len(),
        0 <= ci < ord.len(),
        0 <= di < ord.len(),
        ord[ci] == c.bridges@[bi].caller_id@,
        ord[di] == c.bridges@[bi].callee_id@,
    ensures
        di < ci,
{
    let j = choose|j: int| 0 <= j < ci && ord[j] == c.bridges@[bi].callee_id@;
    if j != di {
        assert(ord[j] == ord[di]);
        assert(false);
    }
}

/// The prefixes of two greedy topological orders agree.
proof fn lemma_prefixes_agree(c: Configuration, ord1: Seq<Seq<char>>, ord2: Seq<Seq<char>>, k: int)
    requires
        topo_order_ok(c, ord1),
        topo_order_ok(c, ord2),
        greedy_min(c, ord1),
        greedy_min(c, ord2),
        0 <= k <= ord1.len(),
    ensures
        ord1.subrange(0, k) == ord2.subrange(0, k),
    decreases k,
{
    if k == 0 {
        assert(ord1.subrange(0, 0) =~= ord2.subrange(0, 0));
    } else {
        lemma_prefixes_agree(c, ord1, ord2, k - 1);
        let p = ord1.subrange(0, k - 1);
        assert(ord2.subrange(0, k - 1) == p);
        let x = ord1[k - 1];
        let y = ord2[k - 1];
        assert(instance_ids(c).contains(x));
        assert(instance_ids(c).contains(y));
        let ix = choose|ix: int| 0 <= ix < instance_ids(c).len() && instance_ids(c)[ix] == x;
        let iy = choose|iy: int| 0 <= iy < instance_ids(c).len() && instance_ids(c)[iy] == y;
        assert(!p.contains(x)) by {
            if p.contains(x) {
                let j = choose|j: int| 0 <= j < p.len() && p[j] == x;
                assert(ord1[j] == ord1[k - 1]);
                assert(false);
            }
        }
        assert(!p.contains(y)) by {
            if p.contains(y) {
                let j = choose|j: int| 0 <= j < p.len() && p[j] == y;
                assert(ord2.subrange(0, k - 1)[j] == ord2[j]);
                assert(ord2[j] == ord2[k - 1]);
                assert(false);
            }
        }
        assert(ready(c, p, x)) by {
            assert forall|bi: int|
                0 <= bi < c.bridges@.len() && (#[trigger] c.bridges@[bi]).caller_id@
                    == x implies p.contains(c.bridges@[bi].callee_id@) by {
                let j = choose|j: int| 0 <= j < k - 1 && ord1[j] == c.bridges@[bi].callee_id@;
                assert(p[j] == ord1[j]);
            }
        }
        assert(ready(c, p, y)) by {
            assert forall|bi: int|
                0 <= bi < c.bridges@.len() && (#[trigger] c.bridges@[bi]).caller_id@
                    == y implies p.contains(c.bridges@[bi].callee_id@) by {
                let j = choose|j: int| 0 <= j < k - 1 && ord2[j] == c.bridges@[bi].callee_id@;
                assert(ord2.subrange(0, k - 1)[j] == ord2[j]);
            }
        }
        assert(min_at(c, ord2, k - 1, ix));
        assert(!lex_lt(x, y));
        assert(min_at(c, ord1, k - 1, iy));
        assert(!lex_lt(y, x));
        lemma_lex_total(x, y);
        assert(ord1.subrange(0, k) =~= ord2.subrange(0, k));
    }
}

/// Law: the topological order the validator accepts a configuration with is
/// unique — two orders that both satisfy the order property and both break
/// ties by least id are the same order. Since the validator is a function of
/// the configuration alone, loading one configuration twice yields one and
/// the same creation order.
pub proof fn lemma_topo_order_unique(c: Configuration, ord1: Seq<Seq<char>>, ord2: Seq<Seq<char>>)
    requires
        topo_order_ok(c, ord1),
        topo_order_ok(c, ord2),
        greedy_min(c, ord1),
        greedy_min(c, ord2),
    ensures
        ord1 == ord2,
{
    lemma_prefixes_agree(c, ord1, ord2, ord1.len() as int);
    assert(ord1.subrange(0, ord1.len() as int) =~= ord1);
    assert(ord2.subrange(0, ord2.len() as int) =~= ord2);
}

/// In a sequence with a member outside `em`, there is a first such member.
proof fn lemma_first_unemitted(t: Seq<Seq<char>>, em: Seq<Seq<char>>, start: int) -> (k: int)
    requires
        0 <= start <= t.len(),
        exists|m: int| start <= m < t.len() && !em.contains(#[trigger] t[m]),
    ensures
        start <= k < t.len(),
        !em.contains(t[k]),
        forall|j: int| start <= j < k ==> em.contains(#[trigger] t[j]),
    decreases t.len() - start,
{
    if !em.contains(t[start]) {
        start
    } else {
        lemma_first_unemitted(t, em, start + 1)
    }
}

/// Two duplicate-free sequences of equal length, one contained in the other,
/// have the same members.
proof fn lemma_distinct_cover(s: Seq<Seq<char>>, t: Seq<Seq<char>>)
    requires
        s.no_duplicates(),
        t.no_duplicates(),
        s.len() == t.len(),
        forall|k: int| 0 <= k < s.len() ==> t.contains(#[trigger] s[k]),
    ensures
        forall|m: int| 0 <= m < t.len() ==> s.contains(#[trigger] t[m]),
{
    broadcast use vstd::seq_lib::seq_to_set_is_finite;

    s.unique_seq_to_set();
    t.unique_seq_to_set();
    assert(s.to_set().subset_of(t.to_set()));
    assert forall|m: int| 0 <= m < t.len() implies s.contains(t[m]) by {
        if !s.contains(t[m]) {
            assert(t.to_set().contains(t[m]));
            assert(!s.to_set().contains(t[m]));
            s.to_set().lemma_subset_not_in_lt(t.to_set(), t[m]);
            assert(false);
        }
    }
}

/// A duplicate-free sequence over the members of another, strictly shorter
/// one misses some member of the longer one.
proof fn lemma_short_misses_one(em: Seq<Seq<char>>, ids: Seq<Seq<char>>) -> (i: int)
    requires
        em.no_duplicates(),
        ids.no_duplicates(),
        em.len() < ids.len(),
        forall|k: int| 0 <= k < em.len() ==> ids.contains(#[trigger] em[k]),
    ensures
        0 <= i < ids.len(),
        !em.contains(ids[i]),
{
    broadcast use vstd::seq_lib::seq_to_set_is_finite;

    em.unique_seq_to_set();
    ids.unique_seq_to_set();
    if forall|i: int| 0 <= i < ids.len() ==> em.contains(#[trigger] ids[i]) {
        assert(ids.to_set().subset_of(em.to_set()));
        vstd::set_lib::lemma_len_subset(ids.to_set(), em.to_set());
        assert(false);
    }
    choose|i: int| 0 <= i < ids.len() && !em.contains(#[trigger] ids[i])
}

/// When every instance is either already emitted or waits on an unemitted
/// callee, and some instance is still unemitted, no topological order exists.
proof fn lemma_stuck_no_topo(c: Configuration, em: Seq<Seq<char>>)
    requires
        instance_ids(c).no_duplicates(),
        em.no_duplicates(),
        em.len() < c.instances@.len(),
        forall|k: int| 0 <= k < em.len() ==> instance_ids(c).contains(#[trigger] em[k]),
        forall|i: int|
            0 <= i < c.instances@.len() ==> em.contains(#[trigger] instance_ids(c)[i]) || !ready(
                c,
                em,
                instance_ids(c)[i],
            ),
    ensures
        !has_topo_order(c),
{
    if has_topo_order(c) {
        let ord = choose|ord: Seq<Seq<char>>| topo_order_ok(c, ord);
        let miss = lemma_short_misses_one(em, instance_ids(c));
        assert(ord.contains(instance_ids(c)[miss]));
        let mp = choose|mp: int| 0 <= mp < ord.len() && ord[mp] == instance_ids(c)[miss];
        assert(!em.contains(ord[mp]));
        let k = lemma_first_unemitted(ord, em, 0);
        let u = ord[k];
        assert(instance_ids(c).contains(u));
        let i = choose|i: int| 0 <= i < instance_ids(c).len() && instance_ids(c)[i] == u;
        assert(!ready(c, em, u));
        let bi = choose|bi: int|
            0 <= bi < c.bridges@.len() && (#[trigger] c.bridges@[bi]).caller_id@ == u
                && !em.contains(c.bridges@[bi].callee_id@);
        let j = choose|j: int| 0 <= j < k && ord[j] == c.bridges@[bi].callee_id@;
        assert(em.contains(ord[j]));
        assert(false);
    }
}

/// Whether every callee that `id` bridges to is already in `order`.
fn is_ready(c: &Configuration, order: &Vec<String>, id: &str) -> (r: bool)
    ensures
        r == ready(*c, str_views(order@), id@),
{
    let mut bi: usize = 0;
    while bi < c.bridges.len()
        invariant
            bi <= c.bridges@.len(),
            forall|j: int|
                0 <= j < bi && (#[trigger] c.bridges@[j]).caller_id@ == id@ ==> str_views(
                    order@,
                ).contains(c.bridges@[j].callee_id@),
        decreases c.bridges@.len() - bi,
    {
        if str_eq(c.bridges[bi].caller_id.as_str(), id) {
            let present = vec_contains_str(order, c.bridges[bi].callee_id.as_str());
            proof {
                lemma_str_views_contains(order@, c.bridges@[bi as int].callee_id@);
            }
            if !present {
                return false;
            }
        }
        bi += 1;
    }
    true
}

/// Order the instance ids so that every bridge's callee comes strictly
/// before its caller; among the instances ready in a round, the
/// lexicographically least id is emitted first, which makes the order
/// deterministic. Fails with the set of unorderable instances when the
/// bridge graph has a directed cycle.
pub fn topo_sort(c: &Configuration) -> (r: Result<Vec<String>, ConfigError>)
    requires
        instance_ids(*c).no_duplicates(),
    ensures
        r is Ok <==> has_topo_order(*c),
        r matches Ok(order) ==> topo_order_ok(*c, str_views(order@)) && greedy_min(
            *c,
            str_views(order@),
        ),
        r matches Err(e) ==> {
            &&& e matches ConfigError::BridgeCycle { involved_ids }
            &&& involved_ids@.len() > 0
            &&& forall|k: int|
                0 <= k < involved_ids@.len() ==> instance_ids(*c).contains(
                    #[trigger] involved_ids@[k]@,
                )
            &&& forall|k: int|
                0 <= k < involved_ids@.len() ==> !emittable(*c, #[trigger] involved_ids@[k]@)
            &&& forall|i: int|
                0 <= i < c.instances@.len() ==> emittable(*c, #[trigger] instance_ids(*c)[i])
                    || seq_contains_str(involved_ids@, instance_ids(*c)[i])
            &&& !has_topo_order(*c)
        },
{
    let n = c.instances.len();
    let mut order: Vec<String> = Vec::new();
    while order.len() < n
        invariant
            n == c.instances@.len(),
            order@.len() <= n,
            instance_ids(*c).no_duplicates(),
            str_views(order@).no_duplicates(),
            forall|k: int|
                0 <= k < order@.len() ==> instance_ids(*c).contains(#[trigger] order@[k]@),
            forall|k: int, bi: int|
                0 <= k < order@.len() && 0 <= bi < c.bridges@.len() && (
                #[trigger] c.bridges@[bi]).caller_id@ == (#[trigger] order@[k]@) ==> exists|j: int|
                    0 <= j < k && order@[j]@ == c.bridges@[bi].callee_id@,
            greedy_min(*c, str_views(order@)),
        decreases n - order@.len(),
    {
        let mut best: Option<usize> = None;
        let mut i: usize = 0;
        while i < n
            invariant
                n == c.instances@.len(),
                i <= n,
                match best {
                    Some(b) => b < n && !seq_contains_str(order@, c.instances@[b as int].id@)
                        && ready(*c, str_views(order@), c.instances@[b as int].id@) && forall|
                        j: int,
                    |
                        0 <= j < i && !seq_contains_str(order@, #[trigger] c.instances@[j].id@)
                            && ready(*c, str_views(order@), c.instances@[j].id@) ==> !lex_lt(
                            c.instances@[j].id@,
                            c.instances@[b as int].id@,
                        ),
                    None => forall|j: int|
                        0 <= j < i ==> seq_contains_str(order@, #[trigger] c.instances@[j].id@)
                            || !ready(*c, str_views(order@), c.instances@[j].id@),
                },
            decreases n - i,
        {
            let id = &c.instances[i].id;
            let emitted = vec_contains_str(&order, id.as_str());
            if !emitted && is_ready(c, &order, id.as_str()) {
                match best {
                    None => {
                        proof {
                            lemma_lex_irrefl(c.instances@[i as int].id@, 0);
                        }
                        best = Some(i);
                    },
                    Some(b) => {
                        if str_lex_lt(id.as_str(), c.instances[b].id.as_str()) {
                            proof {
                                lemma_lex_irrefl(c.instances@[i as int].id@, 0);
                                assert forall|j: int|
                                    0 <= j < i && !seq_contains_str(
                                        order@,
                                        #[trigger] c.instances@[j].id@,
                                    ) && ready(
                                        *c,
                                        str_views(order@),
                                        c.instances@[j].id@,
                                    ) implies !lex_lt(
                                    c.instances@[j].id@,
                                    c.instances@[i as int].id@,
                                ) by {
                                    if lex_lt(c.instances@[j].id@, c.instances@[i as int].id@) {
                                        lemma_lex_trans(
                                            c.instances@[j].id@,
                                            c.instances@[i as int].id@,
                                            c.instances@[b as int].id@,
                                            0,
                                        );
                                    }
                                }
                            }
                            best = Some(i);
                        }
                    },
                }
            }
            i += 1;
        }
        match best {
            None => {
                let mut rest: Vec<String> = Vec::new();
                let mut j: usize = 0;
                while j < n
                    invariant
                        n == c.instances@.len(),
                        j <= n,
                        forall|k: int|
                            0 <= k < rest@.len() ==> instance_ids(*c).contains(
                                #[trigger] rest@[k]@,
                            ),
                        forall|k: int|
                            0 <= k < rest@.len() ==> !seq_contains_str(
                                order@,
                                #[trigger] rest@[k]@,
                            ),
                        forall|m: int|
                            0 <= m < j && !seq_contains_str(order@, #[trigger] c.instances@[m].id@)
                                ==> seq_contains_str(rest@, c.instances@[m].id@),
                    decreases n - j,
                {
                    if !vec_contains_str(&order, c.instances[j].id.as_str()) {
                        let ghost old_rest = rest@;
                        rest.push(c.instances[j].id.clone());
                        proof {
                            assert(rest@[rest@.len() - 1]@ == c.instances@[j as int].id@);
                            assert(instance_ids(*c)[j as int] == c.instances@[j as int].id@);
                            assert forall|m: int|
                                0 <= m < j + 1 && !seq_contains_str(
                                    order@,
                                    #[trigger] c.instances@[m].id@,
                                ) implies seq_contains_str(rest@, c.instances@[m].id@) by {
                                if m < j {
                                    let w = choose|w: int|
                                        0 <= w < old_rest.len() && old_rest[w]@
                                            == c.instances@[m].id@;
                                    assert(rest@[w]@ == c.instances@[m].id@);
                                }
                            }
                        }
                    }
                    j += 1;
                }
                proof {
                    let ghost em = str_views(order@);
                    assert forall|k: int|
                        0 <= k < em.len() implies instance_ids(*c).contains(#[trigger] em[k]) by {
                        assert(em[k] == order@[k]@);
                    }
                    assert(no_candidate(*c, em)) by {
                        assert forall|ii: int|
                            0 <= ii < c.instances@.len() implies em.contains(
                                #[trigger] instance_ids(*c)[ii],
                            ) || !ready(*c, em, instance_ids(*c)[ii]) by {
                            if !em.contains(instance_ids(*c)[ii]) {
                                lemma_str_views_contains(order@, c.instances@[ii].id@);
                                assert(!seq_contains_str(order@, c.instances@[ii].id@));
                            }
                        }
                    }
                    lemma_stuck_no_topo(*c, em);
                    let miss = lemma_short_misses_one(em, instance_ids(*c));
                    lemma_str_views_contains(order@, instance_ids(*c)[miss]);
                    assert(seq_contains_str(rest@, c.instances@[miss].id@));
                    assert(rest@.len() > 0);
                    assert(emission_ok(*c, em)) by {
                        assert forall|k: int|
                            0 <= k < em.len() implies instance_ids(*c).contains(#[trigger] em[k])
                            && ready(*c, em.subrange(0, k), em[k]) by {
                            assert(em[k] == order@[k]@);
                            assert forall|bi: int|
                                0 <= bi < c.bridges@.len() && (
                                #[trigger] c.bridges@[bi]).caller_id@ == em[k] implies em.subrange(
                                0,
                                k,
                            ).contains(c.bridges@[bi].callee_id@) by {
                                let jj = choose|jj: int|
                                    0 <= jj < k && order@[jj]@ == c.bridges@[bi].callee_id@;
                                assert(em.subrange(0, k)[jj] == em[jj]);
                                assert(em[jj] == order@[jj]@);
                            }
                        }
                    }
                    assert forall|k: int|
                        0 <= k < rest@.len() implies !emittable(*c, #[trigger] rest@[k]@) by {
                        if emittable(*c, rest@[k]@) {
                            let emw = choose|emw: Seq<Seq<char>>|
                                #[trigger] emission_ok(*c, emw) && emw.contains(rest@[k]@);
                            lemma_emission_confined(*c, em, emw, emw.len() as int);
                            let m = choose|m: int| 0 <= m < emw.len() && emw[m] == rest@[k]@;
                            assert(em.contains(emw[m]));
                            lemma_str_views_contains(order@, rest@[k]@);
                            assert(false);
                        }
                    }
                    assert forall|i2: int|
                        0 <= i2 < c.instances@.len() implies emittable(
                        *c,
                        #[trigger] instance_ids(*c)[i2],
                    ) || seq_contains_str(rest@, instance_ids(*c)[i2]) by {
                        if seq_contains_str(order@, c.instances@[i2].id@) {
                            lemma_str_views_contains(order@, c.instances@[i2].id@);
                            assert(emission_ok(*c, em) && em.contains(instance_ids(*c)[i2]));
                            assert(emittable(*c, instance_ids(*c)[i2]));
                        } else {
                            assert(seq_contains_str(rest@, c.instances@[i2].id@));
                        }
                    }
                }
                return Err(ConfigError::BridgeCycle { involved_ids: rest });
            },
            Some(b) => {
                let ghost old_order = order@;
                order.push(c.instances[b].id.clone());
                proof {
                    let ghost new_len = order@.len();
                    assert(order@[new_len - 1]@ == c.instances@[b as int].id@);
                    assert(instance_ids(*c)[b as int] == c.instances@[b as int].id@);
                    assert forall|a: int, z: int|
                        0 <= a < z < new_len implies order@[a]@ != order@[z]@ by {
                        if z == new_len - 1 {
                            assert(!seq_contains_str(old_order, c.instances@[b as int].id@));
                            assert(old_order[a]@ == order@[a]@);
                        } else {
                            assert(str_views(old_order)[a] != str_views(old_order)[z]);
                        }
                    }
                    assert forall|a: int, z: int|
                        0 <= a < z < str_views(order@).len() implies str_views(order@)[a]
                        != str_views(order@)[z] by {
                        assert(order@[a]@ != order@[z]@);
                    }
                    assert(str_views(order@) =~= str_views(old_order).push(
                        c.instances@[b as int].id@,
                    ));
                    assert forall|k2: int, i2: int|
                        0 <= k2 < str_views(order@).len() && 0 <= i2
                            < c.instances@.len() implies #[trigger] min_at(
                        *c,
                        str_views(order@),
                        k2,
                        i2,
                    ) by {
                        if k2 < new_len - 1 {
                            assert(str_views(order@).subrange(0, k2) =~= str_views(
                                old_order,
                            ).subrange(0, k2));
                            assert(min_at(*c, str_views(old_order), k2, i2));
                            assert(str_views(order@)[k2] == str_views(old_order)[k2]);
                        } else {
                            assert(str_views(order@).subrange(0, k2) =~= str_views(old_order));
                            lemma_str_views_contains(old_order, instance_ids(*c)[i2]);
                            assert(instance_ids(*c)[i2] == c.instances@[i2].id@);
                            assert(str_views(order@)[k2] == c.instances@[b as int].id@);
                        }
                    }
                    assert forall|k: int, bi: int|
                        0 <= k < new_len && 0 <= bi < c.bridges@.len() && (
                        #[trigger] c.bridges@[bi]).caller_id@ == (#[trigger] order@[k]@) implies
                        exists|j: int| 0 <= j < k && order@[j]@ == c.bridges@[bi].callee_id@ by {
                        if k == new_len - 1 {
                            assert(ready(*c, str_views(old_order), c.instances@[b as int].id@));
                            assert(str_views(old_order).contains(c.bridges@[bi].callee_id@));
                            let j = choose|j: int|
                                0 <= j < str_views(old_order).len() && str_views(old_order)[j]
                                    == c.bridges@[bi].callee_id@;
                            assert(order@[j]@ == c.bridges@[bi].callee_id@);
                        } else {
                            assert(old_order[k]@ == order@[k]@);
                            let j = choose|j: int|
                                0 <= j < k && old_order[j]@ == c.bridges@[bi].callee_id@;
                            assert(order@[j]@ == c.bridges@[bi].callee_id@);
                        }
                    }
                }
            },
        }
    }
    proof {
        let ghost ord = str_views(order@);
        assert forall|k: int|
            0 <= k < ord.len() implies instance_ids(*c).contains(#[trigger] ord[k]) by {
            assert(ord[k] == order@[k]@);
        }
        assert forall|k: int, bi: int|
            0 <= k < ord.len() && 0 <= bi < c.bridges@.len() && (
            #[trigger] c.bridges@[bi]).caller_id@ == #[trigger] ord[k] implies exists|j: int|
            0 <= j < k && ord[j] == c.bridges@[bi].callee_id@ by {
            assert(order@[k]@ == ord[k]);
            let j = choose|j: int| 0 <= j < k && order@[j]@ == c.bridges@[bi].callee_id@;
            assert(ord[j] == c.bridges@[bi].callee_id@);
        }
        lemma_distinct_cover(ord, instance_ids(*c));
        assert(topo_order_ok(*c, ord));
    }
    Ok(order)
}

} // verus!

//! The platform-valid dependency closure: which packages are reached from the
//! requested ones along dependency links that apply to the target platform.

use vstd::prelude::*;

verus! {

/// A dependency link between two packages of a resolved graph, each given by
/// its position in the graph's package list, with the verdict of its platform
/// predicate for the target platform.
#[derive(Clone, Copy, Debug)]
pub struct Link {
    pub from: usize,
    pub to: usize,
    pub accepted: bool,
}

/// Whether `s` holds the target of every accepted link that starts in it.
pub open spec fn closed_under(links: Seq<Link>, s: Set<usize>) -> bool {
    forall|i: int|
        0 <= i < links.len() && (#[trigger] links[i]).accepted && s.contains(links[i].from)
            ==> s.contains(links[i].to)
}

/// Whether `s` holds every seed and is closed under the accepted links.
pub open spec fn admits(seeds: Set<usize>, links: Seq<Link>, s: Set<usize>) -> bool {
    seeds.subset_of(s) && closed_under(links, s)
}

/// The closure of `seeds`: the packages that lie in every set that holds the
/// seeds and is closed under the accepted links, that is the smallest such set.
pub open spec fn closure(seeds: Set<usize>, links: Seq<Link>) -> Set<usize> {
    Set::new(|v: usize| forall|s: Set<usize>| #[trigger] admits(seeds, links, s) ==> s.contains(v))
}

/// The packages that a list of seeds names.
pub open spec fn seed_set(seeds: Seq<usize>) -> Set<usize> {
    Set::new(|v: usize| exists|k: int| 0 <= k < seeds.len() && seeds[k] == v)
}

/// The packages that a membership table marks.
pub open spec fn marked(table: Seq<bool>) -> Set<usize> {
    Set::new(|v: usize| v < table.len() && table[v as int])
}

/// Whether every link joins two packages among the first `node_count`.
pub open spec fn links_within(links: Seq<Link>, node_count: int) -> bool {
    forall|i: int|
        0 <= i < links.len() ==> (#[trigger] links[i]).from < node_count && links[i].to
            < node_count
}

/// Whether every seed is among the first `node_count` packages.
pub open spec fn seeds_within(seeds: Seq<usize>, node_count: int) -> bool {
    forall|k: int| 0 <= k < seeds.len() ==> #[trigger] seeds[k] < node_count
}

/// How many entries of a membership table are still unmarked.
pub open spec fn unmarked_count(table: Seq<bool>) -> nat
    decreases table.len(),
{
    if table.len() == 0 {
        0
    } else {
        unmarked_count(table.drop_last()) + if table.last() {
            0nat
        } else {
            1nat
        }
    }
}

proof fn lemma_mark_lowers_count(table: Seq<bool>, v: int)
    requires
        0 <= v < table.len(),
        !table[v],
    ensures
        unmarked_count(table.update(v, true)) + 1 == unmarked_count(table),
    decreases table.len(),
{
    let after = table.update(v, true);
    if v == table.len() - 1 {
        assert(after.drop_last() =~= table.drop_last());
    } else {
        lemma_mark_lowers_count(table.drop_last(), v);
        assert(after.drop_last() =~= table.drop_last().update(v, true));
    }
}

/// The closure holds its seeds.
pub proof fn lemma_closure_holds_seeds(seeds: Set<usize>, links: Seq<Link>)
    ensures
        seeds.subset_of(closure(seeds, links)),
{
}

/// The closure holds the target of every accepted link that starts in it.
pub proof fn lemma_closure_is_closed(seeds: Set<usize>, links: Seq<Link>)
    ensures
        closed_under(links, closure(seeds, links)),
{
}

/// The closure lies within every set that holds the seeds and is closed.
pub proof fn lemma_closure_is_least(seeds: Set<usize>, links: Seq<Link>, s: Set<usize>)
    requires
        admits(seeds, links, s),
    ensures
        closure(seeds, links).subset_of(s),
{
}

/// Taking the closure again changes nothing: the closure of a closure, under
/// the same links, is that closure.
pub proof fn lemma_closure_is_fixed_point(seeds: Set<usize>, links: Seq<Link>)
    ensures
        closure(closure(seeds, links), links) == closure(seeds, links),
{
    let c = closure(seeds, links);
    lemma_closure_is_closed(seeds, links);
    lemma_closure_is_least(c, links, c);
    lemma_closure_holds_seeds(c, links);
}

/// Every package of the closure is there for a reason: it is a seed, or some
/// accepted link leads to it from another package of the closure. A package
/// that only rejected links lead to is therefore never pulled in.
pub proof fn lemma_closure_member_has_cause(seeds: Set<usize>, links: Seq<Link>, v: usize)
    requires
        closure(seeds, links).contains(v),
    ensures
        seeds.contains(v) || exists|i: int|
            0 <= i < links.len() && (#[trigger] links[i]).accepted && links[i].to == v
                && links[i].from != v && closure(seeds, links).contains(links[i].from),
{
    let c = closure(seeds, links);
    if !seeds.contains(v) && !(exists|i: int|
        0 <= i < links.len() && (#[trigger] links[i]).accepted && links[i].to == v && links[i].from
            != v && c.contains(links[i].from)) {
        let rest = c.remove(v);
        lemma_closure_holds_seeds(seeds, links);
        lemma_closure_is_closed(seeds, links);
        assert(admits(seeds, links, rest));
    }
}

/// Rejecting links can only shrink the closure: where two lists of links
/// join the same packages and the second accepts no link that the first
/// rejects, the closure under the second lies within that under the first.
pub proof fn lemma_closure_grows_with_links(seeds: Set<usize>, links: Seq<Link>, fewer: Seq<Link>)
    requires
        fewer.len() == links.len(),
        forall|i: int|
            0 <= i < links.len() ==> (#[trigger] fewer[i]).from == links[i].from && fewer[i].to
                == links[i].to && (fewer[i].accepted ==> links[i].accepted),
    ensures
        closure(seeds, fewer).subset_of(closure(seeds, links)),
{
    let c = closure(seeds, links);
    lemma_closure_holds_seeds(seeds, links);
    lemma_closure_is_closed(seeds, links);
    lemma_closure_is_least(seeds, fewer, c);
}

/// Computes the closure of `seeds` under the accepted links of a graph of
/// `node_count` packages, as a membership table over the package positions.
///
/// The table starts as the seeds. Each pass follows the accepted links that
/// leave the packages added by the pass before, and adds a target only when it
/// is not yet in the table; the passes end when one adds nothing.
pub fn platform_closure(node_count: usize, links: &Vec<Link>, seeds: &Vec<usize>) -> (valid: Vec<
    bool,
>)
    requires
        links_within(links@, node_count as int),
        seeds_within(seeds@, node_count as int),
    ensures
        valid@.len() == node_count,
        marked(valid@) == closure(seed_set(seeds@), links@),
{
    let ghost goal = closure(seed_set(seeds@), links@);
    proof {
        lemma_closure_holds_seeds(seed_set(seeds@), links@);
        lemma_closure_is_closed(seed_set(seeds@), links@);
    }
    let mut valid: Vec<bool> = Vec::new();
    let mut n: usize = 0;
    while n < node_count
        invariant
            n <= node_count,
            valid@.len() == n,
            forall|v: int| 0 <= v < n ==> !valid@[v],
        decreases node_count - n,
    {
        valid.push(false);
        n = n + 1;
    }
    let mut frontier: Vec<usize> = Vec::new();
    let mut k: usize = 0;
    while k < seeds.len()
        invariant
            k <= seeds.len(),
            valid@.len() == node_count,
            seeds_within(seeds@, node_count as int),
            seed_set(seeds@).subset_of(goal),
            marked(valid@).subset_of(goal),
            forall|j: int| 0 <= j < k ==> valid@[(#[trigger] seeds@[j]) as int],
            forall|j: int|
                0 <= j < frontier@.len() ==> (#[trigger] frontier@[j]) < node_count
                    && valid@[frontier@[j] as int],
            forall|v: int|
                0 <= v < node_count && valid@[v] ==> exists|j: int|
                    0 <= j < frontier@.len() && frontier@[j] == v,
        decreases seeds.len() - k,
    {
        let s = seeds[k];
        if !valid[s] {
            let ghost before = frontier@;
            valid.set(s, true);
            frontier.push(s);
            assert forall|v: int| 0 <= v < node_count && valid@[v] implies exists|j: int|
                0 <= j < frontier@.len() && frontier@[j] == v by {
                if v == s {
                    assert(frontier@[before.len() as int] == v);
                } else {
                    let j = choose|j: int| 0 <= j < before.len() && before[j] == v;
                    assert(frontier@[j] == v);
                }
            }
        }
        k = k + 1;
    }
    while frontier.len() > 0
        invariant
            valid@.len() == node_count,
            links_within(links@, node_count as int),
            closed_under(links@, goal),
            marked(valid@).subset_of(goal),
            seeds_within(seeds@, node_count as int),
            forall|j: int| 0 <= j < seeds@.len() ==> valid@[(#[trigger] seeds@[j]) as int],
            forall|j: int|
                0 <= j < frontier@.len() ==> (#[trigger] frontier@[j]) < node_count
                    && valid@[frontier@[j] as int],
            forall|i: int|
                0 <= i < links@.len() && (#[trigger] links@[i]).accepted
                    && valid@[links@[i].from as int]
                    && !valid@[links@[i].to as int] ==> exists|j: int|
                    0 <= j < frontier@.len() && frontier@[j] == links@[i].from,
        decreases unmarked_count(valid@), frontier@.len(),
    {
        let ghost at_start = valid@;
        let mut next: Vec<usize> = Vec::new();
        let mut k: usize = 0;
        while k < frontier.len()
            invariant
                k <= frontier.len(),
                valid@.len() == node_count,
                links_within(links@, node_count as int),
                closed_under(links@, goal),
                marked(valid@).subset_of(goal),
                unmarked_count(valid@) + next@.len() == unmarked_count(at_start),
                seeds_within(seeds@, node_count as int),
                forall|j: int| 0 <= j < seeds@.len() ==> valid@[(#[trigger] seeds@[j]) as int],
                forall|j: int|
                    0 <= j < frontier@.len() ==> (#[trigger] frontier@[j]) < node_count
                        && valid@[frontier@[j] as int],
                forall|j: int|
                    0 <= j < next@.len() ==> (#[trigger] next@[j]) < node_count
                        && valid@[next@[j] as int],
                forall|i: int|
                    0 <= i < links@.len() && (#[trigger] links@[i]).accepted
                        && valid@[links@[i].from as int]
                        && !valid@[links@[i].to as int] ==> (exists|j: int|
                        k <= j < frontier@.len() && frontier@[j] == links@[i].from) || (exists|
                        j: int,
                    | 0 <= j < next@.len() && next@[j] == links@[i].from),
            decreases frontier.len() - k,
        {
            let u = frontier[k];
            let mut i: usize = 0;
            while i < links.len()
                invariant
                    i <= links.len(),
                    k < frontier.len(),
                    u == frontier@[k as int],
                    valid@.len() == node_count,
                    links_within(links@, node_count as int),
                    closed_under(links@, goal),
                    marked(valid@).subset_of(goal),
                    unmarked_count(valid@) + next@.len() == unmarked_count(at_start),
                    seeds_within(seeds@, node_count as int),
                    forall|j: int| 0 <= j < seeds@.len() ==> valid@[(#[trigger] seeds@[j]) as int],
                    forall|j: int|
                        0 <= j < frontier@.len() ==> (#[trigger] frontier@[j]) < node_count
                            && valid@[frontier@[j] as int],
                    forall|j: int|
                        0 <= j < next@.len() ==> (#[trigger] next@[j]) < node_count
                            && valid@[next@[j] as int],
                    forall|h: int|
                        0 <= h < i && (#[trigger] links@[h]).accepted && links@[h].from == u
                            ==> valid@[links@[h].to as int],
                    forall|h: int|
                        0 <= h < links@.len() && (#[trigger] links@[h]).accepted
                            && valid@[links@[h].from as int] && !valid@[links@[h].to as int] ==> (
                        exists|j: int| k <= j < frontier@.len() && frontier@[j] == links@[h].from)
                            || (exists|j: int|
                            0 <= j < next@.len() && next@[j] == links@[h].from),
                decreases links.len() - i,
            {
                let link = links[i];
                if link.accepted && link.from == u && !valid[link.to] {
                    let ghost table = valid@;
                    let ghost queued = next@;
                    proof {
                        lemma_mark_lowers_count(table, link.to as int);
                    }
                    valid.set(link.to, true);
                    next.push(link.to);
                    assert forall|h: int|
                        0 <= h < links@.len() && (#[trigger] links@[h]).accepted
                            && valid@[links@[h].from as int]
                            && !valid@[links@[h].to as int] implies (exists|j: int|
                        k <= j < frontier@.len() && frontier@[j] == links@[h].from) || (exists|
                        j: int,
                    | 0 <= j < next@.len() && next@[j] == links@[h].from) by {
                        if links@[h].from == link.to {
                            assert(next@[queued.len() as int] == links@[h].from);
                        } else {
                            if exists|j: int|
                                0 <= j < queued.len() && queued[j] == links@[h].from {
                                let j = choose|j: int|
                                    0 <= j < queued.len() && queued[j] == links@[h].from;
                                assert(next@[j] == links@[h].from);
                            }
                        }
                    }
                }
                i = i + 1;
            }
            k = k + 1;
        }
        frontier = next;
    }
    proof {
        let found = marked(valid@);
        lemma_closure_is_least(seed_set(seeds@), links@, found);
    }
    valid
}

} // verus!

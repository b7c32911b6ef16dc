//! From a resolved dependency graph to the table of names: the closure for
//! the target platform, the removal of excluded packages, and the naming.

use crate::closure::{closure, platform_closure, seed_set, seeds_within};
use crate::disambiguate::{
    lemma_table_holds_records, name_packages, name_table, record_of, records_differ,
};
use crate::exclusion::{Exclusions, Modifications};
use crate::naming::{
    all_differ, lemma_sorted_is_in_order, lemma_sorted_is_permutation, package_views,
    same_release, sorted_packages, PackageId, PackageView,
};
use crate::platform::{evaluate_links, links_of, DependencyEdge, PlatformView, TargetPlatform};
use crate::records::NameTable;
use vstd::prelude::*;
use vstd::seq_lib::*;

verus! {

/// A resolved dependency graph: the packages, and the dependency links
/// between them, each link by the positions of its two packages.
#[derive(Debug)]
pub struct ResolvedGraph {
    pub packages: Vec<PackageId>,
    pub edges: Vec<DependencyEdge>,
}

/// What is wrong with a graph or with the seeds given for it.
#[derive(Clone, Copy, Debug, PartialEq, Eq, Structural)]
pub enum GraphError {
    /// The edge at this position names a package that the graph has not.
    EdgeOutOfRange(usize),
    /// The seed at this position names a package that the graph has not.
    SeedOutOfRange(usize),
}

/// Whether every edge joins two packages among the first `n`.
pub open spec fn edges_within(edges: Seq<DependencyEdge>, n: int) -> bool {
    forall|i: int| 0 <= i < edges.len() ==> (#[trigger] edges[i]).from < n && edges[i].to < n
}

/// The packages of a graph that are valid for the target platform: the
/// closure of the seeds under the links that apply to the target.
pub open spec fn platform_valid(
    edges: Seq<DependencyEdge>,
    seeds: Seq<usize>,
    target: PlatformView,
) -> Set<usize> {
    closure(seed_set(seeds), links_of(edges, target))
}

/// The packages among the first `n` that are kept: those that are valid
/// and whose name no rule excludes, in the order of the graph.
pub open spec fn kept(
    packages: Seq<PackageView>,
    valid: Set<usize>,
    rules: Exclusions,
    n: int,
) -> Seq<PackageView>
    decreases n,
{
    if n <= 0 {
        Seq::<PackageView>::empty()
    } else {
        let front = kept(packages, valid, rules, n - 1);
        if valid.contains((n - 1) as usize) && !rules.excludes(packages[n - 1].name) {
            front.push(packages[n - 1])
        } else {
            front
        }
    }
}

/// Each package that is kept is a valid package of the graph whose name no
/// rule excludes.
pub proof fn lemma_kept_are_valid(
    packages: Seq<PackageView>,
    valid: Set<usize>,
    rules: Exclusions,
    n: int,
    j: int,
)
    requires
        0 <= n <= packages.len(),
        n <= usize::MAX,
        0 <= j < kept(packages, valid, rules, n).len(),
    ensures
        !rules.excludes(kept(packages, valid, rules, n)[j].name),
        exists|i: int|
            0 <= i < n && valid.contains(i as usize) && #[trigger] packages[i] == kept(
                packages,
                valid,
                rules,
                n,
            )[j],
    decreases n,
{
    let front = kept(packages, valid, rules, n - 1);
    if j < front.len() {
        lemma_kept_are_valid(packages, valid, rules, n - 1, j);
    }
}

/// Where a graph holds no version of a package twice, neither do the
/// packages that are kept.
pub proof fn lemma_kept_differ(
    packages: Seq<PackageView>,
    valid: Set<usize>,
    rules: Exclusions,
    n: int,
)
    requires
        0 <= n <= packages.len(),
        n <= usize::MAX,
        all_differ(packages),
    ensures
        all_differ(kept(packages, valid, rules, n)),
    decreases n,
{
    if n > 0 {
        let front = kept(packages, valid, rules, n - 1);
        let chosen = kept(packages, valid, rules, n);
        lemma_kept_differ(packages, valid, rules, n - 1);
        assert forall|i: int, j: int| 0 <= i < j < chosen.len() implies !same_release(
            #[trigger] chosen[i],
            #[trigger] chosen[j],
        ) by {
            if j < front.len() {
                assert(!same_release(front[i], front[j]));
            } else {
                lemma_kept_are_valid(packages, valid, rules, n - 1, i);
                let m = choose|m: int|
                    0 <= m < n - 1 && valid.contains(m as usize) && #[trigger] packages[m]
                        == front[i];
                assert(!same_release(packages[m], packages[n - 1]));
            }
        }
    }
}

/// No excluded name gets into the table of names, however it was reached:
/// each record of the table is that of a package of the graph which is valid
/// for the platform and whose name no rule excludes.
pub proof fn lemma_excluded_names_stay_out(
    packages: Seq<PackageView>,
    valid: Set<usize>,
    rules: Exclusions,
    id: Seq<char>,
)
    requires
        packages.len() <= usize::MAX,
        name_table(
            sorted_packages(kept(packages, valid, rules, packages.len() as int)),
            kept(packages, valid, rules, packages.len() as int).len() as int,
        ).dom().contains(id),
    ensures
        ({
            let chosen = kept(packages, valid, rules, packages.len() as int);
            let table = name_table(sorted_packages(chosen), chosen.len() as int);
            &&& !rules.excludes(table[id].name)
            &&& exists|i: int|
                0 <= i < packages.len() && valid.contains(i as usize) && (#[trigger] packages[i]).name
                    == table[id].name
        }),
{
    broadcast use group_to_multiset_ensures;

    let chosen = kept(packages, valid, rules, packages.len() as int);
    let s = sorted_packages(chosen);
    let table = name_table(s, chosen.len() as int);
    lemma_sorted_is_in_order(chosen);
    lemma_sorted_is_permutation(chosen);
    lemma_table_holds_records(s, chosen.len() as int, id);
    let k = choose|k: int| 0 <= k < chosen.len() && table[id] == #[trigger] record_of(s, k);
    assert(chosen.to_multiset().count(s[k]) > 0);
    let j = choose|j: int| 0 <= j < chosen.len() && chosen[j] == s[k];
    lemma_kept_are_valid(packages, valid, rules, packages.len() as int, j);
}

/// Checks that the edges and the seeds name packages of the graph. The first
/// edge that does not is reported, else the first seed that does not.
pub fn check_graph(graph: &ResolvedGraph, seeds: &Vec<usize>) -> (checked: Result<(), GraphError>)
    ensures
        match checked {
            Ok(()) => edges_within(graph.edges@, graph.packages@.len() as int) && seeds_within(
                seeds@,
                graph.packages@.len() as int,
            ),
            Err(GraphError::EdgeOutOfRange(i)) => {
                &&& i < graph.edges@.len()
                &&& !(graph.edges@[i as int].from < graph.packages@.len() && graph.edges@[i as int].to
                    < graph.packages@.len())
                &&& edges_within(graph.edges@.subrange(0, i as int), graph.packages@.len() as int)
            },
            Err(GraphError::SeedOutOfRange(k)) => {
                &&& edges_within(graph.edges@, graph.packages@.len() as int)
                &&& k < seeds@.len()
                &&& seeds@[k as int] >= graph.packages@.len()
                &&& seeds_within(seeds@.subrange(0, k as int), graph.packages@.len() as int)
            },
        },
{
    let n = graph.packages.len();
    let mut i: usize = 0;
    while i < graph.edges.len()
        invariant
            i <= graph.edges@.len(),
            n == graph.packages@.len(),
            forall|j: int|
                0 <= j < i ==> (#[trigger] graph.edges@[j]).from < n && graph.edges@[j].to < n,
        decreases graph.edges@.len() - i,
    {
        if graph.edges[i].from >= n || graph.edges[i].to >= n {
            return Err(GraphError::EdgeOutOfRange(i));
        }
        i = i + 1;
    }
    let mut k: usize = 0;
    while k < seeds.len()
        invariant
            k <= seeds@.len(),
            n == graph.packages@.len(),
            edges_within(graph.edges@, n as int),
            forall|j: int| 0 <= j < k ==> (#[trigger] seeds@[j]) < n,
        decreases seeds@.len() - k,
    {
        if seeds[k] >= n {
            return Err(GraphError::SeedOutOfRange(k));
        }
        k = k + 1;
    }
    Ok(())
}

/// Prunes a resolved graph: keeps the packages that are reached from the
/// seeds along links that apply to the target platform, and of those the ones
/// whose name no rule excludes. The exclusions come last, so that a package
/// pulled in only as a dependency is removed too.
pub fn select_packages(
    graph: &ResolvedGraph,
    seeds: &Vec<usize>,
    target: &TargetPlatform,
    modifications: &Modifications,
) -> (selected: Result<Vec<PackageId>, GraphError>)
    ensures
        selected is Ok <==> edges_within(graph.edges@, graph.packages@.len() as int)
            && seeds_within(seeds@, graph.packages@.len() as int),
        match selected {
            Ok(chosen) => package_views(chosen@) == kept(
                package_views(graph.packages@),
                platform_valid(graph.edges@, seeds@, target@),
                modifications.exclusions,
                graph.packages@.len() as int,
            ),
            Err(GraphError::EdgeOutOfRange(i)) => i < graph.edges@.len() && !(
            graph.edges@[i as int].from < graph.packages@.len() && graph.edges@[i as int].to
                < graph.packages@.len()),
            Err(GraphError::SeedOutOfRange(k)) => k < seeds@.len() && seeds@[k as int]
                >= graph.packages@.len(),
        },
{
    match check_graph(graph, seeds) {
        Err(error) => {
            return Err(error);
        },
        Ok(()) => {},
    }
    let links = evaluate_links(&graph.edges, target);
    let valid = platform_closure(graph.packages.len(), &links, seeds);
    let ghost all = package_views(graph.packages@);
    let ghost reached = platform_valid(graph.edges@, seeds@, target@);
    let mut chosen: Vec<PackageId> = Vec::new();
    let mut n: usize = 0;
    while n < graph.packages.len()
        invariant
            n <= graph.packages@.len(),
            valid@.len() == graph.packages@.len(),
            all == package_views(graph.packages@),
            reached == crate::closure::marked(valid@),
            package_views(chosen@) == kept(all, reached, modifications.exclusions, n as int),
        decreases graph.packages@.len() - n,
    {
        let package = &graph.packages[n];
        if valid[n] && !modifications.excluded(package.name.as_str()) {
            chosen.push(package.duplicate());
        }
        n = n + 1;
    }
    Ok(chosen)
}

/// Builds the table of names from a resolved graph: prunes the graph with
/// [`select_packages`], sorts what is left and gives each package its exposed
/// identifier. No record of the table is of an excluded name, and where the
/// graph holds no version of a package twice, the table holds at most one
/// record for each name and version.
pub fn package_infos(
    graph: &ResolvedGraph,
    seeds: &Vec<usize>,
    target: &TargetPlatform,
    modifications: &Modifications,
) -> (infos: Result<NameTable, GraphError>)
    ensures
        infos is Ok <==> edges_within(graph.edges@, graph.packages@.len() as int) && seeds_within(
            seeds@,
            graph.packages@.len() as int,
        ),
        match infos {
            Ok(table) => {
                let chosen = kept(
                    package_views(graph.packages@),
                    platform_valid(graph.edges@, seeds@, target@),
                    modifications.exclusions,
                    graph.packages@.len() as int,
                );
                &&& table.wf()
                &&& table@ == name_table(sorted_packages(chosen), chosen.len() as int)
                &&& forall|id: Seq<char>| #[trigger]
                    table@.dom().contains(id) ==> !modifications.exclusions.excludes(table@[id].name)
                &&& all_differ(package_views(graph.packages@)) ==> records_differ(table@)
            },
            Err(GraphError::EdgeOutOfRange(i)) => i < graph.edges@.len() && !(
            graph.edges@[i as int].from < graph.packages@.len() && graph.edges@[i as int].to
                < graph.packages@.len()),
            Err(GraphError::SeedOutOfRange(k)) => k < seeds@.len() && seeds@[k as int]
                >= graph.packages@.len(),
        },
{
    match select_packages(graph, seeds, target, modifications) {
        Err(error) => Err(error),
        Ok(chosen) => {
            let table = name_packages(&chosen);
            let total = graph.packages.len();
            proof {
                if all_differ(package_views(graph.packages@)) {
                    lemma_kept_differ(
                        package_views(graph.packages@),
                        platform_valid(graph.edges@, seeds@, target@),
                        modifications.exclusions,
                        total as int,
                    );
                }
                let all = package_views(graph.packages@);
                let reached = platform_valid(graph.edges@, seeds@, target@);
                assert forall|id: Seq<char>| #[trigger]
                    table@.dom().contains(id) implies !modifications.exclusions.excludes(
                    table@[id].name,
                ) by {
                    lemma_excluded_names_stay_out(all, reached, modifications.exclusions, id);
                }
            }
            Ok(table)
        },
    }
}

} // verus!

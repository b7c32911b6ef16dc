//! Platform predicates: whether a dependency link applies to the one target
//! platform that a snapshot is built for.

use crate::closure::Link;
use cargo_platform::{Cfg, Platform};
use std::str::FromStr;
use vstd::prelude::*;

verus! {

/// One configuration value of the target platform, as the compiler reports
/// it: a bare name such as `unix`, or a key with a value such as
/// `target_os = "linux"`.
#[derive(Debug)]
pub enum TargetCfg {
    Name(String),
    KeyPair(String, String),
}

/// The mathematical value of a [`TargetCfg`].
pub enum CfgView {
    Name(Seq<char>),
    KeyPair(Seq<char>, Seq<char>),
}

impl View for TargetCfg {
    type V = CfgView;

    open spec fn view(&self) -> CfgView {
        match self {
            TargetCfg::Name(name) => CfgView::Name(name@),
            TargetCfg::KeyPair(key, value) => CfgView::KeyPair(key@, value@),
        }
    }
}

/// The target platform: its triple and its configuration values.
#[derive(Debug)]
pub struct TargetPlatform {
    pub triple: String,
    pub cfgs: Vec<TargetCfg>,
}

/// The mathematical value of a [`TargetPlatform`].
pub struct PlatformView {
    pub triple: Seq<char>,
    pub cfgs: Seq<CfgView>,
}

impl View for TargetPlatform {
    type V = PlatformView;

    open spec fn view(&self) -> PlatformView {
        PlatformView {
            triple: self.triple@,
            cfgs: Seq::new(self.cfgs@.len(), |i: int| self.cfgs@[i]@),
        }
    }
}

/// A dependency link as the resolver reports it: the positions of its two
/// packages in the graph's package list, and the platform predicate that the
/// dependency was declared under, if it has one.
#[derive(Debug)]
pub struct DependencyEdge {
    pub from: usize,
    pub to: usize,
    pub platform: Option<String>,
}

/// What evaluating a platform predicate against a target gives: `None` where
/// the predicate cannot be parsed, else whether it matches the target.
pub uninterp spec fn platform_verdict(
    predicate: Seq<char>,
    triple: Seq<char>,
    cfgs: Seq<CfgView>,
) -> Option<bool>;

/// Parses `predicate` with `cargo_platform::Platform::from_str` and, where
/// that succeeds, evaluates it with `Platform::matches` against the triple and
/// the configuration values of `target`. The result is not proved here: it is
/// what those two functions give, under the name [`platform_verdict`].
#[verifier::external_body]
fn evaluate_predicate(predicate: &str, target: &TargetPlatform) -> (verdict: Option<bool>)
    ensures
        verdict == platform_verdict(predicate@, target@.triple, target@.cfgs),
{
    let mut cfgs: Vec<Cfg> = Vec::new();
    for cfg in target.cfgs.iter() {
        cfgs.push(
            match cfg {
                TargetCfg::Name(name) => Cfg::Name(name.clone()),
                TargetCfg::KeyPair(key, value) => Cfg::KeyPair(key.clone(), value.clone()),
            },
        );
    }
    match Platform::from_str(predicate) {
        Ok(platform) => Some(platform.matches(target.triple.as_str(), &cfgs)),
        Err(_) => None,
    }
}

/// Whether a verdict lets a link through: only a predicate that was parsed
/// and matches does. One that cannot be parsed counts as not matching.
pub open spec fn verdict_accepts(verdict: Option<bool>) -> bool {
    verdict == Some(true)
}

/// Decides from the verdict on a link's predicate whether the link applies.
pub fn accepts(verdict: Option<bool>) -> (accepted: bool)
    ensures
        accepted == verdict_accepts(verdict),
{
    match verdict {
        Some(matched) => matched,
        None => false,
    }
}

/// Whether a dependency link applies to the target: one without a predicate
/// applies to every platform, one with a predicate where the predicate is
/// accepted for the target.
pub open spec fn edge_applies(edge: DependencyEdge, target: PlatformView) -> bool {
    match edge.platform {
        None => true,
        Some(predicate) => verdict_accepts(
            platform_verdict(predicate@, target.triple, target.cfgs),
        ),
    }
}

/// The links of a list of edges, each with its verdict for the target.
pub open spec fn links_of(edges: Seq<DependencyEdge>, target: PlatformView) -> Seq<Link> {
    Seq::new(
        edges.len(),
        |i: int|
            Link {
                from: edges[i].from,
                to: edges[i].to,
                accepted: edge_applies(edges[i], target),
            },
    )
}

/// Decides whether one dependency link applies to the target platform.
pub fn applies_to(edge: &DependencyEdge, target: &TargetPlatform) -> (applies: bool)
    ensures
        applies == edge_applies(*edge, target@),
{
    match &edge.platform {
        None => true,
        Some(predicate) => accepts(evaluate_predicate(predicate.as_str(), target)),
    }
}

/// Evaluates the predicate of every edge against the target platform.
pub fn evaluate_links(edges: &Vec<DependencyEdge>, target: &TargetPlatform) -> (links: Vec<Link>)
    ensures
        links@ == links_of(edges@, target@),
{
    let mut links: Vec<Link> = Vec::new();
    let mut i: usize = 0;
    while i < edges.len()
        invariant
            i <= edges.len(),
            links@.len() == i,
            forall|j: int| 0 <= j < i ==> links@[j] == links_of(edges@, target@)[j],
        decreases edges.len() - i,
    {
        let edge = &edges[i];
        let accepted = applies_to(edge, target);
        links.push(Link { from: edge.from, to: edge.to, accepted });
        i = i + 1;
    }
    links
}

} // verus!

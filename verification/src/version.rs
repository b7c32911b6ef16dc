//! Package versions and the order in which they are preferred.

use crate::text::{decimal, push_decimal, Precedence};
use vstd::prelude::*;

verus! {

/// A semantic version: three numbers, the pre-release identifiers (empty for
/// a release) and the build metadata (empty where there is none).
#[derive(Debug)]
pub struct Version {
    pub major: u64,
    pub minor: u64,
    pub patch: u64,
    pub pre: String,
    pub build: String,
}

/// The mathematical value of a [`Version`].
pub struct VersionView {
    pub major: nat,
    pub minor: nat,
    pub patch: nat,
    pub pre: Seq<char>,
    pub build: Seq<char>,
}

impl View for Version {
    type V = VersionView;

    open spec fn view(&self) -> VersionView {
        VersionView {
            major: self.major as nat,
            minor: self.minor as nat,
            patch: self.patch as nat,
            pre: self.pre@,
            build: self.build@,
        }
    }
}

impl VersionView {
    /// Whether the version is a release, that is, has no pre-release part.
    pub open spec fn is_release(self) -> bool {
        self.pre.len() == 0
    }
}

/// The values of a list of versions.
pub open spec fn version_views(versions: Seq<Version>) -> Seq<VersionView> {
    Seq::new(versions.len(), |i: int| versions[i]@)
}

/// How two lists of pre-release identifiers compare, as `semver` orders them:
/// `None` where one of the two texts is no list of pre-release identifiers.
pub uninterp spec fn prerelease_precedence(a: Seq<char>, b: Seq<char>) -> Option<Precedence>;

/// How two pieces of build metadata compare, as `semver` orders them: `None`
/// where one of the two texts is no build metadata.
pub uninterp spec fn build_precedence(a: Seq<char>, b: Seq<char>) -> Option<Precedence>;

/// Reads both texts with `semver::Prerelease::new` and compares what was read
/// with `Prerelease::cmp`. Nothing is proved of the result: it is what those
/// functions give, under the name [`prerelease_precedence`], and `None` where
/// one of the texts was refused.
#[verifier::external_body]
fn compare_prerelease(a: &str, b: &str) -> (order: Option<Precedence>)
    ensures
        order == prerelease_precedence(a@, b@),
{
    match (semver::Prerelease::new(a), semver::Prerelease::new(b)) {
        (Ok(a), Ok(b)) => Some(
            match a.cmp(&b) {
                std::cmp::Ordering::Less => Precedence::Lower,
                std::cmp::Ordering::Equal => Precedence::Equal,
                std::cmp::Ordering::Greater => Precedence::Higher,
            },
        ),
        _ => None,
    }
}

/// Reads both texts with `semver::BuildMetadata::new` and compares what was
/// read with `BuildMetadata::cmp`. Nothing is proved of the result: it is what
/// those functions give, under the name [`build_precedence`], and `None` where
/// one of the texts was refused.
#[verifier::external_body]
fn compare_build(a: &str, b: &str) -> (order: Option<Precedence>)
    ensures
        order == build_precedence(a@, b@),
{
    match (semver::BuildMetadata::new(a), semver::BuildMetadata::new(b)) {
        (Ok(a), Ok(b)) => Some(
            match a.cmp(&b) {
                std::cmp::Ordering::Less => Precedence::Lower,
                std::cmp::Ordering::Equal => Precedence::Equal,
                std::cmp::Ordering::Greater => Precedence::Higher,
            },
        ),
        _ => None,
    }
}

/// How two versions compare by their three numbers alone: by the major
/// number, then the minor number, then the patch number.
pub open spec fn triple_precedence(a: VersionView, b: VersionView) -> Precedence {
    if a.major != b.major {
        if a.major < b.major {
            Precedence::Lower
        } else {
            Precedence::Higher
        }
    } else if a.minor != b.minor {
        if a.minor < b.minor {
            Precedence::Lower
        } else {
            Precedence::Higher
        }
    } else if a.patch != b.patch {
        if a.patch < b.patch {
            Precedence::Lower
        } else {
            Precedence::Higher
        }
    } else {
        Precedence::Equal
    }
}

/// What the order given was, or a tie where there was none.
pub open spec fn or_tie(order: Option<Precedence>) -> Precedence {
    match order {
        Some(order) => order,
        None => Precedence::Equal,
    }
}

/// How two versions with the same three numbers compare. A release is above
/// a pre-release. Two pre-releases go by their identifiers, and where those
/// tie, as two releases do, by the build metadata. Where an order is missing,
/// because a text was refused, that part ties.
pub open spec fn tie_precedence(
    a_is_release: bool,
    b_is_release: bool,
    by_identifiers: Option<Precedence>,
    by_build: Option<Precedence>,
) -> Precedence {
    if a_is_release && !b_is_release {
        Precedence::Higher
    } else if !a_is_release && b_is_release {
        Precedence::Lower
    } else if !a_is_release && or_tie(by_identifiers) != Precedence::Equal {
        or_tie(by_identifiers)
    } else {
        or_tie(by_build)
    }
}

/// How two versions compare: by their three numbers, and where those are the
/// same as [`tie_precedence`] says.
pub open spec fn version_precedence(a: VersionView, b: VersionView) -> Precedence {
    if triple_precedence(a, b) != Precedence::Equal {
        triple_precedence(a, b)
    } else {
        tie_precedence(
            a.is_release(),
            b.is_release(),
            prerelease_precedence(a.pre, b.pre),
            build_precedence(a.build, b.build),
        )
    }
}

/// Whether `a` is above `b` by the rule that needs no look at identifiers:
/// its three numbers are higher, or they are the same and `a` is a release
/// while `b` is a pre-release.
pub open spec fn outranks(a: VersionView, b: VersionView) -> bool {
    triple_precedence(a, b) == Precedence::Higher || (triple_precedence(a, b) == Precedence::Equal
        && a.is_release() && !b.is_release())
}

/// The text of a version: the three numbers with dots between them, then a
/// hyphen and the pre-release identifiers where there are any, then a plus
/// sign and the build metadata where there is any.
pub open spec fn version_text(v: VersionView) -> Seq<char> {
    decimal(v.major) + seq!['.'] + decimal(v.minor) + seq!['.'] + decimal(v.patch) + (if v.pre.len()
        > 0 {
        seq!['-'] + v.pre
    } else {
        Seq::<char>::empty()
    }) + (if v.build.len() > 0 {
        seq!['+'] + v.build
    } else {
        Seq::<char>::empty()
    })
}

/// The comparison follows the rank: a version that outranks another compares
/// higher, and one that is outranked compares lower.
pub proof fn lemma_precedence_follows_rank(a: VersionView, b: VersionView)
    ensures
        outranks(a, b) ==> version_precedence(a, b) == Precedence::Higher,
        outranks(b, a) ==> version_precedence(a, b) == Precedence::Lower,
{
}

/// Not being outranked carries over: if `b` does not outrank `a` and `c`
/// does not outrank `b`, then `c` does not outrank `a`.
pub proof fn lemma_rank_is_transitive(a: VersionView, b: VersionView, c: VersionView)
    requires
        !outranks(b, a),
        !outranks(c, b),
    ensures
        !outranks(c, a),
{
}

/// Decides how two versions with the same three numbers compare, from
/// whether each is a release and from the orders of their identifiers and of
/// their build metadata.
pub fn break_tie(
    a_is_release: bool,
    b_is_release: bool,
    by_identifiers: Option<Precedence>,
    by_build: Option<Precedence>,
) -> (order: Precedence)
    ensures
        order == tie_precedence(a_is_release, b_is_release, by_identifiers, by_build),
{
    if a_is_release && !b_is_release {
        return Precedence::Higher;
    }
    if !a_is_release && b_is_release {
        return Precedence::Lower;
    }
    if !a_is_release {
        match by_identifiers {
            Some(Precedence::Lower) => {
                return Precedence::Lower;
            },
            Some(Precedence::Higher) => {
                return Precedence::Higher;
            },
            _ => {},
        }
    }
    match by_build {
        Some(order) => order,
        None => Precedence::Equal,
    }
}

fn compare_numbers(a: u64, b: u64) -> (order: Precedence)
    ensures
        order == (if a < b {
            Precedence::Lower
        } else if a == b {
            Precedence::Equal
        } else {
            Precedence::Higher
        }),
{
    if a < b {
        Precedence::Lower
    } else if a == b {
        Precedence::Equal
    } else {
        Precedence::Higher
    }
}

impl Version {
    /// A copy of the version.
    pub fn duplicate(&self) -> (copy: Version)
        ensures
            copy@ == self@,
    {
        Version {
            major: self.major,
            minor: self.minor,
            patch: self.patch,
            pre: self.pre.clone(),
            build: self.build.clone(),
        }
    }

    /// Whether the version is a pre-release.
    pub fn is_prerelease(&self) -> (prerelease: bool)
        ensures
            prerelease == !self@.is_release(),
    {
        !self.pre.as_str().is_empty()
    }

    /// Compares the three numbers of two versions.
    pub fn compare_triple(&self, other: &Version) -> (order: Precedence)
        ensures
            order == triple_precedence(self@, other@),
    {
        let by_major = compare_numbers(self.major, other.major);
        if by_major != Precedence::Equal {
            return by_major;
        }
        let by_minor = compare_numbers(self.minor, other.minor);
        if by_minor != Precedence::Equal {
            return by_minor;
        }
        compare_numbers(self.patch, other.patch)
    }

    /// Compares two versions.
    pub fn compare(&self, other: &Version) -> (order: Precedence)
        ensures
            order == version_precedence(self@, other@),
    {
        let by_triple = self.compare_triple(other);
        if by_triple != Precedence::Equal {
            return by_triple;
        }
        let by_identifiers = compare_prerelease(self.pre.as_str(), other.pre.as_str());
        let by_build = compare_build(self.build.as_str(), other.build.as_str());
        break_tie(!self.is_prerelease(), !other.is_prerelease(), by_identifiers, by_build)
    }

    /// Writes the version out.
    pub fn to_text(&self) -> (text: String)
        ensures
            text@ == version_text(self@),
    {
        proof {
            reveal_strlit(".");
            reveal_strlit("-");
            reveal_strlit("+");
        }
        let mut text = String::new();
        push_decimal(&mut text, self.major);
        text.append(".");
        push_decimal(&mut text, self.minor);
        text.append(".");
        push_decimal(&mut text, self.patch);
        if self.is_prerelease() {
            text.append("-");
            text.append(self.pre.as_str());
        }
        if !self.build.as_str().is_empty() {
            text.append("+");
            text.append(self.build.as_str());
        }
        text
    }
}

/// The newest release among the first `n` of a list of versions, as its
/// position: pre-releases are passed over, and of two releases that compare
/// the same the later one is taken.
pub open spec fn newest_release_of(versions: Seq<VersionView>, n: int) -> Option<int>
    decreases n,
{
    if n <= 0 {
        None
    } else {
        let best = newest_release_of(versions, n - 1);
        if !versions[n - 1].is_release() {
            best
        } else {
            match best {
                None => Some(n - 1),
                Some(b) => if version_precedence(versions[b], versions[n - 1])
                    == Precedence::Higher {
                    Some(b)
                } else {
                    Some(n - 1)
                },
            }
        }
    }
}

/// Picks the version that a request for a package resolves to: the newest
/// one that is no pre-release. There is none exactly where every version in
/// the list is a pre-release. No release in the list outranks the one picked.
pub fn newest_release(versions: &Vec<Version>) -> (pick: Option<usize>)
    ensures
        pick is None <==> forall|j: int|
            0 <= j < versions@.len() ==> !(#[trigger] versions@[j])@.is_release(),
        match pick {
            Some(i) => newest_release_of(version_views(versions@), versions@.len() as int) == Some(
                i as int,
            ) && i < versions@.len() && versions@[i as int]@.is_release() && forall|j: int|
                0 <= j < versions@.len() && (#[trigger] versions@[j])@.is_release() ==> !outranks(
                    versions@[j]@,
                    versions@[i as int]@,
                ),
            None => newest_release_of(version_views(versions@), versions@.len() as int) is None,
        },
{
    let ghost views = version_views(versions@);
    let mut pick: Option<usize> = None;
    let mut n: usize = 0;
    while n < versions.len()
        invariant
            n <= versions@.len(),
            views == version_views(versions@),
            pick is None <==> forall|j: int|
                0 <= j < n ==> !(#[trigger] versions@[j])@.is_release(),
            match pick {
                Some(i) => newest_release_of(views, n as int) == Some(i as int) && i < n
                    && versions@[i as int]@.is_release() && forall|j: int|
                    0 <= j < n && (#[trigger] versions@[j])@.is_release() ==> !outranks(
                        versions@[j]@,
                        versions@[i as int]@,
                    ),
                None => newest_release_of(views, n as int) is None,
            },
        decreases versions@.len() - n,
    {
        let candidate = &versions[n];
        if !candidate.is_prerelease() {
            match pick {
                None => {
                    pick = Some(n);
                },
                Some(best) => {
                    let order = versions[best].compare(candidate);
                    if order != Precedence::Higher {
                        proof {
                            lemma_precedence_follows_rank(versions@[best as int]@, candidate@);
                        }
                        pick = Some(n);
                    } else {
                        proof {
                            lemma_precedence_follows_rank(candidate@, versions@[best as int]@);
                        }
                    }
                },
            }
        }
        n = n + 1;
    }
    pick
}

} // verus!

//! Putting the resolved packages in order: by name, and within a name from
//! the newest version down.

use crate::text::{
    compare_names, lemma_bytes_before_is_asymmetric, lemma_bytes_before_is_total,
    lemma_bytes_before_is_transitive, lemma_encoding_is_injective, name_before, Precedence,
};
use crate::version::{
    lemma_precedence_follows_rank, lemma_rank_is_transitive, outranks, version_precedence,
    version_text, Version, VersionView,
};
use vstd::prelude::*;
use vstd::seq_lib::*;
use vstd::utf8::*;

verus! {

/// A resolved package: a name and an exact version.
#[derive(Debug)]
pub struct PackageId {
    pub name: String,
    pub version: Version,
}

/// The mathematical value of a [`PackageId`].
pub struct PackageView {
    pub name: Seq<char>,
    pub version: VersionView,
}

impl View for PackageId {
    type V = PackageView;

    open spec fn view(&self) -> PackageView {
        PackageView { name: self.name@, version: self.version@ }
    }
}

impl PackageId {
    /// A copy of the package id.
    pub fn duplicate(&self) -> (copy: PackageId)
        ensures
            copy@ == self@,
    {
        PackageId { name: self.name.clone(), version: self.version.duplicate() }
    }
}

/// The values of a list of package ids.
pub open spec fn package_views(ids: Seq<PackageId>) -> Seq<PackageView> {
    Seq::new(ids.len(), |i: int| ids[i]@)
}

/// Whether `a` is put before `b`: its name comes first, or the names are the
/// same and its version compares higher.
pub open spec fn comes_before(a: PackageView, b: PackageView) -> bool {
    name_before(a.name, b.name) || (a.name == b.name && version_precedence(a.version, b.version)
        == Precedence::Higher)
}

/// Whether `a` has to stand before `b` whatever the identifiers of their
/// versions are: its name comes first, or the names are the same and its
/// version outranks the other.
pub open spec fn must_precede(a: PackageView, b: PackageView) -> bool {
    name_before(a.name, b.name) || (a.name == b.name && outranks(a.version, b.version))
}

/// Whether a list is in order: nothing stands behind a package that it has
/// to precede.
pub open spec fn in_order(s: Seq<PackageView>) -> bool {
    forall|i: int, j: int| 0 <= i < j < s.len() ==> !must_precede(#[trigger] s[j], #[trigger] s[i])
}

/// Where a package is put into a list: behind the last package that it is
/// not put before.
pub open spec fn insertion_point(s: Seq<PackageView>, x: PackageView) -> int
    decreases s.len(),
{
    if s.len() == 0 {
        0
    } else if comes_before(x, s.last()) {
        insertion_point(s.drop_last(), x)
    } else {
        s.len() as int
    }
}

/// A list of packages put in order, one package after the other: each is put
/// behind the last package that it is not put before, so that packages which
/// compare the same keep the order in which they came.
pub open spec fn sorted_packages(s: Seq<PackageView>) -> Seq<PackageView>
    decreases s.len(),
{
    if s.len() == 0 {
        Seq::<PackageView>::empty()
    } else {
        let front = sorted_packages(s.drop_last());
        front.insert(insertion_point(front, s.last()), s.last())
    }
}

/// Of two different names one comes before the other.
pub proof fn lemma_names_are_comparable(a: Seq<char>, b: Seq<char>)
    requires
        a != b,
    ensures
        name_before(a, b) || name_before(b, a),
{
    if encode_utf8(a) == encode_utf8(b) {
        lemma_encoding_is_injective(a, b);
    }
    lemma_bytes_before_is_total(encode_utf8(a), encode_utf8(b));
}

/// A package that is put before another need not stand behind it.
pub proof fn lemma_put_before_is_allowed(a: PackageView, b: PackageView)
    requires
        comes_before(a, b),
    ensures
        !must_precede(b, a),
{
    if name_before(a.name, b.name) {
        lemma_bytes_before_is_asymmetric(encode_utf8(a.name), encode_utf8(b.name));
    } else {
        if name_before(b.name, a.name) {
            lemma_bytes_before_is_asymmetric(encode_utf8(b.name), encode_utf8(a.name));
        }
        lemma_precedence_follows_rank(a.version, b.version);
    }
}

/// A package that has to precede another is put before it.
pub proof fn lemma_must_precede_is_put_before(a: PackageView, b: PackageView)
    requires
        must_precede(a, b),
    ensures
        comes_before(a, b),
{
    lemma_precedence_follows_rank(a.version, b.version);
}

/// If `a` need not precede `b` and `b` need not precede `c`, then `a` need
/// not precede `c`.
pub proof fn lemma_order_carries_over(a: PackageView, b: PackageView, c: PackageView)
    requires
        !must_precede(a, b),
        !must_precede(b, c),
    ensures
        !must_precede(a, c),
{
    if must_precede(a, c) {
        if a.name == b.name {
            if b.name == c.name {
                lemma_rank_is_transitive(c.version, b.version, a.version);
            }
        } else {
            lemma_names_are_comparable(a.name, b.name);
            if b.name != c.name {
                lemma_names_are_comparable(b.name, c.name);
                lemma_bytes_before_is_transitive(
                    encode_utf8(c.name),
                    encode_utf8(b.name),
                    encode_utf8(a.name),
                );
                if name_before(a.name, c.name) {
                    lemma_bytes_before_is_asymmetric(encode_utf8(a.name), encode_utf8(c.name));
                } else {
                    lemma_bytes_before_is_asymmetric(encode_utf8(c.name), encode_utf8(a.name));
                }
            }
        }
    }
}

/// The insertion point lies within the list; every package behind it is one
/// that the new package is put before, and the package just before it is not.
pub proof fn lemma_insertion_point(s: Seq<PackageView>, x: PackageView)
    ensures
        0 <= insertion_point(s, x) <= s.len(),
        forall|j: int| insertion_point(s, x) <= j < s.len() ==> comes_before(x, #[trigger] s[j]),
        insertion_point(s, x) > 0 ==> !comes_before(x, s[insertion_point(s, x) - 1]),
    decreases s.len(),
{
    if s.len() > 0 && comes_before(x, s.last()) {
        lemma_insertion_point(s.drop_last(), x);
        let p = insertion_point(s, x);
        assert forall|j: int| p <= j < s.len() implies comes_before(x, #[trigger] s[j]) by {
            if j < s.len() - 1 {
                assert(s.drop_last()[j] == s[j]);
            }
        }
    }
}

/// Putting a package into a list that is in order, at its insertion point,
/// gives a list that is in order.
pub proof fn lemma_insertion_keeps_order(s: Seq<PackageView>, x: PackageView)
    requires
        in_order(s),
    ensures
        in_order(s.insert(insertion_point(s, x), x)),
{
    let p = insertion_point(s, x);
    lemma_insertion_point(s, x);
    s.insert_ensures(p, x);
    let t = s.insert(p, x);
    assert forall|i: int, j: int| 0 <= i < j < t.len() implies !must_precede(
        #[trigger] t[j],
        #[trigger] t[i],
    ) by {
        if j == p {
            if must_precede(x, s[p - 1]) {
                lemma_must_precede_is_put_before(x, s[p - 1]);
            }
            if i < p - 1 {
                lemma_order_carries_over(x, s[p - 1], s[i]);
            }
        } else if i == p {
            lemma_put_before_is_allowed(x, s[j - 1]);
        }
    }
}

/// A sorted list is in order: by name, and within a name from the version
/// of the highest rank down.
pub proof fn lemma_sorted_is_in_order(s: Seq<PackageView>)
    ensures
        in_order(sorted_packages(s)),
        sorted_packages(s).len() == s.len(),
    decreases s.len(),
{
    if s.len() > 0 {
        let front = sorted_packages(s.drop_last());
        lemma_sorted_is_in_order(s.drop_last());
        lemma_insertion_point(front, s.last());
        lemma_insertion_keeps_order(front, s.last());
        front.insert_ensures(insertion_point(front, s.last()), s.last());
    }
}

/// A sorted list holds the packages that were given, each as often as it was
/// given.
pub proof fn lemma_sorted_is_permutation(s: Seq<PackageView>)
    ensures
        sorted_packages(s).to_multiset() == s.to_multiset(),
    decreases s.len(),
{
    broadcast use group_to_multiset_ensures;

    if s.len() == 0 {
    } else {
        let front = sorted_packages(s.drop_last());
        let x = s.last();
        let p = insertion_point(front, x);
        lemma_sorted_is_permutation(s.drop_last());
        lemma_insertion_point(front, x);
        front.insert_ensures(p, x);
        assert(s.drop_last().push(x) =~= s);
    }
}

/// Whether two packages agree in their name and in the text of their version.
pub open spec fn same_release(a: PackageView, b: PackageView) -> bool {
    a.name == b.name && version_text(a.version) == version_text(b.version)
}

/// Whether no two packages of a list agree in name and version: the list
/// names no version of a package twice.
pub open spec fn all_differ(s: Seq<PackageView>) -> bool {
    forall|i: int, j: int|
        0 <= i < j < s.len() ==> !same_release(#[trigger] s[i], #[trigger] s[j])
}

/// Sorting a list that names no version of a package twice gives a list that
/// names none twice.
pub proof fn lemma_sorting_keeps_difference(s: Seq<PackageView>)
    requires
        all_differ(s),
    ensures
        all_differ(sorted_packages(s)),
    decreases s.len(),
{
    broadcast use group_to_multiset_ensures;

    if s.len() > 0 {
        let given = s.drop_last();
        let front = sorted_packages(given);
        let x = s.last();
        let p = insertion_point(front, x);
        assert(all_differ(given)) by {
            assert forall|i: int, j: int| 0 <= i < j < given.len() implies !same_release(
                #[trigger] given[i],
                #[trigger] given[j],
            ) by {
                assert(!same_release(s[i], s[j]));
            }
        }
        lemma_sorting_keeps_difference(given);
        lemma_sorted_is_permutation(given);
        lemma_insertion_point(front, x);
        front.insert_ensures(p, x);
        let t = front.insert(p, x);
        assert forall|k: int| 0 <= k < front.len() implies !same_release(
            #[trigger] front[k],
            x,
        ) by {
            assert(front.contains(front[k]));
            assert(given.to_multiset().count(front[k]) > 0);
            assert(given.contains(front[k]));
            let m = choose|m: int| 0 <= m < given.len() && given[m] == front[k];
            assert(!same_release(s[m], s[s.len() - 1]));
        }
        assert forall|i: int, j: int| 0 <= i < j < t.len() implies !same_release(
            #[trigger] t[i],
            #[trigger] t[j],
        ) by {
            if i == p {
                assert(t[j] == front[j - 1]);
            } else if j == p {
                assert(t[i] == front[i]);
            } else if j < p {
                assert(t[i] == front[i] && t[j] == front[j]);
            } else if i < p {
                assert(t[i] == front[i] && t[j] == front[j - 1]);
            } else {
                assert(t[i] == front[i - 1] && t[j] == front[j - 1]);
            }
        }
    }
}

/// Decides whether `a` is put before `b`.
pub fn goes_before(a: &PackageId, b: &PackageId) -> (before: bool)
    ensures
        before == comes_before(a@, b@),
{
    match compare_names(a.name.as_str(), b.name.as_str()) {
        Precedence::Lower => true,
        Precedence::Higher => false,
        Precedence::Equal => {
            proof {
                lemma_encoding_is_injective(a.name@, b.name@);
            }
            a.version.compare(&b.version) == Precedence::Higher
        },
    }
}

/// Puts the packages in order: by name, and within a name from the newest
/// version down. Packages that compare the same keep the order in which they
/// came.
pub fn sort_packages(ids: &Vec<PackageId>) -> (sorted: Vec<PackageId>)
    ensures
        package_views(sorted@) == sorted_packages(package_views(ids@)),
        sorted@.len() == ids@.len(),
        in_order(package_views(sorted@)),
        package_views(sorted@).to_multiset() == package_views(ids@).to_multiset(),
{
    let ghost given = package_views(ids@);
    let mut sorted: Vec<PackageId> = Vec::new();
    let mut i: usize = 0;
    while i < ids.len()
        invariant
            i <= ids@.len(),
            given == package_views(ids@),
            package_views(sorted@) == sorted_packages(given.subrange(0, i as int)),
        decreases ids@.len() - i,
    {
        let x = ids[i].duplicate();
        let ghost front = package_views(sorted@);
        let ghost upto = given.subrange(0, i as int + 1);
        assert(upto.drop_last() =~= given.subrange(0, i as int));
        let mut p: usize = sorted.len();
        let mut searching = true;
        assert(front.subrange(0, p as int) =~= front);
        while searching && p > 0
            invariant
                p <= sorted@.len(),
                front == package_views(sorted@),
                insertion_point(front, x@) == insertion_point(front.subrange(0, p as int), x@),
                !searching ==> p > 0 && !comes_before(x@, front[p - 1]),
            decreases p + if searching {
                1int
            } else {
                0int
            },
        {
            let ghost head = front.subrange(0, p as int);
            if goes_before(&x, &sorted[p - 1]) {
                assert(head.drop_last() =~= front.subrange(0, p - 1));
                p = p - 1;
            } else {
                searching = false;
            }
        }
        sorted.insert(p, x);
        i = i + 1;
    }
    proof {
        assert(given.subrange(0, ids@.len() as int) =~= given);
        lemma_sorted_is_in_order(given);
        lemma_sorted_is_permutation(given);
    }
    sorted
}

} // verus!

//! Exposed identifiers: the newest version of a package goes by the
//! package's name, every older version by a name made from name and version.

use crate::naming::{
    all_differ, in_order, lemma_names_are_comparable, lemma_sorted_is_in_order,
    lemma_sorted_is_permutation, lemma_sorting_keeps_difference, package_views, same_release,
    sort_packages, sorted_packages, PackageId, PackageView,
};
use crate::records::{CrateInformation, InfoView, NameTable};
use crate::text::{decimal, lemma_name_before_extension, push_decimal, same_text};
use crate::version::{outranks, version_text};
use vstd::prelude::*;
use vstd::seq_lib::*;
use vstd::utf8::*;

verus! {

/// Whether the package at `k` is the first of its name in the list.
pub open spec fn heads_group(s: Seq<PackageView>, k: int) -> bool {
    k == 0 || s[k - 1].name != s[k].name
}

/// What is put behind a name to tell an older version apart: an underscore
/// and a number, three times, for the major, minor and patch numbers.
pub open spec fn version_suffix(p: PackageView) -> Seq<char> {
    seq!['_'] + decimal(p.version.major) + seq!['_'] + decimal(p.version.minor) + seq!['_']
        + decimal(p.version.patch)
}

/// The identifier under which the package at `k` is exposed: its name where
/// it is the first of that name, else its name with the version's suffix.
pub open spec fn exposed_id(s: Seq<PackageView>, k: int) -> Seq<char> {
    if heads_group(s, k) {
        s[k].name
    } else {
        s[k].name + version_suffix(s[k])
    }
}

/// The record of the package at `k`.
pub open spec fn record_of(s: Seq<PackageView>, k: int) -> InfoView {
    InfoView { name: s[k].name, version: version_text(s[k].version), id: exposed_id(s, k) }
}

/// The table after the first `n` packages of a list: each package's record
/// is put under its identifier. Where a record of the same package name is
/// there already, as for two versions with the same three numbers, that one
/// stays; a record of another package name under that identifier gives way.
pub open spec fn name_table(s: Seq<PackageView>, n: int) -> Map<Seq<char>, InfoView>
    decreases n,
{
    if n <= 0 {
        Map::empty()
    } else {
        let table = name_table(s, n - 1);
        let record = record_of(s, n - 1);
        if table.dom().contains(record.id) && table[record.id].name == record.name {
            table
        } else {
            table.insert(record.id, record)
        }
    }
}

/// The first package of the group that the package at `m` belongs to.
pub open spec fn group_head(s: Seq<PackageView>, m: int) -> int
    decreases m,
{
    if m <= 0 || s[m - 1].name != s[m].name {
        m
    } else {
        group_head(s, m - 1)
    }
}

/// The head of a group is the first of its name, and has the name of every
/// package of the group.
pub proof fn lemma_group_head(s: Seq<PackageView>, m: int)
    requires
        0 <= m < s.len(),
    ensures
        0 <= group_head(s, m) <= m,
        heads_group(s, group_head(s, m)),
        s[group_head(s, m)].name == s[m].name,
    decreases m,
{
    if m > 0 && s[m - 1].name == s[m].name {
        lemma_group_head(s, m - 1);
    }
}

/// Every record of the table stands under its own identifier, and is the
/// record of one of the packages: no identifier is given twice.
pub proof fn lemma_table_holds_records(s: Seq<PackageView>, n: int, id: Seq<char>)
    requires
        0 <= n <= s.len(),
        name_table(s, n).dom().contains(id),
    ensures
        name_table(s, n)[id].id == id,
        exists|k: int| 0 <= k < n && name_table(s, n)[id] == #[trigger] record_of(s, k),
    decreases n,
{
    if n > 0 {
        let table = name_table(s, n - 1);
        let record = record_of(s, n - 1);
        if table.dom().contains(record.id) && table[record.id].name == record.name {
            lemma_table_holds_records(s, n - 1, id);
        } else if id == record.id {
        } else {
            lemma_table_holds_records(s, n - 1, id);
        }
    }
}

/// In a list that is in order the packages of one name stand together: no
/// package before the first of a name has that name.
pub proof fn lemma_groups_are_runs(s: Seq<PackageView>, k: int, i: int)
    requires
        in_order(s),
        0 <= i < k < s.len(),
        heads_group(s, k),
    ensures
        s[i].name != s[k].name,
{
    if s[i].name == s[k].name {
        lemma_names_are_comparable(s[k - 1].name, s[k].name);
    }
}

/// The record of the first package of a name is never displaced: once it is
/// in the table it stays there, under the bare name.
proof fn lemma_head_record_stays(s: Seq<PackageView>, k: int, n: int)
    requires
        in_order(s),
        0 <= k < n <= s.len(),
        heads_group(s, k),
    ensures
        name_table(s, n).dom().contains(s[k].name),
        name_table(s, n)[s[k].name] == record_of(s, k),
    decreases n,
{
    let name = s[k].name;
    let table = name_table(s, n - 1);
    let record = record_of(s, n - 1);
    if n == k + 1 {
        if table.dom().contains(name) {
            lemma_table_holds_records(s, k, name);
            let i = choose|i: int| 0 <= i < k && table[name] == #[trigger] record_of(s, i);
            lemma_groups_are_runs(s, k, i);
        }
    } else {
        lemma_head_record_stays(s, k, n - 1);
        if record.id == name {
            if heads_group(s, n - 1) {
                lemma_groups_are_runs(s, n - 1, k);
            } else {
                let suffix = version_suffix(s[n - 1]);
                lemma_name_before_extension(s[n - 1].name, suffix);
            }
        }
    }
}

/// In a list that is in order, the first package of each name keeps the
/// bare name as its identifier in the finished table, and no package of that
/// name outranks it.
pub proof fn lemma_head_has_bare_name(s: Seq<PackageView>, k: int)
    requires
        in_order(s),
        0 <= k < s.len(),
        heads_group(s, k),
    ensures
        name_table(s, s.len() as int).dom().contains(s[k].name),
        name_table(s, s.len() as int)[s[k].name] == record_of(s, k),
        record_of(s, k).id == s[k].name,
        forall|j: int|
            0 <= j < s.len() && (#[trigger] s[j]).name == s[k].name ==> !outranks(
                s[j].version,
                s[k].version,
            ),
{
    lemma_head_record_stays(s, k, s.len() as int);
    assert forall|j: int| 0 <= j < s.len() && (#[trigger] s[j]).name == s[k].name implies !outranks(
        s[j].version,
        s[k].version,
    ) by {
        if j < k {
            lemma_groups_are_runs(s, k, j);
        }
    }
}

/// Whatever packages are given, every name among them has exactly one record
/// with the bare name as its identifier: the record under that name, which is
/// that of a version of the name that no other version of it outranks.
pub proof fn lemma_each_name_has_its_newest(ids: Seq<PackageView>, i: int)
    requires
        0 <= i < ids.len(),
    ensures
        ({
            let table = name_table(sorted_packages(ids), ids.len() as int);
            let name = ids[i].name;
            &&& table.dom().contains(name)
            &&& table[name].id == name
            &&& table[name].name == name
            &&& exists|k: int|
                0 <= k < ids.len() && (#[trigger] ids[k]).name == name && table[name].version
                    == version_text(ids[k].version) && forall|j: int|
                    0 <= j < ids.len() && (#[trigger] ids[j]).name == name ==> !outranks(
                        ids[j].version,
                        ids[k].version,
                    )
        }),
{
    broadcast use group_to_multiset_ensures;

    let s = sorted_packages(ids);
    let name = ids[i].name;
    lemma_sorted_is_in_order(ids);
    lemma_sorted_is_permutation(ids);
    assert(s.to_multiset().count(ids[i]) > 0);
    let m = choose|m: int| 0 <= m < s.len() && s[m] == ids[i];
    lemma_group_head(s, m);
    let h = group_head(s, m);
    lemma_head_has_bare_name(s, h);
    assert(ids.to_multiset().count(s[h]) > 0);
    let k = choose|k: int| 0 <= k < ids.len() && ids[k] == s[h];
    assert forall|j: int| 0 <= j < ids.len() && (#[trigger] ids[j]).name == name implies !outranks(
        ids[j].version,
        ids[k].version,
    ) by {
        assert(s.to_multiset().count(ids[j]) > 0);
    }
}

/// Whether no two records of a table agree in name and version.
pub open spec fn records_differ(table: Map<Seq<char>, InfoView>) -> bool {
    forall|a: Seq<char>, b: Seq<char>|
        #![trigger table[a], table[b]]
        table.dom().contains(a) && table.dom().contains(b) && a != b ==> !(table[a].name
            == table[b].name && table[a].version == table[b].version)
}

/// Where a list names no version of a package twice, no two records of its
/// table agree in name and version.
pub proof fn lemma_table_records_differ(s: Seq<PackageView>, n: int)
    requires
        0 <= n <= s.len(),
        all_differ(s),
    ensures
        records_differ(name_table(s, n)),
{
    let table = name_table(s, n);
    assert forall|a: Seq<char>, b: Seq<char>|
        #![trigger table[a], table[b]]
        table.dom().contains(a) && table.dom().contains(b) && a != b implies !(table[a].name
            == table[b].name && table[a].version == table[b].version) by {
        lemma_table_holds_records(s, n, a);
        lemma_table_holds_records(s, n, b);
        let i = choose|i: int| 0 <= i < n && table[a] == #[trigger] record_of(s, i);
        let j = choose|j: int| 0 <= j < n && table[b] == #[trigger] record_of(s, j);
        if i < j {
            assert(!same_release(s[i], s[j]));
        } else if j < i {
            assert(!same_release(s[j], s[i]));
        }
    }
}

/// Whatever packages are given, as long as no version of a package is given
/// twice, the table holds at most one record for each name and version.
pub proof fn lemma_one_record_per_version(ids: Seq<PackageView>)
    requires
        all_differ(ids),
    ensures
        records_differ(name_table(sorted_packages(ids), ids.len() as int)),
{
    lemma_sorting_keeps_difference(ids);
    lemma_sorted_is_in_order(ids);
    lemma_table_records_differ(sorted_packages(ids), ids.len() as int);
}

/// Makes the identifier under which a package is exposed: its name where it
/// is the first of its name, else its name with the version's suffix.
pub fn exposed_name(package: &PackageId, first: bool) -> (id: String)
    ensures
        id@ == if first {
            package@.name
        } else {
            package@.name + version_suffix(package@)
        },
{
    let mut id = package.name.clone();
    if !first {
        proof {
            reveal_strlit("_");
        }
        id.append("_");
        push_decimal(&mut id, package.version.major);
        id.append("_");
        push_decimal(&mut id, package.version.minor);
        id.append("_");
        push_decimal(&mut id, package.version.patch);
    }
    id
}

/// Gives each package of a list that is already sorted its record, and puts
/// the records into a table by identifier. Where a record of the same package
/// name is already held under an identifier, that record stays; a record of
/// another package name gives way.
pub fn disambiguate(sorted: &Vec<PackageId>) -> (table: NameTable)
    ensures
        table.wf(),
        table@ == name_table(package_views(sorted@), sorted@.len() as int),
{
    let ghost s = package_views(sorted@);
    let mut table = NameTable::new();
    let mut k: usize = 0;
    while k < sorted.len()
        invariant
            k <= sorted@.len(),
            s == package_views(sorted@),
            table.wf(),
            table@ == name_table(s, k as int),
        decreases sorted@.len() - k,
    {
        let package = &sorted[k];
        let first = if k == 0 {
            true
        } else {
            !same_text(sorted[k - 1].name.as_str(), package.name.as_str())
        };
        let id = exposed_name(package, first);
        let record = CrateInformation {
            name: package.name.clone(),
            version: package.version.to_text(),
            id,
        };
        let held = match table.get(record.id.as_str()) {
            Some(existing) => same_text(existing.name.as_str(), record.name.as_str()),
            None => false,
        };
        if !held {
            table.insert(record);
        }
        k = k + 1;
    }
    table
}

/// Sorts the packages and names them: the table of their records by exposed
/// identifier. Where no version of a package is given twice, the table holds
/// at most one record for each name and version.
pub fn name_packages(ids: &Vec<PackageId>) -> (table: NameTable)
    ensures
        table.wf(),
        table@ == name_table(sorted_packages(package_views(ids@)), ids@.len() as int),
        all_differ(package_views(ids@)) ==> records_differ(table@),
{
    let sorted = sort_packages(ids);
    proof {
        if all_differ(package_views(ids@)) {
            lemma_one_record_per_version(package_views(ids@));
        }
    }
    disambiguate(&sorted)
}

} // verus!

use top_crates::disambiguate::{disambiguate, exposed_name, name_packages};
use top_crates::naming::{goes_before, sort_packages, PackageId};
use top_crates::version::Version;
use top_crates::{CrateInformation, NameTable};

fn package(name: &str, major: u64, minor: u64, patch: u64, pre: &str) -> PackageId {
    PackageId {
        name: name.to_string(),
        version: Version { major, minor, patch, pre: pre.to_string(), build: String::new() },
    }
}

fn listing(ids: &[PackageId]) -> Vec<(String, String)> {
    ids.iter().map(|p| (p.name.clone(), p.version.to_text())).collect()
}

fn pairs(items: &[(&str, &str)]) -> Vec<(String, String)> {
    items.iter().map(|(a, b)| (a.to_string(), b.to_string())).collect()
}

fn record(table: &NameTable, id: &str) -> (String, String, String) {
    match table.get(id) {
        Some(info) => (info.name.clone(), info.version.clone(), info.id.clone()),
        None => panic!("no record under {}", id),
    }
}

fn triple(name: &str, version: &str, id: &str) -> (String, String, String) {
    (name.to_string(), version.to_string(), id.to_string())
}

#[test]
fn packages_are_put_in_order_of_their_names() {
    let ids = vec![
        package("serde", 1, 0, 0, ""),
        package("anyhow", 1, 0, 0, ""),
        package("rand", 0, 8, 5, ""),
    ];
    assert_eq!(
        listing(&sort_packages(&ids)),
        pairs(&[("anyhow", "1.0.0"), ("rand", "0.8.5"), ("serde", "1.0.0")])
    );
}

#[test]
fn names_are_ordered_by_their_bytes() {
    let ids = vec![
        package("b", 1, 0, 0, ""),
        package("ab", 1, 0, 0, ""),
        package("a", 1, 0, 0, ""),
        package("B", 1, 0, 0, ""),
        package("a-b", 1, 0, 0, ""),
        package("a_b", 1, 0, 0, ""),
    ];
    let names: Vec<String> = sort_packages(&ids).iter().map(|p| p.name.clone()).collect();
    assert_eq!(names, vec!["B", "a", "a-b", "a_b", "ab", "b"]);
}

#[test]
fn versions_of_a_name_go_from_the_newest_down() {
    let ids = vec![
        package("rand", 0, 7, 3, ""),
        package("rand", 0, 8, 5, ""),
        package("rand", 0, 8, 4, ""),
        package("rand", 1, 0, 0, "alpha"),
    ];
    assert_eq!(
        listing(&sort_packages(&ids)),
        pairs(&[
            ("rand", "1.0.0-alpha"),
            ("rand", "0.8.5"),
            ("rand", "0.8.4"),
            ("rand", "0.7.3")
        ])
    );
}

#[test]
fn sorting_keeps_every_package() {
    let ids = vec![
        package("b", 1, 0, 0, ""),
        package("a", 2, 0, 0, ""),
        package("b", 1, 0, 0, ""),
        package("a", 1, 0, 0, ""),
    ];
    let sorted = sort_packages(&ids);
    assert_eq!(sorted.len(), 4);
    assert_eq!(
        listing(&sorted),
        pairs(&[("a", "2.0.0"), ("a", "1.0.0"), ("b", "1.0.0"), ("b", "1.0.0")])
    );
    assert!(sort_packages(&vec![]).is_empty());
}

#[test]
fn goes_before_is_by_name_first() {
    assert!(goes_before(&package("a", 1, 0, 0, ""), &package("b", 9, 0, 0, "")));
    assert!(!goes_before(&package("b", 9, 0, 0, ""), &package("a", 1, 0, 0, "")));
    assert!(goes_before(&package("a", 2, 0, 0, ""), &package("a", 1, 0, 0, "")));
    assert!(!goes_before(&package("a", 1, 0, 0, ""), &package("a", 1, 0, 0, "")));
    assert!(goes_before(&package("a", 1, 0, 0, ""), &package("aa", 1, 0, 0, "")));
}

#[test]
fn exposed_name_of_the_first_is_the_bare_name() {
    assert_eq!(exposed_name(&package("rand", 0, 8, 5, ""), true), "rand");
}

#[test]
fn exposed_name_of_an_older_version_has_the_three_numbers() {
    assert_eq!(exposed_name(&package("rand", 0, 7, 3, ""), false), "rand_0_7_3");
    assert_eq!(exposed_name(&package("syn", 1, 0, 109, "rc.1"), false), "syn_1_0_109");
    assert_eq!(exposed_name(&package("x", 10, 20, 30, ""), false), "x_10_20_30");
}

#[test]
fn newest_release_gets_the_bare_name_and_the_others_a_suffix() {
    let ids = vec![
        package("foo", 1, 2, 0, ""),
        package("foo", 1, 2, 0, "beta"),
        package("foo", 1, 1, 9, ""),
    ];
    let sorted = sort_packages(&ids);
    assert_eq!(
        listing(&sorted),
        pairs(&[("foo", "1.2.0"), ("foo", "1.2.0-beta"), ("foo", "1.1.9")])
    );
    let table = disambiguate(&sorted);
    assert_eq!(table.len(), 3);
    assert_eq!(record(&table, "foo"), triple("foo", "1.2.0", "foo"));
    assert_eq!(record(&table, "foo_1_2_0"), triple("foo", "1.2.0-beta", "foo_1_2_0"));
    assert_eq!(record(&table, "foo_1_1_9"), triple("foo", "1.1.9", "foo_1_1_9"));
}

#[test]
fn the_order_in_which_packages_are_given_does_not_matter() {
    let ids = vec![
        package("foo", 1, 1, 9, ""),
        package("bar", 0, 1, 0, ""),
        package("foo", 1, 2, 0, "beta"),
        package("foo", 1, 2, 0, ""),
    ];
    let table = name_packages(&ids);
    assert_eq!(table.len(), 4);
    assert_eq!(record(&table, "bar"), triple("bar", "0.1.0", "bar"));
    assert_eq!(record(&table, "foo"), triple("foo", "1.2.0", "foo"));
    assert_eq!(record(&table, "foo_1_2_0"), triple("foo", "1.2.0-beta", "foo_1_2_0"));
    assert_eq!(record(&table, "foo_1_1_9"), triple("foo", "1.1.9", "foo_1_1_9"));
}

#[test]
fn every_name_has_one_record_under_its_bare_name() {
    let ids = vec![
        package("a", 1, 0, 0, ""),
        package("b", 2, 0, 0, ""),
        package("a", 3, 0, 0, ""),
        package("c", 0, 1, 0, "pre"),
        package("b", 1, 0, 0, ""),
    ];
    let records = name_packages(&ids).into_values();
    for name in ["a", "b", "c"] {
        let bare: Vec<&CrateInformation> = records.iter().filter(|r| r.id == name).collect();
        assert_eq!(bare.len(), 1);
        assert_eq!(bare[0].name, name);
    }
    let newest: Vec<(String, String)> = records
        .iter()
        .filter(|r| r.id == r.name)
        .map(|r| (r.name.clone(), r.version.clone()))
        .collect();
    assert_eq!(newest, pairs(&[("a", "3.0.0"), ("b", "2.0.0"), ("c", "0.1.0-pre")]));
}

#[test]
fn no_exposed_identifier_is_given_twice() {
    let ids = vec![
        package("a", 2, 0, 0, ""),
        package("a", 1, 0, 0, ""),
        package("a", 1, 0, 0, "rc.1"),
        package("a_1_0_0", 3, 0, 0, ""),
        package("b", 1, 0, 0, ""),
    ];
    let records = name_packages(&ids).into_values();
    let mut seen: Vec<String> = Vec::new();
    for r in &records {
        assert!(!seen.contains(&r.id));
        seen.push(r.id.clone());
    }
}

#[test]
fn of_two_versions_with_the_same_numbers_the_first_keeps_the_made_name() {
    let ids = vec![
        package("foo", 2, 0, 0, ""),
        package("foo", 1, 2, 0, "beta"),
        package("foo", 1, 2, 0, ""),
    ];
    let table = name_packages(&ids);
    assert_eq!(table.len(), 2);
    assert_eq!(record(&table, "foo"), triple("foo", "2.0.0", "foo"));
    assert_eq!(record(&table, "foo_1_2_0"), triple("foo", "1.2.0", "foo_1_2_0"));
}

#[test]
fn a_package_keeps_its_bare_name_against_a_made_name_of_another() {
    let ids = vec![
        package("a", 2, 0, 0, ""),
        package("a", 1, 0, 0, ""),
        package("a_1_0_0", 3, 0, 0, ""),
    ];
    let table = name_packages(&ids);
    assert_eq!(table.len(), 2);
    assert_eq!(record(&table, "a"), triple("a", "2.0.0", "a"));
    assert_eq!(record(&table, "a_1_0_0"), triple("a_1_0_0", "3.0.0", "a_1_0_0"));
}

#[test]
fn a_single_prerelease_gets_the_bare_name() {
    let table = name_packages(&vec![package("only", 0, 1, 0, "alpha.1")]);
    assert_eq!(table.len(), 1);
    assert_eq!(record(&table, "only"), triple("only", "0.1.0-alpha.1", "only"));
}

#[test]
fn no_packages_give_an_empty_table() {
    let table = name_packages(&vec![]);
    assert_eq!(table.len(), 0);
    assert!(!table.contains("anything"));
    assert!(table.into_values().is_empty());
}

fn info(name: &str, version: &str, id: &str) -> CrateInformation {
    CrateInformation { name: name.to_string(), version: version.to_string(), id: id.to_string() }
}

#[test]
fn table_insert_puts_a_record_under_its_identifier() {
    let mut table = NameTable::new();
    assert_eq!(table.len(), 0);
    table.insert(info("a", "1.0.0", "a"));
    table.insert(info("a", "0.9.0", "a_0_9_0"));
    assert_eq!(table.len(), 2);
    assert!(table.contains("a"));
    assert!(table.contains("a_0_9_0"));
    assert!(!table.contains("b"));
    assert!(table.get("b").is_none());
    assert_eq!(record(&table, "a_0_9_0"), triple("a", "0.9.0", "a_0_9_0"));
}

#[test]
fn table_insert_replaces_the_record_under_the_same_identifier() {
    let mut table = NameTable::new();
    table.insert(info("a", "1.0.0", "a"));
    table.insert(info("b", "1.0.0", "b"));
    table.insert(info("a", "2.0.0", "a"));
    assert_eq!(table.len(), 2);
    assert_eq!(record(&table, "a"), triple("a", "2.0.0", "a"));
    assert_eq!(record(&table, "b"), triple("b", "1.0.0", "b"));
}

#[test]
fn table_extend_prefers_the_records_that_come_in() {
    let mut base = NameTable::new();
    base.insert(info("a", "1.0.0", "a"));
    base.insert(info("b", "1.0.0", "b"));
    let mut more = NameTable::new();
    more.insert(info("b", "2.0.0", "b"));
    more.insert(info("c", "3.0.0", "c"));
    base.extend(&more);
    assert_eq!(base.len(), 3);
    assert_eq!(record(&base, "a"), triple("a", "1.0.0", "a"));
    assert_eq!(record(&base, "b"), triple("b", "2.0.0", "b"));
    assert_eq!(record(&base, "c"), triple("c", "3.0.0", "c"));
    base.extend(&NameTable::new());
    assert_eq!(base.len(), 3);
}

#[test]
fn record_duplicate_keeps_every_field() {
    let copy = info("n", "1.2.3", "n_1_2_3").duplicate();
    assert_eq!((copy.name, copy.version, copy.id), triple("n", "1.2.3", "n_1_2_3"));
}

#[test]
fn no_two_records_share_name_and_version() {
    let ids = vec![
        package("a", 2, 0, 0, ""),
        package("a", 1, 0, 0, ""),
        package("a", 1, 0, 0, "rc.1"),
        package("b", 1, 0, 0, ""),
        package("b", 1, 0, 0, "rc.1"),
        package("a_1_0_0", 1, 0, 0, ""),
    ];
    let records = name_packages(&ids).into_values();
    for (i, r) in records.iter().enumerate() {
        for s in records.iter().skip(i + 1) {
            assert!(r.name != s.name || r.version != s.version);
        }
    }
}

#[test]
fn a_package_given_twice_gets_two_records() {
    let table = name_packages(&vec![package("x", 1, 0, 0, ""), package("x", 1, 0, 0, "")]);
    assert_eq!(table.len(), 2);
    assert_eq!(record(&table, "x"), triple("x", "1.0.0", "x"));
    assert_eq!(record(&table, "x_1_0_0"), triple("x", "1.0.0", "x_1_0_0"));
}

#[test]
fn length_of_a_table_is_the_number_of_its_identifiers() {
    let mut table = NameTable::new();
    assert_eq!(table.len(), 0);
    table.insert(info("a", "1.0.0", "a"));
    table.insert(info("a", "2.0.0", "a"));
    table.insert(info("b", "1.0.0", "b"));
    assert_eq!(table.len(), 2);
    assert_eq!(table.into_values().len(), 2);
}

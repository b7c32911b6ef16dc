use top_crates::mirror::{mirror_contents, mirror_plan};
use top_crates::naming::PackageId;
use top_crates::pipeline::{check_graph, package_infos, select_packages, GraphError, ResolvedGraph};
use top_crates::platform::{DependencyEdge, TargetCfg, TargetPlatform};
use top_crates::version::Version;
use top_crates::{Exclusions, Modifications, NameTable};

fn package(name: &str, major: u64, minor: u64, patch: u64) -> PackageId {
    PackageId {
        name: name.to_string(),
        version: Version { major, minor, patch, pre: String::new(), build: String::new() },
    }
}

fn edge(from: usize, to: usize, platform: Option<&str>) -> DependencyEdge {
    DependencyEdge { from, to, platform: platform.map(|p| p.to_string()) }
}

fn linux() -> TargetPlatform {
    TargetPlatform {
        triple: "x86_64-unknown-linux-gnu".to_string(),
        cfgs: vec![
            TargetCfg::Name("unix".to_string()),
            TargetCfg::KeyPair("target_os".to_string(), "linux".to_string()),
        ],
    }
}

fn excluding(patterns: &[&str]) -> Modifications {
    let patterns: Vec<String> = patterns.iter().map(|p| p.to_string()).collect();
    let exclusions = match Exclusions::new(&patterns) {
        Ok(rules) => rules,
        Err(error) => panic!("patterns refused: {:?}", error),
    };
    Modifications { exclusions, additions: vec![], commands: vec![] }
}

fn table(graph: &ResolvedGraph, seeds: &[usize], modifications: &Modifications) -> NameTable {
    match package_infos(graph, &seeds.to_vec(), &linux(), modifications) {
        Ok(table) => table,
        Err(error) => panic!("graph refused: {:?}", error),
    }
}

fn ids(table: NameTable) -> Vec<String> {
    let mut ids: Vec<String> = table.into_values().into_iter().map(|r| r.id).collect();
    ids.sort();
    ids
}

fn names(selected: Result<Vec<PackageId>, GraphError>) -> Vec<String> {
    match selected {
        Ok(chosen) => chosen.iter().map(|p| p.name.clone()).collect(),
        Err(error) => panic!("graph refused: {:?}", error),
    }
}

#[test]
fn request_with_one_dependency_gives_two_records_and_two_lines() {
    let graph = ResolvedGraph {
        packages: vec![package("a", 1, 0, 0), package("b", 0, 3, 1)],
        edges: vec![edge(0, 1, Some("cfg(unix)"))],
    };
    let infos = table(&graph, &[0], &Modifications::empty());
    assert_eq!(infos.len(), 2);
    let a = infos.get("a").map(|r| (r.name.clone(), r.version.clone(), r.id.clone()));
    let b = infos.get("b").map(|r| (r.name.clone(), r.version.clone(), r.id.clone()));
    assert_eq!(a, Some(("a".to_string(), "1.0.0".to_string(), "a".to_string())));
    assert_eq!(b, Some(("b".to_string(), "0.3.1".to_string(), "b".to_string())));

    let upstream_a = "{\"name\":\"a\",\"vers\":\"0.9.0\"}\n{\"name\":\"a\",\"vers\":\"1.0.0\"}\n";
    let upstream_b = "{\"name\":\"b\",\"vers\":\"0.3.1\"}\n{\"name\":\"b\",\"vers\":\"0.3.2\"}\n";
    let records = infos.into_values();
    let plan = match mirror_plan(&records) {
        Ok(plan) => plan,
        Err(error) => panic!("plan refused: {:?}", error),
    };
    assert_eq!(plan.len(), 2);
    let mut total = 0;
    for entry in &plan {
        let (path, upstream, line) = if entry.name == "a" {
            ("1/a", upstream_a, "{\"name\":\"a\",\"vers\":\"1.0.0\"}")
        } else {
            ("1/b", upstream_b, "{\"name\":\"b\",\"vers\":\"0.3.1\"}")
        };
        assert_eq!(entry.path, path);
        let file = mirror_contents(upstream.as_bytes(), &entry.versions);
        assert_eq!(file.contents, line.as_bytes().to_vec());
        assert_eq!(file.lines, 1);
        total += file.lines;
    }
    assert_eq!(total, 2);
}

#[test]
fn dependency_for_another_platform_is_left_out() {
    let graph = ResolvedGraph {
        packages: vec![package("a", 1, 0, 0), package("winapi", 0, 3, 9), package("libc", 0, 2, 0)],
        edges: vec![edge(0, 1, Some("cfg(windows)")), edge(0, 2, Some("cfg(unix)"))],
    };
    assert_eq!(ids(table(&graph, &[0], &Modifications::empty())), vec!["a", "libc"]);
}

#[test]
fn dependency_is_kept_where_one_of_its_links_applies() {
    let graph = ResolvedGraph {
        packages: vec![package("a", 1, 0, 0), package("b", 1, 0, 0), package("c", 1, 0, 0)],
        edges: vec![
            edge(0, 2, Some("cfg(windows)")),
            edge(0, 1, None),
            edge(1, 2, Some("x86_64-unknown-linux-gnu")),
        ],
    };
    assert_eq!(ids(table(&graph, &[0], &Modifications::empty())), vec!["a", "b", "c"]);
}

#[test]
fn dependency_behind_a_malformed_predicate_is_left_out() {
    let graph = ResolvedGraph {
        packages: vec![package("a", 1, 0, 0), package("b", 1, 0, 0)],
        edges: vec![edge(0, 1, Some("cfg(unix"))],
    };
    assert_eq!(ids(table(&graph, &[0], &Modifications::empty())), vec!["a"]);
}

#[test]
fn package_that_nothing_reaches_is_left_out() {
    let graph = ResolvedGraph {
        packages: vec![package("a", 1, 0, 0), package("b", 1, 0, 0), package("c", 1, 0, 0)],
        edges: vec![edge(1, 2, None)],
    };
    assert_eq!(ids(table(&graph, &[0], &Modifications::empty())), vec!["a"]);
}

#[test]
fn excluded_name_is_left_out_even_when_pulled_in_as_a_dependency() {
    let graph = ResolvedGraph {
        packages: vec![
            package("a", 1, 0, 0),
            package("openssl-sys", 0, 9, 0),
            package("libc", 0, 2, 0),
        ],
        edges: vec![edge(0, 1, None), edge(1, 2, None)],
    };
    let infos = table(&graph, &[0], &excluding(&["*-sys"]));
    assert!(!infos.contains("openssl-sys"));
    assert_eq!(ids(infos), vec!["a", "libc"]);
}

#[test]
fn excluded_seed_is_left_out_and_its_dependencies_stay() {
    let graph = ResolvedGraph {
        packages: vec![package("a", 1, 0, 0), package("b", 1, 0, 0)],
        edges: vec![edge(0, 1, None)],
    };
    assert_eq!(ids(table(&graph, &[0], &excluding(&["a"]))), vec!["b"]);
}

#[test]
fn two_versions_of_a_dependency_are_both_named() {
    let graph = ResolvedGraph {
        packages: vec![
            package("app", 1, 0, 0),
            package("rand", 0, 7, 3),
            package("rand", 0, 8, 5),
            package("old", 0, 1, 0),
        ],
        edges: vec![edge(0, 2, None), edge(0, 3, None), edge(3, 1, None)],
    };
    assert_eq!(
        ids(table(&graph, &[0], &Modifications::empty())),
        vec!["app", "old", "rand", "rand_0_7_3"]
    );
}

#[test]
fn selected_packages_keep_the_order_of_the_graph() {
    let graph = ResolvedGraph {
        packages: vec![
            package("z", 1, 0, 0),
            package("skip", 1, 0, 0),
            package("m", 1, 0, 0),
            package("a", 1, 0, 0),
        ],
        edges: vec![edge(3, 0, None), edge(0, 2, None), edge(2, 1, Some("cfg(windows)"))],
    };
    let selected = select_packages(&graph, &vec![3], &linux(), &Modifications::empty());
    assert_eq!(names(selected), vec!["z", "m", "a"]);
}

#[test]
fn graph_without_packages_gives_an_empty_table() {
    let graph = ResolvedGraph { packages: vec![], edges: vec![] };
    assert_eq!(table(&graph, &[], &Modifications::empty()).len(), 0);
}

#[test]
fn edge_outside_the_graph_is_reported() {
    let graph = ResolvedGraph {
        packages: vec![package("a", 1, 0, 0), package("b", 1, 0, 0)],
        edges: vec![edge(0, 1, None), edge(1, 2, None), edge(7, 0, None)],
    };
    assert_eq!(check_graph(&graph, &vec![0]), Err(GraphError::EdgeOutOfRange(1)));
    let infos = package_infos(&graph, &vec![0], &linux(), &Modifications::empty());
    assert!(matches!(infos, Err(GraphError::EdgeOutOfRange(1))));
    let selected = select_packages(&graph, &vec![0], &linux(), &Modifications::empty());
    assert!(matches!(selected, Err(GraphError::EdgeOutOfRange(1))));
}

#[test]
fn seed_outside_the_graph_is_reported() {
    let graph = ResolvedGraph {
        packages: vec![package("a", 1, 0, 0), package("b", 1, 0, 0)],
        edges: vec![edge(0, 1, None)],
    };
    assert_eq!(check_graph(&graph, &vec![1, 2, 5]), Err(GraphError::SeedOutOfRange(1)));
    let infos = package_infos(&graph, &vec![1, 2, 5], &linux(), &Modifications::empty());
    assert!(matches!(infos, Err(GraphError::SeedOutOfRange(1))));
}

#[test]
fn sound_graph_passes_the_check() {
    let graph = ResolvedGraph {
        packages: vec![package("a", 1, 0, 0), package("b", 1, 0, 0)],
        edges: vec![edge(0, 1, None), edge(1, 0, None)],
    };
    assert_eq!(check_graph(&graph, &vec![0, 1, 0]), Ok(()));
}

#[test]
fn names_of_a_second_run_are_merged_over_the_first() {
    let first = ResolvedGraph {
        packages: vec![package("a", 1, 0, 0), package("b", 1, 0, 0)],
        edges: vec![edge(0, 1, None)],
    };
    let second = ResolvedGraph {
        packages: vec![package("tool", 2, 0, 0), package("b", 2, 0, 0)],
        edges: vec![edge(0, 1, None)],
    };
    let mut infos = table(&first, &[0], &Modifications::empty());
    let more = table(&second, &[0], &Modifications::empty());
    infos.extend(&more);
    assert_eq!(infos.len(), 3);
    assert_eq!(infos.get("b").map(|r| r.version.clone()), Some("2.0.0".to_string()));
    assert_eq!(ids(infos), vec!["a", "b", "tool"]);
}

use top_crates::mirror::{
    field_is, find_version_line, mirror_contents, mirror_plan, package_names, split_lines,
    versions_for, ShardError,
};
use top_crates::CrateInformation;

fn bytes(lines: &[&str]) -> Vec<Vec<u8>> {
    lines.iter().map(|l| l.as_bytes().to_vec()).collect()
}

fn strings(items: &[&str]) -> Vec<String> {
    items.iter().map(|s| s.to_string()).collect()
}

fn info(name: &str, version: &str, id: &str) -> CrateInformation {
    CrateInformation { name: name.to_string(), version: version.to_string(), id: id.to_string() }
}

const FOO_1_0_0: &str = r#"{"name":"foo","vers":"1.0.0","deps":[],"cksum":"aa","features":{},"yanked":false}"#;
const FOO_1_1_0: &str = r#"{"name":"foo","vers":"1.1.0","deps":[],"cksum":"bb","features":{},"yanked":false}"#;
const FOO_2_0_0: &str = r#"{"name":"foo","vers":"2.0.0","deps":[],"cksum":"cc","features":{},"yanked":true}"#;

fn index_file() -> Vec<u8> {
    format!("{}\n{}\n{}\n", FOO_1_0_0, FOO_1_1_0, FOO_2_0_0).into_bytes()
}

#[test]
fn lines_end_at_each_newline() {
    assert_eq!(split_lines(b"a\nbc\nd"), bytes(&["a", "bc", "d"]));
}

#[test]
fn a_newline_at_the_end_starts_no_line() {
    assert_eq!(split_lines(b"a\nb\n"), bytes(&["a", "b"]));
}

#[test]
fn an_empty_file_has_no_lines() {
    assert!(split_lines(b"").is_empty());
}

#[test]
fn empty_lines_are_lines() {
    assert_eq!(split_lines(b"\n"), bytes(&[""]));
    assert_eq!(split_lines(b"a\n\nb"), bytes(&["a", "", "b"]));
    assert_eq!(split_lines(b"\n\n"), bytes(&["", ""]));
}

#[test]
fn a_carriage_return_before_the_newline_belongs_to_the_line_end() {
    assert_eq!(split_lines(b"a\r\nb\r\n"), bytes(&["a", "b"]));
    assert_eq!(split_lines(b"a\r\r\nb"), bytes(&["a\r", "b"]));
    assert_eq!(split_lines(b"\r\n"), bytes(&[""]));
}

#[test]
fn a_carriage_return_elsewhere_stays() {
    assert_eq!(split_lines(b"a\rb\nc\r"), bytes(&["a\rb", "c\r"]));
}

#[test]
fn lines_are_split_as_the_standard_library_splits_them() {
    for text in ["", "\n", "a", "a\n", "a\r\n", "a\r", "\r", "a\n\nb\r\n\r\nc", "x\r\ny\n\rz"] {
        let expected: Vec<Vec<u8>> = text.lines().map(|l| l.as_bytes().to_vec()).collect();
        assert_eq!(split_lines(text.as_bytes()), expected);
    }
}

#[test]
fn field_is_compares_texts() {
    assert!(field_is(&Some("1.0.0".to_string()), "1.0.0"));
    assert!(!field_is(&Some("1.0.0".to_string()), "1.0"));
    assert!(!field_is(&Some("1.0".to_string()), "1.0.0"));
    assert!(!field_is(&Some("01.0.0".to_string()), "1.0.0"));
    assert!(!field_is(&None, "1.0.0"));
    assert!(!field_is(&None, ""));
    assert!(field_is(&Some(String::new()), ""));
}

#[test]
fn version_line_is_found_by_its_version_field() {
    let lines = bytes(&[FOO_1_0_0, FOO_1_1_0, FOO_2_0_0]);
    assert_eq!(find_version_line(&lines, "1.0.0"), Some(0));
    assert_eq!(find_version_line(&lines, "1.1.0"), Some(1));
    assert_eq!(find_version_line(&lines, "2.0.0"), Some(2));
    assert_eq!(find_version_line(&lines, "3.0.0"), None);
}

#[test]
fn version_is_matched_as_a_text_not_as_a_version() {
    let lines = bytes(&[FOO_1_0_0]);
    assert_eq!(find_version_line(&lines, "1.0"), None);
    assert_eq!(find_version_line(&lines, "1.0.0 "), None);
    assert_eq!(find_version_line(&lines, "=1.0.0"), None);
}

#[test]
fn the_first_of_two_lines_with_the_version_is_taken() {
    let second = r#"{"name":"foo","vers":"1.0.0","cksum":"republished"}"#;
    let lines = bytes(&[FOO_1_1_0, FOO_1_0_0, second]);
    assert_eq!(find_version_line(&lines, "1.0.0"), Some(1));
}

#[test]
fn lines_without_a_version_field_match_nothing() {
    let lines = bytes(&[
        "not json",
        r#"{"name":"foo"}"#,
        r#"{"vers":100}"#,
        r#"["vers","1.0.0"]"#,
        r#""1.0.0""#,
        "",
        FOO_1_0_0,
    ]);
    assert_eq!(find_version_line(&lines, "1.0.0"), Some(6));
    assert_eq!(find_version_line(&lines, "100"), None);
    assert_eq!(find_version_line(&lines, "not json"), None);
}

#[test]
fn only_the_field_vers_is_read() {
    let lines = bytes(&[r#"{"name":"1.0.0","version":"1.0.0","vers":"2.0.0"}"#]);
    assert_eq!(find_version_line(&lines, "1.0.0"), None);
    assert_eq!(find_version_line(&lines, "2.0.0"), Some(0));
}

#[test]
fn mirror_keeps_the_line_of_the_version_unchanged() {
    let file = mirror_contents(&index_file(), &strings(&["1.1.0"]));
    assert_eq!(file.contents, FOO_1_1_0.as_bytes().to_vec());
    assert_eq!(file.lines, 1);
}

#[test]
fn mirror_of_a_version_without_a_line_is_empty() {
    let file = mirror_contents(&index_file(), &strings(&["9.9.9"]));
    assert!(file.contents.is_empty());
    assert_eq!(file.lines, 0);
}

#[test]
fn mirror_of_no_versions_is_empty() {
    let file = mirror_contents(&index_file(), &vec![]);
    assert!(file.contents.is_empty());
    assert_eq!(file.lines, 0);
}

#[test]
fn mirror_of_an_empty_file_is_empty() {
    let file = mirror_contents(b"", &strings(&["1.0.0"]));
    assert!(file.contents.is_empty());
    assert_eq!(file.lines, 0);
}

#[test]
fn mirror_holds_the_lines_of_all_versions_of_a_package() {
    let file = mirror_contents(&index_file(), &strings(&["2.0.0", "7.0.0", "1.0.0"]));
    assert_eq!(file.contents, format!("{}\n{}", FOO_2_0_0, FOO_1_0_0).into_bytes());
    assert_eq!(file.lines, 2);
}

#[test]
fn mirror_takes_only_the_first_line_of_a_version() {
    let second = r#"{"name":"foo","vers":"1.0.0","cksum":"republished"}"#;
    let data = format!("{}\n{}\n", FOO_1_0_0, second).into_bytes();
    let file = mirror_contents(&data, &strings(&["1.0.0"]));
    assert_eq!(file.contents, FOO_1_0_0.as_bytes().to_vec());
    assert_eq!(file.lines, 1);
}

#[test]
fn mirror_of_the_same_input_is_the_same_bytes() {
    let versions = strings(&["1.0.0", "2.0.0"]);
    let first = mirror_contents(&index_file(), &versions);
    let second = mirror_contents(&index_file(), &versions);
    assert_eq!(first.contents, second.contents);
    assert_eq!(first.lines, second.lines);
    let again = mirror_contents(&first.contents, &versions);
    assert_eq!(again.contents, first.contents);
}

#[test]
fn packages_are_named_once_in_the_order_of_first_occurrence() {
    let records = vec![
        info("rand", "0.8.5", "rand"),
        info("libc", "0.2.0", "libc"),
        info("rand", "0.7.3", "rand_0_7_3"),
        info("a", "1.0.0", "a"),
        info("libc", "0.1.0", "libc_0_1_0"),
    ];
    assert_eq!(package_names(&records), strings(&["rand", "libc", "a"]));
    assert!(package_names(&vec![]).is_empty());
}

#[test]
fn versions_of_a_package_come_in_the_order_of_the_records() {
    let records = vec![
        info("rand", "0.8.5", "rand"),
        info("libc", "0.2.0", "libc"),
        info("rand", "0.7.3", "rand_0_7_3"),
    ];
    assert_eq!(versions_for(&records, "rand"), strings(&["0.8.5", "0.7.3"]));
    assert_eq!(versions_for(&records, "libc"), strings(&["0.2.0"]));
    assert!(versions_for(&records, "serde").is_empty());
}

#[test]
fn plan_has_one_file_for_each_package_with_all_its_versions() {
    let records = vec![
        info("rand", "0.8.5", "rand"),
        info("a", "1.0.0", "a"),
        info("rand", "0.7.3", "rand_0_7_3"),
        info("syn", "2.0.0", "syn"),
    ];
    let plan = match mirror_plan(&records) {
        Ok(plan) => plan,
        Err(error) => panic!("plan refused: {:?}", error),
    };
    let got: Vec<(String, String, Vec<String>)> =
        plan.iter().map(|e| (e.name.clone(), e.path.clone(), e.versions.clone())).collect();
    assert_eq!(
        got,
        vec![
            ("rand".to_string(), "ra/nd/rand".to_string(), strings(&["0.8.5", "0.7.3"])),
            ("a".to_string(), "1/a".to_string(), strings(&["1.0.0"])),
            ("syn".to_string(), "3/s/syn".to_string(), strings(&["2.0.0"])),
        ]
    );
}

#[test]
fn plan_of_no_records_is_empty() {
    assert!(matches!(mirror_plan(&vec![]), Ok(plan) if plan.is_empty()));
}

#[test]
fn plan_reports_the_first_name_without_an_index_file() {
    let records = vec![
        info("ok", "1.0.0", "ok"),
        info("", "1.0.0", ""),
        info("caf\u{e9}", "1.0.0", "x"),
    ];
    assert!(matches!(mirror_plan(&records), Err((1, ShardError::EmptyName))));
    let other = vec![info("ok", "1.0.0", "ok"), info("na\u{ef}ve", "1.0.0", "y"), info("", "1", "")];
    assert!(matches!(mirror_plan(&other), Err((1, ShardError::NotAscii))));
}

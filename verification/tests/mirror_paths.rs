use top_crates::mirror::{prefix_path, shard_path, ShardError};

#[test]
fn test_prefix() {
    assert_eq!(prefix_path("f"), "1/f");
    assert_eq!(prefix_path("fo"), "2/fo");
    assert_eq!(prefix_path("foo"), "3/f/foo");
    assert_eq!(prefix_path("foobar"), "fo/ob/foobar");
}

#[test]
fn prefix_of_a_name_of_four_characters_uses_both_pairs() {
    assert_eq!(prefix_path("rand"), "ra/nd/rand");
}

#[test]
fn prefix_keeps_hyphens_underscores_and_case() {
    assert_eq!(prefix_path("serde_json"), "se/rd/serde_json");
    assert_eq!(prefix_path("a-b"), "3/a/a-b");
    assert_eq!(prefix_path("Inflector"), "In/fl/Inflector");
}

#[test]
fn shard_path_agrees_with_prefix_path_on_index_names() {
    for name in ["f", "fo", "foo", "foob", "foobar", "tokio-util"] {
        assert_eq!(shard_path(name), Ok(prefix_path(name)));
    }
}

#[test]
fn shard_path_refuses_the_empty_name() {
    assert_eq!(shard_path(""), Err(ShardError::EmptyName));
}

#[test]
fn shard_path_refuses_a_name_that_is_not_ascii() {
    assert_eq!(shard_path("caf\u{e9}"), Err(ShardError::NotAscii));
}

#[test]
fn the_same_name_always_gets_the_same_path() {
    assert_eq!(prefix_path("libc"), prefix_path("libc"));
}

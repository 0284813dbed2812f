use tv::auth::{find_ancestor_pid, next_ancestor, parse_parent_pid};

#[test]
fn parents() {
    assert_eq!(parse_parent_pid("12 (bash) S 7 12 12 0\n"), Some(7));
    assert_eq!(parse_parent_pid("12 (bash) S +7"), Some(7));
    assert_eq!(parse_parent_pid("12 (bash)  S\t4294967295 1"), Some(u32::MAX));
    assert_eq!(parse_parent_pid("12 (bash) S 4294967296 1"), None);
    assert_eq!(parse_parent_pid("12 (bash) S -1"), None);
    assert_eq!(parse_parent_pid("12 (bash) S"), None);
    assert_eq!(parse_parent_pid("12 bash S 7"), None);
    assert_eq!(parse_parent_pid(""), None);
}

#[test]
fn a_parent_is_read_whatever_the_command() {
    for comm in ["a b", "(x)", ") S 99 (", "", "))) 1 2 3"] {
        let stat = format!("12 ({comm}) R 345 12 12");
        assert_eq!(parse_parent_pid(&stat), Some(345));
    }
}

#[test]
fn ancestors() {
    assert_eq!(next_ancestor(12, Some(7)), Some(7));
    assert_eq!(next_ancestor(12, Some(1)), Some(1));
    assert_eq!(next_ancestor(12, Some(12)), None);
    assert_eq!(next_ancestor(12, Some(0)), None);
    assert_eq!(next_ancestor(12, None), None);
    assert_eq!(next_ancestor(1, Some(7)), None);
}

#[test]
fn the_nearest_ancestor_is_found() {
    assert_eq!(find_ancestor_pid(&[12, 7, 3, 1], &[3, 7]), Some(7));
    assert_eq!(find_ancestor_pid(&[12, 7, 3, 1], &[12]), Some(12));
    assert_eq!(find_ancestor_pid(&[12, 7], &[3]), None);
    assert_eq!(find_ancestor_pid(&[], &[3]), None);
}

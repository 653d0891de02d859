use path_utils::{extensions_lossy, Extensions};

#[test]
fn extensions() {
    assert!(extensions_lossy("/path/to/file").is_empty());
    assert!(extensions_lossy("/path/to/.file").is_empty());

    assert_eq!(extensions_lossy("/path/to/file.tar"), ["tar"]);

    assert_eq!(extensions_lossy("/path/to/.file.tar"), ["tar"]);

    assert_eq!(extensions_lossy("/path/to/file.tar.gz"), ["gz", "tar"],);
}

#[test]
fn next_yields_outermost_first() {
    let mut it = Extensions::new("file.tar.gz");
    assert_eq!(it.next(), Some(String::from("gz")));
    assert_eq!(it.next(), Some(String::from("tar")));
    assert_eq!(it.next(), None);
}

#[test]
fn exhausted_iterator_stays_exhausted() {
    let mut it = Extensions::new("archive.tar");
    assert_eq!(it.next(), Some(String::from("tar")));
    for _ in 0..5 {
        assert_eq!(it.next(), None);
    }
}

#[test]
fn no_dot_in_final_segment() {
    assert!(extensions_lossy("dir.d/file").is_empty());
    assert!(extensions_lossy("").is_empty());
    assert!(extensions_lossy("/").is_empty());
    assert!(extensions_lossy(".").is_empty());
    assert!(extensions_lossy("..").is_empty());
}

#[test]
fn hidden_names_have_no_extension() {
    assert!(extensions_lossy(".bashrc").is_empty());
    assert!(extensions_lossy("/home/user/.config").is_empty());
}

#[test]
fn many_extensions_come_reversed() {
    assert_eq!(extensions_lossy("/x/a.b.c.d"), ["d", "c", "b"]);
}

#[test]
fn trailing_separators_and_dot_components_are_ignored() {
    assert_eq!(extensions_lossy("/a/b.c/"), ["c"]);
    assert_eq!(extensions_lossy("/a/b.c/."), ["c"]);
    assert_eq!(extensions_lossy("/a/b.c//./"), ["c"]);
}

#[test]
fn empty_extensions_are_kept() {
    assert_eq!(extensions_lossy("file."), [""]);
    assert_eq!(extensions_lossy("file..gz"), ["gz", ""]);
}

#[test]
fn text_comes_back_exactly() {
    assert_eq!(extensions_lossy("résumé.tär.gž"), ["gž", "tär"]);
}

#[test]
fn invalid_bytes_are_replaced() {
    let mut it = Extensions::from_bytes(b"name.a\xffb.txt");
    assert_eq!(it.next(), Some(String::from("txt")));
    assert_eq!(it.next(), Some(String::from("a\u{FFFD}b")));
    assert_eq!(it.next(), None);
}

#[test]
fn bytes_and_text_agree() {
    let from_text = Extensions::new("/p/file.tar.gz").collect_vec();
    let from_bytes = Extensions::from_bytes(b"/p/file.tar.gz").collect_vec();
    assert_eq!(from_text, from_bytes);
}

#[test]
fn clone_keeps_the_remaining_path() {
    let mut it = Extensions::new("a.b.c");
    assert_eq!(it.next(), Some(String::from("c")));
    let mut copy = it.clone();
    assert_eq!(copy, it);
    assert_eq!(copy.next(), Some(String::from("b")));
    assert_eq!(it.next(), Some(String::from("b")));
}

#[test]
fn parent_and_odd_dot_names() {
    assert_eq!(extensions_lossy("a/..."), [""]);
    assert_eq!(extensions_lossy("/a.b/..x"), ["x", "b"]);
}

use path_utils::PathExt;

fn exts_lossy(p: &str) -> Vec<String> {
    p.extensions_lossy().collect_vec()
}

#[test]
fn extensions_lossy() {
    assert!("/path/to/file".extensions_lossy().next().is_none());

    assert!(String::from("/path/to/.file")
        .extensions_lossy()
        .next()
        .is_none());

    assert_eq!(exts_lossy("/path/to/file.tar"), ["tar"]);
    assert_eq!(exts_lossy("/path/to/.file.tar"), ["tar"]);
    assert_eq!(exts_lossy("/path/to/file.tar.gz"), ["gz", "tar"]);
}

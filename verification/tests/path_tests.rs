use mgr::cbz::{is_cbz, mokuro_path};
use mgr::path::{extension, file_name, file_stem, join, with_extension};

#[test]
fn is_cbz_ignores_ascii_case() {
    assert!(is_cbz("volume.cbz"));
    assert!(is_cbz("dir/Vol 01.CBZ"));
    assert!(is_cbz("a/b.CbZ"));
    assert!(!is_cbz("volume.zip"));
    assert!(!is_cbz("volume.cbzx"));
    assert!(!is_cbz("cbz"));
    assert!(!is_cbz(".cbz"));
    assert!(!is_cbz(""));
}

#[test]
fn is_cbz_uses_the_final_component() {
    assert!(is_cbz("dir/volume.cbz/"));
    assert!(is_cbz("dir/volume.cbz/."));
    assert!(!is_cbz("volume.cbz/.."));
    assert!(!is_cbz("archive.cbz/inner"));
    assert!(is_cbz("第1巻.cbz"));
}

#[test]
fn file_name_follows_path_rules() {
    assert_eq!(file_name("a/b/c.txt"), Some("c.txt"));
    assert_eq!(file_name("a/b/"), Some("b"));
    assert_eq!(file_name("a/b/./"), Some("b"));
    assert_eq!(file_name("/"), None);
    assert_eq!(file_name(""), None);
    assert_eq!(file_name("."), None);
    assert_eq!(file_name("a/.."), None);
    assert_eq!(file_name("./x"), Some("x"));
}

#[test]
fn extension_and_stem() {
    assert_eq!(extension("a/b.tar.gz"), Some("gz"));
    assert_eq!(file_stem("a/b.tar.gz"), Some("b.tar"));
    assert_eq!(extension(".bashrc"), None);
    assert_eq!(file_stem(".bashrc"), Some(".bashrc"));
    assert_eq!(extension("..x"), Some("x"));
    assert_eq!(extension("foo."), Some(""));
    assert_eq!(extension("foo"), None);
    assert_eq!(file_stem("foo"), Some("foo"));
    assert_eq!(file_stem(".."), None);
}

#[test]
fn with_extension_replaces_or_adds() {
    assert_eq!(with_extension("dir/vol.cbz", "mokuro"), "dir/vol.mokuro");
    assert_eq!(with_extension("dir/vol", "mokuro"), "dir/vol.mokuro");
    assert_eq!(with_extension("dir/vol.cbz/", "mokuro"), "dir/vol.mokuro");
    assert_eq!(with_extension("/", "mokuro"), "/");
    assert_eq!(with_extension(".hidden", "mokuro"), ".hidden.mokuro");
}

#[test]
fn mokuro_file_shares_the_volume_name() {
    assert_eq!(mokuro_path("volume.cbz"), "volume.mokuro");
    assert_eq!(mokuro_path("manga/Vol.2.CBZ"), "manga/Vol.2.mokuro");
}

#[test]
fn join_adds_a_separator_when_needed() {
    assert_eq!(join("manga", "v1.cbz"), "manga/v1.cbz");
    assert_eq!(join("manga/", "v1.cbz"), "manga/v1.cbz");
    assert_eq!(join("", "v1.cbz"), "v1.cbz");
    assert_eq!(join("manga", "/abs/v1.cbz"), "/abs/v1.cbz");
    assert_eq!(join("a", ""), "a/");
}

#[test]
fn joined_plain_name_is_the_file_name() {
    for base in ["", "/", "dir", "dir/sub/", "."] {
        let joined = join(base, "Vol 3.cbz");
        assert_eq!(file_name(&joined), Some("Vol 3.cbz"));
        assert_eq!(extension(&joined), Some("cbz"));
    }
}

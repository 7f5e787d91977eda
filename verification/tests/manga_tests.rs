use mgr::global_index::{collect_readlist_page_counts, GlobalIndex, PageCountError};
use mgr::image::DimensionError;
use mgr::manga::{ListedFile, Manga, MangaError, NamedFile};
use std::io::{Cursor, Write};
use zip::write::SimpleFileOptions;
use zip::ZipWriter;
use mgr::readlist::{cbz_file_names, file_entries, FileEntry, ReadListError};

fn png(width: u32, height: u32) -> Vec<u8> {
    let mut v = vec![0x89, 0x50, 0x4E, 0x47, 0x0D, 0x0A, 0x1A, 0x0A, 0, 0, 0, 13, b'I', b'H', b'D', b'R'];
    v.extend_from_slice(&width.to_be_bytes());
    v.extend_from_slice(&height.to_be_bytes());
    v.extend_from_slice(&[8, 6, 0, 0, 0]);
    v
}

fn zip_of(files: &[(&str, Vec<u8>)]) -> Vec<u8> {
    let mut w = ZipWriter::new(Cursor::new(Vec::new()));
    for (name, data) in files {
        w.start_file(*name, SimpleFileOptions::default()).unwrap();
        w.write_all(data).unwrap();
    }
    w.finish().unwrap().into_inner()
}

fn archive(pages: &[&str]) -> Vec<u8> {
    let files: Vec<(&str, Vec<u8>)> = pages.iter().map(|p| (*p, png(1, 1))).collect();
    zip_of(&files)
}

fn named(path: &str, pages: &[&str]) -> NamedFile {
    NamedFile { path: path.to_string(), is_file: true, mokuro_exists: false, archive: Some(archive(pages)) }
}

fn listed(name: &str, pages: &[&str]) -> ListedFile {
    ListedFile {
        entry: FileEntry { name: name.to_string(), mokuro: None },
        is_file: true,
        archive: Some(archive(pages)),
    }
}

fn open_list(dir: &str, files: Vec<ListedFile>, file: &str, page: u32, scroll_ok: bool) -> Result<Manga, MangaError> {
    Manga::from_readlist(dir, files, &file.to_string(), page, scroll_ok)
}

fn page_names(m: &Manga, v: usize) -> Vec<String> {
    m.volumes[v].pages.iter().map(|p| p.name.clone()).collect()
}

#[test]
fn single_volume_titles_the_manga() {
    let m = Manga::new(vec![named("one.cbz", &["1.png"])]).unwrap();
    assert_eq!(m.title, "one.cbz");
    assert_eq!(m.path, ".");
    assert_eq!(m.volumes.len(), 1);
    assert_eq!(m.volumes[0].name, "one.cbz");
    let m = Manga::new(vec![named("a.cbz", &["1.png"]), named("b.cbz", &["1.png"])]).unwrap();
    assert_eq!(m.title, "mgr");
    let m = Manga::new(Vec::new()).unwrap();
    assert_eq!(m.title, "mgr");
    assert!(m.volumes.is_empty());
}

#[test]
fn named_volumes_keep_argument_order_and_sort_pages() {
    let m = Manga::new(vec![named("b.cbz", &["p10.png", "p2.png"]), named("a.cbz", &["x.png"])]).unwrap();
    assert_eq!(m.volumes[0].name, "b.cbz");
    assert_eq!(m.volumes[1].name, "a.cbz");
    assert_eq!(page_names(&m, 0), vec!["p2.png", "p10.png"]);
}

#[test]
fn named_volume_finds_its_ocr_file() {
    let mut f = named("dir/vol 1.cbz", &["1.png"]);
    f.mokuro_exists = true;
    let m = Manga::new(vec![f, named("v2.cbz", &["1.png"])]).unwrap();
    assert_eq!(m.volumes[0].mokuro.as_deref(), Some("dir/vol 1.mokuro"));
    assert_eq!(m.volumes[1].mokuro, None);
}

#[test]
fn named_volume_errors() {
    let mut missing = named("v.cbz", &["1.png"]);
    missing.is_file = false;
    assert_eq!(Manga::new(vec![missing]).unwrap_err(), MangaError::NoFile { index: 0 });
    let r = Manga::new(vec![named("a.cbz", &["1.png"]), named("v.zip", &["1.png"])]);
    assert_eq!(r.unwrap_err(), MangaError::UnsupportedFileType { index: 1 });
    let mut unreadable = named("v.cbz", &[]);
    unreadable.archive = None;
    assert_eq!(Manga::new(vec![unreadable]).unwrap_err(), MangaError::ReadFailed { index: 0 });
    let mut not_zip = named("v.cbz", &[]);
    not_zip.archive = Some(b"plain text, not an archive".to_vec());
    match Manga::new(vec![named("a.cbz", &["1.png"]), not_zip]).unwrap_err() {
        MangaError::ArchiveUnreadable { index, message } => {
            assert_eq!(index, 1);
            assert!(!message.is_empty());
        }
        other => panic!("unexpected error {other:?}"),
    }
    let mut bad_image = named("v.cbz", &[]);
    bad_image.archive = Some(zip_of(&[("1.png", png(1, 1)), ("2.png", png(1, 1)[..16].to_vec())]));
    let e = Manga::new(vec![bad_image]).unwrap_err();
    assert_eq!(e, MangaError::BadImage { index: 0, error: DimensionError::UnexpectedEof });
    let mut no_images = named("v.cbz", &[]);
    no_images.archive = Some(zip_of(&[("notes.txt", b"nothing to see here".to_vec())]));
    assert_eq!(Manga::new(vec![no_images]).unwrap_err(), MangaError::NoImagePages { index: 0 });
    assert_eq!(Manga::new(vec![named("V.CBZ", &["1.png"])]).unwrap().volumes.len(), 1);
}

#[test]
fn first_failing_volume_is_reported() {
    let mut missing = named("c.cbz", &["1.png"]);
    missing.is_file = false;
    let r = Manga::new(vec![named("a.cbz", &["1.png"]), named("b.txt", &["1.png"]), missing]);
    assert_eq!(r.unwrap_err(), MangaError::UnsupportedFileType { index: 1 });
}

#[test]
fn read_list_manga_is_titled_by_its_directory() {
    let m = open_list("/home/me/Manga Title/", vec![listed("v1.cbz", &["1.png"])], "v1.cbz", 1, true).unwrap();
    assert_eq!(m.title, "Manga Title");
    assert_eq!(m.path, "/home/me/Manga Title/");
    let m = open_list("/", vec![listed("v1.cbz", &["1.png"])], "v1.cbz", 1, true).unwrap();
    assert_eq!(m.title, "mgr");
    let m = open_list("..", vec![listed("v1.cbz", &["1.png"])], "v1.cbz", 1, true).unwrap();
    assert_eq!(m.title, "mgr");
}

#[test]
fn read_list_volumes_follow_the_list() {
    let mut second = listed("a.cbz", &["2.png", "1.png"]);
    second.entry.mokuro = Some("a.mokuro".to_string());
    let m = open_list("manga", vec![listed("b.cbz", &["1.png"]), second], "a.cbz", 2, true).unwrap();
    assert_eq!(m.volumes.len(), 2);
    assert_eq!(m.volumes[0].name, "b.cbz");
    assert_eq!(m.volumes[0].mokuro, None);
    assert_eq!(m.volumes[1].name, "a.cbz");
    assert_eq!(m.volumes[1].mokuro.as_deref(), Some("a.mokuro"));
    assert_eq!(page_names(&m, 1), vec!["1.png", "2.png"]);
}

#[test]
fn read_list_checks_in_order() {
    let files = || vec![listed("a.cbz", &["1.png"]), listed("b.cbz", &["1.png"])];
    assert_eq!(open_list("manga", Vec::new(), "b.cbz", 0, false).unwrap_err(), MangaError::EmptyReadList);
    assert_eq!(open_list("manga", files(), "b.cbz", 0, false).unwrap_err(), MangaError::PageBelowOne);
    assert_eq!(open_list("manga", files(), "b.cbz", 1, false).unwrap_err(), MangaError::ScrollOutOfRange);
    assert_eq!(open_list("manga", files(), "c.cbz", 1, true).unwrap_err(), MangaError::ProgressFileMissing);
    assert!(open_list("manga", files(), "b.cbz", 1, true).is_ok());
}

#[test]
fn page_zero_is_refused_before_any_volume_opens() {
    let mut missing = listed("a.cbz", &["1.png"]);
    missing.is_file = false;
    assert_eq!(open_list("manga", vec![missing], "a.cbz", 0, true).unwrap_err(), MangaError::PageBelowOne);
}

#[test]
fn read_list_volume_errors() {
    let mut missing = listed("a.cbz", &["1.png"]);
    missing.is_file = false;
    assert_eq!(open_list("manga", vec![missing], "a.cbz", 1, true).unwrap_err(), MangaError::NoFile { index: 0 });
    let r = open_list("manga", vec![listed("a.cbz", &["1.png"]), listed("b.zip", &["1.png"])], "a.cbz", 1, true);
    assert_eq!(r.unwrap_err(), MangaError::UnsupportedFileType { index: 1 });
    let mut unreadable = listed("a.cbz", &[]);
    unreadable.archive = None;
    assert_eq!(open_list("manga", vec![unreadable], "a.cbz", 1, true).unwrap_err(), MangaError::ReadFailed { index: 0 });
    let r = open_list("manga", vec![listed("a.cbz", &[])], "a.cbz", 1, true);
    assert_eq!(r.unwrap_err(), MangaError::NoImagePages { index: 0 });
}

#[test]
fn read_list_file_name_is_checked_on_the_joined_path() {
    // The directory's own extension does not make its files archives.
    let r = open_list("x.cbz", vec![listed("notes", &["1.png"])], "notes", 1, true);
    assert_eq!(r.unwrap_err(), MangaError::UnsupportedFileType { index: 0 });
}

#[test]
fn saved_page_must_lie_in_its_volume() {
    let files = || vec![listed("a.cbz", &["1.png", "2.png"]), listed("b.cbz", &["1.png", "2.png", "3.png"])];
    let r = open_list("manga", files(), "a.cbz", 3, true);
    assert_eq!(r.unwrap_err(), MangaError::PageOutOfRange { index: 0, pages: 2 });
    assert!(open_list("manga", files(), "a.cbz", 2, true).is_ok());
    assert!(open_list("manga", files(), "b.cbz", 3, true).is_ok());
    let r = open_list("manga", files(), "b.cbz", 4, true);
    assert_eq!(r.unwrap_err(), MangaError::PageOutOfRange { index: 1, pages: 3 });
}

#[test]
fn read_list_files_are_cbz_in_natural_order() {
    let names: Vec<String> = ["Vol 10.cbz", "cover.jpg", "Vol 2.CBZ", "Vol 1.cbz", "notes"]
        .iter()
        .map(|s| s.to_string())
        .collect();
    assert_eq!(cbz_file_names(names).unwrap(), vec!["Vol 1.cbz", "Vol 2.CBZ", "Vol 10.cbz"]);
    assert_eq!(cbz_file_names(vec!["a.txt".to_string()]), Err(ReadListError::NoCbzFiles));
    assert_eq!(cbz_file_names(Vec::new()), Err(ReadListError::NoCbzFiles));
}

#[test]
fn file_entries_name_their_ocr_files() {
    let e = file_entries(vec![("v1.cbz".to_string(), true), ("v2.cbz".to_string(), false)]);
    assert_eq!(e.len(), 2);
    assert_eq!(e[0].name, "v1.cbz");
    assert_eq!(e[0].mokuro.as_deref(), Some("v1.mokuro"));
    assert_eq!(e[1].name, "v2.cbz");
    assert_eq!(e[1].mokuro, None);
}

#[test]
fn page_counts_of_a_read_list() {
    let ok = collect_readlist_page_counts(vec![("a.cbz".to_string(), Some(3)), ("b.cbz".to_string(), Some(5))]).unwrap();
    assert_eq!(ok, vec![("a.cbz".to_string(), 3), ("b.cbz".to_string(), 5)]);
    assert_eq!(
        collect_readlist_page_counts(vec![("a".to_string(), Some(3)), ("b".to_string(), None), ("c".to_string(), Some(0))]),
        Err(PageCountError::LoadFailed(1))
    );
    assert_eq!(
        collect_readlist_page_counts(vec![("a".to_string(), Some(0)), ("b".to_string(), None)]),
        Err(PageCountError::NoPages(0))
    );
    assert_eq!(collect_readlist_page_counts(Vec::new()).unwrap(), Vec::new());
}

#[test]
fn global_index_flattens_pages_in_order() {
    let mut m = Manga::new(vec![named("v1.cbz", &["2.png", "1.png"]), named("v2.cbz", &["1.png"])]).unwrap();
    m.path = "lib".to_string();
    let index = GlobalIndex::from_manga(m);
    assert_eq!(index.title(), "mgr");
    assert_eq!(index.page_count(), 3);
    let p = index.page(1).unwrap();
    assert_eq!(p.archive_path, "lib/v1.cbz");
    assert_eq!(p.page_name, "2.png");
    assert_eq!(p.mime, "image/png");
    let p = index.page(2).unwrap();
    assert_eq!(p.archive_path, "lib/v2.cbz");
    assert_eq!(p.page_name, "1.png");
    assert!(index.page(3).is_none());
}

#[test]
fn global_index_of_several_mangas() {
    let a = open_list("x", vec![listed("a.cbz", &["1.png"])], "a.cbz", 1, true).unwrap();
    let b = open_list("/abs", vec![listed("b.cbz", &["1.png", "2.png"])], "b.cbz", 2, true).unwrap();
    let index = GlobalIndex::from_mangas("All".to_string(), vec![a, b]);
    assert_eq!(index.title(), "All");
    assert_eq!(index.page_count(), 3);
    assert_eq!(index.page(0).unwrap().archive_path, "x/a.cbz");
    assert_eq!(index.page(2).unwrap().archive_path, "/abs/b.cbz");
    assert_eq!(index.page(2).unwrap().page_name, "2.png");
}

#[test]
fn relisting_with_the_read_list_finds_the_same_files() {
    let first: Vec<String> = ["v10.cbz", "v2.cbz", "v1.cbz"].iter().map(|s| s.to_string()).collect();
    let again: Vec<String> = ["v1.cbz", "mgr.toml", "v10.cbz", "v2.cbz"].iter().map(|s| s.to_string()).collect();
    let a = cbz_file_names(first).unwrap();
    let b = cbz_file_names(again).unwrap();
    assert_eq!(a, b);
    assert_eq!(a, vec!["v1.cbz", "v2.cbz", "v10.cbz"]);
}

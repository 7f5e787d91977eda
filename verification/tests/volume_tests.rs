use mgr::cbz::{archive_entries, ArchiveEntry, ArchiveError, Page, Volume, VolumeError};
use mgr::image::{DimensionError, ImageFormat, ImageInfo};
use mgr::natural::natural_sort;
use std::io::{Cursor, Write};
use zip::write::SimpleFileOptions;
use zip::ZipWriter;

fn png(width: u32, height: u32) -> Vec<u8> {
    let mut v = vec![0x89, 0x50, 0x4E, 0x47, 0x0D, 0x0A, 0x1A, 0x0A, 0, 0, 0, 13, b'I', b'H', b'D', b'R'];
    v.extend_from_slice(&width.to_be_bytes());
    v.extend_from_slice(&height.to_be_bytes());
    v.extend_from_slice(&[8, 6, 0, 0, 0]);
    v
}

fn zip_with(dirs: &[&str], files: &[(&str, Vec<u8>)]) -> Vec<u8> {
    let mut w = ZipWriter::new(Cursor::new(Vec::new()));
    for d in dirs {
        w.add_directory(*d, SimpleFileOptions::default()).unwrap();
    }
    for (name, data) in files {
        w.start_file(*name, SimpleFileOptions::default()).unwrap();
        w.write_all(data).unwrap();
    }
    w.finish().unwrap().into_inner()
}

fn image(name: &str, w: u32) -> ArchiveEntry {
    ArchiveEntry {
        name: name.to_string(),
        is_dir: false,
        image: Some(ImageInfo { format: ImageFormat::Jpeg, dimensions: (w, 2 * w) }),
    }
}

#[test]
fn natural_sort_orders_numbers_by_value() {
    let names: Vec<String> = ["shot-2", "shot-1", "shot-11"].iter().map(|s| s.to_string()).collect();
    assert_eq!(natural_sort(names), vec!["shot-1", "shot-2", "shot-11"]);
}

#[test]
fn natural_sort_keeps_equal_names_and_handles_empty() {
    let names: Vec<String> = ["b", "a", "b", "a10", "a9"].iter().map(|s| s.to_string()).collect();
    assert_eq!(natural_sort(names), vec!["a", "a9", "a10", "b", "b"]);
    assert_eq!(natural_sort(Vec::<String>::new()), Vec::<String>::new());
}

#[test]
fn volume_pages_are_images_in_natural_order() {
    let entries = vec![
        ArchiveEntry { name: "vol/".to_string(), is_dir: true, image: None },
        image("vol/10.jpg", 10),
        ArchiveEntry { name: "vol/notes.txt".to_string(), is_dir: false, image: None },
        image("vol/2.jpg", 2),
        image("vol/1.jpg", 1),
    ];
    let v = Volume::new("vol.cbz".to_string(), Some("vol.mokuro".to_string()), entries).unwrap();
    assert_eq!(v.name, "vol.cbz");
    assert_eq!(v.mokuro.as_deref(), Some("vol.mokuro"));
    let names: Vec<&str> = v.pages.iter().map(|p| p.name.as_str()).collect();
    assert_eq!(names, vec!["vol/1.jpg", "vol/2.jpg", "vol/10.jpg"]);
    assert_eq!(v.pages[2].dimensions, (10, 20));
    assert_eq!(v.pages[0].mime, "image/jpeg");
}

#[test]
fn volume_without_images_is_refused() {
    let entries = vec![
        ArchiveEntry { name: "a/".to_string(), is_dir: true, image: None },
        ArchiveEntry { name: "readme".to_string(), is_dir: false, image: None },
    ];
    assert_eq!(Volume::new("x.cbz".to_string(), None, entries).unwrap_err(), VolumeError::NoImagePages);
    assert_eq!(Volume::new("y.cbz".to_string(), None, Vec::new()).unwrap_err(), VolumeError::NoImagePages);
}

#[test]
fn directory_entries_never_become_pages() {
    let mut dir = image("d/", 5);
    dir.is_dir = true;
    let v = Volume::new("v.cbz".to_string(), None, vec![dir, image("d/p.png", 1)]).unwrap();
    assert_eq!(v.pages.len(), 1);
    assert_eq!(v.pages[0].name, "d/p.png");
}

#[test]
fn natural_sort_breaks_ties_by_leading_zeros_and_keeps_wide_characters_after_numbers() {
    let names: Vec<String> = ["001", "1", "01"].iter().map(|s| s.to_string()).collect();
    assert_eq!(natural_sort(names), vec!["1", "01", "001"]);
    let names: Vec<String> = ["第1-2章", "第1章", "中", "1"].iter().map(|s| s.to_string()).collect();
    assert_eq!(natural_sort(names), vec!["1", "中", "第1章", "第1-2章"]);
}

#[test]
fn archive_entries_are_listed_and_classified_in_order() {
    let bytes = zip_with(&["vol/"], &[("vol/2.png", png(640, 480)), ("vol/notes.txt", b"hello".to_vec())]);
    let entries = archive_entries(&bytes).unwrap();
    assert_eq!(entries.len(), 3);
    assert_eq!(entries[0].name, "vol/");
    assert!(entries[0].is_dir);
    assert_eq!(entries[0].image, None);
    assert_eq!(entries[1].name, "vol/2.png");
    assert!(!entries[1].is_dir);
    assert_eq!(entries[1].image, Some(ImageInfo { format: ImageFormat::Png, dimensions: (640, 480) }));
    assert_eq!(entries[2].name, "vol/notes.txt");
    assert_eq!(entries[2].image, None);
}

#[test]
fn archive_entry_errors() {
    match archive_entries(b"not an archive at all") {
        Err(ArchiveError::Unreadable(message)) => assert!(!message.is_empty()),
        other => panic!("unexpected {other:?}"),
    }
    let truncated = png(1, 1)[..20].to_vec();
    let bytes = zip_with(&[], &[("a.png", png(1, 1)), ("b.png", truncated.clone()), ("c.png", truncated)]);
    match archive_entries(&bytes) {
        Err(e) => assert_eq!(e, ArchiveError::Image(DimensionError::UnexpectedEof)),
        Ok(_) => panic!("a truncated image header must be refused"),
    }
    assert!(archive_entries(&zip_with(&[], &[])).unwrap().is_empty());
}

#[test]
fn page_bytes_come_from_the_named_entry() {
    let bytes = zip_with(&[], &[("p1.png", png(3, 4)), ("p2.png", png(5, 6))]);
    let page = Page { name: "p2.png".to_string(), mime: "image/png", dimensions: (5, 6) };
    assert_eq!(page.load_bytes(&bytes), Ok(png(5, 6)));
    assert_eq!(Page::load_bytes_sync(&bytes, "p1.png"), Ok(png(3, 4)));
    assert!(Page::load_bytes_sync(&bytes, "missing.png").is_err());
    assert!(Page::load_bytes_sync(b"garbage", "p1.png").is_err());
}

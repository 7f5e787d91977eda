use mgr::cbz::{ArchiveEntry, Volume};
use mgr::error::AppError;
use mgr::image::{ImageFormat, ImageInfo};
use mgr::routes::{asset_mime, find_mokuro, find_volume, locate_page, shown_page_names, RouteError};

fn volume(name: &str, mokuro: Option<&str>, pages: &[&str]) -> Volume {
    let entries = pages
        .iter()
        .map(|p| ArchiveEntry {
            name: p.to_string(),
            is_dir: false,
            image: Some(ImageInfo { format: ImageFormat::Jpeg, dimensions: (1, 1) }),
        })
        .collect();
    Volume::new(name.to_string(), mokuro.map(|m| m.to_string()), entries).unwrap()
}

#[test]
fn asset_media_types() {
    assert_eq!(asset_mime("app.js"), "application/javascript");
    assert_eq!(asset_mime("style.css"), "text/css");
    assert_eq!(asset_mime("index.html"), "text/html");
    assert_eq!(asset_mime("font.woff2"), "application/octet-stream");
    assert_eq!(asset_mime("APP.JS"), "application/octet-stream");
    assert_eq!(asset_mime("Makefile"), "application/octet-stream");
}

#[test]
fn pages_are_located_by_volume_name_and_number() {
    let vols = vec![volume("a.cbz", None, &["1.jpg", "2.jpg"]), volume("b.cbz", Some("b.mokuro"), &["1.jpg"])];
    assert_eq!(locate_page(&vols, "a.cbz", 2), Ok((0, 1)));
    assert_eq!(locate_page(&vols, "b.cbz", 1), Ok((1, 0)));
    assert_eq!(locate_page(&vols, "a.cbz", 0), Err(RouteError::PageNotFound));
    assert_eq!(locate_page(&vols, "a.cbz", 3), Err(RouteError::PageNotFound));
    assert_eq!(locate_page(&vols, "c.cbz", 1), Err(RouteError::VolumeNotFound));
    assert_eq!(find_volume(&vols, "b.cbz"), Some(1));
    assert_eq!(find_volume(&vols, "B.cbz"), None);
}

#[test]
fn mokuro_of_the_first_matching_volume() {
    let vols = vec![
        volume("a.cbz", None, &["1.jpg"]),
        volume("b.cbz", Some("b.mokuro"), &["1.jpg"]),
        volume("a.cbz", Some("late.mokuro"), &["1.jpg"]),
    ];
    assert_eq!(find_mokuro(&vols, "b.cbz").map(|s| s.as_str()), Some("b.mokuro"));
    assert_eq!(find_mokuro(&vols, "a.cbz"), None);
    assert_eq!(find_mokuro(&vols, "zzz"), None);
}

#[test]
fn folder_prefix_is_hidden_when_all_pages_share_it() {
    let v = volume("dir/Vol 1.cbz", None, &["Vol 1/001.jpg", "Vol 1/002.jpg"]);
    assert_eq!(shown_page_names(&v), vec!["001.jpg", "002.jpg"]);
    let w = volume("Vol 1.cbz", None, &["Vol 1/001.jpg", "extra/002.jpg"]);
    assert_eq!(shown_page_names(&w), vec!["Vol 1/001.jpg", "extra/002.jpg"]);
    let x = volume("x.cbz", None, &["x/a.jpg", "xa.jpg"]);
    assert_eq!(shown_page_names(&x), vec!["x/a.jpg", "xa.jpg"]);
}

#[test]
fn app_error_from_message_and_io() {
    match AppError::from("boom".to_string()) {
        AppError::Message(m) => assert_eq!(m, "boom"),
        _ => panic!("expected a message"),
    }
    match AppError::from(std::io::Error::new(std::io::ErrorKind::Other, "io")) {
        AppError::Io(e) => assert_eq!(e.kind(), std::io::ErrorKind::Other),
        _ => panic!("expected an io error"),
    }
}

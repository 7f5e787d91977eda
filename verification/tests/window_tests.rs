use mgr::cbz::{ArchiveEntry, Volume};
use mgr::image::{ImageFormat, ImageInfo};
use mgr::manga::Manga;
use mgr::window::{window_bounds, Window};
use std::sync::Arc;

fn window(pages: usize, back: u32, forward: u32) -> Window {
    let entries = (0..pages)
        .map(|i| ArchiveEntry {
            name: format!("{i}.webp"),
            is_dir: false,
            image: Some(ImageInfo { format: ImageFormat::Webp, dimensions: (1, 1) }),
        })
        .collect();
    let v = Volume::new("v.cbz".to_string(), None, entries).unwrap();
    let manga = Manga { path: ".".to_string(), title: "v.cbz".to_string(), volumes: vec![v] };
    Window::new(manga, back, forward)
}

#[test]
fn bounds_saturate_and_stop_at_the_last_page() {
    assert_eq!(window_bounds(10, 100, 6, 8), Some((4, 18)));
    assert_eq!(window_bounds(2, 100, 6, 8), Some((0, 10)));
    assert_eq!(window_bounds(95, 100, 6, 8), Some((89, 99)));
    assert_eq!(window_bounds(u32::MAX - 1, 100, 6, 8), Some((u32::MAX - 7, 99)));
    assert_eq!(window_bounds(0, 0, 6, 8), None);
    assert_eq!(window_bounds(0, 1, 0, 0), Some((0, 0)));
}

#[test]
fn window_describes_its_pages() {
    let w = window(3, 1, 1);
    assert_eq!(w.title(), "v.cbz");
    assert_eq!(w.page_count(), 3);
    assert_eq!(w.page_mime(2), Some("image/webp"));
    assert_eq!(w.page_mime(3), None);
    assert_eq!(w.prefetch_bounds(1), Some((0, 2)));
}

#[test]
fn cache_keeps_the_first_stored_bytes() {
    let mut w = window(4, 1, 1);
    assert!(w.get_cached_page(1).is_none());
    let first = w.store_loaded_page(1, Arc::new(vec![1, 2, 3]));
    assert_eq!(*first, vec![1, 2, 3]);
    let again = w.store_loaded_page(1, Arc::new(vec![9]));
    assert_eq!(*again, vec![1, 2, 3]);
    assert_eq!(*w.get_cached_page(1).unwrap(), vec![1, 2, 3]);
}

#[test]
fn a_page_is_prefetched_once_at_a_time() {
    let mut w = window(4, 1, 1);
    assert!(w.begin_prefetch_page(2));
    assert!(!w.begin_prefetch_page(2));
    w.finish_prefetch_page(2, None);
    assert!(w.begin_prefetch_page(2));
    w.finish_prefetch_page(2, Some(Arc::new(vec![7])));
    assert!(!w.begin_prefetch_page(2));
    assert_eq!(*w.get_cached_page(2).unwrap(), vec![7]);
}

#[test]
fn retaining_drops_pages_outside_the_window() {
    let mut w = window(10, 1, 1);
    for i in 0..10u32 {
        w.store_loaded_page(i, Arc::new(vec![i as u8]));
    }
    w.retain_window(3, 5);
    for i in 0..10u32 {
        assert_eq!(w.get_cached_page(i).is_some(), (3..=5).contains(&i));
    }
    assert_eq!(*w.get_cached_page(4).unwrap(), vec![4]);
}

#[test]
fn one_prefetch_task_runs_at_a_time() {
    let mut w = window(10, 1, 1);
    assert_eq!(w.latest_center(), 0);
    w.record_center(3);
    assert_eq!(w.latest_center(), 3);
    assert!(w.try_start_prefetch());
    assert!(!w.try_start_prefetch());
    w.record_center(5);
    assert!(!w.finish_prefetch_round(3));
    assert!(!w.try_start_prefetch());
    assert!(w.finish_prefetch_round(5));
    assert!(w.try_start_prefetch());
}

#[test]
fn clearing_marks_restores_the_prefetch_set() {
    let mut w = window(6, 1, 1);
    assert!(w.begin_prefetch_page(2));
    w.finish_prefetch_page(4, None);
    assert!(!w.begin_prefetch_page(2));
    assert!(w.begin_prefetch_page(3));
    w.finish_prefetch_page(3, None);
    assert!(!w.begin_prefetch_page(2));
    assert!(w.begin_prefetch_page(3));
}

#[test]
fn mark_then_unmark_restores_the_marks() {
    let mut w = window(6, 1, 1);
    assert!(w.mark_inflight(2));
    assert!(!w.mark_inflight(2));
    w.unmark_inflight(5);
    assert!(!w.mark_inflight(2));
    w.unmark_inflight(2);
    assert!(w.mark_inflight(2));
}

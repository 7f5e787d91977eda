//! The page cache of the reader and the window of pages prefetched around
//! the page being read.

use crate::global_index::{ref_view, GlobalIndex, GlobalPageRef, PageRefView};
use crate::manga::Manga;
use crate::global_index::volumes_refs;
use std::collections::{HashMap, HashSet};
use std::sync::Arc;
use vstd::prelude::*;
use vstd::std_specs::iter::IteratorSpec;

verus! {

broadcast use vstd::std_specs::hash::group_hash_axioms;

/// The bytes of one page, shared between the cache and its readers.
pub type PageBytes = Arc<Vec<u8>>;

/// `Arc::clone`: a new handle to the same bytes. The contract claims that the
/// handle holds the same value.
#[verifier::external_body]
fn share(bytes: &PageBytes) -> (r: PageBytes)
    ensures
        r == *bytes,
{
    Arc::clone(bytes)
}

/// The pages to prefetch around `center`, as an inclusive range: `back` pages
/// before it (stopping at the first page) and `forward` after it (stopping at
/// the last), or none when there are no pages.
pub open spec fn spec_window_bounds(center: u32, total_pages: usize, back: u32, forward: u32) -> Option<(u32, u32)> {
    if total_pages == 0 {
        None
    } else {
        let last = (total_pages as u32) - 1;
        let start = if center >= back { center - back } else { 0 };
        let far = if center + forward > u32::MAX { u32::MAX as int } else { center + forward };
        let end = if far < last { far } else { last };
        Some((start as u32, end as u32))
    }
}

/// The page count must not be a nonzero multiple of 2^32, whose last page
/// number would not fit in 32 bits.
pub open spec fn page_count_fits(total_pages: usize) -> bool {
    total_pages == 0 || total_pages as u32 > 0
}

/// The pages to prefetch around `center`.
pub fn window_bounds(center: u32, total_pages: usize, prefetch_back: u32, prefetch_forward: u32) -> (r: Option<(u32, u32)>)
    requires
        page_count_fits(total_pages),
    ensures
        r == spec_window_bounds(center, total_pages, prefetch_back, prefetch_forward),
{
    if total_pages == 0 {
        return None;
    }
    let last: u32 = total_pages as u32 - 1;
    let start: u32 = center.saturating_sub(prefetch_back);
    let far: u32 = center.saturating_add(prefetch_forward);
    let end: u32 = if far < last { far } else { last };
    Some((start, end))
}

/// The cache after a page is stored: a page already cached stays as it is.
pub open spec fn spec_store(cache: Map<u32, PageBytes>, index: u32, bytes: PageBytes) -> Map<u32, PageBytes> {
    if cache.contains_key(index) {
        cache
    } else {
        cache.insert(index, bytes)
    }
}

/// Whether the prefetch task is to load page `index`, and the pages being
/// prefetched afterwards: a page that is cached or already being prefetched
/// is skipped; any other is marked.
pub open spec fn spec_begin_prefetch(cache: Map<u32, PageBytes>, inflight: Set<u32>, index: u32) -> (bool, Set<u32>) {
    if cache.contains_key(index) {
        (false, inflight)
    } else {
        (!inflight.contains(index), inflight.insert(index))
    }
}

/// Whether a start of the prefetch task goes ahead, and whether a task runs
/// afterwards: a start is refused while a task runs.
pub open spec fn spec_try_start(running: bool) -> (bool, bool) {
    (!running, true)
}

/// Whether a prefetch task stops after a round centred on `center`, and
/// whether a task runs afterwards: it stops when no other page has been read
/// since the round began.
pub open spec fn spec_finish_round(running: bool, latest_center: u32, center: u32) -> (bool, bool) {
    if latest_center == center {
        (true, false)
    } else {
        (false, running)
    }
}

/// The cache restricted to the pages `start..=end`.
pub open spec fn spec_retain(cache: Map<u32, PageBytes>, start: u32, end: u32) -> Map<u32, PageBytes> {
    cache.restrict(Set::new(|k: u32| start <= k <= end))
}

/// The pages of a manga, their cache, and the state of prefetching.
pub struct Window {
    index: GlobalIndex,
    cache: HashMap<u32, PageBytes>,
    inflight_prefetch: HashSet<u32>,
    latest_center: u32,
    prefetch_running: bool,
    prefetch_back: u32,
    prefetch_forward: u32,
}

impl Window {
    pub closed spec fn title_view(&self) -> Seq<char> {
        self.index.title_view()
    }

    pub closed spec fn pages_view(&self) -> Seq<PageRefView> {
        self.index.pages_view()
    }

    pub closed spec fn cache_view(&self) -> Map<u32, PageBytes> {
        self.cache@
    }

    pub closed spec fn inflight_view(&self) -> Set<u32> {
        self.inflight_prefetch@
    }

    pub closed spec fn latest_center_view(&self) -> u32 {
        self.latest_center
    }

    pub closed spec fn prefetch_running_view(&self) -> bool {
        self.prefetch_running
    }

    pub closed spec fn prefetch_back_view(&self) -> u32 {
        self.prefetch_back
    }

    pub closed spec fn prefetch_forward_view(&self) -> u32 {
        self.prefetch_forward
    }

    /// A window over the pages of `manga` with nothing cached.
    pub fn new(manga: Manga, prefetch_back: u32, prefetch_forward: u32) -> (w: Window)
        ensures
            w.title_view() == manga.title@,
            w.pages_view() == volumes_refs(manga.path@, manga.volumes@),
            w.cache_view() == Map::<u32, PageBytes>::empty(),
            w.inflight_view() == Set::<u32>::empty(),
            w.latest_center_view() == 0,
            !w.prefetch_running_view(),
            w.prefetch_back_view() == prefetch_back,
            w.prefetch_forward_view() == prefetch_forward,
    {
        Window {
            index: GlobalIndex::from_manga(manga),
            cache: HashMap::new(),
            inflight_prefetch: HashSet::new(),
            latest_center: 0,
            prefetch_running: false,
            prefetch_back,
            prefetch_forward,
        }
    }

    pub fn title(&self) -> (r: &str)
        ensures
            r@ == self.title_view(),
    {
        self.index.title()
    }

    pub fn page_count(&self) -> (r: usize)
        ensures
            r == self.pages_view().len(),
    {
        self.index.page_count()
    }

    /// Where the page at `index` is found, if there is one.
    pub fn page(&self, index: u32) -> (r: Option<&GlobalPageRef>)
        ensures
            match r {
                Some(p) => index < self.pages_view().len() && ref_view(*p) == self.pages_view()[index as int],
                None => index >= self.pages_view().len(),
            },
    {
        self.index.page(index)
    }

    /// The media type of the page at `index`, if there is one.
    pub fn page_mime(&self, index: u32) -> (r: Option<&'static str>)
        ensures
            match r {
                Some(m) => index < self.pages_view().len() && m == self.pages_view()[index as int].2,
                None => index >= self.pages_view().len(),
            },
    {
        match self.page(index) {
            Some(page) => Some(page.mime),
            None => None,
        }
    }

    /// The cached bytes of the page at `index`.
    pub fn get_cached_page(&self, index: u32) -> (r: Option<PageBytes>)
        ensures
            match r {
                Some(b) => self.cache_view().contains_key(index) && b == self.cache_view()[index],
                None => !self.cache_view().contains_key(index),
            },
    {
        match self.cache.get(&index) {
            Some(b) => Some(share(b)),
            None => None,
        }
    }

    /// Stores the loaded bytes of the page at `index` unless the page is
    /// cached already, and returns the cached bytes.
    pub fn store_loaded_page(&mut self, index: u32, loaded: PageBytes) -> (r: PageBytes)
        ensures
            final(self).cache_view() == spec_store(old(self).cache_view(), index, loaded),
            r == final(self).cache_view()[index],
            final(self).pages_view() == old(self).pages_view(),
            final(self).title_view() == old(self).title_view(),
            final(self).inflight_view() == old(self).inflight_view(),
            final(self).latest_center_view() == old(self).latest_center_view(),
            final(self).prefetch_running_view() == old(self).prefetch_running_view(),
            final(self).prefetch_back_view() == old(self).prefetch_back_view(),
            final(self).prefetch_forward_view() == old(self).prefetch_forward_view(),
    {
        match self.cache.get(&index) {
            Some(b) => share(b),
            None => {
                let kept = share(&loaded);
                self.cache.insert(index, loaded);
                kept
            },
        }
    }

    /// Marks the page at `index` as being prefetched; false when it was so
    /// marked already.
    pub fn mark_inflight(&mut self, index: u32) -> (r: bool)
        ensures
            r == !old(self).inflight_view().contains(index),
            final(self).inflight_view() == old(self).inflight_view().insert(index),
            final(self).cache_view() == old(self).cache_view(),
            final(self).pages_view() == old(self).pages_view(),
            final(self).title_view() == old(self).title_view(),
            final(self).latest_center_view() == old(self).latest_center_view(),
            final(self).prefetch_running_view() == old(self).prefetch_running_view(),
            final(self).prefetch_back_view() == old(self).prefetch_back_view(),
            final(self).prefetch_forward_view() == old(self).prefetch_forward_view(),
    {
        if self.inflight_prefetch.contains(&index) {
            assert(old(self).inflight_view().insert(index) =~= old(self).inflight_view());
            return false;
        }
        self.inflight_prefetch.insert(index);
        true
    }

    /// Clears the prefetch mark of the page at `index`.
    pub fn unmark_inflight(&mut self, index: u32)
        ensures
            final(self).inflight_view() == old(self).inflight_view().remove(index),
            final(self).cache_view() == old(self).cache_view(),
            final(self).pages_view() == old(self).pages_view(),
            final(self).title_view() == old(self).title_view(),
            final(self).latest_center_view() == old(self).latest_center_view(),
            final(self).prefetch_running_view() == old(self).prefetch_running_view(),
            final(self).prefetch_back_view() == old(self).prefetch_back_view(),
            final(self).prefetch_forward_view() == old(self).prefetch_forward_view(),
    {
        self.inflight_prefetch.remove(&index);
    }

    /// Whether `other` has the same pages, title and prefetch distances.
    pub open spec fn same_setup(&self, other: &Window) -> bool {
        &&& other.pages_view() == self.pages_view()
        &&& other.title_view() == self.title_view()
        &&& other.prefetch_back_view() == self.prefetch_back_view()
        &&& other.prefetch_forward_view() == self.prefetch_forward_view()
    }

    /// The page read last, on which prefetching centres.
    pub fn latest_center(&self) -> (r: u32)
        ensures
            r == self.latest_center_view(),
    {
        self.latest_center
    }

    /// Records `index` as the page now being read: prefetching centres on it.
    pub fn record_center(&mut self, index: u32)
        ensures
            final(self).latest_center_view() == index,
            old(self).same_setup(final(self)),
            final(self).cache_view() == old(self).cache_view(),
            final(self).inflight_view() == old(self).inflight_view(),
            final(self).prefetch_running_view() == old(self).prefetch_running_view(),
    {
        self.latest_center = index;
    }

    /// Starts a prefetch task unless one is running; true when this call
    /// started it.
    pub fn try_start_prefetch(&mut self) -> (r: bool)
        ensures
            (r, final(self).prefetch_running_view()) == spec_try_start(old(self).prefetch_running_view()),
            old(self).same_setup(final(self)),
            final(self).cache_view() == old(self).cache_view(),
            final(self).inflight_view() == old(self).inflight_view(),
            final(self).latest_center_view() == old(self).latest_center_view(),
    {
        if self.prefetch_running {
            false
        } else {
            self.prefetch_running = true;
            true
        }
    }

    /// Ends a prefetch round that centred on `center`. When no other page
    /// has been read meanwhile the task stops (true); otherwise another
    /// round is due around the latest page (false).
    pub fn finish_prefetch_round(&mut self, center: u32) -> (r: bool)
        ensures
            (r, final(self).prefetch_running_view()) == spec_finish_round(
                old(self).prefetch_running_view(),
                old(self).latest_center_view(),
                center,
            ),
            old(self).same_setup(final(self)),
            final(self).cache_view() == old(self).cache_view(),
            final(self).inflight_view() == old(self).inflight_view(),
            final(self).latest_center_view() == old(self).latest_center_view(),
    {
        if self.latest_center == center {
            self.prefetch_running = false;
            true
        } else {
            false
        }
    }

    /// The pages to prefetch around `center`.
    pub fn prefetch_bounds(&self, center: u32) -> (r: Option<(u32, u32)>)
        requires
            page_count_fits(self.pages_view().len() as usize),
        ensures
            r == spec_window_bounds(
                center,
                self.pages_view().len() as usize,
                self.prefetch_back_view(),
                self.prefetch_forward_view(),
            ),
    {
        window_bounds(center, self.page_count(), self.prefetch_back, self.prefetch_forward)
    }

    /// Decides whether the page at `index` is to be loaded by the prefetch
    /// task: not when it is cached or being prefetched already. When it is,
    /// it is marked as being prefetched.
    pub fn begin_prefetch_page(&mut self, index: u32) -> (r: bool)
        ensures
            (r, final(self).inflight_view()) == spec_begin_prefetch(
                old(self).cache_view(),
                old(self).inflight_view(),
                index,
            ),
            old(self).same_setup(final(self)),
            final(self).cache_view() == old(self).cache_view(),
            final(self).latest_center_view() == old(self).latest_center_view(),
            final(self).prefetch_running_view() == old(self).prefetch_running_view(),
    {
        if self.cache.contains_key(&index) {
            return false;
        }
        self.mark_inflight(index)
    }

    /// Ends the prefetch of the page at `index`: clears its mark and caches
    /// the loaded bytes, if loading succeeded and the page is not cached yet.
    pub fn finish_prefetch_page(&mut self, index: u32, loaded: Option<PageBytes>)
        ensures
            final(self).inflight_view() == old(self).inflight_view().remove(index),
            final(self).cache_view() == match loaded {
                Some(b) => spec_store(old(self).cache_view(), index, b),
                None => old(self).cache_view(),
            },
            old(self).same_setup(final(self)),
            final(self).latest_center_view() == old(self).latest_center_view(),
            final(self).prefetch_running_view() == old(self).prefetch_running_view(),
    {
        self.unmark_inflight(index);
        match loaded {
            Some(b) => {
                let _ = self.store_loaded_page(index, b);
            },
            None => {},
        }
    }

    /// Drops from the cache every page outside `start..=end`.
    pub fn retain_window(&mut self, start: u32, end: u32)
        ensures
            final(self).cache_view() == spec_retain(old(self).cache_view(), start, end),
            old(self).same_setup(final(self)),
            final(self).inflight_view() == old(self).inflight_view(),
            final(self).latest_center_view() == old(self).latest_center_view(),
            final(self).prefetch_running_view() == old(self).prefetch_running_view(),
    {
        let ghost before = self.cache@;
        let mut keys: Vec<u32> = Vec::new();
        let ghost all = self.cache.keys().remaining().unref();
        for k in it: self.cache.keys()
            invariant
                all == it.seq().unref(),
                keys@ =~= all.take(it.index() as int),
        {
            keys.push(*k);
        }
        assert(keys@ =~= all);
        assert(keys@.to_set() == before.dom());
        let mut i: usize = 0;
        while i < keys.len()
            invariant
                i <= keys@.len(),
                keys@.to_set() == before.dom(),
                self.cache@ == before.restrict(
                    before.dom().difference(
                        Set::new(|k: u32| keys@.take(i as int).contains(k) && !(start <= k <= end)),
                    ),
                ),
                self.index == old(self).index,
                self.inflight_prefetch == old(self).inflight_prefetch,
                self.latest_center == old(self).latest_center,
                self.prefetch_running == old(self).prefetch_running,
                self.prefetch_back == old(self).prefetch_back,
                self.prefetch_forward == old(self).prefetch_forward,
            decreases keys@.len() - i,
        {
            let k: u32 = keys[i];
            let ghost prev_cache = self.cache@;
            let ghost old_gone = Set::new(|x: u32| keys@.take(i as int).contains(x) && !(start <= x <= end));
            if k < start || k > end {
                self.cache.remove(&k);
            }
            assert(keys@.take(i + 1) =~= keys@.take(i as int).push(k));
            let ghost new_gone = Set::new(|x: u32| keys@.take(i + 1).contains(x) && !(start <= x <= end));
            let ghost t0 = keys@.take(i as int);
            let ghost t1 = keys@.take(i + 1);
            assert forall|x: u32| new_gone.contains(x) <==> (old_gone.contains(x) || (x == k && !(start <= k <= end))) by {
                assert(t1.contains(x) <==> (t0.contains(x) || x == k)) by {
                    if t1.contains(x) {
                        let j = choose|j: int| 0 <= j < t1.len() && #[trigger] t1[j] == x;
                        if j < i {
                            assert(t0[j] == x);
                        }
                    }
                    if t0.contains(x) {
                        let j = choose|j: int| 0 <= j < t0.len() && #[trigger] t0[j] == x;
                        assert(t1[j] == x);
                    }
                    if x == k {
                        assert(t1[i as int] == x);
                    }
                }
            }
            i = i + 1;
            assert(self.cache@ =~= before.restrict(before.dom().difference(new_gone)));
        }
        assert(keys@.take(i as int) =~= keys@);
        assert(self.cache@ =~= spec_retain(before, start, end)) by {
            assert forall|x: u32| #[trigger] before.dom().contains(x) implies keys@.contains(x) by {
                assert(keys@.to_set().contains(x));
            }
        }
    }
}

/// The prefetch window holds the page it centres on, reaches at most `back`
/// pages before it and `forward` pages after it, and stays within the pages.
pub proof fn lemma_window_holds_center(center: u32, total_pages: usize, back: u32, forward: u32)
    requires
        0 < total_pages <= u32::MAX,
        center < total_pages,
    ensures
        spec_window_bounds(center, total_pages, back, forward) matches Some((start, end)) && {
            &&& start <= center <= end < total_pages
            &&& center - start <= back
            &&& end - center <= forward
            &&& (start == 0 || center - start == back)
            &&& (end == total_pages - 1 || end - center == forward)
        },
{
    assert((total_pages as u32) == total_pages);
}

/// After a prefetch round, the cache holds no page outside the window, and
/// every page inside it that was cached stays cached with the same bytes.
pub proof fn lemma_retain_within_window(cache: Map<u32, PageBytes>, start: u32, end: u32)
    ensures
        forall|k: u32| #[trigger] spec_retain(cache, start, end).contains_key(k) ==> start <= k <= end,
        forall|k: u32|
            cache.contains_key(k) && start <= k <= end ==> #[trigger] spec_retain(cache, start, end).contains_key(k)
                && spec_retain(cache, start, end)[k] == cache[k],
{
}

/// A read gives back the first bytes stored for a page: storing again does
/// not replace them.
pub proof fn lemma_store_keeps_first(cache: Map<u32, PageBytes>, index: u32, first: PageBytes, second: PageBytes)
    ensures
        spec_store(cache, index, first).contains_key(index),
        spec_store(spec_store(cache, index, first), index, second)[index] == if cache.contains_key(index) {
            cache[index]
        } else {
            first
        },
        !cache.contains_key(index) ==> spec_store(cache, index, first)[index] == first,
{
}

/// A page is handed to the prefetch task at most once until its prefetch
/// ends: asking again is refused.
pub proof fn lemma_prefetch_once(cache: Map<u32, PageBytes>, inflight: Set<u32>, index: u32)
    ensures
        !spec_begin_prefetch(cache, spec_begin_prefetch(cache, inflight, index).1, index).0,
{
}

/// Once the prefetch of an uncached page has ended without caching it, the
/// page may be prefetched again.
pub proof fn lemma_prefetch_again_after_failure(cache: Map<u32, PageBytes>, inflight: Set<u32>, index: u32)
    requires
        !cache.contains_key(index),
    ensures
        spec_begin_prefetch(cache, spec_begin_prefetch(cache, inflight, index).1.remove(index), index).0,
{
}

/// At most one prefetch task runs: a second start is refused until a round
/// ends with no newer page read, after which a start goes ahead again.
pub proof fn lemma_one_prefetch_task(running: bool, latest_center: u32)
    ensures
        !spec_try_start(spec_try_start(running).1).0,
        spec_try_start(spec_finish_round(spec_try_start(running).1, latest_center, latest_center).1).0,
        forall|center: u32|
            center != latest_center ==> !spec_try_start(
                spec_finish_round(spec_try_start(running).1, latest_center, center).1,
            ).0,
{
}

/// A page that `begin_prefetch_page` marked, once cleared again by
/// `finish_prefetch_page`, leaves the set of pages being prefetched as it
/// was before the mark.
pub proof fn lemma_prefetch_mark_undone(cache: Map<u32, PageBytes>, inflight: Set<u32>, index: u32)
    requires
        spec_begin_prefetch(cache, inflight, index).0,
    ensures
        spec_begin_prefetch(cache, inflight, index).1.remove(index) == inflight,
{
    assert(inflight.insert(index).remove(index) =~= inflight);
}

/// Marking a page that is not marked (what `mark_inflight` does when it
/// answers `true`) and then clearing its mark (`unmark_inflight`) leaves the
/// set of pages being prefetched as it was; clearing the mark of a page that
/// is not marked changes nothing.
pub proof fn lemma_mark_then_unmark(inflight: Set<u32>, index: u32)
    requires
        !inflight.contains(index),
    ensures
        inflight.insert(index).remove(index) == inflight,
        inflight.remove(index) == inflight,
{
    assert(inflight.insert(index).remove(index) =~= inflight);
    assert(inflight.remove(index) =~= inflight);
}

} // verus!

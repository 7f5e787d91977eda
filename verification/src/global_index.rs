//! The pages of all opened volumes as one flat, numbered list.

use crate::cbz::{Page, Volume};
use crate::manga::Manga;
use crate::path::{join, spec_join};
use vstd::prelude::*;

verus! {

/// Where one page of the flat list is found.
#[derive(Clone, Debug)]
pub struct GlobalPageRef {
    /// Path of the archive that holds the page.
    pub archive_path: String,
    /// Name of the page's entry in the archive.
    pub page_name: String,
    /// Media type of the page.
    pub mime: &'static str,
}

/// A page reference as plain values: archive path, entry name, media type.
pub type PageRefView = (Seq<char>, Seq<char>, &'static str);

pub open spec fn ref_view(r: GlobalPageRef) -> PageRefView {
    (r.archive_path@, r.page_name@, r.mime)
}

/// The title and the flat list of pages of opened volumes.
#[derive(Clone, Debug)]
pub struct GlobalIndex {
    title: String,
    pages: Vec<GlobalPageRef>,
}

impl GlobalIndex {
    pub closed spec fn title_view(&self) -> Seq<char> {
        self.title@
    }

    pub closed spec fn pages_view(&self) -> Seq<PageRefView> {
        self.pages@.map_values(|r: GlobalPageRef| ref_view(r))
    }
}

/// The references of the pages of volume `v` in directory `base`, in page order.
pub open spec fn volume_refs(base: Seq<char>, v: Volume) -> Seq<PageRefView> {
    v.pages@.map_values(|p: Page| (spec_join(base, v.name@), p.name@, p.mime))
}

/// The references of the pages of `vs`, volume after volume.
pub open spec fn volumes_refs(base: Seq<char>, vs: Seq<Volume>) -> Seq<PageRefView>
    decreases vs.len(),
{
    if vs.len() == 0 {
        Seq::empty()
    } else {
        volumes_refs(base, vs.drop_last()) + volume_refs(base, vs.last())
    }
}

/// The references of the pages of `ms`, manga after manga.
pub open spec fn mangas_refs(ms: Seq<Manga>) -> Seq<PageRefView>
    decreases ms.len(),
{
    if ms.len() == 0 {
        Seq::empty()
    } else {
        mangas_refs(ms.drop_last()) + volumes_refs(ms.last().path@, ms.last().volumes@)
    }
}

/// Lists the pages of all volumes of `mangas`, in order.
fn flatten_pages(mangas: &Vec<Manga>) -> (r: Vec<GlobalPageRef>)
    ensures
        r@.map_values(|x: GlobalPageRef| ref_view(x)) == mangas_refs(mangas@),
{
    let mut out: Vec<GlobalPageRef> = Vec::new();
    let mut i: usize = 0;
    while i < mangas.len()
        invariant
            i <= mangas@.len(),
            out@.map_values(|x: GlobalPageRef| ref_view(x)) == mangas_refs(mangas@.take(i as int)),
        decreases mangas@.len() - i,
    {
        let manga = &mangas[i];
        let ghost done = mangas_refs(mangas@.take(i as int));
        let mut j: usize = 0;
        while j < manga.volumes.len()
            invariant
                i < mangas@.len(),
                *manga == mangas@[i as int],
                j <= manga.volumes@.len(),
                done == mangas_refs(mangas@.take(i as int)),
                out@.map_values(|x: GlobalPageRef| ref_view(x)) == done + volumes_refs(
                    manga.path@,
                    manga.volumes@.take(j as int),
                ),
            decreases manga.volumes@.len() - j,
        {
            let volume = &manga.volumes[j];
            let archive_path = join(manga.path.as_str(), volume.name.as_str());
            let ghost before = out@.map_values(|x: GlobalPageRef| ref_view(x));
            let ghost refs = volume_refs(manga.path@, *volume);
            let mut k: usize = 0;
            while k < volume.pages.len()
                invariant
                    *volume == manga.volumes@[j as int],
                    k <= volume.pages@.len(),
                    archive_path@ == spec_join(manga.path@, volume.name@),
                    refs == volume_refs(manga.path@, *volume),
                    out@.map_values(|x: GlobalPageRef| ref_view(x)) == before + refs.take(k as int),
                decreases volume.pages@.len() - k,
            {
                let page = &volume.pages[k];
                let ghost prev = out@;
                out.push(
                    GlobalPageRef {
                        archive_path: archive_path.clone(),
                        page_name: page.name.clone(),
                        mime: page.mime,
                    },
                );
                assert(out@ =~= prev.push(out@.last()));
                assert(refs.take(k + 1) =~= refs.take(k as int).push(refs[k as int]));
                assert(out@.map_values(|x: GlobalPageRef| ref_view(x)) =~= prev.map_values(
                    |x: GlobalPageRef| ref_view(x),
                ).push(ref_view(out@.last())));
                k = k + 1;
            }
            assert(refs.take(k as int) =~= refs);
            assert(manga.volumes@.take(j + 1).drop_last() =~= manga.volumes@.take(j as int));
            j = j + 1;
        }
        assert(manga.volumes@.take(j as int) =~= manga.volumes@);
        assert(mangas@.take(i + 1).drop_last() =~= mangas@.take(i as int));
        i = i + 1;
    }
    assert(mangas@.take(i as int) =~= mangas@);
    out
}

impl GlobalIndex {
    /// The index of one manga, under its own title.
    pub fn from_manga(manga: Manga) -> (r: GlobalIndex)
        ensures
            r.title_view() == manga.title@,
            r.pages_view() == volumes_refs(manga.path@, manga.volumes@),
    {
        let title = manga.title.clone();
        let ghost m = manga;
        let v = vec![manga];
        assert(v@ =~= seq![m]);
        assert(v@.drop_last() =~= Seq::<Manga>::empty());
        assert(mangas_refs(v@.drop_last()) == Seq::<PageRefView>::empty());
        assert(v@.last() == m);
        assert(mangas_refs(v@) =~= volumes_refs(m.path@, m.volumes@));
        Self::from_mangas(title, v)
    }

    /// The index of several mangas under one title: their pages in order.
    pub fn from_mangas(title: String, mangas: Vec<Manga>) -> (r: GlobalIndex)
        ensures
            r.title_view() == title@,
            r.pages_view() == mangas_refs(mangas@),
    {
        let pages = flatten_pages(&mangas);
        GlobalIndex { title, pages }
    }

    pub fn title(&self) -> (r: &str)
        ensures
            r@ == self.title_view(),
    {
        self.title.as_str()
    }

    pub fn page_count(&self) -> (r: usize)
        ensures
            r == self.pages_view().len(),
    {
        self.pages.len()
    }

    /// The page at `index` of the flat list, if there is one.
    pub fn page(&self, index: u32) -> (r: Option<&GlobalPageRef>)
        ensures
            match r {
                Some(p) => index < self.pages_view().len() && ref_view(*p) == self.pages_view()[index as int],
                None => index >= self.pages_view().len(),
            },
    {
        let i: usize = index as usize;
        if i < self.pages.len() {
            Some(&self.pages[i])
        } else {
            None
        }
    }
}

/// Why the page counts of a read list's files could not be collected; each
/// names the position of the file in the list.
#[derive(Clone, Copy, Debug, PartialEq, Eq)]
pub enum PageCountError {
    /// The file could not be loaded.
    LoadFailed(usize),
    /// The file holds no supported image page.
    NoPages(usize),
}

/// Whether the file at `i` loaded and holds some page.
pub open spec fn counted(loaded: Seq<(String, Option<usize>)>, i: int) -> bool {
    match loaded[i].1 {
        Some(n) => n > 0,
        None => false,
    }
}

/// Pairs each file of a read list with its page count, given the page count
/// of each file as loaded (`None` where loading failed). Fails at the first
/// file that failed to load or has no pages.
pub fn collect_readlist_page_counts(loaded: Vec<(String, Option<usize>)>) -> (r: Result<Vec<(String, u32)>, PageCountError>)
    ensures
        match r {
            Ok(v) => {
                &&& v@.len() == loaded@.len()
                &&& forall|i: int| 0 <= i < loaded@.len() ==> #[trigger] counted(loaded@, i)
                &&& forall|i: int|
                    0 <= i < loaded@.len() ==> #[trigger] v@[i].0@ == loaded@[i].0@ && v@[i].1
                        == (loaded@[i].1->0) as u32
            },
            Err(PageCountError::LoadFailed(i)) => {
                &&& i < loaded@.len()
                &&& loaded@[i as int].1 is None
                &&& forall|j: int| 0 <= j < i ==> #[trigger] counted(loaded@, j)
            },
            Err(PageCountError::NoPages(i)) => {
                &&& i < loaded@.len()
                &&& loaded@[i as int].1 == Some(0usize)
                &&& forall|j: int| 0 <= j < i ==> #[trigger] counted(loaded@, j)
            },
        },
{
    let mut out: Vec<(String, u32)> = Vec::new();
    let mut i: usize = 0;
    while i < loaded.len()
        invariant
            i <= loaded@.len(),
            out@.len() == i,
            forall|j: int| 0 <= j < i ==> #[trigger] counted(loaded@, j),
            forall|j: int|
                0 <= j < i ==> #[trigger] out@[j].0@ == loaded@[j].0@ && out@[j].1 == (
                loaded@[j].1->0) as u32,
        decreases loaded@.len() - i,
    {
        match loaded[i].1 {
            None => {
                return Err(PageCountError::LoadFailed(i));
            },
            Some(n) => {
                if n == 0 {
                    return Err(PageCountError::NoPages(i));
                }
                out.push((loaded[i].0.clone(), n as u32));
            },
        }
        assert(counted(loaded@, i as int));
        i = i + 1;
    }
    Ok(out)
}

/// The number of pages of the volumes `vs`.
pub open spec fn total_pages(vs: Seq<Volume>) -> nat
    decreases vs.len(),
{
    if vs.len() == 0 {
        0
    } else {
        total_pages(vs.drop_last()) + vs.last().pages@.len()
    }
}

/// The flat list has one entry per page of every volume.
pub proof fn lemma_refs_count(base: Seq<char>, vs: Seq<Volume>)
    ensures
        volumes_refs(base, vs).len() == total_pages(vs),
    decreases vs.len(),
{
    if vs.len() > 0 {
        lemma_refs_count(base, vs.drop_last());
    }
}

/// Page `j` of volume `v`, which follows the volumes `vs`, stands in the
/// flat list right after the pages of `vs`.
pub proof fn lemma_ref_position(base: Seq<char>, vs: Seq<Volume>, v: Volume, j: int)
    requires
        0 <= j < v.pages@.len(),
    ensures
        volumes_refs(base, vs.push(v))[total_pages(vs) + j] == (
            spec_join(base, v.name@),
            v.pages@[j].name@,
            v.pages@[j].mime,
        ),
{
    lemma_refs_count(base, vs);
    assert(vs.push(v).drop_last() =~= vs);
}

} // verus!

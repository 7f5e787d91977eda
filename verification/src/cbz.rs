//! Volumes: `.cbz` archives and the image pages they hold.

use crate::image::{read_image_info, spec_image_format, spec_mime, spec_read_dimensions, DimensionError, ImageInfo};
use crate::natural::{natural_sort, naturally_sorted, rule_before, spec_natural_sort, stable_arrangement, Named};
use crate::path::{
    ascii_lower, ascii_lower_exec, chars_of, eq_ignore_ascii_case, extension, last_component,
    last_dot, lemma_last_component_bounds, lemma_last_dot_is_dot, name_stem, spec_extension,
    spec_file_name, spec_with_extension, trimmed_end, with_extension,
};
use std::io::{Cursor, Read};
use vstd::prelude::*;
use zip::ZipArchive;

verus! {

broadcast use vstd::seq_lib::group_to_multiset_ensures;

/// One image page of a volume.
#[derive(Debug)]
pub struct Page {
    /// The entry's name inside the archive.
    pub name: String,
    /// The media type of the image.
    pub mime: &'static str,
    /// Width and height in pixels.
    pub dimensions: (u32, u32),
}

impl Page {
    /// The bytes of this page, read from `archive`, the bytes of the volume
    /// file that holds it.
    pub fn load_bytes(&self, archive: &[u8]) -> (r: Result<Vec<u8>, String>)
        ensures
            match r {
                Ok(b) => zip_entry(archive@, self.name@) == Ok::<Seq<u8>, Seq<char>>(b@),
                Err(m) => zip_entry(archive@, self.name@) == Err::<Seq<u8>, Seq<char>>(m@),
            },
            forall|i: int|
                zip_listing(archive@) is Ok && #[trigger] listed_once_at(zip_listing(archive@)->Ok_0, self.name@, i)
                    ==> r is Ok && r->Ok_0@ == zip_listing(archive@)->Ok_0[i].2,
    {
        Page::load_bytes_sync(archive, self.name.as_str())
    }

    /// The bytes of the entry `page_name` of the archive `archive`, or why
    /// they could not be read.
    pub fn load_bytes_sync(archive: &[u8], page_name: &str) -> (r: Result<Vec<u8>, String>)
        ensures
            match r {
                Ok(b) => zip_entry(archive@, page_name@) == Ok::<Seq<u8>, Seq<char>>(b@),
                Err(m) => zip_entry(archive@, page_name@) == Err::<Seq<u8>, Seq<char>>(m@),
            },
            forall|i: int|
                zip_listing(archive@) is Ok && #[trigger] listed_once_at(zip_listing(archive@)->Ok_0, page_name@, i)
                    ==> r is Ok && r->Ok_0@ == zip_listing(archive@)->Ok_0[i].2,
    {
        read_archive_entry(archive, page_name)
    }
}

impl Named for Page {
    open spec fn name_view(&self) -> Seq<char> {
        self.name@
    }

    fn name(&self) -> (r: &str) {
        self.name.as_str()
    }
}

/// One `.cbz` volume.
#[derive(Debug)]
pub struct Volume {
    pub name: String,
    /// The OCR file of the volume, if there is one.
    pub mokuro: Option<String>,
    /// The image pages in natural order of their names.
    pub pages: Vec<Page>,
}

/// An entry of an archive, as listed by the archive reader.
#[derive(Debug)]
pub struct ArchiveEntry {
    pub name: String,
    pub is_dir: bool,
    /// The entry's image format and size, when its data is an image.
    pub image: Option<ImageInfo>,
}

/// Why a volume could not be assembled.
#[derive(Clone, Copy, Debug, PartialEq, Eq)]
pub enum VolumeError {
    /// No entry of the archive is a supported image.
    NoImagePages,
}

/// What the `zip` crate reads from the bytes of an archive: each entry in
/// archive order with its name, whether it is a directory, and its
/// decompressed data; or the reader's message when the archive or one of
/// its entries cannot be read.
pub uninterp spec fn zip_listing(archive: Seq<u8>) -> Result<Seq<(Seq<char>, bool, Seq<u8>)>, Seq<char>>;

/// What the `zip` crate reads as the decompressed data of the entry `name`
/// of an archive, or its message when it cannot.
pub uninterp spec fn zip_entry(archive: Seq<u8>, name: Seq<char>) -> Result<Seq<u8>, Seq<char>>;

/// Lists an archive held in memory with `zip::ZipArchive`: for each index in
/// order, `by_index`, then the entry's `name`, `is_dir` and all its data by
/// `read_to_end`; the first error of the reader ends the listing with its
/// message. The contract claims only that the outcome is `zip_listing` of
/// the bytes, each entry and the message taken by its view.
#[verifier::external_body]
fn list_archive(archive: &[u8]) -> (r: Result<Vec<(String, bool, Vec<u8>)>, String>)
    ensures
        match r {
            Ok(v) => zip_listing(archive@) == Ok::<Seq<(Seq<char>, bool, Seq<u8>)>, Seq<char>>(
                v@.map_values(|e: (String, bool, Vec<u8>)| (e.0@, e.1, e.2@)),
            ),
            Err(m) => zip_listing(archive@) == Err::<Seq<(Seq<char>, bool, Seq<u8>)>, Seq<char>>(m@),
        },
{
    let mut zip = ZipArchive::new(Cursor::new(archive)).map_err(|e| e.to_string())?;
    let mut listed = Vec::with_capacity(zip.len());
    for index in 0..zip.len() {
        let mut entry = zip.by_index(index).map_err(|e| e.to_string())?;
        let mut data = Vec::new();
        entry.read_to_end(&mut data).map_err(|e| e.to_string())?;
        let name = entry.name().map_err(|e| e.to_string())?.into_owned();
        listed.push((name, entry.is_dir(), data));
    }
    Ok(listed)
}

/// Whether the entry at `i` of a listing is the only one named `name`.
pub open spec fn listed_once_at(l: Seq<(Seq<char>, bool, Seq<u8>)>, name: Seq<char>, i: int) -> bool {
    &&& 0 <= i < l.len()
    &&& l[i].0 == name
    &&& forall|j: int| 0 <= j < l.len() && #[trigger] l[j].0 == name ==> j == i
}

/// Whether `data` is the whole data that the listing of `archive` gives for
/// its only entry named `name`, where the archive can be listed and exactly
/// one entry has that name.
pub open spec fn data_of_listed_entry(archive: Seq<u8>, name: Seq<char>, data: Seq<u8>) -> bool {
    forall|i: int|
        zip_listing(archive) is Ok && #[trigger] listed_once_at(zip_listing(archive)->Ok_0, name, i) ==> data
            == zip_listing(archive)->Ok_0[i].2
}

/// Whether reading the entry `name` of `archive` succeeds wherever the
/// archive can be listed and exactly one entry has that name.
pub open spec fn listed_entry_readable(archive: Seq<u8>, name: Seq<char>, ok: bool) -> bool {
    forall|i: int|
        zip_listing(archive) is Ok && #[trigger] listed_once_at(zip_listing(archive)->Ok_0, name, i) ==> ok
}

/// Reads the entry `name` of an archive held in memory with
/// `zip::ZipArchive`: `by_name`, then all its data by `read_to_end`. The
/// contract claims that the outcome is `zip_entry` of the bytes and the
/// name, the data and the message taken by their views; and that where the
/// archive can be listed (by `list_archive`) and exactly one entry is listed
/// under `name`, the read succeeds with that entry's whole data as listed.
/// The source shows this: `by_name` looks the name up among the raw entry
/// names, and else among their decoded names, which is what `name` lists
/// (`ZipFileData::name` decodes a valid UTF-8 raw name as itself), then
/// opens that entry as `by_index` does, and `read_to_end` reads all of it.
#[verifier::external_body]
fn read_archive_entry(archive: &[u8], name: &str) -> (r: Result<Vec<u8>, String>)
    ensures
        match r {
            Ok(b) => zip_entry(archive@, name@) == Ok::<Seq<u8>, Seq<char>>(b@),
            Err(m) => zip_entry(archive@, name@) == Err::<Seq<u8>, Seq<char>>(m@),
        },
        listed_entry_readable(archive@, name@, r is Ok),
        r is Ok ==> data_of_listed_entry(archive@, name@, r->Ok_0@),
{
    let mut zip = ZipArchive::new(Cursor::new(archive)).map_err(|e| e.to_string())?;
    let mut entry = zip.by_name(name).map_err(|e| e.to_string())?;
    let mut data = Vec::new();
    entry.read_to_end(&mut data).map_err(|e| e.to_string())?;
    Ok(data)
}

/// Why the entries of an archive could not be listed and classified.
#[derive(Debug, PartialEq, Eq)]
pub enum ArchiveError {
    /// The archive, or one of its entries, could not be read; the reader's
    /// message.
    Unreadable(String),
    /// A file entry begins like an image whose dimensions cannot be read.
    Image(DimensionError),
}

/// Whether `image` is what the header of `data` says: no image, or its
/// format and dimensions.
pub open spec fn image_matches(image: Option<ImageInfo>, data: Seq<u8>) -> bool {
    match image {
        None => spec_image_format(data) is None,
        Some(info) => spec_image_format(data) == Some(info.format) && spec_read_dimensions(data) == Ok::<
            (u32, u32),
            DimensionError,
        >(info.dimensions),
    }
}

/// What goes wrong when a listed entry is classified, if anything: a file
/// whose first bytes are an image's, but whose dimensions cannot be read.
pub open spec fn image_fault(e: (Seq<char>, bool, Seq<u8>)) -> Option<DimensionError> {
    if !e.1 && spec_image_format(e.2) is Some {
        match spec_read_dimensions(e.2) {
            Err(d) => Some(d),
            Ok(_) => None,
        }
    } else {
        None
    }
}

/// The fault of the first listed entry that has one.
pub open spec fn first_image_fault(l: Seq<(Seq<char>, bool, Seq<u8>)>) -> Option<DimensionError>
    decreases l.len(),
{
    if l.len() == 0 {
        None
    } else {
        match first_image_fault(l.drop_last()) {
            Some(d) => Some(d),
            None => image_fault(l.last()),
        }
    }
}

/// Whether `e` is the listed entry `l` classified: the same name and kind,
/// and for a file, what its header says.
pub open spec fn entry_matches(e: ArchiveEntry, l: (Seq<char>, bool, Seq<u8>)) -> bool {
    &&& e.name@ == l.0
    &&& e.is_dir == l.1
    &&& if l.1 {
        e.image is None
    } else {
        image_matches(e.image, l.2)
    }
}

/// Whether `entries` are the entries of the archive `archive`, in archive
/// order, each classified by its header, none of them failing.
pub open spec fn lists_entries(archive: Seq<u8>, entries: Seq<ArchiveEntry>) -> bool {
    match zip_listing(archive) {
        Ok(l) => {
            &&& first_image_fault(l) is None
            &&& entries.len() == l.len()
            &&& forall|i: int| 0 <= i < l.len() ==> entry_matches(#[trigger] entries[i], l[i])
        },
        Err(_) => false,
    }
}

/// The number of listed entries that are files beginning like an image.
pub open spec fn listing_page_count(l: Seq<(Seq<char>, bool, Seq<u8>)>) -> nat
    decreases l.len(),
{
    if l.len() == 0 {
        0
    } else if !l.last().1 && spec_image_format(l.last().2) is Some {
        listing_page_count(l.drop_last()) + 1
    } else {
        listing_page_count(l.drop_last())
    }
}

proof fn lemma_page_count_matches(entries: Seq<ArchiveEntry>, l: Seq<(Seq<char>, bool, Seq<u8>)>)
    requires
        entries.len() == l.len(),
        forall|i: int| 0 <= i < l.len() ==> entry_matches(#[trigger] entries[i], l[i]),
    ensures
        image_pages(entries).len() == listing_page_count(l),
    decreases l.len(),
{
    if l.len() > 0 {
        let n = l.len() - 1;
        assert(entry_matches(entries[n], l[n]));
        assert forall|i: int| 0 <= i < l.drop_last().len() implies entry_matches(
            #[trigger] entries.drop_last()[i],
            l.drop_last()[i],
        ) by {
            assert(entry_matches(entries[i], l[i]));
        }
        lemma_page_count_matches(entries.drop_last(), l.drop_last());
    }
}

/// The image pages of the entries listed in an archive are as many as its
/// files that begin like an image.
pub proof fn lemma_listed_page_count(archive: Seq<u8>, entries: Seq<ArchiveEntry>)
    requires
        lists_entries(archive, entries),
    ensures
        image_pages(entries).len() == listing_page_count(zip_listing(archive)->Ok_0),
{
    lemma_page_count_matches(entries, zip_listing(archive)->Ok_0);
}

/// Lists the entries of an archive held in memory, in archive order, and
/// classifies each file entry by its image header. Fails with the reader's
/// message when the archive cannot be read, and with the fault of the first
/// file entry whose dimensions cannot be read.
pub fn archive_entries(archive: &[u8]) -> (r: Result<Vec<ArchiveEntry>, ArchiveError>)
    ensures
        match r {
            Ok(v) => lists_entries(archive@, v@),
            Err(ArchiveError::Unreadable(m)) => zip_listing(archive@) == Err::<
                Seq<(Seq<char>, bool, Seq<u8>)>,
                Seq<char>,
            >(m@),
            Err(ArchiveError::Image(d)) => zip_listing(archive@) is Ok && first_image_fault(
                zip_listing(archive@)->Ok_0,
            ) == Some(d),
        },
{
    let listed = match list_archive(archive) {
        Ok(v) => v,
        Err(m) => {
            return Err(ArchiveError::Unreadable(m));
        },
    };
    let ghost l = zip_listing(archive@)->Ok_0;
    let mut entries: Vec<ArchiveEntry> = Vec::new();
    let mut k: usize = 0;
    while k < listed.len()
        invariant
            zip_listing(archive@) is Ok,
            l == zip_listing(archive@)->Ok_0,
            l == listed@.map_values(|e: (String, bool, Vec<u8>)| (e.0@, e.1, e.2@)),
            k <= listed@.len(),
            entries@.len() == k,
            first_image_fault(l.take(k as int)) is None,
            forall|i: int| 0 <= i < k ==> entry_matches(#[trigger] entries@[i], l[i]),
        decreases listed@.len() - k,
    {
        assert(l.take(k + 1).drop_last() =~= l.take(k as int));
        assert(l.take(k + 1).last() == l[k as int]);
        let is_dir = listed[k].1;
        let image = if is_dir {
            None
        } else {
            match read_image_info(listed[k].2.as_slice()) {
                Ok(info) => info,
                Err(d) => {
                    proof {
                        lemma_first_fault_extends(l, k as int);
                    }
                    return Err(ArchiveError::Image(d));
                },
            }
        };
        entries.push(ArchiveEntry { name: listed[k].0.clone(), is_dir, image });
        k = k + 1;
    }
    assert(l.take(k as int) =~= l);
    Ok(entries)
}

proof fn lemma_first_fault_extends(l: Seq<(Seq<char>, bool, Seq<u8>)>, k: int)
    requires
        0 <= k < l.len(),
        first_image_fault(l.take(k)) is None,
        image_fault(l[k]) is Some,
    ensures
        first_image_fault(l) == image_fault(l[k]),
    decreases l.len(),
{
    if k < l.len() - 1 {
        assert(l.drop_last().take(k) =~= l.take(k));
        assert(l.drop_last()[k] == l[k]);
        lemma_first_fault_extends(l.drop_last(), k);
    } else {
        assert(l.drop_last() =~= l.take(k));
    }
}

/// Whether an entry becomes a page: it is a file, and an image.
pub open spec fn is_page_entry(e: ArchiveEntry) -> bool {
    !e.is_dir && e.image is Some
}

/// The page that an image entry becomes.
pub open spec fn entry_page(e: ArchiveEntry) -> Page {
    Page { name: e.name, mime: spec_mime(e.image->0.format), dimensions: e.image->0.dimensions }
}

/// The pages of the image entries of `entries`, in archive order.
pub open spec fn image_pages(entries: Seq<ArchiveEntry>) -> Seq<Page>
    decreases entries.len(),
{
    if entries.len() == 0 {
        Seq::empty()
    } else if is_page_entry(entries.last()) {
        image_pages(entries.drop_last()).push(entry_page(entries.last()))
    } else {
        image_pages(entries.drop_last())
    }
}

impl Volume {
    /// Assembles a volume from the entries of its archive: the image entries
    /// become its pages, in natural order of their names (pages of equal names
    /// in archive order). Fails when no entry is an image.
    pub fn new(name: String, mokuro: Option<String>, entries: Vec<ArchiveEntry>) -> (r: Result<Volume, VolumeError>)
        ensures
            match r {
                Ok(v) => {
                    &&& v.name == name
                    &&& v.mokuro == mokuro
                    &&& v.pages@.to_multiset() == image_pages(entries@).to_multiset()
                    &&& exists|pos: Seq<int>| stable_arrangement(image_pages(entries@), v.pages@, pos)
                    &&& naturally_sorted(v.pages@)
                    &&& v.pages@ == spec_natural_sort(image_pages(entries@))
                    &&& forall|i: int, k: int|
                        0 < i < v.pages@.len() ==> !#[trigger] rule_before(v.pages@[i].name@, v.pages@[i - 1].name@, k)
                    &&& v.pages@.len() > 0
                },
                Err(e) => e == VolumeError::NoImagePages && image_pages(entries@).len() == 0,
            },
    {
        let mut pages: Vec<Page> = Vec::new();
        let mut k: usize = 0;
        while k < entries.len()
            invariant
                k <= entries@.len(),
                pages@ == image_pages(entries@.take(k as int)),
            decreases entries@.len() - k,
        {
            let e = &entries[k];
            assert(entries@.take(k + 1).drop_last() =~= entries@.take(k as int));
            if !e.is_dir {
                match e.image {
                    Some(info) => {
                        pages.push(Page { name: e.name.clone(), mime: info.format.mime(), dimensions: info.dimensions });
                    },
                    None => {},
                }
            }
            k = k + 1;
        }
        assert(entries@.take(k as int) =~= entries@);
        let ghost found = pages@;
        let pages = natural_sort(pages);
        assert forall|i: int, k: int| 0 < i < pages@.len() implies !#[trigger] rule_before(
            pages@[i].name@,
            pages@[i - 1].name@,
            k,
        ) by {
            assert(!rule_before(pages@[i].name_view(), pages@[i - 1].name_view(), k));
        }
        assert(pages@.len() == found.len()) by {
            assert(pages@.to_multiset().len() == found.to_multiset().len());
        }
        if pages.len() == 0 {
            return Err(VolumeError::NoImagePages);
        }
        Ok(Volume { name, mokuro, pages })
    }
}

/// Whether `s` names a `.cbz` archive: its extension is `cbz` in any ASCII case.
pub open spec fn spec_is_cbz(s: Seq<char>) -> bool {
    match spec_extension(s) {
        Some(ext) => eq_ignore_ascii_case(ext, seq!['c', 'b', 'z']),
        None => false,
    }
}

/// Whether `path` names a `.cbz` archive: its extension is `cbz` in any
/// ASCII case.
pub fn is_cbz(path: &str) -> (r: bool)
    ensures
        r == spec_is_cbz(path@),
{
    match extension(path) {
        Some(ext) => {
            let x = chars_of(ext);
            let ghost t = seq!['c', 'b', 'z'];
            if x.len() != 3 {
                return false;
            }
            let r = ascii_lower_exec(x[0]) == 'c' && ascii_lower_exec(x[1]) == 'b'
                && ascii_lower_exec(x[2]) == 'z';
            assert(ascii_lower(t[0]) == 'c' && ascii_lower(t[1]) == 'b' && ascii_lower(t[2]) == 'z');
            if r {
                assert forall|i: int| 0 <= i < x@.len() implies ascii_lower(#[trigger] x@[i])
                    == ascii_lower(t[i]) by {}
            } else {
                assert(!eq_ignore_ascii_case(x@, t)) by {
                    if eq_ignore_ascii_case(x@, t) {
                        assert(ascii_lower(x@[0]) == ascii_lower(t[0]));
                        assert(ascii_lower(x@[1]) == ascii_lower(t[1]));
                        assert(ascii_lower(x@[2]) == ascii_lower(t[2]));
                    }
                }
            }
            r
        },
        None => false,
    }
}

/// The OCR file that belongs beside a volume: the volume's path with the
/// extension `mokuro` in place of its own.
pub fn mokuro_path(path: &str) -> (r: String)
    ensures
        r@ == spec_with_extension(path@, "mokuro"@),
{
    with_extension(path, "mokuro")
}

/// A volume's OCR file shares the volume's name: `volume.cbz` goes with
/// `volume.mokuro`, for a path that ends in its file name.
pub proof fn lemma_mokuro_beside_volume(p: Seq<char>)
    requires
        spec_is_cbz(p),
        trimmed_end(p, p.len() as int) == p.len(),
    ensures
        spec_with_extension(p, "mokuro"@) == p.subrange(0, p.len() - 3) + "mokuro"@,
{
    let (b, e) = last_component(p);
    lemma_last_component_bounds(p);
    let name = p.subrange(b, e);
    assert(spec_file_name(p) == Some(name));
    let k = last_dot(name);
    lemma_last_dot_is_dot(name);
    assert(k == name.len() - 4);
    assert(name_stem(name) =~= name.subrange(0, k));
    assert(p[p.len() - 4] == name[k]);
    assert(p.subrange(0, b + k) + seq!['.'] =~= p.subrange(0, p.len() - 3));
}

} // verus!

//! A manga: the volumes that are read together, under one title, opened
//! either from files named one by one or from a directory's read list.

use crate::cbz::{
    archive_entries, image_pages, is_cbz, lemma_listed_page_count, lists_entries, listing_page_count,
    first_image_fault, spec_is_cbz, zip_listing, ArchiveEntry, ArchiveError, Volume,
};
use crate::image::DimensionError;
use crate::natural::{naturally_sorted, spec_natural_sort, stable_arrangement};
use crate::path::{file_name, join, spec_file_name, spec_join, spec_with_extension, with_extension};
use crate::readlist::FileEntry;
use vstd::prelude::*;

verus! {

broadcast use vstd::seq_lib::group_to_multiset_ensures;

/// The volumes opened together, the directory they are found in, and the
/// title shown for them.
#[derive(Debug)]
pub struct Manga {
    pub path: String,
    pub title: String,
    pub volumes: Vec<Volume>,
}

/// Why volumes or a read list could not be opened. `index` is the position
/// of the volume file concerned, in the order the files were given.
#[derive(Debug, PartialEq, Eq)]
pub enum MangaError {
    /// The read list names no files.
    EmptyReadList,
    /// The saved page is 0.
    PageBelowOne,
    /// The saved scroll position lies outside [0, 1].
    ScrollOutOfRange,
    /// The saved file is not among the read list's files.
    ProgressFileMissing,
    /// No file exists at a volume's path.
    NoFile { index: usize },
    /// A volume's path does not end in `.cbz`.
    UnsupportedFileType { index: usize },
    /// A volume's file could not be read.
    ReadFailed { index: usize },
    /// A volume's archive, or one of its entries, could not be read; the
    /// archive reader's message.
    ArchiveUnreadable { index: usize, message: String },
    /// An entry of a volume's archive begins like an image whose dimensions
    /// cannot be read.
    BadImage { index: usize, error: DimensionError },
    /// No entry of a volume's archive is a supported image.
    NoImagePages { index: usize },
    /// The saved page is beyond the last page of the saved file's volume,
    /// which has `pages` pages.
    PageOutOfRange { index: usize, pages: usize },
}

/// A volume file named on the command line, as found on disk: whether a
/// file exists at `path`, whether the OCR file beside it (see
/// `crate::cbz::mokuro_path`) exists, and the bytes of the file, or `None`
/// when it could not be read.
#[derive(Debug)]
pub struct NamedFile {
    pub path: String,
    pub is_file: bool,
    pub mokuro_exists: bool,
    pub archive: Option<Vec<u8>>,
}

/// A file of a read list, as found on disk in the list's directory: whether
/// a file exists at the directory joined with its name, and the bytes of the
/// file, or `None` when it could not be read.
#[derive(Debug)]
pub struct ListedFile {
    pub entry: FileEntry,
    pub is_file: bool,
    pub archive: Option<Vec<u8>>,
}

/// An optional string as plain characters.
pub open spec fn opt_view(o: Option<String>) -> Option<Seq<char>> {
    match o {
        Some(s) => Some(s@),
        None => None,
    }
}

/// The title of volumes opened one by one: the name of the volume when there
/// is exactly one, otherwise `mgr`.
pub open spec fn spec_files_title(files: Seq<NamedFile>) -> Seq<char> {
    if files.len() == 1 {
        files[0].path@
    } else {
        "mgr"@
    }
}

/// The title of a read list's directory: its file name, or `mgr` when the
/// path has none.
pub open spec fn spec_dir_title(dir: Seq<char>) -> Seq<char> {
    match spec_file_name(dir) {
        Some(name) => name,
        None => "mgr"@,
    }
}

/// Whether `v` is the volume that `Volume::new` makes of `name`, `mokuro`
/// and the archive entries `entries`.
pub open spec fn volume_of(v: Volume, name: Seq<char>, mokuro: Option<Seq<char>>, entries: Seq<ArchiveEntry>) -> bool {
    &&& v.name@ == name
    &&& opt_view(v.mokuro) == mokuro
    &&& v.pages@.to_multiset() == image_pages(entries).to_multiset()
    &&& exists|pos: Seq<int>| stable_arrangement(image_pages(entries), v.pages@, pos)
    &&& naturally_sorted(v.pages@)
    &&& v.pages@ == spec_natural_sort(image_pages(entries))
    &&& v.pages@.len() > 0
}

/// What opening the volume file at position `i` from `path` requires: that
/// a file exists there and that its name ends in `.cbz`.
pub open spec fn spec_check_volume_file(i: int, path: Seq<char>, is_file: bool) -> Result<(), MangaError> {
    if !is_file {
        Err(MangaError::NoFile { index: i as usize })
    } else if !spec_is_cbz(path) {
        Err(MangaError::UnsupportedFileType { index: i as usize })
    } else {
        Ok(())
    }
}

/// Whether the volume file found at `path` opens: a file exists there, its
/// name ends in `.cbz`, it could be read, its archive can be listed, no
/// entry begins like an image whose dimensions cannot be read, and some
/// entry is an image.
pub open spec fn file_opens(path: Seq<char>, is_file: bool, archive: Option<Vec<u8>>) -> bool {
    &&& is_file
    &&& spec_is_cbz(path)
    &&& archive is Some
    &&& zip_listing(archive->0@) is Ok
    &&& first_image_fault(zip_listing(archive->0@)->Ok_0) is None
    &&& listing_page_count(zip_listing(archive->0@)->Ok_0) > 0
}

/// Whether `e` is what goes wrong when the volume file at position `i` is
/// opened from `path`, checked in this order: no file, not a `.cbz` name,
/// an unreadable file, an unreadable archive (with the reader's message), an
/// entry whose image dimensions cannot be read (the first such), no image.
pub open spec fn file_fails(i: int, path: Seq<char>, is_file: bool, archive: Option<Vec<u8>>, e: MangaError) -> bool {
    if let Err(f) = spec_check_volume_file(i, path, is_file) {
        e == f
    } else {
        match archive {
            None => e == MangaError::ReadFailed { index: i as usize },
            Some(bytes) => match zip_listing(bytes@) {
                Err(m) => e matches MangaError::ArchiveUnreadable { index, message } && index == i as usize
                    && message@ == m,
                Ok(l) => match first_image_fault(l) {
                    Some(d) => e == MangaError::BadImage { index: i as usize, error: d },
                    None => listing_page_count(l) == 0 && e == MangaError::NoImagePages { index: i as usize },
                },
            },
        }
    }
}

/// The number of image pages in the archive of a file that opens.
pub open spec fn archive_pages(archive: Option<Vec<u8>>) -> nat {
    listing_page_count(zip_listing(archive->0@)->Ok_0)
}

/// The OCR file of a volume named on the command line.
pub open spec fn named_mokuro(f: NamedFile) -> Option<Seq<char>> {
    if f.mokuro_exists {
        Some(spec_with_extension(f.path@, "mokuro"@))
    } else {
        None
    }
}

/// Whether the file at `i` of `files` opens.
pub open spec fn named_opens(files: Seq<NamedFile>, i: int) -> bool {
    file_opens(files[i].path@, files[i].is_file, files[i].archive)
}

/// Whether `e` is what goes wrong when the file at `i` of `files` is opened.
pub open spec fn named_fails(files: Seq<NamedFile>, i: int, e: MangaError) -> bool {
    file_fails(i, files[i].path@, files[i].is_file, files[i].archive, e)
}

/// Whether the file at `i` of a read list in `dir` opens, and the saved
/// page, when the file is the saved one, lies within its volume (the page
/// count compared as a 32-bit number).
pub open spec fn listed_opens(
    dir: Seq<char>,
    files: Seq<ListedFile>,
    i: int,
    progress_file: Seq<char>,
    progress_page: u32,
) -> bool {
    let f = files[i];
    &&& file_opens(spec_join(dir, f.entry.name@), f.is_file, f.archive)
    &&& !(f.entry.name@ == progress_file && progress_page > archive_pages(f.archive) as u32)
}

/// Whether `e` is what goes wrong when the file at `i` of a read list in
/// `dir` is opened: a fault of its file, or else a saved page beyond the
/// last page of the saved file's volume.
pub open spec fn listed_fails(
    dir: Seq<char>,
    files: Seq<ListedFile>,
    i: int,
    progress_file: Seq<char>,
    progress_page: u32,
    e: MangaError,
) -> bool {
    let f = files[i];
    let path = spec_join(dir, f.entry.name@);
    ||| file_fails(i, path, f.is_file, f.archive, e)
    ||| file_opens(path, f.is_file, f.archive) && f.entry.name@ == progress_file && progress_page > archive_pages(
        f.archive,
    ) as u32 && e == MangaError::PageOutOfRange {
        index: i as usize,
        pages: archive_pages(f.archive) as usize,
    }
}

/// The read list's entries.
pub open spec fn listed_entries(files: Seq<ListedFile>) -> Seq<FileEntry> {
    files.map_values(|f: ListedFile| f.entry)
}

/// Whether some file of the read list has the name `file`.
pub open spec fn lists_file(files: Seq<FileEntry>, file: Seq<char>) -> bool {
    exists|i: int| 0 <= i < files.len() && #[trigger] files[i].name@ == file
}

/// What a read list and its saved progress must satisfy before its volumes
/// are opened, checked in this order.
pub open spec fn spec_check_read_list(
    files: Seq<FileEntry>,
    progress_file: Seq<char>,
    progress_page: u32,
    scroll_in_range: bool,
) -> Result<(), MangaError> {
    if files.len() == 0 {
        Err(MangaError::EmptyReadList)
    } else if progress_page < 1 {
        Err(MangaError::PageBelowOne)
    } else if !scroll_in_range {
        Err(MangaError::ScrollOutOfRange)
    } else if !lists_file(files, progress_file) {
        Err(MangaError::ProgressFileMissing)
    } else {
        Ok(())
    }
}

fn check_volume_file(index: usize, path: &str, is_file: bool) -> (r: Result<(), MangaError>)
    ensures
        r == spec_check_volume_file(index as int, path@, is_file),
{
    if !is_file {
        return Err(MangaError::NoFile { index });
    }
    if !is_cbz(path) {
        return Err(MangaError::UnsupportedFileType { index });
    }
    Ok(())
}

fn check_read_list(
    files: &Vec<ListedFile>,
    progress_file: &String,
    progress_page: u32,
    scroll_in_range: bool,
) -> (r: Result<(), MangaError>)
    ensures
        r == spec_check_read_list(listed_entries(files@), progress_file@, progress_page, scroll_in_range),
{
    let ghost listed = listed_entries(files@);
    if files.len() == 0 {
        return Err(MangaError::EmptyReadList);
    }
    if progress_page < 1 {
        return Err(MangaError::PageBelowOne);
    }
    if !scroll_in_range {
        return Err(MangaError::ScrollOutOfRange);
    }
    let mut i: usize = 0;
    while i < files.len()
        invariant
            i <= files@.len(),
            listed == listed_entries(files@),
            files@.len() > 0,
            progress_page >= 1,
            scroll_in_range,
            forall|j: int| 0 <= j < i ==> #[trigger] listed[j].name@ != progress_file@,
        decreases files@.len() - i,
    {
        if files[i].entry.name == *progress_file {
            assert(listed[i as int].name@ == progress_file@);
            assert(lists_file(listed, progress_file@));
            return Ok(());
        }
        i = i + 1;
    }
    Err(MangaError::ProgressFileMissing)
}

/// The volume that the archive `archive` of a volume named `name`, with the
/// OCR file `mokuro`, opens as.
pub open spec fn volume_from(v: Volume, name: Seq<char>, mokuro: Option<Seq<char>>, archive: Option<Vec<u8>>) -> bool {
    &&& exists|es: Seq<ArchiveEntry>| #[trigger] lists_entries(archive->0@, es) && volume_of(v, name, mokuro, es)
    &&& v.pages@.len() == archive_pages(archive)
}

/// Opens one volume file: checks its path, lists and classifies the entries
/// of its archive, and assembles the volume.
fn open_volume(index: usize, path: &str, is_file: bool, archive: Option<Vec<u8>>, name: String, mokuro: Option<String>) -> (r: Result<
    Volume,
    MangaError,
>)
    ensures
        match r {
            Ok(v) => file_opens(path@, is_file, archive) && volume_from(v, name@, opt_view(mokuro), archive),
            Err(e) => file_fails(index as int, path@, is_file, archive, e),
        },
{
    match check_volume_file(index, path, is_file) {
        Err(e) => {
            return Err(e);
        },
        Ok(()) => {},
    }
    let ghost archive_in = archive;
    let bytes = match archive {
        Some(b) => b,
        None => {
            return Err(MangaError::ReadFailed { index });
        },
    };
    let entries = match archive_entries(bytes.as_slice()) {
        Ok(es) => es,
        Err(ArchiveError::Unreadable(message)) => {
            return Err(MangaError::ArchiveUnreadable { index, message });
        },
        Err(ArchiveError::Image(error)) => {
            return Err(MangaError::BadImage { index, error });
        },
    };
    let ghost es = entries@;
    proof {
        lemma_listed_page_count(bytes@, es);
    }
    match Volume::new(name, mokuro, entries) {
        Ok(v) => {
            assert(v.pages@.len() == image_pages(es).len()) by {
                assert(v.pages@.to_multiset().len() == image_pages(es).to_multiset().len());
            }
            assert(lists_entries(archive_in->0@, es) && volume_of(v, name@, opt_view(mokuro), es));
            Ok(v)
        },
        Err(_) => Err(MangaError::NoImagePages { index }),
    }
}

impl Manga {
    /// Opens the volume files named on the command line, in the current
    /// directory: one volume per file, in the given order, named by its
    /// path, with the OCR file beside it when that exists, its pages the
    /// images of its archive. Fails at the first file that cannot be opened.
    /// The title is the volume's name when there is one volume, otherwise
    /// `mgr`.
    pub fn new(files: Vec<NamedFile>) -> (r: Result<Manga, MangaError>)
        ensures
            match r {
                Ok(m) => {
                    &&& forall|i: int| 0 <= i < files@.len() ==> #[trigger] named_opens(files@, i)
                    &&& m.path@ == "."@
                    &&& m.title@ == spec_files_title(files@)
                    &&& m.volumes@.len() == files@.len()
                    &&& forall|i: int|
                        0 <= i < files@.len() ==> volume_from(
                            #[trigger] m.volumes@[i],
                            files@[i].path@,
                            named_mokuro(files@[i]),
                            files@[i].archive,
                        )
                },
                Err(e) => exists|i: int|
                    0 <= i < files@.len() && (forall|j: int| 0 <= j < i ==> #[trigger] named_opens(files@, j))
                        && #[trigger] named_fails(files@, i, e),
            },
    {
        let ghost input = files@;
        let n: usize = files.len();
        let title = if files.len() == 1 {
            files[0].path.clone()
        } else {
            String::from_str("mgr")
        };
        let mut rest = files;
        let mut volumes: Vec<Volume> = Vec::new();
        let mut i: usize = 0;
        while rest.len() > 0
            invariant
                n == input.len(),
                input == files@,
                i + rest@.len() == n,
                rest@ == input.skip(i as int),
                volumes@.len() == i,
                forall|j: int| 0 <= j < i ==> #[trigger] named_opens(input, j),
                forall|j: int|
                    0 <= j < i ==> volume_from(
                        #[trigger] volumes@[j],
                        input[j].path@,
                        named_mokuro(input[j]),
                        input[j].archive,
                    ),
            decreases rest@.len(),
        {
            let f = rest.remove(0);
            assert(f == input[i as int]);
            assert(rest@ =~= input.skip(i + 1));
            let mokuro = if f.mokuro_exists {
                Some(with_extension(f.path.as_str(), "mokuro"))
            } else {
                None
            };
            let name = f.path.clone();
            let volume = match open_volume(i, f.path.as_str(), f.is_file, f.archive, name, mokuro) {
                Ok(v) => v,
                Err(e) => {
                    assert(named_fails(input, i as int, e));
                    return Err(e);
                },
            };
            volumes.push(volume);
            assert(volume_from(volumes@[i as int], input[i as int].path@, named_mokuro(input[i as int]), input[i as int].archive));
            i = i + 1;
        }
        Ok(Manga { path: String::from_str("."), title, volumes })
    }

    /// Opens the volumes of a read list in the directory `dir_path`, titled
    /// by the directory's name. The list and its saved progress are checked
    /// first (`scroll_in_range` tells whether the saved scroll position lies
    /// in [0, 1]); then each listed file is opened, in list order, as a volume
    /// named by its entry with the entry's OCR file, its pages the images of
    /// its archive; the saved page must lie within the saved file's volume.
    /// Fails at the first check that fails.
    pub fn from_readlist(
        dir_path: &str,
        files: Vec<ListedFile>,
        progress_file: &String,
        progress_page: u32,
        scroll_in_range: bool,
    ) -> (r: Result<Manga, MangaError>)
        ensures
            match r {
                Ok(m) => {
                    &&& (spec_check_read_list(listed_entries(files@), progress_file@, progress_page, scroll_in_range)
                        is Ok)
                    &&& forall|i: int|
                        0 <= i < files@.len() ==> #[trigger] listed_opens(dir_path@, files@, i, progress_file@, progress_page)
                    &&& m.path@ == dir_path@
                    &&& m.title@ == spec_dir_title(dir_path@)
                    &&& m.volumes@.len() == files@.len()
                    &&& forall|i: int|
                        0 <= i < files@.len() ==> volume_from(
                            #[trigger] m.volumes@[i],
                            files@[i].entry.name@,
                            opt_view(files@[i].entry.mokuro),
                            files@[i].archive,
                        )
                    &&& exists|i: int|
                        0 <= i < m.volumes@.len() && #[trigger] m.volumes@[i].name@ == progress_file@
                            && 1 <= progress_page <= m.volumes@[i].pages@.len() as u32
                },
                Err(e) => spec_check_read_list(listed_entries(files@), progress_file@, progress_page, scroll_in_range)
                    == Err::<(), MangaError>(e) || (spec_check_read_list(
                    listed_entries(files@),
                    progress_file@,
                    progress_page,
                    scroll_in_range,
                ) is Ok && (exists|i: int|
                    0 <= i < files@.len() && (forall|j: int|
                        0 <= j < i ==> #[trigger] listed_opens(dir_path@, files@, j, progress_file@, progress_page))
                        && #[trigger] listed_fails(dir_path@, files@, i, progress_file@, progress_page, e))),
            },
    {
        match check_read_list(&files, progress_file, progress_page, scroll_in_range) {
            Err(e) => {
                return Err(e);
            },
            Ok(()) => {},
        }
        let ghost input = files@;
        let ghost listed = listed_entries(input);
        let n: usize = files.len();
        let mut rest = files;
        let mut volumes: Vec<Volume> = Vec::new();
        let mut i: usize = 0;
        while rest.len() > 0
            invariant
                n == input.len(),
                input == files@,
                listed == listed_entries(input),
                spec_check_read_list(listed, progress_file@, progress_page, scroll_in_range) is Ok,
                i + rest@.len() == n,
                rest@ == input.skip(i as int),
                volumes@.len() == i,
                forall|j: int| 0 <= j < i ==> #[trigger] listed_opens(dir_path@, input, j, progress_file@, progress_page),
                forall|j: int|
                    0 <= j < i ==> volume_from(
                        #[trigger] volumes@[j],
                        input[j].entry.name@,
                        opt_view(input[j].entry.mokuro),
                        input[j].archive,
                    ),
            decreases rest@.len(),
        {
            let f = rest.remove(0);
            assert(f == input[i as int]);
            assert(rest@ =~= input.skip(i + 1));
            let path = join(dir_path, f.entry.name.as_str());
            let name_matches = f.entry.name == *progress_file;
            let volume = match open_volume(i, path.as_str(), f.is_file, f.archive, f.entry.name, f.entry.mokuro) {
                Ok(v) => v,
                Err(e) => {
                    assert(listed_fails(dir_path@, input, i as int, progress_file@, progress_page, e));
                    return Err(e);
                },
            };
            let pages: usize = volume.pages.len();
            if name_matches && progress_page > pages as u32 {
                let e = MangaError::PageOutOfRange { index: i, pages };
                assert(listed_fails(dir_path@, input, i as int, progress_file@, progress_page, e));
                return Err(e);
            }
            assert(listed_opens(dir_path@, input, i as int, progress_file@, progress_page));
            volumes.push(volume);
            assert(volume_from(
                volumes@[i as int],
                input[i as int].entry.name@,
                opt_view(input[i as int].entry.mokuro),
                input[i as int].archive,
            ));
            i = i + 1;
        }
        let title = match file_name(dir_path) {
            Some(name) => String::from_str(name),
            None => String::from_str("mgr"),
        };
        let m = Manga { path: String::from_str(dir_path), title, volumes };
        proof {
            assert(lists_file(listed, progress_file@));
            let k = choose|k: int| 0 <= k < listed.len() && #[trigger] listed[k].name@ == progress_file@;
            assert(listed[k] == input[k].entry);
            assert(listed_opens(dir_path@, input, k, progress_file@, progress_page));
            assert(volume_from(m.volumes@[k], input[k].entry.name@, opt_view(input[k].entry.mokuro), input[k].archive));
            let es = choose|es: Seq<ArchiveEntry>|
                #[trigger] lists_entries(input[k].archive->0@, es) && volume_of(
                    m.volumes@[k],
                    input[k].entry.name@,
                    opt_view(input[k].entry.mokuro),
                    es,
                );
            assert(m.volumes@[k].name@ == progress_file@);
            assert(progress_page <= m.volumes@[k].pages@.len() as u32);
            assert(exists|i: int|
                0 <= i < m.volumes@.len() && #[trigger] m.volumes@[i].name@ == progress_file@
                    && 1 <= progress_page <= m.volumes@[i].pages@.len() as u32);
        }
        assert(m.volumes@ == volumes@);
        assert(forall|i: int|
            0 <= i < input.len() ==> volume_from(
                #[trigger] m.volumes@[i],
                input[i].entry.name@,
                opt_view(input[i].entry.mokuro),
                input[i].archive,
            ));
        Ok(m)
    }
}

} // verus!

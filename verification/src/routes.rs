//! What the reader's HTTP routes decide: which volume and page a request
//! names, the page names shown for a volume, and the media type of an asset.

use crate::cbz::{Page, Volume};
use crate::path::{chars_of, extension, file_stem, spec_extension, spec_file_stem};
use vstd::prelude::*;

verus! {

/// Why a request names nothing that exists.
#[derive(Clone, Copy, Debug, PartialEq, Eq)]
pub enum RouteError {
    /// No volume has the requested name.
    VolumeNotFound,
    /// The volume has no page of the requested (1-based) number.
    PageNotFound,
}

/// Whether two strings are equal.
fn str_eq(a: &str, b: &str) -> (r: bool)
    ensures
        r == (a@ == b@),
{
    let x = chars_of(a);
    let y = chars_of(b);
    if x.len() != y.len() {
        return false;
    }
    let mut i: usize = 0;
    while i < x.len()
        invariant
            x@ == a@,
            y@ == b@,
            x@.len() == y@.len(),
            i <= x@.len(),
            forall|j: int| 0 <= j < i ==> x@[j] == y@[j],
        decreases x@.len() - i,
    {
        if x[i] != y[i] {
            return false;
        }
        i = i + 1;
    }
    assert(x@ =~= y@);
    true
}

/// Whether `prefix` begins `s`.
pub open spec fn seq_starts_with(s: Seq<char>, prefix: Seq<char>) -> bool {
    prefix.len() <= s.len() && s.subrange(0, prefix.len() as int) =~= prefix
}

/// Whether `prefix` begins `s`.
fn starts_with(s: &str, prefix: &Vec<char>) -> (r: bool)
    ensures
        r == seq_starts_with(s@, prefix@),
{
    let x = chars_of(s);
    if prefix.len() > x.len() {
        return false;
    }
    let mut i: usize = 0;
    while i < prefix.len()
        invariant
            x@ == s@,
            prefix@.len() <= x@.len(),
            i <= prefix@.len(),
            forall|j: int| 0 <= j < i ==> x@[j] == prefix@[j],
        decreases prefix@.len() - i,
    {
        if x[i] != prefix[i] {
            assert(s@.subrange(0, prefix@.len() as int)[i as int] != prefix@[i as int]);
            return false;
        }
        i = i + 1;
    }
    assert(s@.subrange(0, prefix@.len() as int) =~= prefix@);
    true
}

/// The index of the first volume named `name`.
pub open spec fn spec_find_volume(volumes: Seq<Volume>, name: Seq<char>) -> Option<int> {
    if exists|i: int| 0 <= i < volumes.len() && #[trigger] volumes[i].name@ == name {
        Some(choose|i: int| 0 <= i < volumes.len() && #[trigger] volumes[i].name@ == name
            && forall|j: int| 0 <= j < i ==> #[trigger] volumes[j].name@ != name)
    } else {
        None
    }
}

/// The index of the first volume named `name`, if any.
pub fn find_volume(volumes: &Vec<Volume>, name: &str) -> (r: Option<usize>)
    ensures
        match r {
            Some(i) => i < volumes@.len() && volumes@[i as int].name@ == name@ && forall|j: int|
                0 <= j < i ==> #[trigger] volumes@[j].name@ != name@,
            None => forall|j: int| 0 <= j < volumes@.len() ==> #[trigger] volumes@[j].name@ != name@,
        },
{
    let mut i: usize = 0;
    while i < volumes.len()
        invariant
            i <= volumes@.len(),
            forall|j: int| 0 <= j < i ==> #[trigger] volumes@[j].name@ != name@,
        decreases volumes@.len() - i,
    {
        if str_eq(volumes[i].name.as_str(), name) {
            return Some(i);
        }
        i = i + 1;
    }
    None
}

/// Locates page `page_number` (counting from 1) of the first volume named
/// `name`, as (volume index, page index).
pub fn locate_page(volumes: &Vec<Volume>, name: &str, page_number: usize) -> (r: Result<(usize, usize), RouteError>)
    ensures
        match r {
            Ok((v, p)) => {
                &&& v < volumes@.len()
                &&& volumes@[v as int].name@ == name@
                &&& forall|j: int| 0 <= j < v ==> #[trigger] volumes@[j].name@ != name@
                &&& page_number >= 1
                &&& p == page_number - 1
                &&& p < volumes@[v as int].pages@.len()
            },
            Err(RouteError::VolumeNotFound) => forall|j: int|
                0 <= j < volumes@.len() ==> #[trigger] volumes@[j].name@ != name@,
            Err(RouteError::PageNotFound) => exists|v: int|
                0 <= v < volumes@.len() && #[trigger] volumes@[v].name@ == name@
                    && (forall|j: int| 0 <= j < v ==> #[trigger] volumes@[j].name@ != name@)
                    && (page_number == 0 || page_number > volumes@[v].pages@.len()),
        },
{
    let v = match find_volume(volumes, name) {
        Some(v) => v,
        None => {
            return Err(RouteError::VolumeNotFound);
        },
    };
    if page_number == 0 || page_number - 1 >= volumes[v].pages.len() {
        assert(volumes@[v as int].name@ == name@);
        return Err(RouteError::PageNotFound);
    }
    Ok((v, page_number - 1))
}

/// The OCR file of the first volume named `name`, if that volume has one.
pub fn find_mokuro<'a>(volumes: &'a Vec<Volume>, name: &str) -> (r: Option<&'a String>)
    ensures
        match r {
            Some(m) => exists|v: int|
                0 <= v < volumes@.len() && #[trigger] volumes@[v].name@ == name@ && (forall|j: int|
                    0 <= j < v ==> #[trigger] volumes@[j].name@ != name@) && volumes@[v].mokuro == Some(*m),
            None => forall|v: int|
                0 <= v < volumes@.len() && #[trigger] volumes@[v].name@ == name@ && (forall|j: int|
                    0 <= j < v ==> #[trigger] volumes@[j].name@ != name@) ==> volumes@[v].mokuro is None,
        },
{
    match find_volume(volumes, name) {
        Some(v) => {
            assert(volumes@[v as int].name@ == name@);
            match &volumes[v].mokuro {
                Some(m) => Some(m),
                None => {
                    assert forall|w: int|
                        0 <= w < volumes@.len() && #[trigger] volumes@[w].name@ == name@ && (forall|j: int|
                            0 <= j < w ==> #[trigger] volumes@[j].name@ != name@) implies volumes@[w].mokuro is None by {
                        if w < v {
                        } else if w > v {
                            assert(volumes@[v as int].name@ == name@);
                        }
                    }
                    None
                },
            }
        },
        None => None,
    }
}

/// The prefix shared by page names that sit in a folder named after their
/// volume: the volume's file stem followed by `/`.
pub open spec fn page_folder_prefix(volume_name: Seq<char>) -> Seq<char> {
    match spec_file_stem(volume_name) {
        Some(stem) => stem + seq!['/'],
        None => Seq::empty(),
    }
}

/// Whether every page name of `pages` begins with `prefix`.
pub open spec fn all_start_with(pages: Seq<Page>, prefix: Seq<char>) -> bool {
    forall|i: int| 0 <= i < pages.len() ==> seq_starts_with(#[trigger] pages[i].name@, prefix)
}

/// The name shown for a page: with the volume's folder prefix removed when
/// every page of the volume carries it.
pub open spec fn shown_page_name(v: Volume, i: int) -> Seq<char> {
    let prefix = page_folder_prefix(v.name@);
    if all_start_with(v.pages@, prefix) {
        v.pages@[i].name@.subrange(prefix.len() as int, v.pages@[i].name@.len() as int)
    } else {
        v.pages@[i].name@
    }
}

/// The names shown for the pages of `volume`, in page order.
pub fn shown_page_names(volume: &Volume) -> (r: Vec<String>)
    ensures
        r@.len() == volume.pages@.len(),
        forall|i: int| 0 <= i < r@.len() ==> #[trigger] r@[i]@ == shown_page_name(*volume, i),
        (exists|j: int|
            0 <= j < volume.pages@.len() && !(page_folder_prefix(volume.name@).len() <= #[trigger] volume.pages@[j].name@.len()
                && volume.pages@[j].name@.subrange(0, page_folder_prefix(volume.name@).len() as int)
                == page_folder_prefix(volume.name@))) ==> forall|i: int|
            0 <= i < r@.len() ==> #[trigger] r@[i]@ == volume.pages@[i].name@,
        (forall|j: int|
            0 <= j < volume.pages@.len() ==> page_folder_prefix(volume.name@).len() <= #[trigger] volume.pages@[j].name@.len()
                && volume.pages@[j].name@.subrange(0, page_folder_prefix(volume.name@).len() as int)
                == page_folder_prefix(volume.name@)) ==> forall|i: int|
            0 <= i < r@.len() ==> page_folder_prefix(volume.name@) + #[trigger] r@[i]@ == volume.pages@[i].name@,
{
    let prefix: Vec<char> = match file_stem(volume.name.as_str()) {
        Some(stem) => {
            let mut p = chars_of(stem);
            p.push('/');
            p
        },
        None => Vec::new(),
    };
    assert(prefix@ =~= page_folder_prefix(volume.name@));
    let ghost gp = page_folder_prefix(volume.name@);
    let mut all: bool = true;
    let mut i: usize = 0;
    while i < volume.pages.len()
        invariant
            i <= volume.pages@.len(),
            prefix@ == gp,
            all == (forall|j: int| 0 <= j < i ==> seq_starts_with(#[trigger] volume.pages@[j].name@, gp)),
        decreases volume.pages@.len() - i,
    {
        let starts = starts_with(volume.pages[i].name.as_str(), &prefix);
        all = all && starts;
        i = i + 1;
    }
    assert(all == all_start_with(volume.pages@, gp));
    let skip: usize = if all {
        prefix.len()
    } else {
        0
    };
    let mut out: Vec<String> = Vec::new();
    let mut k: usize = 0;
    while k < volume.pages.len()
        invariant
            k <= volume.pages@.len(),
            out@.len() == k,
            skip == if all_start_with(volume.pages@, gp) { gp.len() } else { 0 },
            gp == page_folder_prefix(volume.name@),
            forall|j: int| 0 <= j < k ==> #[trigger] out@[j]@ == shown_page_name(*volume, j),
        decreases volume.pages@.len() - k,
    {
        let name = volume.pages[k].name.as_str();
        let len: usize = name.unicode_len();
        assert(all_start_with(volume.pages@, gp) ==> gp.len() <= volume.pages@[k as int].name@.len());
        let shown = String::from_str(name.substring_char(skip, len));
        assert(shown@ == shown_page_name(*volume, k as int)) by {
            if !all_start_with(volume.pages@, gp) {
                assert(name@.subrange(0, name@.len() as int) =~= name@);
            }
        }
        out.push(shown);
        k = k + 1;
    }
    proof {
        let ghost pages = volume.pages@;
        if exists|j: int|
            0 <= j < pages.len() && !(gp.len() <= #[trigger] pages[j].name@.len() && pages[j].name@.subrange(
                0,
                gp.len() as int,
            ) == gp) {
            let j = choose|j: int|
                0 <= j < pages.len() && !(gp.len() <= #[trigger] pages[j].name@.len() && pages[j].name@.subrange(
                    0,
                    gp.len() as int,
                ) == gp);
            assert(!seq_starts_with(pages[j].name@, gp));
            assert(!all_start_with(pages, gp));
        }
        if forall|j: int|
            0 <= j < pages.len() ==> gp.len() <= #[trigger] pages[j].name@.len() && pages[j].name@.subrange(
                0,
                gp.len() as int,
            ) == gp {
            assert(all_start_with(pages, gp));
            assert forall|i: int| 0 <= i < out@.len() implies gp + #[trigger] out@[i]@ == pages[i].name@ by {
                let n = pages[i].name@;
                assert(gp.len() <= n.len() && n.subrange(0, gp.len() as int) == gp);
                assert(out@[i]@ == n.subrange(gp.len() as int, n.len() as int));
                assert(gp + out@[i]@ =~= n);
            }
        }
    }
    out
}

/// The media type of an asset, by the extension of its name.
pub open spec fn spec_asset_mime(name: Seq<char>) -> &'static str {
    match spec_extension(name) {
        Some(ext) => if ext == "js"@ {
            "application/javascript"
        } else if ext == "css"@ {
            "text/css"
        } else if ext == "html"@ {
            "text/html"
        } else {
            "application/octet-stream"
        },
        None => "application/octet-stream",
    }
}

/// The media type of an asset, by the extension of its name.
pub fn asset_mime(name: &str) -> (r: &'static str)
    ensures
        r == spec_asset_mime(name@),
{
    match extension(name) {
        Some(ext) => {
            if str_eq(ext, "js") {
                "application/javascript"
            } else if str_eq(ext, "css") {
                "text/css"
            } else if str_eq(ext, "html") {
                "text/html"
            } else {
                "application/octet-stream"
            }
        },
        None => "application/octet-stream",
    }
}

} // verus!

//! The read list of a directory: its `.cbz` files in reading order.

use crate::cbz::{is_cbz, lemma_mokuro_beside_volume, mokuro_path, spec_is_cbz};
use crate::natural::{natural_sort, naturally_sorted, rule_before, spec_natural_sort, stable_arrangement, Named};
use crate::path::{spec_with_extension, trimmed_end};
use vstd::prelude::*;

verus! {

broadcast use vstd::seq_lib::group_to_multiset_ensures;

/// One file of a read list, and its OCR file if there is one.
#[derive(Clone, Debug)]
pub struct FileEntry {
    pub name: String,
    pub mokuro: Option<String>,
}

/// Why no read list could be made.
#[derive(Clone, Copy, Debug, PartialEq, Eq)]
pub enum ReadListError {
    /// The directory holds no `.cbz` file.
    NoCbzFiles,
}

/// The names among `names` that end in `.cbz`, in their given order.
pub open spec fn cbz_names(names: Seq<String>) -> Seq<String>
    decreases names.len(),
{
    if names.len() == 0 {
        Seq::empty()
    } else if spec_is_cbz(names.last()@) {
        cbz_names(names.drop_last()).push(names.last())
    } else {
        cbz_names(names.drop_last())
    }
}

/// The `.cbz` files among the names of a directory's files, in natural
/// order. Fails when there is none.
pub fn cbz_file_names(names: Vec<String>) -> (r: Result<Vec<String>, ReadListError>)
    ensures
        match r {
            Ok(v) => {
                &&& v@.to_multiset() == cbz_names(names@).to_multiset()
                &&& exists|pos: Seq<int>| stable_arrangement(cbz_names(names@), v@, pos)
                &&& naturally_sorted(v@)
                &&& v@ == spec_natural_sort(cbz_names(names@))
                &&& forall|i: int, k: int| 0 < i < v@.len() ==> !#[trigger] rule_before(v@[i]@, v@[i - 1]@, k)
                &&& v@.len() > 0
            },
            Err(e) => e == ReadListError::NoCbzFiles && cbz_names(names@).len() == 0,
        },
{
    let mut found: Vec<String> = Vec::new();
    let mut k: usize = 0;
    while k < names.len()
        invariant
            k <= names@.len(),
            found@ == cbz_names(names@.take(k as int)),
        decreases names@.len() - k,
    {
        assert(names@.take(k + 1).drop_last() =~= names@.take(k as int));
        if is_cbz(names[k].as_str()) {
            found.push(names[k].clone());
        }
        k = k + 1;
    }
    assert(names@.take(k as int) =~= names@);
    let ghost unsorted = found@;
    let sorted = natural_sort(found);
    assert forall|i: int, k: int| 0 < i < sorted@.len() implies !#[trigger] rule_before(
        sorted@[i]@,
        sorted@[i - 1]@,
        k,
    ) by {
        assert(!rule_before(sorted@[i].name_view(), sorted@[i - 1].name_view(), k));
    }
    assert(sorted@.len() == unsorted.len()) by {
        assert(sorted@.to_multiset().len() == unsorted.to_multiset().len());
    }
    if sorted.len() == 0 {
        return Err(ReadListError::NoCbzFiles);
    }
    Ok(sorted)
}

/// The entry of a listed file: its OCR file is the name with the extension
/// `mokuro`, when such a file exists beside it.
pub open spec fn spec_file_entry_mokuro(name: Seq<char>, mokuro_exists: bool) -> Option<Seq<char>> {
    if mokuro_exists {
        Some(spec_with_extension(name, "mokuro"@))
    } else {
        None
    }
}

/// The entries of the listed files, each with whether its OCR file exists.
pub fn file_entries(files: Vec<(String, bool)>) -> (r: Vec<FileEntry>)
    ensures
        r@.len() == files@.len(),
        forall|i: int|
            0 <= i < files@.len() ==> {
                &&& #[trigger] r@[i].name@ == files@[i].0@
                &&& match r@[i].mokuro {
                    Some(m) => spec_file_entry_mokuro(files@[i].0@, files@[i].1) == Some(m@),
                    None => spec_file_entry_mokuro(files@[i].0@, files@[i].1) is None,
                }
            },
        forall|i: int|
            0 <= i < files@.len() ==> (#[trigger] r@[i].mokuro is Some <==> files@[i].1),
        forall|i: int|
            0 <= i < files@.len() && files@[i].1 ==> #[trigger] r@[i].mokuro->0@ == spec_with_extension(
                files@[i].0@,
                "mokuro"@,
            ),
        forall|i: int|
            0 <= i < files@.len() && files@[i].1 && spec_is_cbz(files@[i].0@) && trimmed_end(
                files@[i].0@,
                files@[i].0@.len() as int,
            ) == files@[i].0@.len() ==> #[trigger] r@[i].mokuro->0@ == files@[i].0@.subrange(
                0,
                files@[i].0@.len() - 3,
            ) + "mokuro"@,
{
    let mut out: Vec<FileEntry> = Vec::new();
    let mut k: usize = 0;
    while k < files.len()
        invariant
            k <= files@.len(),
            out@.len() == k,
            forall|i: int|
                0 <= i < k ==> {
                    &&& #[trigger] out@[i].name@ == files@[i].0@
                    &&& match out@[i].mokuro {
                        Some(m) => spec_file_entry_mokuro(files@[i].0@, files@[i].1) == Some(m@),
                        None => spec_file_entry_mokuro(files@[i].0@, files@[i].1) is None,
                    }
                },
        decreases files@.len() - k,
    {
        let name = files[k].0.clone();
        let mokuro = if files[k].1 {
            Some(mokuro_path(name.as_str()))
        } else {
            None
        };
        let ghost prev = out@;
        out.push(FileEntry { name, mokuro });
        assert(out@[k as int].name@ == files@[k as int].0@);
        assert(forall|i: int| 0 <= i < k ==> out@[i] == prev[i]);
        k = k + 1;
    }
    assert forall|i: int| 0 <= i < files@.len() implies (#[trigger] out@[i].mokuro is Some <==> files@[i].1) && (
    files@[i].1 ==> out@[i].mokuro->0@ == spec_with_extension(files@[i].0@, "mokuro"@)) by {
        assert(out@[i].name@ == files@[i].0@);
    }
    assert forall|i: int|
        0 <= i < files@.len() && files@[i].1 && spec_is_cbz(files@[i].0@) && trimmed_end(
            files@[i].0@,
            files@[i].0@.len() as int,
        ) == files@[i].0@.len() implies #[trigger] out@[i].mokuro->0@ == files@[i].0@.subrange(
        0,
        files@[i].0@.len() - 3,
    ) + "mokuro"@ by {
        assert(out@[i].name@ == files@[i].0@);
        lemma_mokuro_beside_volume(files@[i].0@);
    }
    out
}

/// Each name occurs among the `.cbz` names of a listing as often as it occurs
/// in the listing when it ends in `.cbz`, and never otherwise.
pub proof fn lemma_cbz_names_count(names: Seq<String>, x: String)
    ensures
        cbz_names(names).to_multiset().count(x) == if spec_is_cbz(x@) {
            names.to_multiset().count(x)
        } else {
            0
        },
    decreases names.len(),
{
    if names.len() == 0 {
        assert(cbz_names(names) =~= Seq::<String>::empty());
        assert(names =~= Seq::<String>::empty());
    } else {
        let front = names.drop_last();
        let l = names.last();
        lemma_cbz_names_count(front, x);
        assert(names =~= front.push(l));
        assert(names.to_multiset() =~= front.to_multiset().insert(l));
        if spec_is_cbz(l@) {
            assert(cbz_names(names) == cbz_names(front).push(l));
            assert(cbz_names(names).to_multiset() =~= cbz_names(front).to_multiset().insert(l));
        } else {
            assert(cbz_names(names) == cbz_names(front));
            if spec_is_cbz(x@) {
                assert(l != x);
            }
        }
    }
}

/// Listing a directory again after a file that is not a `.cbz` archive was
/// added to it (such as the read list itself), in whatever order the listing
/// comes, finds the same `.cbz` names, each as often as before.
pub proof fn lemma_listing_ignores_other_files(names: Seq<String>, relisted: Seq<String>, added: String)
    requires
        relisted.to_multiset() == names.to_multiset().insert(added),
        !spec_is_cbz(added@),
    ensures
        cbz_names(relisted).to_multiset() == cbz_names(names).to_multiset(),
{
    assert forall|x: String| #[trigger] cbz_names(relisted).to_multiset().count(x) == cbz_names(
        names,
    ).to_multiset().count(x) by {
        lemma_cbz_names_count(relisted, x);
        lemma_cbz_names_count(names, x);
        if spec_is_cbz(x@) {
            assert(added != x);
        }
    }
    assert(cbz_names(relisted).to_multiset() =~= cbz_names(names).to_multiset());
}

proof fn lemma_cbz_names_concat(a: Seq<String>, b: Seq<String>)
    ensures
        cbz_names(a + b) == cbz_names(a) + cbz_names(b),
    decreases b.len(),
{
    if b.len() == 0 {
        assert(a + b =~= a);
        assert(cbz_names(a) + cbz_names(b) =~= cbz_names(a));
    } else {
        lemma_cbz_names_concat(a, b.drop_last());
        assert((a + b).drop_last() =~= a + b.drop_last());
        assert((a + b).last() == b.last());
        if spec_is_cbz(b.last()@) {
            assert(cbz_names(a) + cbz_names(b) =~= (cbz_names(a) + cbz_names(b.drop_last())).push(b.last()));
        }
    }
}

/// Listing a directory again after a file that is not a `.cbz` archive (such
/// as the read list itself) was added to it, with the other files listed in
/// the same order as before, gives the same `.cbz` names in the same order,
/// and so the same sorted read list.
pub proof fn lemma_relisting_same_read_list(names: Seq<String>, at: int, added: String)
    requires
        0 <= at <= names.len(),
        !spec_is_cbz(added@),
    ensures
        cbz_names(names.insert(at, added)) == cbz_names(names),
        spec_natural_sort(cbz_names(names.insert(at, added))) == spec_natural_sort(cbz_names(names)),
{
    let front = names.take(at);
    let back = names.skip(at);
    assert(names.insert(at, added) =~= (front + seq![added]) + back);
    assert(names =~= front + back);
    lemma_cbz_names_concat(front + seq![added], back);
    lemma_cbz_names_concat(front, seq![added]);
    lemma_cbz_names_concat(front, back);
    let single = seq![added];
    assert(single.len() == 1 && single.last() == added);
    assert(single.drop_last() =~= Seq::<String>::empty());
    assert(cbz_names(single.drop_last()) =~= Seq::<String>::empty());
    assert(cbz_names(single) =~= Seq::<String>::empty());
    assert(cbz_names(front) + cbz_names(seq![added]) =~= cbz_names(front));
}

} // verus!

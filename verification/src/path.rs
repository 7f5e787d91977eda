//! Path rules on `/`-separated path strings: the final file name, its
//! extension and stem, the `.cbz` test and the replacement of an extension.
//!
//! A path's components are separated by `/`; empty components and `.`
//! components are dropped, except a `.` that begins the path.

use vstd::prelude::*;

verus! {

/// End of the part of `s[0..e]` that remains once trailing separators and
/// trailing `/.` components are dropped.
pub open spec fn trimmed_end(s: Seq<char>, e: int) -> int
    decreases e,
{
    if e <= 0 {
        0
    } else if s[e - 1] == '/' {
        trimmed_end(s, e - 1)
    } else if e >= 2 && s[e - 1] == '.' && s[e - 2] == '/' {
        trimmed_end(s, e - 2)
    } else {
        e
    }
}

/// Start of the component that ends at `e`: one past the last `/` before `e`.
pub open spec fn component_start(s: Seq<char>, e: int) -> int
    decreases e,
{
    if e <= 0 {
        0
    } else if s[e - 1] == '/' {
        e
    } else {
        component_start(s, e - 1)
    }
}

/// Where the final component of `s` lies, as (start, end).
pub open spec fn last_component(s: Seq<char>) -> (int, int) {
    let e = trimmed_end(s, s.len() as int);
    (component_start(s, e), e)
}

/// Whether `s` has a file name: its final component is neither empty, nor
/// `.` (the current directory), nor `..` (the parent directory).
pub open spec fn has_file_name(s: Seq<char>) -> bool {
    let (b, e) = last_component(s);
    let c = s.subrange(b, e);
    c.len() > 0 && c != seq!['.'] && c != seq!['.', '.']
}

/// The final component of `s`, if it names a file or directory.
pub open spec fn spec_file_name(s: Seq<char>) -> Option<Seq<char>> {
    if has_file_name(s) {
        let (b, e) = last_component(s);
        Some(s.subrange(b, e))
    } else {
        None
    }
}

/// Index of the last `.` in `name`, or -1 if it has none.
pub open spec fn last_dot(name: Seq<char>) -> int
    decreases name.len(),
{
    if name.len() == 0 {
        -1
    } else if name.last() == '.' {
        name.len() - 1
    } else {
        last_dot(name.drop_last())
    }
}

/// A file name has an extension when it has a `.` other than a leading one.
pub open spec fn name_has_extension(name: Seq<char>) -> bool {
    last_dot(name) > 0
}

/// The extension of a file name: the part after its final `.`.
pub open spec fn name_extension(name: Seq<char>) -> Option<Seq<char>> {
    if name_has_extension(name) {
        Some(name.subrange(last_dot(name) + 1, name.len() as int))
    } else {
        None
    }
}

/// The stem of a file name: the part before its final `.`, or the whole name
/// when it has no extension.
pub open spec fn name_stem(name: Seq<char>) -> Seq<char> {
    if name_has_extension(name) {
        name.subrange(0, last_dot(name))
    } else {
        name
    }
}

/// The extension of the file name of `s`.
pub open spec fn spec_extension(s: Seq<char>) -> Option<Seq<char>> {
    match spec_file_name(s) {
        Some(name) => name_extension(name),
        None => None,
    }
}

/// The stem of the file name of `s`.
pub open spec fn spec_file_stem(s: Seq<char>) -> Option<Seq<char>> {
    match spec_file_name(s) {
        Some(name) => Some(name_stem(name)),
        None => None,
    }
}

/// ASCII lower-case of one character; other characters are unchanged.
pub open spec fn ascii_lower(c: char) -> char {
    if 'A' <= c && c <= 'Z' {
        ((c as int) + 32) as char
    } else {
        c
    }
}

/// Equality of two strings up to ASCII case.
pub open spec fn eq_ignore_ascii_case(a: Seq<char>, b: Seq<char>) -> bool {
    a.len() == b.len() && forall|i: int| 0 <= i < a.len() ==> ascii_lower(#[trigger] a[i]) == ascii_lower(b[i])
}

/// `s` with the extension of its file name replaced by `ext` (added where
/// the name has none); anything after the file name is dropped. A path with
/// no file name is returned unchanged.
pub open spec fn spec_with_extension(s: Seq<char>, ext: Seq<char>) -> Seq<char> {
    if has_file_name(s) {
        let (b, e) = last_component(s);
        let stem_end = b + name_stem(s.subrange(b, e)).len();
        s.subrange(0, stem_end) + seq!['.'] + ext
    } else {
        s
    }
}

/// The characters of `s`, in order.
pub fn chars_of(s: &str) -> (v: Vec<char>)
    ensures
        v@ == s@,
{
    let mut v: Vec<char> = Vec::new();
    for c in it: s.chars()
        invariant
            v@ == it.seq().take(it.index() as int),
    {
        v.push(c);
    }
    v
}

/// `last_dot` of a growing prefix of `s[b..]`, one character at a time.
proof fn lemma_last_dot_step(s: Seq<char>, b: int, k: int)
    requires
        0 <= b < k <= s.len(),
    ensures
        last_dot(s.subrange(b, k)) == if s[k - 1] == '.' {
            k - 1 - b
        } else {
            last_dot(s.subrange(b, k - 1))
        },
{
    assert(s.subrange(b, k).drop_last() =~= s.subrange(b, k - 1));
}

/// Where the final component of `v` lies, as (start, end).
fn last_component_exec(v: &Vec<char>) -> (r: (usize, usize))
    ensures
        r.0 as int == last_component(v@).0,
        r.1 as int == last_component(v@).1,
        r.0 <= r.1 <= v@.len(),
{
    let mut e: usize = v.len();
    while e > 0 && (v[e - 1] == '/' || (e >= 2 && v[e - 1] == '.' && v[e - 2] == '/'))
        invariant
            e <= v@.len(),
            trimmed_end(v@, e as int) == trimmed_end(v@, v@.len() as int),
        decreases e,
    {
        if v[e - 1] == '/' {
            e = e - 1;
        } else {
            e = e - 2;
        }
    }
    let mut b: usize = e;
    while b > 0 && v[b - 1] != '/'
        invariant
            b <= e <= v@.len(),
            e == trimmed_end(v@, v@.len() as int),
            component_start(v@, b as int) == component_start(v@, e as int),
        decreases b,
    {
        b = b - 1;
    }
    (b, e)
}

/// Index of the last `.` in `v[b..e]`, relative to `b`, if there is one.
fn last_dot_exec(v: &Vec<char>, b: usize, e: usize) -> (r: Option<usize>)
    requires
        b <= e <= v@.len(),
    ensures
        match r {
            Some(k) => k as int == last_dot(v@.subrange(b as int, e as int)) && b + k < e,
            None => last_dot(v@.subrange(b as int, e as int)) == -1,
        },
{
    let mut k: usize = e;
    while k > b
        invariant
            b <= k <= e <= v@.len(),
            forall|i: int| k <= i < e ==> v@[i] != '.',
            last_dot(v@.subrange(b as int, e as int)) == last_dot(v@.subrange(b as int, k as int)),
        decreases k,
    {
        proof {
            lemma_last_dot_step(v@, b as int, k as int);
        }
        if v[k - 1] == '.' {
            return Some(k - 1 - b);
        }
        k = k - 1;
    }
    assert(v@.subrange(b as int, k as int).len() == 0);
    None
}

/// The span of the file name of `v` and the offset of its extension dot.
fn name_parts(v: &Vec<char>) -> (r: Option<(usize, usize, Option<usize>)>)
    ensures
        match r {
            Some((b, e, dot)) => {
                &&& has_file_name(v@)
                &&& b as int == last_component(v@).0
                &&& e as int == last_component(v@).1
                &&& b <= e <= v@.len()
                &&& match dot {
                    Some(k) => name_has_extension(v@.subrange(b as int, e as int))
                        && k as int == last_dot(v@.subrange(b as int, e as int)) && b + k < e,
                    None => !name_has_extension(v@.subrange(b as int, e as int)),
                }
            },
            None => !has_file_name(v@),
        },
{
    let (b, e) = last_component_exec(v);
    let n: usize = e - b;
    let ghost c = v@.subrange(b as int, e as int);
    if n == 0 {
        return None;
    }
    if n == 1 && v[b] == '.' {
        assert(c =~= seq!['.']);
        return None;
    }
    if n == 2 && v[b] == '.' && v[b + 1] == '.' {
        assert(c =~= seq!['.', '.']);
        return None;
    }
    assert(c != seq!['.']) by {
        if n == 1 {
            assert(c[0] == v@[b as int]);
        }
    }
    assert(c != seq!['.', '.']) by {
        if n == 2 {
            assert(c[0] == v@[b as int] && c[1] == v@[b + 1]);
        }
    }
    match last_dot_exec(v, b, e) {
        Some(k) => {
            if k > 0 {
                Some((b, e, Some(k)))
            } else {
                Some((b, e, None))
            }
        },
        None => Some((b, e, None)),
    }
}

/// The final component of `path`, if it names a file or directory.
pub fn file_name(path: &str) -> (r: Option<&str>)
    ensures
        match r {
            Some(n) => spec_file_name(path@) == Some(n@),
            None => spec_file_name(path@) is None,
        },
{
    let v = chars_of(path);
    match name_parts(&v) {
        Some((b, e, _)) => Some(path.substring_char(b, e)),
        None => None,
    }
}

/// The extension of the file name of `path`.
pub fn extension(path: &str) -> (r: Option<&str>)
    ensures
        match r {
            Some(x) => spec_extension(path@) == Some(x@),
            None => spec_extension(path@) is None,
        },
{
    let v = chars_of(path);
    match name_parts(&v) {
        Some((b, e, Some(k))) => {
            assert(v@.subrange(b as int, e as int).subrange(k + 1, (e - b) as int)
                =~= v@.subrange(b + k + 1, e as int));
            Some(path.substring_char(b + k + 1, e))
        },
        _ => None,
    }
}

/// The stem of the file name of `path`: the name without its extension.
pub fn file_stem(path: &str) -> (r: Option<&str>)
    ensures
        match r {
            Some(x) => spec_file_stem(path@) == Some(x@),
            None => spec_file_stem(path@) is None,
        },
{
    let v = chars_of(path);
    match name_parts(&v) {
        Some((b, e, Some(k))) => {
            assert(v@.subrange(b as int, e as int).subrange(0, k as int)
                =~= v@.subrange(b as int, b + k));
            Some(path.substring_char(b, b + k))
        },
        Some((b, e, None)) => Some(path.substring_char(b, e)),
        None => None,
    }
}

pub fn ascii_lower_exec(c: char) -> (r: char)
    ensures
        r == ascii_lower(c),
{
    if 'A' <= c && c <= 'Z' {
        let u: u8 = c as u8;
        ((u + 32) as char)
    } else {
        c
    }
}

/// `path` with the extension of its file name replaced by `ext`.
pub fn with_extension(path: &str, ext: &str) -> (r: String)
    ensures
        r@ == spec_with_extension(path@, ext@),
{
    let v = chars_of(path);
    match name_parts(&v) {
        Some((b, e, dot)) => {
            let stem_end: usize = match dot {
                Some(k) => b + k,
                None => e,
            };
            let head = String::from_str(path.substring_char(0, stem_end));
            let with_dot = head.concat(".");
            proof {
                reveal_strlit(".");
            }
            with_dot.concat(ext)
        },
        None => String::from_str(path),
    }
}

/// `p` appended to `base` as a further component: an absolute `p` replaces
/// `base`; otherwise a separator is put between them unless `base` is empty
/// or already ends in one.
pub open spec fn spec_join(base: Seq<char>, p: Seq<char>) -> Seq<char> {
    if p.len() > 0 && p[0] == '/' {
        p
    } else if base.len() == 0 || base.last() == '/' {
        base + p
    } else {
        base + seq!['/'] + p
    }
}

/// `p` appended to `base` as a further path component.
pub fn join(base: &str, p: &str) -> (r: String)
    ensures
        r@ == spec_join(base@, p@),
{
    let pv = chars_of(p);
    if pv.len() > 0 && pv[0] == '/' {
        return String::from_str(p);
    }
    let bv = chars_of(base);
    let head = String::from_str(base);
    if bv.len() == 0 || bv[bv.len() - 1] == '/' {
        head.concat(p)
    } else {
        proof {
            reveal_strlit("/");
        }
        head.concat("/").concat(p)
    }
}

/// A plain file name: not empty, not `.` or `..`, and free of separators.
pub open spec fn is_plain_name(name: Seq<char>) -> bool {
    &&& name.len() > 0
    &&& name != seq!['.']
    &&& name != seq!['.', '.']
    &&& forall|i: int| 0 <= i < name.len() ==> name[i] != '/'
}

proof fn lemma_component_start_at(s: Seq<char>, b: int, e: int)
    requires
        0 <= b <= e <= s.len(),
        b == 0 || s[b - 1] == '/',
        forall|i: int| b <= i < e ==> s[i] != '/',
    ensures
        component_start(s, e) == b,
    decreases e,
{
    if e > b {
        lemma_component_start_at(s, b, e - 1);
    }
}

/// A plain name joined to any directory is the file name of the result.
pub proof fn lemma_file_name_of_join(base: Seq<char>, name: Seq<char>)
    requires
        is_plain_name(name),
    ensures
        spec_file_name(spec_join(base, name)) == Some(name),
{
    let j = spec_join(base, name);
    let b = j.len() - name.len();
    assert(name[0] != '/');
    assert(j.subrange(b, j.len() as int) =~= name);
    assert forall|i: int| b <= i < j.len() implies j[i] != '/' by {
        assert(j[i] == name[i - b]);
    }
    assert(j[j.len() - 1] == name[name.len() - 1]);
    if name.len() >= 2 {
        assert(j[j.len() - 2] == name[name.len() - 2]);
    } else {
        if name[0] == '.' {
            assert(name =~= seq!['.']);
        }
    }
    assert(trimmed_end(j, j.len() as int) == j.len());
    if b > 0 {
        if base.len() == 0 || base.last() == '/' {
            assert(j[b - 1] == base.last());
        } else {
            assert(j[b - 1] == '/');
        }
    }
    lemma_component_start_at(j, b, j.len() as int);
}

/// Whether a plain name joined to a directory is a `.cbz` path depends on
/// the name alone.
pub proof fn lemma_extension_of_join(base: Seq<char>, name: Seq<char>)
    requires
        is_plain_name(name),
    ensures
        spec_extension(spec_join(base, name)) == name_extension(name),
        spec_extension(name) == name_extension(name),
{
    lemma_file_name_of_join(base, name);
    lemma_file_name_of_join(Seq::empty(), name);
    assert(spec_join(Seq::empty(), name) =~= name);
}

/// The last dot lies within the name.
pub proof fn lemma_last_dot_is_dot(name: Seq<char>)
    ensures
        -1 <= last_dot(name) < name.len(),
        last_dot(name) >= 0 ==> name[last_dot(name)] == '.',
    decreases name.len(),
{
    if name.len() > 0 && name.last() != '.' {
        lemma_last_dot_is_dot(name.drop_last());
    }
}

proof fn lemma_trimmed_end_bounds(s: Seq<char>, e: int)
    requires
        e <= s.len(),
    ensures
        0 <= trimmed_end(s, e),
        trimmed_end(s, e) <= e || e < 0,
    decreases e,
{
    if e > 0 {
        if s[e - 1] == '/' {
            lemma_trimmed_end_bounds(s, e - 1);
        } else if e >= 2 && s[e - 1] == '.' && s[e - 2] == '/' {
            lemma_trimmed_end_bounds(s, e - 2);
        }
    }
}

proof fn lemma_component_start_bounds(s: Seq<char>, e: int)
    requires
        0 <= e,
    ensures
        0 <= component_start(s, e) <= e,
    decreases e,
{
    if e > 0 && s[e - 1] != '/' {
        lemma_component_start_bounds(s, e - 1);
    }
}

/// The final component lies within the path.
pub proof fn lemma_last_component_bounds(s: Seq<char>)
    ensures
        0 <= last_component(s).0 <= last_component(s).1 <= s.len(),
{
    lemma_trimmed_end_bounds(s, s.len() as int);
    lemma_component_start_bounds(s, trimmed_end(s, s.len() as int));
}

} // verus!

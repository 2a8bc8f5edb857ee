//! File-name helpers: the stem and extension of a path's final component, and
//! whether it names a video file.
use vstd::prelude::*;
use crate::parse::{chars_of, lemma_split_last, lemma_split_nonempty, lemma_split_pieces, ranges_match, same_text, split_on, split_ranges};

verus! {

broadcast use vstd::string::group_string_axioms;

/// The last piece that names something, skipping empty pieces and `.`; a
/// final `..` names nothing.
pub open spec fn last_named(segs: Seq<Seq<char>>) -> Option<Seq<char>>
    decreases segs.len(),
{
    if segs.len() == 0 {
        None
    } else {
        let l = segs.last();
        if l.len() == 0 || l == seq!['.'] {
            last_named(segs.drop_last())
        } else if l == seq!['.', '.'] {
            None
        } else {
            Some(l)
        }
    }
}

/// The final component of a `/`-separated path, as `Path::file_name` finds it.
pub open spec fn file_name(p: Seq<char>) -> Option<Seq<char>> {
    last_named(split_on(p, '/'))
}

/// The pieces of a file name cut at its last `.`: `None` when there is no
/// `.` or the only `.` is the first character.
pub open spec fn dot_split(n: Seq<char>) -> Option<(Seq<char>, Seq<char>)> {
    let p = split_on(n, '.');
    let after = p.last();
    let before = n.take(n.len() - after.len() - 1);
    if p.len() <= 1 || before.len() == 0 { None } else { Some((before, after)) }
}

/// The stem of a path: its file name up to the last `.` (the whole name when
/// the name has no `.` after its first character).
pub open spec fn spec_stem(p: Seq<char>) -> Option<Seq<char>> {
    match file_name(p) {
        Some(n) => match dot_split(n) {
            Some((before, _)) => Some(before),
            None => Some(n),
        },
        None => None,
    }
}

/// The extension of a path: the part of its file name after the last `.`.
pub open spec fn spec_extension(p: Seq<char>) -> Option<Seq<char>> {
    match file_name(p) {
        Some(n) => match dot_split(n) {
            Some((_, after)) => Some(after),
            None => None,
        },
        None => None,
    }
}

/// What `str::to_lowercase` returns for a string.
pub uninterp spec fn lowercase(s: Seq<char>) -> Seq<char>;

/// A character with ASCII's capital letters turned into small ones.
pub open spec fn ascii_lower(c: char) -> char {
    if 65 <= (c as u32) <= 90 { ((c as u32) + 32) as char } else { c }
}

/// Every character is ASCII.
pub open spec fn is_ascii(s: Seq<char>) -> bool {
    forall|i: int| 0 <= i < s.len() ==> (#[trigger] s[i] as u32) < 128
}

/// Calls `str::to_lowercase`. The contract names its result `lowercase` of
/// the input; of the Unicode case mapping it states only what it does to
/// ASCII text: `A` to `Z` become `a` to `z`, every other character stays.
#[verifier::external_body]
fn to_lowercase(s: &str) -> (r: String)
    ensures
        r@ == lowercase(s@),
        is_ascii(s@) ==> r@ == s@.map_values(|c: char| ascii_lower(c)),
{
    s.to_lowercase()
}

/// The extensions that mark a video file (compared after lowercasing).
pub open spec fn is_video_extension(e: Seq<char>) -> bool {
    ||| e == "mp4"@
    ||| e == "mov"@
    ||| e == "avi"@
    ||| e == "mkv"@
    ||| e == "webm"@
    ||| e == "wmv"@
    ||| e == "flv"@
    ||| e == "ts"@
    ||| e == "m4v"@
    ||| e == "mpg"@
    ||| e == "mpeg"@
}

/// The index range of the final component of `s`, if there is one.
fn file_name_range(s: &Vec<char>) -> (r: Option<(usize, usize)>)
    ensures
        match r {
            Some((a, b)) => a <= b <= s@.len() && file_name(s@) == Some(s@.subrange(a as int, b as int)),
            None => file_name(s@) is None,
        },
{
    let n = s.len();
    let segs = split_ranges(s, 0, n, '/');
    assert(s@.subrange(0, n as int) =~= s@);
    let ghost p = split_on(s@, '/');
    let mut k = segs.len();
    assert(p.take(k as int) =~= p);
    while k > 0
        invariant
            k <= segs@.len(),
            ranges_match(s@, 0, n as int, '/', segs@),
            n == s@.len(),
            s@.subrange(0, n as int) == s@,
            p == split_on(s@, '/'),
            last_named(p.take(k as int)) == file_name(s@),
        decreases k,
    {
        let (a, b) = segs[k - 1];
        let ghost l = p[k - 1];
        assert(s@.subrange(a as int, b as int) == l);
        assert(p.take(k as int).last() == l);
        assert(p.take(k as int).drop_last() =~= p.take(k - 1));
        if b == a || (b - a == 1 && s[a] == '.') {
            assert(l.len() == 0 || l =~= seq!['.']);
            k = k - 1;
        } else if b - a == 2 && s[a] == '.' && s[a + 1] == '.' {
            assert(l =~= seq!['.', '.']);
            return None;
        } else {
            assert(l.len() != 0);
            assert(l != seq!['.']) by {
                if l.len() == 1 {
                    assert(l[0] == s@[a as int]);
                }
            }
            assert(l != seq!['.', '.']) by {
                if l.len() == 2 {
                    assert(l[0] == s@[a as int]);
                    assert(l[1] == s@[a + 1]);
                }
            }
            return Some((a, b));
        }
    }
    assert(p.take(0) =~= Seq::<Seq<char>>::empty());
    None
}

/// Where the last `.` of `s[a..b]` is, when it splits the name in two.
fn dot_split_at(s: &Vec<char>, a: usize, b: usize) -> (r: Option<usize>)
    requires
        a <= b <= s@.len(),
    ensures
        match r {
            Some(d) => a < d < b && dot_split(s@.subrange(a as int, b as int))
                == Some((s@.subrange(a as int, d as int), s@.subrange(d + 1, b as int))),
            None => dot_split(s@.subrange(a as int, b as int)) is None,
        },
{
    let segs = split_ranges(s, a, b, '.');
    let ghost nm = s@.subrange(a as int, b as int);
    let ghost p = split_on(nm, '.');
    proof { crate::parse::lemma_split_nonempty(nm, '.'); }
    if segs.len() <= 1 {
        return None;
    }
    let (c, d) = segs[segs.len() - 1];
    assert(s@.subrange(c as int, d as int) == p.last());
    if c - 1 == a {
        assert(nm.take(nm.len() - p.last().len() - 1).len() == 0);
        return None;
    }
    assert(nm.take(nm.len() - p.last().len() - 1) =~= s@.subrange(a as int, c - 1));
    Some(c - 1)
}

/// The stem of a path's file name (the file name without its extension).
pub fn stem(path: &str) -> (r: Option<String>)
    ensures
        match r {
            Some(x) => spec_stem(path@) == Some(x@),
            None => spec_stem(path@) is None,
        },
{
    let cs = chars_of(path);
    match file_name_range(&cs) {
        None => None,
        Some((a, b)) => match dot_split_at(&cs, a, b) {
            Some(d) => Some(String::from_str(path.substring_char(a, d))),
            None => Some(String::from_str(path.substring_char(a, b))),
        },
    }
}

fn extension(path: &str) -> (r: Option<String>)
    ensures
        match r {
            Some(x) => spec_extension(path@) == Some(x@),
            None => spec_extension(path@) is None,
        },
{
    let cs = chars_of(path);
    match file_name_range(&cs) {
        None => None,
        Some((a, b)) => match dot_split_at(&cs, a, b) {
            Some(d) => Some(String::from_str(path.substring_char(d + 1, b))),
            None => None,
        },
    }
}

/// The extension of a path's file name, lowercased.
pub fn extension_lower(path: &str) -> (r: Option<String>)
    ensures
        match r {
            Some(x) => spec_extension(path@) is Some && x@ == lowercase(spec_extension(path@)->0)
                && (is_ascii(path@) ==> x@ == spec_extension(path@)->0.map_values(|c: char| ascii_lower(c))),
            None => spec_extension(path@) is None,
        },
{
    proof { lemma_extension_chars(path@); }
    match extension(path) {
        Some(e) => Some(to_lowercase(e.as_str())),
        None => None,
    }
}

/// Whether the path names a video file, judged by its (lowercased) extension.
pub fn is_video_file(path: &str) -> (r: bool)
    ensures
        r == (spec_extension(path@) is Some && is_video_extension(lowercase(spec_extension(path@)->0))),
        is_ascii(path@) ==> r == (spec_extension(path@) is Some
            && is_video_extension(spec_extension(path@)->0.map_values(|c: char| ascii_lower(c)))),
{
    match extension_lower(path) {
        None => false,
        Some(e) => {
            let t = e.as_str();
            same_text(t, "mp4") || same_text(t, "mov") || same_text(t, "avi") || same_text(t, "mkv")
                || same_text(t, "webm") || same_text(t, "wmv") || same_text(t, "flv")
                || same_text(t, "ts") || same_text(t, "m4v") || same_text(t, "mpg")
                || same_text(t, "mpeg")
        },
    }
}

proof fn lemma_last_named_piece(segs: Seq<Seq<char>>) -> (k: int)
    requires
        last_named(segs) is Some,
    ensures
        0 <= k < segs.len(),
        segs[k] == last_named(segs)->0,
    decreases segs.len(),
{
    let l = segs.last();
    if l.len() == 0 || l == seq!['.'] {
        let k = lemma_last_named_piece(segs.drop_last());
        assert(segs.drop_last()[k] == segs[k]);
        k
    } else {
        (segs.len() - 1) as int
    }
}

/// A path's extension holds no `.` and no `/`, and is ASCII when the path is.
pub proof fn lemma_extension_chars(path: Seq<char>)
    ensures
        spec_extension(path) matches Some(e) ==> forall|i: int| 0 <= i < e.len() ==> {
            &&& #[trigger] e[i] != '.'
            &&& e[i] != '/'
            &&& is_ascii(path) ==> (e[i] as u32) < 128
        },
{
    if let Some(e) = spec_extension(path) {
        let ok = |c: char| is_ascii(path) ==> (c as u32) < 128;
        lemma_split_pieces(path, '/', ok);
        let segs = split_on(path, '/');
        let k = lemma_last_named_piece(segs);
        let n = file_name(path)->0;
        assert(n == segs[k]);
        let ok2 = |c: char| c != '/' && (is_ascii(path) ==> (c as u32) < 128);
        assert forall|i: int| 0 <= i < n.len() implies ok2(#[trigger] n[i]) by {
            assert(ok(segs[k][i]) && segs[k][i] != '/');
        }
        lemma_split_pieces(n, '.', ok2);
        let p = split_on(n, '.');
        lemma_split_nonempty(n, '.');
        assert(e == p.last());
        assert forall|i: int| 0 <= i < e.len() implies #[trigger] e[i] != '.' && e[i] != '/'
            && (is_ascii(path) ==> (e[i] as u32) < 128) by {
            assert(e[i] == p[p.len() - 1][i]);
            assert(ok2(p[p.len() - 1][i]));
        }
    }
}

/// A path that has an extension also has a stem, and its file name is the
/// stem, a dot and the extension.
pub proof fn lemma_stem_dot_extension(path: Seq<char>)
    requires
        spec_extension(path) is Some,
    ensures
        spec_stem(path) is Some,
        file_name(path) == Some(spec_stem(path)->0 + seq!['.'] + spec_extension(path)->0),
{
    let n = file_name(path)->0;
    let p = split_on(n, '.');
    lemma_split_last(n, '.');
    let after = p.last();
    let before = n.take(n.len() - after.len() - 1);
    assert(n =~= before + seq!['.'] + after);
}

} // verus!

//! Track handling: recognizing a file's content type from its extension,
//! deriving title and artist from the file name, and the local-file track
//! that streams a file's bytes as frames with that metadata.

use vstd::prelude::*;
use crate::errors::StreamError;
use crate::strings::{str_eq, string_push};

verus! {

/// ASCII whitespace, as stripped from derived titles and artists.
pub open spec fn spec_is_space(c: char) -> bool {
    c == ' ' || c == '\t' || c == '\n' || c == '\r'
}

/// ASCII uppercase letters are lowered; anything else is unchanged.
pub open spec fn spec_lower_char(c: char) -> char {
    if 'A' <= c && c <= 'Z' {
        (((c as u8) + 32) as u8) as char
    } else {
        c
    }
}

/// The index of the last occurrence of `c` in `s`, or -1.
pub open spec fn spec_last_index_of(s: Seq<char>, c: char) -> int
    decreases s.len(),
{
    if s.len() == 0 {
        -1
    } else if s.last() == c {
        s.len() - 1
    } else {
        spec_last_index_of(s.drop_last(), c)
    }
}

/// The index of the first occurrence of `c` in `s`, or `s.len()`.
pub open spec fn spec_first_index_of(s: Seq<char>, c: char) -> int
    decreases s.len(),
{
    if s.len() == 0 {
        0
    } else if s.first() == c {
        0
    } else {
        1 + spec_first_index_of(s.drop_first(), c)
    }
}

/// The index of the first non-whitespace character, or `s.len()`.
pub open spec fn spec_first_nonspace(s: Seq<char>) -> int
    decreases s.len(),
{
    if s.len() == 0 {
        0
    } else if spec_is_space(s.first()) {
        1 + spec_first_nonspace(s.drop_first())
    } else {
        0
    }
}

/// The index of the last non-whitespace character, or -1.
pub open spec fn spec_last_nonspace(s: Seq<char>) -> int
    decreases s.len(),
{
    if s.len() == 0 {
        -1
    } else if spec_is_space(s.last()) {
        spec_last_nonspace(s.drop_last())
    } else {
        s.len() - 1
    }
}

/// `s` with leading and trailing whitespace removed.
pub open spec fn spec_trim(s: Seq<char>) -> Seq<char> {
    if spec_first_nonspace(s) == s.len() {
        Seq::empty()
    } else {
        s.subrange(spec_first_nonspace(s), spec_last_nonspace(s) + 1)
    }
}

/// The file name: everything after the last path separator.
pub open spec fn spec_basename(path: Seq<char>) -> Seq<char> {
    path.skip(spec_last_index_of(path, '/') + 1)
}

/// The extension of the file name, lowercased: what follows the last dot,
/// provided the dot is neither absent nor the file name's first character.
pub open spec fn spec_get_ext(path: Seq<char>) -> Option<Seq<char>> {
    let base = spec_basename(path);
    let d = spec_last_index_of(base, '.');
    if d <= 0 {
        None
    } else {
        Some(base.skip(d + 1).map_values(|c: char| spec_lower_char(c)))
    }
}

/// The content type recognized for a (lowercased) extension.
pub open spec fn spec_content_type_for_ext(e: Seq<char>) -> Option<Seq<char>> {
    if e == "mp3"@ {
        Some("audio/mpeg"@)
    } else if e == "flac"@ {
        Some("audio/flac"@)
    } else if e == "aac"@ {
        Some("audio/x-aac"@)
    } else if e == "mp4a"@ {
        Some("audio/mp4"@)
    } else if e == "mp4"@ {
        Some("video/mp4"@)
    } else if e == "nsv"@ {
        Some("video/nsv"@)
    } else if e == "ogg"@ {
        Some("audio/ogg"@)
    } else if e == "spx"@ {
        Some("audio/ogg"@)
    } else if e == "opus"@ {
        Some("audio/ogg"@)
    } else if e == "oga"@ {
        Some("audio/ogg"@)
    } else if e == "ogv"@ {
        Some("video/ogg"@)
    } else if e == "weba"@ {
        Some("audio/webm"@)
    } else if e == "webm"@ {
        Some("video/webm"@)
    } else if e == "axa"@ {
        Some("audio/annodex"@)
    } else if e == "axv"@ {
        Some("video/annodex"@)
    } else {
        None
    }
}

/// The content type recognized for a path, through its extension.
pub open spec fn spec_content_type_from_path(path: Seq<char>) -> Option<Seq<char>> {
    match spec_get_ext(path) {
        None => None,
        Some(e) => spec_content_type_for_ext(e),
    }
}

/// The file name without its extension: the part before the last dot,
/// when that dot is neither absent nor leading.
pub open spec fn spec_stem(name: Seq<char>) -> Seq<char> {
    let d = spec_last_index_of(name, '.');
    if d <= 0 {
        name
    } else {
        name.take(d)
    }
}

/// Title and artist derived from a file name: the extension is stripped,
/// the stem is split at its first `-`, and the left piece becomes the
/// title, the whole right piece the artist, each trimmed of surrounding
/// whitespace.
pub open spec fn spec_split_basename(name: Seq<char>) -> (Seq<char>, Option<Seq<char>>) {
    let stem = spec_stem(name);
    let d1 = spec_first_index_of(stem, '-');
    let title = spec_trim(stem.take(d1));
    if d1 == stem.len() {
        (title, None)
    } else {
        (title, Some(spec_trim(stem.skip(d1 + 1))))
    }
}

/// What `spec_last_index_of` returns: the position of `c` with nothing
/// equal to `c` after it, or -1 with no `c` at all.
pub proof fn lemma_last_index_of(s: Seq<char>, c: char)
    ensures
        -1 <= spec_last_index_of(s, c) < s.len(),
        spec_last_index_of(s, c) >= 0 ==> s[spec_last_index_of(s, c)] == c,
        forall|k: int| spec_last_index_of(s, c) < k < s.len() ==> s[k] != c,
    decreases s.len(),
{
    if s.len() > 0 && s.last() != c {
        lemma_last_index_of(s.drop_last(), c);
        let j = spec_last_index_of(s, c);
        assert forall|k: int| j < k < s.len() implies s[k] != c by {
            if k < s.len() - 1 {
                assert(s.drop_last()[k] != c);
            }
        }
    }
}

/// What `spec_first_index_of` returns: the position of the first `c`, with
/// nothing equal to `c` before it, or `s.len()` with no `c` at all.
pub proof fn lemma_first_index_of(s: Seq<char>, c: char)
    ensures
        0 <= spec_first_index_of(s, c) <= s.len(),
        spec_first_index_of(s, c) < s.len() ==> s[spec_first_index_of(s, c)] == c,
        forall|k: int| 0 <= k < spec_first_index_of(s, c) ==> s[k] != c,
    decreases s.len(),
{
    if s.len() > 0 && s.first() != c {
        lemma_first_index_of(s.drop_first(), c);
        let j = spec_first_index_of(s, c);
        assert forall|k: int| 0 <= k < j implies s[k] != c by {
            if k > 0 {
                assert(s.drop_first()[k - 1] != c);
            }
        }
    }
}

/// What `spec_first_nonspace` returns: the first index holding no
/// whitespace, everything before it whitespace.
pub proof fn lemma_first_nonspace(s: Seq<char>)
    ensures
        0 <= spec_first_nonspace(s) <= s.len(),
        spec_first_nonspace(s) < s.len() ==> !spec_is_space(s[spec_first_nonspace(s)]),
        forall|k: int| 0 <= k < spec_first_nonspace(s) ==> spec_is_space(s[k]),
    decreases s.len(),
{
    if s.len() > 0 && spec_is_space(s.first()) {
        lemma_first_nonspace(s.drop_first());
        let j = spec_first_nonspace(s);
        assert forall|k: int| 0 <= k < j implies spec_is_space(s[k]) by {
            if k > 0 {
                assert(spec_is_space(s.drop_first()[k - 1]));
            }
        }
    }
}

/// What `spec_last_nonspace` returns: the last index holding no
/// whitespace, everything after it whitespace.
pub proof fn lemma_last_nonspace(s: Seq<char>)
    ensures
        -1 <= spec_last_nonspace(s) < s.len(),
        spec_last_nonspace(s) >= 0 ==> !spec_is_space(s[spec_last_nonspace(s)]),
        forall|k: int| spec_last_nonspace(s) < k < s.len() ==> spec_is_space(s[k]),
    decreases s.len(),
{
    if s.len() > 0 && spec_is_space(s.last()) {
        lemma_last_nonspace(s.drop_last());
        let j = spec_last_nonspace(s);
        assert forall|k: int| j < k < s.len() implies spec_is_space(s[k]) by {
            if k < s.len() - 1 {
                assert(spec_is_space(s.drop_last()[k]));
            }
        }
    }
}

/// Trimming is idempotent: a trimmed string has no whitespace at either
/// end, so trimming it again changes nothing.
pub proof fn lemma_trim_idempotent(s: Seq<char>)
    ensures
        spec_trim(spec_trim(s)) == spec_trim(s),
{
    lemma_first_nonspace(s);
    lemma_last_nonspace(s);
    let t = spec_trim(s);
    if spec_first_nonspace(s) == s.len() {
        assert(t.len() == 0);
        assert(spec_trim(t) =~= t);
    } else {
        let a = spec_first_nonspace(s);
        let b = spec_last_nonspace(s);
        assert(a <= b) by {
            if a > b {
                assert(spec_is_space(s[a]));
            }
        }
        assert(!spec_is_space(t[0]));
        assert(!spec_is_space(t[t.len() - 1]));
        lemma_first_nonspace(t);
        lemma_last_nonspace(t);
        assert(spec_first_nonspace(t) == 0);
        assert(spec_last_nonspace(t) == t.len() - 1) by {
            if spec_last_nonspace(t) < t.len() - 1 {
                assert(spec_is_space(t[t.len() - 1]));
            }
        }
        assert(spec_trim(t) =~= t);
    }
}

/// Splitting a file name is idempotent on already-split names: the title a
/// split produces holds no separator and no surrounding whitespace, so —
/// provided the title is not itself cut down further by the extension rule
/// — splitting it again returns it unchanged, with no artist.
pub proof fn lemma_split_basename_idempotent(name: Seq<char>)
    requires
        spec_stem(spec_split_basename(name).0) == spec_split_basename(name).0,
    ensures
        ({
            let first = spec_split_basename(name);
            spec_split_basename(first.0) == (first.0, None::<Seq<char>>)
        }),
{
    let stem = spec_stem(name);
    let d1 = spec_first_index_of(stem, '-');
    lemma_first_index_of(stem, '-');
    let head = stem.take(d1);
    let t = spec_trim(head);
    lemma_first_nonspace(head);
    lemma_last_nonspace(head);
    // the title holds no separator
    assert(forall|k: int| 0 <= k < head.len() ==> head[k] != '-');
    assert(forall|k: int| 0 <= k < t.len() ==> t[k] != '-');
    lemma_first_index_of(t, '-');
    assert(spec_first_index_of(t, '-') == t.len()) by {
        if spec_first_index_of(t, '-') < t.len() {
            assert(t[spec_first_index_of(t, '-')] == '-');
        }
    }
    // and trimming it again changes nothing
    assert(t.take(t.len() as int) =~= t);
    lemma_trim_idempotent(head);
}

/// Whether `c` is ASCII whitespace.
fn is_space_char(c: char) -> (r: bool)
    ensures
        r == spec_is_space(c),
{
    c == ' ' || c == '\t' || c == '\n' || c == '\r'
}

/// The index just past the last occurrence of `c`, or 0 if `c` does not
/// occur: where the piece after the last `c` begins.
pub(crate) fn find_after_last(s: &str, c: char) -> (r: usize)
    ensures
        r == spec_last_index_of(s@, c) + 1,
        r <= s@.len(),
{
    let n = s.unicode_len();
    let mut i: usize = n;
    while i > 0
        invariant
            i <= n,
            n == s@.len(),
            forall|k: int| i <= k < s@.len() ==> s@[k] != c,
        decreases i,
    {
        if s.get_char(i - 1) == c {
            proof {
                lemma_last_index_of(s@, c);
                let j = spec_last_index_of(s@, c);
                if j < i - 1 {
                    assert(s@[i - 1] != c);
                }
            }
            return i;
        }
        i = i - 1;
    }
    proof {
        lemma_last_index_of(s@, c);
        let j = spec_last_index_of(s@, c);
        if j >= 0 {
            assert(s@[j] != c);
        }
    }
    0
}

/// The index of the first occurrence of `c` at or after `from`, within the
/// piece `s[from..]`.
fn find_first_from(s: &str, from: usize, c: char) -> (r: usize)
    requires
        from <= s@.len(),
    ensures
        r == spec_first_index_of(s@.skip(from as int), c) + from,
        from <= r <= s@.len(),
{
    let ghost piece = s@.skip(from as int);
    let n = s.unicode_len();
    let mut i: usize = from;
    while i < n
        invariant
            from <= i <= n,
            n == s@.len(),
            piece == s@.skip(from as int),
            forall|k: int| from <= k < i ==> s@[k] != c,
        decreases n - i,
    {
        if s.get_char(i) == c {
            proof {
                lemma_first_index_of(piece, c);
                let j = spec_first_index_of(piece, c);
                assert(forall|k: int| 0 <= k < piece.len() ==> piece[k] == s@[k + from]);
                if j < i - from {
                    assert(s@[j + from] != c);
                    assert(piece[j] == c);
                }
                if j > i - from {
                    assert(piece[i - from] != c);
                }
            }
            return i;
        }
        i = i + 1;
    }
    proof {
        lemma_first_index_of(piece, c);
        let j = spec_first_index_of(piece, c);
        assert(forall|k: int| 0 <= k < piece.len() ==> piece[k] == s@[k + from]);
        if j < piece.len() {
            assert(piece[j] == c);
            assert(s@[j + from] != c);
        }
    }
    n
}

/// `s` with leading and trailing whitespace removed.
fn trim_str(s: &str) -> (r: String)
    ensures
        r@ == spec_trim(s@),
{
    let n = s.unicode_len();
    let mut a: usize = 0;
    while a < n && is_space_char(s.get_char(a))
        invariant
            a <= n,
            n == s@.len(),
            forall|k: int| 0 <= k < a ==> spec_is_space(s@[k]),
        decreases n - a,
    {
        a = a + 1;
    }
    proof {
        lemma_first_nonspace(s@);
        let j = spec_first_nonspace(s@);
        if j < a {
            assert(spec_is_space(s@[j]));
        }
        if a < n && j > a {
            assert(spec_is_space(s@[a as int]));
        }
    }
    if a == n {
        return String::new();
    }
    let mut b: usize = n - 1;
    while b > a && is_space_char(s.get_char(b))
        invariant
            a <= b < n,
            n == s@.len(),
            forall|k: int| b < k < n ==> spec_is_space(s@[k]),
        decreases b,
    {
        b = b - 1;
    }
    proof {
        lemma_first_nonspace(s@);
        lemma_last_nonspace(s@);
        let j = spec_last_nonspace(s@);
        if j < b {
            assert(spec_is_space(s@[b as int]));
        }
        if j > b {
            assert(spec_is_space(s@[j]));
        }
    }
    s.substring_char(a, b + 1).to_owned()
}

/// The lowercased extension of `path`'s file name, when the file name has
/// one.
pub fn get_ext(path: &str) -> (r: Option<String>)
    ensures
        match r {
            Some(e) => spec_get_ext(path@) == Some(e@),
            None => spec_get_ext(path@) is None,
        },
{
    let base_start = find_after_last(path, '/');
    let n = path.unicode_len();
    let base = path.substring_char(base_start, n);
    proof {
        assert(base@ =~= spec_basename(path@));
    }
    let dot = find_after_last(base, '.');
    if dot <= 1 {
        return None;
    }
    let m = base.unicode_len();
    let raw = base.substring_char(dot, m);
    let mut out = String::new();
    let mut i: usize = 0;
    let raw_n = raw.unicode_len();
    while i < raw_n
        invariant
            i <= raw_n,
            raw_n == raw@.len(),
            out@ == raw@.take(i as int).map_values(|c: char| spec_lower_char(c)),
        decreases raw_n - i,
    {
        let c = raw.get_char(i);
        let lc = if 'A' <= c && c <= 'Z' {
            (((c as u8) + 32) as u8) as char
        } else {
            c
        };
        string_push(&mut out, lc);
        proof {
            assert(raw@.take(i + 1).map_values(|c: char| spec_lower_char(c)) =~= raw@.take(
                i as int,
            ).map_values(|c: char| spec_lower_char(c)).push(spec_lower_char(raw@[i as int])));
        }
        i = i + 1;
    }
    proof {
        assert(raw@.take(raw@.len() as int) =~= raw@);
        assert(raw@ =~= spec_basename(path@).skip(
            spec_last_index_of(spec_basename(path@), '.') + 1,
        ));
    }
    Some(out)
}

/// The content type for `path`, looked up by its lowercased extension in
/// the recognized audio and video set.
pub fn get_content_type_from_path(path: &str) -> (r: Option<String>)
    ensures
        match r {
            Some(ct) => spec_content_type_from_path(path@) == Some(ct@),
            None => spec_content_type_from_path(path@) is None,
        },
{
    let e = match get_ext(path) {
        Some(e) => e,
        None => {
            return None;
        },
    };
    let e = e.as_str();
    if str_eq(e, "mp3") {
        Some("audio/mpeg".to_owned())
    } else if str_eq(e, "flac") {
        Some("audio/flac".to_owned())
    } else if str_eq(e, "aac") {
        Some("audio/x-aac".to_owned())
    } else if str_eq(e, "mp4a") {
        Some("audio/mp4".to_owned())
    } else if str_eq(e, "mp4") {
        Some("video/mp4".to_owned())
    } else if str_eq(e, "nsv") {
        Some("video/nsv".to_owned())
    } else if str_eq(e, "ogg") {
        Some("audio/ogg".to_owned())
    } else if str_eq(e, "spx") {
        Some("audio/ogg".to_owned())
    } else if str_eq(e, "opus") {
        Some("audio/ogg".to_owned())
    } else if str_eq(e, "oga") {
        Some("audio/ogg".to_owned())
    } else if str_eq(e, "ogv") {
        Some("video/ogg".to_owned())
    } else if str_eq(e, "weba") {
        Some("audio/webm".to_owned())
    } else if str_eq(e, "webm") {
        Some("video/webm".to_owned())
    } else if str_eq(e, "axa") {
        Some("audio/annodex".to_owned())
    } else if str_eq(e, "axv") {
        Some("video/annodex".to_owned())
    } else {
        None
    }
}

/// The title and artist derived from a file name, split at its separators.
pub fn split_basename(name: &str) -> (r: (String, Option<String>))
    ensures
        ({
            let s = spec_split_basename(name@);
            r.0@ == s.0 && (match r.1 {
                Some(a) => s.1 == Some(a@),
                None => s.1 is None,
            })
        }),
{
    let n = name.unicode_len();
    let dot = find_after_last(name, '.');
    let stem_end = if dot <= 1 {
        n
    } else {
        dot - 1
    };
    let stem = name.substring_char(0, stem_end);
    proof {
        assert(stem@ =~= spec_stem(name@));
    }
    let d1 = find_first_from(stem, 0, '-');
    proof {
        assert(stem@.skip(0) =~= stem@);
    }
    let head = stem.substring_char(0, d1);
    let title = trim_str(head);
    proof {
        assert(head@ =~= spec_stem(name@).take(spec_first_index_of(spec_stem(name@), '-')));
    }
    if d1 == stem_end {
        (title, None)
    } else {
        let rest = stem.substring_char(d1 + 1, stem_end);
        proof {
            assert(rest@ =~= spec_stem(name@).skip(
                spec_first_index_of(spec_stem(name@), '-') + 1,
            ));
        }
        (title, Some(trim_str(rest)))
    }
}

} // verus!

//! Labels derived from a file path: the file name, its extension, the
//! container label of an analysis, and whether a batch scan picks the file up.
//! Paths are read with `/` as the separator.
use vstd::prelude::*;
use vstd::string::{StrSliceExecFns, StringExecFns};

verus! {

/// Position of the last `c` in `p`, or -1 when `p` holds none.
pub open spec fn last_pos(p: Seq<char>, c: char) -> int
    decreases p.len(),
{
    if p.len() == 0 {
        -1
    } else if p.last() == c {
        p.len() - 1
    } else {
        last_pos(p.drop_last(), c)
    }
}

/// The final component of a path, as `Path::file_name` gives it: the last
/// `/`-separated segment that is neither empty nor `.`; none when that segment
/// is `..` or when there is no such segment.
pub open spec fn file_name_of(p: Seq<char>) -> Option<Seq<char>>
    decreases p.len(),
{
    if p.len() == 0 {
        None
    } else {
        let k = last_pos(p, '/');
        let seg = p.subrange(k + 1, p.len() as int);
        if seg.len() == 0 || seg == seq!['.'] {
            if k < 0 {
                None
            } else {
                proof {
                    lemma_last_pos_bounds(p, '/');
                }
                file_name_of(p.subrange(0, k))
            }
        } else if seg == seq!['.', '.'] {
            None
        } else {
            Some(seg)
        }
    }
}

/// The extension of a file name, as `Path::extension` gives it: what follows
/// the last `.`, when a `.` occurs after the first character.
pub open spec fn extension_of(name: Seq<char>) -> Option<Seq<char>> {
    let d = last_pos(name, '.');
    if d <= 0 {
        None
    } else {
        Some(name.subrange(d + 1, name.len() as int))
    }
}

/// The extension of the path's file name, if it has one.
pub open spec fn path_extension(p: Seq<char>) -> Option<Seq<char>> {
    match file_name_of(p) {
        Some(name) => extension_of(name),
        None => None,
    }
}

/// What `str::to_lowercase` returns for `s`: Unicode lowercase mapping.
pub uninterp spec fn lowercase_of(s: Seq<char>) -> Seq<char>;

/// The container label of an analysed path: its lowercased extension, or the
/// empty string for a path without one.
pub open spec fn container_label(p: Seq<char>) -> Seq<char> {
    match path_extension(p) {
        Some(e) => lowercase_of(e),
        None => Seq::empty(),
    }
}

/// The lowercase extensions that a batch scan treats as audio.
pub open spec fn audio_extensions() -> Seq<Seq<char>> {
    seq![
        "wav"@, "wave"@, "mp3"@, "m4a"@, "mp4"@, "aac"@, "flac"@, "ogg"@, "oga"@, "aif"@,
        "aiff"@, "mka"@, "opus"@,
    ]
}

pub proof fn lemma_last_pos_bounds(p: Seq<char>, c: char)
    ensures
        -1 <= last_pos(p, c) < p.len(),
        last_pos(p, c) >= 0 ==> p[last_pos(p, c)] == c,
        forall|j: int| last_pos(p, c) < j < p.len() ==> p[j] != c,
    decreases p.len(),
{
    if p.len() > 0 && p.last() != c {
        lemma_last_pos_bounds(p.drop_last(), c);
        assert forall|j: int| last_pos(p, c) < j < p.len() implies p[j] != c by {
            if j < p.len() - 1 {
                assert(p.drop_last()[j] == p[j]);
            }
        }
    }
}

/// `str::to_lowercase`: maps every character to its Unicode lowercase form.
#[verifier::external_body]
fn to_lowercase(s: &str) -> (r: String)
    ensures
        r@ == lowercase_of(s@),
{
    s.to_lowercase()
}

/// Position of the last `c` among the first `end` characters of `s`.
fn last_index(s: &str, c: char, end: usize) -> (r: Option<usize>)
    requires
        end <= s@.len(),
    ensures
        match r {
            Some(k) => k < end && last_pos(s@.subrange(0, end as int), c) == k,
            None => last_pos(s@.subrange(0, end as int), c) == -1,
        },
{
    let mut i = end;
    while i > 0
        invariant
            i <= end <= s@.len(),
            last_pos(s@.subrange(0, end as int), c) == last_pos(s@.subrange(0, i as int), c),
        decreases i,
    {
        let ch = s.get_char(i - 1);
        assert(s@.subrange(0, i as int).last() == s@[i - 1]);
        if ch == c {
            return Some(i - 1);
        }
        assert(s@.subrange(0, i as int).drop_last() =~= s@.subrange(0, i - 1));
        i = i - 1;
    }
    None
}

/// Whether the characters of `s` in `[from, to)` are exactly `t`.
fn range_is(s: &str, from: usize, to: usize, t: &str) -> (b: bool)
    requires
        from <= to <= s@.len(),
    ensures
        b == (s@.subrange(from as int, to as int) == t@),
{
    let n = t.unicode_len();
    if to - from != n {
        return false;
    }
    let mut i: usize = 0;
    while i < n
        invariant
            i <= n,
            n == t@.len(),
            to - from == n,
            from <= to <= s@.len(),
            forall|j: int| 0 <= j < i ==> s@[from + j] == t@[j],
        decreases n - i,
    {
        if s.get_char(from + i) != t.get_char(i) {
            assert(s@.subrange(from as int, to as int)[i as int] != t@[i as int]);
            return false;
        }
        i = i + 1;
    }
    assert(s@.subrange(from as int, to as int) =~= t@);
    true
}

/// The `[start, end)` character range of the path's file name (see
/// [`file_name_of`]).
fn file_name_range(path: &str) -> (r: Option<(usize, usize)>)
    ensures
        match r {
            Some((a, b)) => a <= b <= path@.len() && file_name_of(path@) == Some(
                path@.subrange(a as int, b as int),
            ),
            None => file_name_of(path@) is None,
        },
{
    let mut end = path.unicode_len();
    proof {
        assert(path@.subrange(0, end as int) =~= path@);
    }
    loop
        invariant
            end <= path@.len(),
            file_name_of(path@) == file_name_of(path@.subrange(0, end as int)),
        decreases end,
    {
        let ghost p = path@.subrange(0, end as int);
        if end == 0 {
            return None;
        }
        let k = last_index(path, '/', end);
        let start = match k {
            Some(k) => k + 1,
            None => 0,
        };
        proof {
            reveal_strlit(".");
            reveal_strlit("..");
            assert("."@ =~= seq!['.']);
            assert(".."@ =~= seq!['.', '.']);
            lemma_last_pos_bounds(p, '/');
            assert(p.subrange(last_pos(p, '/') + 1, p.len() as int) =~= path@.subrange(
                start as int,
                end as int,
            ));
        }
        if start == end || range_is(path, start, end, ".") {
            match k {
                None => {
                    return None;
                },
                Some(k) => {
                    assert(p.subrange(0, k as int) =~= path@.subrange(0, k as int));
                    end = k;
                },
            }
        } else if range_is(path, start, end, "..") {
            return None;
        } else {
            return Some((start, end));
        }
    }
}

/// The lowercased extension of the path's file name, or the empty string: the
/// `container` field of an analysis.
pub fn container_of(path: &str) -> (c: String)
    ensures
        c@ == container_label(path@),
{
    match path_extension_range(path) {
        Some((a, b)) => {
            let ext = path.substring_char(a, b);
            to_lowercase(ext)
        },
        None => String::new(),
    }
}

/// The `[start, end)` character range of the path's extension (see
/// [`path_extension`]).
fn path_extension_range(path: &str) -> (r: Option<(usize, usize)>)
    ensures
        match r {
            Some((a, b)) => a <= b <= path@.len() && path_extension(path@) == Some(
                path@.subrange(a as int, b as int),
            ),
            None => path_extension(path@) is None,
        },
{
    match file_name_range(path) {
        None => None,
        Some((a, b)) => {
            let ghost name = path@.subrange(a as int, b as int);
            let d = last_index(path, '.', b);
            match d {
                None => {
                    proof {
                        lemma_last_pos_bounds(path@.subrange(0, b as int), '.');
                        lemma_last_pos_bounds(name, '.');
                        if last_pos(name, '.') >= 0 {
                            let j = last_pos(name, '.');
                            assert(path@.subrange(0, b as int)[a + j] == '.');
                        }
                    }
                    None
                },
                Some(d) => {
                    proof {
                        lemma_last_pos_bounds(path@.subrange(0, b as int), '.');
                        lemma_last_pos_bounds(name, '.');
                    }
                    if d <= a {
                        proof {
                            if last_pos(name, '.') >= 0 {
                                let j = last_pos(name, '.');
                                assert(path@.subrange(0, b as int)[a + j] == '.');
                            }
                        }
                        None
                    } else {
                        proof {
                            let j = last_pos(name, '.');
                            assert(name[d - a] == '.');
                            if j > d - a {
                                assert(path@.subrange(0, b as int)[a + j] == '.');
                            }
                            assert(j == d - a);
                            assert(name.subrange(j + 1, name.len() as int) =~= path@.subrange(
                                d + 1,
                                b as int,
                            ));
                        }
                        Some((d + 1, b))
                    }
                },
            }
        },
    }
}

/// Exactly thirteen extensions count as audio: wav, wave, mp3, m4a, mp4, aac,
/// flac, ogg, oga, aif, aiff, mka and opus.
pub proof fn lemma_audio_extensions_listed(e: Seq<char>)
    ensures
        audio_extensions().contains(e) <==> (e == "wav"@ || e == "wave"@ || e == "mp3"@ || e
            == "m4a"@ || e == "mp4"@ || e == "aac"@ || e == "flac"@ || e == "ogg"@ || e == "oga"@
            || e == "aif"@ || e == "aiff"@ || e == "mka"@ || e == "opus"@),
{
    let l = audio_extensions();
    if e == "wav"@ { assert(l[0] == e); }
    if e == "wave"@ { assert(l[1] == e); }
    if e == "mp3"@ { assert(l[2] == e); }
    if e == "m4a"@ { assert(l[3] == e); }
    if e == "mp4"@ { assert(l[4] == e); }
    if e == "aac"@ { assert(l[5] == e); }
    if e == "flac"@ { assert(l[6] == e); }
    if e == "ogg"@ { assert(l[7] == e); }
    if e == "oga"@ { assert(l[8] == e); }
    if e == "aif"@ { assert(l[9] == e); }
    if e == "aiff"@ { assert(l[10] == e); }
    if e == "mka"@ { assert(l[11] == e); }
    if e == "opus"@ { assert(l[12] == e); }
}

/// Whether an already lowercased extension is one a batch scan treats as audio.
pub fn is_audio_extension(ext_lower: &str) -> (b: bool)
    ensures
        b == audio_extensions().contains(ext_lower@),
        b <==> (ext_lower@ == "wav"@ || ext_lower@ == "wave"@ || ext_lower@ == "mp3"@
            || ext_lower@ == "m4a"@ || ext_lower@ == "mp4"@ || ext_lower@ == "aac"@ || ext_lower@
            == "flac"@ || ext_lower@ == "ogg"@ || ext_lower@ == "oga"@ || ext_lower@ == "aif"@
            || ext_lower@ == "aiff"@ || ext_lower@ == "mka"@ || ext_lower@ == "opus"@),
{
    proof {
        lemma_audio_extensions_listed(ext_lower@);
    }
    let exts: [&str; 13] = [
        "wav", "wave", "mp3", "m4a", "mp4", "aac", "flac", "ogg", "oga", "aif", "aiff", "mka", "opus",
    ];
    let mut i: usize = 0;
    while i < 13
        invariant
            i <= 13,
            exts@ == seq![
                "wav", "wave", "mp3", "m4a", "mp4", "aac", "flac", "ogg", "oga", "aif", "aiff", "mka", "opus",
            ],
            forall|j: int| 0 <= j < i ==> ext_lower@ != audio_extensions()[j],
        decreases 13 - i,
    {
        let n = exts[i].unicode_len();
        if range_is(exts[i], 0, n, ext_lower) {
            assert(exts[i as int]@.subrange(0, n as int) =~= exts[i as int]@);
            assert(audio_extensions()[i as int] == ext_lower@);
            return true;
        }
        assert(exts[i as int]@.subrange(0, n as int) =~= exts[i as int]@);
        i = i + 1;
    }
    assert(!audio_extensions().contains(ext_lower@));
    false
}

/// Whether a batch scan picks up the file at `path`: its extension, lowercased,
/// is one of the audio extensions.
pub fn is_audio_path(path: &str) -> (b: bool)
    ensures
        b == (match path_extension(path@) {
            Some(e) => audio_extensions().contains(lowercase_of(e)),
            None => false,
        }),
{
    match path_extension_range(path) {
        Some((a, b)) => {
            let ext = path.substring_char(a, b);
            let lower = to_lowercase(ext);
            is_audio_extension(lower.as_str())
        },
        None => false,
    }
}

} // verus!

//! The path-naming policy: every sibling artifact of a source file (the
//! in-progress output, the final output, the skip marker, the reason file
//! and the replacement backup) is derived here and nowhere else.

use vstd::prelude::*;
use crate::text::{find_last_char, is_last_occurrence, seq_eq_ignore_case, str_eq_ignore_case};

verus! {

/// Any two last occurrences of the same character coincide.
proof fn lemma_last_occurrence_unique(s: Seq<char>, c: char)
    ensures
        forall|i: int, j: int|
            is_last_occurrence(s, c, i) && is_last_occurrence(s, c, j) ==> i == j,
{
    assert forall|i: int, j: int|
        is_last_occurrence(s, c, i) && is_last_occurrence(s, c, j) implies i == j by {
        if i < j {
            assert(s[j] != c);
        } else if j < i {
            assert(s[i] != c);
        }
    }
}

/// Index where the file name begins: one past the last path separator,
/// or zero when the path has none.
pub open spec fn spec_name_start(s: Seq<char>) -> int {
    if exists|i: int| is_last_occurrence(s, '/', i) {
        (choose|i: int| is_last_occurrence(s, '/', i)) + 1
    } else {
        0
    }
}

/// Index where the file name's stem ends: the position of the dot that
/// starts the extension, or the path's length when the name has no
/// extension.  A dot at the very start of the file name does not begin an
/// extension.
pub open spec fn spec_stem_end(s: Seq<char>) -> int {
    if exists|k: int| is_last_occurrence(s, '.', k) {
        let k = choose|k: int| is_last_occurrence(s, '.', k);
        if k > spec_name_start(s) {
            k
        } else {
            s.len() as int
        }
    } else {
        s.len() as int
    }
}

/// Compute the stem end of `path` (see [`spec_stem_end`]).
fn stem_end(path: &str) -> (r: usize)
    ensures
        r == spec_stem_end(path@),
        r <= path@.len(),
{
    proof {
        lemma_last_occurrence_unique(path@, '/');
        lemma_last_occurrence_unique(path@, '.');
    }
    let len = path.unicode_len();
    let name_start: usize = match find_last_char(path, '/') {
        Some(p) => p + 1,
        None => 0,
    };
    assert(name_start == spec_name_start(path@));
    match find_last_char(path, '.') {
        Some(k) => {
            if k > name_start {
                k
            } else {
                len
            }
        },
        None => len,
    }
}

/// The stem prefix of `path` followed by `suffix`.
fn stem_with_suffix(path: &str, suffix: &str) -> (r: String)
    ensures
        r@ == path@.take(spec_stem_end(path@)) + suffix@,
{
    let end = stem_end(path);
    let mut s = path.substring_char(0, end).to_owned();
    s.append(suffix);
    s
}

/// Path of the in-progress encoder output, beside the source file.
pub fn get_temp_output_path(input: &str) -> (r: String)
    ensures
        r@ == input@.take(spec_stem_end(input@)) + ".av1-tmp.mkv"@,
{
    stem_with_suffix(input, ".av1-tmp.mkv")
}

/// Path the accepted output finally lives at, beside the source file.
pub fn get_final_output_path(input: &str) -> (r: String)
    ensures
        r@ == input@.take(spec_stem_end(input@)) + ".mkv"@,
{
    stem_with_suffix(input, ".mkv")
}

/// Path of the skip-marker sidecar: its presence means the file must never
/// be attempted again.
pub fn get_skip_marker_path(input: &str) -> (r: String)
    ensures
        r@ == input@.take(spec_stem_end(input@)) + ".av1skip"@,
{
    stem_with_suffix(input, ".av1skip")
}

/// Path of the reason-text sidecar written beside a rejected source.
pub fn get_why_file_path(input: &str) -> (r: String)
    ensures
        r@ == input@.take(spec_stem_end(input@)) + ".why.txt"@,
{
    stem_with_suffix(input, ".why.txt")
}

/// Collision-free backup path used during replacement: the stem plus
/// ".bak-" plus a freshly generated unique suffix.
pub fn backup_file_path(original: &str, unique_suffix: &str) -> (r: String)
    ensures
        r@ == original@.take(spec_stem_end(original@)) + ".bak-"@ + unique_suffix@,
{
    let mut s = stem_with_suffix(original, ".bak-");
    s.append(unique_suffix);
    s
}

/// The extension of `path`: what follows the dot that ends the stem.
pub open spec fn spec_extension(s: Seq<char>) -> Seq<char> {
    if spec_stem_end(s) < s.len() {
        s.subrange(spec_stem_end(s) + 1, s.len() as int)
    } else {
        Seq::empty()
    }
}

/// Whether `path` names a media file: its extension equals one of the
/// allow-listed extensions, ignoring ASCII case.  (Whether the path is a
/// regular file at all is for the caller to check.)
pub fn is_media_file(path: &str, extensions: &Vec<String>) -> (r: bool)
    ensures
        r == exists|i: int|
            0 <= i < extensions@.len() && seq_eq_ignore_case(
                spec_extension(path@),
                (#[trigger] extensions@[i])@,
            ),
{
    let end = stem_end(path);
    let len = path.unicode_len();
    if end >= len {
        assert(spec_extension(path@) =~= Seq::<char>::empty());
        let n = extensions.len();
        let mut i: usize = 0;
        while i < n
            invariant
                n == extensions@.len(),
                i <= n,
                spec_extension(path@).len() == 0,
                forall|j: int|
                    0 <= j < i ==> !seq_eq_ignore_case(
                        spec_extension(path@),
                        (#[trigger] extensions@[j])@,
                    ),
            decreases n - i,
        {
            if extensions[i].as_str().unicode_len() == 0 {
                proof {
                    assert(seq_eq_ignore_case(spec_extension(path@), extensions@[i as int]@));
                    assert(exists|j: int|
                        0 <= j < extensions@.len() && seq_eq_ignore_case(
                            spec_extension(path@),
                            (#[trigger] extensions@[j])@,
                        ));
                }
                return true;
            }
            i = i + 1;
        }
        return false;
    }
    let ext = path.substring_char(end + 1, len);
    assert(ext@ == spec_extension(path@));
    let n = extensions.len();
    let mut i: usize = 0;
    while i < n
        invariant
            n == extensions@.len(),
            ext@ == spec_extension(path@),
            i <= n,
            forall|j: int|
                0 <= j < i ==> !seq_eq_ignore_case(
                    spec_extension(path@),
                    (#[trigger] extensions@[j])@,
                ),
        decreases n - i,
    {
        if str_eq_ignore_case(ext, extensions[i].as_str()) {
            return true;
        }
        i = i + 1;
    }
    false
}

} // verus!

//! The replacement protocol and the sidecar writers, verified against an
//! in-memory model of the directory holding the media files.  The I/O
//! layer performs the same renames and writes on the real filesystem, in
//! the same order.

use vstd::prelude::*;
use crate::error::CoreError;
use crate::paths::{backup_file_path, get_skip_marker_path, get_why_file_path, spec_stem_end};
use crate::text::str_eq;
use vstd::string::StringSliceAdditionalSpecFns;

verus! {

/// In-memory model of a directory: named files with byte contents.
pub struct FsModel {
    /// The files as (path, contents) pairs.
    pub files: Vec<(String, Vec<u8>)>,
}

/// Index of the first file with the given path, if any.
pub open spec fn spec_fs_find(files: Seq<(String, Vec<u8>)>, path: Seq<char>, i: int) -> Option<
    int,
>
    decreases files.len() - i,
{
    if i < 0 || i >= files.len() {
        None
    } else if files[i].0@ == path {
        Some(i)
    } else {
        spec_fs_find(files, path, i + 1)
    }
}

/// A successful lookup lands on an entry with the looked-up path.
proof fn lemma_fs_find_sound(files: Seq<(String, Vec<u8>)>, n: Seq<char>, s: int)
    requires
        0 <= s,
        spec_fs_find(files, n, s) is Some,
    ensures
        (match spec_fs_find(files, n, s) {
            Some(x) => s <= x < files.len() && files[x].0@ == n,
            None => false,
        }),
    decreases files.len() - s,
{
    if s < files.len() && files[s].0@ != n {
        lemma_fs_find_sound(files, n, s + 1);
    }
}

impl FsModel {
    /// No two files share a path.
    pub open spec fn wf(self) -> bool {
        forall|a: int, b: int|
            0 <= a < b < self.files@.len() ==> (#[trigger] self.files@[a]).0@ != (
            #[trigger] self.files@[b]).0@
    }

    /// Contents of the file at `path`, if it exists.
    pub open spec fn spec_content(self, path: Seq<char>) -> Option<Seq<u8>> {
        spec_content_of(self.files@, path)
    }

    /// An empty directory.
    pub fn new() -> (r: Self)
        ensures
            r.files@.len() == 0,
            r.wf(),
    {
        FsModel { files: Vec::new() }
    }

    /// Index of the file at `path`, if any.
    fn find(&self, path: &str) -> (r: Option<usize>)
        ensures
            match r {
                Some(i) => spec_fs_find(self.files@, path@, 0) == Some(i as int) && (i as int)
                    < self.files@.len() && self.files@[i as int].0@ == path@,
                None => spec_fs_find(self.files@, path@, 0) is None,
            },
    {
        let n = self.files.len();
        let mut i: usize = 0;
        while i < n
            invariant
                n == self.files@.len(),
                i <= n,
                spec_fs_find(self.files@, path@, 0) == spec_fs_find(
                    self.files@,
                    path@,
                    i as int,
                ),
                forall|x: int| 0 <= x < i ==> (#[trigger] self.files@[x]).0@ != path@,
            decreases n - i,
        {
            if str_eq(self.files[i].0.as_str(), path) {
                return Some(i);
            }
            i = i + 1;
        }
        None
    }

    /// Whether a file exists at `path`.
    pub fn file_exists(&self, path: &str) -> (r: bool)
        ensures
            r == (self.spec_content(path@) is Some),
    {
        self.find(path).is_some()
    }

    /// Create or overwrite the file at `path`.
    pub fn write_file(&mut self, path: String, contents: Vec<u8>)
        requires
            old(self).wf(),
        ensures
            final(self).wf(),
            final(self).spec_content(path@) == Some(contents@),
            forall|n: Seq<char>|
                n != path@ ==> #[trigger] final(self).spec_content(n) == old(self).spec_content(n),
    {
        let ghost pre = self.files@;
        let ghost p = path@;
        match self.find(path.as_str()) {
            Some(i) => {
                self.files.set(i, (path, contents));
                proof {
                    lemma_fs_update(pre, self.files@, i as int);
                    assert forall|n: Seq<char>| n != p implies #[trigger] spec_content_of(
                        self.files@,
                        n,
                    ) == spec_content_of(pre, n) by {
                        assert(spec_fs_find(self.files@, n, 0) == spec_fs_find(pre, n, 0));
                        if spec_fs_find(pre, n, 0) is Some {
                            lemma_fs_find_sound(pre, n, 0);
                        }
                    }
                }
            },
            None => {
                self.files.push((path, contents));
                proof {
                    lemma_fs_push(pre, self.files@);
                    assert forall|n: Seq<char>| n != p implies #[trigger] spec_content_of(
                        self.files@,
                        n,
                    ) == spec_content_of(pre, n) by {
                        assert(spec_fs_find(self.files@, n, 0) == spec_fs_find(pre, n, 0));
                        if spec_fs_find(pre, n, 0) is Some {
                            lemma_fs_find_sound(pre, n, 0);
                        }
                    }
                }
            },
        }
    }

    /// Remove the file at `path`, if present.
    pub fn remove_file(&mut self, path: &str)
        requires
            old(self).wf(),
        ensures
            final(self).wf(),
            final(self).spec_content(path@) is None,
            forall|n: Seq<char>|
                n != path@ ==> #[trigger] final(self).spec_content(n) == old(self).spec_content(n),
    {
        let ghost pre = self.files@;
        match self.find(path) {
            Some(i) => {
                self.files.remove(i);
                proof {
                    lemma_fs_remove(pre, self.files@, i as int);
                }
            },
            None => {},
        }
    }

    /// Rename the file at `from` to `to`, replacing any file already
    /// there.  Fails, changing nothing, when `from` does not exist.
    pub fn rename(&mut self, from: &str, to: &str) -> (r: Result<(), ()>)
        requires
            old(self).wf(),
            from@ != to@,
        ensures
            final(self).wf(),
            r is Ok <==> old(self).spec_content(from@) is Some,
            r is Ok ==> final(self).spec_content(to@) == old(self).spec_content(from@) && final(self).spec_content(from@) is None,
            r is Err ==> *final(self) == *old(self),
            forall|n: Seq<char>|
                n != from@ && n != to@ ==> #[trigger] final(self).spec_content(n) == old(self).spec_content(n),
    {
        let i = match self.find(from) {
            Some(i) => i,
            None => {
                return Err(());
            },
        };
        let contents = self.files.remove(i).1;
        proof {
            lemma_fs_remove(old(self).files@, self.files@, i as int);
        }
        self.write_file(to.to_owned(), contents);
        Ok(())
    }
}

/// Replacing one entry keeps well-formedness and updates only its path.
proof fn lemma_fs_update(pre: Seq<(String, Vec<u8>)>, post: Seq<(String, Vec<u8>)>, i: int)
    requires
        0 <= i < pre.len(),
        post.len() == pre.len(),
        forall|x: int| 0 <= x < pre.len() && x != i ==> post[x] == pre[x],
        post[i].0@ == pre[i].0@,
        forall|a: int, b: int| 0 <= a < b < pre.len() ==> (#[trigger] pre[a]).0@ != (
        #[trigger] pre[b]).0@,
    ensures
        forall|a: int, b: int| 0 <= a < b < post.len() ==> (#[trigger] post[a]).0@ != (
        #[trigger] post[b]).0@,
        forall|n: Seq<char>, s: int|
            0 <= s <= post.len() ==> (#[trigger] spec_fs_find(post, n, s)) == spec_fs_find(
                pre,
                n,
                s,
            ),
{
    assert forall|a: int, b: int| 0 <= a < b < post.len() implies (#[trigger] post[a]).0@ != (
    #[trigger] post[b]).0@ by {
        assert(post[a].0@ == pre[a].0@);
        assert(post[b].0@ == pre[b].0@);
    }
    assert forall|n: Seq<char>, s: int|
        0 <= s <= post.len() implies (#[trigger] spec_fs_find(post, n, s)) == spec_fs_find(
        pre,
        n,
        s,
    ) by {
        lemma_fs_find_frame(pre, post, n, s);
    }
}

/// Two directories equal in names give the same lookup results.
proof fn lemma_fs_find_frame(
    pre: Seq<(String, Vec<u8>)>,
    post: Seq<(String, Vec<u8>)>,
    n: Seq<char>,
    s: int,
)
    requires
        post.len() == pre.len(),
        forall|x: int| 0 <= x < pre.len() ==> (#[trigger] post[x]).0@ == pre[x].0@,
        0 <= s <= post.len(),
    ensures
        spec_fs_find(post, n, s) == spec_fs_find(pre, n, s),
    decreases post.len() - s,
{
    if s < post.len() {
        lemma_fs_find_frame(pre, post, n, s + 1);
    }
}

/// Appending a fresh file keeps lookups for other names.
proof fn lemma_fs_push(pre: Seq<(String, Vec<u8>)>, post: Seq<(String, Vec<u8>)>)
    requires
        post.len() == pre.len() + 1,
        forall|x: int| 0 <= x < pre.len() ==> post[x] == pre[x],
        spec_fs_find(pre, post.last().0@, 0) is None,
        forall|a: int, b: int| 0 <= a < b < pre.len() ==> (#[trigger] pre[a]).0@ != (
        #[trigger] pre[b]).0@,
    ensures
        forall|a: int, b: int| 0 <= a < b < post.len() ==> (#[trigger] post[a]).0@ != (
        #[trigger] post[b]).0@,
        spec_fs_find(post, post.last().0@, 0) == Some(post.len() - 1),
        forall|n: Seq<char>|
            n != post.last().0@ ==> #[trigger] spec_fs_find(post, n, 0) == spec_fs_find(pre, n, 0),
{
    lemma_fs_find_none_names(pre, post.last().0@, 0);
    assert forall|a: int, b: int| 0 <= a < b < post.len() implies (#[trigger] post[a]).0@ != (
    #[trigger] post[b]).0@ by {
        if b < post.len() - 1 {
            assert(post[a].0@ == pre[a].0@ && post[b].0@ == pre[b].0@);
        } else {
            assert(post[a].0@ == pre[a].0@);
        }
    }
    lemma_fs_push_find(pre, post, post.last().0@, 0);
    assert forall|n: Seq<char>|
        n != post.last().0@ implies #[trigger] spec_fs_find(post, n, 0) == spec_fs_find(
        pre,
        n,
        0,
    ) by {
        lemma_fs_push_find_other(pre, post, n, 0);
    }
}

/// A failed lookup means no entry from `s` on carries the name.
proof fn lemma_fs_find_none_names(files: Seq<(String, Vec<u8>)>, n: Seq<char>, s: int)
    requires
        0 <= s,
        spec_fs_find(files, n, s) is None,
    ensures
        forall|x: int| s <= x < files.len() ==> (#[trigger] files[x]).0@ != n,
    decreases files.len() - s,
{
    if s < files.len() {
        lemma_fs_find_none_names(files, n, s + 1);
    }
}

/// Lookup of the appended name lands on the appended entry.
proof fn lemma_fs_push_find(
    pre: Seq<(String, Vec<u8>)>,
    post: Seq<(String, Vec<u8>)>,
    n: Seq<char>,
    s: int,
)
    requires
        post.len() == pre.len() + 1,
        forall|x: int| 0 <= x < pre.len() ==> post[x] == pre[x],
        n == post.last().0@,
        spec_fs_find(pre, n, 0) is None,
        0 <= s <= pre.len(),
    ensures
        spec_fs_find(post, n, s) == Some(post.len() - 1),
    decreases post.len() - s,
{
    lemma_fs_find_none_names(pre, n, 0);
    if s < pre.len() {
        lemma_fs_push_find(pre, post, n, s + 1);
    }
}

/// Lookup of any other name ignores the appended entry.
proof fn lemma_fs_push_find_other(
    pre: Seq<(String, Vec<u8>)>,
    post: Seq<(String, Vec<u8>)>,
    n: Seq<char>,
    s: int,
)
    requires
        post.len() == pre.len() + 1,
        forall|x: int| 0 <= x < pre.len() ==> post[x] == pre[x],
        n != post.last().0@,
        0 <= s <= pre.len(),
    ensures
        spec_fs_find(post, n, s) == spec_fs_find(pre, n, s),
    decreases post.len() - s,
{
    if s < pre.len() {
        lemma_fs_push_find_other(pre, post, n, s + 1);
    } else {
        assert(post[s].0@ == post.last().0@);
        assert(spec_fs_find(post, n, s + 1) is None);
    }
}

/// Removing one entry keeps well-formedness; the removed path is gone and
/// every other lookup yields the same contents.
proof fn lemma_fs_remove(pre: Seq<(String, Vec<u8>)>, post: Seq<(String, Vec<u8>)>, i: int)
    requires
        0 <= i < pre.len(),
        post == pre.remove(i),
        forall|a: int, b: int| 0 <= a < b < pre.len() ==> (#[trigger] pre[a]).0@ != (
        #[trigger] pre[b]).0@,
    ensures
        forall|a: int, b: int| 0 <= a < b < post.len() ==> (#[trigger] post[a]).0@ != (
        #[trigger] post[b]).0@,
        forall|n: Seq<char>|
            n != pre[i].0@ ==> #[trigger] spec_content_of(post, n) == spec_content_of(pre, n),
        spec_fs_find(post, pre[i].0@, 0) is None,
{
    assert forall|a: int, b: int| 0 <= a < b < post.len() implies (#[trigger] post[a]).0@ != (
    #[trigger] post[b]).0@ by {
        let pa = if a < i {
            a
        } else {
            a + 1
        };
        let pb = if b < i {
            b
        } else {
            b + 1
        };
        assert(post[a] == pre[pa]);
        assert(post[b] == pre[pb]);
    }
    assert forall|n: Seq<char>|
        n != pre[i].0@ implies #[trigger] spec_content_of(post, n) == spec_content_of(pre, n) by {
        lemma_fs_remove_find(pre, post, i, n, 0);
    }
    lemma_fs_remove_gone(pre, post, i, 0);
}

/// Contents of the file at a path, as a function of the raw entries.
pub open spec fn spec_content_of(files: Seq<(String, Vec<u8>)>, path: Seq<char>) -> Option<
    Seq<u8>,
> {
    match spec_fs_find(files, path, 0) {
        Some(i) => Some(files[i].1@),
        None => None,
    }
}

/// After removal, other names find the same contents.
proof fn lemma_fs_remove_find(
    pre: Seq<(String, Vec<u8>)>,
    post: Seq<(String, Vec<u8>)>,
    i: int,
    n: Seq<char>,
    s: int,
)
    requires
        0 <= i < pre.len(),
        post == pre.remove(i),
        n != pre[i].0@,
        0 <= s <= post.len(),
        s <= i,
    ensures
        match spec_fs_find(post, n, s) {
            Some(x) => spec_fs_find(pre, n, s) matches Some(y) && pre[y].1@ == post[x].1@,
            None => spec_fs_find(pre, n, s) is None,
        },
    decreases post.len() - s,
{
    if s < i {
        assert(post[s] == pre[s]);
        if post[s].0@ != n {
            lemma_fs_remove_find(pre, post, i, n, s + 1);
        }
    } else {
        lemma_fs_remove_tail(pre, post, i, n, s);
        assert(spec_fs_find(pre, n, s) == spec_fs_find(pre, n, s + 1)) by {
            assert(pre[s].0@ == pre[i].0@ || s >= pre.len() || pre[s].0@ != n);
            if s < pre.len() {
                assert(pre[s] == pre[i] || true);
            }
        }
    }
}

/// Past the removal point, lookups shift by one.
proof fn lemma_fs_remove_tail(
    pre: Seq<(String, Vec<u8>)>,
    post: Seq<(String, Vec<u8>)>,
    i: int,
    n: Seq<char>,
    s: int,
)
    requires
        0 <= i < pre.len(),
        post == pre.remove(i),
        n != pre[i].0@,
        i <= s <= post.len(),
    ensures
        match spec_fs_find(post, n, s) {
            Some(x) => spec_fs_find(pre, n, s + 1) matches Some(y) && pre[y].1@ == post[x].1@,
            None => spec_fs_find(pre, n, s + 1) is None,
        },
    decreases post.len() - s,
{
    if s < post.len() {
        assert(post[s] == pre[s + 1]);
        if post[s].0@ != n {
            lemma_fs_remove_tail(pre, post, i, n, s + 1);
        }
    }
}

/// The removed path is no longer found.
proof fn lemma_fs_remove_gone(
    pre: Seq<(String, Vec<u8>)>,
    post: Seq<(String, Vec<u8>)>,
    i: int,
    s: int,
)
    requires
        0 <= i < pre.len(),
        post == pre.remove(i),
        forall|a: int, b: int| 0 <= a < b < pre.len() ==> (#[trigger] pre[a]).0@ != (
        #[trigger] pre[b]).0@,
        0 <= s <= post.len(),
    ensures
        spec_fs_find(post, pre[i].0@, s) is None,
    decreases post.len() - s,
{
    if s < post.len() {
        if s < i {
            assert(post[s] == pre[s]);
        } else {
            assert(post[s] == pre[s + 1]);
        }
        lemma_fs_remove_gone(pre, post, i, s + 1);
    }
}


/// Atomically swap the accepted output into the original's place: rename
/// the original to a collision-free backup, rename the candidate over the
/// original, then drop the backup.  On success the original path holds
/// the candidate's prior bytes and neither the candidate nor the backup
/// remains; when the second rename fails, the backup is restored to the
/// original path, the candidate is left as it was, and the failure is
/// surfaced.  `inject_swap_failure` forces the second rename to fail,
/// for fault-injection of the recovery path.
pub fn replace_file_atomic(
    fs: &mut FsModel,
    original_path: &str,
    transcoded_path: &str,
    backup_suffix: &str,
    inject_swap_failure: bool,
) -> (r: Result<(), CoreError>)
    requires
        old(fs).wf(),
        original_path@ != transcoded_path@,
        spec_backup_path(original_path@, backup_suffix@) != original_path@,
        spec_backup_path(original_path@, backup_suffix@) != transcoded_path@,
        old(fs).spec_content(spec_backup_path(original_path@, backup_suffix@)) is None,
    ensures
        final(fs).wf(),
        r is Ok <==> old(fs).spec_content(original_path@) is Some && old(fs).spec_content(
            transcoded_path@,
        ) is Some && !inject_swap_failure,
        old(fs).spec_content(original_path@) is None ==> *final(fs) == *old(fs),
        old(fs).spec_content(original_path@) is Some && old(fs).spec_content(transcoded_path@)
            is Some && !inject_swap_failure ==> {
            &&& final(fs).spec_content(original_path@) == old(fs).spec_content(transcoded_path@)
            &&& final(fs).spec_content(transcoded_path@) is None
            &&& final(fs).spec_content(spec_backup_path(original_path@, backup_suffix@)) is None
        },
        old(fs).spec_content(original_path@) is Some && (inject_swap_failure || old(fs).spec_content(transcoded_path@) is None) ==> {
            &&& final(fs).spec_content(original_path@) == old(fs).spec_content(original_path@)
            &&& final(fs).spec_content(transcoded_path@) == old(fs).spec_content(
                transcoded_path@,
            )
            &&& final(fs).spec_content(spec_backup_path(original_path@, backup_suffix@)) is None
        },
        forall|n: Seq<char>|
            n != original_path@ && n != transcoded_path@ && n != spec_backup_path(
                original_path@,
                backup_suffix@,
            ) ==> #[trigger] final(fs).spec_content(n) == old(fs).spec_content(n),
{
    let backup_path = backup_file_path(original_path, backup_suffix);
    let step1 = fs.rename(original_path, backup_path.as_str());
    match step1 {
        Ok(_) => {},
        Err(_) => {
            return Err(CoreError::IoError("failed to back up the original".to_owned()));
        },
    }
    if inject_swap_failure {
        // The swap failed: put the backup straight back.
        let restore = fs.rename(backup_path.as_str(), original_path);
        proof {
            assert(restore is Ok);
        }
        return Err(CoreError::IoError("failed to move the accepted output into place".to_owned()));
    }
    let step2 = fs.rename(transcoded_path, original_path);
    match step2 {
        Ok(_) => {},
        Err(_) => {
            // The candidate disappeared underneath: restore the backup and
            // surface the failure.
            let restore = fs.rename(backup_path.as_str(), original_path);
            proof {
                assert(restore is Ok);
            }
            return Err(
                CoreError::IoError("failed to move the accepted output into place".to_owned()),
            );
        },
    }
    fs.remove_file(backup_path.as_str());
    Ok(())
}

/// The backup path the protocol uses for a given original and suffix.
pub open spec fn spec_backup_path(original: Seq<char>, suffix: Seq<char>) -> Seq<char> {
    original.take(spec_stem_end(original)) + ".bak-"@ + suffix
}

/// Write the reason-text sidecar beside a rejected source file.
pub fn write_why_file(fs: &mut FsModel, original_path: &str, reason: &str) -> (r: Result<
    (),
    CoreError,
>)
    requires
        old(fs).wf(),
    ensures
        final(fs).wf(),
        r is Ok,
        final(fs).spec_content(original_path@.take(spec_stem_end(original_path@)) + ".why.txt"@)
            == Some(reason.spec_bytes()),
        forall|n: Seq<char>|
            n != original_path@.take(spec_stem_end(original_path@)) + ".why.txt"@
                ==> #[trigger] final(fs).spec_content(n) == old(fs).spec_content(n),
{
    let why_path = get_why_file_path(original_path);
    let contents = reason.as_bytes_vec();
    fs.write_file(why_path, contents);
    Ok(())
}

/// Write the skip-marker sidecar beside a rejected source file: its
/// presence means the file must never be attempted again.
pub fn write_skip_marker(fs: &mut FsModel, original_path: &str) -> (r: Result<(), CoreError>)
    requires
        old(fs).wf(),
    ensures
        final(fs).wf(),
        r is Ok,
        final(fs).spec_content(
            original_path@.take(spec_stem_end(original_path@)) + ".av1skip"@,
        ) is Some,
        forall|n: Seq<char>|
            n != original_path@.take(spec_stem_end(original_path@)) + ".av1skip"@
                ==> #[trigger] final(fs).spec_content(n) == old(fs).spec_content(n),
{
    let skip_path = get_skip_marker_path(original_path);
    fs.write_file(skip_path, Vec::new());
    Ok(())
}

/// Remove the in-progress output of a failed or rejected encode.
pub fn cleanup_failed_transcode(fs: &mut FsModel, temp_output_path: &str) -> (r: Result<
    (),
    CoreError,
>)
    requires
        old(fs).wf(),
    ensures
        final(fs).wf(),
        r is Ok,
        final(fs).spec_content(temp_output_path@) is None,
        forall|n: Seq<char>|
            n != temp_output_path@ ==> #[trigger] final(fs).spec_content(n) == old(fs).spec_content(n),
{
    if fs.file_exists(temp_output_path) {
        fs.remove_file(temp_output_path);
    }
    Ok(())
}

} // verus!

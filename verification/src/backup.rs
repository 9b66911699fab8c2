//! Backup naming and the backup-then-replace protocol.
//!
//! A mutated file gets a sibling backup at `<stem>.<extension>.bak`, created
//! by the first mutation of that path and never overwritten afterwards, and
//! is rebuilt through a transient sibling whose name prefixes the file name
//! with `_`. The path computations live here as functions on path bytes;
//! `TrackedFile` models the protocol's effect on one file and its backup.

use vstd::prelude::*;

use crate::bom::strip_bom_content;
use crate::rewrite::{rewrite_content, spec_rewrite};
use crate::types::LineEnding;

verus! {

/// The index where the file-name component of `p` begins: right after the
/// last `/`, or 0 when the path has none.
pub open spec fn spec_file_name_start(p: Seq<u8>) -> int
    decreases p.len(),
{
    if p.len() == 0 {
        0
    } else if p.last() == 47u8 {
        p.len() as int
    } else {
        spec_file_name_start(p.drop_last())
    }
}

/// The file-name start always lies inside the path.
pub proof fn lemma_file_name_start_in_bounds(p: Seq<u8>)
    ensures
        0 <= spec_file_name_start(p) <= p.len(),
    decreases p.len(),
{
    if p.len() > 0 && p.last() != 47u8 {
        lemma_file_name_start_in_bounds(p.drop_last());
    }
}

/// Whether the file name in `p` has an extension: a `.` strictly after the
/// file name's first byte, so a leading dot alone (a hidden file) does not
/// count.
pub open spec fn spec_has_extension(p: Seq<u8>) -> bool {
    exists|j: int| spec_file_name_start(p) < j < p.len() && p[j] == 46u8
}

/// The backup sibling's path: the extension (empty when the name has none)
/// gains a `.bak` suffix, so `dir/name.ext` maps to `dir/name.ext.bak` and
/// an extensionless `name` maps to `name..bak`.
pub open spec fn spec_backup_path(p: Seq<u8>) -> Seq<u8> {
    if spec_has_extension(p) {
        p + seq![46u8, 98u8, 97u8, 107u8]
    } else {
        p + seq![46u8, 46u8, 98u8, 97u8, 107u8]
    }
}

/// The transient sibling's path: the file name gains a `_` prefix, so
/// `dir/name.ext` maps to `dir/_name.ext`.
pub open spec fn spec_temp_path(p: Seq<u8>) -> Seq<u8> {
    p.take(spec_file_name_start(p)) + seq![95u8] + p.skip(spec_file_name_start(p))
}

/// Finds where the file-name component of `path` begins: right after the
/// last `/`, or 0 when the path has none.
pub fn find_file_name_start(path: &[u8]) -> (r: usize)
    ensures
        r == spec_file_name_start(path@),
{
    let n = path.len();
    let mut start: usize = 0;
    let mut k: usize = 0;
    proof {
        assert(path@.take(0) =~= Seq::<u8>::empty());
    }
    while k < n
        invariant
            start <= k <= n,
            n == path@.len(),
            start == spec_file_name_start(path@.take(k as int)),
        decreases n - k,
    {
        let ghost t = path@.take(k + 1 as int);
        proof {
            assert(t.last() == path@[k as int]);
            assert(t.drop_last() =~= path@.take(k as int));
        }
        if path[k] == 47 {
            start = k + 1;
        }
        k = k + 1;
    }
    proof {
        assert(path@.take(n as int) =~= path@);
    }
    start
}

/// Computes the backup sibling's path for a file path, appending `.bak` to
/// the file's extension (an empty one when the name has no extension).
pub fn get_backup_path(path: &[u8]) -> (r: Vec<u8>)
    ensures
        r@ == spec_backup_path(path@),
{
    let n = path.len();
    let start = find_file_name_start(path);
    proof {
        lemma_file_name_start_in_bounds(path@);
    }
    let mut has_ext = false;
    let mut k: usize = start;
    while k < n
        invariant
            start <= k <= n,
            n == path@.len(),
            start == spec_file_name_start(path@),
            has_ext == (exists|j: int| start < j < k && path@[j] == 46u8),
        decreases n - k,
    {
        if k > start && path[k] == 46 {
            has_ext = true;
        }
        k = k + 1;
    }
    let mut out: Vec<u8> = Vec::new();
    out.extend_from_slice(path);
    if !has_ext {
        out.push(46);
    }
    out.push(46);
    out.push(98);
    out.push(97);
    out.push(107);
    proof {
        if spec_has_extension(path@) {
            assert(out@ =~= path@ + seq![46u8, 98u8, 97u8, 107u8]);
        } else {
            assert(out@ =~= path@ + seq![46u8, 46u8, 98u8, 97u8, 107u8]);
        }
    }
    out
}

/// Computes the transient sibling's path for a file path, prefixing the file
/// name with `_`.
pub fn get_temp_path(path: &[u8]) -> (r: Vec<u8>)
    ensures
        r@ == spec_temp_path(path@),
{
    let n = path.len();
    let start = find_file_name_start(path);
    proof {
        lemma_file_name_start_in_bounds(path@);
    }
    let mut out: Vec<u8> = Vec::new();
    out.extend_from_slice(&path[0..start]);
    out.push(95);
    out.extend_from_slice(&path[start..n]);
    proof {
        assert(path@.subrange(0, start as int) =~= path@.take(start as int));
        assert(path@.subrange(start as int, n as int) =~= path@.skip(start as int));
        assert(out@ =~= path@.take(start as int) + seq![95u8] + path@.skip(start as int));
    }
    out
}

/// The view of an optional backup as an optional byte sequence.
pub open spec fn spec_backup_view(b: Option<Vec<u8>>) -> Option<Seq<u8>> {
    match b {
        Some(v) => Some(v@),
        None => None,
    }
}

/// The backup rule applied by every mutation: the first mutation of a path
/// records the pre-mutation content as the backup; a mutation that finds a
/// backup already present leaves it untouched.
pub open spec fn spec_backup_update(backup: Option<Seq<u8>>, content: Seq<u8>) -> Option<
    Seq<u8>,
> {
    match backup {
        Some(b) => Some(b),
        None => Some(content),
    }
}

/// Backup stability: two successive mutations of the same path leave exactly
/// one backup, holding the content from before the first mutation; the
/// second mutation does not disturb it.
pub proof fn lemma_backup_stable(first: Seq<u8>, later: Seq<u8>)
    ensures
        spec_backup_update(spec_backup_update(None, first), later) == Some(first),
{
}

/// One file's content together with its optional backup, as the
/// backup-then-replace protocol sees them. Mutations first secure a backup
/// under the backup rule and then replace the content, mirroring the
/// copy-then-rename sequence a caller performs on disk.
pub struct TrackedFile {
    pub content: Vec<u8>,
    pub backup: Option<Vec<u8>>,
}

impl TrackedFile {
    /// A file that has not been mutated yet: no backup exists.
    pub fn new(content: Vec<u8>) -> (f: TrackedFile)
        ensures
            f.content@ == content@,
            f.backup is None,
    {
        TrackedFile { content, backup: None }
    }

    /// Secures the backup: creates it from the current content only if none
    /// exists yet.
    fn ensure_backup(&mut self)
        ensures
            final(self).content@ == old(self).content@,
            spec_backup_view(final(self).backup) == spec_backup_update(
                spec_backup_view(old(self).backup),
                old(self).content@,
            ),
    {
        if self.backup.is_none() {
            self.backup = Some(vstd::slice::slice_to_vec(self.content.as_slice()));
        }
    }

    /// Rewrites the content's line endings to `ending`, securing the backup
    /// first.
    pub fn rewrite_line_endings(&mut self, ending: LineEnding)
        ensures
            final(self).content@ == spec_rewrite(old(self).content@, ending),
            spec_backup_view(final(self).backup) == spec_backup_update(
                spec_backup_view(old(self).backup),
                old(self).content@,
            ),
    {
        self.ensure_backup();
        let new_content = rewrite_content(self.content.as_slice(), ending);
        self.content = new_content;
    }

    /// Removes the first `bom_len` bytes of the content (a detected BOM),
    /// securing the backup first.
    pub fn strip_bom(&mut self, bom_len: usize)
        requires
            bom_len <= old(self).content@.len(),
        ensures
            final(self).content@ == old(self).content@.skip(bom_len as int),
            spec_backup_view(final(self).backup) == spec_backup_update(
                spec_backup_view(old(self).backup),
                old(self).content@,
            ),
    {
        self.ensure_backup();
        let new_content = strip_bom_content(self.content.as_slice(), bom_len);
        self.content = new_content;
    }
}

} // verus!

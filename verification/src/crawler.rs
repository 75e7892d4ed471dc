//! The file-discovery walker: enumerates the regular files under a root,
//! skipping hidden entries and whole hidden subtrees, following symbolic
//! links.
//!
//! The traversal order and the error handling of the filesystem walk are
//! trusted; the pruning policy — which entries are kept, which subtrees are
//! cut off — is verified.

use vstd::prelude::*;
use vstd::utf8::encode_utf8;

verus! {

/// The position where a path's basename starts: just after the last `/`
/// byte, or the start of the path when it has none. In valid UTF-8 the `/`
/// byte only ever encodes the character `/`.
pub open spec fn base_start(b: Seq<u8>) -> int
    decreases b.len(),
{
    if b.len() == 0 {
        0
    } else if b[b.len() - 1] == 47 {
        b.len() as int
    } else {
        base_start(b.drop_last())
    }
}

/// A hidden path: its basename starts with a `.` byte.
pub open spec fn spec_hidden_path(b: Seq<u8>) -> bool {
    base_start(b) < b.len() && b[base_start(b)] == 46
}

/// Whether a path's basename starts with `.`.
pub fn is_hidden(path: &String) -> (r: bool)
    ensures
        r == spec_hidden_path(encode_utf8(path@)),
{
    let b = path.as_str().as_bytes();
    let ghost bs = b@;
    let n = b.len();
    let mut i = n;
    proof {
        assert(bs.take(n as int) =~= bs);
    }
    while i > 0 && b[i - 1] != 47
        invariant
            i <= n,
            n == bs.len(),
            bs == b@,
            base_start(bs) == base_start(bs.take(i as int)),
        decreases i,
    {
        proof {
            assert(bs.take(i as int).last() == bs[i - 1]);
            assert(bs.take(i as int).drop_last() =~= bs.take(i as int - 1));
        }
        i = i - 1;
    }
    proof {
        if i > 0 {
            assert(bs.take(i as int).last() == bs[i - 1]);
            assert(base_start(bs.take(i as int)) == i as int);
        }
    }
    i < n && b[i] == 46
}

#[verifier::external_type_specification]
#[verifier::external_body]
pub struct ExWalkIntoIter(walkdir::IntoIter);

#[verifier::external_type_specification]
#[verifier::external_body]
pub struct ExWalkDirEntry(walkdir::DirEntry);

#[verifier::external_type_specification]
#[verifier::external_body]
pub struct ExWalkError(walkdir::Error);

/// What kind of filesystem object an entry is, after symbolic links are
/// resolved.
pub enum EntryKind {
    File,
    Dir,
    Other,
}

/// One step of the walk: an entry with its path, its depth below the root
/// and its kind, or an entry that could not be read.
pub enum WalkEvent {
    Entry { path: String, depth: usize, kind: EntryKind },
    Error,
}

/// Relies on `walkdir::WalkDir`: a depth-first traversal of the root that
/// follows symbolic links, with walkdir's own guard against link cycles.
#[verifier::external_body]
fn walk_start(root: &String) -> walkdir::IntoIter {
    walkdir::WalkDir::new(root).follow_links(true).into_iter()
}

/// Relies on `walkdir::IntoIter::next` and on `walkdir::DirEntry`'s `path`,
/// `depth` and `file_type` accessors: each step yields the next entry of
/// the traversal (the root itself first, at depth zero) or a per-entry
/// error, and `None` once the walk is exhausted.
#[verifier::external_body]
fn walk_next(it: &mut walkdir::IntoIter) -> (r: Option<WalkEvent>) {
    it.next().map(|res| match res {
        Err(_) => WalkEvent::Error,
        Ok(e) => WalkEvent::Entry {
            path: e.path().to_string_lossy().into_owned(),
            depth: e.depth(),
            kind: if e.file_type().is_file() {
                EntryKind::File
            } else if e.file_type().is_dir() {
                EntryKind::Dir
            } else {
                EntryKind::Other
            },
        },
    })
}

/// Relies on `walkdir::IntoIter::skip_current_dir`: the contents of the
/// most recently yielded directory are skipped, so a pruned directory's
/// whole subtree stays out of the walk.
#[verifier::external_body]
fn walk_skip_dir(it: &mut walkdir::IntoIter) {
    it.skip_current_dir();
}

/// Collects the regular files under a root path.
///
/// A root that is itself a regular file is returned alone, with no hidden
/// check. Otherwise every entry whose basename starts with `.` is pruned —
/// a hidden file is dropped, a hidden directory is not descended into — and
/// entries that cannot be read are silently skipped. Every returned path is
/// the root itself or has a basename that does not start with `.`.
pub fn get_files(dir: &String) -> (r: Vec<String>)
    ensures
        forall|i: int|
            0 <= i < r@.len() ==> (#[trigger] r@[i])@ == dir@ || !spec_hidden_path(
                encode_utf8(r@[i]@),
            ),
{
    let mut files: Vec<String> = Vec::new();
    let mut it = walk_start(dir);
    // An iteration budget far beyond any real filesystem bounds the walk.
    let mut fuel: usize = usize::MAX;
    while fuel > 0
        invariant
            forall|i: int|
                0 <= i < files@.len() ==> (#[trigger] files@[i])@ == dir@ || !spec_hidden_path(
                    encode_utf8(files@[i]@),
                ),
        ensures
            forall|i: int|
                0 <= i < files@.len() ==> (#[trigger] files@[i])@ == dir@ || !spec_hidden_path(
                    encode_utf8(files@[i]@),
                ),
        decreases fuel,
    {
        fuel = fuel - 1;
        match walk_next(&mut it) {
            Option::None => {
                break ;
            },
            Option::Some(WalkEvent::Error) => {},
            Option::Some(WalkEvent::Entry { path, depth, kind }) => {
                match kind {
                    EntryKind::File => {
                        if depth == 0 {
                            // The degenerate case: the root is a regular
                            // file; the hidden check does not apply.
                            files.push(dir.clone());
                        } else if !is_hidden(&path) {
                            files.push(path);
                        }
                    },
                    EntryKind::Dir => {
                        if is_hidden(&path) {
                            walk_skip_dir(&mut it);
                        }
                    },
                    EntryKind::Other => {},
                }
            },
        }
    }
    files
}

} // verus!

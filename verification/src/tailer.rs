//! Following log files that grow and rotate.
//!
//! The tailer remembers, for each file, how far it has been read. The
//! reading itself is the caller's: the tailer says from where to read, cuts
//! what was read into complete lines, and moves its mark only over lines
//! that were handed on.

use vstd::prelude::*;
use vstd::slice::slice_subrange;
use vstd::slice::slice_to_vec;
use crate::keyed::{find_key, lemma_find_key, lemma_find_key_absent, lemma_find_key_at, lemma_find_key_push};

verus! {

/// What the file system tells of a file: a number that changes when the
/// file is replaced, and the file's size in bytes.
#[derive(Clone, Copy, Debug, PartialEq, Eq, Structural)]
pub struct FileStamp {
    pub identity: u64,
    pub size: u64,
}

/// How far a file has been read, and which file that was.
#[derive(Clone, Copy, Debug, PartialEq, Eq, Structural)]
pub struct LogReadCursor {
    pub identity: u64,
    pub offset: u64,
}

/// From where to read a file, and whether the file was found rotated.
#[derive(Clone, Copy, Debug, PartialEq, Eq, Structural)]
pub struct ReadPlan {
    pub from: u64,
    pub rotated: bool,
}

/// Whether the file behind `stamp` is not the one that `cursor` was reading
/// any more: it has another identity or is shorter than what was read.
pub open spec fn is_rotated(cursor: LogReadCursor, stamp: FileStamp) -> bool {
    cursor.identity != stamp.identity || stamp.size < cursor.offset
}

/// The plan for reading a file: from the start where it is new or rotated,
/// else from where the last reading ended.
pub open spec fn plan_for(cursor: Option<LogReadCursor>, stamp: FileStamp) -> ReadPlan {
    match cursor {
        None => ReadPlan { from: 0, rotated: false },
        Some(c) => if is_rotated(c, stamp) {
            ReadPlan { from: 0, rotated: true }
        } else {
            ReadPlan { from: c.offset, rotated: false }
        },
    }
}

/// The cursor once `consumed` bytes, read according to `plan`, were handed
/// on. It never points beyond the size that `stamp` tells.
pub open spec fn cursor_after(plan: ReadPlan, stamp: FileStamp, consumed: u64) -> LogReadCursor {
    LogReadCursor {
        identity: stamp.identity,
        offset: if plan.from <= stamp.size && consumed <= stamp.size - plan.from {
            (plan.from + consumed) as u64
        } else {
            stamp.size
        },
    }
}

/// Plans the reading of a file.
pub fn plan_read(cursor: Option<LogReadCursor>, stamp: FileStamp) -> (r: ReadPlan)
    ensures
        r == plan_for(cursor, stamp),
        r.from <= stamp.size,
{
    match cursor {
        None => ReadPlan { from: 0, rotated: false },
        Some(c) => if c.identity != stamp.identity || stamp.size < c.offset {
            ReadPlan { from: 0, rotated: true }
        } else {
            ReadPlan { from: c.offset, rotated: false }
        },
    }
}

/// Moves the cursor over what was handed on.
pub fn advance(plan: ReadPlan, stamp: FileStamp, consumed: u64) -> (r: LogReadCursor)
    ensures
        r == cursor_after(plan, stamp, consumed),
        r.offset <= stamp.size,
{
    let offset = if plan.from <= stamp.size && consumed <= stamp.size - plan.from {
        plan.from + consumed
    } else {
        stamp.size
    };
    LogReadCursor { identity: stamp.identity, offset }
}

/// While a file is not rotated, reading goes on where the last reading
/// ended: nothing is read twice, and the cursor does not move back.
pub proof fn lemma_reading_resumes(cursor: Option<LogReadCursor>, stamp: FileStamp, consumed: u64)
    ensures
        plan_for(Some(cursor_after(plan_for(cursor, stamp), stamp, consumed)), stamp).rotated == false,
        plan_for(Some(cursor_after(plan_for(cursor, stamp), stamp, consumed)), stamp).from
            == cursor_after(plan_for(cursor, stamp), stamp, consumed).offset,
        cursor_after(plan_for(cursor, stamp), stamp, consumed).offset >= plan_for(cursor, stamp).from,
        cursor is Some && !is_rotated(cursor.unwrap(), stamp) ==> cursor_after(
            plan_for(cursor, stamp),
            stamp,
            consumed,
        ).offset >= cursor.unwrap().offset,
{
}

/// The bytes of `chunk` behind its last line feed: a line that is not
/// complete yet.
pub open spec fn pending(chunk: Seq<u8>) -> Seq<u8>
    decreases chunk.len(),
{
    if chunk.len() == 0 || chunk.last() == 0x0a {
        Seq::<u8>::empty()
    } else {
        pending(chunk.drop_last()).push(chunk.last())
    }
}

/// The complete lines of `chunk`, each without its line feed.
pub open spec fn complete_lines(chunk: Seq<u8>) -> Seq<Seq<u8>>
    decreases chunk.len(),
{
    if chunk.len() == 0 {
        Seq::<Seq<u8>>::empty()
    } else if chunk.last() == 0x0a {
        complete_lines(chunk.drop_last()).push(pending(chunk.drop_last()))
    } else {
        complete_lines(chunk.drop_last())
    }
}

/// The bytes of `chunk` that its complete lines take, line feeds included.
pub open spec fn consumed_len(chunk: Seq<u8>) -> int {
    chunk.len() - pending(chunk).len()
}

/// The pending bytes are the end of the chunk.
pub proof fn lemma_pending(chunk: Seq<u8>)
    ensures
        0 <= pending(chunk).len() <= chunk.len(),
        pending(chunk) == chunk.subrange(consumed_len(chunk), chunk.len() as int),
        forall|i: int| 0 <= i < pending(chunk).len() ==> #[trigger] pending(chunk)[i] != 0x0a,
    decreases chunk.len(),
{
    if chunk.len() == 0 || chunk.last() == 0x0a {
        assert(pending(chunk) =~= chunk.subrange(chunk.len() as int, chunk.len() as int));
    } else {
        let front = chunk.drop_last();
        lemma_pending(front);
        assert(pending(chunk) =~= chunk.subrange(consumed_len(chunk), chunk.len() as int));
    }
}

/// The views of a sequence of byte vectors.
pub open spec fn byte_views(s: Seq<Vec<u8>>) -> Seq<Seq<u8>> {
    s.map_values(|v: Vec<u8>| v@)
}

/// Cuts `chunk` into its complete lines and tells how many bytes they
/// take. What follows the last line feed is left for the next reading.
pub fn cut_lines(chunk: &[u8]) -> (r: (Vec<Vec<u8>>, usize))
    ensures
        byte_views(r.0@) == complete_lines(chunk@),
        r.1 == consumed_len(chunk@),
        r.1 <= chunk@.len(),
{
    let n = chunk.len();
    let mut lines: Vec<Vec<u8>> = Vec::new();
    let mut start: usize = 0;
    let mut i: usize = 0;
    proof {
        assert(chunk@.take(0) =~= Seq::<u8>::empty());
        assert(byte_views(lines@) =~= Seq::<Seq<u8>>::empty());
        assert(chunk@.subrange(0, 0) =~= Seq::<u8>::empty());
    }
    while i < n
        invariant
            start <= i <= n,
            n == chunk@.len(),
            byte_views(lines@) == complete_lines(chunk@.take(i as int)),
            pending(chunk@.take(i as int)) == chunk@.subrange(start as int, i as int),
        decreases n - i,
    {
        proof {
            let t = chunk@.take(i + 1);
            assert(t.drop_last() =~= chunk@.take(i as int));
            assert(t.last() == chunk@[i as int]);
        }
        if chunk[i] == 0x0a {
            let line = slice_to_vec(slice_subrange(chunk, start, i));
            let ghost before = byte_views(lines@);
            lines.push(line);
            assert(byte_views(lines@) =~= before.push(line@));
            start = i + 1;
            assert(chunk@.subrange(i + 1, i + 1) =~= Seq::<u8>::empty());
        } else {
            assert(chunk@.subrange(start as int, i + 1) =~= chunk@.subrange(
                start as int,
                i as int,
            ).push(chunk@[i as int]));
        }
        i = i + 1;
    }
    proof {
        assert(chunk@.take(n as int) =~= chunk@);
    }
    (lines, start)
}

/// One followed file.
struct TrackedFile {
    path: String,
    cursor: LogReadCursor,
}

/// The cursors of the followed files.
pub struct LogTailer {
    files: Vec<TrackedFile>,
}

impl LogTailer {
    /// The paths of the followed files, in the order in which they were
    /// first seen.
    pub closed spec fn paths(&self) -> Seq<Seq<char>> {
        self.files@.map_values(|f: TrackedFile| f.path@)
    }

    /// The cursors of the followed files, in the order of [`Self::paths`].
    pub closed spec fn cursors(&self) -> Seq<LogReadCursor> {
        self.files@.map_values(|f: TrackedFile| f.cursor)
    }

    /// The cursor of the file at `path`, or `None` where the file was never
    /// read.
    pub open spec fn cursor_of(&self, path: Seq<char>) -> Option<LogReadCursor> {
        match find_key(self.paths(), path) {
            Some(i) => Some(self.cursors()[i]),
            None => None,
        }
    }

    /// A tailer that follows no file yet.
    pub fn new() -> (r: LogTailer)
        ensures
            r.paths() == Seq::<Seq<char>>::empty(),
            forall|path: Seq<char>| r.cursor_of(path) is None,
    {
        let r = LogTailer { files: Vec::new() };
        assert(r.paths() =~= Seq::<Seq<char>>::empty());
        r
    }

    /// Finds the place of the file at `path`.
    fn find(&self, path: &str) -> (r: Option<usize>)
        ensures
            match r {
                Some(i) => i < self.files@.len() && find_key(self.paths(), path@) == Some(i as int),
                None => find_key(self.paths(), path@) is None,
            },
    {
        let ghost keys = self.paths();
        let mut i: usize = 0;
        while i < self.files.len()
            invariant
                i <= self.files.len(),
                keys == self.paths(),
                forall|j: int| 0 <= j < i ==> #[trigger] keys[j] != path@,
            decreases self.files.len() - i,
        {
            if self.files[i].path.as_str().to_owned() == path.to_owned() {
                proof {
                    assert(keys[i as int] == path@);
                    lemma_find_key_at(keys, path@, i as int);
                }
                return Some(i);
            }
            i = i + 1;
        }
        proof {
            lemma_find_key_absent(keys, path@);
        }
        None
    }

    /// The cursor of the file at `path`.
    pub fn cursor(&self, path: &str) -> (r: Option<LogReadCursor>)
        ensures
            r == self.cursor_of(path@),
    {
        match self.find(path) {
            Some(i) => Some(self.files[i].cursor),
            None => None,
        }
    }

    /// Plans the reading of the file at `path`, of which the file system
    /// tells `stamp`. A file never seen is read from its start.
    pub fn plan(&self, path: &str, stamp: FileStamp) -> (r: ReadPlan)
        ensures
            r == plan_for(self.cursor_of(path@), stamp),
            r.from <= stamp.size,
    {
        plan_read(self.cursor(path), stamp)
    }

    /// Records that `consumed` bytes of the file at `path`, read according
    /// to `plan`, were handed to the caller. No other file's cursor moves.
    pub fn commit(&mut self, path: &str, stamp: FileStamp, plan: ReadPlan, consumed: u64)
        ensures
            final(self).cursor_of(path@) == Some(cursor_after(plan, stamp, consumed)),
            forall|other: Seq<char>|
                other != path@ ==> final(self).cursor_of(other) == old(self).cursor_of(other),
    {
        let cursor = advance(plan, stamp, consumed);
        let ghost keys = self.paths();
        let ghost cursors = self.cursors();
        match self.find(path) {
            Some(i) => {
                let file = TrackedFile { path: path.to_owned(), cursor };
                self.files.set(i, file);
                proof {
                    lemma_find_key(keys, path@);
                    assert(self.paths() =~= keys);
                    assert(self.cursors() =~= cursors.update(i as int, cursor));
                    assert forall|other: Seq<char>| other != path@ implies self.cursor_of(other)
                        == match find_key(keys, other) {
                        Some(j) => Some(cursors[j]),
                        None => None,
                    } by {
                        lemma_find_key(keys, other);
                    }
                }
            },
            None => {
                self.files.push(TrackedFile { path: path.to_owned(), cursor });
                proof {
                    assert(self.paths() =~= keys.push(path@));
                    assert(self.cursors() =~= cursors.push(cursor));
                    lemma_find_key_push(keys, path@, path@);
                    assert forall|other: Seq<char>| other != path@ implies self.cursor_of(other)
                        == match find_key(keys, other) {
                        Some(j) => Some(cursors[j]),
                        None => None,
                    } by {
                        lemma_find_key_push(keys, path@, other);
                        lemma_find_key(keys, other);
                    }
                }
            },
        }
    }
}

} // verus!

//! The cursor of one reader over a shared random-access file: where its next
//! read starts, and the file length once it has been asked for.
use vstd::prelude::*;

verus! {

/// Where a seek goes: from the start, from the end, or from the cursor.
#[derive(Clone, Copy, PartialEq, Eq, Structural, Debug)]
pub enum SeekTarget {
    Start(u64),
    End(i64),
    Current(i64),
}

/// Why a seek was refused.
#[derive(Clone, Copy, PartialEq, Eq, Structural, Debug)]
pub enum SeekError {
    /// The position would be negative, or too large to represent.
    InvalidSeek,
}

/// The position a seek aims at, before any check of its range.
pub open spec fn seek_aim(pos: u64, length: Option<u64>, target: SeekTarget) -> int {
    match target {
        SeekTarget::Start(p) => p as int,
        SeekTarget::End(o) => length.unwrap() as int + o as int,
        SeekTarget::Current(o) => pos as int + o as int,
    }
}

/// A position a cursor can hold.
pub open spec fn representable(x: int) -> bool {
    0 <= x <= u64::MAX
}

/// One reader's cursor. Clones of a reader share the file but copy this
/// value, so each moves on its own.
#[derive(Clone, Copy, Debug)]
pub struct SourceCursor {
    /// Where the next read starts.
    pub pos: u64,
    /// The file length, once it has been determined.
    pub file_length: Option<u64>,
}

impl SourceCursor {
    /// A cursor at the start of the file, with its length not yet known.
    pub fn new() -> (r: SourceCursor)
        ensures
            r.pos == 0,
            r.file_length is None,
    {
        SourceCursor { pos: 0, file_length: None }
    }

    /// The offset at which this reader's next read must take place: the
    /// shared file is positioned there, under its lock, just before reading.
    pub fn read_offset(&self) -> (r: u64)
        ensures
            r == self.pos,
    {
        self.pos
    }

    /// Whether a seek to `target` needs the file length first: only one
    /// from the end does, and only while the length is not yet known.
    pub fn needs_length(&self, target: SeekTarget) -> (r: bool)
        ensures
            r == (target is End && self.file_length is None),
    {
        match target {
            SeekTarget::End(_) => self.file_length.is_none(),
            _ => false,
        }
    }

    /// Records the file length. It is determined once: a length already
    /// known is kept.
    pub fn learn_length(&mut self, length: u64)
        ensures
            final(self).pos == old(self).pos,
            final(self).file_length == (match old(self).file_length {
                Some(l) => Some(l),
                None => Some(length),
            }),
    {
        if self.file_length.is_none() {
            self.file_length = Some(length);
        }
    }

    /// Moves the cursor to `target` and returns the new position. A target
    /// before the start of the file, or past what a position can hold, is
    /// refused and leaves the cursor where it was.
    pub fn seek(&mut self, target: SeekTarget) -> (r: Result<u64, SeekError>)
        requires
            target is End ==> old(self).file_length is Some,
        ensures
            final(self).file_length == old(self).file_length,
            r is Ok <==> representable(seek_aim(old(self).pos, old(self).file_length, target)),
            r matches Ok(p) ==> p == seek_aim(old(self).pos, old(self).file_length, target)
                && final(self).pos == p,
            r is Err ==> final(self).pos == old(self).pos && r == Err::<u64, SeekError>(
                SeekError::InvalidSeek,
            ),
    {
        let new_pos = match target {
            SeekTarget::Start(p) => p,
            SeekTarget::End(o) => {
                let len = match self.file_length {
                    Some(l) => l,
                    None => 0,
                };
                match offset_by(len, o) {
                    Some(p) => p,
                    None => {
                        return Err(SeekError::InvalidSeek);
                    },
                }
            },
            SeekTarget::Current(o) => match offset_by(self.pos, o) {
                Some(p) => p,
                None => {
                    return Err(SeekError::InvalidSeek);
                },
            },
        };
        self.pos = new_pos;
        Ok(new_pos)
    }

    /// Moves the cursor past `n` bytes that a read has just delivered.
    pub fn advance(&mut self, n: usize)
        requires
            old(self).pos + n <= u64::MAX,
        ensures
            final(self).pos == old(self).pos + n,
            final(self).file_length == old(self).file_length,
    {
        self.pos = self.pos + n as u64;
    }
}

/// `base + offset`, where it is a position a cursor can hold.
pub fn offset_by(base: u64, offset: i64) -> (r: Option<u64>)
    ensures
        r is Some <==> representable(base + offset),
        r matches Some(p) ==> p == base + offset,
{
    if offset >= 0 {
        let forward = offset as u64;
        if forward > u64::MAX - base {
            None
        } else {
            Some(base + forward)
        }
    } else {
        let back: u64 = (-(offset + 1)) as u64 + 1;
        if back > base {
            None
        } else {
            Some(base - back)
        }
    }
}

} // verus!

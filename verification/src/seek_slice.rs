//! A window on a seekable stream: where a seek inside the window lands in
//! the stream, and how much may be read before the window ends.

use vstd::prelude::*;

verus! {

/// Where to seek, as an offset from the start of the window, from its end,
/// or from the current position.
#[derive(Clone, Copy, Debug, PartialEq, Eq, Structural)]
pub enum SeekPos {
    Start(u64),
    End(i64),
    Current(i64),
}

/// Why a seek is refused.
#[derive(Clone, Copy, Debug, PartialEq, Eq, Structural)]
pub enum SeekError {
    /// The position cannot be written as an unsigned 64-bit number.
    Overflow,
    /// The position lies before the window or not before its end.
    OutOfRange,
}

/// `a + b`, if it is an unsigned 64-bit number.
pub fn checked_add_signed(a: u64, b: i64) -> (r: Option<u64>)
    ensures
        r == if 0 <= a + b <= u64::MAX {
            Some((a + b) as u64)
        } else {
            None::<u64>
        },
{
    if b >= 0 {
        a.checked_add(b as u64)
    } else {
        let back: u64 = (-(b as i128)) as u64;
        a.checked_sub(back)
    }
}

/// The positions `start..end` of a stream, with the current position in
/// the stream.
#[derive(Debug)]
pub struct SeekSlice {
    start: u64,
    end: u64,
    current: u64,
}

impl SeekSlice {
    #[verifier::type_invariant]
    closed spec fn within(self) -> bool {
        self.start <= self.current <= self.end
    }

    /// Where the window starts in the stream.
    pub closed spec fn start(&self) -> int {
        self.start as int
    }

    /// Where the window ends in the stream.
    pub closed spec fn end(&self) -> int {
        self.end as int
    }

    /// The current position in the stream.
    pub closed spec fn current(&self) -> int {
        self.current as int
    }

    /// The position in the stream that a seek asks for, as a number.
    pub open spec fn goal(&self, pos: SeekPos) -> int {
        match pos {
            SeekPos::Start(amount) => self.start() + amount,
            SeekPos::End(amount) => self.end() + amount,
            SeekPos::Current(amount) => self.current() + amount,
        }
    }

    /// The window `start..end`, positioned at its start.
    pub fn new(start: u64, end: u64) -> (r: SeekSlice)
        requires
            end >= start,
        ensures
            r.start() == start,
            r.end() == end,
            r.current() == start,
    {
        SeekSlice { start, end, current: start }
    }

    /// The position in the stream, for the caller that moves the stream.
    pub fn position(&self) -> (r: u64)
        ensures
            r == self.current(),
            self.start() <= r <= self.end(),
    {
        proof {
            use_type_invariant(self);
        }
        self.current
    }

    /// Moves to a position inside the window and returns it as an offset
    /// from the window's start. A position outside the window, or one that
    /// overflows, is refused and leaves the window as it is.
    pub fn seek(&mut self, pos: SeekPos) -> (r: Result<u64, SeekError>)
        ensures
            final(self).start() == old(self).start(),
            final(self).end() == old(self).end(),
            match r {
                Ok(offset) => {
                    &&& old(self).start() <= old(self).goal(pos) < old(self).end()
                    &&& final(self).current() == old(self).goal(pos)
                    &&& offset == old(self).goal(pos) - old(self).start()
                },
                Err(SeekError::Overflow) => {
                    &&& !(0 <= old(self).goal(pos) <= u64::MAX)
                    &&& final(self).current() == old(self).current()
                },
                Err(SeekError::OutOfRange) => {
                    &&& 0 <= old(self).goal(pos) <= u64::MAX
                    &&& !(old(self).start() <= old(self).goal(pos) < old(self).end())
                    &&& final(self).current() == old(self).current()
                },
            },
    {
        proof {
            use_type_invariant(&*self);
        }
        let maybe_goal_idx = match pos {
            SeekPos::Start(amount) => self.start.checked_add(amount),
            SeekPos::End(amount) => checked_add_signed(self.end, amount),
            SeekPos::Current(amount) => checked_add_signed(self.current, amount),
        };
        match maybe_goal_idx {
            Some(goal_idx) => {
                if goal_idx < self.start || goal_idx >= self.end {
                    Err(SeekError::OutOfRange)
                } else {
                    self.current = goal_idx;
                    Ok(goal_idx - self.start)
                }
            },
            None => Err(SeekError::Overflow),
        }
    }

    /// How many bytes a read into a buffer of `buf_len` bytes may take: no
    /// more than are left in the window.
    pub fn read_size(&self, buf_len: usize) -> (r: usize)
        ensures
            r as int == if self.end() - self.current() < buf_len {
                self.end() - self.current()
            } else {
                buf_len as int
            },
    {
        proof {
            use_type_invariant(self);
        }
        let left: u64 = self.end - self.current;
        if left < buf_len as u64 {
            left as usize
        } else {
            buf_len
        }
    }

    /// Moves on by the bytes that a read took.
    pub fn advance(&mut self, amount: usize)
        requires
            amount <= old(self).end() - old(self).current(),
        ensures
            final(self).start() == old(self).start(),
            final(self).end() == old(self).end(),
            final(self).current() == old(self).current() + amount,
    {
        proof {
            use_type_invariant(&*self);
        }
        self.current = self.current + amount as u64;
    }
}

} // verus!

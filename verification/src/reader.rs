//! Reading from the bytes of a connection that are at hand: a line of bounded
//! length, a line of any length, and an exact number of bytes. Nothing here
//! waits: where the bytes at hand do not settle a read and more may come, the
//! read is reported as pending and nothing is taken.

use crate::text::{find_byte, lemma_position, lemma_position_with_more, position};
use vstd::prelude::*;
use vstd::slice::slice_subrange;
use vstd::slice::slice_to_vec;

verus! {

/// What is known of the bytes that follow those at hand.
#[derive(Clone, Copy, Debug, PartialEq, Eq, Structural)]
pub enum StreamStatus {
    /// More bytes may come.
    Open,
    /// The peer has sent everything: no byte follows.
    Eof,
    /// Reading failed after the bytes at hand.
    Failed,
}

/// Why a read gave no bytes.
#[derive(Clone, Copy, Debug, PartialEq, Eq, Structural)]
pub enum ReadError {
    /// The terminator did not come within the bytes allowed.
    TooLong,
    /// The stream ended before the bytes asked for.
    UnexpectedEof,
    /// Reading failed.
    Failed,
    /// The bytes at hand do not settle the read, and more may come.
    Pending,
}

/// The line feed.
pub const LINE_FEED: u8 = 10;

/// How a read of at most `max` bytes up to and including the first `byte`
/// ends on the bytes `unread`: with the number of bytes of the line, or with
/// the reason why there is none.
///
/// The line is there where the first `byte` is among the first `max` bytes.
/// It is too long where `max` bytes are at hand without `byte`, or where the
/// stream has ended without it.
pub open spec fn bounded_line(unread: Seq<u8>, status: StreamStatus, byte: u8, max: nat) -> Result<
    nat,
    ReadError,
> {
    let p = position(unread, byte);
    if p < unread.len() && p < max {
        Ok((p + 1) as nat)
    } else if unread.len() >= max {
        Err(ReadError::TooLong)
    } else {
        match status {
            StreamStatus::Open => Err(ReadError::Pending),
            StreamStatus::Eof => Err(ReadError::TooLong),
            StreamStatus::Failed => Err(ReadError::Failed),
        }
    }
}

/// How many bytes a bounded read takes: the line; on a line too long the
/// bytes allowed, or all where fewer are at hand; all on a failure; none
/// where the read is pending.
pub open spec fn bounded_line_taken(
    unread: Seq<u8>,
    status: StreamStatus,
    byte: u8,
    max: nat,
) -> nat {
    match bounded_line(unread, status, byte, max) {
        Ok(n) => n,
        Err(ReadError::Pending) => 0,
        Err(_) => if unread.len() >= max {
            max
        } else {
            unread.len()
        },
    }
}

/// How a read of one line ends: with the number of bytes up to and including
/// the first line feed, or, where the stream has ended without one, with the
/// number of all bytes left (none, at the very end).
pub open spec fn next_line(unread: Seq<u8>, status: StreamStatus) -> Result<nat, ReadError> {
    let p = position(unread, LINE_FEED);
    if p < unread.len() {
        Ok((p + 1) as nat)
    } else {
        match status {
            StreamStatus::Open => Err(ReadError::Pending),
            StreamStatus::Eof => Ok(unread.len()),
            StreamStatus::Failed => Err(ReadError::Failed),
        }
    }
}

/// How a read of exactly `n` bytes ends.
pub open spec fn exact_bytes(unread: Seq<u8>, status: StreamStatus, n: nat) -> Result<
    nat,
    ReadError,
> {
    if unread.len() >= n {
        Ok(n)
    } else {
        match status {
            StreamStatus::Open => Err(ReadError::Pending),
            StreamStatus::Eof => Err(ReadError::UnexpectedEof),
            StreamStatus::Failed => Err(ReadError::Failed),
        }
    }
}

/// How many bytes a read that ended in `outcome` takes from `unread`: those
/// it gives; on an error all, but none where the read is pending.
pub open spec fn taken(unread: Seq<u8>, outcome: Result<nat, ReadError>) -> nat {
    match outcome {
        Ok(n) => n,
        Err(ReadError::Pending) => 0,
        Err(_) => unread.len(),
    }
}

/// A bounded read gives at most the bytes allowed, and never more than are
/// at hand.
pub proof fn lemma_bounded_line_fits(unread: Seq<u8>, status: StreamStatus, byte: u8, max: nat)
    ensures
        bounded_line_taken(unread, status, byte, max) <= unread.len(),
        bounded_line_taken(unread, status, byte, max) <= max,
        bounded_line(unread, status, byte, max) matches Ok(n) ==> n >= 1 && unread[n - 1] == byte
            && !unread.take(n - 1).contains(byte),
{
    lemma_position(unread, byte);
    if let Ok(n) = bounded_line(unread, status, byte, max) {
        let head = unread.take(n - 1);
        if head.contains(byte) {
            let i = choose|i: int| 0 <= i < head.len() && head[i] == byte;
            assert(unread[i] == byte);
        }
    }
}

/// A bounded read that is settled while more bytes may come stays as it is,
/// whatever comes: the line, or the finding that it is too long.
pub proof fn lemma_bounded_line_is_final(
    unread: Seq<u8>,
    more: Seq<u8>,
    status: StreamStatus,
    byte: u8,
    max: nat,
)
    requires
        bounded_line(unread, StreamStatus::Open, byte, max) != Err::<nat, ReadError>(
            ReadError::Pending,
        ),
    ensures
        bounded_line(unread + more, status, byte, max) == bounded_line(
            unread,
            StreamStatus::Open,
            byte,
            max,
        ),
{
    lemma_position(unread, byte);
    lemma_position(unread + more, byte);
    let p = position(unread, byte);
    let longer = unread + more;
    let q = position(longer, byte);
    if p < unread.len() && p < max {
        lemma_position_with_more(unread, more, byte);
    } else {
        if q < max {
            assert(longer[q as int] == unread[q as int]);
        }
    }
}

/// A line that is there while more bytes may come stays as it is, whatever
/// comes.
pub proof fn lemma_next_line_is_final(unread: Seq<u8>, more: Seq<u8>, status: StreamStatus)
    requires
        next_line(unread, StreamStatus::Open) is Ok,
    ensures
        next_line(unread + more, status) == next_line(unread, StreamStatus::Open),
{
    lemma_position_with_more(unread, more, LINE_FEED);
}

/// A reader that can read a line of bounded length.
pub trait BufReaderExt {
    /// The bytes at hand that have not been read.
    spec fn unread(&self) -> Seq<u8>;

    /// What is known of the bytes that follow.
    spec fn status(&self) -> StreamStatus;

    /// Reads up to and including the first `byte`, but `max_bytes` bytes at
    /// most.
    fn read_max_until(&mut self, byte: u8, max_bytes: usize) -> (r: Result<Vec<u8>, ReadError>)
        ensures
            final(self).status() == old(self).status(),
            final(self).unread() == old(self).unread().skip(
                bounded_line_taken(old(self).unread(), old(self).status(), byte, max_bytes as nat) as int,
            ),
            match r {
                Ok(line) => bounded_line(
                    old(self).unread(),
                    old(self).status(),
                    byte,
                    max_bytes as nat,
                ) == Ok::<nat, ReadError>(line@.len()) && line@ == old(self).unread().take(
                    line@.len() as int,
                ),
                Err(e) => bounded_line(old(self).unread(), old(self).status(), byte, max_bytes as nat)
                    == Err::<nat, ReadError>(e),
            },
    ;
}

/// A reader over bytes in memory.
pub struct ByteReader<'a> {
    data: &'a [u8],
    pos: usize,
    status: StreamStatus,
}

impl<'a> ByteReader<'a> {
    #[verifier::type_invariant]
    spec fn well_formed(&self) -> bool {
        self.pos <= self.data@.len()
    }

    /// How many bytes have been read.
    pub closed spec fn consumed(&self) -> nat {
        self.pos as nat
    }

    /// All bytes, read and unread.
    pub closed spec fn bytes(&self) -> Seq<u8> {
        self.data@
    }

    /// A reader at the start of `data`, with `status` saying what follows
    /// `data`.
    pub fn new(data: &'a [u8], status: StreamStatus) -> (r: ByteReader<'a>)
        ensures
            r.unread() == data@,
            r.bytes() == data@,
            r.consumed() == 0,
            r.status() == status,
    {
        assert(data@.skip(0) =~= data@);
        ByteReader { data, pos: 0, status }
    }

    /// How many bytes have been read.
    pub fn position(&self) -> (n: usize)
        ensures
            n == self.consumed(),
            self.consumed() <= self.bytes().len(),
            self.unread() == self.bytes().skip(n as int),
    {
        proof {
            use_type_invariant(self);
        }
        self.pos
    }

    /// What is known of the bytes that follow.
    pub fn stream_status(&self) -> (s: StreamStatus)
        ensures
            s == self.status(),
    {
        self.status
    }

    /// Takes the bytes up to the index `end`.
    fn take_to(&mut self, end: usize) -> (r: Vec<u8>)
        requires
            old(self).consumed() <= end <= old(self).bytes().len(),
        ensures
            r@ == old(self).unread().take(end - old(self).consumed()),
            final(self).unread() == old(self).unread().skip(end - old(self).consumed()),
            final(self).status() == old(self).status(),
            final(self).bytes() == old(self).bytes(),
            final(self).consumed() == end,
    {
        let out = slice_to_vec(slice_subrange(self.data, self.pos, end));
        self.pos = end;
        proof {
            assert(out@ =~= old(self).unread().take(end - old(self).consumed()));
            assert(self.unread() =~= old(self).unread().skip(end - old(self).consumed()));
        }
        out
    }

    /// Reads one line: up to and including the next line feed, or, where the
    /// stream has ended without one, all that is left.
    pub fn read_line(&mut self) -> (r: Result<Vec<u8>, ReadError>)
        ensures
            final(self).status() == old(self).status(),
            final(self).bytes() == old(self).bytes(),
            final(self).unread() == old(self).unread().skip(
                taken(old(self).unread(), next_line(old(self).unread(), old(self).status())) as int,
            ),
            match r {
                Ok(line) => next_line(old(self).unread(), old(self).status()) == Ok::<
                    nat,
                    ReadError,
                >(line@.len()) && line@ == old(self).unread().take(line@.len() as int),
                Err(e) => next_line(old(self).unread(), old(self).status()) == Err::<
                    nat,
                    ReadError,
                >(e),
            },
    {
        proof {
            use_type_invariant(&*self);
            lemma_position(self.unread(), LINE_FEED);
        }
        let end = self.data.len();
        let at = find_byte(self.data, self.pos, LINE_FEED);
        if at < end {
            Ok(self.take_to(at + 1))
        } else {
            match self.status {
                StreamStatus::Open => {
                    assert(self.unread().skip(0) =~= self.unread());
                    Err(ReadError::Pending)
                },
                StreamStatus::Eof => Ok(self.take_to(end)),
                StreamStatus::Failed => {
                    let _ = self.take_to(end);
                    Err(ReadError::Failed)
                },
            }
        }
    }

    /// Reads exactly `n` bytes.
    pub fn read_exact(&mut self, n: usize) -> (r: Result<Vec<u8>, ReadError>)
        ensures
            final(self).status() == old(self).status(),
            final(self).bytes() == old(self).bytes(),
            final(self).unread() == old(self).unread().skip(
                taken(old(self).unread(), exact_bytes(old(self).unread(), old(self).status(), n as nat)) as int,
            ),
            match r {
                Ok(bytes) => exact_bytes(old(self).unread(), old(self).status(), n as nat) == Ok::<
                    nat,
                    ReadError,
                >(n as nat) && bytes@ == old(self).unread().take(n as int),
                Err(e) => exact_bytes(old(self).unread(), old(self).status(), n as nat) == Err::<
                    nat,
                    ReadError,
                >(e),
            },
    {
        proof {
            use_type_invariant(&*self);
        }
        let end = self.data.len();
        if n <= end - self.pos {
            Ok(self.take_to(self.pos + n))
        } else {
            match self.status {
                StreamStatus::Open => {
                    assert(self.unread().skip(0) =~= self.unread());
                    Err(ReadError::Pending)
                },
                StreamStatus::Eof => {
                    let _ = self.take_to(end);
                    Err(ReadError::UnexpectedEof)
                },
                StreamStatus::Failed => {
                    let _ = self.take_to(end);
                    Err(ReadError::Failed)
                },
            }
        }
    }
}

impl<'a> BufReaderExt for ByteReader<'a> {
    closed spec fn unread(&self) -> Seq<u8> {
        self.data@.skip(self.pos as int)
    }

    closed spec fn status(&self) -> StreamStatus {
        self.status
    }

    fn read_max_until(&mut self, byte: u8, max_bytes: usize) -> (r: Result<Vec<u8>, ReadError>)
        ensures
            final(self).bytes() == old(self).bytes(),
    {
        proof {
            use_type_invariant(&*self);
            lemma_position(self.unread(), byte);
        }
        let end = self.data.len();
        let at = find_byte(self.data, self.pos, byte);
        if at < end && at - self.pos < max_bytes {
            Ok(self.take_to(at + 1))
        } else if end - self.pos >= max_bytes {
            let _ = self.take_to(self.pos + max_bytes);
            Err(ReadError::TooLong)
        } else {
            match self.status {
                StreamStatus::Open => {
                    assert(self.unread().skip(0) =~= self.unread());
                    Err(ReadError::Pending)
                },
                StreamStatus::Eof => {
                    let _ = self.take_to(end);
                    Err(ReadError::TooLong)
                },
                StreamStatus::Failed => {
                    let _ = self.take_to(end);
                    Err(ReadError::Failed)
                },
            }
        }
    }
}

} // verus!

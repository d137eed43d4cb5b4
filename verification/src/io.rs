//! Exposing byte ranges of a file to a consumer, from bytes already in
//! memory or by seeking and reading each time.
//!
//! Offsets are absolute, counted from the start of the file.

use crate::errors::{ErrorKind, MementoError, MementoResult};
use vstd::prelude::*;

verus! {

/// Initial capacity of the buffer of a `SliceReaderDirect`: room for a
/// typical header.
pub const DEFAULT_DIRECT_IO_BUFFER: usize = 128;

/// `r` is something `consumer` may return for a slice holding `bytes`.
pub open spec fn consumer_gave<F, T>(consumer: F, bytes: Seq<u8>, r: MementoResult<T>) -> bool where
    F: Fn(&[u8]) -> MementoResult<T>,
 {
    exists|s: &[u8]| s@ == bytes && #[trigger] call_ensures(consumer, (s,), r)
}

/// The part `[start, end)` of a file of `max` bytes that a request for `len`
/// bytes at `offset` (or, without `len`, for everything from `offset` on)
/// denotes; `None` where the request reaches past the end of the file.
pub open spec fn spec_window(max: nat, offset: u64, len: Option<u64>) -> Option<(int, int)> {
    let end = match len {
        Some(n) => offset + n,
        None => max as int,
    };
    if offset <= max && end <= max {
        Some((offset as int, end))
    } else {
        None
    }
}

/// `r` is an error of kind `IoError`.
pub open spec fn is_io_error<T>(r: MementoResult<T>) -> bool {
    r is Err && r->Err_0.kind == ErrorKind::IoError
}

/// What is said of a request that reaches past the end of a file of `max`
/// bytes: that it starts there, or that it ends there.
pub open spec fn spec_out_of_bounds(max: nat, offset: u64) -> &'static str {
    if offset > max {
        "read range start too large"
    } else {
        "read range end too large"
    }
}

/// What a read of `len` bytes at `offset` (or of everything from `offset`
/// on) may give, for a reader that serves the fixed bytes `backing` or, with
/// `None`, asks its source anew on every read.
///
/// With fixed bytes the outcome is decided: the consumer sees exactly the
/// requested part, or the request is out of bounds and fails with an
/// `IoError` that says at which end.
/// Otherwise the read fails with `IoError` or the consumer sees some
/// non-empty run of bytes, of exactly the requested length where one was
/// given.
pub open spec fn spec_consumed<F, T>(
    backing: Option<Seq<u8>>,
    offset: u64,
    len: Option<u64>,
    consumer: F,
    r: MementoResult<T>,
) -> bool where F: Fn(&[u8]) -> MementoResult<T> {
    match backing {
        Some(b) => match spec_window(b.len(), offset, len) {
            Some((start, end)) => consumer_gave(consumer, b.subrange(start, end), r),
            None => is_io_error(r) && r->Err_0.description == spec_out_of_bounds(b.len(), offset),
        },
        None => is_io_error(r) || exists|bytes: Seq<u8>|
            {
                &&& bytes.len() > 0
                &&& len matches Some(n) ==> bytes.len() == n
                &&& #[trigger] consumer_gave(consumer, bytes, r)
            },
    }
}

/// A source of bytes that can be positioned and read, such as an open file.
///
/// Nothing is taken on trust from a source: what a read gave is judged by
/// what the buffer holds after it.
pub trait SeekRead {
    /// Moves to `offset` bytes from the start of the source and returns the
    /// new position.
    fn seek_to(&mut self, offset: u64) -> (r: MementoResult<u64>);

    /// Reads from the current position to the end of the source, or at most
    /// `limit` bytes where a limit is given, appending what was read to
    /// `buf`.
    fn read_into(&mut self, limit: Option<u64>, buf: &mut Vec<u8>) -> (r: MementoResult<()>);
}

/// Consuming byte ranges of a file, whichever way the bytes are obtained.
pub trait SliceReader {
    /// The bytes this reader serves, where they are fixed for its lifetime;
    /// `None` where every read asks the source anew.
    spec fn backing(&self) -> Option<Seq<u8>>;

    /// Hands the whole file to `consumer`.
    fn consume_all<F, T>(&mut self, consumer: F) -> (r: MementoResult<T>) where
        F: Fn(&[u8]) -> MementoResult<T>,

        requires
            forall|s: &[u8]| call_requires(consumer, (s,)),
        ensures
            final(self).backing() == old(self).backing(),
            spec_consumed(old(self).backing(), 0, None, consumer, r),
    ;

    /// Hands the file from `offset` to its end to `consumer`.
    fn consume_from<F, T>(&mut self, offset: u64, consumer: F) -> (r: MementoResult<T>) where
        F: Fn(&[u8]) -> MementoResult<T>,

        requires
            forall|s: &[u8]| call_requires(consumer, (s,)),
        ensures
            final(self).backing() == old(self).backing(),
            spec_consumed(old(self).backing(), offset, None, consumer, r),
    ;

    /// Hands exactly the `len` bytes at `offset` to `consumer`.
    fn consume<F, T>(&mut self, offset: u64, len: u64, consumer: F) -> (r: MementoResult<T>) where
        F: Fn(&[u8]) -> MementoResult<T>,

        requires
            forall|s: &[u8]| s@.len() == len ==> call_requires(consumer, (s,)),
        ensures
            final(self).backing() == old(self).backing(),
            spec_consumed(old(self).backing(), offset, Some(len), consumer, r),
    ;
}

/// A reader over bytes that are already in memory, typically a memory-mapped
/// file. Slicing costs nothing; a request out of bounds is an error.
#[derive(Debug)]
pub struct SliceReaderMapped<'a> {
    map: &'a [u8],
}

impl<'a> View for SliceReaderMapped<'a> {
    type V = Seq<u8>;

    closed spec fn view(&self) -> Seq<u8> {
        self.map@
    }
}

impl<'a> SliceReaderMapped<'a> {
    pub fn new(map: &'a [u8]) -> (reader: Self)
        ensures
            reader@ == map@,
    {
        SliceReaderMapped { map }
    }

    fn read_range<F, T>(&mut self, offset: u64, len: Option<u64>, consumer: F) -> (r: MementoResult<
        T,
    >) where F: Fn(&[u8]) -> MementoResult<T>
        requires
            forall|s: &[u8]|
                (len matches Some(n) ==> s@.len() == n) ==> call_requires(consumer, (s,)),
        ensures
            final(self)@ == old(self)@,
            match spec_window(old(self)@.len(), offset, len) {
                Some((start, end)) => consumer_gave(consumer, old(self)@.subrange(start, end), r),
                None => is_io_error(r) && r->Err_0.description == spec_out_of_bounds(
                    old(self)@.len(),
                    offset,
                ),
            },
    {
        let max = self.map.len();
        if offset > max as u64 {
            return Err(MementoError::new(ErrorKind::IoError, "read range start too large"));
        }
        let start = offset as usize;
        let end = match len {
            Some(n) => {
                if n > (max - start) as u64 {
                    return Err(MementoError::new(ErrorKind::IoError, "read range end too large"));
                }
                start + n as usize
            },
            None => max,
        };
        let slice = vstd::slice::slice_subrange(self.map, start, end);
        let r = consumer(slice);
        assert(call_ensures(consumer, (slice,), r));
        r
    }
}

impl<'a> SliceReader for SliceReaderMapped<'a> {
    open spec fn backing(&self) -> Option<Seq<u8>> {
        Some(self@)
    }

    fn consume_all<F, T>(&mut self, consumer: F) -> (r: MementoResult<T>) where
        F: Fn(&[u8]) -> MementoResult<T>,
     {
        self.read_range(0, None, consumer)
    }

    fn consume_from<F, T>(&mut self, offset: u64, consumer: F) -> (r: MementoResult<T>) where
        F: Fn(&[u8]) -> MementoResult<T>,
     {
        self.read_range(offset, None, consumer)
    }

    fn consume<F, T>(&mut self, offset: u64, len: u64, consumer: F) -> (r: MementoResult<T>) where
        F: Fn(&[u8]) -> MementoResult<T>,
     {
        self.read_range(offset, Some(len), consumer)
    }
}

/// Whether a read that gave `bytes_read` bytes answers a request for `len`
/// bytes (or, without `len`, for everything up to the end).
pub open spec fn spec_read_is_complete(bytes_read: usize, len: Option<u64>) -> bool {
    bytes_read > 0 && (len matches Some(n) ==> bytes_read >= n)
}

/// Judges what a read gave. Nothing read means the position was at or past
/// the end of the source; fewer bytes than asked for means the source ends
/// inside the requested range. Both are failures.
pub fn check_read(bytes_read: usize, len: Option<u64>) -> (r: MementoResult<()>)
    ensures
        r is Ok <==> spec_read_is_complete(bytes_read, len),
        r matches Err(e) ==> e.kind == ErrorKind::IoError,
        r matches Err(e) ==> e.description == (if bytes_read == 0 {
            "no bytes to read"
        } else {
            "short read"
        }),
{
    if bytes_read == 0 {
        return Err(MementoError::new(ErrorKind::IoError, "no bytes to read"));
    }
    if let Some(n) = len {
        if (bytes_read as u64) < n {
            return Err(MementoError::new(ErrorKind::IoError, "short read"));
        }
    }
    Ok(())
}

/// A reader that seeks and reads its source on every request, through a
/// buffer that it keeps between requests. The position of the source is left
/// where the read ended.
pub struct SliceReaderDirect<R: SeekRead> {
    buffer: Vec<u8>,
    reader: R,
}

impl<R: SeekRead> SliceReaderDirect<R> {
    /// A reader that seeks and reads `reader`. Its buffer starts out empty,
    /// with room for a typical header.
    pub fn new(reader: R) -> (direct: Self)
        ensures
            direct.source() == reader,
            direct.buffered() == Seq::<u8>::empty(),
    {
        SliceReaderDirect { buffer: Vec::with_capacity(DEFAULT_DIRECT_IO_BUFFER), reader }
    }

    /// The source that this reader seeks and reads.
    pub closed spec fn source(&self) -> R {
        self.reader
    }

    /// The bytes that the buffer holds: those of the last read, or none
    /// before the first.
    pub closed spec fn buffered(&self) -> Seq<u8> {
        self.buffer@
    }

    fn read_range<F, T>(&mut self, offset: u64, len: Option<u64>, consumer: F) -> (r: MementoResult<
        T,
    >) where F: Fn(&[u8]) -> MementoResult<T>
        requires
            forall|s: &[u8]|
                (len matches Some(n) ==> s@.len() == n) ==> call_requires(consumer, (s,)),
        ensures
            spec_consumed(None, offset, len, consumer, r),
    {
        // Whether the position lies past the end cannot be told from the
        // seek itself; it shows in the read that follows.
        match self.reader.seek_to(offset) {
            Ok(_) => {},
            Err(e) => {
                return Err(MementoError::new(ErrorKind::IoError, e.description()));
            },
        }
        self.buffer.clear();
        match self.reader.read_into(len, &mut self.buffer) {
            Ok(()) => {},
            Err(e) => {
                return Err(MementoError::new(ErrorKind::IoError, e.description()));
            },
        }
        // A source that gave more than it was asked for is cut down to the
        // request.
        if let Some(n) = len {
            if n < self.buffer.len() as u64 {
                self.buffer.truncate(n as usize);
            }
        }
        // The buffer was empty, so what it holds now is what was read.
        let bytes_read = self.buffer.len();
        match check_read(bytes_read, len) {
            Ok(()) => {},
            Err(e) => {
                return Err(e);
            },
        }
        let slice = self.buffer.as_slice();
        let r = consumer(slice);
        assert(consumer_gave(consumer, slice@, r));
        r
    }
}

impl<R: SeekRead> SliceReader for SliceReaderDirect<R> {
    open spec fn backing(&self) -> Option<Seq<u8>> {
        None
    }

    fn consume_all<F, T>(&mut self, consumer: F) -> (r: MementoResult<T>) where
        F: Fn(&[u8]) -> MementoResult<T>,
     {
        self.read_range(0, None, consumer)
    }

    fn consume_from<F, T>(&mut self, offset: u64, consumer: F) -> (r: MementoResult<T>) where
        F: Fn(&[u8]) -> MementoResult<T>,
     {
        self.read_range(offset, None, consumer)
    }

    fn consume<F, T>(&mut self, offset: u64, len: u64, consumer: F) -> (r: MementoResult<T>) where
        F: Fn(&[u8]) -> MementoResult<T>,
     {
        self.read_range(offset, Some(len), consumer)
    }
}

} // verus!

//! Framing of newline-terminated messages on a byte stream.
use vstd::prelude::*;

verus! {

/// Why the bytes read for one message are not one bounded line.
#[derive(Debug, Clone, Copy, PartialEq, Eq, Structural)]
pub enum LineError {
    /// Nothing was read: the stream is closed.
    Closed,
    /// More than the limit was read without reaching a line break.
    TooLong,
    /// The stream ended before a line break.
    Unterminated,
}

/// The line framed by the bytes read for one message (the bytes up to and
/// including the first line break, reading at most one byte past the
/// limit): the line without its `\n` terminator or a `\r` before it.
pub open spec fn line_frame(read: Seq<u8>, max_bytes: nat) -> Result<Seq<u8>, LineError> {
    if read.len() == 0 {
        Err(LineError::Closed)
    } else if read.len() > max_bytes {
        Err(LineError::TooLong)
    } else if read.last() != 10 {
        Err(LineError::Unterminated)
    } else if read.len() >= 2 && read[read.len() - 2] == 13 {
        Ok(read.take(read.len() - 2))
    } else {
        Ok(read.drop_last())
    }
}

/// Frame the bytes read for one message as a line of at most `max_bytes`
/// bytes, terminator included.
pub fn frame_line(read: Vec<u8>, max_bytes: usize) -> (r: Result<Vec<u8>, LineError>)
    ensures
        match r {
            Ok(line) => line_frame(read@, max_bytes as nat) == Ok::<Seq<u8>, LineError>(line@),
            Err(e) => line_frame(read@, max_bytes as nat) == Err::<Seq<u8>, LineError>(e),
        },
{
    let n = read.len();
    if n == 0 {
        return Err(LineError::Closed);
    }
    if n > max_bytes {
        return Err(LineError::TooLong);
    }
    if read[n - 1] != 10u8 {
        return Err(LineError::Unterminated);
    }
    let mut line = read;
    line.pop();
    if n >= 2 && line[n - 2] == 13u8 {
        line.pop();
        assert(line@ =~= read@.take(n - 2));
    } else {
        assert(line@ =~= read@.drop_last());
    }
    Ok(line)
}

} // verus!

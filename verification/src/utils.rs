//! Seek arithmetic: computes an absolute position from a start-, end- or
//! current-relative offset and a known length.

use vstd::prelude::*;

verus! {

/// A seek target relative to the start, the end, or the current position of
/// a stream.
#[derive(Debug, Clone, Copy, PartialEq, Eq)]
pub enum SeekFrom {
    Start(u64),
    End(i64),
    Current(i64),
}

/// The failure of seek arithmetic: the computed position would be negative.
#[derive(Debug, Clone, Copy, PartialEq, Eq)]
pub enum SeekError {
    InputUnderflow,
}

impl SeekFrom {
    /// The absolute position this target denotes for a stream of length
    /// `len` whose cursor is at `cur`, or nothing when it would be negative.
    pub open spec fn eval_spec(&self, cur: u64, len: u64) -> Option<int> {
        match *self {
            SeekFrom::Start(x) => Some(x as int),
            SeekFrom::End(x) => if len + x < 0 {
                None
            } else {
                Some(len + x)
            },
            SeekFrom::Current(x) => if cur + x < 0 {
                None
            } else {
                Some(cur + x)
            },
        }
    }

    /// Resolves this target against cursor `cur` and length `len`, failing
    /// with an input-underflow condition exactly when the computed position
    /// would be negative.
    pub fn eval(self, cur: u64, len: u64) -> (r: Result<u64, SeekError>)
        requires
            (match self {
                SeekFrom::End(x) => x > 0 ==> len + x <= u64::MAX,
                _ => true,
            }),
            (match self {
                SeekFrom::Current(x) => x > 0 ==> cur + x <= u64::MAX,
                _ => true,
            }),
        ensures
            (match (r, self.eval_spec(cur, len)) {
                (Ok(v), Some(p)) => v == p,
                (Err(e), Option::None) => e == SeekError::InputUnderflow,
                _ => false,
            }),
    {
        match self {
            SeekFrom::Start(x) => Ok(x),
            SeekFrom::End(x) => {
                if x >= 0 {
                    Ok(len + (x as u64))
                } else {
                    let mag = (-(x + 1)) as u64 + 1;
                    if len >= mag {
                        Ok(len - mag)
                    } else {
                        Err(SeekError::InputUnderflow)
                    }
                }
            },
            SeekFrom::Current(x) => {
                if x >= 0 {
                    Ok(cur + (x as u64))
                } else {
                    let mag = (-(x + 1)) as u64 + 1;
                    if cur >= mag {
                        Ok(cur - mag)
                    } else {
                        Err(SeekError::InputUnderflow)
                    }
                }
            },
        }
    }
}

} // verus!

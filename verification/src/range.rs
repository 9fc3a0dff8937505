//! The range of block heights that a scan of the chain covers.
use vstd::prelude::*;
use crate::text::{decimal, u64_to_decimal};

verus! {

/// Why a height range was refused.
#[derive(Debug, Clone, Copy, PartialEq, Eq)]
pub enum RangeError {
    /// `--start value must be lower than --end value`
    StartNotBelowEnd,
}

/// Heights from `start`, up to `end` when it is given, else up to the tip.
#[derive(Clone, Copy)]
pub struct BlockHeightRange {
    pub start: u64,
    pub end: Option<u64>,
}

impl BlockHeightRange {
    /// A range from `start` to `end`; refused when `end` is given and not above `start`.
    pub fn new(start: u64, end: Option<u64>) -> (res: Result<BlockHeightRange, RangeError>)
        ensures
            match end {
                Some(e) if start >= e => res == Err::<BlockHeightRange, RangeError>(
                    RangeError::StartNotBelowEnd,
                ),
                _ => res matches Ok(r) && r.start == start && r.end == end,
            },
    {
        match end {
            Some(e) if start >= e => Err(RangeError::StartNotBelowEnd),
            _ => Ok(BlockHeightRange { start, end }),
        }
    }

    /// The text of the range: `start..end`, with `HEAD` for an open end.
    pub fn to_text(&self) -> (r: String)
        ensures
            r@ == decimal(self.start as nat) + ".."@ + match self.end {
                Some(e) => decimal(e as nat),
                None => "HEAD"@,
            },
    {
        let mut out = u64_to_decimal(self.start);
        out.append("..");
        match self.end {
            Some(e) => {
                let t = u64_to_decimal(e);
                out.append(t.as_str());
            },
            None => {
                out.append("HEAD");
            },
        }
        out
    }

    /// The lowest height a scan keeps: one below `start`, so that the block
    /// before the first one is known too.
    pub open spec fn low(&self) -> int {
        if self.start == 0 { 0 } else { self.start - 1 }
    }

    /// The highest height a scan keeps.
    pub open spec fn high(&self) -> int {
        match self.end {
            Some(e) => e as int,
            None => u64::MAX as int,
        }
    }
}

} // verus!

//! How much compaction the engines are behind with.

use vstd::prelude::*;

verus! {

/// What was read of a column family: how many bytes wait for compaction, and how many of them
/// are tolerated; either may have failed to be read.
#[derive(Clone, Copy, Debug, PartialEq, Eq, Structural)]
pub struct CfSample {
    pub pending: Option<u64>,
    pub soft_limit: Option<u64>,
}

/// The larger of two numbers.
pub open spec fn larger(a: u32, b: u32) -> u32 {
    if a < b {
        b
    } else {
        a
    }
}

/// How many hundredths of what is tolerated wait for compaction, in the low 32 bits; 0 where
/// that is not known or nothing is tolerated.
pub open spec fn hundredths(s: CfSample) -> u32 {
    match (s.pending, s.soft_limit) {
        (Some(b), Some(limit)) => if limit > 0 {
            (b * EnginesResourceInfo::spec_scale() / (limit as int)) as u32
        } else {
            0
        },
        _ => 0,
    }
}

/// The multiplication by the scale stays in range.
pub open spec fn sample_fits(s: CfSample) -> bool {
    s.pending is Some && s.soft_limit is Some && s.soft_limit->0 > 0 ==> s.pending->0
        * EnginesResourceInfo::spec_scale() <= u64::MAX
}

/// How far the engines are behind.
#[derive(Clone, Copy, Debug, PartialEq, Eq, Structural)]
pub struct EnginesResourceInfo {
    /// Whether raft has an engine of its own.
    pub raft_engine: bool,
    pub latest_normalized_pending_bytes: u32,
}

impl EnginesResourceInfo {
    pub open spec fn spec_scale() -> int {
        100
    }

    pub fn new(raft_engine: bool) -> (r: Self)
        ensures
            r == (EnginesResourceInfo { raft_engine, latest_normalized_pending_bytes: 0 }),
    {
        EnginesResourceInfo { raft_engine, latest_normalized_pending_bytes: 0 }
    }

    /// Takes a column family into account.
    fn fetch_engine_cf(sample: &CfSample, normalized_pending_bytes: u32) -> (r: u32)
        requires
            sample_fits(*sample),
        ensures
            r == larger(normalized_pending_bytes, hundredths(*sample)),
    {
        if let Some(limit) = sample.soft_limit {
            if let Some(b) = sample.pending {
                if limit > 0 {
                    let scaled: u64 = b * 100;
                    let n: u32 = #[verifier::truncate] ((scaled / limit) as u32);
                    if normalized_pending_bytes < n {
                        return n;
                    }
                }
            }
        }
        normalized_pending_bytes
    }

    /// How far the column family that is furthest behind is behind, in hundredths of what is
    /// tolerated. The raft engine counts where raft has one of its own.
    pub fn normalized_pending_bytes(
        &self,
        raft: &CfSample,
        default: &CfSample,
        write: &CfSample,
        lock: &CfSample,
    ) -> (r: u32)
        requires
            self.raft_engine ==> sample_fits(*raft),
            sample_fits(*default),
            sample_fits(*write),
            sample_fits(*lock),
        ensures
            ({
                let first = if self.raft_engine {
                    hundredths(*raft)
                } else {
                    0
                };
                r == larger(
                    larger(larger(first, hundredths(*default)), hundredths(*write)),
                    hundredths(*lock),
                )
            }),
    {
        let mut n: u32 = 0;
        if self.raft_engine {
            n = EnginesResourceInfo::fetch_engine_cf(raft, n);
        }
        n = EnginesResourceInfo::fetch_engine_cf(default, n);
        n = EnginesResourceInfo::fetch_engine_cf(write, n);
        EnginesResourceInfo::fetch_engine_cf(lock, n)
    }

    /// Remembers how far the engines are behind: the latest value, or the average with earlier
    /// ones where that is larger.
    pub fn update(&mut self, normalized_pending_bytes: u32, avg: u32)
        ensures
            *final(self) == (EnginesResourceInfo {
                latest_normalized_pending_bytes: larger(normalized_pending_bytes, avg),
                ..*old(self)
            }),
    {
        self.latest_normalized_pending_bytes = if normalized_pending_bytes < avg {
            avg
        } else {
            normalized_pending_bytes
        };
    }
}

} // verus!

//! Running totals over the records of one or more buffers.

use vstd::prelude::*;

verus! {

/// The number of histogram buckets: one for each of the six template codes
/// and one for raw scripts.
pub const BUCKETS: usize = 7;

/// The bucket of scripts that were stored raw.
pub const RAW_BUCKET: usize = 6;

/// Totals as mathematical integers: what [`Stats`] holds, without the
/// limits of its machine words.
pub ghost struct Totals {
    /// The number of records.
    pub count: nat,
    /// The number of records by script bucket.
    pub histogram: Seq<nat>,
    /// The sum of the records' amounts, in satoshis.
    pub value: nat,
    /// The sum of the lengths of the records' scripts, in bytes.
    pub scripts: nat,
}

impl Totals {
    /// The totals after one more record, with its script counted in
    /// `bucket`.
    pub open spec fn record(self, bucket: int, amount: nat, script_len: nat) -> Totals {
        Totals {
            count: self.count + 1,
            histogram: self.histogram.update(bucket, self.histogram[bucket] + 1),
            value: self.value + amount,
            scripts: self.scripts + script_len,
        }
    }

    /// The totals after one more record whose script belongs to no bucket.
    pub open spec fn record_plain(self, amount: nat, script_len: nat) -> Totals {
        Totals {
            count: self.count + 1,
            histogram: self.histogram,
            value: self.value + amount,
            scripts: self.scripts + script_len,
        }
    }

    /// Whether every counter can take in what `bytes` bytes of input may
    /// hold: at most `bytes` records, each worth at most `u64::MAX` satoshis,
    /// with scripts of at most `2 * bytes` bytes in all.
    pub open spec fn can_absorb(self, bytes: nat) -> bool {
        &&& self.histogram.len() == BUCKETS
        &&& self.count + bytes <= u64::MAX
        &&& forall|i: int| 0 <= i < BUCKETS ==> #[trigger] self.histogram[i] + bytes <= u64::MAX
        &&& self.value + bytes * u64::MAX <= u128::MAX
        &&& self.scripts + 2 * bytes <= u64::MAX
    }
}

/// Totals over the records decoded so far. The caller owns them, and resets
/// them when a new run of buffers begins.
#[derive(Debug, Clone, Copy, PartialEq, Eq)]
pub struct Stats {
    /// The number of records.
    pub count: u64,
    /// The number of records by script bucket: template codes 0 to 5, then
    /// raw scripts.
    pub histogram: [u64; 7],
    /// The sum of the records' amounts, in satoshis.
    pub value: u128,
    /// The sum of the lengths of the records' scripts, in bytes.
    pub scripts: u64,
}

impl View for Stats {
    type V = Totals;

    open spec fn view(&self) -> Totals {
        Totals {
            count: self.count as nat,
            histogram: Seq::new(BUCKETS as nat, |i: int| self.histogram[i] as nat),
            value: self.value as nat,
            scripts: self.scripts as nat,
        }
    }
}

impl Stats {
    /// Totals of nothing: every counter is zero.
    pub fn new() -> (stats: Stats)
        ensures
            stats.count == 0,
            stats.value == 0,
            stats.scripts == 0,
            forall|i: int| 0 <= i < BUCKETS ==> stats.histogram[i] == 0,
    {
        Stats { count: 0, histogram: [0; 7], value: 0, scripts: 0 }
    }

    /// Whether the totals can take in every record that `bytes` bytes of
    /// input may hold without a counter running over.
    pub fn can_absorb(&self, bytes: usize) -> (fits: bool)
        ensures
            fits == self@.can_absorb(bytes as nat),
    {
        let n = bytes as u64;
        if n > u64::MAX / 2 {
            return false;
        }
        let mut i: usize = 0;
        while i < BUCKETS
            invariant
                i <= BUCKETS,
                n == bytes,
                forall|k: int| 0 <= k < i ==> #[trigger] self@.histogram[k] + bytes <= u64::MAX,
            decreases BUCKETS - i,
        {
            if self.histogram[i] > u64::MAX - n {
                assert(self@.histogram[i as int] + bytes > u64::MAX);
                return false;
            }
            i = i + 1;
        }
        self.count <= u64::MAX - n && self.scripts <= u64::MAX - 2 * n && self.value <= u128::MAX
            - (n as u128) * (u64::MAX as u128)
    }

    /// Takes in one record, with its script counted in `bucket`.
    pub fn record(&mut self, bucket: usize, amount: u64, script_len: usize)
        requires
            bucket < BUCKETS,
            old(self).count < u64::MAX,
            old(self).histogram[bucket as int] < u64::MAX,
            old(self).value + amount <= u128::MAX,
            old(self).scripts + script_len <= u64::MAX,
        ensures
            final(self)@ == old(self)@.record(bucket as int, amount as nat, script_len as nat),
    {
        self.count = self.count + 1;
        self.histogram[bucket] = self.histogram[bucket] + 1;
        self.value = self.value + amount as u128;
        self.scripts = self.scripts + script_len as u64;
        assert(self@.histogram =~= old(self)@.histogram.update(
            bucket as int,
            old(self)@.histogram[bucket as int] + 1,
        ));
    }

    /// Takes in one record whose script belongs to no bucket.
    pub fn record_plain(&mut self, amount: u64, script_len: usize)
        requires
            old(self).count < u64::MAX,
            old(self).value + amount <= u128::MAX,
            old(self).scripts + script_len <= u64::MAX,
        ensures
            final(self)@ == old(self)@.record_plain(amount as nat, script_len as nat),
    {
        self.count = self.count + 1;
        self.value = self.value + amount as u128;
        self.scripts = self.scripts + script_len as u64;
    }
}

impl Default for Stats {
    fn default() -> (stats: Stats)
        ensures
            stats.count == 0,
            stats.value == 0,
            stats.scripts == 0,
            forall|i: int| 0 <= i < BUCKETS ==> stats.histogram[i] == 0,
    {
        Stats::new()
    }
}

} // verus!

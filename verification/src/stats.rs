use vstd::prelude::*;

verus! {

/// A report is emitted when more than this many seconds have passed since
/// the previous one.
pub const REPORT_WINDOW_SECS: u64 = 5;

/// Which inter-arrival histogram bucket a gap of `gap_usec` microseconds
/// falls in: 0..=10, 11..=100, 101..=1000, 1001..=5000, 5001..=10000,
/// 10001..=15000, and everything above.
pub open spec fn bucket_of(gap_usec: u64) -> int {
    if gap_usec <= 10 {
        0
    } else if gap_usec <= 100 {
        1
    } else if gap_usec <= 1000 {
        2
    } else if gap_usec <= 5000 {
        3
    } else if gap_usec <= 10000 {
        4
    } else if gap_usec <= 15000 {
        5
    } else {
        6
    }
}

/// Throughput counters and the inter-arrival latency histogram. Cumulative
/// totals persist for the process lifetime; windowed counters are reset by
/// each report.
pub struct Stats {
    pub total_packets: u64,
    pub total_bytes: u64,
    pub window_packets: u64,
    pub window_bytes: u64,
    pub bucket_10: u64,
    pub bucket_100: u64,
    pub bucket_1000: u64,
    pub bucket_5000: u64,
    pub bucket_10000: u64,
    pub bucket_15000: u64,
    pub bucket_rest: u64,
}

/// The `i`-th histogram bucket of `s`, in ascending gap order.
pub open spec fn bucket_count(s: Stats, i: int) -> u64 {
    if i == 0 {
        s.bucket_10
    } else if i == 1 {
        s.bucket_100
    } else if i == 2 {
        s.bucket_1000
    } else if i == 3 {
        s.bucket_5000
    } else if i == 4 {
        s.bucket_10000
    } else if i == 5 {
        s.bucket_15000
    } else {
        s.bucket_rest
    }
}

/// One periodic emission: the windowed counters at the moment the report
/// was taken, and the packet rate over the elapsed window.
pub struct StatsReport {
    /// Whole packets per second over the window.
    pub packets_per_sec: u128,
    pub window_packets: u64,
    pub window_bytes: u64,
    pub bucket_10: u64,
    pub bucket_100: u64,
    pub bucket_1000: u64,
    pub bucket_5000: u64,
    pub bucket_10000: u64,
    pub bucket_15000: u64,
    pub bucket_rest: u64,
}

impl Stats {
    /// Fresh counters, all zero.
    pub fn new() -> (s: Stats)
        ensures
            s.total_packets == 0,
            s.total_bytes == 0,
            s.window_packets == 0,
            s.window_bytes == 0,
            forall|i: int| 0 <= i < 7 ==> bucket_count(s, i) == 0,
    {
        Stats {
            total_packets: 0,
            total_bytes: 0,
            window_packets: 0,
            window_bytes: 0,
            bucket_10: 0,
            bucket_100: 0,
            bucket_1000: 0,
            bucket_5000: 0,
            bucket_10000: 0,
            bucket_15000: 0,
            bucket_rest: 0,
        }
    }

    /// Record one ingested packet of `size` bytes whose gap since the
    /// previous ingested packet was `gap_usec` microseconds: cumulative and
    /// windowed counters grow, and exactly the gap's bucket is bumped.
    pub fn log_packet(&mut self, size: u64, gap_usec: u64)
        requires
            old(self).total_packets < u64::MAX,
            old(self).window_packets < u64::MAX,
            old(self).total_bytes + size <= u64::MAX,
            old(self).window_bytes + size <= u64::MAX,
            bucket_count(*old(self), bucket_of(gap_usec)) < u64::MAX,
        ensures
            final(self).total_packets == old(self).total_packets + 1,
            final(self).total_bytes == old(self).total_bytes + size,
            final(self).window_packets == old(self).window_packets + 1,
            final(self).window_bytes == old(self).window_bytes + size,
            bucket_count(*final(self), bucket_of(gap_usec)) == bucket_count(
                *old(self),
                bucket_of(gap_usec),
            ) + 1,
            forall|i: int|
                0 <= i < 7 && i != bucket_of(gap_usec) ==> bucket_count(*final(self), i)
                    == bucket_count(*old(self), i),
    {
        self.total_packets = self.total_packets + 1;
        self.total_bytes = self.total_bytes + size;
        self.window_packets = self.window_packets + 1;
        self.window_bytes = self.window_bytes + size;
        if gap_usec <= 10 {
            self.bucket_10 = self.bucket_10 + 1;
        } else if gap_usec <= 100 {
            self.bucket_100 = self.bucket_100 + 1;
        } else if gap_usec <= 1000 {
            self.bucket_1000 = self.bucket_1000 + 1;
        } else if gap_usec <= 5000 {
            self.bucket_5000 = self.bucket_5000 + 1;
        } else if gap_usec <= 10000 {
            self.bucket_10000 = self.bucket_10000 + 1;
        } else if gap_usec <= 15000 {
            self.bucket_15000 = self.bucket_15000 + 1;
        } else {
            self.bucket_rest = self.bucket_rest + 1;
        }
    }

    /// Whether the periodic report is due, `secs_since_report` seconds
    /// after the previous report was taken.
    pub fn report_due(&self, secs_since_report: u64) -> (due: bool)
        ensures
            due == (secs_since_report > REPORT_WINDOW_SECS),
    {
        secs_since_report > REPORT_WINDOW_SECS
    }

    /// Take the periodic report over a window of `elapsed_usec`
    /// microseconds: hand out the windowed counters and the packet rate,
    /// then reset only the windowed counters; cumulative totals persist.
    pub fn take_report(&mut self, elapsed_usec: u64) -> (r: StatsReport)
        requires
            elapsed_usec > 0,
        ensures
            r.packets_per_sec == old(self).window_packets * 1000000 / elapsed_usec as int,
            r.window_packets == old(self).window_packets,
            r.window_bytes == old(self).window_bytes,
            r.bucket_10 == old(self).bucket_10,
            r.bucket_100 == old(self).bucket_100,
            r.bucket_1000 == old(self).bucket_1000,
            r.bucket_5000 == old(self).bucket_5000,
            r.bucket_10000 == old(self).bucket_10000,
            r.bucket_15000 == old(self).bucket_15000,
            r.bucket_rest == old(self).bucket_rest,
            final(self).total_packets == old(self).total_packets,
            final(self).total_bytes == old(self).total_bytes,
            final(self).window_packets == 0,
            final(self).window_bytes == 0,
            forall|i: int| 0 <= i < 7 ==> bucket_count(*final(self), i) == 0,
    {
        let rate: u128 = (self.window_packets as u128) * 1000000 / (elapsed_usec as u128);
        let r = StatsReport {
            packets_per_sec: rate,
            window_packets: self.window_packets,
            window_bytes: self.window_bytes,
            bucket_10: self.bucket_10,
            bucket_100: self.bucket_100,
            bucket_1000: self.bucket_1000,
            bucket_5000: self.bucket_5000,
            bucket_10000: self.bucket_10000,
            bucket_15000: self.bucket_15000,
            bucket_rest: self.bucket_rest,
        };
        self.window_packets = 0;
        self.window_bytes = 0;
        self.bucket_10 = 0;
        self.bucket_100 = 0;
        self.bucket_1000 = 0;
        self.bucket_5000 = 0;
        self.bucket_10000 = 0;
        self.bucket_15000 = 0;
        self.bucket_rest = 0;
        r
    }
}

} // verus!

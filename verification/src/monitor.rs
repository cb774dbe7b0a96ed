//! The load-sampling task's decision: watch a stream of load samples against
//! a fixed threshold and raise an alert exactly when a sample crosses the
//! threshold from below — not again while the load stays high.

use vstd::prelude::*;

verus! {

/// Does this sample cross the threshold, given the one before it?
pub open spec fn crosses(last: Option<u64>, threshold: u64, sample: u64) -> bool {
    sample >= threshold && match last {
        None => true,
        Some(prev) => prev < threshold,
    }
}

/// A threshold watcher over a stream of load samples.
pub struct LoadMonitor {
    threshold: u64,
    last_sample: Option<u64>,
    alerts: u64,
}

impl LoadMonitor {
    /// The fixed threshold.
    pub closed spec fn threshold(&self) -> u64 {
        self.threshold
    }

    /// The most recent sample, if any.
    pub closed spec fn last_sample(&self) -> Option<u64> {
        self.last_sample
    }

    /// How many alerts have been raised.
    pub closed spec fn alerts(&self) -> u64 {
        self.alerts
    }

    /// Read the fixed threshold.
    pub fn threshold_value(&self) -> (v: u64)
        ensures
            v == self.threshold(),
    {
        self.threshold
    }

    /// Read how many alerts have been raised.
    pub fn alert_count(&self) -> (n: u64)
        ensures
            n == self.alerts(),
    {
        self.alerts
    }

    /// A fresh monitor: no samples seen, no alerts raised.
    pub fn new(threshold: u64) -> (m: LoadMonitor)
        ensures
            m.threshold() == threshold,
            m.last_sample() is None,
            m.alerts() == 0,
    {
        LoadMonitor { threshold, last_sample: None, alerts: 0 }
    }

    /// Record one sample. The alert comes exactly when the sample reaches
    /// the threshold and the previous one (if any) was below it.
    pub fn observe(&mut self, sample: u64) -> (alert: bool)
        requires
            old(self).alerts() < u64::MAX,
        ensures
            alert == crosses(old(self).last_sample(), old(self).threshold(), sample),
            final(self).threshold() == old(self).threshold(),
            final(self).last_sample() == Some(sample),
            final(self).alerts() == old(self).alerts() + if alert {
                1int
            } else {
                0
            },
    {
        let was_below = match self.last_sample {
            None => true,
            Some(prev) => prev < self.threshold,
        };
        let alert = sample >= self.threshold && was_below;
        if alert {
            self.alerts = self.alerts + 1;
        }
        self.last_sample = Some(sample);
        alert
    }
}

} // verus!

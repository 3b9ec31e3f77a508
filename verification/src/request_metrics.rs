//! The most recent HTTP requests served, for the metrics page.
use crate::persist_history_duration::keep_last;
use core::time::Duration;
use vstd::prelude::*;

verus! {

/// How many requests are kept.
pub const MAX_REQUEST_METRICS: usize = 100;

pub struct RequestMetric {
    /// The moment the request was served, in microseconds since the Unix epoch.
    pub moment: i64,
    pub name: String,
    pub duration: Duration,
    pub status_code: u16,
    pub result_size: usize,
}

impl RequestMetric {
    /// A copy of the record.
    pub fn copy(&self) -> (r: RequestMetric)
        ensures
            r == *self,
    {
        RequestMetric {
            moment: self.moment,
            name: self.name.clone(),
            duration: self.duration,
            status_code: self.status_code,
            result_size: self.result_size,
        }
    }
}

pub struct RequestMetricsData {
    data: Vec<RequestMetric>,
}

impl RequestMetricsData {
    /// The kept requests, oldest first.
    pub closed spec fn view(&self) -> Seq<RequestMetric> {
        self.data@
    }

    pub fn new() -> (r: Self)
        ensures
            r.view() == Seq::<RequestMetric>::empty(),
    {
        Self { data: Vec::new() }
    }

    /// Records a request, keeping the newest `MAX_REQUEST_METRICS`.
    pub fn add_metric(&mut self, metric: RequestMetric)
        ensures
            final(self).view() == keep_last(old(self).view().push(metric), MAX_REQUEST_METRICS as nat),
    {
        self.data.push(metric);
        let ghost pushed = self.data@;
        while self.data.len() > MAX_REQUEST_METRICS
            invariant
                self.data@.len() >= MAX_REQUEST_METRICS ==> self.data@ == pushed.subrange(
                    pushed.len() - self.data@.len(),
                    pushed.len() as int,
                ),
                pushed.len() <= MAX_REQUEST_METRICS ==> self.data@ == pushed,
                pushed.len() > MAX_REQUEST_METRICS ==> self.data@.len() >= MAX_REQUEST_METRICS,
                self.data@.len() <= pushed.len(),
            decreases self.data@.len(),
        {
            self.data.remove(0);
            assert(self.data@ =~= pushed.subrange(pushed.len() - self.data@.len(), pushed.len() as int));
        }
    }

    /// A copy of the kept requests, oldest first.
    pub fn get_metrics(&self) -> (r: Vec<RequestMetric>)
        ensures
            r@ == self.view(),
    {
        let mut result: Vec<RequestMetric> = Vec::with_capacity(self.data.len());
        let mut i: usize = 0;
        while i < self.data.len()
            invariant
                i <= self.data@.len(),
                result@ == self.data@.subrange(0, i as int),
            decreases self.data@.len() - i,
        {
            result.push(self.data[i].copy());
            i = i + 1;
            assert(result@ =~= self.data@.subrange(0, i as int));
        }
        assert(result@ =~= self.data@);
        result
    }
}

} // verus!

use vstd::prelude::*;

verus! {

/// The single-owner batched writer.
///
/// Producers hand finished record lines to the sink; it accumulates them and
/// releases them in full batches, which its owner appends to the output
/// resource. Nothing is ever dropped: at any moment the lines released so
/// far followed by the pending ones are exactly the lines accepted, in
/// acceptance order.
pub struct Sink {
    pending: Vec<String>,
    batch_size: usize,
    accepted: Ghost<Seq<String>>,
    released: Ghost<Seq<String>>,
}

impl Sink {
    /// The sink's accounting invariant.
    pub closed spec fn wf(self) -> bool {
        &&& self.batch_size >= 1
        &&& self.accepted@ == self.released@ + self.pending@
        &&& self.pending@.len() < self.batch_size
    }

    /// All lines ever accepted, in order.
    pub closed spec fn accepted_lines(self) -> Seq<String> {
        self.accepted@
    }

    /// All lines already released in batches, in order.
    pub closed spec fn released_lines(self) -> Seq<String> {
        self.released@
    }

    /// Lines still buffered.
    pub closed spec fn pending_lines(self) -> Seq<String> {
        self.pending@
    }

    /// Batch threshold this sink was built with.
    pub closed spec fn batch(self) -> int {
        self.batch_size as int
    }

    /// A sink that batches `batch_size` lines at a time.
    pub fn new(batch_size: usize) -> (r: Sink)
        requires
            batch_size >= 1,
        ensures
            r.wf(),
            r.accepted_lines() == Seq::<String>::empty(),
            r.released_lines() == Seq::<String>::empty(),
            r.batch() == batch_size,
    {
        let s = Sink {
            pending: Vec::new(),
            batch_size,
            accepted: Ghost(Seq::empty()),
            released: Ghost(Seq::empty()),
        };
        proof {
            assert(s.accepted@ =~= s.released@ + s.pending@);
        }
        s
    }

    /// Accept one line; when it fills the batch, release the whole batch for
    /// writing, oldest line first.
    pub fn accept(&mut self, line: String) -> (batch: Option<Vec<String>>)
        requires
            old(self).wf(),
        ensures
            final(self).wf(),
            final(self).batch() == old(self).batch(),
            final(self).accepted_lines() == old(self).accepted_lines().push(line),
            match batch {
                Some(b) => {
                    &&& b@.len() == old(self).batch()
                    &&& final(self).released_lines() == old(self).released_lines() + b@
                    &&& final(self).pending_lines().len() == 0
                },
                None => {
                    &&& final(self).released_lines() == old(self).released_lines()
                    &&& final(self).pending_lines() == old(self).pending_lines().push(line)
                },
            },
    {
        self.pending.push(line);
        self.accepted = Ghost(self.accepted@.push(line));
        if self.pending.len() == self.batch_size {
            let mut b: Vec<String> = Vec::new();
            core::mem::swap(&mut self.pending, &mut b);
            self.released = Ghost(self.released@ + b@);
            proof {
                assert(self.accepted@ =~= self.released@ + self.pending@);
            }
            Some(b)
        } else {
            proof {
                assert(self.accepted@ =~= self.released@ + self.pending@);
            }
            None
        }
    }

    /// Stream end: release whatever partial batch is left, so that after the
    /// final write every accepted line has been written.
    pub fn drain(self) -> (rest: Vec<String>)
        requires
            self.wf(),
        ensures
            rest@ == self.pending_lines(),
            self.released_lines() + rest@ == self.accepted_lines(),
    {
        let Sink { pending, batch_size, accepted, released } = self;
        pending
    }
}

/// Throughput telemetry: counts written records and says, at every full
/// reporting interval, how many arrived since the previous report.
pub struct Progress {
    pub count: u64,
    pub previous_count: u64,
}

/// How many written records lie between two progress reports.
pub const REPORT_EVERY: u64 = 1000;

impl Progress {
    /// No report outstanding beyond the current interval.
    pub open spec fn wf(self) -> bool {
        self.previous_count <= self.count
    }

    /// Fresh counter.
    pub fn new() -> (r: Progress)
        ensures
            r.wf(),
            r.count == 0,
            r.previous_count == 0,
    {
        Progress { count: 0, previous_count: 0 }
    }

    /// Count one written record. Exactly every `REPORT_EVERY`-th record a
    /// report is due, carrying the number of records since the last one.
    pub fn record_written(&mut self) -> (report: Option<u64>)
        requires
            old(self).wf(),
            old(self).count < u64::MAX,
        ensures
            final(self).wf(),
            final(self).count == old(self).count + 1,
            (report is Some) <==> final(self).count % REPORT_EVERY == 0,
            match report {
                Some(delta) => {
                    &&& delta == final(self).count - old(self).previous_count
                    &&& final(self).previous_count == final(self).count
                },
                None => final(self).previous_count == old(self).previous_count,
            },
    {
        self.count = self.count + 1;
        if self.count % REPORT_EVERY == 0 {
            let delta = self.count - self.previous_count;
            self.previous_count = self.count;
            Some(delta)
        } else {
            None
        }
    }
}

} // verus!

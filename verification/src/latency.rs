//! Frame-latency instrumentation and the log sink behind the capturer's
//! terminal UI.
//!
//! A [`FrameLatencyInfo`] collects named timestamps relative to its start;
//! the [`UI`] keeps a bounded window of them per stream and can name the
//! worst one. Rendering is the terminal's business, outside this crate.

use vstd::prelude::*;
use vstd::string::StringExecFns;

verus! {

/// One named timestamp, in microseconds since the record's start.
pub struct Measurement {
    pub label: String,
    pub micros: u64,
}

/// Latency measurements of one frame (or packet, or loop turn).
pub struct FrameLatencyInfo {
    /// When the record was started, in monotonic microseconds.
    pub start_micros: u64,
    /// Elapsed time at each named point, in the order taken.
    pub measurements: Vec<Measurement>,
}

/// The sum of all measured durations of one record.
pub open spec fn spec_total(m: Seq<Measurement>) -> int
    decreases m.len(),
{
    if m.len() == 0 {
        0
    } else {
        spec_total(m.drop_last()) + m.last().micros
    }
}

pub proof fn lemma_total_bound(m: Seq<Measurement>)
    ensures
        0 <= spec_total(m) <= m.len() * (u64::MAX as int),
    decreases m.len(),
{
    if m.len() > 0 {
        lemma_total_bound(m.drop_last());
    }
}

impl FrameLatencyInfo {
    /// Starts a fresh record at the given monotonic time.
    pub fn new(now_micros: u64) -> (r: FrameLatencyInfo)
        ensures
            r.start_micros == now_micros,
            r.measurements@.len() == 0,
    {
        FrameLatencyInfo { start_micros: now_micros, measurements: Vec::new() }
    }

    /// Notes how long after the start the named point was reached.
    pub fn measure(&mut self, label: String, now_micros: u64)
        requires
            now_micros >= old(self).start_micros,
        ensures
            final(self).start_micros == old(self).start_micros,
            final(self).measurements@.len() == old(self).measurements@.len() + 1,
            final(self).measurements@.last().label@ == label@,
            final(self).measurements@.last().micros == now_micros - old(self).start_micros,
            final(self).measurements@.drop_last() == old(self).measurements@,
    {
        let m = Measurement { label, micros: now_micros - self.start_micros };
        self.measurements.push(m);
        proof {
            assert(final(self).measurements@.drop_last() =~= old(self).measurements@);
        }
    }

    /// The sum of all measured durations.
    pub fn total(&self) -> (r: u128)
        ensures
            r == spec_total(self.measurements@),
    {
        let mut sum: u128 = 0;
        let mut i: usize = 0;
        proof {
            assert(self.measurements@.subrange(0, 0) =~= Seq::<Measurement>::empty());
        }
        while i < self.measurements.len()
            invariant
                i <= self.measurements@.len(),
                sum == spec_total(self.measurements@.subrange(0, i as int)),
                sum <= i * (u64::MAX as int),
            decreases self.measurements@.len() - i,
        {
            proof {
                assert(self.measurements@.subrange(0, i + 1).drop_last() =~= self.measurements@.subrange(
                    0,
                    i as int,
                ));
                assert(self.measurements@.subrange(0, i + 1).last() == self.measurements@[i as int]);
            }
            sum = sum + self.measurements[i].micros as u128;
            i = i + 1;
        }
        proof {
            assert(self.measurements@.subrange(0, self.measurements@.len() as int)
                =~= self.measurements@);
        }
        sum
    }
}

/// Relies on str's PartialEq: two string slices are equal exactly when
/// their characters are.
#[verifier::external_body]
fn str_eq(a: &str, b: &str) -> (r: bool)
    ensures
        r == (a@ == b@),
{
    a == b
}

/// The bounded window of latency records kept per stream.
pub const INFO_WINDOW: usize = 400;

/// The records of one instrumented stream, oldest first.
pub struct StreamInfo {
    pub name: String,
    pub entries: Vec<FrameLatencyInfo>,
}

/// The instrumentation state behind the capturer's terminal UI: a bounded
/// window of latency records per stream, and the accumulated log text.
pub struct UI {
    pub infos: Vec<StreamInfo>,
    pub log: String,
}

pub open spec fn stream_named(s: Seq<StreamInfo>, name: Seq<char>) -> bool {
    exists|i: int| 0 <= i < s.len() && (#[trigger] s[i].name@) == name
}

impl UI {
    pub open spec fn wf(self) -> bool {
        forall|i: int, j: int|
            0 <= i < j < self.infos@.len() ==> (#[trigger] self.infos@[i].name@) != (
            #[trigger] self.infos@[j].name@)
    }

    /// An instrumentation state tracking the given streams, with no records
    /// and an empty log.
    pub fn new(stream_names: Vec<String>) -> (r: UI)
        requires
            forall|i: int, j: int|
                0 <= i < j < stream_names@.len() ==> (#[trigger] stream_names@[i]@) != (
                #[trigger] stream_names@[j]@),
        ensures
            r.wf(),
            r.infos@.len() == stream_names@.len(),
            forall|i: int|
                0 <= i < r.infos@.len() ==> (#[trigger] r.infos@[i].name@) == stream_names@[i]@
                    && r.infos@[i].entries@.len() == 0,
            r.log@.len() == 0,
    {
        let mut infos: Vec<StreamInfo> = Vec::new();
        let mut i: usize = 0;
        let n = stream_names.len();
        let mut names = stream_names;
        let ghost orig = names@;
        while i < n
            invariant
                i <= n,
                n == orig.len(),
                names@ == orig.skip(i as int),
                infos@.len() == i,
                forall|k: int|
                    0 <= k < i ==> (#[trigger] infos@[k].name@) == orig[k]@ && infos@[k].entries@.len()
                        == 0,
            decreases n - i,
        {
            let name = names.remove(0);
            proof {
                assert(orig.skip(i as int).remove(0) =~= orig.skip(i + 1));
                assert(orig.skip(i as int)[0] == orig[i as int]);
            }
            infos.push(StreamInfo { name, entries: Vec::new() });
            i = i + 1;
        }
        UI { infos, log: String::new() }
    }

    fn find_stream(&self, stream: &str) -> (r: Option<usize>)
        ensures
            match r {
                Some(i) => i < self.infos@.len() && self.infos@[i as int].name@ == stream@,
                None => !stream_named(self.infos@, stream@),
            },
    {
        let mut i: usize = 0;
        while i < self.infos.len()
            invariant
                i <= self.infos@.len(),
                forall|k: int| 0 <= k < i ==> (#[trigger] self.infos@[k].name@) != stream@,
            decreases self.infos@.len() - i,
        {
            if str_eq(self.infos[i].name.as_str(), stream) {
                return Some(i);
            }
            i = i + 1;
        }
        None
    }

    /// Appends one latency record to the named stream's window; when the
    /// window overflows [`INFO_WINDOW`] entries, the oldest is dropped.
    pub fn add_frame_latency_info(&mut self, stream: &str, fli: FrameLatencyInfo)
        requires
            old(self).wf(),
            stream_named(old(self).infos@, stream@),
        ensures
            final(self).wf(),
            final(self).log == old(self).log,
            final(self).infos@.len() == old(self).infos@.len(),
            forall|i: int|
                0 <= i < final(self).infos@.len() ==> (#[trigger] final(self).infos@[i].name@)
                    == old(self).infos@[i].name@,
            exists|i: int|
                {
                    &&& 0 <= i < final(self).infos@.len()
                    &&& (#[trigger] final(self).infos@[i].name@) == stream@
                    &&& final(self).infos@[i].entries@ == (if old(self).infos@[i].entries@.len()
                        < INFO_WINDOW {
                        old(self).infos@[i].entries@.push(fli)
                    } else {
                        old(self).infos@[i].entries@.push(fli).drop_first()
                    })
                    &&& forall|j: int|
                        0 <= j < final(self).infos@.len() && j != i
                            ==> #[trigger] final(self).infos@[j].entries@ == old(
                            self,
                        ).infos@[j].entries@
                },
    {
        let ghost old_self = *self;
        let i = match self.find_stream(stream) {
            Some(i) => i,
            None => {
                proof {
                    assert(false);
                }
                0
            },
        };
        let mut entry = self.infos.remove(i);
        entry.entries.push(fli);
        if entry.entries.len() > INFO_WINDOW {
            let _ = entry.entries.remove(0);
        }
        self.infos.insert(i, entry);
        proof {
            old_self.infos@.remove_ensures(i as int);
            old_self.infos@.remove(i as int).insert_ensures(i as int, self.infos@[i as int]);
            assert(self.infos@ =~= old_self.infos@.update(i as int, self.infos@[i as int]));
            assert(old_self.infos@[i as int].entries@.push(fli).drop_first()
                =~= old_self.infos@[i as int].entries@.push(fli).remove(0));
            let w = i as int;
            assert((self.infos@[w].name@) == stream@);
            assert(self.infos@[w].entries@ == (if old_self.infos@[w].entries@.len() < INFO_WINDOW {
                old_self.infos@[w].entries@.push(fli)
            } else {
                old_self.infos@[w].entries@.push(fli).drop_first()
            }));
            assert(forall|j: int|
                0 <= j < self.infos@.len() && j != w ==> #[trigger] self.infos@[j].entries@
                    == old_self.infos@[j].entries@);
        }
    }

    /// The record with the greatest total among the named stream's window.
    pub fn find_worst(&self, stream: &str) -> (r: &FrameLatencyInfo)
        requires
            self.wf(),
            exists|i: int|
                0 <= i < self.infos@.len() && (#[trigger] self.infos@[i].name@) == stream@
                    && self.infos@[i].entries@.len() > 0,
        ensures
            exists|i: int, j: int|
                {
                    &&& 0 <= i < self.infos@.len()
                    &&& (#[trigger] self.infos@[i].name@) == stream@
                    &&& 0 <= j < self.infos@[i].entries@.len()
                    &&& *r == #[trigger] self.infos@[i].entries@[j]
                    &&& forall|k: int|
                        0 <= k < self.infos@[i].entries@.len() ==> spec_total(
                            (#[trigger] self.infos@[i].entries@[k]).measurements@,
                        ) <= spec_total(r.measurements@)
                },
    {
        let i = match self.find_stream(stream) {
            Some(i) => i,
            None => {
                proof {
                    let w = choose|w: int|
                        0 <= w < self.infos@.len() && (#[trigger] self.infos@[w].name@) == stream@
                            && self.infos@[w].entries@.len() > 0;
                    assert(stream_named(self.infos@, stream@));
                }
                unreached()
            },
        };
        proof {
            let w = choose|w: int|
                0 <= w < self.infos@.len() && (#[trigger] self.infos@[w].name@) == stream@
                    && self.infos@[w].entries@.len() > 0;
        }
        let entries = &self.infos[i].entries;
        assert(entries@.len() > 0) by {
            let w = choose|w: int|
                0 <= w < self.infos@.len() && (#[trigger] self.infos@[w].name@) == stream@
                    && self.infos@[w].entries@.len() > 0;
            if w != i {
                assert(self.infos@[w].name@ == self.infos@[i as int].name@);
            }
        }
        let mut best: usize = 0;
        let mut best_total: u128 = entries[0].total();
        let mut k: usize = 1;
        while k < entries.len()
            invariant
                entries@.len() > 0,
                best < k <= entries@.len(),
                best_total == spec_total(entries@[best as int].measurements@),
                forall|t: int|
                    0 <= t < k ==> spec_total((#[trigger] entries@[t]).measurements@)
                        <= best_total,
            decreases entries@.len() - k,
        {
            let t = entries[k].total();
            if t > best_total {
                best = k;
                best_total = t;
            }
            k = k + 1;
        }
        &entries[best]
    }

    /// Appends one line to the log text.
    pub fn append_log(&mut self, line: &str)
        ensures
            final(self).log@ == old(self).log@ + line@ + seq!['\n'],
            final(self).infos@ == old(self).infos@,
    {
        self.log.append(line);
        self.log.append("\n");
        proof {
            reveal_strlit("\n");
            assert(final(self).log@ =~= old(self).log@ + line@ + seq!['\n']);
        }
    }
}

/// A log record's severity; smaller is more severe.
#[derive(PartialEq, Eq, Structural, Clone, Copy, Debug)]
pub enum LogLevel {
    Error,
    Warn,
    Info,
    Debug,
    Trace,
}

pub open spec fn level_rank(l: LogLevel) -> int {
    match l {
        LogLevel::Error => 0,
        LogLevel::Warn => 1,
        LogLevel::Info => 2,
        LogLevel::Debug => 3,
        LogLevel::Trace => 4,
    }
}

/// The log sink feeding the terminal UI's log pane.
pub struct Logger {
    /// The most verbose level that is recorded.
    pub max_level: LogLevel,
}

impl Logger {
    /// A sink that keeps informational records and above.
    pub fn new() -> (r: Logger)
        ensures
            r.max_level == LogLevel::Info,
    {
        Logger { max_level: LogLevel::Info }
    }

    /// Whether records of this severity are kept.
    pub fn enabled(&self, level: LogLevel) -> (r: bool)
        ensures
            r == (level_rank(level) <= level_rank(self.max_level)),
    {
        let lr: u8 = match level {
            LogLevel::Error => 0,
            LogLevel::Warn => 1,
            LogLevel::Info => 2,
            LogLevel::Debug => 3,
            LogLevel::Trace => 4,
        };
        let mr: u8 = match self.max_level {
            LogLevel::Error => 0,
            LogLevel::Warn => 1,
            LogLevel::Info => 2,
            LogLevel::Debug => 3,
            LogLevel::Trace => 4,
        };
        lr <= mr
    }

    /// Appends the record to the UI's log when its severity is kept,
    /// and drops it otherwise.
    pub fn log(&self, ui: &mut UI, level: LogLevel, msg: &str)
        ensures
            level_rank(level) <= level_rank(self.max_level) ==> final(ui).log@ == old(ui).log@
                + msg@ + seq!['\n'],
            level_rank(level) > level_rank(self.max_level) ==> *final(ui) == *old(ui),
            final(ui).infos@ == old(ui).infos@,
    {
        if self.enabled(level) {
            ui.append_log(msg);
        }
    }
}

} // verus!

//! The history of one sensor and its moving averages.
//!
//! A [`Tbuf`] holds the readings of one sensor in the order they arrived, and
//! for each configured window the average of the readings that were no older
//! than the window when the averages were last brought up to date.  Reading
//! an average never computes anything: [`Tbuf::add`] and
//! [`Tbuf::update_averages`] are the only operations that refresh the cache,
//! and [`Tbuf::expire`] only discards readings.

use std::collections::VecDeque;
use vstd::prelude::*;
use vstd::std_specs::convert::IntoSpec;

verus! {

/// One reading: the instant it was taken at and its value.
#[derive(Clone, Copy, Debug, PartialEq, Eq, Structural)]
pub struct Tdata {
    pub timestamp: u64,
    pub data: i64,
}

/// An average, kept exactly: the sum of the readings it was taken over and
/// how many they were.  The average itself is `sum / count`.
#[derive(Clone, Copy, Debug, PartialEq, Eq, Structural)]
pub struct Mean {
    pub sum: i128,
    pub count: u64,
}

/// Whether `sample` is at most `window` old at `now`.  A reading dated after
/// `now` has no age yet and is within every window.
pub open spec fn within(sample: Tdata, now: u64, window: u64) -> bool {
    now - sample.timestamp <= window
}

/// `within`, as a predicate on readings for a fixed `now` and `window`.
pub open spec fn in_window(now: u64, window: u64) -> spec_fn(Tdata) -> bool {
    |sample: Tdata| within(sample, now, window)
}

/// The readings of `samples` that are at most `window` old at `now`, in the
/// order they have in `samples`.
pub open spec fn recent(samples: Seq<Tdata>, now: u64, window: u64) -> Seq<Tdata> {
    samples.filter(in_window(now, window))
}

/// The sum of the values of `samples`.
pub open spec fn total(samples: Seq<Tdata>) -> int
    decreases samples.len(),
{
    if samples.len() == 0 {
        0
    } else {
        total(samples.drop_last()) + samples.last().data
    }
}

/// The average of `samples`: none of no readings, else their sum and number.
pub open spec fn mean_of(samples: Seq<Tdata>) -> Option<Mean> {
    if samples.len() == 0 {
        None
    } else {
        Some(Mean { sum: total(samples) as i128, count: samples.len() as u64 })
    }
}

/// The longest of `windows`, 0 if there are none.
pub open spec fn longest(windows: Seq<u64>) -> u64
    decreases windows.len(),
{
    if windows.len() == 0 {
        0
    } else if windows.last() > longest(windows.drop_last()) {
        windows.last()
    } else {
        longest(windows.drop_last())
    }
}

/// Whether no reading of `samples` is dated before one that precedes it.
pub open spec fn in_time_order(samples: Seq<Tdata>) -> bool {
    forall|i: int, j: int|
        0 <= i <= j < samples.len() ==> samples[i].timestamp <= samples[j].timestamp
}

/// What a [`Tbuf`] stands for.
pub struct TbufView {
    /// The configured windows, in the order they were given.
    pub windows: Seq<u64>,
    /// The cached average of each window, `None` where there is none.
    pub averages: Seq<Option<Mean>>,
    /// The readings held, in the order they arrived.
    pub samples: Seq<Tdata>,
}

impl TbufView {
    /// There is at least one window, each window has its cache entry, an
    /// average that is present was taken over at least one reading, and the
    /// readings are no more than a machine can hold.
    pub open spec fn wf(self) -> bool {
        &&& self.windows.len() > 0
        &&& self.averages.len() == self.windows.len()
        &&& self.samples.len() <= usize::MAX
        &&& forall|i: int|
            0 <= i < self.averages.len() ==> (#[trigger] self.averages[i] matches Some(m)
                ==> m.count > 0)
    }

    /// How long a reading is kept: as long as the longest window.
    pub open spec fn retention(self) -> u64 {
        longest(self.windows)
    }

    /// A buffer for `windows` that has seen no reading yet.
    pub open spec fn empty(windows: Seq<u64>) -> TbufView {
        TbufView {
            windows,
            averages: Seq::new(windows.len(), |i: int| None::<Mean>),
            samples: Seq::empty(),
        }
    }

    /// The cached average of the first window that is exactly `time_sec`
    /// long, `None` if no window is.
    pub open spec fn average(self, time_sec: u64) -> Option<Mean> {
        match self.windows.index_of_first(time_sec) {
            Some(i) => self.averages[i],
            None => None,
        }
    }

    /// The buffer after the readings older than the retention at `now` have
    /// been discarded.  The cached averages stay as they are.
    pub open spec fn expire(self, now: u64) -> TbufView {
        TbufView { samples: recent(self.samples, now, self.retention()), ..self }
    }

    /// How many readings `expire(now)` discards.
    pub open spec fn n_expired(self, now: u64) -> int {
        self.samples.len() - recent(self.samples, now, self.retention()).len()
    }

    /// What bringing the cache up to date at `now` makes of the average of
    /// window `i`: with no reading held, nothing; with readings inside the
    /// window, their average; with readings held but none inside the window,
    /// what was cached before.
    pub open spec fn refreshed(self, i: int, now: u64) -> Option<Mean> {
        if self.samples.len() == 0 {
            None
        } else if recent(self.samples, now, self.windows[i]).len() > 0 {
            mean_of(recent(self.samples, now, self.windows[i]))
        } else {
            self.averages[i]
        }
    }

    /// The buffer after its cache has been brought up to date at `now`.
    pub open spec fn update_averages(self, now: u64) -> TbufView {
        TbufView {
            averages: Seq::new(self.windows.len(), |i: int| self.refreshed(i, now)),
            ..self
        }
    }

    /// The buffer after `data` has arrived at `now`.
    pub open spec fn add(self, data: Tdata, now: u64) -> TbufView {
        (TbufView { samples: self.samples.push(data), ..self }).update_averages(now)
    }

    /// The buffer after each of `readings` has arrived in turn, the k-th of
    /// them at `arrivals[k]`.
    pub open spec fn add_all(self, readings: Seq<Tdata>, arrivals: Seq<u64>) -> TbufView
        decreases readings.len(),
    {
        if readings.len() == 0 {
            self
        } else {
            self.add_all(readings.drop_last(), arrivals.drop_last()).add(
                readings.last(),
                arrivals.last(),
            )
        }
    }
}

impl Tdata {
    /// The reading that `args` converts into: a pair of a value and the
    /// instant it was taken at, in either order.
    pub fn new<A>(args: A) -> (r: Tdata) where A: Into<Tdata>
        ensures
            A::obeys_into_spec() ==> r == args.into_spec(),
    {
        args.into()
    }

    /// The instant the reading was taken at.
    pub fn ts(&self) -> (t: u64)
        ensures
            t == self.timestamp,
    {
        self.timestamp
    }

    /// The value that was read.
    pub fn data(&self) -> (d: i64)
        ensures
            d == self.data,
    {
        self.data
    }

    /// Whether the reading is at most `window` old at `now`.
    pub fn is_within(&self, now: u64, window: u64) -> (r: bool)
        ensures
            r == within(*self, now, window),
    {
        now <= self.timestamp || now - self.timestamp <= window
    }
}

/// A reading from its value and the instant it was taken at.
impl From<(i64, u64)> for Tdata {
    fn from(args: (i64, u64)) -> (r: Tdata) {
        Tdata { timestamp: args.1, data: args.0 }
    }
}

impl vstd::std_specs::convert::FromSpecImpl<(i64, u64)> for Tdata {
    open spec fn obeys_from_spec() -> bool {
        true
    }

    open spec fn from_spec(args: (i64, u64)) -> Tdata {
        Tdata { timestamp: args.1, data: args.0 }
    }
}

/// A reading from the instant it was taken at and its value.
impl From<(u64, i64)> for Tdata {
    fn from(args: (u64, i64)) -> (r: Tdata) {
        Tdata { timestamp: args.0, data: args.1 }
    }
}

impl vstd::std_specs::convert::FromSpecImpl<(u64, i64)> for Tdata {
    open spec fn obeys_from_spec() -> bool {
        true
    }

    open spec fn from_spec(args: (u64, i64)) -> Tdata {
        Tdata { timestamp: args.0, data: args.1 }
    }
}

/// The sum of `samples` lies within what that many readings can add up to.
pub proof fn lemma_total_bounds(samples: Seq<Tdata>)
    ensures
        samples.len() * i64::MIN <= total(samples) <= samples.len() * i64::MAX,
    decreases samples.len(),
{
    if samples.len() > 0 {
        lemma_total_bounds(samples.drop_last());
        assert(samples.len() * i64::MIN == (samples.len() - 1) * i64::MIN + i64::MIN)
            by (nonlinear_arith);
        assert(samples.len() * i64::MAX == (samples.len() - 1) * i64::MAX + i64::MAX)
            by (nonlinear_arith);
    }
}

/// Taking one more reading of `samples` into account adds it to the recent
/// ones exactly when it is within the window.
pub proof fn lemma_recent_step(samples: Seq<Tdata>, i: int, now: u64, window: u64)
    requires
        0 <= i < samples.len(),
    ensures
        recent(samples.take(i + 1), now, window) == if within(samples[i], now, window) {
            recent(samples.take(i), now, window).push(samples[i])
        } else {
            recent(samples.take(i), now, window)
        },
{
    assert(samples.take(i + 1) == samples.take(i).push(samples[i]));
    samples.take(i).lemma_filter_push(samples[i], in_window(now, window));
}

/// Where every reading up to `k` is outside the window and every reading
/// from `k` on is inside, the recent readings are those from `k` on.
pub proof fn lemma_recent_is_suffix(samples: Seq<Tdata>, k: int, now: u64, window: u64)
    requires
        0 <= k <= samples.len(),
        forall|i: int| 0 <= i < k ==> !within(#[trigger] samples[i], now, window),
        forall|i: int| k <= i < samples.len() ==> within(#[trigger] samples[i], now, window),
    ensures
        recent(samples, now, window) == samples.skip(k),
    decreases samples.len(),
{
    reveal(Seq::filter);
    if samples.len() > 0 {
        let front = samples.drop_last();
        if k == samples.len() {
            lemma_recent_is_suffix(front, k - 1, now, window);
            assert(front.skip(k - 1) =~= samples.skip(k));
        } else {
            lemma_recent_is_suffix(front, k, now, window);
            assert(front.skip(k).push(samples.last()) =~= samples.skip(k));
        }
    } else {
        assert(samples.skip(k) =~= samples);
    }
}

/// The history of one sensor: its readings and the cached average of each
/// configured window.
#[derive(Debug)]
pub struct Tbuf {
    averages_t: Vec<u64>,
    averages: Vec<Option<Mean>>,
    buf: VecDeque<Tdata>,
    buf_expire: u64,
    in_order: bool,
}

impl View for Tbuf {
    type V = TbufView;

    closed spec fn view(&self) -> TbufView {
        TbufView { windows: self.averages_t@, averages: self.averages@, samples: self.buf@ }
    }
}

/// The largest capacity a buffer can be asked to set aside in advance: room
/// for this many readings can be asked for on every machine.
pub const MAX_CAPACITY: usize = 0x07ff_ffff;

impl Tbuf {
    /// What the buffer keeps beside its contents: the retention it was
    /// made with, and the knowledge that its readings are in time order
    /// for as long as none has arrived late.
    pub closed spec fn inv(&self) -> bool {
        &&& self.buf_expire == longest(self.averages_t@)
        &&& self.in_order ==> in_time_order(self.buf@)
    }

    /// The buffer is valid: every constructor makes it so and every
    /// operation keeps it so.
    pub open spec fn wf(&self) -> bool {
        &&& self@.wf()
        &&& self.inv()
    }

    /// A buffer that maintains one average for each of `averages_t`.
    pub fn new(averages_t: &[u64]) -> (tbuf: Tbuf)
        requires
            averages_t@.len() > 0,
        ensures
            tbuf.wf(),
            tbuf@ == TbufView::empty(averages_t@),
    {
        Tbuf::with_capacity(64, averages_t)
    }

    /// A buffer that maintains one average for each of `averages_t`, with
    /// room set aside for `capacity` readings.
    pub fn with_capacity(capacity: usize, averages_t: &[u64]) -> (tbuf: Tbuf)
        requires
            averages_t@.len() > 0,
            capacity <= MAX_CAPACITY,
        ensures
            tbuf.wf(),
            tbuf@ == TbufView::empty(averages_t@),
    {
        let n: usize = averages_t.len();
        let mut windows: Vec<u64> = Vec::with_capacity(n);
        let mut averages: Vec<Option<Mean>> = Vec::with_capacity(n);
        let mut buf_expire: u64 = 0;
        let mut i: usize = 0;
        while i < n
            invariant
                n == averages_t@.len(),
                0 <= i <= n,
                windows@ == averages_t@.take(i as int),
                averages@ == Seq::new(i as nat, |k: int| None::<Mean>),
                buf_expire == longest(averages_t@.take(i as int)),
            decreases n - i,
        {
            let w: u64 = averages_t[i];
            proof {
                assert(averages_t@.take(i + 1).drop_last() == averages_t@.take(i as int));
            }
            if w > buf_expire {
                buf_expire = w;
            }
            windows.push(w);
            averages.push(None);
            i += 1;
            proof {
                assert(windows@ == averages_t@.take(i as int));
                assert(averages@ == Seq::new(i as nat, |k: int| None::<Mean>));
            }
        }
        proof {
            assert(averages_t@.take(n as int) == averages_t@);
        }
        Tbuf {
            averages_t: windows,
            averages,
            buf: VecDeque::with_capacity(capacity),
            buf_expire,
            in_order: true,
        }
    }

    /// The number of readings held.
    pub fn len(&self) -> (n: usize)
        ensures
            n == self@.samples.len(),
    {
        self.buf.len()
    }

    /// Whether no reading is held.
    pub fn is_empty(&self) -> (b: bool)
        ensures
            b == (self@.samples.len() == 0),
    {
        self.len() == 0
    }

    /// The cached average over the window that is exactly `time_sec` long,
    /// as it stood when the averages were last brought up to date: nothing
    /// is computed here.  There is none for a length that is not among the
    /// configured windows, and none where the cache holds none.  An average
    /// that is there was taken over at least one reading.
    pub fn average(&self, time_sec: u64) -> (avg: Option<Mean>)
        requires
            self.wf(),
        ensures
            avg == self@.average(time_sec),
            !self@.windows.contains(time_sec) ==> avg is None,
            avg matches Some(m) ==> m.count > 0,
    {
        let mut i: usize = 0;
        while i < self.averages_t.len()
            invariant
                self.wf(),
                0 <= i <= self.averages_t@.len(),
                forall|j: int| 0 <= j < i ==> self.averages_t@[j] != time_sec,
            decreases self.averages_t@.len() - i,
        {
            if time_sec == self.averages_t[i] {
                proof {
                    self@.windows.index_of_first_ensures(time_sec);
                    assert(self@.windows[i as int] == time_sec);
                }
                return self.averages[i];
            }
            i += 1;
        }
        proof {
            self@.windows.index_of_first_ensures(time_sec);
        }
        None
    }

    /// Brings the cached averages up to date at `now`.
    ///
    /// With no reading held every average becomes unavailable.  Otherwise
    /// each window whose readings are not all too old gets the average of
    /// the readings inside it, and a window that has none inside keeps the
    /// average it had.
    pub fn update_averages(&mut self, now: u64) -> (tbuf: &mut Self)
        requires
            old(self).wf(),
        ensures
            tbuf.wf(),
            tbuf@ == old(self)@.update_averages(now),
            *final(self) == *final(tbuf),
    {
        let n_avgs: usize = self.averages_t.len();
        let n_buf: usize = self.buf.len();
        let mut avg_i: usize = 0;
        while avg_i < n_avgs
            invariant
                self.wf(),
                self.averages_t == old(self).averages_t,
                self.buf == old(self).buf,
                n_avgs == self.averages_t@.len(),
                n_buf == self.buf@.len(),
                0 <= avg_i <= n_avgs,
                forall|k: int|
                    0 <= k < avg_i ==> self.averages@[k] == old(self)@.refreshed(k, now),
                forall|k: int| avg_i <= k < n_avgs ==> self.averages@[k] == old(self).averages@[k],
            decreases n_avgs - avg_i,
        {
            let window: u64 = self.averages_t[avg_i];
            let mut sum: i128 = 0;
            let mut size: u64 = 0;
            let mut buf_i: usize = 0;
            while buf_i < n_buf
                invariant
                    n_buf == self.buf@.len(),
                    0 <= buf_i <= n_buf,
                    size == recent(self.buf@.take(buf_i as int), now, window).len(),
                    sum == total(recent(self.buf@.take(buf_i as int), now, window)),
                    size <= buf_i,
                decreases n_buf - buf_i,
            {
                let sample: Tdata = self.buf[buf_i];
                proof {
                    lemma_recent_step(self.buf@, buf_i as int, now, window);
                    lemma_total_bounds(recent(self.buf@.take(buf_i as int), now, window));
                    assert(recent(self.buf@.take(buf_i as int), now, window).push(
                        sample,
                    ).drop_last() == recent(self.buf@.take(buf_i as int), now, window));
                }
                if sample.is_within(now, window) {
                    size += 1;
                    sum += sample.data as i128;
                }
                buf_i += 1;
            }
            proof {
                assert(self.buf@.take(n_buf as int) == self.buf@);
                lemma_total_bounds(recent(self.buf@, now, window));
            }
            if n_buf == 0 {
                self.averages.set(avg_i, None);
            } else if size > 0 {
                self.averages.set(avg_i, Some(Mean { sum, count: size }));
            }
            avg_i += 1;
        }
        proof {
            assert(self.averages@ =~= old(self)@.update_averages(now).averages);
        }
        self
    }

    /// Takes in the reading `data`, which arrives at `now`, and brings the
    /// cached averages up to date.
    ///
    /// The buffer keeps its readings in the order they arrive.  A reading
    /// dated before the one that arrived last is taken in like any other.
    pub fn add(&mut self, data: Tdata, now: u64) -> (tbuf: &mut Self)
        requires
            old(self).wf(),
        ensures
            tbuf.wf(),
            tbuf@ == old(self)@.add(data, now),
            *final(self) == *final(tbuf),
    {
        let n: usize = self.buf.len();
        if n > 0 && data.timestamp < self.buf[n - 1].timestamp {
            self.in_order = false;
        }
        self.buf.push_back(data);
        assert(self.buf@.len() == self.buf.len());
        self.update_averages(now)
    }

    /// Discards every reading that is older at `now` than the longest
    /// window, and returns how many were discarded.  The cached averages
    /// are left as they are: call [`Tbuf::update_averages`] to refresh them.
    ///
    /// As long as the readings arrived in time order they are taken off the
    /// old end one by one, up to the first that stays; once one has arrived
    /// late, all of them are looked at.
    pub fn expire(&mut self, now: u64) -> (n_expired: usize)
        requires
            old(self).wf(),
        ensures
            final(self).wf(),
            final(self)@ == old(self)@.expire(now),
            n_expired == old(self)@.n_expired(now),
    {
        let n: usize = self.buf.len();
        let retention: u64 = self.buf_expire;
        if self.in_order {
            let mut n_expired: usize = 0;
            while self.buf.len() > 0 && !self.buf[0].is_within(now, retention)
                invariant
                    self.averages_t == old(self).averages_t,
                    self.averages == old(self).averages,
                    self.buf_expire == old(self).buf_expire,
                    self.in_order,
                    n == old(self).buf@.len(),
                    0 <= n_expired <= n,
                    self.buf@ == old(self).buf@.skip(n_expired as int),
                    forall|i: int|
                        0 <= i < n_expired ==> !within(
                            #[trigger] old(self).buf@[i],
                            now,
                            retention,
                        ),
                decreases self.buf@.len(),
            {
                self.buf.pop_front();
                n_expired += 1;
                proof {
                    assert(self.buf@ =~= old(self).buf@.skip(n_expired as int));
                }
            }
            proof {
                assert forall|i: int| n_expired <= i < n implies within(
                    #[trigger] old(self).buf@[i],
                    now,
                    retention,
                ) by {
                    assert(self.buf@[0] == old(self).buf@[n_expired as int]);
                }
                lemma_recent_is_suffix(old(self).buf@, n_expired as int, now, retention);
                assert(in_time_order(self.buf@));
            }
            n_expired
        } else {
            let mut kept: VecDeque<Tdata> = VecDeque::new();
            let mut ordered: bool = true;
            let mut i: usize = 0;
            while i < n
                invariant
                    n == self.buf@.len(),
                    0 <= i <= n,
                    kept@ == recent(self.buf@.take(i as int), now, retention),
                    kept@.len() <= i,
                    ordered ==> in_time_order(kept@),
                decreases n - i,
            {
                let sample: Tdata = self.buf[i];
                proof {
                    lemma_recent_step(self.buf@, i as int, now, retention);
                }
                if sample.is_within(now, retention) {
                    let m: usize = kept.len();
                    if m > 0 && sample.timestamp < kept[m - 1].timestamp {
                        ordered = false;
                    }
                    kept.push_back(sample);
                }
                i += 1;
            }
            proof {
                assert(self.buf@.take(n as int) == self.buf@);
            }
            let n_kept: usize = kept.len();
            self.buf = kept;
            self.in_order = ordered;
            n - n_kept
        }
    }
}

/// Every window is at most as long as the longest, and the longest is one
/// of them.
pub proof fn lemma_longest_is_max(windows: Seq<u64>)
    ensures
        forall|i: int| 0 <= i < windows.len() ==> #[trigger] windows[i] <= longest(windows),
        windows.len() > 0 ==> windows.contains(longest(windows)),
    decreases windows.len(),
{
    if windows.len() > 0 {
        let front = windows.drop_last();
        lemma_longest_is_max(front);
        assert forall|i: int| 0 <= i < windows.len() implies #[trigger] windows[i] <= longest(
            windows,
        ) by {
            if i < front.len() {
                assert(windows[i] == front[i]);
            }
        }
        if windows.last() > longest(front) || front.len() == 0 {
            assert(windows[windows.len() - 1] == longest(windows));
        } else {
            let j = choose|j: int| 0 <= j < front.len() && front[j] == longest(front);
            assert(windows[j] == longest(windows));
        }
    }
}

/// Of readings in time order, the recent ones are the last ones: those
/// before them are outside the window and they are inside.
pub proof fn lemma_recent_of_ordered(samples: Seq<Tdata>, now: u64, window: u64)
    requires
        in_time_order(samples),
    ensures
        recent(samples, now, window).len() <= samples.len(),
        recent(samples, now, window) == samples.skip(
            samples.len() - recent(samples, now, window).len(),
        ),
        forall|i: int|
            0 <= i < samples.len() - recent(samples, now, window).len() ==> !within(
                #[trigger] samples[i],
                now,
                window,
            ),
        forall|i: int|
            samples.len() - recent(samples, now, window).len() <= i < samples.len() ==> within(
                #[trigger] samples[i],
                now,
                window,
            ),
    decreases samples.len(),
{
    reveal(Seq::filter);
    if samples.len() > 0 {
        let front = samples.drop_last();
        assert(in_time_order(front)) by {
            assert forall|i: int, j: int| 0 <= i <= j < front.len() implies front[i].timestamp
                <= front[j].timestamp by {
                assert(front[i] == samples[i] && front[j] == samples[j]);
            }
        }
        lemma_recent_of_ordered(front, now, window);
        let r = recent(front, now, window).len();
        if within(samples.last(), now, window) {
            assert(front.skip(front.len() - r).push(samples.last()) =~= samples.skip(
                samples.len() - (r + 1),
            ));
            assert forall|i: int| 0 <= i < samples.len() - (r + 1) implies !within(
                #[trigger] samples[i],
                now,
                window,
            ) by {
                assert(samples[i] == front[i]);
            }
            assert forall|i: int| samples.len() - (r + 1) <= i < samples.len() implies within(
                #[trigger] samples[i],
                now,
                window,
            ) by {
                if i < front.len() {
                    assert(samples[i] == front[i]);
                }
            }
        } else {
            assert forall|i: int| 0 <= i < front.len() implies !within(
                #[trigger] front[i],
                now,
                window,
            ) by {
                assert(front[i] == samples[i]);
                assert(samples[i].timestamp <= samples[samples.len() - 1].timestamp);
            }
            lemma_recent_is_suffix(front, front.len() as int, now, window);
            assert(samples.skip(samples.len() as int) =~= Seq::<Tdata>::empty());
            assert(front.skip(front.len() as int) =~= Seq::<Tdata>::empty());
        }
    } else {
        assert(samples.skip(0) =~= samples);
    }
}

/// What is recent for a window is found among what is recent for a longer
/// one: narrowing to the longer window first loses nothing.
pub proof fn lemma_recent_of_recent(samples: Seq<Tdata>, now: u64, window: u64, longer: u64)
    requires
        window <= longer,
    ensures
        recent(recent(samples, now, longer), now, window) == recent(samples, now, window),
    decreases samples.len(),
{
    reveal(Seq::filter);
    if samples.len() > 0 {
        let front = samples.drop_last();
        lemma_recent_of_recent(front, now, window, longer);
        if within(samples.last(), now, longer) {
            recent(front, now, longer).lemma_filter_push(samples.last(), in_window(now, window));
        }
    }
}

impl TbufView {
    /// When every reading that is held, the one that has just arrived among
    /// them, is within a configured window, the average of that window is the
    /// arithmetic mean of all of them: their sum over their number.
    pub proof fn lemma_average_is_mean(self, data: Tdata, now: u64, window: u64)
        requires
            self.samples.len() < usize::MAX,
            self.windows.contains(window),
            within(data, now, window),
            forall|k: int|
                0 <= k < self.samples.len() ==> within(#[trigger] self.samples[k], now, window),
        ensures
            self.add(data, now).average(window) == Some(
                Mean {
                    sum: total(self.samples.push(data)) as i128,
                    count: (self.samples.len() + 1) as u64,
                },
            ),
            i128::MIN <= total(self.samples.push(data)) <= i128::MAX,
            self.samples.len() + 1 <= u64::MAX,
    {
        let all = self.samples.push(data);
        let after = self.add(data, now);
        self.windows.index_of_first_ensures(window);
        let i = self.windows.index_of_first(window).unwrap();
        assert forall|k: int| 0 <= k < all.len() implies within(#[trigger] all[k], now, window) by {
            if k < self.samples.len() {
                assert(all[k] == self.samples[k]);
            }
        }
        lemma_recent_is_suffix(all, 0, now, window);
        assert(all.skip(0) =~= all);
        assert(recent(all, now, self.windows[i]) == all);
        assert(after.averages[i] == mean_of(all));
        lemma_total_bounds(all);
    }

    /// Taking readings in changes neither the windows nor what was held
    /// before: the readings held afterwards are those held before, followed
    /// by those that arrived.
    pub proof fn lemma_add_all_samples(self, readings: Seq<Tdata>, arrivals: Seq<u64>)
        requires
            readings.len() == arrivals.len(),
        ensures
            self.add_all(readings, arrivals).windows == self.windows,
            self.add_all(readings, arrivals).samples == self.samples + readings,
            self.averages.len() == self.windows.len() ==> self.add_all(
                readings,
                arrivals,
            ).averages.len() == self.windows.len(),
        decreases readings.len(),
    {
        if readings.len() > 0 {
            self.lemma_add_all_samples(readings.drop_last(), arrivals.drop_last());
            assert((self.samples + readings.drop_last()).push(readings.last()) =~= self.samples
                + readings);
        } else {
            assert(self.samples + readings =~= self.samples);
        }
    }

    /// When readings arrive at a new buffer one after another, and at the
    /// arrival of the last each of them is within a configured window, the
    /// average of that window is the arithmetic mean of all of them: their
    /// sum over their number.
    pub proof fn lemma_average_of_sequence(
        windows: Seq<u64>,
        readings: Seq<Tdata>,
        arrivals: Seq<u64>,
        window: u64,
    )
        requires
            windows.contains(window),
            readings.len() == arrivals.len(),
            0 < readings.len() <= usize::MAX,
            forall|k: int|
                0 <= k < readings.len() ==> within(#[trigger] readings[k], arrivals.last(), window),
        ensures
            TbufView::empty(windows).add_all(readings, arrivals).average(window) == Some(
                Mean { sum: total(readings) as i128, count: readings.len() as u64 },
            ),
            i128::MIN <= total(readings) <= i128::MAX,
    {
        let start = TbufView::empty(windows);
        let front = readings.drop_last();
        let before = start.add_all(front, arrivals.drop_last());
        start.lemma_add_all_samples(front, arrivals.drop_last());
        assert(before.samples =~= front);
        assert(before.samples.push(readings.last()) =~= readings);
        assert forall|k: int| 0 <= k < before.samples.len() implies within(
            #[trigger] before.samples[k],
            arrivals.last(),
            window,
        ) by {
            assert(before.samples[k] == readings[k]);
        }
        before.lemma_average_is_mean(readings.last(), arrivals.last(), window);
    }

    /// A window length that is not configured has no average, whatever the
    /// buffer holds.
    pub proof fn lemma_average_of_unknown_window(self, time_sec: u64)
        requires
            !self.windows.contains(time_sec),
        ensures
            self.average(time_sec) is None,
    {
        self.windows.index_of_first_ensures(time_sec);
    }

    /// Bringing the cache up to date keeps the buffer valid: no average
    /// that is present was taken over no reading.
    pub proof fn lemma_update_averages_wf(self, now: u64)
        requires
            self.wf(),
        ensures
            self.update_averages(now).wf(),
    {
        let after = self.update_averages(now);
        assert forall|i: int| 0 <= i < after.averages.len() implies (
        #[trigger] after.averages[i] matches Some(m) ==> m.count > 0) by {
            self.samples.lemma_filter_len(in_window(now, self.windows[i]));
        }
    }

    /// Discarding old readings keeps the buffer valid.
    pub proof fn lemma_expire_wf(self, now: u64)
        requires
            self.wf(),
        ensures
            self.expire(now).wf(),
            0 <= self.n_expired(now) <= self.samples.len(),
    {
        self.samples.lemma_filter_len(in_window(now, self.retention()));
    }

    /// After old readings have been discarded and the cache brought up to
    /// date, a window that has no reading inside it is unavailable if
    /// nothing is held any more, and has the average it had before if
    /// something is; and the buffer is valid, so no average is taken over
    /// no reading.
    pub proof fn lemma_expire_then_update(self, now: u64, i: int)
        requires
            self.wf(),
            0 <= i < self.windows.len(),
            recent(self.expire(now).samples, now, self.windows[i]).len() == 0,
        ensures
            self.expire(now).update_averages(now).wf(),
            self.expire(now).samples.len() == 0 ==> self.expire(now).update_averages(
                now,
            ).averages[i] is None,
            self.expire(now).samples.len() > 0 ==> self.expire(now).update_averages(
                now,
            ).averages[i] == self.averages[i],
    {
        self.lemma_expire_wf(now);
        self.expire(now).lemma_update_averages_wf(now);
    }

    /// Bringing the cache up to date twice at the same instant changes
    /// nothing the second time.
    pub proof fn lemma_update_averages_idempotent(self, now: u64)
        requires
            self.wf(),
        ensures
            self.update_averages(now).update_averages(now) == self.update_averages(now),
    {
        let once = self.update_averages(now);
        assert(once.update_averages(now).averages =~= once.averages);
    }

    /// Discarding old readings twice at the same instant discards nothing
    /// the second time.
    pub proof fn lemma_expire_idempotent(self, now: u64)
        ensures
            self.expire(now).expire(now) == self.expire(now),
            self.expire(now).n_expired(now) == 0,
    {
        lemma_recent_of_recent(self.samples, now, self.retention(), self.retention());
    }

    /// A reading that is dated no earlier than the last one held keeps the
    /// readings in time order.
    pub proof fn lemma_add_keeps_time_order(self, data: Tdata, now: u64)
        requires
            in_time_order(self.samples),
            self.samples.len() > 0 ==> self.samples.last().timestamp <= data.timestamp,
        ensures
            in_time_order(self.add(data, now).samples),
    {
    }

    /// Discarding old readings keeps the readings in time order.
    pub proof fn lemma_expire_keeps_time_order(self, now: u64)
        requires
            in_time_order(self.samples),
        ensures
            in_time_order(self.expire(now).samples),
    {
        self.lemma_expire_removes_head(now);
    }

    /// Of readings in time order, those that are discarded are the first
    /// ones held: what is left is what followed them.
    pub proof fn lemma_expire_removes_head(self, now: u64)
        requires
            in_time_order(self.samples),
        ensures
            0 <= self.n_expired(now) <= self.samples.len(),
            self.expire(now).samples == self.samples.skip(self.n_expired(now)),
            forall|i: int|
                0 <= i < self.n_expired(now) ==> !within(
                    #[trigger] self.samples[i],
                    now,
                    self.retention(),
                ),
            forall|i: int|
                self.n_expired(now) <= i < self.samples.len() ==> within(
                    #[trigger] self.samples[i],
                    now,
                    self.retention(),
                ),
    {
        lemma_recent_of_ordered(self.samples, now, self.retention());
    }

    /// Discarding old readings takes nothing from any window: the readings
    /// inside each configured window are the same before and after.
    pub proof fn lemma_expire_keeps_windows(self, now: u64, i: int)
        requires
            0 <= i < self.windows.len(),
        ensures
            recent(self.expire(now).samples, now, self.windows[i]) == recent(
                self.samples,
                now,
                self.windows[i],
            ),
    {
        lemma_longest_is_max(self.windows);
        lemma_recent_of_recent(self.samples, now, self.windows[i], self.retention());
    }
}

} // verus!

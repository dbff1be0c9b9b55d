//! The readings of all sensors.
//!
//! A [`MyData`] keeps one [`Tbuf`] per sensor identifier, all with the same
//! two windows: the first is the one behind the output average, the second
//! the one behind the averages that are exported.  A sensor gets its buffer
//! when its first reading arrives and keeps it from then on.

use crate::config::OptsCommon;
use crate::outsensor::{candidates, get, names, split};
use crate::tbuf::{Mean, Tbuf, TbufView, Tdata};
use vstd::prelude::*;

verus! {

/// What to export for a sensor that holds readings but has no average for
/// the window that is asked for.
#[derive(Clone, Copy, Debug, PartialEq, Eq, Structural)]
pub enum ExportPolicy {
    /// Export an average of zero.
    ClampToZero,
    /// Leave the sensor out.
    SkipUnavailable,
}

/// The average that stands for zero.
pub open spec fn zero_mean() -> Mean {
    Mean { sum: 0, count: 1 }
}

/// What the entries of an export read as.
pub open spec fn entries(exported: Seq<(String, Mean)>) -> Seq<(Seq<char>, Mean)> {
    Seq::new(exported.len(), |k: int| (exported[k].0@, exported[k].1))
}

/// What a sweep makes of one buffer: the old readings are discarded, and the
/// cached averages are brought up to date if any reading was discarded.
pub open spec fn swept(buf: TbufView, now: u64) -> TbufView {
    if buf.n_expired(now) > 0 {
        buf.expire(now).update_averages(now)
    } else {
        buf.expire(now)
    }
}

/// What a [`MyData`] stands for.
pub struct MyDataView {
    /// The identifiers of the sensors, in the order of their first reading.
    pub ids: Seq<Seq<char>>,
    /// The buffer of each sensor, in the same order.
    pub bufs: Seq<TbufView>,
    /// The output selector.
    pub out_sensor: Seq<char>,
    /// The windows that every buffer has.
    pub averages_t: Seq<u64>,
}

impl MyDataView {
    /// There are two windows, every sensor has a name of its own that is
    /// not empty, and its buffer is valid and has the store's windows.
    pub open spec fn wf(self) -> bool {
        &&& self.averages_t.len() == 2
        &&& self.ids.len() == self.bufs.len()
        &&& self.ids.no_duplicates()
        &&& forall|i: int| 0 <= i < self.ids.len() ==> (#[trigger] self.ids[i]).len() > 0
        &&& forall|i: int|
            0 <= i < self.bufs.len() ==> (#[trigger] self.bufs[i]).wf() && self.bufs[i].windows
                == self.averages_t
    }

    /// The buffer of sensor `id`, `None` if no reading of it ever arrived.
    pub open spec fn buffer(self, id: Seq<char>) -> Option<TbufView> {
        match self.ids.index_of_first(id) {
            Some(i) => Some(self.bufs[i]),
            None => None,
        }
    }

    /// The cached average of sensor `id` over the window `t`.
    pub open spec fn average_get(self, id: Seq<char>, t: u64) -> Option<Mean> {
        match self.buffer(id) {
            Some(buf) => buf.average(t),
            None => None,
        }
    }

    /// The store after the reading `data` of sensor `id` has arrived at
    /// `now`: it goes to the sensor's buffer, which is made first if the
    /// sensor is new.
    pub open spec fn add(self, id: Seq<char>, data: Tdata, now: u64) -> MyDataView {
        match self.ids.index_of_first(id) {
            Some(i) => MyDataView { bufs: self.bufs.update(i, self.bufs[i].add(data, now)), ..self },
            None => MyDataView {
                ids: self.ids.push(id),
                bufs: self.bufs.push(TbufView::empty(self.averages_t).add(data, now)),
                ..self
            },
        }
    }

    /// The first average over the window `t` that one of `ids` has, taking
    /// them from the left.
    pub open spec fn first_available(self, ids: Seq<Seq<char>>, t: u64) -> Option<Mean>
        decreases ids.len(),
    {
        if ids.len() == 0 {
            None
        } else if self.average_get(ids.first(), t) is Some {
            self.average_get(ids.first(), t)
        } else {
            self.first_available(ids.drop_first(), t)
        }
    }

    /// The output average over the window `t`: that of the first candidate
    /// of the selector that has one.
    pub open spec fn resolve_output(self, t: u64) -> Option<Mean> {
        self.first_available(candidates(self.out_sensor), t)
    }

    /// What sensor `i` contributes to an export of the window `t`: nothing
    /// if it holds no reading, else its name and average, and without an
    /// average what `policy` says.
    pub open spec fn export_entry(self, i: int, t: u64, policy: ExportPolicy) -> Option<
        (Seq<char>, Mean),
    > {
        if self.bufs[i].samples.len() == 0 {
            None
        } else {
            match self.bufs[i].average(t) {
                Some(m) => Some((self.ids[i], m)),
                None => match policy {
                    ExportPolicy::ClampToZero => Some((self.ids[i], zero_mean())),
                    ExportPolicy::SkipUnavailable => None,
                },
            }
        }
    }

    /// The export of the first `n` sensors.
    pub open spec fn export_first(self, n: int, t: u64, policy: ExportPolicy) -> Seq<
        (Seq<char>, Mean),
    >
        decreases n,
    {
        if n <= 0 {
            Seq::empty()
        } else {
            match self.export_entry(n - 1, t, policy) {
                Some(entry) => self.export_first(n - 1, t, policy).push(entry),
                None => self.export_first(n - 1, t, policy),
            }
        }
    }

    /// The export of the window `t`: what each sensor contributes, in the
    /// order of the sensors.
    pub open spec fn export_snapshot(self, t: u64, policy: ExportPolicy) -> Seq<
        (Seq<char>, Mean),
    > {
        self.export_first(self.ids.len() as int, t, policy)
    }

    /// The store after a sweep at `now`.
    pub open spec fn expire(self, now: u64) -> MyDataView {
        MyDataView { bufs: Seq::new(self.bufs.len(), |i: int| swept(self.bufs[i], now)), ..self }
    }

    /// How many readings of each sensor a sweep at `now` discards.
    pub open spec fn n_expired(self, now: u64) -> Seq<int> {
        Seq::new(self.bufs.len(), |i: int| self.bufs[i].n_expired(now))
    }
}

impl MyDataView {
    /// What `first_available` finds is the average of a candidate before
    /// which no candidate has one; it finds nothing only where no candidate
    /// has one.
    pub proof fn lemma_first_available(self, ids: Seq<Seq<char>>, t: u64)
        ensures
            match self.first_available(ids, t) {
                Some(m) => exists|k: int|
                    0 <= k < ids.len() && self.average_get(ids[k], t) == Some(m) && forall|j: int|
                        0 <= j < k ==> self.average_get(ids[j], t) is None,
                None => forall|k: int| 0 <= k < ids.len() ==> self.average_get(ids[k], t) is None,
            },
        decreases ids.len(),
    {
        if ids.len() > 0 {
            let rest = ids.drop_first();
            self.lemma_first_available(rest, t);
            if self.average_get(ids.first(), t) is Some {
                assert(self.average_get(ids[0], t) == self.first_available(ids, t));
            } else {
                match self.first_available(rest, t) {
                    Some(m) => {
                        let k = choose|k: int|
                            0 <= k < rest.len() && self.average_get(rest[k], t) == Some(m)
                                && forall|j: int|
                                0 <= j < k ==> self.average_get(rest[j], t) is None;
                        assert(ids[k + 1] == rest[k]);
                        assert forall|j: int| 0 <= j < k + 1 implies self.average_get(
                            ids[j],
                            t,
                        ) is None by {
                            if j > 0 {
                                assert(ids[j] == rest[j - 1]);
                            }
                        }
                    },
                    None => {
                        assert forall|k: int| 0 <= k < ids.len() implies self.average_get(
                            ids[k],
                            t,
                        ) is None by {
                            if k > 0 {
                                assert(ids[k] == rest[k - 1]);
                            }
                        }
                    },
                }
            }
        }
    }

    /// The output average is that of the first candidate of the selector,
    /// from the left, that has an average over the window; there is none
    /// only where no candidate has one.
    pub proof fn lemma_resolve_output(self, t: u64)
        ensures
            match self.resolve_output(t) {
                Some(m) => exists|k: int|
                    0 <= k < candidates(self.out_sensor).len() && self.average_get(
                        candidates(self.out_sensor)[k],
                        t,
                    ) == Some(m) && forall|j: int|
                        0 <= j < k ==> self.average_get(candidates(self.out_sensor)[j], t) is None,
                None => forall|k: int|
                    0 <= k < candidates(self.out_sensor).len() ==> self.average_get(
                        candidates(self.out_sensor)[k],
                        t,
                    ) is None,
            },
    {
        self.lemma_first_available(candidates(self.out_sensor), t);
    }

    /// With an empty selector there is no output average.
    pub proof fn lemma_empty_selector(self, t: u64)
        requires
            self.wf(),
            self.out_sensor.len() == 0,
        ensures
            self.resolve_output(t) is None,
    {
        let only = Seq::<char>::empty();
        self.ids.index_of_first_ensures(only);
        assert(candidates(self.out_sensor) =~= seq![only]);
        assert(self.average_get(only, t) is None);
        self.lemma_first_available(candidates(self.out_sensor), t);
    }

    /// A sensor that no reading ever arrived of has no average.
    pub proof fn lemma_unknown_sensor(self, id: Seq<char>, t: u64)
        requires
            !self.ids.contains(id),
        ensures
            self.average_get(id, t) is None,
    {
        self.ids.index_of_first_ensures(id);
    }

    /// A second sweep at the same instant discards nothing and changes
    /// nothing.
    pub proof fn lemma_expire_idempotent(self, now: u64)
        ensures
            self.expire(now).expire(now) == self.expire(now),
            forall|i: int|
                0 <= i < self.bufs.len() ==> #[trigger] self.expire(now).n_expired(now)[i] == 0,
    {
        let once = self.expire(now);
        assert forall|i: int| 0 <= i < self.bufs.len() implies swept(#[trigger] once.bufs[i], now)
            == once.bufs[i] && once.bufs[i].n_expired(now) == 0 by {
            self.bufs[i].lemma_expire_idempotent(now);
        }
        assert(once.expire(now).bufs =~= once.bufs);
    }

    /// A sensor is listed from its first reading on: after a reading of it
    /// has arrived it is among the sensors, and so is every sensor that was
    /// there before.
    pub proof fn lemma_add_lists_sensor(self, id: Seq<char>, data: Tdata, now: u64)
        ensures
            self.add(id, data, now).ids.contains(id),
            forall|other: Seq<char>|
                self.ids.contains(other) ==> self.add(id, data, now).ids.contains(other),
    {
        let after = self.add(id, data, now);
        self.ids.index_of_first_ensures(id);
        match self.ids.index_of_first(id) {
            Some(i) => {},
            None => {
                assert(after.ids[self.ids.len() as int] == id);
                assert forall|other: Seq<char>| self.ids.contains(other) implies after.ids.contains(
                    other,
                ) by {
                    let i = choose|i: int| 0 <= i < self.ids.len() && self.ids[i] == other;
                    assert(after.ids[i] == other);
                }
            },
        }
    }

    /// A reading of one sensor leaves the averages of every other sensor as
    /// they are.
    pub proof fn lemma_add_keeps_others(
        self,
        id: Seq<char>,
        data: Tdata,
        now: u64,
        other: Seq<char>,
        t: u64,
    )
        requires
            self.wf(),
            other != id,
        ensures
            self.add(id, data, now).average_get(other, t) == self.average_get(other, t),
    {
        let after = self.add(id, data, now);
        self.ids.index_of_first_ensures(id);
        self.ids.index_of_first_ensures(other);
        after.ids.index_of_first_ensures(other);
        match self.ids.index_of_first(other) {
            Some(i) => {
                assert(after.ids[i] == other);
            },
            None => {
                if after.ids.contains(other) {
                    let i = after.ids.index_of_first(other).unwrap();
                    assert(self.ids[i] == other);
                }
            },
        }
    }
}

/// One sensor: its identifier and its history.
#[derive(Debug)]
struct Sensor {
    id: String,
    buf: Tbuf,
}

/// The readings of all sensors, the windows they are averaged over, and the
/// output selector.
#[derive(Debug)]
pub struct MyData {
    sensor_data: Vec<Sensor>,
    out_sensor: String,
    averages_t: Vec<u64>,
}

impl View for MyData {
    type V = MyDataView;

    closed spec fn view(&self) -> MyDataView {
        MyDataView {
            ids: Seq::new(self.sensor_data@.len(), |i: int| self.sensor_data@[i].id@),
            bufs: Seq::new(self.sensor_data@.len(), |i: int| self.sensor_data@[i].buf@),
            out_sensor: self.out_sensor@,
            averages_t: self.averages_t@,
        }
    }
}

impl MyData {
    /// Every buffer is valid in what it keeps beside its contents.
    pub closed spec fn inv(&self) -> bool {
        forall|i: int|
            0 <= i < self.sensor_data@.len() ==> (#[trigger] self.sensor_data@[i]).buf.inv()
    }

    /// The store is valid: the constructor makes it so and every operation
    /// keeps it so.
    pub open spec fn wf(&self) -> bool {
        &&& self@.wf()
        &&& self.inv()
    }

    /// A store without sensors, with the windows and the output selector of
    /// `opts`.
    pub fn new(opts: &OptsCommon) -> (mydata: MyData)
        ensures
            mydata.wf(),
            mydata@ == (MyDataView {
                ids: Seq::empty(),
                bufs: Seq::empty(),
                out_sensor: opts.out_sensor@,
                averages_t: seq![opts.average_out_t, opts.average_db_t],
            }),
    {
        let out_sensor: String = opts.out_sensor.clone();
        let mut averages_t: Vec<u64> = Vec::with_capacity(2);
        averages_t.push(opts.average_out_t);
        averages_t.push(opts.average_db_t);
        let mydata = MyData { sensor_data: Vec::with_capacity(8), out_sensor, averages_t };
        proof {
            assert(mydata@.ids =~= Seq::empty());
            assert(mydata@.bufs =~= Seq::empty());
            assert(mydata@.averages_t =~= seq![opts.average_out_t, opts.average_db_t]);
        }
        mydata
    }

    /// Where the sensor `id` stands among the sensors.
    fn find(&self, id: &String) -> (found: Option<usize>)
        ensures
            match found {
                Some(i) => self@.ids.index_of_first(id@) == Some(i as int) && i
                    < self.sensor_data@.len(),
                None => self@.ids.index_of_first(id@) is None,
            },
    {
        let n: usize = self.sensor_data.len();
        let mut i: usize = 0;
        while i < n
            invariant
                n == self.sensor_data@.len(),
                0 <= i <= n,
                forall|j: int| 0 <= j < i ==> self@.ids[j] != id@,
            decreases n - i,
        {
            if self.sensor_data[i].id == *id {
                proof {
                    self@.ids.index_of_first_ensures(id@);
                    assert(self@.ids[i as int] == id@);
                }
                return Some(i);
            }
            i += 1;
        }
        proof {
            self@.ids.index_of_first_ensures(id@);
        }
        None
    }

    /// Takes in the reading `temp` of sensor `sensor_id`, which arrives at
    /// `now`.  A sensor that is new gets its buffer first.
    pub fn add(&mut self, sensor_id: &str, temp: i64, now: u64)
        requires
            old(self).wf(),
            sensor_id@.len() > 0,
        ensures
            final(self).wf(),
            final(self)@ == old(self)@.add(sensor_id@, Tdata { timestamp: now, data: temp }, now),
    {
        let id: String = sensor_id.to_owned();
        let data = Tdata::new((temp, now));
        match self.find(&id) {
            Some(i) => {
                assert(self@.bufs[i as int].wf());
                self.sensor_data[i].buf.add(data, now);
                proof {
                    assert(final(self)@.ids =~= old(self)@.ids);
                    assert(final(self)@.bufs =~= old(self)@.bufs.update(
                        i as int,
                        old(self)@.bufs[i as int].add(data, now),
                    ));
                }
            },
            None => {
                let mut buf = Tbuf::new(self.averages_t.as_slice());
                buf.add(data, now);
                self.sensor_data.push(Sensor { id, buf });
                proof {
                    old(self)@.ids.index_of_first_ensures(sensor_id@);
                    assert(final(self)@.ids =~= old(self)@.ids.push(sensor_id@));
                    assert(final(self)@.bufs =~= old(self)@.bufs.push(
                        TbufView::empty(old(self)@.averages_t).add(data, now),
                    ));
                }
            },
        }
    }

    /// The window behind the output average.
    pub fn average_out_t(&self) -> (t: u64)
        requires
            self.wf(),
        ensures
            t == self@.averages_t[0],
    {
        self.averages_t[0]
    }

    /// The window behind the averages that are exported.
    pub fn average_db_t(&self) -> (t: u64)
        requires
            self.wf(),
        ensures
            t == self@.averages_t[1],
    {
        self.averages_t[1]
    }

    /// The cached average of sensor `sensor_id` over the window `t`.  There
    /// is none for a sensor that no reading ever arrived of, nor where the
    /// sensor's buffer has none.
    pub fn average_get(&self, sensor_id: &str, t: u64) -> (avg: Option<Mean>)
        requires
            self.wf(),
        ensures
            avg == self@.average_get(sensor_id@, t),
            !self@.ids.contains(sensor_id@) ==> avg is None,
            avg matches Some(m) ==> m.count > 0,
    {
        let id: String = sensor_id.to_owned();
        proof {
            self@.ids.index_of_first_ensures(sensor_id@);
        }
        match self.find(&id) {
            None => None,
            Some(i) => {
                assert(self@.bufs[i as int].wf());
                self.sensor_data[i].buf.average(t)
            },
        }
    }

    /// The output average over the window `t`: the selector's candidates
    /// are tried from the left, and the first that has an average over `t`
    /// gives it.  There is none if no candidate has one.
    pub fn resolve_output(&self, t: u64) -> (avg: Option<Mean>)
        requires
            self.wf(),
        ensures
            avg == self@.resolve_output(t),
            avg matches Some(m) ==> m.count > 0,
    {
        let ids: Vec<String> = split(self.out_sensor.as_str());
        let n: usize = ids.len();
        let mut i: usize = 0;
        proof {
            assert(names(ids@).skip(0) == names(ids@));
        }
        while i < n
            invariant
                self.wf(),
                n == ids@.len(),
                0 <= i <= n,
                names(ids@) == candidates(self@.out_sensor),
                self@.resolve_output(t) == self@.first_available(names(ids@).skip(i as int), t),
            decreases n - i,
        {
            proof {
                assert(names(ids@).skip(i as int).first() == ids@[i as int]@);
                assert(names(ids@).skip(i as int).drop_first() == names(ids@).skip(i + 1));
            }
            let avg = self.average_get(ids[i].as_str(), t);
            if avg.is_some() {
                return avg;
            }
            i += 1;
        }
        None
    }

    /// The output average over the window that is configured for it.
    pub fn average_out(&self) -> (avg: Option<Mean>)
        requires
            self.wf(),
        ensures
            avg == self@.resolve_output(self@.averages_t[0]),
            avg matches Some(m) ==> m.count > 0,
    {
        let out_t: u64 = self.average_out_t();
        self.resolve_output(out_t)
    }

    /// The identifiers of all sensors that a reading ever arrived of, in
    /// the order of their first reading.
    pub fn sensors_list(&self) -> (list: Vec<String>)
        ensures
            names(list@) == self@.ids,
    {
        let n: usize = self.sensor_data.len();
        let mut list: Vec<String> = Vec::with_capacity(n);
        let mut i: usize = 0;
        while i < n
            invariant
                n == self.sensor_data@.len(),
                0 <= i <= n,
                names(list@) == self@.ids.take(i as int),
            decreases n - i,
        {
            let ghost before = names(list@);
            list.push(self.sensor_data[i].id.clone());
            proof {
                assert(names(list@) =~= before.push(self@.ids[i as int]));
                assert(self@.ids.take(i + 1) =~= self@.ids.take(i as int).push(self@.ids[i as int]));
            }
            i += 1;
        }
        proof {
            assert(self@.ids.take(n as int) == self@.ids);
        }
        list
    }

    /// The averages over the window `t` of the sensors that hold at least
    /// one reading, each with the sensor's identifier, in the order of the
    /// sensors.  A sensor that holds readings but has no average over `t`
    /// is exported as `policy` says.
    pub fn export_snapshot(&self, t: u64, policy: ExportPolicy) -> (exported: Vec<(String, Mean)>)
        requires
            self.wf(),
        ensures
            entries(exported@) == self@.export_snapshot(t, policy),
    {
        let n: usize = self.sensor_data.len();
        let mut exported: Vec<(String, Mean)> = Vec::new();
        let mut i: usize = 0;
        while i < n
            invariant
                self.wf(),
                n == self.sensor_data@.len(),
                0 <= i <= n,
                entries(exported@) == self@.export_first(i as int, t, policy),
            decreases n - i,
        {
            let ghost before = entries(exported@);
            assert(self@.bufs[i as int].wf());
            if !self.sensor_data[i].buf.is_empty() {
                match self.sensor_data[i].buf.average(t) {
                    Some(m) => {
                        exported.push((self.sensor_data[i].id.clone(), m));
                        proof {
                            assert(entries(exported@) =~= before.push((self@.ids[i as int], m)));
                        }
                    },
                    None => match policy {
                        ExportPolicy::ClampToZero => {
                            exported.push(
                                (self.sensor_data[i].id.clone(), Mean { sum: 0, count: 1 }),
                            );
                            proof {
                                assert(entries(exported@) =~= before.push(
                                    (self@.ids[i as int], zero_mean()),
                                ));
                            }
                        },
                        ExportPolicy::SkipUnavailable => {},
                    },
                }
            }
            i += 1;
        }
        exported
    }

    /// The averages that go to the database: those over the window that is
    /// configured for it, of the sensors that hold at least one reading.  A
    /// sensor that holds readings but has no average over that window is
    /// exported with an average of zero.
    pub fn averages_db(&self) -> (exported: Vec<(String, Mean)>)
        requires
            self.wf(),
        ensures
            entries(exported@) == self@.export_snapshot(
                self@.averages_t[1],
                ExportPolicy::ClampToZero,
            ),
    {
        let avg_t_db: u64 = self.average_db_t();
        self.export_snapshot(avg_t_db, ExportPolicy::ClampToZero)
    }

    /// One sweep at `now`: every buffer discards the readings that are too
    /// old, and where any was discarded the buffer's cached averages are
    /// brought up to date.  Returns, for each sensor in order, how many of
    /// its readings were discarded.
    pub fn expire(&mut self, now: u64) -> (n_expired: Vec<usize>)
        requires
            old(self).wf(),
        ensures
            final(self).wf(),
            final(self)@ == old(self)@.expire(now),
            n_expired@.len() == old(self)@.bufs.len(),
            forall|i: int|
                0 <= i < n_expired@.len() ==> n_expired@[i] == old(self)@.bufs[i].n_expired(now),
    {
        let n: usize = self.sensor_data.len();
        let mut n_expired: Vec<usize> = Vec::with_capacity(n);
        let mut i: usize = 0;
        while i < n
            invariant
                self.wf(),
                n == self.sensor_data@.len(),
                0 <= i <= n,
                self@.ids == old(self)@.ids,
                self@.out_sensor == old(self)@.out_sensor,
                self@.averages_t == old(self)@.averages_t,
                self@.bufs.len() == old(self)@.bufs.len(),
                forall|k: int| 0 <= k < i ==> self@.bufs[k] == swept(old(self)@.bufs[k], now),
                forall|k: int| i <= k < n ==> self@.bufs[k] == old(self)@.bufs[k],
                n_expired@.len() == i,
                forall|k: int| 0 <= k < i ==> n_expired@[k] == old(self)@.bufs[k].n_expired(now),
            decreases n - i,
        {
            let ghost before = self@;
            assert(self@.bufs[i as int].wf());
            let n_exp: usize = self.sensor_data[i].buf.expire(now);
            if n_exp > 0 {
                self.sensor_data[i].buf.update_averages(now);
            }
            n_expired.push(n_exp);
            proof {
                assert(self@.ids =~= before.ids);
                assert(self@.bufs =~= before.bufs.update(
                    i as int,
                    swept(before.bufs[i as int], now),
                ));
                assert forall|k: int| 0 <= k < self@.bufs.len() implies (
                #[trigger] self@.bufs[k]).wf() && self@.bufs[k].windows == self@.averages_t by {
                    assert(before.bufs[k].wf());
                }
            }
            i += 1;
        }
        proof {
            assert(self@.bufs =~= old(self)@.expire(now).bufs);
        }
        n_expired
    }

    /// The output selector as it was last set.
    pub fn get_outsensor(&self) -> (data: String)
        ensures
            data@ == self@.out_sensor,
    {
        get(&self.out_sensor)
    }

    /// Replaces the output selector by `data`, a list of sensor identifiers
    /// separated by commas.  It is kept as it is: nothing asks that the
    /// sensors it names exist.
    pub fn set_outsensor(&mut self, data: &str)
        requires
            old(self).wf(),
        ensures
            final(self).wf(),
            final(self)@ == (MyDataView { out_sensor: data@, ..old(self)@ }),
    {
        crate::outsensor::set(&mut self.out_sensor, data);
        proof {
            assert(final(self)@.ids =~= old(self)@.ids);
            assert(final(self)@.bufs =~= old(self)@.bufs);
        }
    }
}

} // verus!

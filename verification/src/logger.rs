//! The logger: it owns the working file, moves it out into the archive when
//! the day ends, and republishes every appended entry to whoever watches.

pub use crate::counter::{counter_value, InternalData};
use crate::counter::{counter_of, record_bytes};
use crate::entry::{Entry, EntryView};
use crate::error::Error;
use crate::fs::{created, opened, LogFile, LogFileView};
use crate::header::{fresh_header, header_len};
use crate::hub::{
    hub_open, hub_position, hub_publish, hub_subscribe, position_after, watcher_position,
    HUB_CAPACITY,
};
use crate::names::{archive_file_name, archive_name};
use crate::time::{day_of, seconds_to_day_end, Date, Timestamp};
use vstd::prelude::*;

verus! {

/// How often the working file is rotated out.
#[derive(Clone, Copy, Debug, PartialEq, Eq, Structural, Hash)]
pub enum Archive {
    Daily,
    Weekly,
}

impl Archive {
    /// Seconds between two rotations.
    pub open spec fn period(self) -> int {
        match self {
            Archive::Daily => 86_400,
            Archive::Weekly => 604_800,
        }
    }

    pub fn period_secs(&self) -> (secs: u64)
        ensures
            secs == self.period(),
    {
        match self {
            Archive::Daily => 86_400,
            Archive::Weekly => 604_800,
        }
    }
}

/// When the rotation timer fires: for the first time after `first_in`
/// seconds, and from then on every `every` seconds.
#[derive(Clone, Copy, Debug, PartialEq, Eq, Structural, Hash)]
pub struct Schedule {
    pub first_in: u32,
    pub every: u64,
}

pub struct Config {
    org: String,
    title: String,
    strategy: Archive,
}

/// What a configuration holds.
pub struct ConfigView {
    pub org: Seq<char>,
    pub title: Seq<char>,
    pub strategy: Archive,
}

impl View for Config {
    type V = ConfigView;

    closed spec fn view(&self) -> ConfigView {
        ConfigView { org: self.org@, title: self.title@, strategy: self.strategy }
    }
}

impl Default for Config {
    /// Daily rotation of a log of which neither name is known.
    fn default() -> (c: Self)
        ensures
            c@ == (ConfigView {
                org: "Unknown"@,
                title: "Unknown"@,
                strategy: Archive::Daily,
            }),
    {
        Self { strategy: Archive::Daily, org: "Unknown".to_owned(), title: "Unknown".to_owned() }
    }
}

impl Config {
    pub fn builder() -> (c: Self)
        ensures
            c@ == (ConfigView {
                org: "Unknown"@,
                title: "Unknown"@,
                strategy: Archive::Daily,
            }),
    {
        Self::default()
    }

    pub fn archive_strategy(self, v: Archive) -> (c: Self)
        ensures
            c@ == (ConfigView { strategy: v, ..self@ }),
    {
        let mut c = self;
        c.strategy = v;
        c
    }

    pub fn org(self, v: String) -> (c: Self)
        ensures
            c@ == (ConfigView { org: v@, ..self@ }),
    {
        let mut c = self;
        c.org = v;
        c
    }

    pub fn title(self, v: String) -> (c: Self)
        ensures
            c@ == (ConfigView { title: v@, ..self@ }),
    {
        let mut c = self;
        c.title = v;
        c
    }

    pub fn strategy(&self) -> (v: Archive)
        ensures
            v == self@.strategy,
    {
        self.strategy
    }

    pub fn org_name(&self) -> (v: &String)
        ensures
            v@ == self@.org,
    {
        &self.org
    }

    pub fn title_name(&self) -> (v: &String)
        ensures
            v@ == self@.title,
    {
        &self.title
    }
}

/// Where the logger stands. Only an active logger accepts entries.
#[derive(Clone, Copy, Debug, PartialEq, Eq, Structural, Hash)]
pub enum Phase {
    Active,
    RotationInProgress,
    ShuttingDown,
}

pub struct Logger {
    config: Config,
    counter: usize,
    working: Option<LogFile>,
    phase: Phase,
    broadcast_tx: tokio::sync::broadcast::Sender<Entry>,
}

/// What a logger holds. Of the hub it holds where it stands: the number
/// that the next entry gets which the hub takes in.
pub struct LoggerView {
    pub config: ConfigView,
    pub counter: usize,
    pub working: Option<LogFileView>,
    pub phase: Phase,
    pub published: u64,
}

impl LoggerView {
    /// An active logger has a working file, a rotating one has none and
    /// has moved its counter on, and a working file is well-formed.
    pub open spec fn wf(self) -> bool {
        &&& self.phase == Phase::Active ==> self.working is Some
        &&& self.phase == Phase::RotationInProgress ==> self.working is None && self.counter > 0
        &&& self.working matches Some(f) ==> f.wf()
    }

    /// The logger that has taken back the file `f`, which it had moved
    /// out.
    pub open spec fn taken_back(self, f: LogFileView) -> LoggerView {
        LoggerView {
            counter: (self.counter - 1) as usize,
            working: Some(f),
            phase: Phase::Active,
            ..self
        }
    }

    /// The logger with a new working file, opened at `now`, in place of the
    /// one that was moved out.
    pub open spec fn renewed(self, now: Timestamp) -> LoggerView {
        LoggerView {
            working: Some(created(self.config.org, self.config.title, self.counter, now)),
            phase: Phase::Active,
            ..self
        }
    }

    /// The logger after the working file was moved out.
    pub open spec fn rotated_out(self) -> LoggerView {
        LoggerView {
            counter: (self.counter + 1) as usize,
            working: None,
            phase: Phase::RotationInProgress,
            ..self
        }
    }
}

/// A working file that was moved out, and the name under which the archive
/// keeps it.
pub struct Archived {
    pub name: String,
    pub file: LogFile,
}

/// The bytes of an image that may be missing.
pub open spec fn image_bytes(image: Option<Vec<u8>>) -> Option<Seq<u8>> {
    match image {
        Some(bytes) => Some(bytes@),
        None => None,
    }
}

/// The logger that starts at `now` on what it finds: the counter of the
/// record, or 1 where there is none yet, and the working file that is
/// there, opened, or a new one with the counter as its identity. Its hub
/// has taken nothing in.
pub open spec fn started(
    config: ConfigView,
    record: Option<Seq<u8>>,
    image: Option<Seq<u8>>,
    now: Timestamp,
) -> Result<LoggerView, Error> {
    match counter_of(record) {
        Err(e) => Err(e),
        Ok(counter) => match image {
            Some(bytes) => match opened(bytes) {
                Ok(f) => Ok(
                    LoggerView {
                        config,
                        counter,
                        working: Some(f),
                        phase: Phase::Active,
                        published: 0,
                    },
                ),
                Err(e) => Err(e),
            },
            None => if header_len(fresh_header(config.org, config.title, counter)) > 1024 {
                Err(Error::HeaderTooLarge)
            } else {
                Ok(
                    LoggerView {
                        config,
                        counter,
                        working: Some(created(config.org, config.title, counter, now)),
                        phase: Phase::Active,
                        published: 0,
                    },
                )
            },
        },
    }
}

impl View for Logger {
    type V = LoggerView;

    closed spec fn view(&self) -> LoggerView {
        LoggerView {
            config: self.config@,
            counter: self.counter,
            working: match self.working {
                Some(f) => Some(f@),
                None => None,
            },
            phase: self.phase,
            published: hub_position(self.broadcast_tx),
        }
    }
}

impl Logger {
    /// Starts the logger at `now`. `counter_record` holds the bytes of the
    /// counter record and `working_image` those of the working file, each
    /// where there is one.
    pub fn init(
        config: Config,
        counter_record: Option<&[u8]>,
        working_image: Option<Vec<u8>>,
        now: Timestamp,
    ) -> (r: Result<Logger, Error>)
        ensures
            match started(config@, record_bytes(counter_record), image_bytes(working_image), now) {
                Ok(v) => r matches Ok(logger) && logger@ == v && v.wf(),
                Err(e) => r matches Err(x) && x == e,
            },
            r matches Ok(logger) ==> (logger@.working matches Some(f) && f.synced() && (
            working_image is None ==> f.clean() && f.entries() == Seq::<EntryView>::empty())),
    {
        let counter: usize = match InternalData::read(counter_record) {
            Ok(data) => data.counter,
            Err(e) => { return Err(e); },
        };
        let working = match working_image {
            Some(bytes) => match LogFile::open(bytes) {
                Ok(f) => f,
                Err(e) => { return Err(e); },
            },
            None => match LogFile::init(
                false,
                config.org.clone(),
                config.title.clone(),
                counter,
                now,
            ) {
                Ok(f) => f,
                Err(e) => { return Err(e); },
            },
        };
        Ok(
            Logger {
                config,
                counter,
                working: Some(working),
                phase: Phase::Active,
                broadcast_tx: hub_open(HUB_CAPACITY),
            },
        )
    }

    pub fn config(&self) -> (c: &Config)
        ensures
            c@ == self@.config,
    {
        &self.config
    }

    /// The identity that the next working file gets.
    pub fn counter(&self) -> (c: usize)
        ensures
            c == self@.counter,
    {
        self.counter
    }

    pub fn phase(&self) -> (p: Phase)
        ensures
            p == self@.phase,
    {
        self.phase
    }

    /// The working file, where there is one.
    pub fn working(&self) -> (w: Option<&LogFile>)
        ensures
            match w {
                Some(f) => self@.working == Some(f@),
                None => self@.working is None,
            },
    {
        self.working.as_ref()
    }

    /// Appends the entry to the working file and publishes it to the
    /// watchers: the result is the number of watchers that the hub took it
    /// in for, and the hub moves on by one unless there was none. A logger
    /// that is not active refuses the entry, and nothing is published then.
    pub fn add_entry(&mut self, entry: Entry) -> (r: Result<usize, Error>)
        requires
            old(self)@.wf(),
        ensures
            final(self)@.wf(),
            old(self)@.phase == Phase::Active ==> (r matches Ok(reached) && final(self)@ == (
            LoggerView {
                working: Some(old(self)@.working->0.appended(entry@)),
                published: if reached > 0 {
                    position_after(old(self)@.published)
                } else {
                    old(self)@.published
                },
                ..old(self)@
            })),
            old(self)@.phase != Phase::Active ==> r == Err::<usize, Error>(Error::NotActive)
                && final(self)@ == old(self)@,
    {
        match self.phase {
            Phase::Active => {},
            _ => { return Err(Error::NotActive); },
        }
        match &mut self.working {
            Some(file) => {
                file.add_entry(entry.duplicate());
            },
            None => {},
        }
        match hub_publish(&mut self.broadcast_tx, entry) {
            Some(reached) => Ok(reached),
            None => Ok(0),
        }
    }

    /// A new watcher. It stands where the hub stands: the next entry that
    /// it reads is the next one that the hub takes in, so it gets what is
    /// published from now on and nothing of what was published or appended
    /// before.
    pub fn watch(&self) -> (rx: tokio::sync::broadcast::Receiver<Entry>)
        ensures
            watcher_position(rx) == self@.published,
    {
        hub_subscribe(&self.broadcast_tx)
    }

    /// Moves the working file out on the day `date`: it leaves the logger,
    /// with the name that the archive is to keep it under, and the counter
    /// moves on. A logger that is not active has no file to move. A counter
    /// that cannot move on keeps the file where it is.
    pub fn archive_on(&mut self, date: Date) -> (r: Result<Option<Archived>, Error>)
        requires
            old(self)@.wf(),
        ensures
            final(self)@.wf(),
            old(self)@.phase != Phase::Active ==> (r matches Ok(None) && final(self)@ == old(self)@),
            old(self)@.phase == Phase::Active && old(self)@.counter == usize::MAX ==> (r matches Err(
                Error::CounterExhausted,
            ) && final(self)@ == old(self)@),
            old(self)@.phase == Phase::Active && old(self)@.counter < usize::MAX ==> (r matches Ok(
                Some(a),
            ) && Some(a.file@) == old(self)@.working
                && a.name@ == archive_file_name(a.file@.header, date)
                && final(self)@ == old(self)@.rotated_out()),
    {
        match self.phase {
            Phase::Active => {},
            _ => { return Ok(None); },
        }
        let next: usize = match self.counter.checked_add(1) {
            Some(n) => n,
            None => { return Err(Error::CounterExhausted); },
        };
        match self.working.take() {
            Some(file) => {
                let name = archive_name(file.header(), date);
                self.counter = next;
                self.phase = Phase::RotationInProgress;
                Ok(Some(Archived { name, file }))
            },
            None => Ok(None),
        }
    }

    /// Takes back a working file that was moved out of the logger and could
    /// not be moved into the archive: the logger works on it as before, and
    /// the counter is what it was. Only a logger whose file is moved out
    /// takes one back.
    pub fn put_back(&mut self, archived: Archived) -> (r: Result<(), Error>)
        requires
            old(self)@.wf(),
            archived.file@.wf(),
        ensures
            final(self)@.wf(),
            old(self)@.phase == Phase::Active ==> r == Err::<(), Error>(Error::AlreadyExists),
            old(self)@.phase == Phase::ShuttingDown ==> r == Err::<(), Error>(Error::NotActive),
            old(self)@.phase == Phase::RotationInProgress ==> r is Ok,
            r is Err ==> final(self)@ == old(self)@,
            r is Ok ==> final(self)@ == old(self)@.taken_back(archived.file@),
    {
        match self.phase {
            Phase::Active => { return Err(Error::AlreadyExists); },
            Phase::ShuttingDown => { return Err(Error::NotActive); },
            Phase::RotationInProgress => {},
        }
        self.working = Some(archived.file);
        self.counter = self.counter - 1;
        self.phase = Phase::Active;
        Ok(())
    }

    /// Moves the working file out at the time `now`, on the day that a
    /// clock shows which is `offset` seconds ahead of UTC: what `archive_on`
    /// does on that day. Where the calendar does not reach that day, an
    /// active logger keeps its file.
    pub fn archive(&mut self, now: Timestamp, offset: i32) -> (r: Result<Option<Archived>, Error>)
        requires
            old(self)@.wf(),
        ensures
            final(self)@.wf(),
            old(self)@.phase != Phase::Active ==> (r matches Ok(None) && final(self)@ == old(self)@),
            old(self)@.phase == Phase::Active && day_of(now, offset) is None ==> (r matches Err(
                Error::DateOutOfRange,
            ) && final(self)@ == old(self)@),
            old(self)@.phase == Phase::Active && day_of(now, offset) is Some && old(self)@.counter
                == usize::MAX ==> (r matches Err(Error::CounterExhausted) && final(self)@ == old(self)@),
            old(self)@.phase == Phase::Active && day_of(now, offset) is Some && old(self)@.counter
                < usize::MAX ==> (r matches Ok(Some(a)) && Some(a.file@) == old(self)@.working
                && a.name@ == archive_file_name(a.file@.header, day_of(now, offset)->0)
                && final(self)@ == old(self)@.rotated_out()),
    {
        match self.phase {
            Phase::Active => {},
            _ => { return Ok(None); },
        }
        match now.day(offset) {
            Some(date) => self.archive_on(date),
            None => Err(Error::DateOutOfRange),
        }
    }

    /// Gives a logger whose working file was moved out a new one, opened at
    /// `now`, with the counter as its identity. An active logger has a
    /// working file already, and one that is shutting down gets none.
    pub fn renew(&mut self, now: Timestamp) -> (r: Result<(), Error>)
        requires
            old(self)@.wf(),
        ensures
            final(self)@.wf(),
            r is Err ==> final(self)@ == old(self)@,
            old(self)@.phase == Phase::Active ==> r == Err::<(), Error>(Error::AlreadyExists),
            old(self)@.phase == Phase::ShuttingDown ==> r == Err::<(), Error>(Error::NotActive),
            old(self)@.phase == Phase::RotationInProgress ==> if header_len(
                fresh_header(old(self)@.config.org, old(self)@.config.title, old(self)@.counter),
            ) > 1024 {
                r == Err::<(), Error>(Error::HeaderTooLarge)
            } else {
                r is Ok && final(self)@ == old(self)@.renewed(now)
            },
            r is Ok ==> (final(self)@.working matches Some(f) && f.synced() && f.clean()
                && f.entries() == Seq::<EntryView>::empty()),
    {
        match self.phase {
            Phase::Active => { return Err(Error::AlreadyExists); },
            Phase::ShuttingDown => { return Err(Error::NotActive); },
            Phase::RotationInProgress => {},
        }
        match LogFile::init(
            false,
            self.config.org.clone(),
            self.config.title.clone(),
            self.counter,
            now,
        ) {
            Ok(file) => {
                self.working = Some(file);
                self.phase = Phase::Active;
                Ok(())
            },
            Err(e) => Err(e),
        }
    }

    /// The timer of the rotation for a logger that starts at `now` on a
    /// clock that is `offset` seconds ahead of UTC: it fires when that clock
    /// next shows 23:59:59, and then once every period of the configured
    /// strategy.
    pub fn rotation_schedule(&self, now: Timestamp, offset: i32) -> (s: Schedule)
        ensures
            s.first_in == seconds_to_day_end(now, offset),
            s.first_in < 86_400,
            s.every == self@.config.strategy.period(),
    {
        Schedule { first_in: now.until_day_end(offset), every: self.config.strategy.period_secs() }
    }

    /// Ends the logger at `t`: the working file, where there is one, is
    /// stamped as closed, and no entry is accepted any more.
    pub fn shut_down(&mut self, t: Timestamp)
        requires
            old(self)@.wf(),
        ensures
            final(self)@.wf(),
            final(self)@ == (LoggerView {
                working: match old(self)@.working {
                    Some(f) => Some(f.closed_at(t)),
                    None => None,
                },
                phase: Phase::ShuttingDown,
                ..old(self)@
            }),
    {
        match &mut self.working {
            Some(file) => {
                file.close(t);
            },
            None => {},
        }
        self.phase = Phase::ShuttingDown;
    }
}

} // verus!

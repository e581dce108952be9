//! Polling a volume for events: how often, where to go on from, and how long to
//! wait after a failure. Times are in nanoseconds.

use vstd::prelude::*;

use crate::error::ProtonError;
use crate::events::DriveEvent;
use crate::ids::DriveEventId;

verus! {

/// How often a volume in use is polled: every thirty seconds.
pub const DEFAULT_FOREGROUND_INTERVAL: u128 = 30_000_000_000;

/// How often an idle volume is polled: every ten minutes.
pub const DEFAULT_BACKGROUND_INTERVAL: u128 = 600_000_000_000;

/// The wait after a first failure: one second.
pub const RETRY_MIN: u128 = 1_000_000_000;

/// Where the cursor is kept between runs, in memory only.
#[derive(Debug, PartialEq, Eq)]
pub struct MemoryCursorStore {
    pub cursor: Option<DriveEventId>,
}

impl Default for MemoryCursorStore {
    fn default() -> (store: MemoryCursorStore)
        ensures
            store.cursor is None,
    {
        MemoryCursorStore { cursor: None }
    }
}

impl MemoryCursorStore {
    /// The cursor that was saved last; `None` before that.
    pub fn load(&self) -> (r: Option<DriveEventId>)
        ensures
            r == self.cursor,
    {
        self.cursor.clone()
    }

    /// Saves the cursor to go on from.
    pub fn save(&mut self, cursor: &DriveEventId)
        ensures
            final(self).cursor == Some(*cursor),
    {
        self.cursor = Some(cursor.clone());
    }
}

/// How a manager polls.
#[derive(Debug, Clone, PartialEq, Eq)]
pub struct EventManagerConfig {
    pub foreground_interval: u128,
    pub background_interval: u128,
    /// How many events a subscriber can fall behind.
    pub channel_capacity: usize,
}

impl Default for EventManagerConfig {
    fn default() -> (config: EventManagerConfig)
        ensures
            config.foreground_interval == DEFAULT_FOREGROUND_INTERVAL,
            config.background_interval == DEFAULT_BACKGROUND_INTERVAL,
            config.channel_capacity == 256,
    {
        EventManagerConfig {
            foreground_interval: DEFAULT_FOREGROUND_INTERVAL,
            background_interval: DEFAULT_BACKGROUND_INTERVAL,
            channel_capacity: 256,
        }
    }
}

/// The wait after another failure: twice as long, but no longer than `most`.
pub open spec fn next_wait(wait: int, most: int) -> int {
    if 2 * wait < most {
        2 * wait
    } else {
        most
    }
}

fn doubled(wait: u128, most: u128) -> (r: u128)
    ensures
        r == next_wait(wait as int, most as int),
{
    if wait < most && wait < most - wait {
        wait + wait
    } else {
        most
    }
}

/// Where polling starts.
#[derive(Debug, PartialEq, Eq)]
pub enum StartCursor {
    /// Where the last run left off.
    Resume(DriveEventId),
    /// At the head of the stream, which has to be asked for.
    Seed,
}

/// Where polling starts: at a saved cursor. Without one, and when it cannot be
/// loaded, at the head of the stream.
pub fn resolve_start_cursor(loaded: Result<Option<DriveEventId>, ProtonError>) -> (r: StartCursor)
    ensures
        match loaded {
            Ok(Some(cursor)) => r == StartCursor::Resume(cursor),
            _ => r == StartCursor::Seed,
        },
{
    match loaded {
        Ok(Some(cursor)) => StartCursor::Resume(cursor),
        Ok(None) => StartCursor::Seed,
        Err(_) => StartCursor::Seed,
    }
}

/// The position of the last event.
pub open spec fn last_position(events: Seq<DriveEvent>) -> Option<DriveEventId> {
    if events.len() == 0 {
        None
    } else {
        Some(events.last().position())
    }
}

/// The position of the last event, which is where to go on from.
pub fn last_event_id(events: &Vec<DriveEvent>) -> (r: Option<DriveEventId>)
    ensures
        r == last_position(events@),
        r is Some <==> events@.len() > 0,
        r is Some ==> r->0 == events@.last().position(),
{
    if events.len() == 0 {
        None
    } else {
        Some(events[events.len() - 1].id().clone())
    }
}

/// The state of a manager that polls one volume.
#[derive(Debug, PartialEq, Eq)]
pub struct EventManager {
    config: EventManagerConfig,
    foreground: bool,
    cursor: Option<DriveEventId>,
    retry: u128,
}

impl EventManager {
    pub closed spec fn settings(self) -> EventManagerConfig {
        self.config
    }

    pub closed spec fn in_foreground(self) -> bool {
        self.foreground
    }

    pub closed spec fn position(self) -> Option<DriveEventId> {
        self.cursor
    }

    /// How long to wait after the next failure.
    pub closed spec fn wait(self) -> u128 {
        self.retry
    }

    /// How often the volume is polled now.
    pub open spec fn interval(self) -> u128 {
        if self.in_foreground() {
            self.settings().foreground_interval
        } else {
            self.settings().background_interval
        }
    }

    /// A manager in the foreground with the usual settings.
    pub fn new() -> (manager: EventManager)
        ensures
            manager.settings().foreground_interval == DEFAULT_FOREGROUND_INTERVAL,
            manager.settings().background_interval == DEFAULT_BACKGROUND_INTERVAL,
            manager.settings().channel_capacity == 256,
            manager.in_foreground(),
            manager.position() is None,
            manager.wait() == RETRY_MIN,
    {
        EventManager::with_config(EventManagerConfig::default())
    }

    /// A manager in the foreground.
    pub fn with_config(config: EventManagerConfig) -> (manager: EventManager)
        ensures
            manager.settings() == config,
            manager.in_foreground(),
            manager.position() is None,
            manager.wait() == RETRY_MIN,
    {
        EventManager { config, foreground: true, cursor: None, retry: RETRY_MIN }
    }

    /// How many events the channel to subscribers holds: one at least.
    pub fn channel_capacity(&self) -> (r: usize)
        ensures
            r == (if self.settings().channel_capacity == 0 {
                1
            } else {
                self.settings().channel_capacity
            }),
    {
        if self.config.channel_capacity == 0 {
            1
        } else {
            self.config.channel_capacity
        }
    }

    /// Switches between frequent and lazy polling.
    pub fn set_foreground(&mut self, foreground: bool)
        ensures
            final(self).in_foreground() == foreground,
            final(self).settings() == old(self).settings(),
            final(self).position() == old(self).position(),
            final(self).wait() == old(self).wait(),
    {
        self.foreground = foreground;
    }

    pub fn is_foreground(&self) -> (r: bool)
        ensures
            r == self.in_foreground(),
    {
        self.foreground
    }

    /// How often the volume is polled now.
    pub fn current_interval(&self) -> (r: u128)
        ensures
            r == self.interval(),
            r == (if self.in_foreground() {
                self.settings().foreground_interval
            } else {
                self.settings().background_interval
            }),
    {
        if self.foreground {
            self.config.foreground_interval
        } else {
            self.config.background_interval
        }
    }

    /// The wait before the head is asked for again, after `delay`.
    pub fn next_seed_delay(&self, delay: u128) -> (r: u128)
        ensures
            r == next_wait(delay as int, self.settings().background_interval as int),
            2 * delay < self.settings().background_interval ==> r == 2 * delay,
            2 * delay >= self.settings().background_interval ==> r == self.settings().background_interval,
    {
        doubled(delay, self.config.background_interval)
    }

    /// Starts at a position.
    pub fn started(&mut self, cursor: Option<DriveEventId>)
        ensures
            final(self).position() == cursor,
            final(self).settings() == old(self).settings(),
            final(self).in_foreground() == old(self).in_foreground(),
            final(self).wait() == old(self).wait(),
    {
        self.cursor = cursor;
    }

    /// The position from which to poll.
    pub fn cursor(&self) -> (r: &Option<DriveEventId>)
        ensures
            *r == self.position(),
    {
        &self.cursor
    }

    /// How long to wait after a poll that failed.
    pub fn retry_wait(&self) -> (wait: u128)
        ensures
            wait == self.wait(),
    {
        self.retry
    }

    /// Takes in that the wait after a failed poll is over. The next wait is twice as
    /// long, but no longer than the interval that holds by now. The position stays.
    pub fn waited(&mut self)
        ensures
            final(self).wait() == next_wait(old(self).wait() as int, old(self).interval() as int),
            final(self).position() == old(self).position(),
            final(self).settings() == old(self).settings(),
            final(self).in_foreground() == old(self).in_foreground(),
            ({
                let most = if old(self).in_foreground() {
                    old(self).settings().foreground_interval
                } else {
                    old(self).settings().background_interval
                };
                &&& 2 * old(self).wait() < most ==> final(self).wait() == 2 * old(self).wait()
                &&& 2 * old(self).wait() >= most ==> final(self).wait() == most
            }),
    {
        self.retry = doubled(self.retry, self.current_interval());
    }

    /// Takes in what a poll brought; returns the position to save, if it moved. The
    /// wait after failures starts over.
    pub fn polled(&mut self, events: &Vec<DriveEvent>) -> (save: Option<DriveEventId>)
        ensures
            final(self).wait() == RETRY_MIN,
            final(self).settings() == old(self).settings(),
            final(self).in_foreground() == old(self).in_foreground(),
            save == last_position(events@),
            final(self).position() == (if events@.len() == 0 {
                old(self).position()
            } else {
                last_position(events@)
            }),
            save is Some <==> events@.len() > 0,
            save is Some ==> save->0 == events@.last().position() && final(self).position() == save,
            save is None ==> final(self).position() == old(self).position(),
            final(self).wait() == 1_000_000_000,
    {
        self.retry = RETRY_MIN;
        if events.len() == 0 {
            return None;
        }
        self.cursor = last_event_id(events);
        last_event_id(events)
    }
}

/// The wait after `n` failures in a row, at a fixed interval.
pub open spec fn wait_after(n: nat, interval: int) -> int
    decreases n,
{
    if n == 0 {
        RETRY_MIN as int
    } else {
        next_wait(wait_after((n - 1) as nat, interval), interval)
    }
}

/// Waits never grow beyond the interval, and while they are below it each is twice
/// the one before.
pub proof fn law_waits_double_up_to_the_interval(n: nat, interval: int)
    requires
        RETRY_MIN <= interval,
    ensures
        RETRY_MIN <= wait_after(n, interval) <= interval,
        wait_after(n + 1, interval) < interval ==> wait_after(n + 1, interval) == 2 * wait_after(
            n,
            interval,
        ),
    decreases n,
{
    if n > 0 {
        law_waits_double_up_to_the_interval((n - 1) as nat, interval);
    }
}

/// The wait after `n` failures is a second doubled `n` times, or the interval where that
/// is shorter.
pub proof fn law_waits_grow_from_a_second(n: nat, interval: int)
    requires
        1_000_000_000 <= interval,
    ensures
        wait_after(0, interval) == 1_000_000_000,
        wait_after(n + 1, interval) == (if 2 * wait_after(n, interval) < interval {
            2 * wait_after(n, interval)
        } else {
            interval
        }),
        DEFAULT_FOREGROUND_INTERVAL == 30 * RETRY_MIN,
        DEFAULT_BACKGROUND_INTERVAL == 600 * RETRY_MIN,
{
}

} // verus!

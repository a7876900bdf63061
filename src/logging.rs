//! A bounded in-memory log of the application's events.
use vstd::prelude::*;
use std::collections::VecDeque;
use crate::codec::now_millis;

verus! {

/// One event of the log.
pub struct LogEntry {
    pub timestamp: i64,
    pub level: String,
    pub category: String,
    pub message: String,
}

/// An event, as plain values.
pub struct LogEntryView {
    pub timestamp: i64,
    pub level: Seq<char>,
    pub category: Seq<char>,
    pub message: Seq<char>,
}

impl View for LogEntry {
    type V = LogEntryView;

    open spec fn view(&self) -> LogEntryView {
        LogEntryView {
            timestamp: self.timestamp,
            level: self.level@,
            category: self.category@,
            message: self.message@,
        }
    }
}

impl LogEntry {
    /// A copy of the event.
    pub fn duplicate(&self) -> (r: LogEntry)
        ensures
            r@ == self@,
    {
        LogEntry {
            timestamp: self.timestamp,
            level: self.level.clone(),
            category: self.category.clone(),
            message: self.message.clone(),
        }
    }
}

pub open spec fn entry_views(es: Seq<LogEntry>) -> Seq<LogEntryView> {
    es.map_values(|e: LogEntry| e@)
}

proof fn lemma_entry_views_push(es: Seq<LogEntry>, e: LogEntry)
    ensures
        entry_views(es.push(e)) == entry_views(es).push(e@),
{
    assert(entry_views(es.push(e)) =~= entry_views(es).push(e@));
}

/// The log after `e` is recorded: when it already holds `max` events or more,
/// its oldest one makes room.
pub open spec fn recorded(s: Seq<LogEntryView>, max: nat, e: LogEntryView) -> Seq<LogEntryView> {
    (if s.len() >= max && s.len() > 0 {
        s.drop_first()
    } else {
        s
    }).push(e)
}

/// The events recorded after `since`, oldest first.
pub open spec fn entries_after(s: Seq<LogEntryView>, since: i64) -> Seq<LogEntryView> {
    s.filter(|e: LogEntryView| e.timestamp > since)
}

/// The most recent events, oldest first, at most `max_entries` of them (one,
/// when the bound is zero).
pub struct AppLogger {
    entries: VecDeque<LogEntry>,
    max_entries: usize,
}

impl View for AppLogger {
    type V = Seq<LogEntryView>;

    closed spec fn view(&self) -> Seq<LogEntryView> {
        entry_views(self.entries@)
    }
}

impl AppLogger {
    /// The bound the log was made with.
    pub closed spec fn capacity(&self) -> nat {
        self.max_entries as nat
    }

    /// An empty log that keeps at most `max_entries` events.
    pub fn new(max_entries: usize) -> (r: AppLogger)
        ensures
            r@ == Seq::<LogEntryView>::empty(),
            r.capacity() == max_entries,
    {
        let r = AppLogger { entries: VecDeque::with_capacity(max_entries), max_entries };
        assert(r@ =~= Seq::<LogEntryView>::empty());
        r
    }

    /// Records an event of `level` at time `timestamp`.
    pub fn log_at(&mut self, level: &str, category: &str, message: &str, timestamp: i64)
        ensures
            final(self).capacity() == old(self).capacity(),
            final(self)@ == recorded(
                old(self)@,
                old(self).capacity(),
                LogEntryView { timestamp, level: level@, category: category@, message: message@ },
            ),
    {
        let entry = LogEntry {
            timestamp,
            level: level.to_owned(),
            category: category.to_owned(),
            message: message.to_owned(),
        };
        let ghost before = self.entries@;
        let ghost ev = entry@;
        if self.entries.len() >= self.max_entries {
            let _ = self.entries.pop_front();
        }
        let ghost mid = self.entries@;
        self.entries.push_back(entry);
        proof {
            if before.len() >= self.max_entries && before.len() > 0 {
                assert(entry_views(mid) =~= entry_views(before).drop_first());
            } else {
                assert(mid == before);
            }
            assert(entry_views(self.entries@) =~= entry_views(mid).push(ev));
        }
    }

    /// Records an event of `level` at the time now.
    pub fn log(&mut self, level: &str, category: &str, message: &str)
        ensures
            final(self).capacity() == old(self).capacity(),
            exists|t: i64| final(self)@ == recorded(
                old(self)@,
                old(self).capacity(),
                LogEntryView { timestamp: t, level: level@, category: category@, message: message@ },
            ),
    {
        let now = now_millis();
        self.log_at(level, category, message, now);
    }

    /// Records an event of level `info` at the time now.
    pub fn info(&mut self, category: &str, message: &str)
        ensures
            final(self).capacity() == old(self).capacity(),
            exists|t: i64| final(self)@ == recorded(
                old(self)@,
                old(self).capacity(),
                LogEntryView { timestamp: t, level: "info"@, category: category@, message: message@ },
            ),
    {
        self.log("info", category, message);
    }

    /// Records an event of level `warn` at the time now.
    pub fn warn(&mut self, category: &str, message: &str)
        ensures
            final(self).capacity() == old(self).capacity(),
            exists|t: i64| final(self)@ == recorded(
                old(self)@,
                old(self).capacity(),
                LogEntryView { timestamp: t, level: "warn"@, category: category@, message: message@ },
            ),
    {
        self.log("warn", category, message);
    }

    /// Records an event of level `error` at the time now.
    pub fn error(&mut self, category: &str, message: &str)
        ensures
            final(self).capacity() == old(self).capacity(),
            exists|t: i64| final(self)@ == recorded(
                old(self)@,
                old(self).capacity(),
                LogEntryView { timestamp: t, level: "error"@, category: category@, message: message@ },
            ),
    {
        self.log("error", category, message);
    }

    /// All the events held, oldest first.
    pub fn get_entries(&self) -> (r: Vec<LogEntry>)
        ensures
            entry_views(r@) == self@,
    {
        let mut r: Vec<LogEntry> = Vec::new();
        let mut i: usize = 0;
        while i < self.entries.len()
            invariant
                i <= self.entries@.len(),
                entry_views(r@) == entry_views(self.entries@).take(i as int),
            decreases self.entries.len() - i,
        {
            let e = self.entries[i].duplicate();
            proof {
                lemma_entry_views_push(r@, e);
            }
            r.push(e);
            i = i + 1;
            assert(entry_views(r@) =~= entry_views(self.entries@).take(i as int));
        }
        assert(entry_views(self.entries@).take(i as int) =~= self@);
        r
    }

    /// The events recorded after `since_timestamp`, oldest first.
    pub fn get_entries_since(&self, since_timestamp: i64) -> (r: Vec<LogEntry>)
        ensures
            entry_views(r@) == entries_after(self@, since_timestamp),
    {
        let ghost s = self@;
        let mut r: Vec<LogEntry> = Vec::new();
        let mut i: usize = 0;
        while i < self.entries.len()
            invariant
                i <= self.entries@.len(),
                s == entry_views(self.entries@),
                entry_views(r@) == entries_after(s.take(i as int), since_timestamp),
            decreases self.entries.len() - i,
        {
            let e = &self.entries[i];
            if e.timestamp > since_timestamp {
                r.push(e.duplicate());
            }
            proof {
                reveal(Seq::filter);
                assert(s.take(i + 1).drop_last() =~= s.take(i as int));
            }
            assert(entry_views(r@) =~= entries_after(s.take(i + 1), since_timestamp));
            i = i + 1;
        }
        assert(s.take(i as int) =~= s);
        r
    }
}

} // verus!

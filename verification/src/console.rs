//! The activity log behind the console panel.
//!
//! Anything the backend does on the user's behalf that they could not
//! otherwise see — a file written, a cache rebuilt, a tool call made by an MCP
//! client — is recorded here. The log is bounded so a long session cannot grow
//! it without limit; the oldest entries fall off the front.
use std::collections::VecDeque;
use vstd::prelude::*;

verus! {

/// Entries kept in memory. Two thousand is a long afternoon of edits.
pub const CAPACITY: usize = 2000;

#[derive(Debug, Clone, Copy, PartialEq, Eq, Structural)]
pub enum Level {
    Info,
    Warn,
    Error,
}

/// Who did the thing being logged, so the panel can be filtered to one.
#[derive(Debug, Clone, Copy, PartialEq, Eq, Structural)]
pub enum Source {
    /// The app itself: caches, startup, settings.
    App,
    /// A file written on the user's behalf, from any editor.
    Files,
    /// The MCP server: clients, tool calls.
    Mcp,
}

#[derive(Debug, Clone)]
pub struct Entry {
    pub id: u64,
    /// Milliseconds since the Unix epoch.
    pub at_ms: u64,
    pub level: Level,
    pub source: Source,
    pub message: String,
    /// Longer text shown when the entry is expanded: tool arguments, a
    /// result, the full error.
    pub detail: Option<String>,
}

impl Entry {
    /// A field-by-field copy.
    pub fn duplicate(&self) -> (copy: Entry)
        ensures
            copy == *self,
    {
        Entry {
            id: self.id,
            at_ms: self.at_ms,
            level: self.level,
            source: self.source,
            message: self.message.clone(),
            detail: match &self.detail {
                Some(detail) => Some(detail.clone()),
                None => None,
            },
        }
    }
}

/// The log: its entries, oldest first, and the id the next entry gets.
pub struct Console {
    entries: VecDeque<Entry>,
    next_id: u64,
}

impl Console {
    pub closed spec fn log(&self) -> Seq<Entry> {
        self.entries@
    }

    pub closed spec fn next(&self) -> u64 {
        self.next_id
    }

    /// The log never holds more than `CAPACITY` entries.
    pub closed spec fn wf(&self) -> bool {
        self.entries@.len() <= CAPACITY
    }

    pub fn new() -> (console: Console)
        ensures
            console.wf(),
            console.log() == Seq::<Entry>::empty(),
            console.next() == 0,
    {
        Console { entries: VecDeque::new(), next_id: 0 }
    }

    /// Records an entry stamped with the current time. Ids rise by one per
    /// entry (wrapping after `u64::MAX`); past `CAPACITY` the oldest entry
    /// is dropped.
    pub fn push(&mut self, level: Level, source: Source, message: String, detail: Option<String>) -> (entry: Entry)
        requires
            old(self).wf(),
        ensures
            final(self).wf(),
            entry.id == old(self).next(),
            entry.level == level,
            entry.source == source,
            entry.message == message,
            entry.detail == detail,
            final(self).next() == old(self).next().wrapping_add(1),
            final(self).log() == (if old(self).log().len() >= CAPACITY {
                old(self).log().drop_first()
            } else {
                old(self).log()
            }).push(entry),
    {
        let at_ms = crate::settings::now_ms();
        self.push_at(level, source, message, detail, at_ms)
    }

    /// `push` with the time given.
    pub fn push_at(
        &mut self,
        level: Level,
        source: Source,
        message: String,
        detail: Option<String>,
        at_ms: u64,
    ) -> (entry: Entry)
        requires
            old(self).wf(),
        ensures
            final(self).wf(),
            entry == (Entry { id: old(self).next(), at_ms, level, source, message, detail }),
            final(self).next() == old(self).next().wrapping_add(1),
            final(self).log() == (if old(self).log().len() >= CAPACITY {
                old(self).log().drop_first()
            } else {
                old(self).log()
            }).push(entry),
    {
        let entry = Entry { id: self.next_id, at_ms, level, source, message, detail };
        self.next_id = self.next_id.wrapping_add(1);
        if self.entries.len() >= CAPACITY {
            let ghost before = self.entries@;
            self.entries.pop_front();
            assert(self.entries@ =~= before.drop_first());
        }
        self.entries.push_back(entry.duplicate());
        entry
    }

    /// A copy of every entry, oldest first.
    pub fn entries(&self) -> (all: Vec<Entry>)
        ensures
            all@ == self.log(),
    {
        let mut all: Vec<Entry> = Vec::new();
        let mut i: usize = 0;
        while i < self.entries.len()
            invariant
                i <= self.entries@.len(),
                all@ == self.entries@.take(i as int),
            decreases self.entries@.len() - i,
        {
            all.push(self.entries[i].duplicate());
            i = i + 1;
            assert(all@ =~= self.entries@.take(i as int));
        }
        assert(self.entries@.take(self.entries@.len() as int) =~= self.entries@);
        all
    }

    /// Empties the log. The id sequence carries on, so the panel can never
    /// confuse a new entry with a cleared one it still has on screen.
    pub fn clear(&mut self)
        ensures
            final(self).wf(),
            final(self).log() == Seq::<Entry>::empty(),
            final(self).next() == old(self).next(),
    {
        self.entries.clear();
    }
}

impl Default for Console {
    fn default() -> (console: Console)
        ensures
            console.wf(),
            console.log() == Seq::<Entry>::empty(),
            console.next() == 0,
    {
        Console::new()
    }
}

/// Law: the log never grows past its capacity, however many entries are
/// pushed; each push adds its entry at the end.
pub proof fn law_log_is_bounded(before: Seq<Entry>, entry: Entry)
    requires
        before.len() <= CAPACITY,
    ensures
        (if before.len() >= CAPACITY {
            before.drop_first()
        } else {
            before
        }).push(entry).len() <= CAPACITY,
        (if before.len() >= CAPACITY {
            before.drop_first()
        } else {
            before
        }).push(entry).last() == entry,
{
}

} // verus!

//! The in-memory log that the GUI shows: a bounded buffer of log entries with
//! a change counter, and the line format of the persistent log file.

use vstd::prelude::*;

use std::collections::VecDeque;

use crate::text::{decimal, push_decimal, push_str, str_equal};

verus! {

/// At most this many entries are kept; the oldest leave first.
pub const MAX_LOG_ENTRIES: usize = 10_000;

/// Severity of a log entry.
#[derive(Clone, Copy, Debug, PartialEq, Eq, Structural)]
pub enum LogLevel {
    Trace,
    Debug,
    Info,
    Warn,
    Error,
}

/// The name of a level as log lines show it.
pub open spec fn spec_level_name(level: LogLevel) -> Seq<char> {
    match level {
        LogLevel::Trace => "TRACE"@,
        LogLevel::Debug => "DEBUG"@,
        LogLevel::Info => "INFO"@,
        LogLevel::Warn => "WARN"@,
        LogLevel::Error => "ERROR"@,
    }
}

impl LogLevel {
    /// The name of the level as log lines show it.
    pub fn name(&self) -> (s: &'static str)
        ensures
            s@ == spec_level_name(*self),
    {
        match self {
            LogLevel::Trace => "TRACE",
            LogLevel::Debug => "DEBUG",
            LogLevel::Info => "INFO",
            LogLevel::Warn => "WARN",
            LogLevel::Error => "ERROR",
        }
    }
}

/// One recorded event: when (milliseconds since the Unix epoch, 0 for earlier
/// times), its level and target, its message and its other fields.
#[derive(Debug)]
pub struct LogEntry {
    pub timestamp_ms: u64,
    pub level: LogLevel,
    pub target: String,
    pub message: String,
    pub fields: Vec<(String, String)>,
}

/// Mathematical value of a log entry.
pub struct LogEntryView {
    pub timestamp_ms: u64,
    pub level: LogLevel,
    pub target: Seq<char>,
    pub message: Seq<char>,
    pub fields: Seq<(Seq<char>, Seq<char>)>,
}

impl DeepView for LogEntry {
    type V = LogEntryView;

    open spec fn deep_view(&self) -> LogEntryView {
        LogEntryView {
            timestamp_ms: self.timestamp_ms,
            level: self.level,
            target: self.target@,
            message: self.message@,
            fields: self.fields.deep_view(),
        }
    }
}

impl Clone for LogEntry {
    fn clone(&self) -> (r: Self)
        ensures
            r.deep_view() == self.deep_view(),
    {
        let mut fields: Vec<(String, String)> = Vec::new();
        let ghost fv = self.fields.deep_view();
        for i in 0..self.fields.len()
            invariant
                fv == self.fields.deep_view(),
                fields.deep_view() == fv.take(i as int),
        {
            let ghost before = fields.deep_view();
            let (k, v) = &self.fields[i];
            fields.push((k.clone(), v.clone()));
            assert(fields.deep_view() =~= before.push(fv[i as int]));
            assert(fields.deep_view() =~= fv.take(i + 1));
        }
        assert(fv.take(self.fields.len() as int) =~= fv);
        LogEntry {
            timestamp_ms: self.timestamp_ms,
            level: self.level,
            target: self.target.clone(),
            message: self.message.clone(),
            fields,
        }
    }
}

/// The bounded buffer of recent log entries.
pub struct LogBuffer {
    entries: VecDeque<LogEntry>,
    generation: u64,
    persistent_log_path: Option<String>,
}

impl LogBuffer {
    /// The entries held, oldest first.
    pub closed spec fn entries_view(&self) -> Seq<LogEntryView> {
        self.entries.deep_view()
    }

    /// How many entries were ever pushed (the change counter).
    pub closed spec fn generation_view(&self) -> u64 {
        self.generation
    }

    /// The file each pushed entry is also appended to, if any.
    pub closed spec fn path_view(&self) -> Option<Seq<char>> {
        match self.persistent_log_path {
            Some(p) => Some(p@),
            None => None,
        }
    }

    /// The buffer holds at most [`MAX_LOG_ENTRIES`] entries.
    pub open spec fn wf(&self) -> bool {
        self.entries_view().len() <= MAX_LOG_ENTRIES
    }

    /// An empty buffer with no persistent log file.
    pub fn new() -> (b: Self)
        ensures
            b.wf(),
            b.entries_view() == Seq::<LogEntryView>::empty(),
            b.generation_view() == 0,
            b.path_view() is None,
    {
        let b = LogBuffer {
            entries: VecDeque::with_capacity(MAX_LOG_ENTRIES),
            generation: 0,
            persistent_log_path: None,
        };
        assert(b.entries.deep_view() =~= Seq::<LogEntryView>::empty());
        b
    }

    /// The change counter: the number of entries pushed so far.
    pub fn generation(&self) -> (g: u64)
        ensures
            g == self.generation_view(),
    {
        self.generation
    }

    /// Copies of the entries held, oldest first.
    pub fn snapshot(&self) -> (v: Vec<LogEntry>)
        ensures
            v.deep_view() == self.entries_view(),
    {
        let ghost ev = self.entries.deep_view();
        let mut v: Vec<LogEntry> = Vec::new();
        for i in 0..self.entries.len()
            invariant
                ev == self.entries.deep_view(),
                v.deep_view() == ev.take(i as int),
        {
            let ghost before = v.deep_view();
            v.push(self.entries[i].clone());
            assert(v.deep_view() =~= before.push(ev[i as int]));
            assert(v.deep_view() =~= ev.take(i + 1));
        }
        assert(ev.take(self.entries.len() as int) =~= ev);
        v
    }

    /// The file each pushed entry is also appended to, if any.
    pub fn persistent_log_path(&self) -> (p: Option<&String>)
        ensures
            match p {
                Some(s) => self.path_view() == Some(s@),
                None => self.path_view() is None,
            },
    {
        match &self.persistent_log_path {
            Some(p) => Some(p),
            None => None,
        }
    }

    /// Records an entry: when the buffer is full the oldest entry leaves; the
    /// change counter goes up by one. The caller appends the entry to the
    /// persistent log file, when there is one.
    pub fn push(&mut self, entry: LogEntry)
        requires
            old(self).wf(),
            old(self).generation_view() < u64::MAX,
        ensures
            final(self).wf(),
            final(self).entries_view() == kept_entries(old(self).entries_view().push(entry.deep_view())),
            final(self).generation_view() == old(self).generation_view() + 1,
            final(self).path_view() == old(self).path_view(),
    {
        let ghost e0 = self.entries.deep_view();
        let ghost ev = entry.deep_view();
        if self.entries.len() >= MAX_LOG_ENTRIES {
            let _ = self.entries.pop_front();
            assert(self.entries.deep_view() =~= e0.drop_first());
        }
        let ghost e1 = self.entries.deep_view();
        self.entries.push_back(entry);
        assert(self.entries.deep_view() =~= e1.push(ev));
        assert(self.entries.deep_view() =~= kept_entries(e0.push(ev)));
        self.generation = self.generation + 1;
    }

    /// Sets the file each later entry is also appended to.
    pub fn set_persistent_log_path(&mut self, path: String)
        requires
            old(self).wf(),
        ensures
            final(self).wf(),
            final(self).entries_view() == old(self).entries_view(),
            final(self).generation_view() == old(self).generation_view(),
            final(self).path_view() == Some(path@),
    {
        self.persistent_log_path = Some(path);
    }
}

/// The newest [`MAX_LOG_ENTRIES`] of `entries`.
pub open spec fn kept_entries(entries: Seq<LogEntryView>) -> Seq<LogEntryView> {
    if entries.len() <= MAX_LOG_ENTRIES {
        entries
    } else {
        entries.skip(entries.len() - MAX_LOG_ENTRIES)
    }
}


/// Dropping the oldest entries as they come keeps the same entries as keeping
/// the newest ones of everything pushed: the buffer always holds the newest
/// [`MAX_LOG_ENTRIES`] entries ever pushed, in order.
pub proof fn lemma_kept_entries_push(pushed: Seq<LogEntryView>, entry: LogEntryView)
    ensures
        kept_entries(kept_entries(pushed).push(entry)) == kept_entries(pushed.push(entry)),
        kept_entries(pushed).len() <= MAX_LOG_ENTRIES,
{
    let k = kept_entries(pushed);
    if pushed.len() > MAX_LOG_ENTRIES {
        assert(kept_entries(k.push(entry)) =~= kept_entries(pushed.push(entry)));
    }
}

/// Pushing onto a buffer that holds at most [`MAX_LOG_ENTRIES`] entries: when
/// it is full the oldest entry leaves first, then the new entry comes last.
pub proof fn lemma_push_evicts_oldest(held: Seq<LogEntryView>, entry: LogEntryView)
    requires
        held.len() <= MAX_LOG_ENTRIES,
    ensures
        kept_entries(held.push(entry)) == (if held.len() >= MAX_LOG_ENTRIES {
            held.drop_first()
        } else {
            held
        }).push(entry),
        kept_entries(held.push(entry)).len() <= MAX_LOG_ENTRIES,
{
    if held.len() >= MAX_LOG_ENTRIES {
        assert(held.push(entry).skip(1) =~= held.drop_first().push(entry));
    }
}

/// Collects the message and the other fields of an event.
#[derive(Debug)]
pub struct FieldVisitor {
    pub message: String,
    pub fields: Vec<(String, String)>,
}

impl FieldVisitor {
    /// A visitor that has seen no field.
    pub fn new() -> (v: Self)
        ensures
            v.message@ == Seq::<char>::empty(),
            v.fields.deep_view() == Seq::<(Seq<char>, Seq<char>)>::empty(),
    {
        let v = FieldVisitor { message: String::new(), fields: Vec::new() };
        assert(v.fields.deep_view() =~= Seq::<(Seq<char>, Seq<char>)>::empty());
        v
    }

    /// Records one field: the field named `message` becomes the message
    /// (the last one seen wins); every other field is kept in order.
    pub fn record(&mut self, name: &str, value: String)
        ensures
            name@ == "message"@ ==> final(self).message@ == value@ && final(self).fields.deep_view()
                == old(self).fields.deep_view(),
            name@ != "message"@ ==> final(self).message@ == old(self).message@
                && final(self).fields.deep_view() == old(self).fields.deep_view().push(
                (name@, value@),
            ),
    {
        if str_equal(name, "message") {
            self.message = value;
        } else {
            let ghost before = self.fields.deep_view();
            self.fields.push((name.to_owned(), value));
            assert(self.fields.deep_view() =~= before.push((name@, value@)));
        }
    }

    /// The entry of an event with the recorded message and fields.
    pub fn into_entry(self, timestamp_ms: u64, level: LogLevel, target: String) -> (e: LogEntry)
        ensures
            e.deep_view() == (LogEntryView {
                timestamp_ms,
                level,
                target: target@,
                message: self.message@,
                fields: self.fields.deep_view(),
            }),
    {
        LogEntry { timestamp_ms, level, target, message: self.message, fields: self.fields }
    }
}

/// The layer that records every event into a log buffer.
pub struct InMemoryLayer {
    buffer: LogBuffer,
}

impl InMemoryLayer {
    /// A layer recording into `buffer`.
    pub fn new(buffer: LogBuffer) -> (layer: Self)
        ensures
            layer.buffer_view() == buffer,
    {
        InMemoryLayer { buffer }
    }

    /// The buffer recorded into.
    pub closed spec fn buffer_view(&self) -> LogBuffer {
        self.buffer
    }

    /// The buffer recorded into.
    pub fn buffer(&self) -> (b: &LogBuffer)
        ensures
            *b == self.buffer_view(),
    {
        &self.buffer
    }

    /// Records the entry of one event.
    pub fn on_event(&mut self, entry: LogEntry)
        requires
            old(self).buffer_view().wf(),
            old(self).buffer_view().generation_view() < u64::MAX,
        ensures
            final(self).buffer_view().wf(),
            final(self).buffer_view().entries_view() == kept_entries(
                old(self).buffer_view().entries_view().push(entry.deep_view()),
            ),
            final(self).buffer_view().generation_view() == old(self).buffer_view().generation_view()
                + 1,
            final(self).buffer_view().path_view() == old(self).buffer_view().path_view(),
    {
        self.buffer.push(entry);
    }
}

/// `key=value`.
pub open spec fn field_text(f: (Seq<char>, Seq<char>)) -> Seq<char> {
    f.0 + "="@ + f.1
}

/// The fields as `key=value`, separated by single spaces.
pub open spec fn fields_text(fields: Seq<(Seq<char>, Seq<char>)>) -> Seq<char>
    decreases fields.len(),
{
    if fields.len() == 0 {
        seq![]
    } else if fields.len() == 1 {
        field_text(fields[0])
    } else {
        fields_text(fields.drop_last()) + " "@ + field_text(fields.last())
    }
}

/// The line an entry takes in the persistent log file (without its line
/// break): timestamp in milliseconds, level, target, then the message when it
/// is not empty, then two spaces and the fields when there are any.
pub open spec fn spec_persistent_log_line(e: LogEntryView) -> Seq<char> {
    let line = decimal(e.timestamp_ms as nat) + " "@ + spec_level_name(e.level) + " "@ + e.target;
    let line = if e.message.len() == 0 {
        line
    } else {
        line + " "@ + e.message
    };
    if e.fields.len() == 0 {
        line
    } else {
        line + " "@ + " "@ + fields_text(e.fields)
    }
}

/// Formats an entry for the persistent log file; see
/// [`spec_persistent_log_line`].
pub fn persistent_log_line(entry: &LogEntry) -> (line: String)
    ensures
        line@ == spec_persistent_log_line(entry.deep_view()),
{
    let ghost ev = entry.deep_view();
    let mut line = String::new();
    push_decimal(&mut line, entry.timestamp_ms);
    push_str(&mut line, " ");
    push_str(&mut line, entry.level.name());
    push_str(&mut line, " ");
    push_str(&mut line, entry.target.as_str());
    if !entry.message.as_str().is_empty() {
        push_str(&mut line, " ");
        push_str(&mut line, entry.message.as_str());
    }
    if entry.fields.len() > 0 {
        push_str(&mut line, " ");
        push_str(&mut line, " ");
        let ghost head = line@;
        for i in 0..entry.fields.len()
            invariant
                ev == entry.deep_view(),
                line@ == head + fields_text(ev.fields.take(i as int)),
        {
            if i > 0 {
                push_str(&mut line, " ");
            }
            let (k, v) = &entry.fields[i];
            push_str(&mut line, k.as_str());
            push_str(&mut line, "=");
            push_str(&mut line, v.as_str());
            assert(ev.fields.take(i + 1).drop_last() =~= ev.fields.take(i as int));
            assert(ev.fields[i as int] == (k@, v@));
            assert(line@ =~= head + fields_text(ev.fields.take(i + 1)));
        }
        assert(ev.fields.take(entry.fields.len() as int) =~= ev.fields);
    }
    line
}

} // verus!

//! The log pipeline's pure parts: log line records, severity
//! classification, the multiplexed ring buffer with per-slot colors, the
//! multiplex filter, and the tail helper for initial log loads.

use vstd::prelude::*;

verus! {

use vstd::string::StringExecFns;
use crate::text::{
    chars_of,
    join_with,
    contains_ci,
    contains_seq,
    contains_sub,
    join_sep,
    str_eq,
    string_from_chars,
    to_lower_vec,
};

/// Where a log line came from: the agent's PTY or the service stack.
#[derive(Debug, Clone, Copy, PartialEq, Eq, Structural)]
pub enum LogSource {
    Agent,
    Aspire,
}

/// One log line event: the slot it belongs to, its source, and the text.
#[derive(Debug, Clone)]
pub struct LogLine {
    pub slot_name: String,
    pub source: LogSource,
    pub line: String,
}

/// Severity, read off the text by substring heuristics.
#[derive(Debug, Clone, Copy, PartialEq, Eq, Structural)]
pub enum Severity {
    Error,
    Warn,
    Info,
    Debug,
}

/// The severity a line of text classifies as: case-insensitive substring
/// match for error markers first, then warnings, then debug chatter.
pub open spec fn severity_of(s: Seq<char>) -> Severity {
    if contains_ci(s, "error"@) || contains_ci(s, "exception"@) || contains_ci(s, "fatal"@) {
        Severity::Error
    } else if contains_ci(s, "warn"@) {
        Severity::Warn
    } else if contains_ci(s, "debug"@) || contains_ci(s, "trace"@) {
        Severity::Debug
    } else {
        Severity::Info
    }
}

/// Classify one line of log text.
pub fn classify_severity(text: &str) -> (r: Severity)
    ensures
        r == severity_of(text@),
{
    proof {
        reveal_strlit("error");
        reveal_strlit("exception");
        reveal_strlit("fatal");
        reveal_strlit("warn");
        reveal_strlit("debug");
        reveal_strlit("trace");
    }
    let cs = chars_of(text);
    let lower = to_lower_vec(&cs);
    let e1 = chars_of("error");
    let e2 = chars_of("exception");
    let e3 = chars_of("fatal");
    let w1 = chars_of("warn");
    let d1 = chars_of("debug");
    let d2 = chars_of("trace");
    if contains_sub(&lower, &e1) || contains_sub(&lower, &e2) || contains_sub(&lower, &e3) {
        Severity::Error
    } else if contains_sub(&lower, &w1) {
        Severity::Warn
    } else if contains_sub(&lower, &d1) || contains_sub(&lower, &d2) {
        Severity::Debug
    } else {
        Severity::Info
    }
}

/// One entry of the multiplexed buffer.
#[derive(Debug, Clone)]
pub struct LogEntry {
    pub slot_name: String,
    pub source: LogSource,
    pub text: String,
    pub severity: Severity,
    pub color_index: u8,
}

/// The ring buffer of interleaved log entries from all slots, with a color
/// assigned to each slot name on first sight.
#[derive(Debug)]
pub struct LogBuffer {
    pub entries: Vec<LogEntry>,
    pub slot_colors: Vec<(String, u8)>,
    pub next_color: usize,
}

/// The buffer keeps at most this many entries; the oldest is evicted.
pub const LOG_BUFFER_CAPACITY: usize = 10000;

impl LogBuffer {
    /// An empty buffer.
    pub fn new() -> (r: LogBuffer)
        ensures
            r.entries@.len() == 0,
            r.slot_colors@.len() == 0,
            r.next_color == 0,
    {
        LogBuffer { entries: Vec::new(), slot_colors: Vec::new(), next_color: 0 }
    }

    /// The color table is well formed: palette colors only, one entry per
    /// slot name.
    pub open spec fn colors_wf(&self) -> bool {
        &&& forall|i: int|
            0 <= i < self.slot_colors@.len() ==> (#[trigger] self.slot_colors@[i].1) < 8
        &&& forall|i: int, j: int|
            0 <= i < j < self.slot_colors@.len() ==> self.slot_colors@[i].0@
                != self.slot_colors@[j].0@
    }

    /// The color recorded for a slot name, if one was assigned.
    pub open spec fn color_of(&self, name: Seq<char>) -> Option<u8> {
        if exists|i: int|
            0 <= i < self.slot_colors@.len() && (#[trigger] self.slot_colors@[i].0@) == name {
            Some(
                self.slot_colors@[choose|i: int|
                    0 <= i < self.slot_colors@.len() && (#[trigger] self.slot_colors@[i].0@)
                        == name].1,
            )
        } else {
            None
        }
    }

    /// The color for a slot: a recorded one is reused, a fresh name gets
    /// the next color of the eight-color palette.
    pub fn color_for_slot(&mut self, name: &str) -> (r: u8)
        requires
            old(self).next_color < usize::MAX,
            old(self).colors_wf(),
        ensures
            r < 8,
            final(self).colors_wf(),
            match old(self).color_of(name@) {
                Some(c) => r == c && *final(self) == *old(self),
                None => r == old(self).next_color % 8 && final(self).next_color == old(self).next_color + 1 && final(self).slot_colors@ == old(self).slot_colors@.push(
                    (final(self).slot_colors@.last().0, r),
                ) && final(self).slot_colors@.last().0@ == name@ && final(self).entries@ == old(self).entries@,
            },
            final(self).color_of(name@) == Some(r),
            final(self).next_color <= old(self).next_color + 1,
    {
        let n = self.slot_colors.len();
        let mut i: usize = 0;
        while i < n
            invariant
                i <= n,
                n == self.slot_colors@.len(),
                self.colors_wf(),
                *self == *old(self),
                forall|j: int| 0 <= j < i ==> (#[trigger] self.slot_colors@[j].0@) != name@,
            decreases n - i,
        {
            if str_eq(self.slot_colors[i].0.as_str(), name) {
                let c = self.slot_colors[i].1;
                proof {
                    assert(self.slot_colors@[i as int].0@ == name@);
                    let k = choose|k: int|
                        0 <= k < self.slot_colors@.len() && (#[trigger] self.slot_colors@[k].0@)
                            == name@;
                    assert(k == i) by {
                        if k < i as int {
                            assert((self.slot_colors@[k].0@) != name@);
                        }
                        if k > i as int {
                            assert(self.slot_colors@[i as int].0@
                                != self.slot_colors@[k].0@);
                        }
                    }
                }
                return c;
            }
            i += 1;
        }
        let idx = (self.next_color % 8) as u8;
        self.next_color = self.next_color + 1;
        self.slot_colors.push((String::from_str(name), idx));
        proof {
            let last = self.slot_colors@.len() - 1;
            assert(self.slot_colors@[last].0@ == name@);
            assert(self.slot_colors@ =~= old(self).slot_colors@.push(
                (self.slot_colors@.last().0, idx),
            ));
            assert(forall|j: int|
                0 <= j < last ==> (#[trigger] self.slot_colors@[j]) == old(self).slot_colors@[j]);
            let k = choose|k: int|
                0 <= k < self.slot_colors@.len() && (#[trigger] self.slot_colors@[k].0@) == name@;
            assert(k == last) by {
                if k < last {
                    assert(old(self).slot_colors@[k].0@ == name@);
                }
            }
        }
        idx
    }

    /// Append one entry: severity classified from the text, color looked
    /// up or assigned, and the oldest entry evicted at capacity.
    pub fn push(&mut self, slot_name: String, source: LogSource, text: String)
        requires
            old(self).next_color < usize::MAX,
            old(self).colors_wf(),
        ensures
            final(self).colors_wf(),
            final(self).entries@.len() <= LOG_BUFFER_CAPACITY as int,
            final(self).entries@.len() > 0,
            ({
                let e = final(self).entries@.last();
                &&& e.slot_name@ == slot_name@
                &&& e.source == source
                &&& e.text@ == text@
                &&& e.severity == severity_of(text@)
                &&& Some(e.color_index) == final(self).color_of(slot_name@)
            }),
            old(self).entries@.len() < LOG_BUFFER_CAPACITY as int ==> final(self).entries@.drop_last() == old(self).entries@,
            old(self).entries@.len() >= LOG_BUFFER_CAPACITY as int ==> final(self).entries@.drop_last() == old(self).entries@.skip(
                old(self).entries@.len() - (LOG_BUFFER_CAPACITY - 1),
            ),
            final(self).next_color <= old(self).next_color + 1,
            (match old(self).color_of(slot_name@) {
                Some(c) => final(self).slot_colors@ == old(self).slot_colors@ && final(self).next_color == old(self).next_color && final(self).entries@.last().color_index
                    == c,
                None => final(self).slot_colors@.drop_last() == old(self).slot_colors@ && final(self).slot_colors@.last().0@ == slot_name@ && final(self).slot_colors@.last().1 == old(self).next_color % 8 && final(self).next_color == old(self).next_color + 1,
            }),
    {
        let color_index = self.color_for_slot(slot_name.as_str());
        let severity = classify_severity(text.as_str());
        let ghost mid = *self;
        let ghost colors_mid = self.slot_colors@;
        let ghost next_mid = self.next_color;
        let ghost color_mid = self.color_of(slot_name@);
        proof {
            assert(old(self).entries@.skip(0) =~= old(self).entries@);
        }
        while self.entries.len() >= LOG_BUFFER_CAPACITY
            invariant
                self.slot_colors@ == colors_mid,
                self.next_color == next_mid,
                self.entries@.len() <= old(self).entries@.len(),
                old(self).entries@.len() >= LOG_BUFFER_CAPACITY ==> self.entries@.len()
                    >= LOG_BUFFER_CAPACITY - 1,
                old(self).entries@.len() < LOG_BUFFER_CAPACITY ==> self.entries@.len() == old(self).entries@.len(),
                self.entries@ == old(self).entries@.skip(
                    old(self).entries@.len() - self.entries@.len(),
                ),
            decreases self.entries@.len(),
        {
            let ghost pre = self.entries@;
            self.entries.remove(0);
            proof {
                assert(self.entries@ =~= pre.skip(1));
                assert(self.entries@ =~= old(self).entries@.skip(
                    old(self).entries@.len() - self.entries@.len(),
                ));
            }
        }
        let ghost before_push = self.entries@;
        self.entries.push(LogEntry { slot_name, source, text, severity, color_index });
        proof {
            assert(self.entries@.drop_last() =~= before_push);
            lemma_color_of_same_table(&mid, self, slot_name@);
            assert(self.color_of(self.entries@.last().slot_name@) == color_mid);
            if old(self).entries@.len() >= LOG_BUFFER_CAPACITY as int {
                assert(before_push =~= old(self).entries@.skip(
                    old(self).entries@.len() - (LOG_BUFFER_CAPACITY - 1),
                ));
            } else {
                assert(before_push =~= old(self).entries@);
            }
        }
    }
}

/// Two buffers with the same color table record the same color for any
/// name, provided the table names are unique.
proof fn lemma_color_of_same_table(a: &LogBuffer, b: &LogBuffer, name: Seq<char>)
    requires
        a.slot_colors@ == b.slot_colors@,
        a.colors_wf(),
    ensures
        a.color_of(name) == b.color_of(name),
{
    if exists|i: int|
        0 <= i < a.slot_colors@.len() && (#[trigger] a.slot_colors@[i].0@) == name {
        let i = choose|i: int|
            0 <= i < a.slot_colors@.len() && (#[trigger] a.slot_colors@[i].0@) == name;
        assert(b.slot_colors@[i].0@ == name);
        let j = choose|j: int|
            0 <= j < b.slot_colors@.len() && (#[trigger] b.slot_colors@[j].0@) == name;
        assert(i == j) by {
            if i < j {
                assert(a.slot_colors@[i].0@ != a.slot_colors@[j].0@);
            }
            if j < i {
                assert(a.slot_colors@[j].0@ != a.slot_colors@[i].0@);
            }
        }
    } else {
        assert(!exists|j: int|
            0 <= j < b.slot_colors@.len() && (#[trigger] b.slot_colors@[j].0@) == name) by {
            if exists|j: int|
                0 <= j < b.slot_colors@.len() && (#[trigger] b.slot_colors@[j].0@) == name {
                let j = choose|j: int|
                    0 <= j < b.slot_colors@.len() && (#[trigger] b.slot_colors@[j].0@) == name;
                assert(a.slot_colors@[j].0@ == name);
            }
        }
    }
}

/// Filter state for the multiplexed log view: hidden slots, an optional
/// source filter, and a literal search text.
#[derive(Debug)]
pub struct MultiplexFilter {
    pub hidden_slots: Vec<String>,
    pub source_filter: Option<LogSource>,
    pub search_text: String,
    pub search_filter_mode: bool,
    pub search_input_active: bool,
}

impl MultiplexFilter {
    /// A filter that hides nothing.
    pub fn new() -> (r: MultiplexFilter)
        ensures
            r.hidden_slots@.len() == 0,
            r.source_filter is None,
            r.search_text@.len() == 0,
            !r.search_filter_mode,
            !r.search_input_active,
    {
        MultiplexFilter {
            hidden_slots: Vec::new(),
            source_filter: None,
            search_text: String::new(),
            search_filter_mode: false,
            search_input_active: false,
        }
    }

    /// Step the source filter: everything, agent only, stack only.
    pub fn cycle_source(&mut self)
        ensures
            final(self).source_filter == (match old(self).source_filter {
                None => Some(LogSource::Agent),
                Some(LogSource::Agent) => Some(LogSource::Aspire),
                Some(LogSource::Aspire) => None::<LogSource>,
            }),
            final(self).hidden_slots@ == old(self).hidden_slots@,
            final(self).search_text == old(self).search_text,
            final(self).search_filter_mode == old(self).search_filter_mode,
            final(self).search_input_active == old(self).search_input_active,
    {
        self.source_filter = match self.source_filter {
            None => Some(LogSource::Agent),
            Some(LogSource::Agent) => Some(LogSource::Aspire),
            Some(LogSource::Aspire) => None,
        };
    }

    /// Whether an entry passes this filter: not from a hidden slot, from
    /// the selected source if one is selected, and carrying the search
    /// text when search narrowing is on.
    pub open spec fn matches_spec(&self, e: LogEntry) -> bool {
        &&& !self.hidden_slots@.map_values(|s: String| s@).contains(e.slot_name@)
        &&& (self.source_filter matches Some(src) ==> e.source == src)
        &&& ((self.search_filter_mode && self.search_text@.len() > 0) ==> contains_seq(
            e.text@,
            self.search_text@,
        ))
    }

    /// Whether an entry passes this filter.
    pub fn matches_entry(&self, entry: &LogEntry) -> (r: bool)
        ensures
            r == self.matches_spec(*entry),
    {
        if crate::registry::contains_name(&self.hidden_slots, entry.slot_name.as_str()) {
            return false;
        }
        match self.source_filter {
            Some(src) => {
                let same = match (src, entry.source) {
                    (LogSource::Agent, LogSource::Agent) => true,
                    (LogSource::Aspire, LogSource::Aspire) => true,
                    _ => false,
                };
                if !same {
                    return false;
                }
            },
            None => {},
        }
        if self.search_filter_mode && !self.search_text.as_str().is_empty() {
            let text = chars_of(entry.text.as_str());
            let needle = chars_of(self.search_text.as_str());
            return contains_sub(&text, &needle);
        }
        true
    }
}

/// The last `count` lines of a text, joined with newlines.
pub fn tail_lines(content: &str, count: usize) -> (r: String)
    ensures
        r@ == join_sep(
            split_lines(content@).skip(
                if split_lines(content@).len() > count {
                    split_lines(content@).len() - count as int
                } else {
                    0
                },
            ),
            "\n"@,
        ),
{
    let cs = chars_of(content);
    let mut lines = split_lines_exec(&cs);
    let n = lines.len();
    let start: usize = if n > count {
        n - count
    } else {
        0
    };
    let ghost lines0 = lines@;
    let kept = lines.split_off(start);
    proof {
        let km = kept@.map_values(|s: String| s@);
        let lm = lines0.map_values(|s: String| s@);
        assert forall|k: int| 0 <= k < km.len() implies km[k] == lm.skip(start as int)[k] by {
            assert(kept@[k] == lines0[start + k]);
        }
        assert(km =~= lm.skip(start as int));
    }
    join_with(&kept, "\n")
}

/// The text split at newline characters; a trailing newline yields no
/// trailing empty line, as line iteration drops it.
pub open spec fn split_lines(s: Seq<char>) -> Seq<Seq<char>>
    decreases s.len(),
{
    if s.len() == 0 {
        Seq::empty()
    } else {
        let e = line_end(s, 0);
        if 0 <= e < s.len() {
            seq![s.subrange(0, e)] + split_lines(s.skip(e + 1))
        } else {
            seq![s]
        }
    }
}

/// The position of the first newline at or after `j`, or the length.
pub open spec fn line_end(s: Seq<char>, j: int) -> int
    decreases s.len() - j,
{
    if 0 <= j < s.len() && s[j] != '\n' {
        line_end(s, j + 1)
    } else {
        j
    }
}

/// Split a text into its lines.
pub fn split_lines_vec(text: &str) -> (r: Vec<String>)
    ensures
        r@.map_values(|s: String| s@) == split_lines(text@),
{
    let cs = chars_of(text);
    split_lines_exec(&cs)
}

/// Split a character vector into its lines.
fn split_lines_exec(v: &Vec<char>) -> (r: Vec<String>)
    ensures
        r@.map_values(|s: String| s@) == split_lines(v@),
{
    let mut out: Vec<String> = Vec::new();
    let n = v.len();
    let mut i: usize = 0;
    proof {
        assert(v@.skip(0) =~= v@);
        assert(out@.map_values(|s: String| s@) + split_lines(v@) =~= split_lines(v@));
    }
    while i < n
        invariant
            i <= n,
            n == v@.len(),
            split_lines(v@) == out@.map_values(|s: String| s@) + split_lines(v@.skip(i as int)),
        decreases n - i,
    {
        let mut e: usize = i;
        while e < n && v[e] != '\n'
            invariant
                i <= e <= n,
                n == v@.len(),
                line_end(v@, i as int) == line_end(v@, e as int),
                forall|q: int| i <= q < e ==> v@[q] != '\n',
            decreases n - e,
        {
            e += 1;
        }
        assert(line_end(v@, e as int) == e);
        let piece = crate::text::sub_chars(v, i, e);
        let sp = string_from_chars(&piece);
        let ghost pre = out@.map_values(|s: String| s@);
        out.push(sp);
        proof {
            assert(out@.map_values(|s: String| s@) =~= pre.push(v@.subrange(i as int, e as int)));
            let tail = v@.skip(i as int);
            assert(tail.len() > 0);
            assert(line_end(tail, 0) == e - i) by {
                lemma_line_end_shift(v@, i as int, e as int);
            }
            if e < n {
                assert(tail.subrange(0, e - i) =~= v@.subrange(i as int, e as int));
                assert(tail.skip(e - i + 1) =~= v@.skip(e + 1));
                assert(split_lines(tail) == seq![v@.subrange(i as int, e as int)] + split_lines(
                    v@.skip(e + 1),
                ));
            } else {
                assert(tail =~= v@.subrange(i as int, e as int));
                assert(split_lines(tail) == seq![v@.subrange(i as int, e as int)]);
                assert(v@.skip(n as int) =~= Seq::<char>::empty());
            }
            assert(pre.push(v@.subrange(i as int, e as int)) =~= pre + seq![
                v@.subrange(i as int, e as int),
            ]);
        }
        if e < n {
            i = e + 1;
        } else {
            i = n;
        }
    }
    assert(split_lines(v@.skip(i as int)) =~= Seq::<Seq<char>>::empty());
    assert(out@.map_values(|s: String| s@) + Seq::<Seq<char>>::empty() =~= out@.map_values(
        |s: String| s@,
    ));
    out
}

/// The run to the first newline is the same seen from a suffix.
proof fn lemma_line_end_shift(s: Seq<char>, i: int, e: int)
    requires
        0 <= i <= e <= s.len(),
        forall|q: int| i <= q < e ==> s[q] != '\n',
        e == s.len() || s[e] == '\n',
    ensures
        line_end(s.skip(i), 0) == e - i,
{
    let t = s.skip(i);
    lemma_line_end_run(t, 0, e - i);
}

/// A run of non-newline characters ending at a newline or the end fixes
/// the line end.
proof fn lemma_line_end_run(s: Seq<char>, j: int, k: int)
    requires
        0 <= j <= k <= s.len(),
        forall|q: int| j <= q < k ==> s[q] != '\n',
        k == s.len() || s[k] == '\n',
    ensures
        line_end(s, j) == k,
    decreases k - j,
{
    if j < k {
        lemma_line_end_run(s, j + 1, k);
    }
}

} // verus!

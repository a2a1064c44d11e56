//! State behind the terminal UI that the core drives: the mode machine,
//! dialog and form state, per-slot activity metrics with sparklines and
//! attention flags, and the small text helpers of the dashboard.
//!
//! Times are integer milliseconds; the caller passes the current time in.

use vstd::prelude::*;

verus! {

use vstd::string::StringExecFns;
use crate::discovery::is_ws;
use crate::models::RepoCandidate;
use crate::text::{chars_of, dec_str, dec_string, string_from_chars, sub_chars};

/// The active mode: which UI is shown and how keys are dispatched.
#[derive(Debug, Clone, PartialEq, Eq)]
pub enum Mode {
    SlotList,
    CreateSlotDialog,
    SpawnAgentDialog,
    ConfirmDialog { message: String, action: ConfirmAction },
    HelpDialog,
    Loading(String),
    MultiplexLog,
    BlueprintListDialog,
    BlueprintSaveDialog,
    BatchProgress,
}

/// What a confirmed dialog should do.
#[derive(Debug, Clone, PartialEq, Eq)]
pub enum ConfirmAction {
    DestroySlot(String),
    DestroyAll,
    LoadBlueprint(String),
    Quit,
}

/// Which log source the detail view shows.
#[derive(Debug, Clone, Copy, PartialEq, Eq, Structural)]
pub enum LogSource {
    Agent,
    Aspire,
}

/// Which top-level view is active.
#[derive(Debug, Clone, Copy, PartialEq, Eq, Structural)]
pub enum ViewMode {
    SlotList,
    Dashboard,
}

/// The activity window: timestamps only stay this long (milliseconds).
pub const ACTIVITY_WINDOW_MS: i64 = 120000;

/// One sparkline bucket covers this long (milliseconds).
pub const ACTIVITY_BUCKET_MS: i64 = 6000;

/// Activity metrics of one slot, computed from its log output.
#[derive(Debug)]
pub struct SlotActivity {
    pub log_timestamps: Vec<i64>,
    pub sparkline_data: Vec<u64>,
    pub last_log_line: Option<String>,
    pub needs_attention: bool,
    pub attention_reason: Option<String>,
}

impl SlotActivity {
    /// Fresh metrics: no samples, a flat twenty-bucket sparkline.
    pub fn new() -> (r: SlotActivity)
        ensures
            r.log_timestamps@.len() == 0,
            r.sparkline_data@.len() == 20,
            forall|k: int| 0 <= k < 20 ==> (#[trigger] r.sparkline_data@[k]) == 0,
            r.last_log_line is None,
            !r.needs_attention,
            r.attention_reason is None,
    {
        let mut sparkline: Vec<u64> = Vec::new();
        let mut k: usize = 0;
        while k < 20
            invariant
                k <= 20,
                sparkline@.len() == k,
                forall|j: int| 0 <= j < k ==> (#[trigger] sparkline@[j]) == 0,
            decreases 20 - k,
        {
            sparkline.push(0);
            k += 1;
        }
        SlotActivity {
            log_timestamps: Vec::new(),
            sparkline_data: sparkline,
            last_log_line: None,
            needs_attention: false,
            attention_reason: None,
        }
    }

    /// Record one log event at `now`: the timestamp joins the window
    /// (bounded at 120 samples, oldest dropped) and a non-blank line
    /// becomes the preview, cut to sixty characters.
    pub fn record(&mut self, now: i64, line: &str)
        requires
            old(self).log_timestamps@.len() <= 120,
        ensures
            final(self).log_timestamps@.len() <= 120,
            final(self).log_timestamps@ == (if old(self).log_timestamps@.len() >= 120 {
                old(self).log_timestamps@.skip(1)
            } else {
                old(self).log_timestamps@
            }).push(now),
            final(self).sparkline_data@ == old(self).sparkline_data@,
            final(self).needs_attention == old(self).needs_attention,
            final(self).attention_reason == old(self).attention_reason,
            trim_seq(line@).len() > 0 ==> (final(self).last_log_line matches Some(p) && p@
                == preview_of(line@)),
            trim_seq(line@).len() == 0 ==> final(self).last_log_line == old(self).last_log_line,
    {
        if self.log_timestamps.len() >= 120 {
            self.log_timestamps.remove(0);
            proof {
                assert(self.log_timestamps@ =~= old(self).log_timestamps@.skip(1));
            }
        }
        self.log_timestamps.push(now);
        let trimmed = trim(line);
        if !trimmed.as_str().is_empty() {
            let cs = chars_of(trimmed.as_str());
            if cs.len() > 60 {
                let head = sub_chars(&cs, 0, 57);
                let mut p = string_from_chars(&head);
                p.append("...");
                self.last_log_line = Some(p);
            } else {
                self.last_log_line = Some(trimmed);
            }
        }
    }
}

/// Leading and trailing whitespace stripped.
pub open spec fn trim_seq(s: Seq<char>) -> Seq<char> {
    let a = crate::discovery::ws_end(s, 0);
    let b = last_nonws(s);
    if a <= b {
        s.subrange(a, b)
    } else {
        Seq::empty()
    }
}

/// One past the last non-whitespace character.
pub open spec fn last_nonws(s: Seq<char>) -> int
    decreases s.len(),
{
    if s.len() == 0 {
        0
    } else if is_ws(s.last()) {
        last_nonws(s.drop_last())
    } else {
        s.len() as int
    }
}

/// The preview of a line: trimmed, and cut to sixty characters with an
/// ellipsis when longer.
pub open spec fn preview_of(line: Seq<char>) -> Seq<char> {
    let t = trim_seq(line);
    if t.len() > 60 {
        t.take(57) + "..."@
    } else {
        t
    }
}

/// A copy of the text with leading and trailing whitespace removed.
pub fn trim(s: &str) -> (r: String)
    ensures
        r@ == trim_seq(s@),
{
    let cs = chars_of(s);
    let n = cs.len();
    let a = ws_end_from(&cs, 0);
    let mut b: usize = n;
    proof {
        assert(cs@.subrange(0, n as int) =~= cs@);
    }
    while b > 0 && is_ws_exec(cs[b - 1])
        invariant
            b <= n,
            n == cs@.len(),
            last_nonws(cs@) == last_nonws(cs@.subrange(0, b as int)),
        decreases b,
    {
        assert(cs@.subrange(0, b as int).drop_last() =~= cs@.subrange(0, b - 1));
        b -= 1;
    }
    proof {
        if b > 0 {
            assert(cs@.subrange(0, b as int).last() == cs@[b - 1]);
            assert(last_nonws(cs@.subrange(0, b as int)) == b);
        } else {
            assert(cs@.subrange(0, 0) =~= Seq::<char>::empty());
        }
    }
    if a <= b {
        let piece = sub_chars(&cs, a, b);
        string_from_chars(&piece)
    } else {
        proof {
            assert(trim_seq(s@) =~= Seq::<char>::empty());
        }
        String::new()
    }
}

/// The end of the whitespace run from `j`, computed.
fn ws_end_from(v: &Vec<char>, j: usize) -> (r: usize)
    requires
        j <= v@.len(),
    ensures
        r == crate::discovery::ws_end(v@, j as int),
        j <= r <= v@.len(),
{
    let n = v.len();
    let mut i: usize = j;
    while i < n && is_ws_exec(v[i])
        invariant
            j <= i <= n,
            n == v@.len(),
            crate::discovery::ws_end(v@, j as int) == crate::discovery::ws_end(v@, i as int),
        decreases n - i,
    {
        i += 1;
    }
    i
}

/// Whether the character counts as whitespace.
fn is_ws_exec(c: char) -> (r: bool)
    ensures
        r == is_ws(c),
{
    c == ' ' || c == '\t' || c == '\n' || c == '\r' || c == '\u{0b}' || c == '\u{0c}'
}

/// The sparkline bucket a sample of this age falls into, newest rightmost.
pub open spec fn bucket_of(t: i64, now: i64) -> int {
    19 - (now - t) / (ACTIVITY_BUCKET_MS as int)
}

/// The samples of `ts` that land in bucket `b`.
pub open spec fn bucket_members(ts: Seq<i64>, now: i64, b: int) -> Seq<i64> {
    ts.filter(|t: i64| 0 <= now - t <= ACTIVITY_WINDOW_MS as int && bucket_of(t, now) == b)
}

/// Bin the samples into twenty six-second buckets and normalise the
/// heights to the range zero to eight against the fullest bucket.
pub fn sparkline(ts: &Vec<i64>, now: i64) -> (r: Vec<u64>)
    ensures
        r@.len() == 20,
        forall|b: int|
            0 <= b < 20 ==> (#[trigger] r@[b]) == bucket_members(ts@, now, b).len() as int * 8 / spark_max(
                ts@,
                now,
            ),
{
    let mut counts: Vec<u64> = Vec::new();
    let mut b: usize = 0;
    while b < 20
        invariant
            b <= 20,
            counts@.len() == b,
            forall|q: int|
                0 <= q < b ==> (#[trigger] counts@[q]) == bucket_members(ts@, now, q).len(),
        decreases 20 - b,
    {
        let c = count_bucket(ts, now, b);
        counts.push(c);
        b += 1;
    }
    let mut maxv: u64 = 1;
    let mut k: usize = 0;
    proof {
        lemma_max_upto_bounds(ts@, now, 20);
    }
    while k < 20
        invariant
            k <= 20,
            counts@.len() == 20,
            forall|q: int|
                0 <= q < 20 ==> (#[trigger] counts@[q]) == bucket_members(ts@, now, q).len(),
            maxv == max_upto(ts@, now, k as int),
        decreases 20 - k,
    {
        if counts[k] > maxv {
            maxv = counts[k];
        }
        k += 1;
    }
    proof {
        assert(maxv == spark_max(ts@, now));
    }
    let mut r: Vec<u64> = Vec::new();
    let mut j: usize = 0;
    while j < 20
        invariant
            j <= 20,
            counts@.len() == 20,
            forall|q: int|
                0 <= q < 20 ==> (#[trigger] counts@[q]) == bucket_members(ts@, now, q).len(),
            maxv == spark_max(ts@, now),
            maxv >= 1,
            r@.len() == j,
            forall|q: int|
                0 <= q < j ==> (#[trigger] r@[q]) == bucket_members(ts@, now, q).len() as int * 8
                    / spark_max(ts@, now),
        decreases 20 - j,
    {
        let c = counts[j];
        proof {
            lemma_max_upto_bounds(ts@, now, 20);
            assert(c <= maxv);
            assert((c as int) * 8 / (maxv as int) <= 8) by (nonlinear_arith)
                requires
                    0 < maxv,
                    0 <= c <= maxv,
            ;
        }
        let scaled: u128 = ((c as u128) * 8) / (maxv as u128);
        r.push(scaled as u64);
        j += 1;
    }
    r
}

/// The largest bucket count among the first `k` buckets, at least one.
pub open spec fn max_upto(ts: Seq<i64>, now: i64, k: int) -> int
    decreases k,
{
    if k <= 0 {
        1
    } else {
        let prev = max_upto(ts, now, k - 1);
        let c = bucket_members(ts, now, k - 1).len() as int;
        if c > prev {
            c
        } else {
            prev
        }
    }
}

/// The normalisation divisor of the sparkline.
pub open spec fn spark_max(ts: Seq<i64>, now: i64) -> int {
    max_upto(ts, now, 20)
}

/// The running maximum starts at one and dominates every earlier bucket.
proof fn lemma_max_upto_bounds(ts: Seq<i64>, now: i64, k: int)
    ensures
        max_upto(ts, now, k) >= 1,
        forall|q: int|
            0 <= q < k ==> bucket_members(ts, now, q).len() as int <= max_upto(ts, now, k),
    decreases k,
{
    if k > 0 {
        lemma_max_upto_bounds(ts, now, k - 1);
    }
}

/// Count the samples landing in one bucket.
fn count_bucket(ts: &Vec<i64>, now: i64, b: usize) -> (r: u64)
    requires
        b < 20,
    ensures
        r == bucket_members(ts@, now, b as int).len(),
{
    let n = ts.len();
    let mut i: usize = 0;
    let mut c: u64 = 0;
    proof {
        reveal(Seq::filter);
        assert(ts@.subrange(0, 0) =~= Seq::<i64>::empty());
    }
    while i < n
        invariant
            i <= n,
            n == ts@.len(),
            c <= i,
            c == bucket_members(ts@.subrange(0, i as int), now, b as int).len(),
        decreases n - i,
    {
        let t = ts[i];
        let age: i128 = (now as i128) - (t as i128);
        let mut hit = false;
        if age >= 0 && age <= (ACTIVITY_WINDOW_MS as i128) {
            let idx = age / (ACTIVITY_BUCKET_MS as i128);
            if 19 - idx == b as i128 {
                hit = true;
            }
        }
        proof {
            reveal(Seq::filter);
            let pre = ts@.subrange(0, i as int);
            let cur = ts@.subrange(0, i + 1);
            assert(cur.drop_last() =~= pre);
            assert(cur.last() == ts@[i as int]);
            assert(hit == (0 <= now - ts@[i as int] <= ACTIVITY_WINDOW_MS as int && bucket_of(
                ts@[i as int],
                now,
            ) == b as int));
        }
        if hit {
            c = c + 1;
        }
        i += 1;
    }
    proof {
        assert(ts@.subrange(0, n as int) =~= ts@);
    }
    c
}

/// The attention rule: a blocked agent, an errored stack, or an active
/// agent idle for at least five minutes, in that order of precedence.
pub open spec fn attention_of(
    slot_status: crate::models::SlotStatus,
    agent_status: crate::models::AgentStatus,
    last_ts: Option<i64>,
    now: i64,
) -> Option<Seq<char>> {
    if agent_status is Blocked {
        Some("Agent blocked"@)
    } else if slot_status is Error {
        Some("Aspire error"@)
    } else if agent_status is Active && last_ts is Some && now >= last_ts->0 && (now - last_ts->0)
        / 1000 >= 300 {
        Some("Idle "@ + dec_str((((now - last_ts->0) / 1000 / 60) as nat)) + "m"@)
    } else {
        None
    }
}

/// Evaluate the attention rule; the reason text names the cause.
pub fn attention(
    slot_status: crate::models::SlotStatus,
    agent_status: crate::models::AgentStatus,
    last_ts: Option<i64>,
    now: i64,
) -> (r: Option<String>)
    ensures
        match r {
            Some(reason) => attention_of(slot_status, agent_status, last_ts, now) == Some(
                reason@,
            ),
            None => attention_of(slot_status, agent_status, last_ts, now) is None,
        },
{
    if let crate::models::AgentStatus::Blocked = agent_status {
        return Some(String::from_str("Agent blocked"));
    }
    if let crate::models::SlotStatus::Error = slot_status {
        return Some(String::from_str("Aspire error"));
    }
    if let crate::models::AgentStatus::Active = agent_status {
        if let Some(last) = last_ts {
            if now >= last {
                let idle_secs: i128 = ((now as i128) - (last as i128)) / 1000;
                if idle_secs >= 300 {
                    let mins = idle_secs / 60;
                    proof {
                        assert(0 <= mins < 0x8000000000000000i128);
                    }
                    let mut reason = String::from_str("Idle ");
                    let d = dec_string((mins as u64));
                    reason.append(d.as_str());
                    reason.append("m");
                    return Some(reason);
                }
            }
        }
    }
    None
}

/// State of the blueprint list dialog.
#[derive(Debug)]
pub struct BlueprintListState {
    pub names: Vec<String>,
    pub selected: usize,
    pub loading: bool,
}

impl BlueprintListState {
    /// An empty list, marked as still loading.
    pub fn new() -> (r: BlueprintListState)
        ensures
            r.names@.len() == 0,
            r.selected == 0,
            r.loading,
    {
        BlueprintListState { names: Vec::new(), selected: 0, loading: true }
    }
}

/// State of the blueprint save dialog.
#[derive(Debug)]
pub struct BlueprintSaveState {
    pub name: String,
    pub description: String,
    pub focus: BlueprintSaveField,
}

impl BlueprintSaveState {
    /// Empty fields, the name focused.
    pub fn new() -> (r: BlueprintSaveState)
        ensures
            r.name@.len() == 0,
            r.description@.len() == 0,
            r.focus is Name,
    {
        BlueprintSaveState { name: String::new(), description: String::new(), focus: BlueprintSaveField::Name }
    }
}

/// Which field of the save dialog has focus.
#[derive(Debug, PartialEq, Eq, Structural)]
pub enum BlueprintSaveField {
    Name,
    Description,
}

/// Progress of a running batch operation.
#[derive(Debug)]
pub struct BatchProgressState {
    pub title: String,
    pub total: usize,
    pub completed: usize,
    pub current_slot: Option<String>,
    pub failures: Vec<(String, String)>,
    pub done: bool,
}

impl BatchProgressState {
    /// A batch that has not progressed yet.
    pub fn new(title: &str, total: usize) -> (r: BatchProgressState)
        ensures
            r.title@ == title@,
            r.total == total,
            r.completed == 0,
            r.current_slot is None,
            r.failures@.len() == 0,
            !r.done,
    {
        BatchProgressState {
            title: String::from_str(title),
            total,
            completed: 0,
            current_slot: None,
            failures: Vec::new(),
            done: false,
        }
    }
}

/// Which field of the create dialog has focus.
#[derive(Debug, PartialEq, Eq, Structural)]
pub enum CreateSlotField {
    Source,
    Prompt,
}

/// Form state of the create-slot dialog.
#[derive(Debug)]
pub struct CreateSlotForm {
    pub source: String,
    pub prompt: String,
    pub focus: CreateSlotField,
    pub all_candidates: Vec<RepoCandidate>,
    pub filtered_candidates: Vec<RepoCandidate>,
    pub selected_candidate: Option<usize>,
    pub scan_loading: bool,
    pub filter_deadline: Option<i64>,
}

impl CreateSlotForm {
    /// An empty form waiting for the repository scan.
    pub fn new() -> (r: CreateSlotForm)
        ensures
            r.source@.len() == 0,
            r.prompt@.len() == 0,
            r.focus is Source,
            r.all_candidates@.len() == 0,
            r.filtered_candidates@.len() == 0,
            r.selected_candidate is None,
            r.scan_loading,
            r.filter_deadline is None,
    {
        CreateSlotForm {
            source: String::new(),
            prompt: String::new(),
            focus: CreateSlotField::Source,
            all_candidates: Vec::new(),
            filtered_candidates: Vec::new(),
            selected_candidate: None,
            scan_loading: true,
            filter_deadline: None,
        }
    }

    /// Debounce: run the filter four hundred milliseconds from `now`.
    pub fn schedule_filter(&mut self, now: i64)
        requires
            now <= i64::MAX - 400,
        ensures
            final(self).filter_deadline == Some((now + 400) as i64),
            final(self).source == old(self).source,
            final(self).all_candidates@ == old(self).all_candidates@,
            final(self).filtered_candidates@ == old(self).filtered_candidates@,
            final(self).selected_candidate == old(self).selected_candidate,
    {
        self.filter_deadline = Some(now + 400);
    }

    /// Whether the debounce deadline has passed.
    pub fn should_filter_now(&self, now: i64) -> (r: bool)
        ensures
            r == (self.filter_deadline matches Some(d) && now >= d),
    {
        match self.filter_deadline {
            Some(d) => now >= d,
            None => false,
        }
    }

    /// Move the selection down the candidate list, stopping at the end.
    pub fn select_next_candidate(&mut self)
        ensures
            final(self).selected_candidate == (match old(self).selected_candidate {
                Some(idx) => if idx + 1 < old(self).filtered_candidates@.len() {
                    Some((idx + 1) as usize)
                } else {
                    Some(idx)
                },
                None => None::<usize>,
            }),
            final(self).filtered_candidates@ == old(self).filtered_candidates@,
            final(self).source == old(self).source,
    {
        let n = self.filtered_candidates.len();
        if let Some(idx) = self.selected_candidate {
            if idx < usize::MAX && idx + 1 < n {
                self.selected_candidate = Some(idx + 1);
            }
        }
    }

    /// Move the selection up the candidate list, stopping at the top.
    pub fn select_prev_candidate(&mut self)
        ensures
            final(self).selected_candidate == (match old(self).selected_candidate {
                Some(idx) => if idx > 0 {
                    Some((idx - 1) as usize)
                } else {
                    Some(idx)
                },
                None => None::<usize>,
            }),
            final(self).filtered_candidates@ == old(self).filtered_candidates@,
            final(self).source == old(self).source,
    {
        if let Some(idx) = self.selected_candidate {
            if idx > 0 {
                self.selected_candidate = Some(idx - 1);
            }
        }
    }

    /// Accept the selected candidate: its source value fills the source
    /// field, the candidate list collapses. False when nothing applies.
    pub fn accept_selected(&mut self) -> (r: bool)
        ensures
            r == (old(self).selected_candidate matches Some(idx) && idx < old(
                self,
            ).filtered_candidates@.len()),
            r ==> {
                let idx = old(self).selected_candidate->0 as int;
                let c = old(self).filtered_candidates@[idx];
                &&& final(self).source@ == (if c.local_path is Some {
                    c.local_path->0@
                } else if c.remote_url is Some {
                    c.remote_url->0@
                } else {
                    c.name@
                })
                &&& final(self).filtered_candidates@.len() == 0
                &&& final(self).selected_candidate is None
                &&& final(self).filter_deadline is None
            },
            !r ==> *final(self) == *old(self),
    {
        if let Some(idx) = self.selected_candidate {
            if idx < self.filtered_candidates.len() {
                let v = self.filtered_candidates[idx].source_value();
                let owned = String::from_str(v);
                self.source = owned;
                self.filtered_candidates.clear();
                self.selected_candidate = None;
                self.filter_deadline = None;
                return true;
            }
        }
        false
    }
}

/// Which field of the spawn-agent dialog has focus.
#[derive(Debug, PartialEq, Eq, Structural)]
pub enum SpawnAgentField {
    Prompt,
    AllowedTools,
    MaxTurns,
}

/// Form state of the spawn-agent dialog.
#[derive(Debug)]
pub struct SpawnAgentForm {
    pub prompt: String,
    pub allowed_tools: String,
    pub max_turns: String,
    pub focus: SpawnAgentField,
}

impl SpawnAgentForm {
    /// The default form: the standard tool list, the prompt focused.
    pub fn new() -> (r: SpawnAgentForm)
        ensures
            r.prompt@.len() == 0,
            r.allowed_tools@ == "Bash,Read,Glob,Grep,Write,Edit,WebFetch,WebSearch,Task"@,
            r.max_turns@.len() == 0,
            r.focus is Prompt,
    {
        SpawnAgentForm {
            prompt: String::new(),
            allowed_tools: String::from_str("Bash,Read,Glob,Grep,Write,Edit,WebFetch,WebSearch,Task"),
            max_turns: String::new(),
            focus: SpawnAgentField::Prompt,
        }
    }
}


/// The score the fuzzy matcher gives a choice string against a pattern,
/// with the default configuration: a function of the two strings alone.
pub uninterp spec fn fuzzy_score_of(choice: Seq<char>, pattern: Seq<char>) -> Option<i64>;

/// Relies on fuzzy_matcher's `SkimMatcherV2::fuzzy_match` with the default
/// configuration: the score depends on the choice and pattern alone.
#[verifier::external_body]
fn fuzzy_score(choice: &str, pattern: &str) -> (r: Option<i64>)
    ensures
        r == fuzzy_score_of(choice@, pattern@),
{
    let matcher = fuzzy_matcher::skim::SkimMatcherV2::default();
    fuzzy_matcher::FuzzyMatcher::fuzzy_match(&matcher, choice, pattern)
}

/// A score or zero for a missing one.
pub open spec fn score_or_zero(o: Option<i64>) -> int {
    match o {
        Some(v) => v as int,
        None => 0,
    }
}

/// The score of a candidate against a query: the better of its name score
/// and its local path score.
pub open spec fn cand_score(c: RepoCandidate, q: Seq<char>) -> int {
    let ns = score_or_zero(fuzzy_score_of(c.name@, q));
    let ps = match c.local_path {
        Some(p) => score_or_zero(fuzzy_score_of(p@, q)),
        None => 0,
    };
    if ns >= ps {
        ns
    } else {
        ps
    }
}

impl CreateSlotForm {
    /// Filter the candidates against the trimmed source text: with an
    /// empty query the first six candidates; otherwise the positively
    /// scoring candidates, best first, at most six. The first hit is
    /// selected and the debounce deadline is cleared.
    pub fn apply_filter(&mut self)
        ensures
            final(self).filter_deadline is None,
            final(self).selected_candidate == (if final(self).filtered_candidates@.len() > 0 {
                Some(0usize)
            } else {
                None::<usize>
            }),
            final(self).all_candidates@ == old(self).all_candidates@,
            final(self).source == old(self).source,
            final(self).prompt == old(self).prompt,
            trim_seq(old(self).source@).len() == 0 ==> final(self).filtered_candidates@ == old(
                self,
            ).all_candidates@.take(
                if old(self).all_candidates@.len() > 6 {
                    6
                } else {
                    old(self).all_candidates@.len() as int
                },
            ),
            trim_seq(old(self).source@).len() > 0 ==> {
                let q = trim_seq(old(self).source@);
                &&& final(self).filtered_candidates@.len() <= 6
                &&& forall|k: int|
                    0 <= k < final(self).filtered_candidates@.len() ==> old(
                        self,
                    ).all_candidates@.contains(#[trigger] final(self).filtered_candidates@[k])
                        && cand_score(final(self).filtered_candidates@[k], q) > 0
                &&& forall|k: int, l: int|
                    0 <= k < l < final(self).filtered_candidates@.len() ==> cand_score(
                        #[trigger] final(self).filtered_candidates@[k],
                        q,
                    ) >= cand_score(#[trigger] final(self).filtered_candidates@[l], q)
            },
    {
        let query = trim(self.source.as_str());
        let n = self.all_candidates.len();
        if query.as_str().is_empty() {
            let lim: usize = if n > 6 {
                6
            } else {
                n
            };
            let mut picked: Vec<RepoCandidate> = Vec::new();
            let mut i: usize = 0;
            while i < lim
                invariant
                    i <= lim,
                    lim <= n,
                    n == self.all_candidates@.len(),
                    self.all_candidates@ == old(self).all_candidates@,
                    self.source == old(self).source,
                    self.prompt == old(self).prompt,
                    picked@ =~= self.all_candidates@.subrange(0, i as int),
                decreases lim - i,
            {
                let c = crate::repo::clone_candidate(&self.all_candidates[i]);
                picked.push(c);
                assert(picked@ =~= self.all_candidates@.subrange(0, i + 1));
                i += 1;
            }
            proof {
                assert(picked@ =~= old(self).all_candidates@.take(lim as int));
            }
            let any = picked.len() > 0;
            self.filtered_candidates = picked;
            self.selected_candidate = if any {
                Some(0)
            } else {
                None
            };
            self.filter_deadline = None;
            return ;
        }
        let ghost q = trim_seq(old(self).source@);
        let mut scored: Vec<(i64, RepoCandidate)> = Vec::new();
        let mut i: usize = 0;
        while i < n
            invariant
                i <= n,
                n == self.all_candidates@.len(),
                self.all_candidates@ == old(self).all_candidates@,
                self.source == old(self).source,
                self.prompt == old(self).prompt,
                query@ == q,
                forall|k: int|
                    0 <= k < scored@.len() ==> old(self).all_candidates@.contains(
                        (#[trigger] scored@[k]).1,
                    ) && scored@[k].0 as int == cand_score(scored@[k].1, q) && scored@[k].0 > 0,
            decreases n - i,
        {
            let cand = &self.all_candidates[i];
            let name_score = match fuzzy_score(cand.name.as_str(), query.as_str()) {
                Some(v) => v,
                None => 0,
            };
            let path_score = match &cand.local_path {
                Some(p) => match fuzzy_score(p.as_str(), query.as_str()) {
                    Some(v) => v,
                    None => 0,
                },
                None => 0,
            };
            let best = if name_score >= path_score {
                name_score
            } else {
                path_score
            };
            if best > 0 {
                let c = crate::repo::clone_candidate(cand);
                proof {
                    assert(self.all_candidates@.contains(self.all_candidates@[i as int]));
                }
                scored.push((best, c));
            }
            i += 1;
        }
        let m = scored.len();
        let mut ordered: Vec<(i64, RepoCandidate)> = Vec::new();
        let mut j: usize = 0;
        while j < m
            invariant
                j <= m,
                m == scored@.len(),
                ordered@.len() == j,
                self.all_candidates@ == old(self).all_candidates@,
                self.source == old(self).source,
                self.prompt == old(self).prompt,
                forall|k: int|
                    0 <= k < scored@.len() ==> old(self).all_candidates@.contains(
                        (#[trigger] scored@[k]).1,
                    ) && scored@[k].0 as int == cand_score(scored@[k].1, q) && scored@[k].0 > 0,
                forall|k: int|
                    0 <= k < ordered@.len() ==> old(self).all_candidates@.contains(
                        (#[trigger] ordered@[k]).1,
                    ) && ordered@[k].0 as int == cand_score(ordered@[k].1, q) && ordered@[k].0
                        > 0,
                forall|k: int, l: int|
                    0 <= k < l < ordered@.len() ==> (#[trigger] ordered@[k]).0
                        >= (#[trigger] ordered@[l]).0,
            decreases m - j,
        {
            let item_score = scored[j].0;
            let item_cand = crate::repo::clone_candidate(&scored[j].1);
            let ghost itemv = (item_score, item_cand);
            let olen = ordered.len();
            let mut p: usize = 0;
            while p < olen && ordered[p].0 >= item_score
                invariant
                    p <= olen,
                    olen == ordered@.len(),
                    forall|k: int| 0 <= k < p ==> (#[trigger] ordered@[k]).0 >= item_score,
                decreases olen - p,
            {
                p += 1;
            }
            let ghost ord0 = ordered@;
            ordered.insert(p, (item_score, item_cand));
            proof {
                assert(ordered@[p as int].0 == item_score);
                assert(ordered@[p as int].1 == scored@[j as int].1);
                assert(forall|k: int| 0 <= k < p ==> (#[trigger] ordered@[k]) == ord0[k]);
                assert(forall|k: int|
                    p < k < ordered@.len() ==> (#[trigger] ordered@[k]) == ord0[k - 1]);
                assert forall|k: int, l: int|
                    0 <= k < l < ordered@.len() implies (#[trigger] ordered@[k]).0
                    >= (#[trigger] ordered@[l]).0 by {
                    if k == p && l > p {
                        assert(ordered@[l] == ord0[l - 1]);
                        if p < olen {
                            assert(!(ord0[p as int].0 >= item_score));
                        }
                        if l - 1 > p {
                            assert(ord0[p as int].0 >= ord0[l - 1].0);
                        }
                    } else if l == p {
                        assert(ordered@[k] == ord0[k]);
                    } else if k < p && l > p {
                        assert(ordered@[k] == ord0[k]);
                        assert(ordered@[l] == ord0[l - 1]);
                        if l - 1 == k {
                            if p < olen {
                                assert(!(ord0[p as int].0 >= item_score));
                            }
                        }
                    }
                }
            }
            j += 1;
        }
        let mut limited: Vec<(i64, RepoCandidate)> = ordered;
        if limited.len() > 6 {
            limited.truncate(6);
        }
        let mut picked: Vec<RepoCandidate> = Vec::new();
        let ln = limited.len();
        let mut t: usize = 0;
        while t < ln
            invariant
                t <= ln,
                ln == limited@.len(),
                ln <= 6,
                self.all_candidates@ == old(self).all_candidates@,
                self.source == old(self).source,
                self.prompt == old(self).prompt,
                forall|k: int|
                    0 <= k < ln ==> old(self).all_candidates@.contains(
                        (#[trigger] limited@[k]).1,
                    ) && limited@[k].0 as int == cand_score(limited@[k].1, q) && limited@[k].0
                        > 0,
                forall|k: int, l: int|
                    0 <= k < l < ln ==> (#[trigger] limited@[k]).0 >= (#[trigger] limited@[l]).0,
                picked@.len() == t,
                forall|k: int| 0 <= k < t ==> (#[trigger] picked@[k]) == limited@[k].1,
            decreases ln - t,
        {
            picked.push(crate::repo::clone_candidate(&limited[t].1));
            t += 1;
        }
        let any = picked.len() > 0;
        proof {
            assert forall|k: int, l: int|
                0 <= k < l < picked@.len() implies cand_score(#[trigger] picked@[k], q)
                >= cand_score(#[trigger] picked@[l], q) by {
                assert(picked@[k] == limited@[k].1);
                assert(picked@[l] == limited@[l].1);
            }
        }
        self.filtered_candidates = picked;
        self.selected_candidate = if any {
            Some(0)
        } else {
            None
        };
        self.filter_deadline = None;
    }
}


/// The text after the last colon; the whole text when there is none.
pub open spec fn after_last_colon(s: Seq<char>) -> Seq<char>
    decreases s.len(),
{
    if s.len() == 0 {
        s
    } else if s.last() == ':' {
        Seq::empty()
    } else {
        after_last_colon(s.drop_last()).push(s.last())
    }
}

/// The position of the first slash at or after `j`, or the length.
pub open spec fn slash_end(s: Seq<char>, j: int) -> int
    decreases s.len() - j,
{
    if 0 <= j < s.len() && s[j] != '/' {
        slash_end(s, j + 1)
    } else {
        j
    }
}

/// The port a service URL carries: the digits after the last colon and
/// before any slash, when they form a number up to 65535.
pub open spec fn extract_port_spec(s: Seq<char>) -> Option<u16> {
    let seg = after_last_colon(s);
    let head = seg.subrange(0, slash_end(seg, 0));
    if head.len() > 0 && (forall|i: int|
        0 <= i < head.len() ==> crate::control::is_digit(#[trigger] head[i])) && crate::control::num_val(
        head,
    ) <= 65535 {
        Some((crate::control::num_val(head) as u16))
    } else {
        None
    }
}

/// Read the port out of a service URL for the dashboard card.
pub fn extract_port(url: &str) -> (r: Option<u16>)
    ensures
        r == extract_port_spec(url@),
{
    let cs = chars_of(url);
    let n = cs.len();
    let mut start: usize = 0;
    let mut i: usize = 0;
    while i < n
        invariant
            start <= i <= n,
            n == cs@.len(),
            after_last_colon(cs@.subrange(0, i as int)) == cs@.subrange(start as int, i as int),
        decreases n - i,
    {
        proof {
            assert(cs@.subrange(0, i + 1).drop_last() =~= cs@.subrange(0, i as int));
            assert(cs@.subrange(0, i + 1).last() == cs@[i as int]);
        }
        if cs[i] == ':' {
            start = i + 1;
            proof {
                assert(after_last_colon(cs@.subrange(0, i + 1)) =~= cs@.subrange(i + 1, i + 1));
            }
        } else {
            proof {
                assert(after_last_colon(cs@.subrange(0, i + 1)) =~= cs@.subrange(
                    start as int,
                    i + 1,
                ));
            }
        }
        i += 1;
    }
    proof {
        assert(cs@.subrange(0, n as int) =~= cs@);
    }
    let ghost seg = after_last_colon(cs@);
    let mut e: usize = start;
    while e < n && cs[e] != '/'
        invariant
            start <= e <= n,
            n == cs@.len(),
            seg == cs@.subrange(start as int, n as int),
            slash_end(seg, 0) == slash_end(seg, e - start),
            forall|q: int| start <= q < e ==> cs@[q] != '/',
        decreases n - e,
    {
        e += 1;
    }
    proof {
        assert(slash_end(seg, e - start) == e - start);
    }
    let ghost head = seg.subrange(0, e - start);
    proof {
        assert(head =~= cs@.subrange(start as int, e as int));
    }
    if e == start {
        return None;
    }
    let mut k: usize = start;
    while k < e
        invariant
            start <= k <= e,
            e <= n,
            n == cs@.len(),
            cs@ == url@,
            seg == after_last_colon(cs@),
            seg == cs@.subrange(start as int, n as int),
            slash_end(seg, 0) == e - start,
            start < e,
            head == seg.subrange(0, e - start),
            head == cs@.subrange(start as int, e as int),
            forall|q: int| start <= q < k ==> crate::control::is_digit(#[trigger] cs@[q]),
        decreases e - k,
    {
        let c = cs[k];
        if !(c >= '0' && c <= '9') {
            proof {
                assert(head[k - start] == cs@[k as int]);
            }
            return None;
        }
        k += 1;
    }
    proof {
        assert(forall|q: int|
            0 <= q < head.len() ==> crate::control::is_digit(#[trigger] head[q])) by {
            assert(forall|q: int| 0 <= q < head.len() ==> head[q] == cs@[start + q]);
        }
    }
    let mut val: u32 = 0;
    let mut m: usize = start;
    while m < e
        invariant
            start <= m <= e,
            e <= n,
            n == cs@.len(),
            cs@ == url@,
            seg == after_last_colon(cs@),
            seg == cs@.subrange(start as int, n as int),
            slash_end(seg, 0) == e - start,
            start < e,
            head == seg.subrange(0, e - start),
            head == cs@.subrange(start as int, e as int),
            forall|q: int| start <= q < e ==> crate::control::is_digit(#[trigger] cs@[q]),
            forall|q: int|
                0 <= q < head.len() ==> crate::control::is_digit(#[trigger] head[q]),
            val == crate::control::num_val(cs@.subrange(start as int, m as int)),
            val <= 65535,
        decreases e - m,
    {
        let c = cs[m];
        proof {
            crate::control::lemma_digit_le(c);
            assert(cs@.subrange(start as int, m + 1).drop_last() =~= cs@.subrange(
                start as int,
                m as int,
            ));
            assert(cs@.subrange(start as int, m + 1).last() == c);
        }
        let d = (c as u8) - 0x30;
        if val > 6553 || val * 10 + (d as u32) > 65535 {
            proof {
                let pre = cs@.subrange(start as int, m + 1);
                assert(crate::control::num_val(pre) > 65535) by (nonlinear_arith)
                    requires
                        crate::control::num_val(pre) == val * 10 + d,
                        val > 6553 || val * 10 + d > 65535,
                        d < 10,
                ;
                assert(head =~= pre + cs@.subrange(m + 1, e as int));
                let tailseg = cs@.subrange(m + 1, e as int);
                assert forall|q: int|
                    0 <= q < tailseg.len() implies crate::control::is_digit(
                    #[trigger] tailseg[q],
                ) by {
                    assert(tailseg[q] == cs@[m + 1 + q]);
                }
                crate::control::lemma_num_val_extend(pre, cs@.subrange(m + 1, e as int));
            }
            return None;
        }
        val = val * 10 + (d as u32);
        m += 1;
    }
    proof {
        assert(crate::control::num_val(head) == val);
    }
    Some((val as u16))
}

/// Text cut to `max` characters: unchanged when it fits, else cut with an
/// ellipsis when there is room for one.
pub open spec fn truncate_seq(s: Seq<char>, max: int) -> Seq<char> {
    if s.len() <= max {
        s
    } else if max > 3 {
        s.take(max - 3) + "..."@
    } else {
        s.take(max)
    }
}

/// Cut text for a fixed-width cell.
pub fn truncate(s: &str, max: usize) -> (r: String)
    ensures
        r@ == truncate_seq(s@, max as int),
{
    proof {
        reveal_strlit("...");
    }
    let cs = chars_of(s);
    if cs.len() <= max {
        string_from_chars(&cs)
    } else if max > 3 {
        let head = sub_chars(&cs, 0, max - 3);
        let mut r = string_from_chars(&head);
        r.append("...");
        assert(cs@.take(max - 3) =~= cs@.subrange(0, max - 3));
        r
    } else {
        let head = sub_chars(&cs, 0, max);
        assert(cs@.take(max as int) =~= cs@.subrange(0, max as int));
        string_from_chars(&head)
    }
}

/// Cut a branch name for the slot table.
pub fn truncate_branch(branch: &str, max_len: usize) -> (r: String)
    requires
        max_len >= 3,
    ensures
        r@ == (if branch@.len() <= max_len {
            branch@
        } else {
            branch@.take(max_len - 3) + "..."@
        }),
{
    proof {
        reveal_strlit("...");
    }
    let cs = chars_of(branch);
    if cs.len() <= max_len {
        string_from_chars(&cs)
    } else {
        let head = sub_chars(&cs, 0, max_len - 3);
        let mut r = string_from_chars(&head);
        r.append("...");
        assert(cs@.take(max_len - 3) =~= cs@.subrange(0, max_len - 3));
        r
    }
}

/// A duration rendered for the detail panel: hours and minutes, minutes
/// and seconds, or bare seconds, with the minor unit zero-padded.
pub open spec fn duration_seq(secs: i64) -> Seq<char> {
    let total = if secs >= 0 {
        secs as int
    } else {
        0
    };
    let hours = total / 3600;
    let mins = (total % 3600) / 60;
    let rsecs = total % 60;
    if hours > 0 {
        dec_str(hours as nat) + "h "@ + pad2(mins) + "m"@
    } else if mins > 0 {
        dec_str(mins as nat) + "m "@ + pad2(rsecs) + "s"@
    } else {
        dec_str(rsecs as nat) + "s"@
    }
}

/// Two-digit zero-padded rendering of a value below one hundred.
pub open spec fn pad2(v: int) -> Seq<char> {
    if 0 <= v < 10 {
        "0"@ + dec_str(v as nat)
    } else {
        dec_str(if v >= 0 {
            v as nat
        } else {
            0
        })
    }
}

/// Render a duration in seconds for the detail panel.
pub fn format_duration(secs: i64) -> (r: String)
    ensures
        r@ == duration_seq(secs),
{
    let total: i64 = if secs >= 0 {
        secs
    } else {
        0
    };
    let hours = total / 3600;
    let mins = (total % 3600) / 60;
    let rsecs = total % 60;
    if hours > 0 {
        let mut r = dec_string(hours as u64);
        r.append("h ");
        let p = pad2_exec(mins);
        r.append(p.as_str());
        r.append("m");
        r
    } else if mins > 0 {
        let mut r = dec_string(mins as u64);
        r.append("m ");
        let p = pad2_exec(rsecs);
        r.append(p.as_str());
        r.append("s");
        r
    } else {
        let mut r = dec_string(rsecs as u64);
        r.append("s");
        r
    }
}

/// Zero-pad a small value to two digits.
fn pad2_exec(v: i64) -> (r: String)
    requires
        0 <= v < 100,
    ensures
        r@ == pad2(v as int),
{
    if v < 10 {
        let mut r = String::from_str("0");
        let d = dec_string(v as u64);
        r.append(d.as_str());
        r
    } else {
        dec_string(v as u64)
    }
}

} // verus!

use std::collections::VecDeque;

use vstd::prelude::*;

use crate::text::{trim_string, trim_white};

verus! {

/// How many output records a session keeps for replay.
pub const BACKLOG_CAPACITY: usize = 1000;

/// One chunk of terminal output with its sequence number.
#[derive(Clone, Debug, PartialEq, Eq)]
pub struct TerminalOutput {
    pub seq: u64,
    pub data: String,
}

impl View for TerminalOutput {
    type V = (nat, Seq<char>);

    open spec fn view(&self) -> (nat, Seq<char>) {
        (self.seq as nat, self.data@)
    }
}

/// A shell session as a listing shows it.
#[derive(Clone, Debug, PartialEq, Eq)]
pub struct TerminalSessionInfo {
    pub session_id: String,
    pub cwd: String,
    pub title: Option<String>,
}

/// A request to start a shell session in a working directory.
#[derive(Clone, Debug, PartialEq, Eq)]
pub struct StartTerminalSessionArgs {
    pub cwd: String,
    pub force_new: bool,
}

/// A request that names a shell session.
#[derive(Clone, Debug, PartialEq, Eq)]
pub struct SessionIdArgs {
    pub session_id: String,
}

/// A request to set or clear a shell session's title.
#[derive(Clone, Debug, PartialEq, Eq)]
pub struct SessionIdTitleArgs {
    pub session_id: String,
    pub title: Option<String>,
}

/// Input to write to a shell session.
#[derive(Clone, Debug, PartialEq, Eq)]
pub struct SessionInputArgs {
    pub session_id: String,
    pub input: String,
}

/// A new terminal size for a shell session.
#[derive(Clone, Debug, PartialEq, Eq)]
pub struct ResizeArgs {
    pub session_id: String,
    pub cols: u32,
    pub rows: u32,
}

/// The state of one shell session as a value.
pub struct SessionView {
    /// Sequence number of the latest output record (zero before any output).
    pub seq: nat,
    /// Records kept for replay, oldest first.
    pub backlog: Seq<(nat, Seq<char>)>,
    /// Labels of the attached subscribers, in the order they attached.
    pub subscribers: Seq<Seq<char>>,
    pub title: Option<Seq<char>>,
    pub cwd: Seq<char>,
}

/// A session before any output, with nobody attached.
pub open spec fn fresh_session(cwd: Seq<char>) -> SessionView {
    SessionView {
        seq: 0,
        backlog: Seq::empty(),
        subscribers: Seq::empty(),
        title: None,
        cwd,
    }
}

/// The sequence number the next record gets: one more, held at the top of `u64`.
pub open spec fn next_seq(seq: nat) -> nat {
    if seq < u64::MAX {
        seq + 1
    } else {
        seq
    }
}

/// The backlog with one record added, the oldest dropped when over capacity.
pub open spec fn bounded_push(b: Seq<(nat, Seq<char>)>, rec: (nat, Seq<char>)) -> Seq<
    (nat, Seq<char>),
> {
    if b.len() + 1 > BACKLOG_CAPACITY {
        b.push(rec).drop_first()
    } else {
        b.push(rec)
    }
}

/// The session after one chunk of output.
pub open spec fn after_output(v: SessionView, data: Seq<char>) -> SessionView {
    SessionView {
        seq: next_seq(v.seq),
        backlog: bounded_push(v.backlog, (next_seq(v.seq), data)),
        ..v
    }
}

/// The session after a sequence of output chunks, in order.
pub open spec fn after_outputs(v: SessionView, chunks: Seq<Seq<char>>) -> SessionView
    decreases chunks.len(),
{
    if chunks.len() == 0 {
        v
    } else {
        after_output(after_outputs(v, chunks.drop_last()), chunks.last())
    }
}

/// The subscriber list with `label` added unless it is there already.
pub open spec fn add_subscriber(subs: Seq<Seq<char>>, label: Seq<char>) -> Seq<Seq<char>> {
    if subs.contains(label) {
        subs
    } else {
        subs.push(label)
    }
}

/// The session after `label` attached.
pub open spec fn after_attach(v: SessionView, label: Seq<char>) -> SessionView {
    SessionView { subscribers: add_subscriber(v.subscribers, label), ..v }
}

/// The title that a requested title sets: trimmed, and none when only white space remains.
pub open spec fn title_value(title: Option<Seq<char>>) -> Option<Seq<char>> {
    match title {
        None => None,
        Some(t) => if trim_white(t).len() == 0 {
            None
        } else {
            Some(trim_white(t))
        },
    }
}

/// The state kept for one shell session: its output sequence, the backlog
/// for replay, its subscribers, its title and working directory.
pub struct SessionState {
    seq: u64,
    buffer: VecDeque<TerminalOutput>,
    subscribers: Vec<String>,
    title: Option<String>,
    cwd: String,
}

pub open spec fn subscribers_view(v: Seq<String>) -> Seq<Seq<char>> {
    v.map_values(|s: String| s@)
}

pub open spec fn backlog_view(v: Seq<TerminalOutput>) -> Seq<(nat, Seq<char>)> {
    v.map_values(|o: TerminalOutput| o@)
}

pub open spec fn option_text(o: Option<String>) -> Option<Seq<char>> {
    match o {
        Some(s) => Some(s@),
        None => None,
    }
}

impl View for SessionState {
    type V = SessionView;

    closed spec fn view(&self) -> SessionView {
        SessionView {
            seq: self.seq as nat,
            backlog: backlog_view(self.buffer@),
            subscribers: subscribers_view(self.subscribers@),
            title: option_text(self.title),
            cwd: self.cwd@,
        }
    }
}

fn copy_output(o: &TerminalOutput) -> (r: TerminalOutput)
    ensures
        r@ == o@,
{
    TerminalOutput { seq: o.seq, data: o.data.clone() }
}

fn copy_strings(v: &Vec<String>) -> (r: Vec<String>)
    ensures
        subscribers_view(r@) == subscribers_view(v@),
{
    let mut r: Vec<String> = Vec::new();
    let mut i: usize = 0;
    while i < v.len()
        invariant
            i <= v@.len(),
            r@.len() == i,
            forall|k: int| 0 <= k < i ==> (#[trigger] r@[k])@ == v@[k]@,
        decreases v@.len() - i,
    {
        r.push(v[i].clone());
        i = i + 1;
    }
    assert(subscribers_view(r@) =~= subscribers_view(v@));
    r
}

fn copy_option(o: &Option<String>) -> (r: Option<String>)
    ensures
        option_text(r) == option_text(*o),
{
    match o {
        Some(s) => Some(s.clone()),
        None => None,
    }
}

impl SessionState {
    /// The state of a session that has just started in `cwd`.
    pub fn new(cwd: String) -> (r: SessionState)
        ensures
            r@ == fresh_session(cwd@),
    {
        let r = SessionState {
            seq: 0,
            buffer: VecDeque::new(),
            subscribers: Vec::new(),
            title: None,
            cwd,
        };
        assert(r@.backlog =~= Seq::<(nat, Seq<char>)>::empty());
        assert(r@.subscribers =~= Seq::<Seq<char>>::empty());
        r
    }

    /// Records one chunk of output: the next sequence number, the record in
    /// the backlog (the oldest dropped over capacity), and the subscribers
    /// to deliver it to, all in one step.
    pub fn record_output(&mut self, data: String) -> (r: (TerminalOutput, Vec<String>))
        requires
            old(self)@.backlog.len() <= BACKLOG_CAPACITY,
        ensures
            final(self)@ == after_output(old(self)@, data@),
            final(self)@.backlog.len() <= BACKLOG_CAPACITY,
            r.0@ == (final(self)@.seq, data@),
            subscribers_view(r.1@) == old(self)@.subscribers,
    {
        self.seq = self.seq.saturating_add(1);
        let out = TerminalOutput { seq: self.seq, data };
        let kept = copy_output(&out);
        let ghost before = self.buffer@;
        self.buffer.push_back(kept);
        if self.buffer.len() > BACKLOG_CAPACITY {
            self.buffer.pop_front();
        }
        proof {
            let b = backlog_view(before);
            assert(backlog_view(before.push(kept)) =~= b.push(out@));
            if before.len() + 1 > BACKLOG_CAPACITY {
                assert(backlog_view(before.push(kept).drop_first()) =~= b.push(out@).drop_first());
            }
        }
        let subs = copy_strings(&self.subscribers);
        (out, subs)
    }

    /// Adds `label` to the subscribers and gives the backlog for replay.
    pub fn attach(&mut self, label: String) -> (r: Vec<TerminalOutput>)
        ensures
            final(self)@ == after_attach(old(self)@, label@),
            backlog_view(r@) == old(self)@.backlog,
    {
        let mut found = false;
        let mut i: usize = 0;
        let ghost sv = subscribers_view(self.subscribers@);
        while i < self.subscribers.len()
            invariant
                i <= self.subscribers@.len(),
                sv == subscribers_view(self.subscribers@),
                found <==> exists|k: int| 0 <= k < i && #[trigger] sv[k] == label@,
            decreases self.subscribers@.len() - i,
        {
            assert(sv[i as int] == self.subscribers@[i as int]@);
            if self.subscribers[i] == label {
                found = true;
            }
            i = i + 1;
            assert(found <==> exists|k: int| 0 <= k < i && #[trigger] sv[k] == label@) by {
                if sv[i - 1] == label@ {
                    assert(sv[i - 1] == label@);
                }
            }
        }
        assert(found <==> sv.contains(label@));
        if !found {
            self.subscribers.push(label);
            assert(subscribers_view(self.subscribers@) =~= sv.push(label@));
        }
        let mut out: Vec<TerminalOutput> = Vec::new();
        let mut j: usize = 0;
        while j < self.buffer.len()
            invariant
                j <= self.buffer@.len(),
                out@.len() == j,
                forall|k: int| 0 <= k < j ==> (#[trigger] out@[k])@ == self.buffer@[k]@,
            decreases self.buffer@.len() - j,
        {
            out.push(copy_output(&self.buffer[j]));
            j = j + 1;
        }
        assert(backlog_view(out@) =~= backlog_view(self.buffer@));
        out
    }

    /// Removes `label` from the subscribers.
    pub fn detach(&mut self, label: &str)
        ensures
            final(self)@ == (SessionView {
                subscribers: old(self)@.subscribers.filter(|s: Seq<char>| s != label@),
                ..old(self)@
            }),
    {
        let target = String::from_str(label);
        let mut kept: Vec<String> = Vec::new();
        let mut i: usize = 0;
        let ghost sv = subscribers_view(self.subscribers@);
        let ghost keep = |s: Seq<char>| s != label@;
        while i < self.subscribers.len()
            invariant
                i <= self.subscribers@.len(),
                sv == subscribers_view(self.subscribers@),
                target@ == label@,
                keep == (|s: Seq<char>| s != label@),
                subscribers_view(kept@) == sv.subrange(0, i as int).filter(keep),
            decreases self.subscribers@.len() - i,
        {
            let ghost before = kept@;
            assert(sv.subrange(0, i + 1).drop_last() =~= sv.subrange(0, i as int));
            assert(sv.subrange(0, i + 1).last() == sv[i as int]);
            assert(sv[i as int] == self.subscribers@[i as int]@);
            reveal(Seq::filter);
            if !(self.subscribers[i] == target) {
                kept.push(self.subscribers[i].clone());
                assert(subscribers_view(kept@) =~= subscribers_view(before).push(sv[i as int]));
            } else {
                assert(kept@ == before);
                assert(!keep(sv[i as int]));
            }
            assert(sv.subrange(0, i + 1).filter(keep) == (if keep(sv[i as int]) {
                sv.subrange(0, i as int).filter(keep).push(sv[i as int])
            } else {
                sv.subrange(0, i as int).filter(keep)
            }));
            i = i + 1;
        }
        assert(sv.subrange(0, i as int) =~= sv);
        self.subscribers = kept;
    }

    /// Sets the title: trimmed, cleared when nothing but white space is given.
    pub fn set_title(&mut self, title: Option<String>)
        ensures
            final(self)@ == (SessionView { title: title_value(option_text(title)), ..old(self)@ }),
    {
        self.title = match title {
            None => None,
            Some(t) => {
                let trimmed = trim_string(t.as_str());
                if trimmed.unicode_len() == 0 {
                    None
                } else {
                    Some(trimmed)
                }
            },
        };
    }

    pub fn seq(&self) -> (r: u64)
        ensures
            r as nat == self@.seq,
    {
        self.seq
    }

    pub fn title(&self) -> (r: Option<String>)
        ensures
            option_text(r) == self@.title,
    {
        copy_option(&self.title)
    }

    pub fn cwd(&self) -> (r: String)
        ensures
            r@ == self@.cwd,
    {
        self.cwd.clone()
    }

    /// The labels of the attached subscribers.
    pub fn subscribers(&self) -> (r: Vec<String>)
        ensures
            subscribers_view(r@) == self@.subscribers,
    {
        copy_strings(&self.subscribers)
    }
}

/// Output moves the sequence number on by one per chunk (below the top of
/// `u64`) and leaves everything but the sequence and the backlog as it was.
pub proof fn lemma_outputs_count(v: SessionView, chunks: Seq<Seq<char>>)
    requires
        v.seq + chunks.len() <= u64::MAX,
    ensures
        after_outputs(v, chunks).seq == v.seq + chunks.len(),
        after_outputs(v, chunks).subscribers == v.subscribers,
        after_outputs(v, chunks).title == v.title,
        after_outputs(v, chunks).cwd == v.cwd,
    decreases chunks.len(),
{
    if chunks.len() > 0 {
        lemma_outputs_count(v, chunks.drop_last());
    }
}

/// After `n` chunks of output a new session's backlog holds exactly the
/// most recent `min(n, BACKLOG_CAPACITY)` of them, oldest first, numbered
/// consecutively up to `n`; older records have been dropped.
pub proof fn lemma_backlog_window(cwd: Seq<char>, chunks: Seq<Seq<char>>)
    requires
        chunks.len() <= u64::MAX,
    ensures
        ({
            let v = after_outputs(fresh_session(cwd), chunks);
            let n = chunks.len();
            let m = if n < BACKLOG_CAPACITY {
                n
            } else {
                BACKLOG_CAPACITY as nat
            };
            &&& v.seq == n
            &&& v.backlog.len() == m
            &&& forall|i: int|
                0 <= i < m ==> #[trigger] v.backlog[i] == ((n - m + 1 + i) as nat, chunks[n - m
                    + i])
        }),
    decreases chunks.len(),
{
    lemma_outputs_count(fresh_session(cwd), chunks);
    if chunks.len() > 0 {
        let prev = chunks.drop_last();
        lemma_backlog_window(cwd, prev);
        let v0 = after_outputs(fresh_session(cwd), prev);
        let n = chunks.len();
        let m = if n < BACKLOG_CAPACITY {
            n
        } else {
            BACKLOG_CAPACITY as nat
        };
        let v = after_outputs(fresh_session(cwd), chunks);
        assert forall|i: int| 0 <= i < m implies #[trigger] v.backlog[i] == ((n - m + 1 + i) as nat,
            chunks[n - m + i]) by {
            if i < m - 1 {
                if v0.backlog.len() + 1 > BACKLOG_CAPACITY {
                    assert(v.backlog[i] == v0.backlog[i + 1]);
                } else {
                    assert(v.backlog[i] == v0.backlog[i]);
                }
                assert(chunks[n - m + i] == prev[n - m + i]);
            }
        }
    }
}

/// A subscriber that attaches after `before.len()` chunks is handed a
/// backlog whose last record is numbered `before.len()`, and then each later
/// chunk reaches it live, numbered one past the one before, with no gap and
/// no repeat.
pub proof fn lemma_replay_then_live(
    cwd: Seq<char>,
    before: Seq<Seq<char>>,
    after: Seq<Seq<char>>,
    label: Seq<char>,
)
    requires
        before.len() > 0,
        before.len() + after.len() <= u64::MAX,
    ensures
        ({
            let k = before.len();
            let v = after_attach(after_outputs(fresh_session(cwd), before), label);
            &&& v.backlog.len() > 0
            &&& v.backlog.last() == (k, before.last())
            &&& v.subscribers.contains(label)
            &&& forall|j: int|
                0 <= j < after.len() ==> {
                    let st = #[trigger] after_outputs(v, after.subrange(0, j));
                    &&& next_seq(st.seq) == k + j + 1
                    &&& st.subscribers.contains(label)
                }
        }),
{
    let k = before.len();
    lemma_backlog_window(cwd, before);
    let v = after_attach(after_outputs(fresh_session(cwd), before), label);
    let m = if k < BACKLOG_CAPACITY {
        k
    } else {
        BACKLOG_CAPACITY as nat
    };
    assert(v.backlog[m - 1] == ((k - m + 1 + (m - 1)) as nat, before[k - m + (m - 1)]));
    if v.subscribers != after_outputs(fresh_session(cwd), before).subscribers {
        assert(v.subscribers.last() == label);
    }
    assert(v.subscribers.contains(label)) by {
        if !after_outputs(fresh_session(cwd), before).subscribers.contains(label) {
            assert(v.subscribers[v.subscribers.len() - 1] == label);
        }
    }
    assert forall|j: int| 0 <= j < after.len() implies {
        let st = #[trigger] after_outputs(v, after.subrange(0, j));
        &&& next_seq(st.seq) == k + j + 1
        &&& st.subscribers.contains(label)
    } by {
        lemma_outputs_count(v, after.subrange(0, j));
    }
}

} // verus!

use vstd::prelude::*;

use crate::terminal::{
    after_attach, after_output, fresh_session, option_text, subscribers_view, title_value,
    SessionState, SessionView, TerminalOutput, TerminalSessionInfo, BACKLOG_CAPACITY,
};
use crate::text::{decimal_text, lemma_decimal_text_injective, push_decimal_text};

verus! {

/// The identifier of the `n`th shell session: `s` and the number.
pub open spec fn session_token(n: nat) -> Seq<char> {
    seq!['s'] + decimal_text(n)
}

/// The registry of shell sessions as a value.
pub struct RegistryView {
    /// The number the next session's identifier gets.
    pub next_id: nat,
    /// The live sessions by identifier.
    pub sessions: Map<Seq<char>, SessionView>,
    /// Session identifiers by working-directory key, in the order they started.
    pub index: Map<Seq<char>, Seq<Seq<char>>>,
}

/// The identifiers listed under `key` (none when the key is absent).
pub open spec fn index_ids(v: RegistryView, key: Seq<char>) -> Seq<Seq<char>> {
    if v.index.contains_key(key) {
        v.index[key]
    } else {
        Seq::empty()
    }
}

/// Those of `ids` that name a live session, in order.
pub open spec fn alive(v: RegistryView, ids: Seq<Seq<char>>) -> Seq<Seq<char>> {
    ids.filter(|id: Seq<char>| v.sessions.contains_key(id))
}

/// The registry with the entry under `key` cut down to its live sessions, and
/// dropped when none is left.
pub open spec fn prune(v: RegistryView, key: Seq<char>) -> RegistryView {
    let a = alive(v, index_ids(v, key));
    RegistryView {
        index: if a.len() == 0 {
            v.index.remove(key)
        } else {
            v.index.insert(key, a)
        },
        ..v
    }
}

/// Looking for a session to reuse under `key`: the first live one listed, if any;
/// the entry is pruned either way.
pub open spec fn reuse_step(v: RegistryView, key: Seq<char>) -> (RegistryView, Option<Seq<char>>) {
    let a = alive(v, index_ids(v, key));
    (prune(v, key), if a.len() > 0 {
        Some(a[0])
    } else {
        None
    })
}

/// Registering a newly started session under `key`.
pub open spec fn register_step(v: RegistryView, key: Seq<char>, cwd: Seq<char>) -> (
    RegistryView,
    Seq<char>,
) {
    let id = session_token(v.next_id);
    (
        RegistryView {
            next_id: v.next_id + 1,
            sessions: v.sessions.insert(id, fresh_session(cwd)),
            index: v.index.insert(key, index_ids(v, key).push(id)),
        },
        id,
    )
}

/// The first step of a start request: when a new session is forced nothing
/// is looked up and nothing changes; otherwise a reuse lookup under `key`.
pub open spec fn begin_step(v: RegistryView, key: Seq<char>, force_new: bool) -> (
    RegistryView,
    Option<Seq<char>>,
) {
    if force_new {
        (v, None)
    } else {
        reuse_step(v, key)
    }
}

/// A start request: unless a new session is forced, a live session listed
/// under `key` is reused; otherwise a new one is registered.
pub open spec fn start_step(v: RegistryView, key: Seq<char>, cwd: Seq<char>, force_new: bool) -> (
    RegistryView,
    Seq<char>,
) {
    if force_new {
        register_step(v, key, cwd)
    } else {
        match reuse_step(v, key) {
            (w, Some(id)) => (w, id),
            (w, None) => register_step(w, key, cwd),
        }
    }
}

/// The identifiers of a list with `id` taken out.
pub open spec fn without(ids: Seq<Seq<char>>, id: Seq<char>) -> Seq<Seq<char>> {
    ids.filter(|x: Seq<char>| x != id)
}

/// Stopping `id`: the session and every listing of it go; keys left with no
/// session go too. Stopping an unknown id changes nothing else.
pub open spec fn stop_step(v: RegistryView, id: Seq<char>) -> RegistryView {
    if v.sessions.contains_key(id) {
        RegistryView {
            next_id: v.next_id,
            sessions: v.sessions.remove(id),
            index: Map::new(
                |k: Seq<char>| v.index.contains_key(k) && without(v.index[k], id).len() > 0,
                |k: Seq<char>| without(v.index[k], id),
            ),
        }
    } else {
        v
    }
}

/// The message of a request that names no live session.
pub open spec fn not_found_message() -> Seq<char> {
    seq!['s', 'e', 's', 's', 'i', 'o', 'n', ' ', 'n', 'o', 't', ' ', 'f', 'o', 'u', 'n', 'd']
}

/// What a listing reports of a session: its identifier, its working directory
/// (the requested one when none was recorded) and its title.
pub open spec fn info_of(v: RegistryView, id: Seq<char>, cwd: Seq<char>) -> (
    Seq<char>,
    Seq<char>,
    Option<Seq<char>>,
) {
    let st = v.sessions[id];
    (id, if st.cwd.len() == 0 {
        cwd
    } else {
        st.cwd
    }, st.title)
}

pub open spec fn info_view(i: TerminalSessionInfo) -> (Seq<char>, Seq<char>, Option<Seq<char>>) {
    (i.session_id@, i.cwd@, option_text(i.title))
}

struct ShellEntry {
    num: u64,
    id: String,
    state: SessionState,
}

struct CwdEntry {
    key: String,
    ids: Vec<String>,
}

pub open spec fn ids_view(v: Seq<String>) -> Seq<Seq<char>> {
    v.map_values(|s: String| s@)
}

/// The live shell sessions, the per-session state, and the index of sessions
/// by working directory that the reuse policy consults.
pub struct ShellRegistry {
    next_id: u64,
    entries: Vec<ShellEntry>,
    index: Vec<CwdEntry>,
    sessions_g: Ghost<Map<Seq<char>, SessionView>>,
    index_g: Ghost<Map<Seq<char>, Seq<Seq<char>>>>,
}

impl View for ShellRegistry {
    type V = RegistryView;

    closed spec fn view(&self) -> RegistryView {
        RegistryView { next_id: self.next_id as nat, sessions: self.sessions_g@, index: self.index_g@ }
    }
}

spec fn entry_ok(e: ShellEntry, next_id: nat) -> bool {
    &&& e.num < next_id
    &&& e.id@ == session_token(e.num as nat)
    &&& e.state@.backlog.len() <= BACKLOG_CAPACITY
}

spec fn entries_linked(e: Seq<ShellEntry>, m: Map<Seq<char>, SessionView>, next_id: nat) -> bool {
    &&& forall|i: int, j: int| 0 <= i < j < e.len() ==> e[i].num < e[j].num
    &&& forall|i: int| 0 <= i < e.len() ==> entry_ok(#[trigger] e[i], next_id)
    &&& forall|i: int|
        0 <= i < e.len() ==> m.contains_key((#[trigger] e[i]).id@) && m[e[i].id@] == e[i].state@
    &&& forall|id: Seq<char>|
        #[trigger] m.contains_key(id) ==> exists|i: int| 0 <= i < e.len() && e[i].id@ == id
}

spec fn index_linked(x: Seq<CwdEntry>, m: Map<Seq<char>, Seq<Seq<char>>>) -> bool {
    &&& forall|i: int, j: int| 0 <= i < j < x.len() ==> x[i].key@ != x[j].key@
    &&& forall|i: int|
        0 <= i < x.len() ==> m.contains_key(#[trigger] x[i].key@) && m[x[i].key@] == ids_view(
            x[i].ids@,
        )
    &&& forall|k: Seq<char>|
        #[trigger] m.contains_key(k) ==> exists|i: int| 0 <= i < x.len() && x[i].key@ == k
}

proof fn lemma_token_injective(a: nat, b: nat)
    requires
        session_token(a) == session_token(b),
    ensures
        a == b,
{
    assert(decimal_text(a) =~= session_token(a).drop_first());
    assert(decimal_text(b) =~= session_token(b).drop_first());
    lemma_decimal_text_injective(a, b);
}

/// Changing the state of one entry in place keeps the entries linked to the
/// map with that one state replaced.
proof fn lemma_relink(
    e0: Seq<ShellEntry>,
    e1: Seq<ShellEntry>,
    m: Map<Seq<char>, SessionView>,
    i: int,
    next_id: nat,
)
    requires
        entries_linked(e0, m, next_id),
        0 <= i < e0.len(),
        e1.len() == e0.len(),
        forall|k: int| 0 <= k < e0.len() && k != i ==> e1[k] == e0[k],
        e1[i].num == e0[i].num,
        e1[i].id@ == e0[i].id@,
        e1[i].state@.backlog.len() <= BACKLOG_CAPACITY,
    ensures
        entries_linked(e1, m.insert(e0[i].id@, e1[i].state@), next_id),
{
    let sid = e0[i].id@;
    let m1 = m.insert(sid, e1[i].state@);
    assert(entry_ok(e0[i], next_id));
    assert forall|x: Seq<char>| #[trigger] m1.contains_key(x) implies exists|k: int|
        0 <= k < e1.len() && e1[k].id@ == x by {
        if x != sid {
            assert(m.contains_key(x));
            let k = choose|k: int| 0 <= k < e0.len() && e0[k].id@ == x;
            assert(e1[k].id@ == x);
        } else {
            assert(e1[i].id@ == x);
        }
    }
    assert forall|a: int| 0 <= a < e1.len() implies m1.contains_key((#[trigger] e1[a]).id@)
        && m1[e1[a].id@] == e1[a].state@ by {
        if a != i {
            assert(e1[a] == e0[a]);
            assert(entry_ok(e0[a], next_id));
            if e0[a].id@ == sid {
                lemma_token_injective(e0[a].num as nat, e0[i].num as nat);
                if a < i {
                    assert(e0[a].num < e0[i].num);
                } else {
                    assert(e0[i].num < e0[a].num);
                }
            }
        }
    }
    assert forall|a: int| 0 <= a < e1.len() implies entry_ok(#[trigger] e1[a], next_id) by {
        if a != i {
            assert(e1[a] == e0[a]);
            assert(entry_ok(e0[a], next_id));
        }
    }
    assert forall|a: int, b: int| 0 <= a < b < e1.len() implies e1[a].num < e1[b].num by {
        if a != i {
            assert(e1[a] == e0[a]);
        }
        if b != i {
            assert(e1[b] == e0[b]);
        }
    }
}

/// The identifier of the `n`th shell session.
fn generate_session_id(n: u64) -> (r: String)
    ensures
        r@ == session_token(n as nat),
{
    let mut id = String::from_str("s");
    proof {
        reveal_strlit("s");
    }
    push_decimal_text(&mut id, n);
    assert(id@ =~= session_token(n as nat));
    id
}

fn copy_ids(v: &Vec<String>) -> (r: Vec<String>)
    ensures
        ids_view(r@) == ids_view(v@),
{
    let mut r: Vec<String> = Vec::new();
    let mut i: usize = 0;
    while i < v.len()
        invariant
            i <= v@.len(),
            r@.len() == i,
            forall|k: int| 0 <= k < i ==> (#[trigger] r@[k])@ == v@[k]@,
        decreases v@.len() - i,
    {
        r.push(v[i].clone());
        i = i + 1;
    }
    assert(ids_view(r@) =~= ids_view(v@));
    r
}

impl ShellRegistry {
    /// Well-formed: the vectors hold exactly what the view says, identifiers
    /// are distinct and each was issued below `next_id`.
    pub closed spec fn wf(&self) -> bool {
        &&& entries_linked(self.entries@, self.sessions_g@, self.next_id as nat)
        &&& index_linked(self.index@, self.index_g@)
    }

    pub fn new() -> (r: ShellRegistry)
        ensures
            r.wf(),
            r@ == (RegistryView { next_id: 1, sessions: Map::empty(), index: Map::empty() }),
    {
        ShellRegistry {
            next_id: 1,
            entries: Vec::new(),
            index: Vec::new(),
            sessions_g: Ghost(Map::empty()),
            index_g: Ghost(Map::empty()),
        }
    }

    fn find_entry(&self, id: &str) -> (r: Option<usize>)
        requires
            self.wf(),
        ensures
            r matches Some(i) ==> i < self.entries@.len() && self.entries@[i as int].id@ == id@,
            r is None ==> !self@.sessions.contains_key(id@),
    {
        let target = String::from_str(id);
        let mut i: usize = 0;
        while i < self.entries.len()
            invariant
                self.wf(),
                target@ == id@,
                i <= self.entries@.len(),
                forall|k: int| 0 <= k < i ==> (#[trigger] self.entries@[k]).id@ != id@,
            decreases self.entries@.len() - i,
        {
            if self.entries[i].id == target {
                return Some(i);
            }
            i = i + 1;
        }
        None
    }

    fn find_key(&self, key: &str) -> (r: Option<usize>)
        requires
            self.wf(),
        ensures
            r matches Some(i) ==> i < self.index@.len() && self.index@[i as int].key@ == key@,
            r is None ==> !self@.index.contains_key(key@),
    {
        let target = String::from_str(key);
        let mut i: usize = 0;
        while i < self.index.len()
            invariant
                self.wf(),
                target@ == key@,
                i <= self.index@.len(),
                forall|k: int| 0 <= k < i ==> (#[trigger] self.index@[k]).key@ != key@,
            decreases self.index@.len() - i,
        {
            if self.index[i].key == target {
                return Some(i);
            }
            i = i + 1;
        }
        None
    }

    /// Sets or clears the title of the session `id`; trimmed, and cleared when
    /// only white space is given.
    pub fn set_title(&mut self, id: &str, title: Option<String>) -> (r: Result<(), String>)
        requires
            old(self).wf(),
        ensures
            final(self).wf(),
            r is Ok <==> old(self)@.sessions.contains_key(id@),
            r matches Err(e) ==> e@ == not_found_message(),
            final(self)@ == (if old(self)@.sessions.contains_key(id@) {
                RegistryView {
                    sessions: old(self)@.sessions.insert(
                        id@,
                        SessionView {
                            title: title_value(option_text(title)),
                            ..old(self)@.sessions[id@]
                        },
                    ),
                    ..old(self)@
                }
            } else {
                old(self)@
            }),
    {
        match self.find_entry(id) {
            None => {
                proof {
                    reveal_strlit("session not found");
                }
                Err(String::from_str("session not found"))
            },
            Some(i) => {
                let ghost e0 = self.entries@;
                self.entries[i].state.set_title(title);
                proof {
                    lemma_relink(e0, self.entries@, self.sessions_g@, i as int, self.next_id as nat);
                    self.sessions_g@ = self.sessions_g@.insert(
                        e0[i as int].id@,
                        self.entries@[i as int].state@,
                    );
                }
                Ok(())
            },
        }
    }

    fn index_ids_vec(&self, key: &str) -> (r: Vec<String>)
        requires
            self.wf(),
        ensures
            ids_view(r@) == index_ids(self@, key@),
    {
        match self.find_key(key) {
            Some(i) => copy_ids(&self.index[i].ids),
            None => {
                let r: Vec<String> = Vec::new();
                assert(ids_view(r@) =~= Seq::<Seq<char>>::empty());
                r
            },
        }
    }

    fn alive_vec(&self, ids: &Vec<String>) -> (r: Vec<String>)
        requires
            self.wf(),
        ensures
            ids_view(r@) == alive(self@, ids_view(ids@)),
    {
        let ghost iv = ids_view(ids@);
        let ghost live = |id: Seq<char>| self@.sessions.contains_key(id);
        let mut r: Vec<String> = Vec::new();
        let mut i: usize = 0;
        while i < ids.len()
            invariant
                self.wf(),
                i <= ids@.len(),
                iv == ids_view(ids@),
                live == (|id: Seq<char>| self@.sessions.contains_key(id)),
                ids_view(r@) == iv.subrange(0, i as int).filter(live),
            decreases ids@.len() - i,
        {
            let ghost before = r@;
            assert(iv.subrange(0, i + 1).drop_last() =~= iv.subrange(0, i as int));
            assert(iv.subrange(0, i + 1).last() == iv[i as int]);
            assert(iv[i as int] == ids@[i as int]@);
            reveal(Seq::filter);
            if self.contains(ids[i].as_str()) {
                r.push(ids[i].clone());
                assert(ids_view(r@) =~= ids_view(before).push(iv[i as int]));
            }
            i = i + 1;
        }
        assert(iv.subrange(0, i as int) =~= iv);
        r
    }

    fn put_index(&mut self, key: &str, ids: Vec<String>)
        requires
            old(self).wf(),
        ensures
            final(self).wf(),
            final(self)@ == (RegistryView {
                index: old(self)@.index.insert(key@, ids_view(ids@)),
                ..old(self)@
            }),
    {
        let ghost x0 = self.index@;
        let ghost m1 = self.index_g@.insert(key@, ids_view(ids@));
        match self.find_key(key) {
            Some(i) => {
                self.index[i].ids = ids;
                proof {
                    let x1 = self.index@;
                    assert forall|a: int| 0 <= a < x1.len() implies m1.contains_key(
                        #[trigger] x1[a].key@,
                    ) && m1[x1[a].key@] == ids_view(x1[a].ids@) by {
                        if a != i {
                            assert(x1[a] == x0[a]);
                        }
                    }
                    assert forall|k: Seq<char>| #[trigger] m1.contains_key(k) implies exists|a: int|
                        0 <= a < x1.len() && x1[a].key@ == k by {
                        if k != key@ {
                            let a = choose|a: int| 0 <= a < x0.len() && x0[a].key@ == k;
                            assert(x1[a].key@ == k);
                        } else {
                            assert(x1[i as int].key@ == k);
                        }
                    }
                    assert forall|a: int, b: int| 0 <= a < b < x1.len() implies x1[a].key@
                        != x1[b].key@ by {
                        assert(x1[a].key@ == x0[a].key@);
                        assert(x1[b].key@ == x0[b].key@);
                    }
                    self.index_g@ = m1;
                }
            },
            None => {
                self.index.push(CwdEntry { key: String::from_str(key), ids });
                proof {
                    let x1 = self.index@;
                    let n = x0.len() as int;
                    assert forall|a: int| 0 <= a < x1.len() implies m1.contains_key(
                        #[trigger] x1[a].key@,
                    ) && m1[x1[a].key@] == ids_view(x1[a].ids@) by {
                        if a < n {
                            assert(x1[a] == x0[a]);
                            assert(self.index_g@.contains_key(x0[a].key@));
                        }
                    }
                    assert forall|k: Seq<char>| #[trigger] m1.contains_key(k) implies exists|a: int|
                        0 <= a < x1.len() && x1[a].key@ == k by {
                        if k != key@ {
                            let a = choose|a: int| 0 <= a < x0.len() && x0[a].key@ == k;
                            assert(x1[a].key@ == k);
                        } else {
                            assert(x1[n].key@ == k);
                        }
                    }
                    assert forall|a: int, b: int| 0 <= a < b < x1.len() implies x1[a].key@
                        != x1[b].key@ by {
                        if b == n {
                            assert(x1[a] == x0[a]);
                            assert(self.index_g@.contains_key(x0[a].key@));
                        } else {
                            assert(x1[a] == x0[a]);
                            assert(x1[b] == x0[b]);
                        }
                    }
                    self.index_g@ = m1;
                }
            },
        }
    }

    fn drop_index(&mut self, key: &str)
        requires
            old(self).wf(),
        ensures
            final(self).wf(),
            final(self)@ == (RegistryView { index: old(self)@.index.remove(key@), ..old(self)@ }),
    {
        let ghost x0 = self.index@;
        let ghost m1 = self.index_g@.remove(key@);
        match self.find_key(key) {
            Some(i) => {
                self.index.remove(i);
                proof {
                    let x1 = self.index@;
                    assert forall|a: int| 0 <= a < x1.len() implies m1.contains_key(
                        #[trigger] x1[a].key@,
                    ) && m1[x1[a].key@] == ids_view(x1[a].ids@) by {
                        if a < i {
                            assert(x1[a] == x0[a]);
                        } else {
                            assert(x1[a] == x0[a + 1]);
                        }
                    }
                    assert forall|k: Seq<char>| #[trigger] m1.contains_key(k) implies exists|a: int|
                        0 <= a < x1.len() && x1[a].key@ == k by {
                        let a = choose|a: int| 0 <= a < x0.len() && x0[a].key@ == k;
                        if a < i {
                            assert(x1[a].key@ == k);
                        } else {
                            assert(x1[a - 1].key@ == k);
                        }
                    }
                    assert forall|a: int, b: int| 0 <= a < b < x1.len() implies x1[a].key@
                        != x1[b].key@ by {
                        let a0 = if a < i {
                            a
                        } else {
                            a + 1
                        };
                        let b0 = if b < i {
                            b
                        } else {
                            b + 1
                        };
                        assert(x1[a] == x0[a0]);
                        assert(x1[b] == x0[b0]);
                    }
                    self.index_g@ = m1;
                }
            },
            None => {
                proof {
                    assert(m1 =~= self.index_g@);
                }
            },
        }
    }

    /// Looks under `key` for a live session to reuse. The entry is pruned to
    /// the live sessions, and dropped when none is left.
    pub fn find_reusable(&mut self, key: &str) -> (r: Option<String>)
        requires
            old(self).wf(),
        ensures
            final(self).wf(),
            final(self)@ == reuse_step(old(self)@, key@).0,
            option_text(r) == reuse_step(old(self)@, key@).1,
    {
        let ids = self.index_ids_vec(key);
        let live = self.alive_vec(&ids);
        if live.len() == 0 {
            self.drop_index(key);
            None
        } else {
            let first = live[0].clone();
            self.put_index(key, live);
            Some(first)
        }
    }

    /// Decides a start request under `key`: the session to reuse, or `None`
    /// when a new one must be started (always so when `force_new` is set).
    pub fn begin_start(&mut self, key: &str, force_new: bool) -> (r: Option<String>)
        requires
            old(self).wf(),
        ensures
            final(self).wf(),
            final(self)@ == begin_step(old(self)@, key@, force_new).0,
            option_text(r) == begin_step(old(self)@, key@, force_new).1,
    {
        if force_new {
            None
        } else {
            self.find_reusable(key)
        }
    }

    /// Registers a newly started session under `key`, working in `cwd`, and
    /// gives its identifier.
    pub fn register(&mut self, key: &str, cwd: String) -> (r: String)
        requires
            old(self).wf(),
            old(self)@.next_id < u64::MAX,
        ensures
            final(self).wf(),
            final(self)@ == register_step(old(self)@, key@, cwd@).0,
            r@ == register_step(old(self)@, key@, cwd@).1,
            !old(self)@.sessions.contains_key(r@),
    {
        let n = self.next_id;
        let id = generate_session_id(n);
        proof {
            if self.sessions_g@.contains_key(id@) {
                let k = choose|k: int|
                    0 <= k < self.entries@.len() && self.entries@[k].id@ == id@;
                assert(entry_ok(self.entries@[k], n as nat));
                lemma_token_injective(self.entries@[k].num as nat, n as nat);
            }
        }
        let ghost e0 = self.entries@;
        let ghost m0 = self.sessions_g@;
        let state = SessionState::new(cwd);
        self.entries.push(ShellEntry { num: n, id: id.clone(), state });
        self.next_id = n + 1;
        proof {
            let e1 = self.entries@;
            let m1 = m0.insert(id@, fresh_session(cwd@));
            let k0 = e0.len() as int;
            assert forall|a: int| 0 <= a < e1.len() implies entry_ok(#[trigger] e1[a], (n + 1) as nat) by {
                if a < k0 {
                    assert(e1[a] == e0[a]);
                    assert(entry_ok(e0[a], n as nat));
                }
            }
            assert forall|a: int| 0 <= a < e1.len() implies m1.contains_key((#[trigger] e1[a]).id@)
                && m1[e1[a].id@] == e1[a].state@ by {
                if a < k0 {
                    assert(e1[a] == e0[a]);
                    assert(m0.contains_key(e0[a].id@));
                }
            }
            assert forall|x: Seq<char>| #[trigger] m1.contains_key(x) implies exists|a: int|
                0 <= a < e1.len() && e1[a].id@ == x by {
                if x != id@ {
                    let a = choose|a: int| 0 <= a < e0.len() && e0[a].id@ == x;
                    assert(e1[a].id@ == x);
                } else {
                    assert(e1[k0].id@ == x);
                }
            }
            assert forall|a: int, b: int| 0 <= a < b < e1.len() implies e1[a].num < e1[b].num by {
                assert(e1[a] == e0[a]);
                if b < k0 {
                    assert(e1[b] == e0[b]);
                } else {
                    assert(entry_ok(e0[a], n as nat));
                }
            }
            self.sessions_g@ = m1;
        }
        let mut ids = self.index_ids_vec(key);
        let ghost before = ids@;
        ids.push(id.clone());
        assert(ids_view(ids@) =~= ids_view(before).push(id@));
        self.put_index(key, ids);
        id
    }

    /// Lists the live sessions under `key`, pruning the entry as a reuse
    /// lookup does. A session with no recorded directory reports `cwd`.
    pub fn list_sessions(&mut self, key: &str, cwd: &str) -> (r: Vec<TerminalSessionInfo>)
        requires
            old(self).wf(),
        ensures
            final(self).wf(),
            final(self)@ == prune(old(self)@, key@),
            r@.len() == alive(old(self)@, index_ids(old(self)@, key@)).len(),
            forall|i: int|
                0 <= i < r@.len() ==> info_view(#[trigger] r@[i]) == info_of(
                    old(self)@,
                    alive(old(self)@, index_ids(old(self)@, key@))[i],
                    cwd@,
                ),
    {
        let ids = self.index_ids_vec(key);
        let live = self.alive_vec(&ids);
        let mut infos: Vec<TerminalSessionInfo> = Vec::new();
        let mut i: usize = 0;
        while i < live.len()
            invariant
                self.wf(),
                i <= live@.len(),
                ids_view(live@) == alive(self@, index_ids(self@, key@)),
                infos@.len() == i,
                forall|k: int|
                    0 <= k < i ==> info_view(#[trigger] infos@[k]) == info_of(
                        self@,
                        live@[k]@,
                        cwd@,
                    ),
            decreases live@.len() - i,
        {
            let ghost lv = ids_view(live@);
            assert(lv[i as int] == live@[i as int]@);
            proof {
                index_ids(self@, key@).lemma_filter_pred(
                    |id: Seq<char>| self@.sessions.contains_key(id),
                    i as int,
                );
            }
            match self.find_entry(live[i].as_str()) {
                Some(j) => {
                    proof {
                        assert(entry_ok(self.entries@[j as int], self.next_id as nat));
                    }
                    let st = &self.entries[j].state;
                    let recorded = st.cwd();
                    let shown = if recorded.unicode_len() == 0 {
                        String::from_str(cwd)
                    } else {
                        recorded
                    };
                    infos.push(
                        TerminalSessionInfo { session_id: live[i].clone(), cwd: shown, title: st.title() },
                    );
                },
                None => {
                    // unreachable: every listed live identifier has an entry
                    proof {
                        assert(false);
                    }
                },
            }
            i = i + 1;
        }
        if live.len() == 0 {
            self.drop_index(key);
        } else {
            self.put_index(key, live);
        }
        infos
    }

    /// Stops the session `id`: removes it and every listing of it, and drops
    /// keys that are left with none. An id that names no session changes
    /// nothing; gives whether there was one.
    pub fn stop(&mut self, id: &str) -> (r: bool)
        requires
            old(self).wf(),
        ensures
            final(self).wf(),
            final(self)@ == stop_step(old(self)@, id@),
            r == old(self)@.sessions.contains_key(id@),
    {
        match self.find_entry(id) {
            None => false,
            Some(i) => {
                let ghost e0 = self.entries@;
                let ghost m0 = self.sessions_g@;
                let ghost sid = id@;
                self.entries.remove(i);
                proof {
                    let e1 = self.entries@;
                    let m1 = m0.remove(sid);
                    assert forall|a: int| 0 <= a < e1.len() implies entry_ok(#[trigger] e1[a], self.next_id as nat) by {
                        let a0 = if a < i { a } else { a + 1 };
                        assert(e1[a] == e0[a0]);
                        assert(entry_ok(e0[a0], self.next_id as nat));
                    }
                    assert forall|a: int| 0 <= a < e1.len() implies m1.contains_key((#[trigger] e1[a]).id@)
                        && m1[e1[a].id@] == e1[a].state@ by {
                        let a0 = if a < i { a } else { a + 1 };
                        assert(e1[a] == e0[a0]);
                        assert(m0.contains_key(e0[a0].id@));
                        assert(entry_ok(e0[a0], self.next_id as nat));
                        assert(entry_ok(e0[i as int], self.next_id as nat));
                        if e0[a0].id@ == sid {
                            lemma_token_injective(e0[a0].num as nat, e0[i as int].num as nat);
                            if a0 < i {
                                assert(e0[a0].num < e0[i as int].num);
                            } else {
                                assert(e0[i as int].num < e0[a0].num);
                            }
                        }
                    }
                    assert forall|x: Seq<char>| #[trigger] m1.contains_key(x) implies exists|a: int|
                        0 <= a < e1.len() && e1[a].id@ == x by {
                        let a = choose|a: int| 0 <= a < e0.len() && e0[a].id@ == x;
                        if a < i {
                            assert(e1[a].id@ == x);
                        } else {
                            assert(a != i);
                            assert(e1[a - 1].id@ == x);
                        }
                    }
                    assert forall|a: int, b: int| 0 <= a < b < e1.len() implies e1[a].num < e1[b].num by {
                        let a0 = if a < i { a } else { a + 1 };
                        let b0 = if b < i { b } else { b + 1 };
                        assert(e1[a] == e0[a0]);
                        assert(e1[b] == e0[b0]);
                    }
                    self.sessions_g@ = m1;
                }
                self.unlist(id);
                true
            },
        }
    }

    /// Takes `id` out of every listing and drops keys left with none.
    fn unlist(&mut self, id: &str)
        requires
            old(self).wf(),
        ensures
            final(self).wf(),
            final(self)@ == (RegistryView {
                index: Map::new(
                    |k: Seq<char>| old(self)@.index.contains_key(k) && without(
                        old(self)@.index[k],
                        id@,
                    ).len() > 0,
                    |k: Seq<char>| without(old(self)@.index[k], id@),
                ),
                ..old(self)@
            }),
    {
        let target = String::from_str(id);
        let ghost x0 = self.index@;
        let ghost g0 = self.index_g@;
        let ghost drop = |x: Seq<char>| x != id@;
        let mut kept: Vec<CwdEntry> = Vec::new();
        let ghost mut gm: Map<Seq<char>, Seq<Seq<char>>> = Map::empty();
        let mut j: usize = 0;
        while j < self.index.len()
            invariant
                self.wf(),
                self.index@ == x0,
                self.index_g@ == g0,
                target@ == id@,
                drop == (|x: Seq<char>| x != id@),
                j <= x0.len(),
                index_linked(kept@, gm),
                forall|k: Seq<char>|
                    #[trigger] gm.contains_key(k) <==> (exists|t: int|
                        0 <= t < j && x0[t].key@ == k) && without(g0[k], id@).len() > 0,
                forall|k: Seq<char>| #[trigger] gm.contains_key(k) ==> gm[k] == without(g0[k], id@),
                forall|t: int|
                    0 <= t < kept@.len() ==> exists|s: int|
                        0 <= s < j && x0[s].key@ == (#[trigger] kept@[t]).key@,
            decreases x0.len() - j,
        {
            let ghost key = x0[j as int].key@;
            let ghost iv = ids_view(x0[j as int].ids@);
            assert(g0.contains_key(key) && g0[key] == iv);
            let mut filtered: Vec<String> = Vec::new();
            let mut t: usize = 0;
            while t < self.index[j].ids.len()
                invariant
                    self.wf(),
                    self.index@ == x0,
                    j < x0.len(),
                    target@ == id@,
                    drop == (|x: Seq<char>| x != id@),
                    iv == ids_view(x0[j as int].ids@),
                    t <= x0[j as int].ids@.len(),
                    ids_view(filtered@) == iv.subrange(0, t as int).filter(drop),
                decreases x0[j as int].ids@.len() - t,
            {
                let ghost before = filtered@;
                assert(iv.subrange(0, t + 1).drop_last() =~= iv.subrange(0, t as int));
                assert(iv.subrange(0, t + 1).last() == iv[t as int]);
                assert(iv[t as int] == x0[j as int].ids@[t as int]@);
                reveal(Seq::filter);
                if !(self.index[j].ids[t] == target) {
                    filtered.push(self.index[j].ids[t].clone());
                    assert(ids_view(filtered@) =~= ids_view(before).push(iv[t as int]));
                }
                t = t + 1;
            }
            assert(iv.subrange(0, t as int) =~= iv);
            proof {
                assert forall|u: int| 0 <= u < j implies x0[u].key@ != key by {}
            }
            if filtered.len() > 0 {
                let ghost k0 = kept@;
                kept.push(CwdEntry { key: self.index[j].key.clone(), ids: filtered });
                proof {
                    let gm1 = gm.insert(key, ids_view(kept@[k0.len() as int].ids@));
                    let k1 = kept@;
                    assert forall|a: int| 0 <= a < k1.len() implies gm1.contains_key(
                        #[trigger] k1[a].key@,
                    ) && gm1[k1[a].key@] == ids_view(k1[a].ids@) by {
                        if a < k0.len() {
                            assert(k1[a] == k0[a]);
                            assert(gm.contains_key(k0[a].key@));
                        }
                    }
                    assert forall|k: Seq<char>| #[trigger] gm1.contains_key(k) implies exists|a: int|
                        0 <= a < k1.len() && k1[a].key@ == k by {
                        if k != key {
                            let a = choose|a: int| 0 <= a < k0.len() && k0[a].key@ == k;
                            assert(k1[a].key@ == k);
                        } else {
                            assert(k1[k0.len() as int].key@ == k);
                        }
                    }
                    assert forall|a: int, b: int| 0 <= a < b < k1.len() implies k1[a].key@
                        != k1[b].key@ by {
                        assert(k1[a] == k0[a]);
                        if b < k0.len() {
                            assert(k1[b] == k0[b]);
                        } else {
                            let s0 = choose|s: int| 0 <= s < j && x0[s].key@ == k0[a].key@;
                            assert(x0[s0].key@ != x0[j as int].key@);
                        }
                    }
                    assert forall|u: int| 0 <= u < k1.len() implies exists|s: int|
                        0 <= s < j + 1 && x0[s].key@ == (#[trigger] k1[u]).key@ by {
                        if u < k0.len() {
                            assert(k1[u] == k0[u]);
                            let s0 = choose|s: int| 0 <= s < j && x0[s].key@ == k0[u].key@;
                            assert(x0[s0].key@ == k1[u].key@);
                        } else {
                            assert(x0[j as int].key@ == k1[u].key@);
                        }
                    }
                    assert forall|k: Seq<char>| #[trigger] gm1.contains_key(k) <==> (exists|s: int|
                        0 <= s < j + 1 && x0[s].key@ == k) && without(g0[k], id@).len() > 0 by {
                        if k == key {
                            assert(x0[j as int].key@ == k);
                        } else if (exists|s: int| 0 <= s < j + 1 && x0[s].key@ == k) {
                            let s0 = choose|s: int| 0 <= s < j + 1 && x0[s].key@ == k;
                            assert(s0 != j);
                        }
                    }
                    gm = gm1;
                }
            } else {
                proof {
                    assert forall|k: Seq<char>| #[trigger] gm.contains_key(k) <==> (exists|s: int|
                        0 <= s < j + 1 && x0[s].key@ == k) && without(g0[k], id@).len() > 0 by {
                        if (exists|s: int| 0 <= s < j + 1 && x0[s].key@ == k) && k != key {
                            let s0 = choose|s: int| 0 <= s < j + 1 && x0[s].key@ == k;
                            assert(s0 != j);
                        }
                    }
                    assert forall|u: int| 0 <= u < kept@.len() implies exists|s: int|
                        0 <= s < j + 1 && x0[s].key@ == (#[trigger] kept@[u]).key@ by {
                        let s0 = choose|s: int| 0 <= s < j && x0[s].key@ == kept@[u].key@;
                        assert(x0[s0].key@ == kept@[u].key@);
                    }
                }
            }
            j = j + 1;
        }
        proof {
            let target_map = Map::new(
                |k: Seq<char>| g0.contains_key(k) && without(g0[k], id@).len() > 0,
                |k: Seq<char>| without(g0[k], id@),
            );
            assert forall|k: Seq<char>| gm.contains_key(k) <==> target_map.contains_key(k) by {
                if g0.contains_key(k) {
                    let t = choose|t: int| 0 <= t < x0.len() && x0[t].key@ == k;
                }
            }
            assert(gm =~= target_map);
        }
        self.index = kept;
        proof {
            self.index_g@ = gm;
        }
    }

    /// Records a chunk of output of the session `id` and gives the record with
    /// the subscribers to deliver it to; `None` when the session is gone.
    pub fn record_output(&mut self, id: &str, data: String) -> (r: Option<
        (TerminalOutput, Vec<String>),
    >)
        requires
            old(self).wf(),
        ensures
            final(self).wf(),
            r is Some <==> old(self)@.sessions.contains_key(id@),
            final(self)@ == (if old(self)@.sessions.contains_key(id@) {
                RegistryView {
                    sessions: old(self)@.sessions.insert(
                        id@,
                        after_output(old(self)@.sessions[id@], data@),
                    ),
                    ..old(self)@
                }
            } else {
                old(self)@
            }),
            r matches Some(p) ==> p.0@ == (final(self)@.sessions[id@].seq, data@)
                && subscribers_view(p.1@) == old(self)@.sessions[id@].subscribers,
    {
        match self.find_entry(id) {
            None => None,
            Some(i) => {
                let ghost e0 = self.entries@;
                proof {
                    assert(entry_ok(e0[i as int], self.next_id as nat));
                }
                let out = self.entries[i].state.record_output(data);
                proof {
                    lemma_relink(e0, self.entries@, self.sessions_g@, i as int, self.next_id as nat);
                    self.sessions_g@ = self.sessions_g@.insert(
                        e0[i as int].id@,
                        self.entries@[i as int].state@,
                    );
                }
                Some(out)
            },
        }
    }

    /// Attaches the subscriber `label` to the session `id` and gives the
    /// backlog for replay.
    pub fn attach(&mut self, id: &str, label: String) -> (r: Result<Vec<TerminalOutput>, String>)
        requires
            old(self).wf(),
        ensures
            final(self).wf(),
            r is Ok <==> old(self)@.sessions.contains_key(id@),
            r matches Err(e) ==> e@ == not_found_message(),
            r matches Ok(b) ==> crate::terminal::backlog_view(b@)
                == old(self)@.sessions[id@].backlog,
            final(self)@ == (if old(self)@.sessions.contains_key(id@) {
                RegistryView {
                    sessions: old(self)@.sessions.insert(
                        id@,
                        after_attach(old(self)@.sessions[id@], label@),
                    ),
                    ..old(self)@
                }
            } else {
                old(self)@
            }),
    {
        match self.find_entry(id) {
            None => {
                proof {
                    reveal_strlit("session not found");
                }
                Err(String::from_str("session not found"))
            },
            Some(i) => {
                let ghost e0 = self.entries@;
                proof {
                    assert(entry_ok(e0[i as int], self.next_id as nat));
                }
                let backlog = self.entries[i].state.attach(label);
                proof {
                    lemma_relink(e0, self.entries@, self.sessions_g@, i as int, self.next_id as nat);
                    self.sessions_g@ = self.sessions_g@.insert(
                        e0[i as int].id@,
                        self.entries@[i as int].state@,
                    );
                }
                Ok(backlog)
            },
        }
    }

    /// Detaches the subscriber `label` from the session `id`; live delivery
    /// to it stops, the session goes on. Nothing happens for an unknown id.
    pub fn detach(&mut self, id: &str, label: &str)
        requires
            old(self).wf(),
        ensures
            final(self).wf(),
            final(self)@ == (if old(self)@.sessions.contains_key(id@) {
                RegistryView {
                    sessions: old(self)@.sessions.insert(
                        id@,
                        SessionView {
                            subscribers: old(self)@.sessions[id@].subscribers.filter(
                                |s: Seq<char>| s != label@,
                            ),
                            ..old(self)@.sessions[id@]
                        },
                    ),
                    ..old(self)@
                }
            } else {
                old(self)@
            }),
    {
        match self.find_entry(id) {
            None => {},
            Some(i) => {
                let ghost e0 = self.entries@;
                proof {
                    assert(entry_ok(e0[i as int], self.next_id as nat));
                }
                self.entries[i].state.detach(label);
                proof {
                    lemma_relink(e0, self.entries@, self.sessions_g@, i as int, self.next_id as nat);
                    self.sessions_g@ = self.sessions_g@.insert(
                        e0[i as int].id@,
                        self.entries@[i as int].state@,
                    );
                }
            },
        }
    }

    /// Whether another session can still be given an identifier.
    pub fn can_register(&self) -> (r: bool)
        ensures
            r == (self@.next_id < u64::MAX),
    {
        self.next_id < u64::MAX
    }

    /// Whether `id` names a live session.
    pub fn contains(&self, id: &str) -> (r: bool)
        requires
            self.wf(),
        ensures
            r == self@.sessions.contains_key(id@),
    {
        self.find_entry(id).is_some()
    }

    /// `Ok` when `id` names a live session, else the error for an unknown session.
    pub fn require_session(&self, id: &str) -> (r: Result<(), String>)
        requires
            self.wf(),
        ensures
            r is Ok <==> self@.sessions.contains_key(id@),
            r matches Err(e) ==> e@ == not_found_message(),
    {
        if self.contains(id) {
            Ok(())
        } else {
            proof {
                reveal_strlit("session not found");
            }
            Err(String::from_str("session not found"))
        }
    }
}

proof fn lemma_filter_keeps_all(s: Seq<Seq<char>>, pred: spec_fn(Seq<char>) -> bool)
    requires
        forall|i: int| 0 <= i < s.len() ==> pred(#[trigger] s[i]),
    ensures
        s.filter(pred) == s,
    decreases s.len(),
{
    reveal(Seq::filter);
    if s.len() > 0 {
        lemma_filter_keeps_all(s.drop_last(), pred);
        assert(s.drop_last().push(s.last()) =~= s);
    } else {
        assert(s.filter(pred) =~= s);
    }
}

/// Listing again after a pruning lists the same live sessions.
proof fn lemma_alive_twice(v: RegistryView, ids: Seq<Seq<char>>)
    ensures
        alive(v, alive(v, ids)) == alive(v, ids),
{
    let pred = |id: Seq<char>| v.sessions.contains_key(id);
    assert forall|i: int| 0 <= i < alive(v, ids).len() implies pred(#[trigger] alive(v, ids)[i]) by {
        ids.lemma_filter_pred(pred, i);
    }
    lemma_filter_keeps_all(alive(v, ids), pred);
}

/// A start request is its first step followed, when no session is reused,
/// by registering the newly started one.
pub proof fn lemma_start_is_begin_then_register(
    v: RegistryView,
    key: Seq<char>,
    cwd: Seq<char>,
    force_new: bool,
)
    ensures
        start_step(v, key, cwd, force_new) == (match begin_step(v, key, force_new) {
            (w, Some(id)) => (w, id),
            (w, None) => register_step(w, key, cwd),
        }),
{
}

/// Two start requests under the same key, neither forcing a new session,
/// give the same session identifier.
pub proof fn lemma_reuse_same_session(v: RegistryView, key: Seq<char>, cwd: Seq<char>)
    ensures
        ({
            let (v1, a) = start_step(v, key, cwd, false);
            let (v2, b) = start_step(v1, key, cwd, false);
            a == b
        }),
{
    let ids = index_ids(v, key);
    let live = alive(v, ids);
    if live.len() > 0 {
        let v1 = prune(v, key);
        assert(index_ids(v1, key) == live);
        lemma_alive_twice(v, ids);
        assert(alive(v1, live) == alive(v, live));
    } else {
        let w = prune(v, key);
        assert(!w.index.contains_key(key));
        let (v1, a) = register_step(w, key, cwd);
        assert(index_ids(w, key) =~= Seq::<Seq<char>>::empty());
        assert(index_ids(v1, key) =~= seq![a]);
        let pred = |id: Seq<char>| v1.sessions.contains_key(id);
        seq![a].lemma_filter_contains(pred, 0);
        seq![a].lemma_filter_len(pred);
        assert(alive(v1, seq![a]).len() == 1);
        assert(alive(v1, seq![a])[0] == a);
    }
}

/// Two start requests under the same key that force new sessions give two
/// different identifiers, and a listing under that key then reports both.
pub proof fn lemma_forced_sessions_listed(v: RegistryView, key: Seq<char>, cwd: Seq<char>)
    ensures
        ({
            let (v1, a) = start_step(v, key, cwd, true);
            let (v2, b) = start_step(v1, key, cwd, true);
            &&& a != b
            &&& alive(v2, index_ids(v2, key)).contains(a)
            &&& alive(v2, index_ids(v2, key)).contains(b)
        }),
{
    let (v1, a) = start_step(v, key, cwd, true);
    let (v2, b) = start_step(v1, key, cwd, true);
    if a == b {
        lemma_token_injective(v.next_id, v.next_id + 1);
    }
    let ids = index_ids(v2, key);
    let n: int = index_ids(v, key).len() as int;
    assert(ids =~= index_ids(v, key).push(a).push(b));
    assert(ids[n] == a);
    assert(ids[n + 1] == b);
    let pred = |id: Seq<char>| v2.sessions.contains_key(id);
    ids.lemma_filter_contains(pred, n);
    ids.lemma_filter_contains(pred, n + 1);
}

/// Stopping is idempotent: afterwards the session is gone, a second stop
/// changes nothing, and stopping an identifier that names no session changes
/// nothing either.
pub proof fn lemma_stop_idempotent(v: RegistryView, id: Seq<char>)
    ensures
        !stop_step(v, id).sessions.contains_key(id),
        stop_step(stop_step(v, id), id) == stop_step(v, id),
        !v.sessions.contains_key(id) ==> stop_step(v, id) == v,
{
}

} // verus!

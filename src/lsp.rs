use vstd::prelude::*;

use crate::framing::{encode_frame, frame_bytes};

verus! {

/// A request that names a language-server session.
#[derive(Clone, Debug, PartialEq, Eq)]
pub struct LspSessionIdArgs {
    pub session_id: String,
}

/// Relies on `getrandom::fill`: sixteen bytes from the operating system's
/// random source, or `None` when that source reports an error. Nothing is
/// known of the bytes.
#[verifier::external_body]
fn random_bytes() -> (r: Option<[u8; 16]>) {
    let mut bytes = [0u8; 16];
    match getrandom::fill(&mut bytes) {
        Ok(()) => Some(bytes),
        Err(_) => None,
    }
}

/// Whether a character is a lowercase hexadecimal digit.
pub open spec fn is_lower_hex(c: char) -> bool {
    ('0' <= c <= '9') || ('a' <= c <= 'f')
}

/// The shape of a random (version 4) UUID in hyphenated lowercase form:
/// 36 characters, hyphens at 8, 13, 18 and 23, the version digit `4` at 14,
/// and lowercase hexadecimal digits everywhere else.
pub open spec fn uuid_v4_shape(s: Seq<char>) -> bool {
    &&& s.len() == 36
    &&& s[8] == '-' && s[13] == '-' && s[18] == '-' && s[23] == '-'
    &&& s[14] == '4'
    &&& forall|i: int|
        0 <= i < 36 && i != 8 && i != 13 && i != 18 && i != 23 ==> is_lower_hex(#[trigger] s[i])
}

/// Relies on `uuid::Builder::from_random_bytes` and the `Display` of
/// `uuid::Uuid`: the bytes with the version and variant bits set, written in
/// hyphenated lowercase hexadecimal.
#[verifier::external_body]
fn uuid_text(bytes: [u8; 16]) -> (r: String)
    ensures
        uuid_v4_shape(r@),
{
    uuid::Builder::from_random_bytes(bytes).into_uuid().to_string()
}

/// A language-server session as a value.
pub struct LspView {
    pub plugin_id: Seq<char>,
    pub language_id: Seq<char>,
    pub workspace: Seq<char>,
    /// Whether writes are still accepted.
    pub writer_open: bool,
    /// Whether the kill signal has not been handed out yet.
    pub kill_armed: bool,
}

/// One live language-server session: its names, the sender into its writer
/// queue (`W`) and the one-shot kill signal for its reaper (`K`).
pub struct LspRecord<W, K> {
    session_id: String,
    plugin_id: String,
    language_id: String,
    workspace: String,
    writer: Option<W>,
    killer: Option<K>,
}

impl<W, K> LspRecord<W, K> {
    pub closed spec fn view_of(&self) -> LspView {
        LspView {
            plugin_id: self.plugin_id@,
            language_id: self.language_id@,
            workspace: self.workspace@,
            writer_open: self.writer is Some,
            kill_armed: self.killer is Some,
        }
    }
}

/// What the exit of a session reports: plugin and language identifiers.
pub struct ExitNames<K> {
    pub plugin_id: String,
    pub language_id: String,
    /// The kill signal, if it had not been handed out, for the reaper to fire.
    pub killer: Option<K>,
}

/// The table of language-server sessions, by session identifier.
pub struct LspSessionTable<W, K> {
    records: Vec<LspRecord<W, K>>,
    sessions_g: Ghost<Map<Seq<char>, LspView>>,
}

pub open spec fn not_found(id: Seq<char>) -> Seq<char> {
    "session "@ + id + " not found"@
}

pub open spec fn closing_message() -> Seq<char> {
    "session is closing; the message was not sent"@
}

impl<W, K> View for LspSessionTable<W, K> {
    type V = Map<Seq<char>, LspView>;

    closed spec fn view(&self) -> Map<Seq<char>, LspView> {
        self.sessions_g@
    }
}

impl<W, K> LspSessionTable<W, K> {
    pub closed spec fn wf(&self) -> bool {
        let r = self.records@;
        &&& forall|i: int, j: int| 0 <= i < j < r.len() ==> r[i].session_id@ != r[j].session_id@
        &&& forall|i: int|
            0 <= i < r.len() ==> self.sessions_g@.contains_key((#[trigger] r[i]).session_id@)
                && self.sessions_g@[r[i].session_id@] == r[i].view_of()
        &&& forall|id: Seq<char>|
            #[trigger] self.sessions_g@.contains_key(id) ==> exists|i: int|
                0 <= i < r.len() && r[i].session_id@ == id
    }

    pub fn new() -> (r: Self)
        ensures
            r.wf(),
            r@ == Map::<Seq<char>, LspView>::empty(),
    {
        LspSessionTable { records: Vec::new(), sessions_g: Ghost(Map::empty()) }
    }

    fn find(&self, id: &str) -> (r: Option<usize>)
        requires
            self.wf(),
        ensures
            r matches Some(i) ==> i < self.records@.len() && self.records@[i as int].session_id@
                == id@,
            r is None ==> !self@.contains_key(id@),
    {
        let target = String::from_str(id);
        let mut i: usize = 0;
        while i < self.records.len()
            invariant
                self.wf(),
                target@ == id@,
                i <= self.records@.len(),
                forall|k: int| 0 <= k < i ==> (#[trigger] self.records@[k]).session_id@ != id@,
            decreases self.records@.len() - i,
        {
            if self.records[i].session_id == target {
                return Some(i);
            }
            i = i + 1;
        }
        None
    }

    /// Whether `id` names a live session.
    pub fn contains(&self, id: &str) -> (r: bool)
        requires
            self.wf(),
        ensures
            r == self@.contains_key(id@),
    {
        self.find(id).is_some()
    }

    /// `token` as the identifier of a new session, or `None` when a live
    /// session already has it.
    pub fn claim_session_id(&self, token: String) -> (r: Option<String>)
        requires
            self.wf(),
        ensures
            r is Some <==> !self@.contains_key(token@),
            r matches Some(id) ==> id@ == token@,
    {
        if self.contains(token.as_str()) {
            None
        } else {
            Some(token)
        }
    }

    /// A fresh random session identifier in UUID form. `None` when the random
    /// source fails, or in the unlikely case that the identifier is in use.
    pub fn new_session_id(&self) -> (r: Option<String>)
        requires
            self.wf(),
        ensures
            r matches Some(id) ==> !self@.contains_key(id@) && uuid_v4_shape(id@),
    {
        match random_bytes() {
            None => None,
            Some(bytes) => self.claim_session_id(uuid_text(bytes)),
        }
    }

    /// Registers a started session with its writer queue and kill signal.
    /// Refuses, handing both back, an identifier that is already in use.
    pub fn insert(
        &mut self,
        session_id: String,
        plugin_id: String,
        language_id: String,
        workspace: String,
        writer: W,
        killer: K,
    ) -> (r: Result<(), (W, K)>)
        requires
            old(self).wf(),
        ensures
            final(self).wf(),
            r is Ok <==> !old(self)@.contains_key(session_id@),
            r is Ok ==> final(self)@ == old(self)@.insert(
                session_id@,
                LspView {
                    plugin_id: plugin_id@,
                    language_id: language_id@,
                    workspace: workspace@,
                    writer_open: true,
                    kill_armed: true,
                },
            ),
            r is Err ==> final(self)@ == old(self)@,
    {
        if self.contains(session_id.as_str()) {
            return Err((writer, killer));
        }
        let ghost r0 = self.records@;
        let ghost m0 = self.sessions_g@;
        let rec = LspRecord {
            session_id,
            plugin_id,
            language_id,
            workspace,
            writer: Some(writer),
            killer: Some(killer),
        };
        let ghost sid = rec.session_id@;
        let ghost v = rec.view_of();
        self.records.push(rec);
        proof {
            let r1 = self.records@;
            let m1 = m0.insert(sid, v);
            let n = r0.len() as int;
            assert forall|a: int| 0 <= a < r1.len() implies m1.contains_key(
                (#[trigger] r1[a]).session_id@,
            ) && m1[r1[a].session_id@] == r1[a].view_of() by {
                if a < n {
                    assert(r1[a] == r0[a]);
                    assert(m0.contains_key(r0[a].session_id@));
                }
            }
            assert forall|x: Seq<char>| #[trigger] m1.contains_key(x) implies exists|a: int|
                0 <= a < r1.len() && r1[a].session_id@ == x by {
                if x != sid {
                    let a = choose|a: int| 0 <= a < r0.len() && r0[a].session_id@ == x;
                    assert(r1[a].session_id@ == x);
                } else {
                    assert(r1[n].session_id@ == x);
                }
            }
            assert forall|a: int, b: int| 0 <= a < b < r1.len() implies r1[a].session_id@
                != r1[b].session_id@ by {
                assert(r1[a] == r0[a]);
                if b < n {
                    assert(r1[b] == r0[b]);
                } else {
                    assert(m0.contains_key(r0[a].session_id@));
                }
            }
            self.sessions_g@ = m1;
        }
        Ok(())
    }

    /// The writer queue of the session `id`, for a message to be sent on.
    pub fn writer(&self, id: &str) -> (r: Result<&W, String>)
        requires
            self.wf(),
        ensures
            r is Ok <==> self@.contains_key(id@) && self@[id@].writer_open,
            r matches Err(e) ==> (if self@.contains_key(id@) {
                e@ == closing_message()
            } else {
                e@ == not_found(id@)
            }),
    {
        match self.find(id) {
            None => {
                let e = String::from_str("session ").concat(id).concat(" not found");
                Err(e)
            },
            Some(i) => {
                proof {
                    assert(self.sessions_g@.contains_key(self.records@[i as int].session_id@));
                }
                match &self.records[i].writer {
                    Some(w) => Ok(w),
                    None => Err(String::from_str("session is closing; the message was not sent")),
                }
            },
        }
    }

    /// Stops the session `id`: no more writes are accepted, and the kill
    /// signal is handed out to be fired, once. An unknown id, or a second
    /// stop, changes nothing and hands out nothing.
    pub fn stop(&mut self, id: &str) -> (r: Option<K>)
        requires
            old(self).wf(),
        ensures
            final(self).wf(),
            r is Some <==> old(self)@.contains_key(id@) && old(self)@[id@].kill_armed,
            final(self)@ == (if old(self)@.contains_key(id@) {
                old(self)@.insert(
                    id@,
                    LspView { writer_open: false, kill_armed: false, ..old(self)@[id@] },
                )
            } else {
                old(self)@
            }),
    {
        match self.find(id) {
            None => None,
            Some(i) => {
                let ghost r0 = self.records@;
                let ghost m0 = self.sessions_g@;
                proof {
                    assert(m0.contains_key(r0[i as int].session_id@));
                }
                self.records[i].writer = None;
                let k = self.records[i].killer.take();
                proof {
                    let r1 = self.records@;
                    let m1 = m0.insert(id@, r1[i as int].view_of());
                    assert(r1[i as int].view_of() == LspView {
                        writer_open: false,
                        kill_armed: false,
                        ..m0[id@]
                    });
                    assert forall|a: int| 0 <= a < r1.len() implies m1.contains_key(
                        (#[trigger] r1[a]).session_id@,
                    ) && m1[r1[a].session_id@] == r1[a].view_of() by {
                        if a != i {
                            assert(r1[a] == r0[a]);
                            assert(m0.contains_key(r0[a].session_id@));
                        }
                    }
                    assert forall|x: Seq<char>| #[trigger] m1.contains_key(x) implies exists|a: int|
                        0 <= a < r1.len() && r1[a].session_id@ == x by {
                        if x != id@ {
                            let a = choose|a: int| 0 <= a < r0.len() && r0[a].session_id@ == x;
                            assert(r1[a].session_id@ == x);
                        } else {
                            assert(r1[i as int].session_id@ == x);
                        }
                    }
                    assert forall|a: int, b: int| 0 <= a < b < r1.len() implies r1[a].session_id@
                        != r1[b].session_id@ by {
                        assert(r1[a].session_id@ == r0[a].session_id@);
                        assert(r1[b].session_id@ == r0[b].session_id@);
                    }
                    self.sessions_g@ = m1;
                }
                k
            },
        }
    }

    /// Removes the session `id` when its process has exited, whether it was
    /// stopped or ended by itself, and gives its names and the kill signal if
    /// that had not been handed out. `None` when there is no such session.
    pub fn finish(&mut self, id: &str) -> (r: Option<ExitNames<K>>)
        requires
            old(self).wf(),
        ensures
            final(self).wf(),
            final(self)@ == old(self)@.remove(id@),
            r is Some <==> old(self)@.contains_key(id@),
            r matches Some(n) ==> n.plugin_id@ == old(self)@[id@].plugin_id && n.language_id@
                == old(self)@[id@].language_id && (n.killer is Some <==> old(self)@[id@].kill_armed),
    {
        match self.find(id) {
            None => {
                proof {
                    assert(self.sessions_g@.remove(id@) =~= self.sessions_g@);
                }
                None
            },
            Some(i) => {
                let ghost r0 = self.records@;
                let ghost m0 = self.sessions_g@;
                proof {
                    assert(m0.contains_key(r0[i as int].session_id@));
                }
                let rec = self.records.remove(i);
                proof {
                    let r1 = self.records@;
                    let m1 = m0.remove(id@);
                    assert forall|a: int| 0 <= a < r1.len() implies m1.contains_key(
                        (#[trigger] r1[a]).session_id@,
                    ) && m1[r1[a].session_id@] == r1[a].view_of() by {
                        let a0 = if a < i {
                            a
                        } else {
                            a + 1
                        };
                        assert(r1[a] == r0[a0]);
                        assert(m0.contains_key(r0[a0].session_id@));
                        assert(r0[a0].session_id@ != r0[i as int].session_id@);
                    }
                    assert forall|x: Seq<char>| #[trigger] m1.contains_key(x) implies exists|a: int|
                        0 <= a < r1.len() && r1[a].session_id@ == x by {
                        let a = choose|a: int| 0 <= a < r0.len() && r0[a].session_id@ == x;
                        if a < i {
                            assert(r1[a].session_id@ == x);
                        } else {
                            assert(a != i);
                            assert(r1[a - 1].session_id@ == x);
                        }
                    }
                    assert forall|a: int, b: int| 0 <= a < b < r1.len() implies r1[a].session_id@
                        != r1[b].session_id@ by {
                        let a0 = if a < i {
                            a
                        } else {
                            a + 1
                        };
                        let b0 = if b < i {
                            b
                        } else {
                            b + 1
                        };
                        assert(r1[a] == r0[a0]);
                        assert(r1[b] == r0[b0]);
                    }
                    self.sessions_g@ = m1;
                }
                let LspRecord { plugin_id, language_id, killer, .. } = rec;
                Some(ExitNames { plugin_id, language_id, killer })
            },
        }
    }
}

/// The bytes to send for a serialized message body: one frame.
pub fn frame_payload(body: &[u8]) -> (r: Vec<u8>)
    ensures
        r@ == frame_bytes(body@),
{
    encode_frame(body)
}

/// The message of a request to start a disabled plugin.
pub open spec fn disabled_message(plugin_id: Seq<char>) -> Seq<char> {
    "plugin "@ + plugin_id + " is disabled"@
}

/// `Ok` for an enabled plugin; a disabled one cannot start a session.
pub fn require_enabled(plugin_id: &str, enabled: bool) -> (r: Result<(), String>)
    ensures
        r is Ok <==> enabled,
        r matches Err(e) ==> e@ == disabled_message(plugin_id@),
{
    if enabled {
        Ok(())
    } else {
        Err(String::from_str("plugin ").concat(plugin_id).concat(" is disabled"))
    }
}

/// The language a session speaks: the requested one, else the first that the
/// plugin declares; an error when there is neither.
pub fn choose_language(requested: Option<String>, declared: &Vec<String>) -> (r: Result<
    String,
    String,
>)
    ensures
        requested is Some ==> (r matches Ok(l) && l@ == requested->Some_0@),
        requested is None && declared@.len() > 0 ==> (r matches Ok(l) && l@ == declared@[0]@),
        requested is None && declared@.len() == 0 ==> (r matches Err(e) && e@
            == "the plugin declares no language identifier"@),
{
    match requested {
        Some(l) => Ok(l),
        None => if declared.len() > 0 {
            Ok(declared[0].clone())
        } else {
            Err(String::from_str("the plugin declares no language identifier"))
        },
    }
}

} // verus!

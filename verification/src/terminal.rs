//! The interactive terminal session registry: identities and tracked
//! working directories of live PTY sessions, and the pure decisions of
//! session start-up — the curated child environment, the directory-report
//! injection, and the SSH bootstrap command and script.
//!
//! Opening the PTY pair, spawning the shell, and the blocking reader
//! thread are I/O and stay with the caller, which feeds each output chunk
//! to `process_output`.

use vstd::prelude::*;

use crate::errors::CoreError;
use crate::osc::{parse_osc7_sequence, spec_parse_osc7};

verus! {

/// One live session: its caller-supplied id and the best-known working
/// directory of its shell, a cache updated from directory reports.
pub struct TerminalSession {
    pub id: u64,
    pub current_dir: String,
}

/// The terminal session registry.
pub struct TerminalManager {
    sessions: Vec<TerminalSession>,
}

/// The first position in `s` carrying `id`, or `-1`.
pub open spec fn session_index(s: Seq<(u64, Seq<char>)>, id: u64) -> int
    decreases s.len(),
{
    if s.len() == 0 {
        -1
    } else if s[0].0 == id {
        0
    } else {
        let r = session_index(s.drop_first(), id);
        if r < 0 {
            -1
        } else {
            r + 1
        }
    }
}

/// `session_index` finds exactly the first position carrying `id`.
pub proof fn lemma_session_index(s: Seq<(u64, Seq<char>)>, id: u64)
    ensures
        session_index(s, id) < 0 ==> forall|k: int| 0 <= k < s.len() ==> (#[trigger] s[k]).0 != id,
        session_index(s, id) >= 0 ==> {
            &&& session_index(s, id) < s.len()
            &&& s[session_index(s, id)].0 == id
            &&& forall|k: int| 0 <= k < session_index(s, id) ==> (#[trigger] s[k]).0 != id
        },
    decreases s.len(),
{
    if s.len() > 0 && s[0].0 != id {
        lemma_session_index(s.drop_first(), id);
        assert forall|k: int| 1 <= k < s.len() implies s.drop_first()[k - 1] == s[k] by {}
    }
}

/// The converse: a first occurrence at `i` pins `session_index` to `i`,
/// and no occurrence pins it to `-1`.
pub proof fn lemma_session_index_of(s: Seq<(u64, Seq<char>)>, id: u64, i: int)
    requires
        0 <= i <= s.len(),
        forall|k: int| 0 <= k < i ==> (#[trigger] s[k]).0 != id,
    ensures
        0 <= i < s.len() && s[i].0 == id ==> session_index(s, id) == i,
        (forall|k: int| 0 <= k < s.len() ==> (#[trigger] s[k]).0 != id) ==> session_index(s, id)
            == -1,
    decreases s.len(),
{
    if s.len() > 0 && s[0].0 != id {
        let j: int = if i == 0 {
            0
        } else {
            i - 1
        };
        assert forall|k: int| 0 <= k < j implies (#[trigger] s.drop_first()[k]).0 != id by {
            assert(s.drop_first()[k] == s[k + 1]);
        }
        lemma_session_index_of(s.drop_first(), id, j);
        if 0 <= i < s.len() && s[i].0 == id {
            assert(s.drop_first()[i - 1] == s[i]);
        }
        if forall|k: int| 0 <= k < s.len() ==> (#[trigger] s[k]).0 != id {
            assert forall|k: int|
                0 <= k < s.drop_first().len() implies (#[trigger] s.drop_first()[k]).0 != id by {
                assert(s.drop_first()[k] == s[k + 1]);
            }
        }
    }
}

impl TerminalManager {
    /// The live sessions as id / tracked-directory pairs, in registry
    /// order.
    pub closed spec fn sessions(&self) -> Seq<(u64, Seq<char>)> {
        self.sessions@.map_values(|s: TerminalSession| (s.id, s.current_dir@))
    }

    /// Session ids are unique in the registry.
    pub open spec fn wf(&self) -> bool {
        forall|i: int, j: int|
            0 <= i < j < self.sessions().len() ==> (#[trigger] self.sessions()[i]).0 != (
            #[trigger] self.sessions()[j]).0
    }

    /// An empty registry.
    pub fn new() -> (r: Self)
        ensures
            r.sessions() == Seq::<(u64, Seq<char>)>::empty(),
            r.wf(),
    {
        let r = TerminalManager { sessions: Vec::new() };
        proof {
            assert(r.sessions() =~= Seq::<(u64, Seq<char>)>::empty());
        }
        r
    }

    /// The position of `id` in the registry.
    fn session_pos(&self, session_id: u64) -> (r: Option<usize>)
        ensures
            match r {
                Some(i) => i < self.sessions().len() && session_index(self.sessions(), session_id)
                    == i,
                None => session_index(self.sessions(), session_id) == -1,
            },
    {
        let ghost views = self.sessions();
        let n = self.sessions.len();
        let mut i: usize = 0;
        while i < n
            invariant
                i <= n,
                n == self.sessions@.len(),
                views == self.sessions(),
                forall|k: int| 0 <= k < i ==> (#[trigger] views[k]).0 != session_id,
            decreases n - i,
        {
            if self.sessions[i].id == session_id {
                proof {
                    lemma_session_index_of(views, session_id, i as int);
                }
                return Some(i);
            }
            i = i + 1;
        }
        proof {
            lemma_session_index_of(views, session_id, n as int);
        }
        None
    }

    /// Whether a session is registered under `session_id`.
    pub fn has_session(&self, session_id: u64) -> (r: bool)
        ensures
            r == (session_index(self.sessions(), session_id) >= 0),
    {
        match self.session_pos(session_id) {
            Some(_) => true,
            None => false,
        }
    }

    /// Registers a session under the caller-supplied id with its initial
    /// working directory; a session already registered under the same id
    /// is replaced.
    pub fn open_session(&mut self, session_id: u64, initial_dir: String)
        requires
            old(self).wf(),
        ensures
            final(self).wf(),
            ({
                let i = session_index(old(self).sessions(), session_id);
                if i < 0 {
                    final(self).sessions() == old(self).sessions().push(
                        (session_id, initial_dir@),
                    )
                } else {
                    final(self).sessions() == old(self).sessions().update(
                        i,
                        (session_id, initial_dir@),
                    )
                }
            }),
    {
        let ghost pre = self.sessions();
        let fresh = TerminalSession { id: session_id, current_dir: initial_dir };
        match self.session_pos(session_id) {
            Some(i) => {
                proof {
                    lemma_session_index(pre, session_id);
                }
                self.sessions.set(i, fresh);
                proof {
                    assert(self.sessions() =~= pre.update(i as int, (session_id, initial_dir@)));
                    assert forall|a: int, b: int|
                        0 <= a < b < self.sessions().len() implies (
                    #[trigger] self.sessions()[a]).0 != (#[trigger] self.sessions()[b]).0 by {
                        assert(pre[a].0 != pre[b].0);
                    }
                }
            },
            None => {
                proof {
                    lemma_session_index(pre, session_id);
                }
                self.sessions.push(fresh);
                proof {
                    assert(self.sessions() =~= pre.push((session_id, initial_dir@)));
                    assert forall|a: int, b: int|
                        0 <= a < b < self.sessions().len() implies (
                    #[trigger] self.sessions()[a]).0 != (#[trigger] self.sessions()[b]).0 by {
                        if b < pre.len() {
                            assert(pre[a].0 != pre[b].0);
                        } else {
                            assert(pre[a].0 != session_id);
                        }
                    }
                }
            },
        }
    }

    /// Removes the session registered under `session_id` and hands back
    /// whether one existed; closing an unknown id is a no-op.
    pub fn close_terminal(&mut self, session_id: u64) -> (existed: bool)
        requires
            old(self).wf(),
        ensures
            final(self).wf(),
            existed == (session_index(old(self).sessions(), session_id) >= 0),
            final(self).sessions() == if existed {
                old(self).sessions().remove(session_index(old(self).sessions(), session_id))
            } else {
                old(self).sessions()
            },
    {
        let ghost pre = self.sessions();
        match self.session_pos(session_id) {
            Some(i) => {
                let _ = self.sessions.remove(i);
                proof {
                    assert(self.sessions() =~= pre.remove(i as int));
                    assert forall|a: int, b: int|
                        0 <= a < b < self.sessions().len() implies (
                    #[trigger] self.sessions()[a]).0 != (#[trigger] self.sessions()[b]).0 by {
                        let a0 = if a < i {
                            a
                        } else {
                            a + 1
                        };
                        let b0 = if b < i {
                            b
                        } else {
                            b + 1
                        };
                        assert(self.sessions()[a] == pre[a0]);
                        assert(self.sessions()[b] == pre[b0]);
                        assert(pre[a0].0 != pre[b0].0);
                    }
                }
                true
            },
            None => false,
        }
    }

    /// The tracked working directory of the session registered under
    /// `session_id`; fails with `NotFound` for an unknown id. The value
    /// is a best-effort cache of the shell's true directory.
    pub fn get_current_dir(&self, session_id: u64) -> (r: Result<String, CoreError>)
        ensures
            match r {
                Ok(d) => session_index(self.sessions(), session_id) >= 0 && d@ == self.sessions()[
                    session_index(self.sessions(), session_id)
                ].1,
                Err(e) => session_index(self.sessions(), session_id) == -1 && (e matches
                    CoreError::NotFound),
            },
    {
        match self.session_pos(session_id) {
            Some(i) => Ok(self.sessions[i].current_dir.clone()),
            None => Err(CoreError::NotFound),
        }
    }

    /// Replaces the tracked working directory of the session registered
    /// under `session_id`; fails with `NotFound` for an unknown id.
    pub fn update_current_dir(&mut self, session_id: u64, new_dir: String) -> (r: Result<
        (),
        CoreError,
    >)
        requires
            old(self).wf(),
        ensures
            final(self).wf(),
            match r {
                Ok(()) => {
                    let i = session_index(old(self).sessions(), session_id);
                    &&& i >= 0
                    &&& final(self).sessions() == old(self).sessions().update(
                        i,
                        (session_id, new_dir@),
                    )
                },
                Err(e) => {
                    &&& session_index(old(self).sessions(), session_id) == -1
                    &&& final(self).sessions() == old(self).sessions()
                    &&& (e matches CoreError::NotFound)
                },
            },
    {
        let ghost pre = self.sessions();
        match self.session_pos(session_id) {
            Some(i) => {
                proof {
                    lemma_session_index(pre, session_id);
                }
                self.sessions.set(i, TerminalSession { id: session_id, current_dir: new_dir });
                proof {
                    assert(self.sessions() =~= pre.update(i as int, (session_id, new_dir@)));
                    assert forall|a: int, b: int|
                        0 <= a < b < self.sessions().len() implies (
                    #[trigger] self.sessions()[a]).0 != (#[trigger] self.sessions()[b]).0 by {
                        assert(pre[a].0 != pre[b].0);
                    }
                }
                Ok(())
            },
            None => Err(CoreError::NotFound),
        }
    }

    /// Scans one chunk of a session's output for a directory report and,
    /// when the chunk holds one and the session is still registered,
    /// replaces its tracked directory with the reported path; hands back
    /// whether the directory was updated.
    pub fn process_output(&mut self, session_id: u64, data: &str) -> (updated: bool)
        requires
            old(self).wf(),
        ensures
            final(self).wf(),
            match spec_parse_osc7(data@) {
                None => !updated && final(self).sessions() == old(self).sessions(),
                Some(p) => {
                    let i = session_index(old(self).sessions(), session_id);
                    if i < 0 {
                        !updated && final(self).sessions() == old(self).sessions()
                    } else {
                        updated && final(self).sessions() == old(self).sessions().update(
                            i,
                            (session_id, p),
                        )
                    }
                },
            },
    {
        match parse_osc7_sequence(data) {
            None => false,
            Some(path) => {
                match self.update_current_dir(session_id, path) {
                    Ok(()) => true,
                    Err(_) => false,
                }
            },
        }
    }
}

} // verus!

//! Sessions: timestamp-based expiry over an in-memory store. Time enters
//! every function as an explicit clock reading, so the expiry rules are
//! verified for every instant; the caller supplies the current time.

use vstd::prelude::*;

verus! {

/// Sessions last ten minutes from creation.
pub const SESSION_DURATION_SECS: u64 = 600;

/// One authenticated session.
pub struct Session {
    pub user_id: String,
    pub username: String,
    pub created_at: u64,
    pub expires_at: u64,
}

/// The model of a session: texts as character sequences, times as integers.
pub ghost struct SessionModel {
    pub user_id: Seq<char>,
    pub username: Seq<char>,
    pub created_at: int,
    pub expires_at: int,
}

/// A session created at time T is live strictly before T plus the duration
/// and expired from that instant on.
pub open spec fn spec_expired(m: SessionModel, now: int) -> bool {
    now >= m.expires_at
}

impl Session {
    pub open spec fn model(self) -> SessionModel {
        SessionModel {
            user_id: self.user_id@,
            username: self.username@,
            created_at: self.created_at as int,
            expires_at: self.expires_at as int,
        }
    }

    /// A fresh session for the given user, created now, expiring one
    /// duration later, under a newly drawn user identifier.
    pub fn new(username: String, now: u64) -> (r: Session)
        requires
            now + SESSION_DURATION_SECS <= u64::MAX,
        ensures
            r.model().username == username@,
            r.model().created_at == now as int,
            r.model().expires_at == now + SESSION_DURATION_SECS,
    {
        Session {
            user_id: crate::outside::fresh_uuid_string(),
            username,
            created_at: now,
            expires_at: now + SESSION_DURATION_SECS,
        }
    }

    /// Whether the session has expired at the given instant: live strictly
    /// before the expiry time, expired at and after it.
    pub fn is_expired(&self, now: u64) -> (r: bool)
        ensures
            r == spec_expired(self.model(), now as int),
    {
        now >= self.expires_at
    }
}

impl Clone for Session {
    fn clone(&self) -> (r: Self)
        ensures
            r.model() == self.model(),
    {
        Session {
            user_id: self.user_id.clone(),
            username: self.username.clone(),
            created_at: self.created_at,
            expires_at: self.expires_at,
        }
    }
}

/// The first entry with the given key, searching from the front.
pub open spec fn find_key(s: Seq<(Seq<char>, SessionModel)>, k: Seq<char>) -> Option<SessionModel>
    decreases s.len(),
{
    if s.len() == 0 {
        None
    } else if s[0].0 == k {
        Some(s[0].1)
    } else {
        find_key(s.skip(1), k)
    }
}

/// The entries with every holder of the given key removed, order kept.
pub open spec fn remove_key(s: Seq<(Seq<char>, SessionModel)>, k: Seq<char>) -> Seq<
    (Seq<char>, SessionModel),
>
    decreases s.len(),
{
    if s.len() == 0 {
        Seq::empty()
    } else if s.last().0 == k {
        remove_key(s.drop_last(), k)
    } else {
        remove_key(s.drop_last(), k).push(s.last())
    }
}

/// The entries with only the first holder of the given key removed.
pub open spec fn remove_first_key(s: Seq<(Seq<char>, SessionModel)>, k: Seq<char>) -> Seq<
    (Seq<char>, SessionModel),
>
    decreases s.len(),
{
    if s.len() == 0 {
        Seq::empty()
    } else if s[0].0 == k {
        s.skip(1)
    } else {
        seq![s[0]] + remove_first_key(s.skip(1), k)
    }
}

/// The entries that are still live at the given instant, order kept.
pub open spec fn live_entries(s: Seq<(Seq<char>, SessionModel)>, now: int) -> Seq<
    (Seq<char>, SessionModel),
>
    decreases s.len(),
{
    if s.len() == 0 {
        Seq::empty()
    } else if spec_expired(s.last().1, now) {
        live_entries(s.drop_last(), now)
    } else {
        live_entries(s.drop_last(), now).push(s.last())
    }
}

/// The in-memory session store: entries of session id and session, looked up
/// by id; expired entries are evicted lazily on lookup and by an explicit
/// sweep.
pub struct SessionStore {
    sessions: Vec<(String, Session)>,
}

impl SessionStore {
    pub closed spec fn entries(self) -> Seq<(Seq<char>, SessionModel)> {
        self.sessions@.map_values(|e: (String, Session)| (e.0@, e.1.model()))
    }

    /// An empty store.
    pub fn new() -> (r: Self)
        ensures
            r.entries() == Seq::<(Seq<char>, SessionModel)>::empty(),
    {
        let r = SessionStore { sessions: Vec::new() };
        proof {
            assert(r.entries() =~= Seq::<(Seq<char>, SessionModel)>::empty());
        }
        r
    }

    /// Create a session for the given user under a newly drawn session id:
    /// any older entry under that id goes, the new one comes last.
    pub fn create_session(&mut self, username: String, now: u64) -> (sid: String)
        requires
            now + SESSION_DURATION_SECS <= u64::MAX,
        ensures
            final(self).entries().len() > 0,
            final(self).entries().drop_last() == remove_key(old(self).entries(), sid@),
            final(self).entries().last().0 == sid@,
            final(self).entries().last().1.username == username@,
            final(self).entries().last().1.created_at == now as int,
            final(self).entries().last().1.expires_at == now + SESSION_DURATION_SECS,
    {
        let session_id = crate::outside::fresh_uuid_string();
        let session = Session::new(username, now);
        self.delete_session(session_id.as_str());
        let ghost pruned = self.entries();
        self.sessions.push((session_id.clone(), session));
        proof {
            assert(self.entries() =~= pruned.push(
                (session_id@, self.sessions@.last().1.model()),
            ));
            assert(self.entries().drop_last() =~= pruned);
        }
        session_id
    }

    /// Look up a session: found and still live, it is handed out as a copy;
    /// found but expired, the entry is evicted and nothing is returned;
    /// absent, nothing changes.
    pub fn get_session(&mut self, session_id: &str, now: u64) -> (r: Option<Session>)
        ensures
            match find_key(old(self).entries(), session_id@) {
                None => r is None && final(self).entries() == old(self).entries(),
                Some(m) => {
                    &&& (r is Some <==> !spec_expired(m, now as int))
                    &&& r matches Some(s) ==> s.model() == m && final(self).entries() == old(
                        self,
                    ).entries()
                    &&& spec_expired(m, now as int) ==> final(self).entries() == remove_first_key(
                        old(self).entries(),
                        session_id@,
                    )
                },
            },
    {
        let ghost s0 = self.entries();
        let mut i: usize = 0;
        while i < self.sessions.len()
            invariant
                i <= self.sessions@.len(),
                s0 == old(self).entries(),
                s0 == self.entries(),
                forall|j: int| 0 <= j < i ==> #[trigger] s0[j].0 != session_id@,
            decreases self.sessions@.len() - i,
        {
            if crate::outside::str_eq(self.sessions[i].0.as_str(), session_id) {
                proof {
                    assert(s0[i as int] == (
                        self.sessions@[i as int].0@,
                        self.sessions@[i as int].1.model(),
                    ));
                    lemma_find_key_at(s0, session_id@, i as int);
                    lemma_remove_first_key_at(s0, session_id@, i as int);
                }
                if self.sessions[i].1.is_expired(now) {
                    self.sessions.remove(i);
                    proof {
                        assert(self.entries() =~= s0.remove(i as int));
                    }
                    return None;
                } else {
                    let s = self.sessions[i].1.clone();
                    return Some(s);
                }
            }
            i += 1;
        }
        proof {
            lemma_find_key_none(s0, session_id@);
        }
        None
    }

    /// Remove the entry under the given session id, if any.
    pub fn delete_session(&mut self, session_id: &str)
        ensures
            final(self).entries() == remove_key(old(self).entries(), session_id@),
    {
        let ghost s0 = self.entries();
        let mut kept: Vec<(String, Session)> = Vec::new();
        let mut i: usize = 0;
        proof {
            assert(kept@.map_values(|e: (String, Session)| (e.0@, e.1.model())) =~= remove_key(
                s0.take(0),
                session_id@,
            ));
        }
        while i < self.sessions.len()
            invariant
                i <= self.sessions@.len(),
                s0 == self.entries(),
                kept@.map_values(|e: (String, Session)| (e.0@, e.1.model())) == remove_key(
                    s0.take(i as int),
                    session_id@,
                ),
            decreases self.sessions@.len() - i,
        {
            let ghost kept0 = kept@.map_values(|e: (String, Session)| (e.0@, e.1.model()));
            proof {
                assert(s0.take(i + 1).drop_last() =~= s0.take(i as int));
                assert(s0.take(i + 1).last() == s0[i as int]);
            }
            if !crate::outside::str_eq(self.sessions[i].0.as_str(), session_id) {
                let e = (self.sessions[i].0.clone(), self.sessions[i].1.clone());
                kept.push(e);
                proof {
                    assert(kept@.map_values(|e: (String, Session)| (e.0@, e.1.model())) =~= kept0.push(
                        s0[i as int],
                    ));
                }
            }
            i += 1;
        }
        proof {
            assert(s0.take(s0.len() as int) =~= s0);
        }
        self.sessions = kept;
    }

    /// Evict every entry that has expired by the given instant; the live
    /// entries stay in order.
    pub fn cleanup_expired(&mut self, now: u64)
        ensures
            final(self).entries() == live_entries(old(self).entries(), now as int),
    {
        let ghost s0 = self.entries();
        let mut kept: Vec<(String, Session)> = Vec::new();
        let mut i: usize = 0;
        proof {
            assert(kept@.map_values(|e: (String, Session)| (e.0@, e.1.model())) =~= live_entries(
                s0.take(0),
                now as int,
            ));
        }
        while i < self.sessions.len()
            invariant
                i <= self.sessions@.len(),
                s0 == self.entries(),
                kept@.map_values(|e: (String, Session)| (e.0@, e.1.model())) == live_entries(
                    s0.take(i as int),
                    now as int,
                ),
            decreases self.sessions@.len() - i,
        {
            let ghost kept0 = kept@.map_values(|e: (String, Session)| (e.0@, e.1.model()));
            proof {
                assert(s0.take(i + 1).drop_last() =~= s0.take(i as int));
                assert(s0.take(i + 1).last() == s0[i as int]);
            }
            if !self.sessions[i].1.is_expired(now) {
                let e = (self.sessions[i].0.clone(), self.sessions[i].1.clone());
                kept.push(e);
                proof {
                    assert(kept@.map_values(|e: (String, Session)| (e.0@, e.1.model())) =~= kept0.push(
                        s0[i as int],
                    ));
                }
            }
            i += 1;
        }
        proof {
            assert(s0.take(s0.len() as int) =~= s0);
        }
        self.sessions = kept;
    }
}

/// Where the first match sits, the search finds exactly that entry.
proof fn lemma_find_key_at(s: Seq<(Seq<char>, SessionModel)>, k: Seq<char>, i: int)
    requires
        0 <= i < s.len(),
        s[i].0 == k,
        forall|j: int| 0 <= j < i ==> #[trigger] s[j].0 != k,
    ensures
        find_key(s, k) == Some(s[i].1),
    decreases i,
{
    if i > 0 {
        lemma_find_key_at(s.skip(1), k, i - 1);
    }
}

/// With no match anywhere, the search finds nothing.
proof fn lemma_find_key_none(s: Seq<(Seq<char>, SessionModel)>, k: Seq<char>)
    requires
        forall|j: int| 0 <= j < s.len() ==> #[trigger] s[j].0 != k,
    ensures
        find_key(s, k) is None,
    decreases s.len(),
{
    if s.len() > 0 {
        lemma_find_key_none(s.skip(1), k);
    }
}

/// Removing the first match removes exactly the entry at its position.
proof fn lemma_remove_first_key_at(s: Seq<(Seq<char>, SessionModel)>, k: Seq<char>, i: int)
    requires
        0 <= i < s.len(),
        s[i].0 == k,
        forall|j: int| 0 <= j < i ==> #[trigger] s[j].0 != k,
    ensures
        remove_first_key(s, k) =~= s.remove(i),
    decreases i,
{
    if i > 0 {
        lemma_remove_first_key_at(s.skip(1), k, i - 1);
        assert(s.remove(i) =~= seq![s[0]] + s.skip(1).remove(i - 1));
    } else {
        assert(s.remove(0) =~= s.skip(1));
    }
}

/// No entry under the given key survives its removal.
pub proof fn lemma_remove_key_clears(s: Seq<(Seq<char>, SessionModel)>, k: Seq<char>)
    ensures
        forall|j: int|
            0 <= j < remove_key(s, k).len() ==> #[trigger] remove_key(s, k)[j].0 != k,
    decreases s.len(),
{
    if s.len() > 0 {
        lemma_remove_key_clears(s.drop_last(), k);
        if s.last().0 != k {
            assert forall|j: int|
                0 <= j < remove_key(s, k).len() implies #[trigger] remove_key(s, k)[j].0
                != k by {
                let pre = remove_key(s.drop_last(), k);
                if j < pre.len() {
                    assert(remove_key(s, k)[j] == pre[j]);
                } else {
                    assert(remove_key(s, k)[j] == s.last());
                }
            }
        }
    }
}

/// Session expiry: a session just created under a fresh id is the one its id
/// finds, whatever the store held before; by `get_session`'s contract it is
/// then handed out at every instant strictly before its expiry time and gone
/// at and after it.
pub proof fn lemma_session_expiry(s: Seq<(Seq<char>, SessionModel)>, k: Seq<char>, m: SessionModel)
    ensures
        find_key(remove_key(s, k).push((k, m)), k) == Some(m),
{
    lemma_remove_key_clears(s, k);
    let t = remove_key(s, k).push((k, m));
    assert(t[t.len() - 1].0 == k);
    assert(forall|j: int| 0 <= j < t.len() - 1 ==> #[trigger] t[j].0 != k);
    lemma_find_key_at(t, k, t.len() - 1);
}

} // verus!

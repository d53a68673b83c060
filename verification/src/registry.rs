//! The per-account session registry and the routing of live events.
//!
//! The registry is built once after authorization and then only read; each
//! session owns one target chat and one archive file path.  A live event
//! carries the session identifier of the account it belongs to; an event for
//! an unknown identifier, or for the wrong chat, is dropped.

use vstd::prelude::*;

verus! {

/// One account's session: its session identifier, its target chat, the path
/// of its archive file, and the directory its downloaded media goes to.
#[derive(Debug, Clone)]
pub struct AccountSession {
    pub client_id: i32,
    pub chat_id: i64,
    pub file_path: String,
    pub media_dir: String,
}

/// The first session in `s` with the given identifier.
pub open spec fn find_in(s: Seq<AccountSession>, id: i32) -> Option<AccountSession>
    decreases s.len(),
{
    if s.len() == 0 {
        None
    } else if s[0].client_id == id {
        Some(s[0])
    } else {
        find_in(s.drop_first(), id)
    }
}

proof fn lemma_find_in_none(s: Seq<AccountSession>, id: i32)
    ensures
        find_in(s, id) is None <==> forall|i: int|
            0 <= i < s.len() ==> (#[trigger] s[i]).client_id != id,
    decreases s.len(),
{
    if s.len() > 0 {
        lemma_find_in_none(s.drop_first(), id);
        if find_in(s, id) is None {
            assert(find_in(s.drop_first(), id) is None);
            assert forall|i: int| 0 <= i < s.len() implies (#[trigger] s[i]).client_id != id by {
                if i > 0 {
                    assert(s.drop_first()[i - 1] == s[i]);
                }
            }
        }
        if forall|i: int| 0 <= i < s.len() ==> (#[trigger] s[i]).client_id != id {
            assert forall|i: int|
                0 <= i < s.drop_first().len() implies (#[trigger] s.drop_first()[i]).client_id
                != id by {
                assert(s.drop_first()[i] == s[i + 1]);
            }
            assert(s[0].client_id != id);
            assert(find_in(s, id) is None);
        }
    }
}

proof fn lemma_find_in_push(s: Seq<AccountSession>, x: AccountSession, id: i32)
    ensures
        find_in(s, id) is Some ==> find_in(s.push(x), id) == find_in(s, id),
        find_in(s, id) is None && x.client_id == id ==> find_in(s.push(x), id) == Some(x),
        find_in(s, id) is None && x.client_id != id ==> find_in(s.push(x), id) is None,
    decreases s.len(),
{
    if s.len() == 0 {
        assert(s.push(x)[0] == x);
        assert(s.push(x).drop_first() =~= Seq::<AccountSession>::empty());
    } else {
        assert(s.push(x)[0] == s[0]);
        assert(s.push(x).drop_first() =~= s.drop_first().push(x));
        lemma_find_in_push(s.drop_first(), x, id);
    }
}

proof fn lemma_find_in_skip(s: Seq<AccountSession>, id: i32, i: int)
    requires
        0 <= i <= s.len(),
        forall|j: int| 0 <= j < i ==> (#[trigger] s[j]).client_id != id,
    ensures
        find_in(s, id) == find_in(s.skip(i), id),
    decreases i,
{
    if i > 0 {
        assert(s.len() > 0);
        assert(s[0].client_id != id);
        assert(find_in(s, id) == find_in(s.drop_first(), id));
        assert forall|j: int|
            0 <= j < i - 1 implies (#[trigger] s.drop_first()[j]).client_id != id by {
            assert(s.drop_first()[j] == s[j + 1]);
        }
        lemma_find_in_skip(s.drop_first(), id, i - 1);
        assert(s.drop_first().skip(i - 1) =~= s.skip(i));
    } else {
        assert(s.skip(0) =~= s);
    }
}

/// The read-only map from session identifier to account session, built once
/// at startup.
#[derive(Debug)]
pub struct SessionRegistry {
    sessions: Vec<AccountSession>,
}

impl SessionRegistry {
    /// No two sessions share an identifier.
    pub closed spec fn wf(self) -> bool {
        forall|i: int, j: int|
            0 <= i < j < self.sessions@.len() ==> (#[trigger] self.sessions@[i]).client_id != (
            #[trigger] self.sessions@[j]).client_id
    }

    /// The session registered under the identifier, if any.
    pub closed spec fn spec_find(self, id: i32) -> Option<AccountSession> {
        find_in(self.sessions@, id)
    }

    /// How many sessions are registered.
    pub closed spec fn spec_len(self) -> nat {
        self.sessions@.len()
    }

    /// An empty registry.
    pub fn new() -> (r: SessionRegistry)
        ensures
            r.wf(),
            forall|id: i32| r.spec_find(id) is None,
            r.spec_len() == 0,
    {
        let r = SessionRegistry { sessions: Vec::new() };
        proof {
            assert forall|id: i32| r.spec_find(id) is None by {
                lemma_find_in_none(r.sessions@, id);
            }
        }
        r
    }

    /// Register one more account's session under a fresh identifier.
    pub fn insert(&mut self, session: AccountSession)
        requires
            old(self).wf(),
            old(self).spec_find(session.client_id) is None,
        ensures
            final(self).wf(),
            final(self).spec_find(session.client_id) == Some(session),
            forall|id: i32|
                id != session.client_id ==> final(self).spec_find(id) == old(self).spec_find(id),
            final(self).spec_len() == old(self).spec_len() + 1,
    {
        let ghost pre = self.sessions@;
        proof {
            lemma_find_in_none(pre, session.client_id);
        }
        self.sessions.push(session);
        proof {
            assert forall|id: i32|
                id != session.client_id implies find_in(self.sessions@, id) == find_in(
                pre,
                id,
            ) by {
                lemma_find_in_push(pre, session, id);
            }
            lemma_find_in_push(pre, session, session.client_id);
        }
    }

    /// Look a session up by its identifier.
    pub fn find(&self, id: i32) -> (r: Option<&AccountSession>)
        ensures
            r matches Some(s) ==> self.spec_find(id) == Some(*s),
            r is None ==> self.spec_find(id) is None,
    {
        let mut i: usize = 0;
        while i < self.sessions.len()
            invariant
                i <= self.sessions@.len(),
                forall|j: int| 0 <= j < i ==> (#[trigger] self.sessions@[j]).client_id != id,
            decreases self.sessions@.len() - i,
        {
            if self.sessions[i].client_id == id {
                proof {
                    lemma_find_in_skip(self.sessions@, id, i as int);
                    assert(self.sessions@.skip(i as int)[0] == self.sessions@[i as int]);
                }
                return Some(&self.sessions[i]);
            }
            i = i + 1;
        }
        proof {
            lemma_find_in_none(self.sessions@, id);
        }
        None
    }
}

/// What the router does with one live "new message" event.
#[derive(Debug, Clone, PartialEq, Eq, Structural)]
pub enum RouteDecision {
    /// The event belongs to this session's target chat: archive it.
    Deliver,
    /// No session is registered under the event's identifier: drop it.
    UnknownSession,
    /// The message is not in the session's target chat: drop it.
    WrongChat,
}

/// Decide where a live event goes: to the owning session's archive path when
/// its session identifier is registered and the message's chat is that
/// session's target chat, and nowhere otherwise.
pub fn route_event(registry: &SessionRegistry, client_id: i32, chat_id: i64) -> (r: RouteDecision)
    ensures
        registry.spec_find(client_id) is None <==> r == RouteDecision::UnknownSession,
        registry.spec_find(client_id) matches Some(s) ==> (r == RouteDecision::Deliver <==> s.chat_id
            == chat_id),
        registry.spec_find(client_id) matches Some(s) ==> (r == RouteDecision::WrongChat <==> s.chat_id
            != chat_id),
{
    match registry.find(client_id) {
        None => RouteDecision::UnknownSession,
        Some(session) => {
            if session.chat_id == chat_id {
                RouteDecision::Deliver
            } else {
                RouteDecision::WrongChat
            }
        },
    }
}

} // verus!

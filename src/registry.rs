//! The connection registry: tokens, the two keyed mappings (connections
//! before and after promotion), and the per-token decisions of the reactor.

use std::collections::HashMap;
use vstd::prelude::*;

verus! {

broadcast use vstd::std_specs::hash::group_hash_axioms;

/// The token of the listening socket; connection tokens are issued above it.
pub const LISTENER_TOKEN: usize = 0;

/// Which mapping holds a token.
#[derive(Clone, Copy, Debug, PartialEq, Eq, Structural)]
pub enum Owner {
    Player,
    Client,
    Unregistered,
}

/// What settling a token after its readiness event did, with the value that
/// left the registry, if any.
pub enum Settled<C, P> {
    /// Nothing changed this tick.
    Unchanged,
    /// The player was closed and removed: run its removal hooks and
    /// deregister its socket.
    ClosedPlayer(P),
    /// The client was closed and removed: deregister its socket.
    ClosedClient(C),
    /// The client left the client mapping for promotion: build its player and
    /// hand it to `complete_promotion`.
    Promoting(C),
}

/// Connections of the reactor, keyed by token.
///
/// A token is in at most one of the client mapping, the player mapping and
/// the promotion slot; every registered token was issued by `next_token`.
pub struct Registry<C, P> {
    clients: HashMap<usize, C>,
    players: HashMap<usize, P>,
    promoting: Option<usize>,
    last_token: usize,
}

impl<C, P> Registry<C, P> {
    /// The connections not yet promoted.
    pub closed spec fn clients(&self) -> Map<usize, C> {
        self.clients@
    }

    /// The promoted connections.
    pub closed spec fn players(&self) -> Map<usize, P> {
        self.players@
    }

    /// The token whose player is being built, if any.
    pub closed spec fn promoting(&self) -> Option<usize> {
        self.promoting
    }

    /// The last token issued.
    pub closed spec fn last_token(&self) -> usize {
        self.last_token
    }

    /// The token is held by a connection, whatever its phase.
    pub open spec fn is_registered(&self, t: usize) -> bool {
        self.clients().contains_key(t) || self.players().contains_key(t) || self.promoting()
            == Some(t)
    }

    /// The token was handed out by `next_token`.
    pub open spec fn was_issued(&self, t: usize) -> bool {
        LISTENER_TOKEN < t <= self.last_token()
    }

    /// Which mapping holds the token.
    pub open spec fn owner_of(&self, t: usize) -> Owner {
        if self.players().contains_key(t) {
            Owner::Player
        } else if self.clients().contains_key(t) {
            Owner::Client
        } else {
            Owner::Unregistered
        }
    }

    /// The mappings are disjoint, the promotion slot is in neither, and all
    /// registered tokens were issued.
    pub open spec fn wf(&self) -> bool {
        &&& forall|t: usize| !(#[trigger] self.clients().contains_key(t) && self.players().contains_key(t))
        &&& forall|t: usize| #[trigger] self.is_registered(t) ==> self.was_issued(t)
        &&& self.promoting() matches Some(t) ==> !self.clients().contains_key(t)
            && !self.players().contains_key(t)
    }

    /// An empty registry; the first token it issues is the one after
    /// `LISTENER_TOKEN + 1`.
    pub fn new() -> (r: Self)
        ensures
            r.wf(),
            r.clients() == Map::<usize, C>::empty(),
            r.players() == Map::<usize, P>::empty(),
            r.promoting() is None,
            r.last_token() == LISTENER_TOKEN + 1,
    {
        Registry {
            clients: HashMap::new(),
            players: HashMap::new(),
            promoting: None,
            last_token: LISTENER_TOKEN + 1,
        }
    }

    /// Issues the next token: one above the last, never held by a registered
    /// connection. `None` once the token space is used up.
    pub fn next_token(&mut self) -> (r: Option<usize>)
        requires
            old(self).wf(),
        ensures
            final(self).wf(),
            final(self).clients() == old(self).clients(),
            final(self).players() == old(self).players(),
            final(self).promoting() == old(self).promoting(),
            match r {
                Some(t) => {
                    &&& old(self).last_token() < usize::MAX
                    &&& t == old(self).last_token() + 1
                    &&& final(self).last_token() == t
                    &&& !old(self).is_registered(t)
                    &&& final(self).was_issued(t)
                },
                None => old(self).last_token() == usize::MAX && final(self).last_token()
                    == old(self).last_token(),
            },
    {
        if self.last_token == usize::MAX {
            return None;
        }
        self.last_token = self.last_token + 1;
        proof {
            if old(self).is_registered(self.last_token) {
                assert(old(self).was_issued(self.last_token));
            }
            assert forall|t: usize| #[trigger] self.is_registered(t) implies self.was_issued(t) by {
                assert(old(self).is_registered(t));
            }
        }
        Some(self.last_token)
    }

    /// Registers a freshly accepted connection under `token`. Refused, with
    /// the client handed back, when the token was not issued or is held.
    pub fn add_client(&mut self, token: usize, client: C) -> (r: Result<(), C>)
        requires
            old(self).wf(),
        ensures
            final(self).wf(),
            final(self).players() == old(self).players(),
            final(self).promoting() == old(self).promoting(),
            final(self).last_token() == old(self).last_token(),
            r is Ok <==> old(self).was_issued(token) && !old(self).is_registered(token),
            match r {
                Ok(_) => final(self).clients() == old(self).clients().insert(token, client),
                Err(c) => c == client && final(self).clients() == old(self).clients(),
            },
    {
        if token <= LISTENER_TOKEN || token > self.last_token || self.promoting == Some(token)
            || self.clients.contains_key(&token) || self.players.contains_key(&token) {
            return Err(client);
        }
        self.clients.insert(token, client);
        proof {
            assert forall|t: usize| #[trigger] self.is_registered(t) implies self.was_issued(t) by {
                if t != token {
                    assert(old(self).is_registered(t));
                }
            }
            assert forall|t: usize|
                !(#[trigger] self.clients().contains_key(t) && self.players().contains_key(t)) by {
                if t != token {
                    assert(!(old(self).clients().contains_key(t) && old(self).players().contains_key(t)));
                }
            }
        }
        Ok(())
    }

    /// Which mapping holds the token.
    pub fn owner(&self, token: usize) -> (r: Owner)
        ensures
            r == self.owner_of(token),
    {
        if self.players.contains_key(&token) {
            Owner::Player
        } else if self.clients.contains_key(&token) {
            Owner::Client
        } else {
            Owner::Unregistered
        }
    }

    /// The client registered under the token.
    pub fn client(&self, token: usize) -> (r: Option<&C>)
        ensures
            match r {
                Some(c) => self.clients().contains_key(token) && *c == self.clients()[token],
                None => !self.clients().contains_key(token),
            },
    {
        self.clients.get(&token)
    }

    /// The player registered under the token.
    pub fn player(&self, token: usize) -> (r: Option<&P>)
        ensures
            match r {
                Some(p) => self.players().contains_key(token) && *p == self.players()[token],
                None => !self.players().contains_key(token),
            },
    {
        self.players.get(&token)
    }

    /// How settling `token` with the given flags relates the registry
    /// before and after, and what it returns.
    pub open spec fn settled(
        before: Self,
        after: Self,
        token: usize,
        closed: bool,
        make_player: bool,
        r: Settled<C, P>,
    ) -> bool {
        match before.owner_of(token) {
            Owner::Player => if closed {
                &&& r == Settled::<C, P>::ClosedPlayer(before.players()[token])
                &&& after.players() == before.players().remove(token)
                &&& after.clients() == before.clients()
                &&& after.promoting() == before.promoting()
            } else {
                &&& r is Unchanged
                &&& after == before
            },
            Owner::Client => if closed {
                &&& r == Settled::<C, P>::ClosedClient(before.clients()[token])
                &&& after.clients() == before.clients().remove(token)
                &&& after.players() == before.players()
                &&& after.promoting() == before.promoting()
            } else if make_player && before.promoting() is None {
                &&& r == Settled::<C, P>::Promoting(before.clients()[token])
                &&& after.clients() == before.clients().remove(token)
                &&& after.players() == before.players()
                &&& after.promoting() == Some(token)
            } else {
                &&& r is Unchanged
                &&& after == before
            },
            Owner::Unregistered => {
                &&& r is Unchanged
                &&& after == before
            },
        }
    }

    /// Settles the token after its readiness event was handled, given the
    /// `closed` and `make_player` flags read after packet processing.
    ///
    /// A closed player or client is removed. A client that asks for promotion
    /// moves to the promotion slot, when it is free. Teardown takes precedence
    /// over promotion.
    pub fn settle(&mut self, token: usize, closed: bool, make_player: bool) -> (r: Settled<C, P>)
        requires
            old(self).wf(),
        ensures
            final(self).wf(),
            final(self).last_token() == old(self).last_token(),
            Self::settled(*old(self), *final(self), token, closed, make_player, r),
    {
        if self.players.contains_key(&token) {
            if closed {
                let p = self.players.remove(&token);
                proof {
                    self.lemma_removal_keeps_wf(*old(self), token);
                }
                match p {
                    Some(p) => Settled::ClosedPlayer(p),
                    None => Settled::Unchanged,
                }
            } else {
                Settled::Unchanged
            }
        } else if self.clients.contains_key(&token) {
            if closed {
                let c = self.clients.remove(&token);
                proof {
                    self.lemma_removal_keeps_wf(*old(self), token);
                }
                match c {
                    Some(c) => Settled::ClosedClient(c),
                    None => Settled::Unchanged,
                }
            } else if make_player && self.promoting.is_none() {
                let c = self.clients.remove(&token);
                self.promoting = Some(token);
                proof {
                    assert forall|t: usize| #[trigger] self.is_registered(t) implies self.was_issued(t) by {
                        assert(old(self).is_registered(t));
                    }
                    assert forall|t: usize|
                        !(#[trigger] self.clients().contains_key(t) && self.players().contains_key(t)) by {
                        assert(!(old(self).clients().contains_key(t) && old(self).players().contains_key(t)));
                    }
                }
                match c {
                    Some(c) => Settled::Promoting(c),
                    None => Settled::Unchanged,
                }
            } else {
                Settled::Unchanged
            }
        } else {
            Settled::Unchanged
        }
    }

    proof fn lemma_removal_keeps_wf(&self, prev: Self, token: usize)
        requires
            prev.wf(),
            prev.promoting() == self.promoting(),
            prev.last_token() == self.last_token(),
            (self.clients() == prev.clients().remove(token) && self.players() == prev.players())
                || (self.players() == prev.players().remove(token) && self.clients()
                == prev.clients()),
        ensures
            self.wf(),
    {
        assert forall|t: usize| #[trigger] self.is_registered(t) implies self.was_issued(t) by {
            assert(prev.is_registered(t));
        }
        assert forall|t: usize|
            !(#[trigger] self.clients().contains_key(t) && self.players().contains_key(t)) by {
            assert(!(prev.clients().contains_key(t) && prev.players().contains_key(t)));
        }
    }

    /// Puts the player built for the connection in the promotion slot under
    /// its token, which it keeps. Refused, with the player handed back, when
    /// no promotion is under way.
    pub fn complete_promotion(&mut self, player: P) -> (r: Result<usize, P>)
        requires
            old(self).wf(),
        ensures
            final(self).wf(),
            final(self).clients() == old(self).clients(),
            final(self).last_token() == old(self).last_token(),
            final(self).promoting() is None,
            match old(self).promoting() {
                Some(t) => r == Ok::<usize, P>(t) && final(self).players() == old(self).players().insert(
                    t,
                    player,
                ),
                None => r == Err::<usize, P>(player) && final(self).players() == old(self).players(),
            },
    {
        match self.promoting {
            Some(t) => {
                self.players.insert(t, player);
                self.promoting = None;
                proof {
                    assert forall|u: usize| #[trigger] self.is_registered(u) implies self.was_issued(u) by {
                        if u != t {
                            assert(old(self).is_registered(u));
                        }
                    }
                    assert forall|u: usize|
                        !(#[trigger] self.clients().contains_key(u) && self.players().contains_key(u)) by {
                        if u != t {
                            assert(!(old(self).clients().contains_key(u) && old(self).players().contains_key(u)));
                        }
                    }
                }
                Ok(t)
            },
            None => Err(player),
        }
    }

    /// Gives up the promotion under way, as when the player could not be
    /// built: the connection is dropped and its token freed.
    pub fn abandon_promotion(&mut self) -> (r: Option<usize>)
        requires
            old(self).wf(),
        ensures
            final(self).wf(),
            r == old(self).promoting(),
            final(self).promoting() is None,
            final(self).clients() == old(self).clients(),
            final(self).players() == old(self).players(),
            final(self).last_token() == old(self).last_token(),
    {
        let r = self.promoting;
        self.promoting = None;
        proof {
            assert forall|u: usize| #[trigger] self.is_registered(u) implies self.was_issued(u) by {
                assert(old(self).is_registered(u));
            }
        }
        r
    }
}

/// In a well-formed registry no token is both a client and a player.
pub proof fn lemma_registry_disjoint<C, P>(r: Registry<C, P>)
    requires
        r.wf(),
    ensures
        r.clients().dom().disjoint(r.players().dom()),
{
    assert forall|t: usize| !(r.clients().dom().contains(t) && r.players().dom().contains(t)) by {
        assert(!(r.clients().contains_key(t) && r.players().contains_key(t)));
    }
}

/// Settling a client that is both closed and asking for promotion tears it
/// down: it leaves the registry and no player is created for it.
pub proof fn lemma_teardown_precedence<C, P>(
    before: Registry<C, P>,
    after: Registry<C, P>,
    token: usize,
    r: Settled<C, P>,
)
    requires
        before.wf(),
        before.clients().contains_key(token),
        Registry::settled(before, after, token, true, true, r),
    ensures
        r is ClosedClient,
        !after.is_registered(token),
        after.players() == before.players(),
        after.promoting() == before.promoting(),
{
    assert(!before.players().contains_key(token));
}

/// Tokens issued one after another, each one above the last, are pairwise
/// distinct.
pub proof fn lemma_tokens_distinct(tokens: Seq<usize>)
    requires
        forall|i: int| 0 < i < tokens.len() ==> (#[trigger] tokens[i]) == tokens[i - 1] + 1,
    ensures
        forall|i: int, j: int|
            0 <= i < j < tokens.len() ==> #[trigger] tokens[i] != #[trigger] tokens[j],
    decreases tokens.len(),
{
    if tokens.len() > 0 {
        let pre = tokens.drop_last();
        assert forall|i: int| 0 < i < pre.len() implies (#[trigger] pre[i]) == pre[i - 1] + 1 by {
            assert(pre[i] == tokens[i] && pre[i - 1] == tokens[i - 1]);
        }
        lemma_tokens_distinct(pre);
        lemma_tokens_increase(tokens);
    }
}

proof fn lemma_tokens_increase(tokens: Seq<usize>)
    requires
        forall|i: int| 0 < i < tokens.len() ==> (#[trigger] tokens[i]) == tokens[i - 1] + 1,
    ensures
        forall|i: int| 0 <= i < tokens.len() ==> (#[trigger] tokens[i]) == tokens[0] + i,
    decreases tokens.len(),
{
    if tokens.len() > 1 {
        let pre = tokens.drop_last();
        assert forall|i: int| 0 < i < pre.len() implies (#[trigger] pre[i]) == pre[i - 1] + 1 by {
            assert(pre[i] == tokens[i] && pre[i - 1] == tokens[i - 1]);
        }
        lemma_tokens_increase(pre);
        assert forall|i: int| 0 <= i < tokens.len() implies (#[trigger] tokens[i]) == tokens[0] + i by {
            if i < pre.len() {
                assert(pre[i] == tokens[i]);
            } else {
                assert(pre[i - 1] == tokens[i - 1]);
            }
        }
    }
}

} // verus!

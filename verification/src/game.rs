use vstd::prelude::*;

use crate::codec::{decode_client_event, spec_decode_client};
use crate::events::{ClientEvent, ServerEvent, ServerEventModel};
use crate::player::{Player, PlayerId, WorldCoordinate};
use crate::registry::{kept_players, spec_inactive, swept_ids, Registry};
use crate::session::{last_addr, Address, SessionTable};

verus! {

/// Where an outbound event goes: one session, everyone, or everyone but one.
#[derive(PartialEq, Eq, Debug)]
pub enum Outbound {
    To { id: PlayerId, event: ServerEvent },
    Broadcast { event: ServerEvent },
    BroadcastExcept { excluded: PlayerId, event: ServerEvent },
}

/// The mathematical shape of an outbound item.
pub enum OutboundModel {
    To { id: PlayerId, event: ServerEventModel },
    Broadcast { event: ServerEventModel },
    BroadcastExcept { excluded: PlayerId, event: ServerEventModel },
}

impl View for Outbound {
    type V = OutboundModel;

    open spec fn view(&self) -> OutboundModel {
        match *self {
            Outbound::To { id, event } => OutboundModel::To { id, event: event@ },
            Outbound::Broadcast { event } => OutboundModel::Broadcast { event: event@ },
            Outbound::BroadcastExcept { excluded, event } => OutboundModel::BroadcastExcept {
                excluded,
                event: event@,
            },
        }
    }
}

/// The models of a batch of outbound items.
pub open spec fn outbound_models(s: Seq<Outbound>) -> Seq<OutboundModel> {
    s.map_values(|o: Outbound| o@)
}

/// The broadcast that announces a swept session.
pub open spec fn disconnect_broadcast(id: PlayerId) -> OutboundModel {
    OutboundModel::Broadcast { event: ServerEventModel::PlayerDisconnected { id } }
}

/// How one client event changes the set of present sessions.
pub open spec fn step_session_ids(ids: Set<PlayerId>, id: PlayerId, e: ClientEvent) -> Set<
    PlayerId,
> {
    match e {
        ClientEvent::Connect => ids.insert(id),
        ClientEvent::Disconnect => ids.remove(id),
        ClientEvent::Move { .. } => ids,
    }
}

/// The sessions present after a sequence of (sender, event) pairs has been
/// dispatched against an empty registry.
pub open spec fn session_ids_after(events: Seq<(PlayerId, ClientEvent)>) -> Set<PlayerId>
    decreases events.len(),
{
    if events.len() == 0 {
        Set::empty()
    } else {
        step_session_ids(
            session_ids_after(events.drop_last()),
            events.last().0,
            events.last().1,
        )
    }
}

/// Whether `id` has sent a connect that no later disconnect of its own
/// matches.
pub open spec fn has_unmatched_connect(events: Seq<(PlayerId, ClientEvent)>, id: PlayerId) -> bool
    decreases events.len(),
{
    if events.len() == 0 {
        false
    } else if events.last().0 == id {
        match events.last().1 {
            ClientEvent::Connect => true,
            ClientEvent::Disconnect => false,
            ClientEvent::Move { .. } => has_unmatched_connect(events.drop_last(), id),
        }
    } else {
        has_unmatched_connect(events.drop_last(), id)
    }
}

/// After any sequence of events dispatched against an empty registry, the
/// sessions present are exactly those with an unmatched connect.
pub proof fn lemma_registry_tracks_unmatched_connects(events: Seq<(PlayerId, ClientEvent)>)
    ensures
        session_ids_after(events) == Set::new(
            |id: PlayerId| has_unmatched_connect(events, id),
        ),
    decreases events.len(),
{
    if events.len() == 0 {
        assert(session_ids_after(events) =~= Set::new(
            |id: PlayerId| has_unmatched_connect(events, id),
        ));
    } else {
        lemma_registry_tracks_unmatched_connects(events.drop_last());
        assert(session_ids_after(events) =~= Set::new(
            |id: PlayerId| has_unmatched_connect(events, id),
        ));
    }
}

/// How often `x` occurs in `s`.
pub open spec fn count_eq<T>(s: Seq<T>, x: T) -> int
    decreases s.len(),
{
    if s.len() == 0 {
        0
    } else {
        count_eq(s.drop_last(), x) + if s.last() == x {
            1int
        } else {
            0int
        }
    }
}

/// A sweep announces each removed session exactly once and announces nothing
/// else: the disconnect broadcast for `id` occurs once among the broadcasts
/// for `ids` when `ids` holds `id` once, and not at all otherwise.
pub proof fn lemma_one_disconnect_each(ids: Seq<PlayerId>, id: PlayerId)
    requires
        ids.no_duplicates(),
    ensures
        count_eq(
            ids.map_values(|i: PlayerId| disconnect_broadcast(i)),
            disconnect_broadcast(id),
        ) == if ids.contains(id) {
            1int
        } else {
            0int
        },
    decreases ids.len(),
{
    let f = |i: PlayerId| disconnect_broadcast(i);
    if ids.len() == 0 {
    } else {
        let d = ids.drop_last();
        lemma_one_disconnect_each(d, id);
        assert(ids.map_values(f).drop_last() =~= d.map_values(f));
        assert(ids.map_values(f).last() == f(ids.last()));
        if ids.contains(id) {
            let k = choose|k: int| 0 <= k < ids.len() && ids[k] == id;
            if k < ids.len() - 1 {
                assert(d[k] == id);
                assert(d.contains(id));
                assert(ids.last() != id);
            } else {
                assert(!d.contains(id)) by {
                    if d.contains(id) {
                        let j = choose|j: int| 0 <= j < d.len() && d[j] == id;
                        assert(ids[j] == id && ids[ids.len() - 1] == id);
                    }
                }
            }
        } else {
            assert(!d.contains(id)) by {
                if d.contains(id) {
                    let j = choose|j: int| 0 <= j < d.len() && d[j] == id;
                    assert(ids[j] == id);
                }
            }
            assert(ids.last() != id) by {
                if ids.last() == id {
                    assert(ids[ids.len() - 1] == id);
                }
            }
        }
    }
}

/// The server core: presence registry, address-to-identity cache, and the
/// world seed handed to connecting sessions.
pub struct Game {
    registry: Registry,
    table: SessionTable,
    seed: u64,
}

impl Game {
    pub closed spec fn wf(&self) -> bool {
        self.registry.wf() && self.table.wf()
    }

    /// The presence map: identifier to player.
    pub closed spec fn players(&self) -> Map<PlayerId, Player> {
        self.registry@
    }

    /// The registry entries in insertion order.
    pub closed spec fn player_entries(&self) -> Seq<Player> {
        self.registry.entries()
    }

    /// The address-to-identity cache.
    pub closed spec fn sessions(&self) -> Map<Address, PlayerId> {
        self.table@
    }

    /// Every identifier the transport has ever seen.
    pub closed spec fn known_ids(&self) -> Set<PlayerId> {
        self.table.known_ids()
    }

    /// The session entries in the order the addresses were first seen.
    pub closed spec fn session_entries(&self) -> Seq<(Address, PlayerId)> {
        self.table.entries()
    }

    pub closed spec fn spec_seed(&self) -> u64 {
        self.seed
    }

    /// How the presence map and the registry entries cohere: one entry per
    /// present identifier, each the value the map holds for it.
    pub proof fn lemma_players_entries(&self)
        requires
            self.wf(),
        ensures
            forall|i: int|
                0 <= i < self.player_entries().len() ==> self.players().contains_key(
                    (#[trigger] self.player_entries()[i]).id,
                ) && self.players()[self.player_entries()[i].id] == self.player_entries()[i],
            forall|id: PlayerId|
                #[trigger] self.players().contains_key(id) ==> crate::registry::seq_has_id(
                    self.player_entries(),
                    id,
                ),
            self.player_entries().len() == self.players().dom().len(),
    {
        self.registry.lemma_view_entries();
    }

    /// A fresh core with no sessions, serving the given world seed.
    pub fn new(seed: u64) -> (r: Game)
        ensures
            r.wf(),
            r.players() == Map::<PlayerId, Player>::empty(),
            r.player_entries() == Seq::<Player>::empty(),
            r.sessions() == Map::<Address, PlayerId>::empty(),
            r.known_ids() == Set::<PlayerId>::empty(),
            r.spec_seed() == seed,
    {
        Game { registry: Registry::new(), table: SessionTable::new(), seed }
    }

    pub fn seed(&self) -> (r: u64)
        ensures
            r == self.spec_seed(),
    {
        self.seed
    }

    /// How many sessions are present in the registry.
    pub fn player_count(&self) -> (r: usize)
        requires
            self.wf(),
        ensures
            r == self.players().dom().len(),
    {
        self.registry.len()
    }

    pub fn has_player(&self, id: PlayerId) -> (r: bool)
        requires
            self.wf(),
        ensures
            r == self.players().contains_key(id),
    {
        self.registry.contains(id)
    }

    /// The position of the player carrying `id`, if present.
    pub fn player_position(&self, id: PlayerId) -> (r: Option<WorldCoordinate>)
        requires
            self.wf(),
        ensures
            match r {
                Some(c) => self.players().contains_key(id) && c == self.players()[id].position,
                None => !self.players().contains_key(id),
            },
    {
        match self.registry.get(id) {
            Some(p) => Some(p.position()),
            None => None,
        }
    }

    /// Resolves the sender address and decodes the datagram: one poll step.
    /// An unseen address is bound to a fresh identifier even when the bytes
    /// decode to no event; a malformed datagram yields no event.
    pub fn ingest_packet(&mut self, addr: Address, data: &[u8]) -> (r: (PlayerId, Option<
        ClientEvent,
    >))
        requires
            old(self).wf(),
        ensures
            final(self).wf(),
            final(self).players() == old(self).players(),
            final(self).player_entries() == old(self).player_entries(),
            final(self).spec_seed() == old(self).spec_seed(),
            r.1 == spec_decode_client(data@),
            final(self).sessions().contains_key(addr) && final(self).sessions()[addr] == r.0,
            old(self).sessions().contains_key(addr) ==> final(self).sessions() == old(
                self,
            ).sessions() && final(self).known_ids() == old(self).known_ids() && r.0 == old(
                self,
            ).sessions()[addr],
            !old(self).sessions().contains_key(addr) ==> final(self).sessions() == old(
                self,
            ).sessions().insert(addr, r.0) && final(self).known_ids() == old(
                self,
            ).known_ids().insert(r.0),
    {
        let id = self.table.resolve(addr);
        let event = decode_client_event(data);
        (id, event)
    }

    /// Dispatches one inbound event: mutates the registry and produces the
    /// outbound batch, exactly as the transition table prescribes. A connect
    /// answers the sender with a snapshot taken before its player is
    /// (re)inserted and announces it to everyone else; a move or disconnect
    /// from an absent session is a no-op; a disconnect is announced to every
    /// known session, the leaver's stale cache entry included.
    pub fn handle_event(&mut self, id: PlayerId, event: &ClientEvent, now: u64) -> (out: Vec<
        Outbound,
    >)
        requires
            old(self).wf(),
        ensures
            final(self).wf(),
            final(self).sessions() == old(self).sessions(),
            final(self).known_ids() == old(self).known_ids(),
            final(self).session_entries() == old(self).session_entries(),
            final(self).spec_seed() == old(self).spec_seed(),
            final(self).players().dom() == step_session_ids(
                old(self).players().dom(),
                id,
                *event,
            ),
            match *event {
                ClientEvent::Connect => {
                    &&& final(self).players() == old(self).players().insert(
                        id,
                        (Player {
                            id,
                            position: WorldCoordinate { x: 0i64, y: 0i64, z: 0i64 },
                            last_update: now,
                        }),
                    )
                    &&& outbound_models(out@) == seq![
                        OutboundModel::To {
                            id,
                            event: ServerEventModel::SessionInfo {
                                seed: old(self).spec_seed(),
                                known_ids: old(self).player_entries().map_values(
                                    |p: Player| p.id,
                                ),
                            },
                        },
                        OutboundModel::BroadcastExcept {
                            excluded: id,
                            event: ServerEventModel::PlayerConnected { id },
                        },
                    ]
                },
                ClientEvent::Disconnect => {
                    if old(self).players().contains_key(id) {
                        &&& final(self).players() == old(self).players().remove(id)
                        &&& outbound_models(out@) == seq![
                            OutboundModel::Broadcast {
                                event: ServerEventModel::PlayerDisconnected { id },
                            },
                        ]
                    } else {
                        &&& final(self).players() == old(self).players()
                        &&& out@.len() == 0
                    }
                },
                ClientEvent::Move { position } => {
                    if old(self).players().contains_key(id) {
                        &&& final(self).players() == old(self).players().insert(
                            id,
                            (Player { id, position, last_update: now }),
                        )
                        &&& outbound_models(out@) == seq![
                            OutboundModel::Broadcast {
                                event: ServerEventModel::PlayerMoved { id, position },
                            },
                        ]
                    } else {
                        &&& final(self).players() == old(self).players()
                        &&& out@.len() == 0
                    }
                },
            },
    {
        let mut out: Vec<Outbound> = Vec::new();
        match event {
            ClientEvent::Connect => {
                let known_ids = self.registry.ids();
                out.push(
                    Outbound::To {
                        id,
                        event: ServerEvent::SessionInfo { seed: self.seed, known_ids },
                    },
                );
                self.registry.insert(Player::new(id, now));
                out.push(
                    Outbound::BroadcastExcept {
                        excluded: id,
                        event: ServerEvent::PlayerConnected { id },
                    },
                );
                proof {
                    assert(outbound_models(out@) =~= seq![
                        OutboundModel::To {
                            id,
                            event: ServerEventModel::SessionInfo {
                                seed: old(self).spec_seed(),
                                known_ids: old(self).player_entries().map_values(
                                    |p: Player| p.id,
                                ),
                            },
                        },
                        OutboundModel::BroadcastExcept {
                            excluded: id,
                            event: ServerEventModel::PlayerConnected { id },
                        },
                    ]);
                    assert(self.players().dom() =~= step_session_ids(
                        old(self).players().dom(),
                        id,
                        *event,
                    ));
                }
            },
            ClientEvent::Disconnect => {
                match self.registry.remove(id) {
                    Some(_) => {
                        out.push(
                            Outbound::Broadcast { event: ServerEvent::PlayerDisconnected { id } },
                        );
                        proof {
                            assert(outbound_models(out@) =~= seq![
                                OutboundModel::Broadcast {
                                    event: ServerEventModel::PlayerDisconnected { id },
                                },
                            ]);
                        }
                    },
                    None => {
                        proof {
                            assert(old(self).players().remove(id) =~= old(self).players());
                        }
                    },
                }
                proof {
                    assert(self.players().dom() =~= step_session_ids(
                        old(self).players().dom(),
                        id,
                        *event,
                    ));
                }
            },
            ClientEvent::Move { position } => {
                if self.registry.set_position(id, *position, now) {
                    out.push(
                        Outbound::Broadcast {
                            event: ServerEvent::PlayerMoved { id, position: *position },
                        },
                    );
                    proof {
                        assert(outbound_models(out@) =~= seq![
                            OutboundModel::Broadcast {
                                event: ServerEventModel::PlayerMoved { id, position: *position },
                            },
                        ]);
                    }
                }
                proof {
                    assert(self.players().dom() =~= step_session_ids(
                        old(self).players().dom(),
                        id,
                        *event,
                    ));
                }
            },
        }
        out
    }

    /// One maintenance pass: sweeps every inactive session out of the
    /// registry, announces each exactly once, and hands back the positions of
    /// the remaining players for the world gateway.
    pub fn maintenance(&mut self, now: u64, threshold: u64) -> (r: (Vec<Outbound>, Vec<
        WorldCoordinate,
    >))
        requires
            old(self).wf(),
        ensures
            final(self).wf(),
            final(self).sessions() == old(self).sessions(),
            final(self).known_ids() == old(self).known_ids(),
            final(self).session_entries() == old(self).session_entries(),
            final(self).spec_seed() == old(self).spec_seed(),
            final(self).players() == old(self).players().remove_keys(
                swept_ids(old(self).player_entries(), now, threshold).to_set(),
            ),
            final(self).player_entries() == kept_players(
                old(self).player_entries(),
                now,
                threshold,
            ),
            swept_ids(old(self).player_entries(), now, threshold).no_duplicates(),
            forall|id: PlayerId|
                #[trigger] swept_ids(old(self).player_entries(), now, threshold).contains(id)
                    <==> old(self).players().contains_key(id) && spec_inactive(
                    old(self).players()[id],
                    now,
                    threshold,
                ),
            forall|id: PlayerId|
                old(self).players().contains_key(id) && spec_inactive(
                    old(self).players()[id],
                    now,
                    threshold,
                ) ==> !final(self).players().contains_key(id),
            outbound_models(r.0@) == swept_ids(
                old(self).player_entries(),
                now,
                threshold,
            ).map_values(|i: PlayerId| disconnect_broadcast(i)),
            forall|id: PlayerId|
                old(self).players().contains_key(id) && spec_inactive(
                    old(self).players()[id],
                    now,
                    threshold,
                ) ==> count_eq(outbound_models(r.0@), #[trigger] disconnect_broadcast(id)) == 1,
            forall|id: PlayerId|
                !(old(self).players().contains_key(id) && spec_inactive(
                    old(self).players()[id],
                    now,
                    threshold,
                )) ==> count_eq(outbound_models(r.0@), #[trigger] disconnect_broadcast(id)) == 0,
            r.1@ == final(self).player_entries().map_values(|p: Player| p.position),
    {
        let removed = self.registry.sweep_inactive(now, threshold);
        let n = removed.len();
        let mut out: Vec<Outbound> = Vec::new();
        let mut i: usize = 0;
        while i < n
            invariant
                n == removed@.len(),
                i <= n,
                outbound_models(out@) == removed@.take(i as int).map_values(
                    |x: PlayerId| disconnect_broadcast(x),
                ),
            decreases n - i,
        {
            let ghost prev = out@;
            out.push(Outbound::Broadcast { event: ServerEvent::PlayerDisconnected { id: removed[i] } });
            proof {
                assert(out@ == prev.push(
                    (Outbound::Broadcast { event: ServerEvent::PlayerDisconnected { id: removed@[i as int] } }),
                ));
                assert(forall|k: int| 0 <= k < prev.len() ==> out@[k] == prev[k]);
                assert(out@[out@.len() - 1]@ == disconnect_broadcast(removed@[i as int]));
                let t = removed@.take(i + 1);
                assert(t.drop_last() =~= removed@.take(i as int));
                assert(t.last() == removed@[i as int]);
                let f = |x: PlayerId| disconnect_broadcast(x);
                assert(outbound_models(prev).len() == prev.len());
                assert(removed@.take(i as int).map_values(f).len() == i as int);
                assert(prev.len() == i as int);
                assert forall|k: int| 0 <= k < out@.len() implies outbound_models(out@)[k]
                    == t.map_values(f)[k] by {
                    if k < prev.len() {
                        assert(outbound_models(prev)[k] == removed@.take(i as int).map_values(f)[k]);
                        assert(outbound_models(prev)[k] == prev[k]@);
                        assert(removed@.take(i as int).map_values(f)[k] == f(removed@.take(i as int)[k]));
                        assert(t[k] == removed@.take(i as int)[k]);
                    } else {
                        assert(outbound_models(out@)[k] == out@[k]@);
                        assert(t.map_values(f)[k] == f(t[k]));
                    }
                }
                assert(outbound_models(out@) =~= t.map_values(f));
            }
            i = i + 1;
        }
        let positions = self.registry.positions();
        proof {
            assert(removed@.take(n as int) =~= removed@);
            assert forall|id: PlayerId|
                count_eq(outbound_models(out@), #[trigger] disconnect_broadcast(id)) == if removed@.contains(
                    id,
                ) {
                    1int
                } else {
                    0int
                } by {
                lemma_one_disconnect_each(removed@, id);
            }
        }
        (out, positions)
    }

    /// The address a datagram for `id` goes to: the one bound last.
    pub fn addr_of(&self, id: PlayerId) -> (r: Option<Address>)
        ensures
            r == last_addr(self.session_entries(), id),
            r is Some <==> self.known_ids().contains(id),
    {
        self.table.addr_of(id)
    }

    /// The recipients of a full broadcast: every known session, each once.
    pub fn broadcast(&self) -> (r: Vec<PlayerId>)
        ensures
            r@.no_duplicates(),
            forall|id: PlayerId| #[trigger] r@.contains(id) <==> self.known_ids().contains(id),
    {
        self.table.broadcast()
    }

    /// The recipients of a broadcast that skips `excluded`: every other
    /// known session, each once, and never `excluded` itself.
    pub fn broadcast_except(&self, excluded: PlayerId) -> (r: Vec<PlayerId>)
        ensures
            r@.no_duplicates(),
            forall|id: PlayerId|
                #[trigger] r@.contains(id) <==> self.known_ids().contains(id) && id != excluded,
            !r@.contains(excluded),
    {
        self.table.broadcast_except(excluded)
    }
}

} // verus!

use vstd::prelude::*;

use crate::assoc::{
    assoc_map, keys_unique, lemma_assoc_map_dom, lemma_assoc_map_index, lemma_assoc_map_len,
    lemma_assoc_map_push, lemma_assoc_map_remove, lemma_assoc_map_update,
};
use crate::player::{Player, PlayerId, WorldCoordinate};

verus! {

/// How registry entries are keyed.
pub open spec fn by_id() -> spec_fn(Player) -> PlayerId {
    |p: Player| p.id
}

/// A player is inactive at `now` once at least `threshold` milliseconds have
/// passed since its last activity.
pub open spec fn spec_inactive(p: Player, now: u64, threshold: u64) -> bool {
    p.last_update <= now && now - p.last_update >= threshold
}

/// The identifiers an inactivity sweep at `now` removes, in registry order.
pub open spec fn swept_ids(s: Seq<Player>, now: u64, threshold: u64) -> Seq<PlayerId>
    decreases s.len(),
{
    if s.len() == 0 {
        Seq::empty()
    } else if spec_inactive(s.last(), now, threshold) {
        swept_ids(s.drop_last(), now, threshold).push(s.last().id)
    } else {
        swept_ids(s.drop_last(), now, threshold)
    }
}

/// The entries an inactivity sweep at `now` keeps, in registry order.
pub open spec fn kept_players(s: Seq<Player>, now: u64, threshold: u64) -> Seq<Player>
    decreases s.len(),
{
    if s.len() == 0 {
        Seq::empty()
    } else if spec_inactive(s.last(), now, threshold) {
        kept_players(s.drop_last(), now, threshold)
    } else {
        kept_players(s.drop_last(), now, threshold).push(s.last())
    }
}

/// Some entry carries this identifier.
pub open spec fn seq_has_id(s: Seq<Player>, id: PlayerId) -> bool {
    exists|i: int| 0 <= i < s.len() && s[i].id == id
}

/// What a sweep keeps and what it removes, stated against the map view.
pub proof fn lemma_sweep_split(s: Seq<Player>, now: u64, threshold: u64)
    requires
        keys_unique(s, by_id()),
    ensures
        keys_unique(kept_players(s, now, threshold), by_id()),
        swept_ids(s, now, threshold).no_duplicates(),
        forall|id: PlayerId|
            #[trigger] swept_ids(s, now, threshold).contains(id) <==> exists|i: int|
                0 <= i < s.len() && (#[trigger] s[i]).id == id && spec_inactive(
                    s[i],
                    now,
                    threshold,
                ),
        forall|id: PlayerId|
            seq_has_id(kept_players(s, now, threshold), id) ==> seq_has_id(s, id),
        assoc_map(kept_players(s, now, threshold), by_id()) == assoc_map(s, by_id()).remove_keys(
            swept_ids(s, now, threshold).to_set(),
        ),
    decreases s.len(),
{
    let key = by_id();
    let kept = kept_players(s, now, threshold);
    let swept = swept_ids(s, now, threshold);
    if s.len() == 0 {
        assert(assoc_map(kept, key) =~= assoc_map(s, key).remove_keys(swept.to_set()));
    } else {
        let d = s.drop_last();
        let last = s.last();
        assert(forall|i: int| 0 <= i < d.len() ==> d[i] == s[i]);
        lemma_sweep_split(d, now, threshold);
        lemma_assoc_map_dom(d, key);
        let dkept = kept_players(d, now, threshold);
        let dswept = swept_ids(d, now, threshold);
        // The last entry's id is fresh: it occurs nowhere in the prefix.
        assert(forall|i: int| 0 <= i < d.len() ==> (#[trigger] d[i]).id != last.id);
        assert(!seq_has_id(d, last.id));
        assert(!dswept.contains(last.id));
        assert(!seq_has_id(dkept, last.id));
        if spec_inactive(last, now, threshold) {
            assert(swept =~= dswept.push(last.id));
            assert forall|x: PlayerId| #[trigger] swept.contains(x) implies dswept.contains(x) || x
                == last.id by {
                let i = choose|i: int| 0 <= i < swept.len() && swept[i] == x;
                if i < swept.len() - 1 {
                    assert(dswept[i] == x);
                }
            }
            assert forall|x: PlayerId| dswept.contains(x) || x == last.id implies #[trigger] swept.contains(
                x,
            ) by {
                if x == last.id {
                    assert(swept[swept.len() - 1] == x);
                } else {
                    let i = choose|i: int| 0 <= i < dswept.len() && dswept[i] == x;
                    assert(swept[i] == x);
                }
            }
            assert(swept.no_duplicates()) by {
                assert forall|a: int, b: int| 0 <= a < b < swept.len() implies swept[a] != swept[b] by {
                    if b == swept.len() - 1 {
                        assert(dswept.contains(dswept[a]));
                    }
                }
            }
            assert(swept.to_set() =~= dswept.to_set().insert(last.id));
            assert forall|id: PlayerId| #[trigger] swept.contains(id) implies exists|i: int|
                0 <= i < s.len() && (#[trigger] s[i]).id == id && spec_inactive(
                    s[i],
                    now,
                    threshold,
                ) by {
                if id == last.id {
                    assert(s[s.len() - 1].id == id && spec_inactive(s[s.len() - 1], now, threshold));
                } else {
                    assert(dswept.contains(id));
                    let i = choose|i: int|
                        0 <= i < d.len() && (#[trigger] d[i]).id == id && spec_inactive(
                            d[i],
                            now,
                            threshold,
                        );
                    assert(s[i].id == id && spec_inactive(s[i], now, threshold));
                }
            }
            assert forall|id: PlayerId|
                (exists|i: int|
                    0 <= i < s.len() && (#[trigger] s[i]).id == id && spec_inactive(
                        s[i],
                        now,
                        threshold,
                    )) implies #[trigger] swept.contains(id) by {
                let i = choose|i: int|
                    0 <= i < s.len() && (#[trigger] s[i]).id == id && spec_inactive(
                        s[i],
                        now,
                        threshold,
                    );
                if i < s.len() - 1 {
                    assert(d[i].id == id && spec_inactive(d[i], now, threshold));
                    assert(dswept.contains(id));
                }
            }
            assert forall|id: PlayerId| seq_has_id(kept, id) implies seq_has_id(s, id) by {
                assert(seq_has_id(dkept, id));
                assert(seq_has_id(d, id));
                let i = choose|i: int| 0 <= i < d.len() && d[i].id == id;
                assert(s[i].id == id);
            }
            assert(!assoc_map(d, key).contains_key(last.id));
            assert(assoc_map(kept, key) =~= assoc_map(s, key).remove_keys(swept.to_set()));
        } else {
            assert(kept =~= dkept.push(last));
            lemma_assoc_map_push(dkept, key, last);
            assert forall|id: PlayerId| #[trigger] swept.contains(id) implies exists|i: int|
                0 <= i < s.len() && (#[trigger] s[i]).id == id && spec_inactive(
                    s[i],
                    now,
                    threshold,
                ) by {
                let i = choose|i: int|
                    0 <= i < d.len() && (#[trigger] d[i]).id == id && spec_inactive(
                        d[i],
                        now,
                        threshold,
                    );
                assert(s[i].id == id && spec_inactive(s[i], now, threshold));
            }
            assert forall|id: PlayerId|
                (exists|i: int|
                    0 <= i < s.len() && (#[trigger] s[i]).id == id && spec_inactive(
                        s[i],
                        now,
                        threshold,
                    )) implies #[trigger] swept.contains(id) by {
                let i = choose|i: int|
                    0 <= i < s.len() && (#[trigger] s[i]).id == id && spec_inactive(
                        s[i],
                        now,
                        threshold,
                    );
                assert(i < s.len() - 1);
                assert(d[i].id == id && spec_inactive(d[i], now, threshold));
            }
            assert forall|id: PlayerId| seq_has_id(kept, id) implies seq_has_id(s, id) by {
                let j = choose|j: int| 0 <= j < kept.len() && kept[j].id == id;
                if j < kept.len() - 1 {
                    assert(dkept[j].id == id);
                    assert(seq_has_id(d, id));
                    let i = choose|i: int| 0 <= i < d.len() && d[i].id == id;
                    assert(s[i].id == id);
                } else {
                    assert(s[s.len() - 1].id == id);
                }
            }
            assert forall|i: int, j: int| 0 <= i < j < kept.len() implies key(kept[i]) != key(
                kept[j],
            ) by {
                if j == kept.len() - 1 {
                    assert(dkept[i].id == kept[i].id);
                    assert(seq_has_id(dkept, kept[i].id));
                }
            }
            assert(!swept.contains(last.id));
            assert(assoc_map(kept, key) =~= assoc_map(s, key).remove_keys(swept.to_set()));
        }
    }
}

/// The per-session presence state: at most one entry per identifier, viewed
/// as a map from identifier to player.
pub struct Registry {
    players: Vec<Player>,
}

impl View for Registry {
    type V = Map<PlayerId, Player>;

    closed spec fn view(&self) -> Map<PlayerId, Player> {
        assoc_map(self.players@, by_id())
    }
}

impl Registry {
    /// The entries in insertion order; the map view is derived from them.
    pub closed spec fn entries(&self) -> Seq<Player> {
        self.players@
    }

    /// Well-formed: at most one entry per identifier.
    pub closed spec fn wf(&self) -> bool {
        keys_unique(self.players@, by_id())
    }

    /// The map view is the association map of the entries.
    pub proof fn lemma_view_entries(&self)
        requires
            self.wf(),
        ensures
            self@ == assoc_map(self.entries(), by_id()),
            forall|i: int|
                0 <= i < self.entries().len() ==> self@.contains_key(
                    (#[trigger] self.entries()[i]).id,
                ) && self@[self.entries()[i].id] == self.entries()[i],
            forall|id: PlayerId| #[trigger] self@.contains_key(id) ==> seq_has_id(self.entries(), id),
            self.entries().len() == self@.dom().len(),
    {
        lemma_assoc_map_index(self.players@, by_id());
        lemma_assoc_map_dom(self.players@, by_id());
        lemma_assoc_map_len(self.players@, by_id());
    }

    pub fn new() -> (r: Registry)
        ensures
            r.wf(),
            r@ == Map::<PlayerId, Player>::empty(),
            r.entries() == Seq::<Player>::empty(),
    {
        let r = Registry { players: Vec::new() };
        proof {
            assert(r.entries() =~= Seq::<Player>::empty());
        }
        r
    }

    /// Index of the entry carrying `id`, if any.
    fn find_index(&self, id: PlayerId) -> (r: Option<usize>)
        ensures
            match r {
                Some(i) => i < self.entries().len() && self.entries()[i as int].id == id,
                None => !seq_has_id(self.entries(), id),
            },
    {
        let n = self.players.len();
        let mut i: usize = 0;
        while i < n
            invariant
                n == self.players@.len(),
                i <= n,
                forall|j: int| 0 <= j < i ==> (#[trigger] self.players@[j]).id != id,
            decreases n - i,
        {
            if self.players[i].id == id {
                return Some(i);
            }
            i = i + 1;
        }
        None
    }

    pub fn contains(&self, id: PlayerId) -> (r: bool)
        requires
            self.wf(),
        ensures
            r == self@.contains_key(id),
    {
        proof {
            lemma_assoc_map_dom(self.players@, by_id());
        }
        self.find_index(id).is_some()
    }

    pub fn get(&self, id: PlayerId) -> (r: Option<&Player>)
        requires
            self.wf(),
        ensures
            match r {
                Some(p) => self@.contains_key(id) && *p == self@[id],
                None => !self@.contains_key(id),
            },
    {
        proof {
            lemma_assoc_map_dom(self.players@, by_id());
            lemma_assoc_map_index(self.players@, by_id());
        }
        match self.find_index(id) {
            Some(i) => Some(&self.players[i]),
            None => None,
        }
    }

    /// How many sessions are present.
    pub fn len(&self) -> (r: usize)
        requires
            self.wf(),
        ensures
            r == self.entries().len(),
            r == self@.dom().len(),
    {
        proof {
            lemma_assoc_map_len(self.players@, by_id());
        }
        self.players.len()
    }

    /// Inserts `p`, replacing any entry with the same identifier.
    pub fn insert(&mut self, p: Player)
        requires
            old(self).wf(),
        ensures
            final(self).wf(),
            final(self)@ == old(self)@.insert(p.id, p),
    {
        proof {
            lemma_assoc_map_dom(self.players@, by_id());
        }
        match self.find_index(p.id) {
            Some(i) => {
                proof {
                    lemma_assoc_map_update(self.players@, by_id(), i as int, p);
                }
                self.players[i] = p;
            },
            None => {
                proof {
                    lemma_assoc_map_push(self.players@, by_id(), p);
                    assert forall|a: int, b: int|
                        0 <= a < b < self.players@.push(p).len() implies by_id()(
                        self.players@.push(p)[a],
                    ) != by_id()(self.players@.push(p)[b]) by {
                        if b == self.players@.len() {
                            assert(self.players@[a].id != p.id);
                        }
                    }
                }
                self.players.push(p);
            },
        }
    }

    /// Removes the entry carrying `id`, handing it back if it was present.
    pub fn remove(&mut self, id: PlayerId) -> (r: Option<Player>)
        requires
            old(self).wf(),
        ensures
            final(self).wf(),
            final(self)@ == old(self)@.remove(id),
            r == if old(self)@.contains_key(id) {
                Some(old(self)@[id])
            } else {
                None::<Player>
            },
    {
        proof {
            lemma_assoc_map_dom(self.players@, by_id());
            lemma_assoc_map_index(self.players@, by_id());
        }
        match self.find_index(id) {
            Some(i) => {
                proof {
                    lemma_assoc_map_remove(self.players@, by_id(), i as int);
                    let s = self.players@;
                    assert forall|a: int, b: int|
                        0 <= a < b < s.remove(i as int).len() implies by_id()(
                        s.remove(i as int)[a],
                    ) != by_id()(s.remove(i as int)[b]) by {
                        assert(s.remove(i as int)[a] == if a < i {
                            s[a]
                        } else {
                            s[a + 1]
                        });
                        assert(s.remove(i as int)[b] == if b < i {
                            s[b]
                        } else {
                            s[b + 1]
                        });
                    }
                }
                Some(self.players.remove(i))
            },
            None => {
                proof {
                    assert(final(self)@ =~= old(self)@.remove(id));
                }
                None
            },
        }
    }

    /// Moves the player carrying `id` and refreshes its activity instant;
    /// reports whether such a player was present.
    pub fn set_position(&mut self, id: PlayerId, position: WorldCoordinate, now: u64) -> (r: bool)
        requires
            old(self).wf(),
        ensures
            final(self).wf(),
            r == old(self)@.contains_key(id),
            r ==> final(self)@ == old(self)@.insert(
                id,
                (Player { id, position, last_update: now }),
            ),
            !r ==> *final(self) == *old(self),
    {
        proof {
            lemma_assoc_map_dom(self.players@, by_id());
        }
        match self.find_index(id) {
            Some(i) => {
                let p = Player { id, position, last_update: now };
                proof {
                    lemma_assoc_map_update(self.players@, by_id(), i as int, p);
                }
                self.players[i] = p;
                true
            },
            None => false,
        }
    }

    /// The identifiers of all present sessions, in registry order.
    pub fn ids(&self) -> (r: Vec<PlayerId>)
        ensures
            r@ == self.entries().map_values(|p: Player| p.id),
    {
        let n = self.players.len();
        let mut out: Vec<PlayerId> = Vec::new();
        let mut i: usize = 0;
        while i < n
            invariant
                n == self.players@.len(),
                i <= n,
                out@ == self.players@.take(i as int).map_values(|p: Player| p.id),
            decreases n - i,
        {
            out.push(self.players[i].id);
            proof {
                assert(out@ =~= self.players@.take(i + 1).map_values(|p: Player| p.id));
            }
            i = i + 1;
        }
        proof {
            assert(self.players@.take(n as int) =~= self.players@);
        }
        out
    }

    /// The positions of all present sessions, in registry order, for the
    /// world gateway.
    pub fn positions(&self) -> (r: Vec<WorldCoordinate>)
        ensures
            r@ == self.entries().map_values(|p: Player| p.position),
    {
        let n = self.players.len();
        let mut out: Vec<WorldCoordinate> = Vec::new();
        let mut i: usize = 0;
        while i < n
            invariant
                n == self.players@.len(),
                i <= n,
                out@ == self.players@.take(i as int).map_values(|p: Player| p.position),
            decreases n - i,
        {
            out.push(self.players[i].position);
            proof {
                assert(out@ =~= self.players@.take(i + 1).map_values(|p: Player| p.position));
            }
            i = i + 1;
        }
        proof {
            assert(self.players@.take(n as int) =~= self.players@);
        }
        out
    }

    /// Removes every inactive session and hands back their identifiers, each
    /// exactly once, in registry order.
    pub fn sweep_inactive(&mut self, now: u64, threshold: u64) -> (r: Vec<PlayerId>)
        requires
            old(self).wf(),
        ensures
            final(self).wf(),
            final(self).entries() == kept_players(old(self).entries(), now, threshold),
            r@ == swept_ids(old(self).entries(), now, threshold),
            r@.no_duplicates(),
            forall|id: PlayerId|
                #[trigger] r@.contains(id) <==> old(self)@.contains_key(id) && spec_inactive(
                    old(self)@[id],
                    now,
                    threshold,
                ),
            final(self)@ == old(self)@.remove_keys(r@.to_set()),
    {
        let ghost orig = self.players@;
        let n = self.players.len();
        let mut kept: Vec<Player> = Vec::new();
        let mut removed: Vec<PlayerId> = Vec::new();
        let mut i: usize = 0;
        while i < n
            invariant
                n == self.players@.len(),
                self.players@ == orig,
                i <= n,
                kept@ == kept_players(orig.take(i as int), now, threshold),
                removed@ == swept_ids(orig.take(i as int), now, threshold),
            decreases n - i,
        {
            let p = self.players[i];
            proof {
                let t = orig.take(i + 1);
                assert(t.drop_last() =~= orig.take(i as int));
                assert(t.last() == orig[i as int]);
            }
            if p.last_update <= now && now - p.last_update >= threshold {
                removed.push(p.id);
            } else {
                kept.push(p);
            }
            i = i + 1;
        }
        proof {
            assert(orig.take(n as int) =~= orig);
            lemma_sweep_split(orig, now, threshold);
            lemma_assoc_map_dom(orig, by_id());
            lemma_assoc_map_index(orig, by_id());
            assert forall|id: PlayerId| #[trigger] removed@.contains(id) implies old(
                self,
            )@.contains_key(id) && spec_inactive(old(self)@[id], now, threshold) by {
                let j = choose|j: int|
                    0 <= j < orig.len() && (#[trigger] orig[j]).id == id && spec_inactive(
                        orig[j],
                        now,
                        threshold,
                    );
                assert(old(self)@[id] == orig[j]);
            }
            assert forall|id: PlayerId|
                old(self)@.contains_key(id) && spec_inactive(
                    old(self)@[id],
                    now,
                    threshold,
                ) implies #[trigger] removed@.contains(id) by {
                let j = choose|j: int| 0 <= j < orig.len() && (#[trigger] orig[j]).id == id;
                assert(orig[j] == old(self)@[id]);
                assert(orig[j].id == id && spec_inactive(orig[j], now, threshold));
            }
        }
        self.players = kept;
        removed
    }
}

} // verus!

use vstd::prelude::*;

use crate::assoc::{
    assoc_map, keys_unique, lemma_assoc_map_dom, lemma_assoc_map_index, lemma_assoc_map_push,
};
use crate::player::PlayerId;

verus! {

/// A transport address in plain form: the numeric address value (an IPv4
/// address widened, or an IPv6 address as is) and the port.
#[derive(Clone, Copy, PartialEq, Eq, Structural, Debug)]
pub struct Address {
    pub ip: u128,
    pub port: u16,
}

/// How session entries are keyed: by address.
pub open spec fn by_addr() -> spec_fn((Address, PlayerId)) -> Address {
    |e: (Address, PlayerId)| e.0
}

/// Relies on uuid::Uuid::new_v4, read out through Uuid::as_u128: a freshly
/// drawn random version-4 identifier. Nothing is assumed of the draw beyond
/// the fixed version and variant bits, which keep the value nonzero.
#[verifier::external_body]
fn fresh_session_id() -> (r: PlayerId)
    ensures
        r != 0,
{
    uuid::Uuid::new_v4().as_u128()
}

/// The address bound last to `id`, scanning the entries from the back.
pub open spec fn last_addr(s: Seq<(Address, PlayerId)>, id: PlayerId) -> Option<Address>
    decreases s.len(),
{
    if s.len() == 0 {
        None
    } else if s.last().1 == id {
        Some(s.last().0)
    } else {
        last_addr(s.drop_last(), id)
    }
}

/// An address is bound to `id` exactly when some entry carries `id`.
pub proof fn lemma_last_addr_some(s: Seq<(Address, PlayerId)>, id: PlayerId)
    ensures
        last_addr(s, id) is Some <==> exists|i: int| 0 <= i < s.len() && (#[trigger] s[i]).1 == id,
    decreases s.len(),
{
    if s.len() > 0 {
        lemma_last_addr_some(s.drop_last(), id);
        if s.last().1 == id {
            assert(s[s.len() - 1].1 == id);
        } else {
            if exists|i: int| 0 <= i < s.len() && (#[trigger] s[i]).1 == id {
                let i = choose|i: int| 0 <= i < s.len() && (#[trigger] s[i]).1 == id;
                assert(s.drop_last()[i] == s[i]);
            }
            if exists|i: int| 0 <= i < s.drop_last().len() && (#[trigger] s.drop_last()[i]).1
                == id {
                let i = choose|i: int|
                    0 <= i < s.drop_last().len() && (#[trigger] s.drop_last()[i]).1 == id;
                assert(s[i].1 == id);
            }
        }
    }
}

/// The address-to-identity cache: the first datagram from an unseen address
/// binds that address to a fresh identifier, and the binding is never
/// removed. Viewed as a map from address to identifier.
pub struct SessionTable {
    entries: Vec<(Address, PlayerId)>,
}

impl View for SessionTable {
    type V = Map<Address, PlayerId>;

    closed spec fn view(&self) -> Map<Address, PlayerId> {
        Map::new(
            |a: Address| assoc_map(self.entries@, by_addr()).contains_key(a),
            |a: Address| assoc_map(self.entries@, by_addr())[a].1,
        )
    }
}

impl SessionTable {
    /// The entries in the order the addresses were first seen.
    pub closed spec fn entries(&self) -> Seq<(Address, PlayerId)> {
        self.entries@
    }

    /// Well-formed: at most one entry per address.
    pub closed spec fn wf(&self) -> bool {
        keys_unique(self.entries@, by_addr())
    }

    /// The identifiers of all sessions ever seen.
    pub closed spec fn known_ids(&self) -> Set<PlayerId> {
        Set::new(
            |id: PlayerId|
                exists|i: int| 0 <= i < self.entries@.len() && (#[trigger] self.entries@[i]).1
                    == id,
        )
    }

    pub fn new() -> (r: SessionTable)
        ensures
            r.wf(),
            r@ == Map::<Address, PlayerId>::empty(),
            r.known_ids() == Set::<PlayerId>::empty(),
            r.entries() == Seq::<(Address, PlayerId)>::empty(),
    {
        let r = SessionTable { entries: Vec::new() };
        proof {
            assert(r.entries@ =~= Seq::<(Address, PlayerId)>::empty());
            assert(r@ =~= Map::<Address, PlayerId>::empty());
            assert(r.known_ids() =~= Set::<PlayerId>::empty());
        }
        r
    }

    /// Index of the entry for `addr`, if the address was seen before.
    fn find_addr(&self, addr: Address) -> (r: Option<usize>)
        ensures
            match r {
                Some(i) => i < self.entries@.len() && self.entries@[i as int].0 == addr,
                None => forall|i: int|
                    0 <= i < self.entries@.len() ==> (#[trigger] self.entries@[i]).0 != addr,
            },
    {
        let n = self.entries.len();
        let mut i: usize = 0;
        while i < n
            invariant
                n == self.entries@.len(),
                i <= n,
                forall|j: int| 0 <= j < i ==> (#[trigger] self.entries@[j]).0 != addr,
            decreases n - i,
        {
            if self.entries[i].0 == addr {
                return Some(i);
            }
            i = i + 1;
        }
        None
    }

    /// The identifier bound to `addr`, binding a fresh random one if the
    /// address is unseen. The fresh identifier is whatever the generator
    /// drew; nothing more is promised of it.
    pub fn resolve(&mut self, addr: Address) -> (id: PlayerId)
        requires
            old(self).wf(),
        ensures
            final(self).wf(),
            final(self)@.contains_key(addr) && final(self)@[addr] == id,
            old(self)@.contains_key(addr) ==> *final(self) == *old(self) && id == old(self)@[addr],
            !old(self)@.contains_key(addr) ==> {
                &&& final(self)@ == old(self)@.insert(addr, id)
                &&& final(self).known_ids() == old(self).known_ids().insert(id)
                &&& final(self).entries() == old(self).entries().push((addr, id))
            },
    {
        proof {
            lemma_assoc_map_dom(self.entries@, by_addr());
            lemma_assoc_map_index(self.entries@, by_addr());
        }
        match self.find_addr(addr) {
            Some(i) => {
                proof {
                    assert(old(self)@.contains_key(addr));
                }
                self.entries[i].1
            },
            None => {
                let id = fresh_session_id();
                proof {
                    assert(!old(self)@.contains_key(addr));
                    lemma_assoc_map_push(self.entries@, by_addr(), (addr, id));
                    let pushed = self.entries@.push((addr, id));
                    assert forall|a: int, b: int| 0 <= a < b < pushed.len() implies by_addr()(
                        pushed[a],
                    ) != by_addr()(pushed[b]) by {
                        if b == self.entries@.len() {
                            assert(self.entries@[a].0 != addr);
                        }
                    }
                }
                self.entries.push((addr, id));
                proof {
                    let pushed = self.entries@;
                    let orig = old(self).entries@;
                    assert(self@ =~= old(self)@.insert(addr, id));
                    assert forall|x: PlayerId| self.known_ids().contains(x) implies old(
                        self,
                    ).known_ids().insert(id).contains(x) by {
                        let i = choose|i: int|
                            0 <= i < pushed.len() && (#[trigger] pushed[i]).1 == x;
                        if i < orig.len() {
                            assert(orig[i].1 == x);
                        }
                    }
                    assert forall|x: PlayerId|
                        old(self).known_ids().insert(id).contains(x) implies self.known_ids().contains(
                        x,
                    ) by {
                        if x == id {
                            assert(pushed[pushed.len() - 1].1 == x);
                        } else {
                            let i = choose|i: int|
                                0 <= i < orig.len() && (#[trigger] orig[i]).1 == x;
                            assert(pushed[i].1 == x);
                        }
                    }
                    assert(self.known_ids() =~= old(self).known_ids().insert(id));
                }
                id
            },
        }
    }

    /// The address a datagram for `id` goes to: the one bound last.
    pub fn addr_of(&self, id: PlayerId) -> (r: Option<Address>)
        ensures
            r == last_addr(self.entries(), id),
            r is Some <==> self.known_ids().contains(id),
    {
        proof {
            lemma_last_addr_some(self.entries@, id);
        }
        let n = self.entries.len();
        let mut found: Option<Address> = None;
        let mut i: usize = 0;
        while i < n
            invariant
                n == self.entries@.len(),
                i <= n,
                found == last_addr(self.entries@.take(i as int), id),
            decreases n - i,
        {
            proof {
                let t = self.entries@.take(i + 1);
                assert(t.drop_last() =~= self.entries@.take(i as int));
                assert(t.last() == self.entries@[i as int]);
            }
            if self.entries[i].1 == id {
                found = Some(self.entries[i].0);
            }
            i = i + 1;
        }
        proof {
            assert(self.entries@.take(n as int) =~= self.entries@);
        }
        found
    }

    /// The recipients of a full broadcast: every known session, each once.
    pub fn broadcast(&self) -> (r: Vec<PlayerId>)
        ensures
            r@.no_duplicates(),
            forall|id: PlayerId| #[trigger] r@.contains(id) <==> self.known_ids().contains(id),
    {
        let n = self.entries.len();
        let mut out: Vec<PlayerId> = Vec::new();
        let mut i: usize = 0;
        while i < n
            invariant
                n == self.entries@.len(),
                i <= n,
                out@.no_duplicates(),
                forall|id: PlayerId|
                    #[trigger] out@.contains(id) <==> exists|j: int|
                        0 <= j < i && (#[trigger] self.entries@[j]).1 == id,
            decreases n - i,
        {
            let id = self.entries[i].1;
            if !vec_contains(&out, id) {
                let ghost prev = out@;
                out.push(id);
                proof {
                    assert(out@ == prev.push(id));
                    assert(forall|k: int| 0 <= k < prev.len() ==> out@[k] == prev[k]);
                    assert(out@[out@.len() - 1] == id);
                    assert forall|x: PlayerId| #[trigger] out@.contains(x) implies exists|j: int|
                        0 <= j <= i && (#[trigger] self.entries@[j]).1 == x by {
                        let k = choose|k: int| 0 <= k < out@.len() && out@[k] == x;
                        if k < out@.len() - 1 {
                            assert(prev[k] == x);
                            assert(prev.contains(x));
                        } else {
                            assert(self.entries@[i as int].1 == x);
                        }
                    }
                    assert forall|x: PlayerId|
                        (exists|j: int| 0 <= j <= i && (#[trigger] self.entries@[j]).1
                            == x) implies #[trigger] out@.contains(x) by {
                        let j = choose|j: int|
                            0 <= j <= i && (#[trigger] self.entries@[j]).1 == x;
                        if j < i {
                            assert(prev.contains(x));
                            let k = choose|k: int| 0 <= k < prev.len() && prev[k] == x;
                            assert(out@[k] == x);
                        } else {
                            assert(out@[out@.len() - 1] == x);
                        }
                    }
                    assert(out@.no_duplicates()) by {
                        assert forall|a: int, b: int|
                            0 <= a < b < out@.len() implies out@[a] != out@[b] by {
                            if b == out@.len() - 1 {
                                assert(prev.contains(prev[a]));
                            }
                        }
                    }
                }
            } else {
                proof {
                    assert(self.entries@[i as int].1 == id);
                    assert forall|x: PlayerId|
                        (exists|j: int| 0 <= j <= i && (#[trigger] self.entries@[j]).1
                            == x) implies #[trigger] out@.contains(x) by {
                        let j = choose|j: int|
                            0 <= j <= i && (#[trigger] self.entries@[j]).1 == x;
                        if j == i {
                            assert(x == id);
                        }
                    }
                }
            }
            i = i + 1;
        }
        out
    }

    /// The recipients of a broadcast that skips `excluded`: every other
    /// known session, each once, and never `excluded` itself.
    pub fn broadcast_except(&self, excluded: PlayerId) -> (r: Vec<PlayerId>)
        ensures
            r@.no_duplicates(),
            forall|id: PlayerId|
                #[trigger] r@.contains(id) <==> self.known_ids().contains(id) && id != excluded,
            !r@.contains(excluded),
    {
        let all = self.broadcast();
        let n = all.len();
        let mut out: Vec<PlayerId> = Vec::new();
        let mut i: usize = 0;
        while i < n
            invariant
                n == all@.len(),
                i <= n,
                all@.no_duplicates(),
                forall|id: PlayerId| #[trigger] all@.contains(id) <==> self.known_ids().contains(id),
                forall|id: PlayerId|
                    #[trigger] out@.contains(id) <==> all@.take(i as int).contains(id) && id
                        != excluded,
                out@.no_duplicates(),
            decreases n - i,
        {
            let id = all[i];
            proof {
                let t = all@.take(i + 1);
                assert(t.drop_last() =~= all@.take(i as int));
                assert(t.last() == all@[i as int]);
            }
            if id != excluded {
                proof {
                    assert(!all@.take(i as int).contains(all@[i as int])) by {
                        if all@.take(i as int).contains(all@[i as int]) {
                            let k = choose|k: int|
                                0 <= k < i && all@.take(i as int)[k] == all@[i as int];
                            assert(all@[k] == all@[i as int]);
                        }
                    }
                }
                let ghost prev = out@;
                out.push(id);
                proof {
                    assert(out@ == prev.push(id));
                    assert(forall|k: int| 0 <= k < prev.len() ==> out@[k] == prev[k]);
                    assert(out@[out@.len() - 1] == id);
                    assert forall|x: PlayerId| #[trigger] out@.contains(x) implies all@.take(
                        i + 1,
                    ).contains(x) && x != excluded by {
                        let k = choose|k: int| 0 <= k < out@.len() && out@[k] == x;
                        if k < out@.len() - 1 {
                            assert(prev[k] == x);
                            assert(prev.contains(x));
                            let t = all@.take(i as int);
                            let j = choose|j: int| 0 <= j < t.len() && t[j] == x;
                            assert(all@.take(i + 1)[j] == x);
                        } else {
                            assert(all@.take(i + 1)[i as int] == x);
                        }
                    }
                    assert forall|x: PlayerId|
                        all@.take(i + 1).contains(x) && x != excluded implies #[trigger] out@.contains(
                        x,
                    ) by {
                        let j = choose|j: int| 0 <= j < i + 1 && (#[trigger] all@.take(i + 1)[j]) == x;
                        if j < i {
                            assert(all@.take(i as int)[j] == x);
                            assert(prev.contains(x));
                            let k = choose|k: int| 0 <= k < prev.len() && prev[k] == x;
                            assert(out@[k] == x);
                        } else {
                            assert(out@[out@.len() - 1] == x);
                        }
                    }
                    assert(out@.no_duplicates()) by {
                        assert forall|a: int, b: int|
                            0 <= a < b < out@.len() implies out@[a] != out@[b] by {
                            if b == out@.len() - 1 {
                                assert(prev.contains(prev[a]));
                                assert(all@.take(i as int).contains(prev[a]));
                            }
                        }
                    }
                }
            } else {
                proof {
                    assert forall|x: PlayerId|
                        all@.take(i + 1).contains(x) && x != excluded implies #[trigger] out@.contains(
                        x,
                    ) by {
                        let j = choose|j: int| 0 <= j < i + 1 && (#[trigger] all@.take(i + 1)[j]) == x;
                        assert(j < i);
                        assert(all@.take(i as int)[j] == x);
                    }
                    assert forall|x: PlayerId| #[trigger] out@.contains(x) implies all@.take(
                        i + 1,
                    ).contains(x) && x != excluded by {
                        let t = all@.take(i as int);
                        let j = choose|j: int| 0 <= j < t.len() && t[j] == x;
                        assert(all@.take(i + 1)[j] == x);
                    }
                }
            }
            i = i + 1;
        }
        proof {
            assert(all@.take(n as int) =~= all@);
        }
        out
    }
}

/// Whether `v` holds `x`.
fn vec_contains(v: &Vec<PlayerId>, x: PlayerId) -> (r: bool)
    ensures
        r == v@.contains(x),
{
    let n = v.len();
    let mut i: usize = 0;
    while i < n
        invariant
            n == v@.len(),
            i <= n,
            forall|j: int| 0 <= j < i ==> v@[j] != x,
        decreases n - i,
    {
        if v[i] == x {
            proof {
                assert(v@[i as int] == x);
            }
            return true;
        }
        i = i + 1;
    }
    false
}

} // verus!

use vstd::prelude::*;

use crate::bytes::{
    axis_decode, axis_encode, axis_of_wire, axis_to_wire, push_u128_le, push_u16_le, push_u64_le,
    read_u128_le, read_u16_le, read_u64_le, u128_le, u128_of_le, u16_le, u16_of_le, u64_le,
    u64_of_le,
};
use crate::events::{ClientEvent, ServerEvent, ServerEventModel};
use crate::player::{PlayerId, WorldCoordinate};
use crate::MAX_MESSAGE_SIZE;

verus! {

/// Most identifiers a session snapshot can carry and still fit in one
/// datagram of `MAX_MESSAGE_SIZE` bytes.
pub const MAX_KNOWN_IDS: usize = 4095;

/// The wire form of a coordinate: three axis words, little endian.
pub open spec fn coord_wire(c: WorldCoordinate) -> Seq<u8> {
    u64_le(axis_to_wire(c.x)) + u64_le(axis_to_wire(c.y)) + u64_le(axis_to_wire(c.z))
}

/// The coordinate a 24-byte slice denotes.
pub open spec fn coord_of_wire(s: Seq<u8>) -> WorldCoordinate {
    WorldCoordinate {
        x: axis_of_wire(u64_of_le(s.subrange(0, 8))),
        y: axis_of_wire(u64_of_le(s.subrange(8, 16))),
        z: axis_of_wire(u64_of_le(s.subrange(16, 24))),
    }
}

pub proof fn lemma_coord_round_trip(c: WorldCoordinate)
    ensures
        coord_of_wire(coord_wire(c)) == c,
{
    let s = coord_wire(c);
    assert(s.subrange(0, 8) =~= u64_le(axis_to_wire(c.x)));
    assert(s.subrange(8, 16) =~= u64_le(axis_to_wire(c.y)));
    assert(s.subrange(16, 24) =~= u64_le(axis_to_wire(c.z)));
    crate::bytes::lemma_u64_le_round_trip(axis_to_wire(c.x));
    crate::bytes::lemma_u64_le_round_trip(axis_to_wire(c.y));
    crate::bytes::lemma_u64_le_round_trip(axis_to_wire(c.z));
    crate::bytes::lemma_axis_round_trip(c.x);
    crate::bytes::lemma_axis_round_trip(c.y);
    crate::bytes::lemma_axis_round_trip(c.z);
}

/// Appends the wire form of a coordinate.
fn push_coord(out: &mut Vec<u8>, c: &WorldCoordinate)
    ensures
        final(out)@ == old(out)@ + coord_wire(*c),
{
    push_u64_le(out, axis_encode(c.x));
    push_u64_le(out, axis_encode(c.y));
    push_u64_le(out, axis_encode(c.z));
    assert(out@ =~= old(out)@ + coord_wire(*c));
}

/// Reads the coordinate at `off`.
fn read_coord(data: &[u8], off: usize) -> (r: WorldCoordinate)
    requires
        off + 24 <= data@.len(),
    ensures
        r == coord_of_wire(data@.subrange(off as int, off as int + 24)),
{
    let n = data.len();
    assert(off + 24 <= n);
    let x = axis_decode(read_u64_le(data, off));
    let y = axis_decode(read_u64_le(data, off + 8));
    let z = axis_decode(read_u64_le(data, off + 16));
    proof {
        let s = data@.subrange(off as int, off as int + 24);
        assert(s.subrange(0, 8) =~= data@.subrange(off as int, off as int + 8));
        assert(s.subrange(8, 16) =~= data@.subrange(off as int + 8, off as int + 16));
        assert(s.subrange(16, 24) =~= data@.subrange(off as int + 16, off as int + 24));
    }
    WorldCoordinate { x, y, z }
}

/// The wire form of a client event.
pub open spec fn spec_encode_client(e: ClientEvent) -> Seq<u8> {
    match e {
        ClientEvent::Connect => seq![0u8],
        ClientEvent::Disconnect => seq![1u8],
        ClientEvent::Move { position } => seq![2u8] + coord_wire(position),
    }
}

/// The client event a buffer denotes; bytes past the event are ignored, and
/// a truncated or unknown buffer denotes no event.
pub open spec fn spec_decode_client(s: Seq<u8>) -> Option<ClientEvent> {
    if s.len() < 1 {
        None
    } else if s[0] == 0 {
        Some(ClientEvent::Connect)
    } else if s[0] == 1 {
        Some(ClientEvent::Disconnect)
    } else if s[0] == 2 && s.len() >= 25 {
        Some(ClientEvent::Move { position: coord_of_wire(s.subrange(1, 25)) })
    } else {
        None
    }
}

/// Encodes a client event; the result always fits in one datagram.
pub fn encode_client_event(e: &ClientEvent) -> (r: Vec<u8>)
    ensures
        r@ == spec_encode_client(*e),
        r@.len() <= MAX_MESSAGE_SIZE,
{
    let mut out: Vec<u8> = Vec::new();
    match e {
        ClientEvent::Connect => {
            out.push(0u8);
            assert(out@ =~= spec_encode_client(*e));
        },
        ClientEvent::Disconnect => {
            out.push(1u8);
            assert(out@ =~= spec_encode_client(*e));
        },
        ClientEvent::Move { position } => {
            out.push(2u8);
            push_coord(&mut out, position);
            assert(out@ =~= spec_encode_client(*e));
        },
    }
    out
}

/// Decodes a client event, yielding no event on a short or unknown buffer.
pub fn decode_client_event(data: &[u8]) -> (r: Option<ClientEvent>)
    ensures
        r == spec_decode_client(data@),
{
    if data.len() < 1 {
        return None;
    }
    let tag = data[0];
    if tag == 0 {
        Some(ClientEvent::Connect)
    } else if tag == 1 {
        Some(ClientEvent::Disconnect)
    } else if tag == 2 && data.len() >= 25 {
        let position = read_coord(data, 1);
        Some(ClientEvent::Move { position })
    } else {
        None
    }
}

/// Decoding undoes encoding for every client event.
pub proof fn lemma_client_round_trip(e: ClientEvent)
    ensures
        spec_decode_client(spec_encode_client(e)) == Some(e),
{
    let s = spec_encode_client(e);
    match e {
        ClientEvent::Connect => {},
        ClientEvent::Disconnect => {},
        ClientEvent::Move { position } => {
            assert(s.subrange(1, 25) =~= coord_wire(position));
            lemma_coord_round_trip(position);
        },
    }
}

/// The wire form of a list of identifiers.
pub open spec fn ids_wire(ids: Seq<PlayerId>) -> Seq<u8>
    decreases ids.len(),
{
    if ids.len() == 0 {
        Seq::empty()
    } else {
        ids_wire(ids.drop_last()) + u128_le(ids.last())
    }
}

pub proof fn lemma_ids_wire_len(ids: Seq<PlayerId>)
    ensures
        ids_wire(ids).len() == 16 * ids.len(),
    decreases ids.len(),
{
    if ids.len() > 0 {
        lemma_ids_wire_len(ids.drop_last());
    }
}

/// Each identifier occupies its own 16-byte block of the wire form.
pub proof fn lemma_ids_wire_block(ids: Seq<PlayerId>, i: int)
    requires
        0 <= i < ids.len(),
    ensures
        ids_wire(ids).subrange(16 * i, 16 * i + 16) == u128_le(ids[i]),
    decreases ids.len(),
{
    lemma_ids_wire_len(ids);
    lemma_ids_wire_len(ids.drop_last());
    if i == ids.len() - 1 {
        assert(ids_wire(ids).subrange(16 * i, 16 * i + 16) =~= u128_le(ids[i]));
    } else {
        lemma_ids_wire_block(ids.drop_last(), i);
        assert(ids_wire(ids).subrange(16 * i, 16 * i + 16) =~= ids_wire(
            ids.drop_last(),
        ).subrange(16 * i, 16 * i + 16));
        assert(ids.drop_last()[i] == ids[i]);
    }
}

/// The identifier list a slice of 16-byte blocks denotes.
pub open spec fn ids_of_wire(s: Seq<u8>, n: int) -> Seq<PlayerId> {
    Seq::new(n as nat, |i: int| u128_of_le(s.subrange(16 * i, 16 * i + 16)))
}

pub proof fn lemma_ids_round_trip(ids: Seq<PlayerId>)
    ensures
        ids_of_wire(ids_wire(ids), ids.len() as int) == ids,
{
    lemma_ids_wire_len(ids);
    assert forall|i: int| 0 <= i < ids.len() implies ids_of_wire(ids_wire(ids), ids.len() as int)[i]
        == ids[i] by {
        lemma_ids_wire_block(ids, i);
        crate::bytes::lemma_u128_le_round_trip(ids[i]);
    }
    assert(ids_of_wire(ids_wire(ids), ids.len() as int) =~= ids);
}

/// Whether a server event fits in one datagram: only a session snapshot can
/// grow beyond the bound, through its identifier list.
pub open spec fn server_encodable(m: ServerEventModel) -> bool {
    match m {
        ServerEventModel::SessionInfo { known_ids, .. } => known_ids.len() <= MAX_KNOWN_IDS,
        _ => true,
    }
}

/// The wire form of a server event.
pub open spec fn spec_encode_server(m: ServerEventModel) -> Seq<u8> {
    match m {
        ServerEventModel::SessionInfo { seed, known_ids } => seq![0u8] + u64_le(seed) + u16_le(
            known_ids.len() as u16,
        ) + ids_wire(known_ids),
        ServerEventModel::PlayerConnected { id } => seq![1u8] + u128_le(id),
        ServerEventModel::PlayerDisconnected { id } => seq![2u8] + u128_le(id),
        ServerEventModel::PlayerMoved { id, position } => seq![3u8] + u128_le(id) + coord_wire(
            position,
        ),
    }
}

/// The server event a buffer denotes; bytes past the event are ignored, and
/// a truncated or unknown buffer denotes no event.
pub open spec fn spec_decode_server(s: Seq<u8>) -> Option<ServerEventModel> {
    if s.len() < 1 {
        None
    } else if s[0] == 0 {
        if s.len() < 11 {
            None
        } else {
            let n = u16_of_le(s.subrange(9, 11)) as int;
            if s.len() < 11 + 16 * n {
                None
            } else {
                Some(
                    ServerEventModel::SessionInfo {
                        seed: u64_of_le(s.subrange(1, 9)),
                        known_ids: ids_of_wire(s.subrange(11, 11 + 16 * n), n),
                    },
                )
            }
        }
    } else if s[0] == 1 {
        if s.len() >= 17 {
            Some(ServerEventModel::PlayerConnected { id: u128_of_le(s.subrange(1, 17)) })
        } else {
            None
        }
    } else if s[0] == 2 {
        if s.len() >= 17 {
            Some(ServerEventModel::PlayerDisconnected { id: u128_of_le(s.subrange(1, 17)) })
        } else {
            None
        }
    } else if s[0] == 3 {
        if s.len() >= 41 {
            Some(
                ServerEventModel::PlayerMoved {
                    id: u128_of_le(s.subrange(1, 17)),
                    position: coord_of_wire(s.subrange(17, 41)),
                },
            )
        } else {
            None
        }
    } else {
        None
    }
}

/// Encodes a server event, refusing one whose snapshot would not fit in a
/// single datagram.
pub fn encode_server_event(e: &ServerEvent) -> (r: Option<Vec<u8>>)
    ensures
        r is Some <==> server_encodable(e@),
        r matches Some(v) ==> v@ == spec_encode_server(e@) && v@.len() <= MAX_MESSAGE_SIZE,
{
    match e {
        ServerEvent::SessionInfo { seed, known_ids } => {
            if known_ids.len() > MAX_KNOWN_IDS {
                return None;
            }
            let n = known_ids.len();
            let mut out: Vec<u8> = Vec::new();
            out.push(0u8);
            push_u64_le(&mut out, *seed);
            push_u16_le(&mut out, n as u16);
            assert(out@ =~= seq![0u8] + u64_le(*seed) + u16_le(n as u16) + ids_wire(
                known_ids@.take(0),
            ));
            let mut i: usize = 0;
            while i < n
                invariant
                    n == known_ids@.len() <= MAX_KNOWN_IDS,
                    i <= n,
                    out@ == seq![0u8] + u64_le(*seed) + u16_le(n as u16) + ids_wire(
                        known_ids@.take(i as int),
                    ),
                decreases n - i,
            {
                push_u128_le(&mut out, known_ids[i]);
                proof {
                    let t = known_ids@.take(i + 1);
                    assert(t.drop_last() =~= known_ids@.take(i as int));
                    assert(t.last() == known_ids@[i as int]);
                    assert(out@ =~= seq![0u8] + u64_le(*seed) + u16_le(n as u16) + ids_wire(t));
                }
                i = i + 1;
            }
            proof {
                assert(known_ids@.take(n as int) =~= known_ids@);
                lemma_ids_wire_len(known_ids@);
            }
            Some(out)
        },
        ServerEvent::PlayerConnected { id } => {
            let mut out: Vec<u8> = Vec::new();
            out.push(1u8);
            push_u128_le(&mut out, *id);
            assert(out@ =~= spec_encode_server(e@));
            Some(out)
        },
        ServerEvent::PlayerDisconnected { id } => {
            let mut out: Vec<u8> = Vec::new();
            out.push(2u8);
            push_u128_le(&mut out, *id);
            assert(out@ =~= spec_encode_server(e@));
            Some(out)
        },
        ServerEvent::PlayerMoved { id, position } => {
            let mut out: Vec<u8> = Vec::new();
            out.push(3u8);
            push_u128_le(&mut out, *id);
            push_coord(&mut out, position);
            assert(out@ =~= spec_encode_server(e@));
            Some(out)
        },
    }
}

/// Decodes a server event, yielding no event on a short or unknown buffer.
pub fn decode_server_event(data: &[u8]) -> (r: Option<ServerEvent>)
    ensures
        match r {
            Some(ev) => spec_decode_server(data@) == Some(ev@),
            None => spec_decode_server(data@) is None,
        },
{
    if data.len() < 1 {
        return None;
    }
    let tag = data[0];
    if tag == 0 {
        if data.len() < 11 {
            return None;
        }
        let seed = read_u64_le(data, 1);
        let n = read_u16_le(data, 9) as usize;
        if data.len() < 11 + 16 * n {
            return None;
        }
        let mut ids: Vec<PlayerId> = Vec::new();
        let mut j: usize = 0;
        while j < n
            invariant
                n <= 65535,
                11 + 16 * n <= data@.len(),
                j <= n,
                ids@.len() == j,
                forall|k: int|
                    0 <= k < j ==> ids@[k] == u128_of_le(
                        data@.subrange(11 + 16 * k, 11 + 16 * k + 16),
                    ),
            decreases n - j,
        {
            ids.push(read_u128_le(data, 11 + 16 * j));
            j = j + 1;
        }
        proof {
            let body = data@.subrange(11, 11 + 16 * (n as int));
            assert forall|k: int| 0 <= k < n implies ids@[k] == ids_of_wire(body, n as int)[k] by {
                assert(body.subrange(16 * k, 16 * k + 16) =~= data@.subrange(
                    11 + 16 * k,
                    11 + 16 * k + 16,
                ));
            }
            assert(ids@ =~= ids_of_wire(body, n as int));
        }
        Some(ServerEvent::SessionInfo { seed, known_ids: ids })
    } else if tag == 1 {
        if data.len() < 17 {
            return None;
        }
        let id = read_u128_le(data, 1);
        Some(ServerEvent::PlayerConnected { id })
    } else if tag == 2 {
        if data.len() < 17 {
            return None;
        }
        let id = read_u128_le(data, 1);
        Some(ServerEvent::PlayerDisconnected { id })
    } else if tag == 3 {
        if data.len() < 41 {
            return None;
        }
        let id = read_u128_le(data, 1);
        let position = read_coord(data, 17);
        Some(ServerEvent::PlayerMoved { id, position })
    } else {
        None
    }
}

/// Decoding undoes encoding for every server event that fits in a datagram.
pub proof fn lemma_server_round_trip(m: ServerEventModel)
    requires
        server_encodable(m),
    ensures
        spec_decode_server(spec_encode_server(m)) == Some(m),
{
    let s = spec_encode_server(m);
    match m {
        ServerEventModel::SessionInfo { seed, known_ids } => {
            lemma_ids_wire_len(known_ids);
            let n = known_ids.len() as int;
            assert(s.subrange(1, 9) =~= u64_le(seed));
            assert(s.subrange(9, 11) =~= u16_le(n as u16));
            crate::bytes::lemma_u64_le_round_trip(seed);
            crate::bytes::lemma_u16_le_round_trip(n as u16);
            assert(u16_of_le(s.subrange(9, 11)) as int == n);
            assert(s.subrange(11, 11 + 16 * n) =~= ids_wire(known_ids));
            lemma_ids_round_trip(known_ids);
        },
        ServerEventModel::PlayerConnected { id } => {
            assert(s.subrange(1, 17) =~= u128_le(id));
            crate::bytes::lemma_u128_le_round_trip(id);
        },
        ServerEventModel::PlayerDisconnected { id } => {
            assert(s.subrange(1, 17) =~= u128_le(id));
            crate::bytes::lemma_u128_le_round_trip(id);
        },
        ServerEventModel::PlayerMoved { id, position } => {
            assert(s.subrange(1, 17) =~= u128_le(id));
            assert(s.subrange(17, 41) =~= coord_wire(position));
            crate::bytes::lemma_u128_le_round_trip(id);
            lemma_coord_round_trip(position);
        },
    }
}

} // verus!

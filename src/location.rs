//! Chain-relative locations: a number of steps up towards the root, then a
//! path of junctions down from there.
use vstd::prelude::*;

use crate::order::{
    bytes_key, keys_equal, lemma_bytes_key_injective, lemma_lex_separated, lemma_separated_common_prefix,
    lemma_separated_heads, lemma_separated_middle, lemma_separated_same_len, push_bytes, separated,
    ints,
};

verus! {

/// The most junctions that a location's interior may hold.
pub const MAX_JUNCTIONS: usize = 8;

/// A consensus system: a network of chains.
#[derive(Clone, Copy, Debug, PartialEq, Eq)]
pub enum NetworkId {
    /// A network identified by the hash of its genesis block.
    ByGenesis([u8; 32]),
    /// A network that forked off another at a given block.
    ByFork { block_number: u64, block_hash: [u8; 32] },
    Polkadot,
    Kusama,
    Westend,
    Rococo,
    Wococo,
    /// An Ethereum network, by its chain id.
    Ethereum { chain_id: u64 },
    BitcoinCore,
    BitcoinCash,
    PolkadotBulletin,
}

/// A body that can speak for a group: its identity.
#[derive(Clone, Copy, Debug, PartialEq, Eq)]
pub enum BodyId {
    Unit,
    /// A body named by a 4-byte moniker.
    Moniker([u8; 4]),
    /// A body named by an index.
    Index(u32),
    Executive,
    Technical,
    Legislative,
    Judicial,
    Defense,
    Administration,
    Treasury,
}

/// Which part of a body speaks.
#[derive(Clone, Copy, Debug, PartialEq, Eq)]
pub enum BodyPart {
    /// The body's declared voice.
    Voice,
    /// A given number of members.
    Members { count: u32 },
    /// A given fraction of the members.
    Fraction { nom: u32, denom: u32 },
    /// At least a given proportion of the members.
    AtLeastProportion { nom: u32, denom: u32 },
    /// More than a given proportion of the members.
    MoreThanProportion { nom: u32, denom: u32 },
}

/// One step down a location's path.
#[derive(Clone, Copy, Debug, PartialEq, Eq)]
pub enum Junction {
    /// A parachain, by its index.
    Parachain(u32),
    /// A 32-byte account identifier, on `network` if given.
    AccountId32 { network: Option<NetworkId>, id: [u8; 32] },
    /// An 8-byte account index, on `network` if given.
    AccountIndex64 { network: Option<NetworkId>, index: u64 },
    /// A 20-byte account key, on `network` if given.
    AccountKey20 { network: Option<NetworkId>, key: [u8; 20] },
    /// A pallet, by its index in the runtime.
    PalletInstance(u8),
    /// A general non-negative index.
    GeneralIndex(u128),
    /// A general key of up to 32 bytes, of which the first `length` count.
    GeneralKey { length: u8, data: [u8; 32] },
    /// The unambiguous child of the location above it.
    OnlyChild,
    /// A part of a body.
    Plurality { id: BodyId, part: BodyPart },
    /// A whole consensus system.
    GlobalConsensus(NetworkId),
}

pub open spec fn network_key(n: NetworkId) -> Seq<int> {
    match n {
        NetworkId::ByGenesis(g) => seq![0int] + bytes_key(g@),
        NetworkId::ByFork { block_number, block_hash } => seq![1int, block_number as int]
            + bytes_key(block_hash@),
        NetworkId::Polkadot => seq![2int],
        NetworkId::Kusama => seq![3int],
        NetworkId::Westend => seq![4int],
        NetworkId::Rococo => seq![5int],
        NetworkId::Wococo => seq![6int],
        NetworkId::Ethereum { chain_id } => seq![7int, chain_id as int],
        NetworkId::BitcoinCore => seq![8int],
        NetworkId::BitcoinCash => seq![9int],
        NetworkId::PolkadotBulletin => seq![10int],
    }
}

/// An absent network sorts first.
pub open spec fn maybe_network_key(n: Option<NetworkId>) -> Seq<int> {
    match n {
        None => seq![0int],
        Some(n) => seq![1int] + network_key(n),
    }
}

pub open spec fn body_id_key(b: BodyId) -> Seq<int> {
    match b {
        BodyId::Unit => seq![0int],
        BodyId::Moniker(m) => seq![1int] + bytes_key(m@),
        BodyId::Index(n) => seq![2int, n as int],
        BodyId::Executive => seq![3int],
        BodyId::Technical => seq![4int],
        BodyId::Legislative => seq![5int],
        BodyId::Judicial => seq![6int],
        BodyId::Defense => seq![7int],
        BodyId::Administration => seq![8int],
        BodyId::Treasury => seq![9int],
    }
}

pub open spec fn body_part_key(p: BodyPart) -> Seq<int> {
    match p {
        BodyPart::Voice => seq![0int],
        BodyPart::Members { count } => seq![1int, count as int],
        BodyPart::Fraction { nom, denom } => seq![2int, nom as int, denom as int],
        BodyPart::AtLeastProportion { nom, denom } => seq![3int, nom as int, denom as int],
        BodyPart::MoreThanProportion { nom, denom } => seq![4int, nom as int, denom as int],
    }
}

/// The sort key of a junction: its variant, then its fields in order.
pub open spec fn junction_key(j: Junction) -> Seq<int> {
    match j {
        Junction::Parachain(n) => seq![0int, n as int],
        Junction::AccountId32 { network, id } => seq![1int] + maybe_network_key(network)
            + bytes_key(id@),
        Junction::AccountIndex64 { network, index } => seq![2int] + maybe_network_key(network)
            + seq![index as int],
        Junction::AccountKey20 { network, key } => seq![3int] + maybe_network_key(network)
            + bytes_key(key@),
        Junction::PalletInstance(n) => seq![4int, n as int],
        Junction::GeneralIndex(n) => seq![5int, n as int],
        Junction::GeneralKey { length, data } => seq![6int, length as int] + bytes_key(data@),
        Junction::OnlyChild => seq![7int],
        Junction::Plurality { id, part } => seq![8int] + body_id_key(id) + body_part_key(part),
        Junction::GlobalConsensus(n) => seq![9int] + network_key(n),
    }
}

/// The keys of a path of junctions, one after the other.
pub open spec fn junctions_key(s: Seq<Junction>) -> Seq<int>
    decreases s.len(),
{
    if s.len() == 0 {
        seq![]
    } else {
        junctions_key(s.drop_last()) + junction_key(s.last())
    }
}

/// What a location is: `parents` steps up, then the `interior` path down.
pub ghost struct LocationModel {
    pub parents: u8,
    pub interior: Seq<Junction>,
}

/// The sort key of a location; locations order by parents, then by the
/// length of the interior, then junction by junction.
pub open spec fn location_key(l: LocationModel) -> Seq<int> {
    seq![l.parents as int, l.interior.len() as int] + junctions_key(l.interior)
}

/// A location relative to the current one.
#[derive(Debug, PartialEq, Eq)]
pub struct MultiLocation {
    pub parents: u8,
    pub interior: Vec<Junction>,
}

impl View for MultiLocation {
    type V = LocationModel;

    open spec fn view(&self) -> LocationModel {
        LocationModel { parents: self.parents, interior: self.interior@ }
    }
}

/// `loc` seen from a point whose own location, relative to where `loc` was
/// expressed, is `prefix`; `None` when the result would be deeper than
/// `MAX_JUNCTIONS` or have more than 255 parents.
pub open spec fn prepended(loc: LocationModel, prefix: LocationModel) -> Option<LocationModel> {
    let cancelled = if loc.parents < prefix.interior.len() {
        loc.parents as int
    } else {
        prefix.interior.len() as int
    };
    let kept = prefix.interior.len() - cancelled;
    let parents = prefix.parents + loc.parents - cancelled;
    if loc.interior.len() + kept > MAX_JUNCTIONS || parents > 255 {
        None
    } else {
        Some(
            LocationModel {
                parents: parents as u8,
                interior: prefix.interior.subrange(0, kept) + loc.interior,
            },
        )
    }
}

/// The location of `context` (the local consensus system, as a path from the
/// root) as seen from `target`; `None` when it cannot be written down.
pub open spec fn inverted(context: Seq<Junction>, target: LocationModel) -> Option<LocationModel> {
    let up = target.parents as int;
    let c = context.len() as int;
    if up > MAX_JUNCTIONS || target.interior.len() > MAX_JUNCTIONS {
        None
    } else {
        Some(
            LocationModel {
                parents: target.interior.len() as u8,
                interior: if up <= c {
                    context.subrange(c - up, c)
                } else {
                    Seq::new((up - c) as nat, |i: int| Junction::OnlyChild) + context
                },
            },
        )
    }
}

/// Drops leading parents of `loc` that step up and straight back down into
/// the path that `context` already knows.
pub open spec fn simplified(loc: LocationModel, context: Seq<Junction>) -> LocationModel
    decreases loc.parents,
{
    if loc.parents == 0 || context.len() < loc.parents {
        loc
    } else if loc.interior.len() > 0 && loc.interior[0] == context[context.len() - loc.parents] {
        simplified(
            LocationModel { parents: (loc.parents - 1) as u8, interior: loc.interior.drop_first() },
            context,
        )
    } else {
        loc
    }
}

/// `loc` as `target` sees it, when the local consensus system is at `context`.
pub open spec fn reanchored(
    loc: LocationModel,
    target: LocationModel,
    context: Seq<Junction>,
) -> Option<LocationModel> {
    match inverted(context, target) {
        None => None,
        Some(inv) => match prepended(loc, inv) {
            None => None,
            Some(l) => Some(simplified(l, target.interior)),
        },
    }
}

pub proof fn lemma_network_key_separated(a: NetworkId, b: NetworkId)
    requires
        a != b,
    ensures
        separated(network_key(a), network_key(b)),
{
    let ka = network_key(a);
    let kb = network_key(b);
    if ka[0] != kb[0] {
        lemma_separated_heads(ka, kb);
    } else {
        if ka == kb {
            match (a, b) {
                (NetworkId::ByGenesis(x), NetworkId::ByGenesis(y)) => {
                    assert(bytes_key(x@) =~= ka.drop_first());
                    assert(bytes_key(y@) =~= kb.drop_first());
                    lemma_bytes_key_injective(x@, y@);
                    assert(x =~= y);
                },
                (
                    NetworkId::ByFork { block_number: n1, block_hash: x },
                    NetworkId::ByFork { block_number: n2, block_hash: y },
                ) => {
                    assert(ka[1] == kb[1]);
                    assert(bytes_key(x@) =~= ka.subrange(2, ka.len() as int));
                    assert(bytes_key(y@) =~= kb.subrange(2, kb.len() as int));
                    lemma_bytes_key_injective(x@, y@);
                    assert(x =~= y);
                },
                (NetworkId::Ethereum { .. }, NetworkId::Ethereum { .. }) => {
                    assert(ka[1] == kb[1]);
                },
                _ => {},
            }
        }
        lemma_separated_same_len(ka, kb);
    }
}

pub proof fn lemma_maybe_network_key_separated(a: Option<NetworkId>, b: Option<NetworkId>)
    requires
        a != b,
    ensures
        separated(maybe_network_key(a), maybe_network_key(b)),
{
    match (a, b) {
        (Some(x), Some(y)) => {
            lemma_network_key_separated(x, y);
            lemma_separated_common_prefix(seq![1int], network_key(x), network_key(y));
        },
        _ => {
            lemma_separated_heads(maybe_network_key(a), maybe_network_key(b));
        },
    }
}

pub proof fn lemma_body_id_key_separated(a: BodyId, b: BodyId)
    requires
        a != b,
    ensures
        separated(body_id_key(a), body_id_key(b)),
{
    let ka = body_id_key(a);
    let kb = body_id_key(b);
    if ka[0] != kb[0] {
        lemma_separated_heads(ka, kb);
    } else {
        if ka == kb {
            match (a, b) {
                (BodyId::Moniker(x), BodyId::Moniker(y)) => {
                    assert(bytes_key(x@) =~= ka.drop_first());
                    assert(bytes_key(y@) =~= kb.drop_first());
                    lemma_bytes_key_injective(x@, y@);
                    assert(x =~= y);
                },
                (BodyId::Index(_), BodyId::Index(_)) => {
                    assert(ka[1] == kb[1]);
                },
                _ => {},
            }
        }
        lemma_separated_same_len(ka, kb);
    }
}

pub proof fn lemma_body_part_key_separated(a: BodyPart, b: BodyPart)
    requires
        a != b,
    ensures
        separated(body_part_key(a), body_part_key(b)),
{
    let ka = body_part_key(a);
    let kb = body_part_key(b);
    if ka[0] != kb[0] {
        lemma_separated_heads(ka, kb);
    } else {
        if ka == kb {
            assert(ka.len() > 1 ==> ka[1] == kb[1]);
            assert(ka.len() > 2 ==> ka[2] == kb[2]);
        }
        lemma_separated_same_len(ka, kb);
    }
}

/// Keys `h + x + y` that differ only in a fixed-length tail are separated.
proof fn lemma_separated_tail(h: Seq<int>, y1: Seq<int>, y2: Seq<int>)
    requires
        y1.len() == y2.len(),
        y1 != y2,
    ensures
        separated(h + y1, h + y2),
{
    lemma_separated_same_len(y1, y2);
    lemma_separated_common_prefix(h, y1, y2);
}

pub proof fn lemma_junction_key_separated(a: Junction, b: Junction)
    requires
        a != b,
    ensures
        separated(junction_key(a), junction_key(b)),
{
    let ka = junction_key(a);
    let kb = junction_key(b);
    if ka[0] != kb[0] {
        lemma_separated_heads(ka, kb);
    } else {
        match (a, b) {
            (
                Junction::AccountId32 { network: n1, id: x },
                Junction::AccountId32 { network: n2, id: y },
            ) => {
                if n1 != n2 {
                    lemma_maybe_network_key_separated(n1, n2);
                    lemma_separated_middle(
                        seq![1int],
                        maybe_network_key(n1),
                        maybe_network_key(n2),
                        bytes_key(x@),
                        bytes_key(y@),
                    );
                } else {
                    if bytes_key(x@) == bytes_key(y@) {
                        lemma_bytes_key_injective(x@, y@);
                        assert(x =~= y);
                    }
                    lemma_separated_tail(
                        seq![1int] + maybe_network_key(n1),
                        bytes_key(x@),
                        bytes_key(y@),
                    );
                }
            },
            (
                Junction::AccountIndex64 { network: n1, index: x },
                Junction::AccountIndex64 { network: n2, index: y },
            ) => {
                if n1 != n2 {
                    lemma_maybe_network_key_separated(n1, n2);
                    lemma_separated_middle(
                        seq![2int],
                        maybe_network_key(n1),
                        maybe_network_key(n2),
                        seq![x as int],
                        seq![y as int],
                    );
                } else {
                    assert(seq![x as int][0] != seq![y as int][0]);
                    lemma_separated_tail(
                        seq![2int] + maybe_network_key(n1),
                        seq![x as int],
                        seq![y as int],
                    );
                }
            },
            (
                Junction::AccountKey20 { network: n1, key: x },
                Junction::AccountKey20 { network: n2, key: y },
            ) => {
                if n1 != n2 {
                    lemma_maybe_network_key_separated(n1, n2);
                    lemma_separated_middle(
                        seq![3int],
                        maybe_network_key(n1),
                        maybe_network_key(n2),
                        bytes_key(x@),
                        bytes_key(y@),
                    );
                } else {
                    if bytes_key(x@) == bytes_key(y@) {
                        lemma_bytes_key_injective(x@, y@);
                        assert(x =~= y);
                    }
                    lemma_separated_tail(
                        seq![3int] + maybe_network_key(n1),
                        bytes_key(x@),
                        bytes_key(y@),
                    );
                }
            },
            (
                Junction::GeneralKey { length: la, data: x },
                Junction::GeneralKey { length: lb, data: y },
            ) => {
                if ka == kb {
                    assert(ka[1] == kb[1]);
                    assert(bytes_key(x@) =~= ka.subrange(2, ka.len() as int));
                    assert(bytes_key(y@) =~= kb.subrange(2, kb.len() as int));
                    lemma_bytes_key_injective(x@, y@);
                    assert(x =~= y);
                }
                lemma_separated_same_len(ka, kb);
            },
            (Junction::Plurality { id: body_a, part: part_a }, Junction::Plurality { id: body_b, part: part_b }) => {
                if body_a != body_b {
                    lemma_body_id_key_separated(body_a, body_b);
                    lemma_separated_middle(
                        seq![8int],
                        body_id_key(body_a),
                        body_id_key(body_b),
                        body_part_key(part_a),
                        body_part_key(part_b),
                    );
                } else {
                    lemma_body_part_key_separated(part_a, part_b);
                    lemma_separated_common_prefix(
                        seq![8int] + body_id_key(body_a),
                        body_part_key(part_a),
                        body_part_key(part_b),
                    );
                }
            },
            (Junction::GlobalConsensus(n1), Junction::GlobalConsensus(n2)) => {
                lemma_network_key_separated(n1, n2);
                lemma_separated_common_prefix(seq![9int], network_key(n1), network_key(n2));
            },
            _ => {
                if ka == kb {
                    assert(ka[1] == kb[1]);
                }
                lemma_separated_same_len(ka, kb);
            },
        }
    }
}

pub proof fn lemma_junctions_key_separated(a: Seq<Junction>, b: Seq<Junction>)
    requires
        a.len() == b.len(),
        a != b,
    ensures
        separated(junctions_key(a), junctions_key(b)),
    decreases a.len(),
{
    if a.len() == 0 {
        assert(a =~= b);
    } else if a.drop_last() == b.drop_last() {
        assert(a.last() != b.last()) by {
            if a.last() == b.last() {
                assert(a =~= a.drop_last().push(a.last()));
                assert(b =~= b.drop_last().push(b.last()));
            }
        }
        lemma_junction_key_separated(a.last(), b.last());
        lemma_separated_common_prefix(
            junctions_key(a.drop_last()),
            junction_key(a.last()),
            junction_key(b.last()),
        );
    } else {
        lemma_junctions_key_separated(a.drop_last(), b.drop_last());
        lemma_lex_separated(
            junctions_key(a.drop_last()),
            junctions_key(b.drop_last()),
            junction_key(a.last()),
            junction_key(b.last()),
        );
    }
}

/// Different locations have separated keys: neither key is a prefix of the
/// other, and the order of keys is strict between them.
pub proof fn lemma_location_key_separated(a: LocationModel, b: LocationModel)
    requires
        a != b,
    ensures
        separated(location_key(a), location_key(b)),
{
    let ka = location_key(a);
    let kb = location_key(b);
    if a.parents != b.parents {
        assert(ka[0] != kb[0]);
    } else if a.interior.len() != b.interior.len() {
        assert(ka[1] != kb[1]);
    } else {
        assert(a.interior != b.interior);
        lemma_junctions_key_separated(a.interior, b.interior);
        lemma_separated_common_prefix(
            seq![a.parents as int, a.interior.len() as int],
            junctions_key(a.interior),
            junctions_key(b.interior),
        );
    }
}

fn push_network_key(k: &mut Vec<u128>, n: &NetworkId)
    ensures
        ints(final(k)@) == ints(old(k)@) + network_key(*n),
{
    let ghost start = ints(k@);
    match n {
        NetworkId::ByGenesis(g) => {
            k.push(0);
            push_bytes(k, g);
        },
        NetworkId::ByFork { block_number, block_hash } => {
            k.push(1);
            k.push(*block_number as u128);
            push_bytes(k, block_hash);
        },
        NetworkId::Polkadot => k.push(2),
        NetworkId::Kusama => k.push(3),
        NetworkId::Westend => k.push(4),
        NetworkId::Rococo => k.push(5),
        NetworkId::Wococo => k.push(6),
        NetworkId::Ethereum { chain_id } => {
            k.push(7);
            k.push(*chain_id as u128);
        },
        NetworkId::BitcoinCore => k.push(8),
        NetworkId::BitcoinCash => k.push(9),
        NetworkId::PolkadotBulletin => k.push(10),
    }
    proof {
        assert(ints(k@) =~= start + network_key(*n));
    }
}

fn push_maybe_network_key(k: &mut Vec<u128>, n: &Option<NetworkId>)
    ensures
        ints(final(k)@) == ints(old(k)@) + maybe_network_key(*n),
{
    let ghost start = ints(k@);
    match n {
        None => k.push(0),
        Some(n) => {
            k.push(1);
            push_network_key(k, n);
        },
    }
    proof {
        assert(ints(k@) =~= start + maybe_network_key(*n));
    }
}

fn push_body_id_key(k: &mut Vec<u128>, b: &BodyId)
    ensures
        ints(final(k)@) == ints(old(k)@) + body_id_key(*b),
{
    let ghost start = ints(k@);
    match b {
        BodyId::Unit => k.push(0),
        BodyId::Moniker(m) => {
            k.push(1);
            push_bytes(k, m);
        },
        BodyId::Index(n) => {
            k.push(2);
            k.push(*n as u128);
        },
        BodyId::Executive => k.push(3),
        BodyId::Technical => k.push(4),
        BodyId::Legislative => k.push(5),
        BodyId::Judicial => k.push(6),
        BodyId::Defense => k.push(7),
        BodyId::Administration => k.push(8),
        BodyId::Treasury => k.push(9),
    }
    proof {
        assert(ints(k@) =~= start + body_id_key(*b));
    }
}

fn push_body_part_key(k: &mut Vec<u128>, p: &BodyPart)
    ensures
        ints(final(k)@) == ints(old(k)@) + body_part_key(*p),
{
    let ghost start = ints(k@);
    match p {
        BodyPart::Voice => k.push(0),
        BodyPart::Members { count } => {
            k.push(1);
            k.push(*count as u128);
        },
        BodyPart::Fraction { nom, denom } => {
            k.push(2);
            k.push(*nom as u128);
            k.push(*denom as u128);
        },
        BodyPart::AtLeastProportion { nom, denom } => {
            k.push(3);
            k.push(*nom as u128);
            k.push(*denom as u128);
        },
        BodyPart::MoreThanProportion { nom, denom } => {
            k.push(4);
            k.push(*nom as u128);
            k.push(*denom as u128);
        },
    }
    proof {
        assert(ints(k@) =~= start + body_part_key(*p));
    }
}

/// The key of a junction, appended to `k`.
fn push_junction_key(k: &mut Vec<u128>, j: &Junction)
    ensures
        ints(final(k)@) == ints(old(k)@) + junction_key(*j),
{
    let ghost start = ints(k@);
    match j {
        Junction::Parachain(n) => {
            k.push(0);
            k.push(*n as u128);
        },
        Junction::AccountId32 { network, id } => {
            k.push(1);
            let ghost k1 = ints(k@);
            push_maybe_network_key(k, network);
            let ghost k2 = ints(k@);
            push_bytes(k, id);
            proof {
                assert(k1 =~= start + seq![1int]);
                assert(ints(k@) =~= start + (seq![1int] + maybe_network_key(*network) + bytes_key(
                    id@,
                )));
            }
        },
        Junction::AccountIndex64 { network, index } => {
            k.push(2);
            let ghost k1 = ints(k@);
            push_maybe_network_key(k, network);
            let ghost k2 = ints(k@);
            k.push(*index as u128);
            proof {
                assert(k1 =~= start + seq![2int]);
                assert(ints(k@) =~= k2 + seq![*index as int]);
                assert(ints(k@) =~= start + (seq![2int] + maybe_network_key(*network) + seq![
                    *index as int,
                ]));
            }
        },
        Junction::AccountKey20 { network, key } => {
            k.push(3);
            let ghost k1 = ints(k@);
            push_maybe_network_key(k, network);
            push_bytes(k, key);
            proof {
                assert(k1 =~= start + seq![3int]);
                assert(ints(k@) =~= start + (seq![3int] + maybe_network_key(*network) + bytes_key(
                    key@,
                )));
            }
        },
        Junction::PalletInstance(n) => {
            k.push(4);
            k.push(*n as u128);
        },
        Junction::GeneralIndex(n) => {
            k.push(5);
            k.push(*n);
        },
        Junction::GeneralKey { length, data } => {
            k.push(6);
            k.push(*length as u128);
            push_bytes(k, data);
        },
        Junction::OnlyChild => {
            k.push(7);
        },
        Junction::Plurality { id, part } => {
            k.push(8);
            let ghost k1 = ints(k@);
            push_body_id_key(k, id);
            push_body_part_key(k, part);
            proof {
                assert(k1 =~= start + seq![8int]);
                assert(ints(k@) =~= start + (seq![8int] + body_id_key(*id) + body_part_key(*part)));
            }
        },
        Junction::GlobalConsensus(n) => {
            k.push(9);
            push_network_key(k, n);
        },
    }
    proof {
        assert(ints(k@) =~= start + junction_key(*j));
    }
}

/// Whether two junctions are the same.
pub fn junction_eq(a: &Junction, b: &Junction) -> (r: bool)
    ensures
        r == (*a == *b),
{
    let mut ka: Vec<u128> = Vec::new();
    push_junction_key(&mut ka, a);
    let mut kb: Vec<u128> = Vec::new();
    push_junction_key(&mut kb, b);
    proof {
        assert(ints(ka@) =~= junction_key(*a));
        assert(ints(kb@) =~= junction_key(*b));
        if *a != *b {
            lemma_junction_key_separated(*a, *b);
        }
    }
    keys_equal(&ka, &kb)
}

impl Clone for MultiLocation {
    fn clone(&self) -> (r: Self)
        ensures
            r@ == self@,
    {
        let r = MultiLocation { parents: self.parents, interior: self.interior.clone() };
        proof {
            assert(r.interior@ =~= self.interior@);
        }
        r
    }
}

impl MultiLocation {
    /// A location `parents` steps up and then down along `interior`.
    pub fn new(parents: u8, interior: Vec<Junction>) -> (r: Self)
        ensures
            r.parents == parents,
            r.interior@ == interior@,
    {
        MultiLocation { parents, interior }
    }

    /// The current location.
    pub fn here() -> (r: Self)
        ensures
            r@ == (LocationModel { parents: 0, interior: seq![] }),
    {
        let r = MultiLocation { parents: 0, interior: Vec::new() };
        proof {
            assert(r@.interior =~= Seq::<Junction>::empty());
        }
        r
    }

    /// The location one step up.
    pub fn parent() -> (r: Self)
        ensures
            r@ == (LocationModel { parents: 1, interior: seq![] }),
    {
        let r = MultiLocation { parents: 1, interior: Vec::new() };
        proof {
            assert(r@.interior =~= Seq::<Junction>::empty());
        }
        r
    }

    /// The sort key of this location.
    pub fn key(&self) -> (k: Vec<u128>)
        ensures
            ints(k@) == location_key(self@),
    {
        let mut k: Vec<u128> = Vec::new();
        push_location_key(&mut k, self);
        proof {
            assert(ints(k@) =~= location_key(self@));
        }
        k
    }

    /// Prepends `prefix` to this location, giving it a new root. On failure
    /// the location is left as it was.
    pub fn prepend_with(&mut self, prefix: &MultiLocation) -> (r: Result<(), ()>)
        ensures
            match prepended(old(self)@, prefix@) {
                Some(l) => r is Ok && final(self)@ == l,
                None => r is Err && final(self)@ == old(self)@,
            },
    {
        let plen = prefix.interior.len();
        let cancelled: usize = if (self.parents as usize) < plen {
            self.parents as usize
        } else {
            plen
        };
        let kept = plen - cancelled;
        if self.interior.len() > MAX_JUNCTIONS || kept > MAX_JUNCTIONS - self.interior.len() {
            return Err(());
        }
        let parents: usize = prefix.parents as usize + (self.parents as usize - cancelled);
        if parents > 255 {
            return Err(());
        }
        let mut interior: Vec<Junction> = Vec::new();
        let mut i: usize = 0;
        while i < kept
            invariant
                kept <= plen == prefix.interior.len(),
                i <= kept,
                interior@ == prefix.interior@.subrange(0, i as int),
            decreases kept - i,
        {
            interior.push(prefix.interior[i]);
            i += 1;
            proof {
                assert(interior@ =~= prefix.interior@.subrange(0, i as int));
            }
        }
        let mut j: usize = 0;
        while j < self.interior.len()
            invariant
                interior@ == prefix.interior@.subrange(0, kept as int) + self.interior@.subrange(
                    0,
                    j as int,
                ),
                j <= self.interior.len(),
            decreases self.interior.len() - j,
        {
            interior.push(self.interior[j]);
            j += 1;
            proof {
                assert(interior@ =~= prefix.interior@.subrange(0, kept as int)
                    + self.interior@.subrange(0, j as int));
            }
        }
        proof {
            assert(self.interior@.subrange(0, j as int) =~= self.interior@);
        }
        self.parents = parents as u8;
        self.interior = interior;
        Ok(())
    }

    /// Drops leading parents that `context` shows to be unneeded.
    pub fn simplify(&mut self, context: &Vec<Junction>)
        ensures
            final(self)@ == simplified(old(self)@, context@),
    {
        if context.len() < self.parents as usize {
            return;
        }
        while self.parents > 0
            invariant
                simplified(self@, context@) == simplified(old(self)@, context@),
                context.len() >= self.parents,
            decreases self.parents,
        {
            if self.interior.len() == 0 {
                return;
            }
            let at = context.len() - self.parents as usize;
            if !junction_eq(&self.interior[0], &context[at]) {
                return;
            }
            let ghost prev = self@;
            self.interior.remove(0);
            self.parents = self.parents - 1;
            proof {
                assert(self.interior@ =~= prev.interior.drop_first());
            }
        }
    }

    /// Re-expresses this location as `target` sees it, where `context` is the
    /// local consensus system's path from the root. On failure the location
    /// is left as it was.
    pub fn reanchor(&mut self, target: &MultiLocation, context: &Vec<Junction>) -> (r: Result<
        (),
        (),
    >)
        ensures
            match reanchored(old(self)@, target@, context@) {
                Some(l) => r is Ok && final(self)@ == l,
                None => r is Err && final(self)@ == old(self)@,
            },
    {
        let inverted = match invert_target(context, target) {
            Ok(l) => l,
            Err(()) => return Err(()),
        };
        match self.prepend_with(&inverted) {
            Ok(()) => {},
            Err(()) => return Err(()),
        }
        self.simplify(&target.interior);
        Ok(())
    }
}

fn push_location_key(k: &mut Vec<u128>, l: &MultiLocation)
    ensures
        ints(final(k)@) == ints(old(k)@) + location_key(l@),
{
    let ghost start = ints(k@);
    k.push(l.parents as u128);
    k.push(l.interior.len() as u128);
    proof {
        assert(ints(k@) =~= start + seq![l.parents as int, l.interior.len() as int]);
    }
    let mut i: usize = 0;
    while i < l.interior.len()
        invariant
            i <= l.interior.len(),
            ints(k@) == start + seq![l.parents as int, l.interior.len() as int] + junctions_key(
                l.interior@.subrange(0, i as int),
            ),
        decreases l.interior.len() - i,
    {
        push_junction_key(k, &l.interior[i]);
        i += 1;
        proof {
            let s = l.interior@.subrange(0, i as int);
            assert(s.drop_last() =~= l.interior@.subrange(0, i - 1));
        }
    }
    proof {
        assert(l.interior@.subrange(0, i as int) =~= l.interior@);
        assert(ints(k@) =~= ints(old(k)@) + location_key(l@));
    }
}

/// Where the local consensus system at `context` is, as seen from `target`.
pub fn invert_target(context: &Vec<Junction>, target: &MultiLocation) -> (r: Result<
    MultiLocation,
    (),
>)
    ensures
        match inverted(context@, target@) {
            Some(l) => r is Ok && r->Ok_0@ == l,
            None => r is Err,
        },
{
    let up = target.parents as usize;
    if up > MAX_JUNCTIONS || target.interior.len() > MAX_JUNCTIONS {
        return Err(());
    }
    let c = context.len();
    let mut interior: Vec<Junction> = Vec::new();
    let ghost want = if up <= c {
        context@.subrange(c - up, c as int)
    } else {
        Seq::new((up - c) as nat, |i: int| Junction::OnlyChild) + context@
    };
    let mut i: usize = 0;
    while i < up
        invariant
            up <= MAX_JUNCTIONS,
            c == context.len(),
            i <= up,
            want.len() == up,
            want == (if up <= c {
                context@.subrange(c - up, c as int)
            } else {
                Seq::new((up - c) as nat, |i: int| Junction::OnlyChild) + context@
            }),
            interior@ == want.subrange(0, i as int),
        decreases up - i,
    {
        if c < up && i < up - c {
            interior.push(Junction::OnlyChild);
        } else if c >= up {
            interior.push(context[c - up + i]);
        } else {
            interior.push(context[i - (up - c)]);
        }
        i += 1;
        proof {
            assert(interior@ =~= want.subrange(0, i as int));
        }
    }
    proof {
        assert(interior@ =~= want);
    }
    Ok(MultiLocation { parents: target.interior.len() as u8, interior })
}

} // verus!

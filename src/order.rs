//! The order in which the holding register keeps its entries: each key is
//! written as a sequence of numbers, field by field at fixed widths, and keys
//! compare as those sequences do, lexicographically.
use vstd::prelude::*;

use crate::asset::AssetInstance;
use crate::location::{BodyId, BodyPart, Junction, Location, NetworkId};

verus! {

/// `n` zeros.
pub open spec fn zeros(n: nat) -> Seq<u128> {
    Seq::new(n, |i: int| 0u128)
}

/// The bytes of `a`, one number each.
pub open spec fn bytes_code<const N: usize>(a: [u8; N]) -> Seq<u128> {
    Seq::new(N as nat, |i: int| a[i] as u128)
}

/// A network, in two numbers.
pub open spec fn network_code(n: NetworkId) -> Seq<u128> {
    match n {
        NetworkId::Polkadot => seq![0u128, 0u128],
        NetworkId::Kusama => seq![1u128, 0u128],
        NetworkId::Westend => seq![2u128, 0u128],
        NetworkId::Rococo => seq![3u128, 0u128],
        NetworkId::Wococo => seq![4u128, 0u128],
        NetworkId::Ethereum { chain_id } => seq![5u128, chain_id as u128],
        NetworkId::BitcoinCore => seq![6u128, 0u128],
        NetworkId::BitcoinCash => seq![7u128, 0u128],
        NetworkId::PolkadotBulletin => seq![8u128, 0u128],
    }
}

/// An optional network, in three numbers; none comes first.
pub open spec fn opt_network_code(o: Option<NetworkId>) -> Seq<u128> {
    match o {
        None => seq![0u128, 0u128, 0u128],
        Some(n) => seq![1u128] + network_code(n),
    }
}

/// A body, in two numbers.
pub open spec fn body_id_code(b: BodyId) -> Seq<u128> {
    match b {
        BodyId::Unit => seq![0u128, 0u128],
        BodyId::Index(i) => seq![1u128, i as u128],
        BodyId::Executive => seq![2u128, 0u128],
        BodyId::Technical => seq![3u128, 0u128],
        BodyId::Legislative => seq![4u128, 0u128],
        BodyId::Judicial => seq![5u128, 0u128],
        BodyId::Defense => seq![6u128, 0u128],
        BodyId::Administration => seq![7u128, 0u128],
        BodyId::Treasury => seq![8u128, 0u128],
    }
}

/// A body part, in three numbers.
pub open spec fn body_part_code(p: BodyPart) -> Seq<u128> {
    match p {
        BodyPart::Voice => seq![0u128, 0u128, 0u128],
        BodyPart::Members { count } => seq![1u128, count as u128, 0u128],
        BodyPart::Fraction { nom, denom } => seq![2u128, nom as u128, denom as u128],
        BodyPart::AtLeastProportion { nom, denom } => seq![3u128, nom as u128, denom as u128],
        BodyPart::MoreThanProportion { nom, denom } => seq![4u128, nom as u128, denom as u128],
    }
}


/// A junction, in 36 numbers: its kind, then its fields in order.
pub open spec fn junction_code(j: Junction) -> Seq<u128> {
    match j {
        Junction::Parachain(id) => seq![0u128, id as u128] + zeros(34),
        Junction::AccountId32 { network, id } => seq![1u128] + opt_network_code(network) + bytes_code(id),
        Junction::AccountIndex64 { network, index } => seq![2u128] + opt_network_code(network) + seq![
            index as u128,
        ] + zeros(31),
        Junction::AccountKey20 { network, key } => seq![3u128] + opt_network_code(network) + bytes_code(key)
            + zeros(12),
        Junction::PalletInstance(i) => seq![4u128, i as u128] + zeros(34),
        Junction::GeneralIndex(i) => seq![5u128, i] + zeros(34),
        Junction::OnlyChild => seq![6u128] + zeros(35),
        Junction::Plurality { id, part } => seq![7u128] + body_id_code(id) + body_part_code(part) + zeros(30),
        Junction::GlobalConsensus(n) => seq![8u128] + network_code(n) + zeros(33),
    }
}

/// The junctions of `s`, coded one after another.
pub open spec fn junctions_code(s: Seq<Junction>) -> Seq<u128>
    decreases s.len(),
{
    if s.len() == 0 {
        Seq::empty()
    } else {
        junctions_code(s.drop_last()) + junction_code(s.last())
    }
}

/// A location: its parents, its number of junctions, then the junctions.
pub open spec fn location_code(l: Location) -> Seq<u128> {
    seq![l.parents as u128, l.interior@.len() as u128] + junctions_code(l.interior@)
}

/// An instance, in 33 numbers: its kind, then its value.
pub open spec fn instance_code(i: AssetInstance) -> Seq<u128> {
    match i {
        AssetInstance::Undefined => seq![0u128] + zeros(32),
        AssetInstance::Index(n) => seq![1u128, n] + zeros(31),
        AssetInstance::Array4(a) => seq![2u128] + bytes_code(a) + zeros(28),
        AssetInstance::Array8(a) => seq![3u128] + bytes_code(a) + zeros(24),
        AssetInstance::Array16(a) => seq![4u128] + bytes_code(a) + zeros(16),
        AssetInstance::Array32(a) => seq![5u128] + bytes_code(a),
    }
}

/// Lexicographic order: `a` comes strictly before `b`.
pub open spec fn lex_lt(a: Seq<u128>, b: Seq<u128>) -> bool
    decreases a.len(),
{
    if a.len() == 0 {
        b.len() > 0
    } else if b.len() == 0 {
        false
    } else if a[0] != b[0] {
        a[0] < b[0]
    } else {
        lex_lt(a.drop_first(), b.drop_first())
    }
}

/// `a` comes no later than `b`.
pub open spec fn lex_le(a: Seq<u128>, b: Seq<u128>) -> bool {
    !lex_lt(b, a)
}

/// Of two sequences one comes first, unless they are equal; never both.
pub proof fn lemma_lex_total(a: Seq<u128>, b: Seq<u128>)
    ensures
        lex_lt(a, b) || lex_lt(b, a) || a == b,
        !(lex_lt(a, b) && lex_lt(b, a)),
    decreases a.len(),
{
    if a.len() > 0 && b.len() > 0 && a[0] == b[0] {
        lemma_lex_total(a.drop_first(), b.drop_first());
        if a.drop_first() == b.drop_first() {
            assert(a =~= seq![a[0]] + a.drop_first());
            assert(b =~= seq![b[0]] + b.drop_first());
        }
    } else if a.len() == 0 && b.len() == 0 {
        assert(a =~= b);
    }
}

/// Strict order is transitive.
pub proof fn lemma_lex_trans(a: Seq<u128>, b: Seq<u128>, c: Seq<u128>)
    requires
        lex_lt(a, b),
        lex_lt(b, c),
    ensures
        lex_lt(a, c),
    decreases a.len(),
{
    if a.len() > 0 && b.len() > 0 && c.len() > 0 && a[0] == b[0] && b[0] == c[0] {
        lemma_lex_trans(a.drop_first(), b.drop_first(), c.drop_first());
    }
}

/// Non-strict order is transitive.
pub proof fn lemma_lex_le_trans(a: Seq<u128>, b: Seq<u128>, c: Seq<u128>)
    requires
        lex_le(a, b),
        lex_le(b, c),
    ensures
        lex_le(a, c),
{
    lemma_lex_total(a, b);
    lemma_lex_total(b, c);
    lemma_lex_total(a, c);
    if lex_lt(c, a) {
        if lex_lt(a, b) {
            lemma_lex_trans(c, a, b);
        }
    }
}

/// Whether `a` comes strictly before `b`, lexicographically.
pub fn lex_less(a: &Vec<u128>, b: &Vec<u128>) -> (r: bool)
    ensures
        r == lex_lt(a@, b@),
{
    let mut i: usize = 0;
    assert(a@.subrange(0, a@.len() as int) =~= a@);
    assert(b@.subrange(0, b@.len() as int) =~= b@);
    while i < a.len() && i < b.len() && a[i] == b[i]
        invariant
            i <= a@.len(),
            i <= b@.len(),
            lex_lt(a@, b@) == lex_lt(a@.subrange(i as int, a@.len() as int), b@.subrange(i as int, b@.len() as int)),
        decreases a@.len() - i,
    {
        proof {
            let sa = a@.subrange(i as int, a@.len() as int);
            let sb = b@.subrange(i as int, b@.len() as int);
            assert(sa.drop_first() =~= a@.subrange(i + 1, a@.len() as int));
            assert(sb.drop_first() =~= b@.subrange(i + 1, b@.len() as int));
        }
        i = i + 1;
    }
    let ghost sa = a@.subrange(i as int, a@.len() as int);
    let ghost sb = b@.subrange(i as int, b@.len() as int);
    if i == a.len() {
        i < b.len()
    } else if i == b.len() {
        false
    } else {
        assert(sa[0] == a@[i as int] && sb[0] == b@[i as int]);
        a[i] < b[i]
    }
}

fn push_zeros(v: &mut Vec<u128>, n: usize)
    ensures
        final(v)@ == old(v)@ + zeros(n as nat),
{
    let ghost start = v@;
    let mut i: usize = 0;
    while i < n
        invariant
            i <= n,
            v@ == start + zeros(i as nat),
        decreases n - i,
    {
        v.push(0);
        i = i + 1;
        proof {
            assert(v@ =~= start + zeros(i as nat));
        }
    }
}

fn push_bytes<const N: usize>(v: &mut Vec<u128>, a: &[u8; N])
    ensures
        final(v)@ == old(v)@ + bytes_code(*a),
{
    broadcast use vstd::array::group_array_axioms;
    let ghost start = v@;
    let mut i: usize = 0;
    while i < N
        invariant
            i <= N,
            v@ == start + bytes_code(*a).subrange(0, i as int),
        decreases N - i,
    {
        v.push(a[i] as u128);
        i = i + 1;
        proof {
            assert(v@ =~= start + bytes_code(*a).subrange(0, i as int));
        }
    }
    proof {
        assert(bytes_code(*a).subrange(0, N as int) =~= bytes_code(*a));
    }
}

fn push_network(v: &mut Vec<u128>, n: NetworkId)
    ensures
        final(v)@ == old(v)@ + network_code(n),
{
    let ghost start = v@;
    match n {
        NetworkId::Polkadot => { v.push(0); v.push(0); },
        NetworkId::Kusama => { v.push(1); v.push(0); },
        NetworkId::Westend => { v.push(2); v.push(0); },
        NetworkId::Rococo => { v.push(3); v.push(0); },
        NetworkId::Wococo => { v.push(4); v.push(0); },
        NetworkId::Ethereum { chain_id } => { v.push(5); v.push(chain_id as u128); },
        NetworkId::BitcoinCore => { v.push(6); v.push(0); },
        NetworkId::BitcoinCash => { v.push(7); v.push(0); },
        NetworkId::PolkadotBulletin => { v.push(8); v.push(0); },
    }
    assert(v@ =~= start + network_code(n));
}

fn push_opt_network(v: &mut Vec<u128>, o: Option<NetworkId>)
    ensures
        final(v)@ == old(v)@ + opt_network_code(o),
{
    let ghost start = v@;
    match o {
        None => {
            v.push(0);
            v.push(0);
            v.push(0);
        },
        Some(n) => {
            v.push(1);
            push_network(v, n);
        },
    }
    assert(v@ =~= start + opt_network_code(o));
}

fn push_body_id(v: &mut Vec<u128>, b: BodyId)
    ensures
        final(v)@ == old(v)@ + body_id_code(b),
{
    let ghost start = v@;
    match b {
        BodyId::Unit => { v.push(0); v.push(0); },
        BodyId::Index(i) => { v.push(1); v.push(i as u128); },
        BodyId::Executive => { v.push(2); v.push(0); },
        BodyId::Technical => { v.push(3); v.push(0); },
        BodyId::Legislative => { v.push(4); v.push(0); },
        BodyId::Judicial => { v.push(5); v.push(0); },
        BodyId::Defense => { v.push(6); v.push(0); },
        BodyId::Administration => { v.push(7); v.push(0); },
        BodyId::Treasury => { v.push(8); v.push(0); },
    }
    assert(v@ =~= start + body_id_code(b));
}

fn push_body_part(v: &mut Vec<u128>, p: BodyPart)
    ensures
        final(v)@ == old(v)@ + body_part_code(p),
{
    let ghost start = v@;
    match p {
        BodyPart::Voice => { v.push(0); v.push(0); v.push(0); },
        BodyPart::Members { count } => { v.push(1); v.push(count as u128); v.push(0); },
        BodyPart::Fraction { nom, denom } => { v.push(2); v.push(nom as u128); v.push(denom as u128); },
        BodyPart::AtLeastProportion { nom, denom } => { v.push(3); v.push(nom as u128); v.push(denom as u128); },
        BodyPart::MoreThanProportion { nom, denom } => { v.push(4); v.push(nom as u128); v.push(denom as u128); },
    }
    assert(v@ =~= start + body_part_code(p));
}

fn push_junction(v: &mut Vec<u128>, j: &Junction)
    ensures
        final(v)@ == old(v)@ + junction_code(*j),
{
    let ghost start = v@;
    match j {
        Junction::Parachain(id) => {
            v.push(0);
            v.push(*id as u128);
            push_zeros(v, 34);
        },
        Junction::AccountId32 { network, id } => {
            v.push(1);
            push_opt_network(v, *network);
            push_bytes(v, id);
        },
        Junction::AccountIndex64 { network, index } => {
            v.push(2);
            push_opt_network(v, *network);
            v.push(*index as u128);
            push_zeros(v, 31);
        },
        Junction::AccountKey20 { network, key } => {
            v.push(3);
            push_opt_network(v, *network);
            push_bytes(v, key);
            push_zeros(v, 12);
        },
        Junction::PalletInstance(i) => {
            v.push(4);
            v.push(*i as u128);
            push_zeros(v, 34);
        },
        Junction::GeneralIndex(i) => {
            v.push(5);
            v.push(*i);
            push_zeros(v, 34);
        },
        Junction::OnlyChild => {
            v.push(6);
            push_zeros(v, 35);
        },
        Junction::Plurality { id, part } => {
            v.push(7);
            push_body_id(v, *id);
            push_body_part(v, *part);
            push_zeros(v, 30);
        },
        Junction::GlobalConsensus(n) => {
            v.push(8);
            push_network(v, *n);
            push_zeros(v, 33);
        },
    }
    assert(v@ =~= start + junction_code(*j));
}

/// The code of `l`.
pub fn location_code_vec(l: &Location) -> (r: Vec<u128>)
    ensures
        r@ == location_code(*l),
{
    let mut v: Vec<u128> = Vec::new();
    let n = l.interior.len();
    v.push(l.parents as u128);
    v.push(n as u128);
    let ghost head = v@;
    let mut i: usize = 0;
    while i < n
        invariant
            i <= n,
            n == l.interior@.len(),
            head == seq![l.parents as u128, n as u128],
            v@ == head + junctions_code(l.interior@.subrange(0, i as int)),
        decreases n - i,
    {
        let j = l.interior.at(i).unwrap();
        push_junction(&mut v, &j);
        proof {
            assert(l.interior@.subrange(0, i + 1).drop_last() =~= l.interior@.subrange(0, i as int));
        }
        i = i + 1;
        proof {
            assert(v@ =~= head + junctions_code(l.interior@.subrange(0, i as int)));
        }
    }
    proof {
        assert(l.interior@.subrange(0, n as int) =~= l.interior@);
    }
    v
}

/// The code of `i`.
pub fn instance_code_vec(i: &AssetInstance) -> (r: Vec<u128>)
    ensures
        r@ == instance_code(*i),
{
    let mut v: Vec<u128> = Vec::new();
    match i {
        AssetInstance::Undefined => {
            v.push(0);
            push_zeros(&mut v, 32);
        },
        AssetInstance::Index(n) => {
            v.push(1);
            v.push(*n);
            push_zeros(&mut v, 31);
        },
        AssetInstance::Array4(a) => {
            v.push(2);
            push_bytes(&mut v, a);
            push_zeros(&mut v, 28);
        },
        AssetInstance::Array8(a) => {
            v.push(3);
            push_bytes(&mut v, a);
            push_zeros(&mut v, 24);
        },
        AssetInstance::Array16(a) => {
            v.push(4);
            push_bytes(&mut v, a);
            push_zeros(&mut v, 16);
        },
        AssetInstance::Array32(a) => {
            v.push(5);
            push_bytes(&mut v, a);
        },
    }
    assert(v@ =~= instance_code(*i));
    v
}

} // verus!

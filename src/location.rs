//! Addresses of consensus systems and of entities inside them.
use vstd::prelude::*;

use crate::error::XcmError;

verus! {

/// The most junctions a location's interior may hold.
pub const MAX_JUNCTIONS: usize = 8;

/// A global identifier of a consensus system.
#[derive(Clone, Copy, Debug, PartialEq, Eq, Structural)]
pub enum NetworkId {
    Polkadot,
    Kusama,
    Westend,
    Rococo,
    Wococo,
    Ethereum { chain_id: u64 },
    BitcoinCore,
    BitcoinCash,
    PolkadotBulletin,
}

/// An identifier of a pluralistic body.
#[derive(Clone, Copy, Debug, PartialEq, Eq, Structural)]
pub enum BodyId {
    Unit,
    Index(u32),
    Executive,
    Technical,
    Legislative,
    Judicial,
    Defense,
    Administration,
    Treasury,
}

/// A part of a pluralistic body.
#[derive(Clone, Copy, Debug, PartialEq, Eq, Structural)]
pub enum BodyPart {
    Voice,
    Members { count: u32 },
    Fraction { nom: u32, denom: u32 },
    AtLeastProportion { nom: u32, denom: u32 },
    MoreThanProportion { nom: u32, denom: u32 },
}

/// One addressing step inside a location.
#[derive(Clone, Copy, Debug, PartialEq, Eq)]
pub enum Junction {
    Parachain(u32),
    AccountId32 { network: Option<NetworkId>, id: [u8; 32] },
    AccountIndex64 { network: Option<NetworkId>, index: u64 },
    AccountKey20 { network: Option<NetworkId>, key: [u8; 20] },
    PalletInstance(u8),
    GeneralIndex(u128),
    OnlyChild,
    Plurality { id: BodyId, part: BodyPart },
    GlobalConsensus(NetworkId),
}

/// Byte-wise equality of two fixed-size byte arrays.
pub fn bytes_eq<const N: usize>(a: &[u8; N], b: &[u8; N]) -> (r: bool)
    ensures
        r == (*a == *b),
{
    broadcast use vstd::array::group_array_axioms;
    let mut i: usize = 0;
    while i < N
        invariant
            i <= N,
            forall|k: int| 0 <= k < i ==> a[k] == b[k],
        decreases N - i,
    {
        if a[i] != b[i] {
            return false;
        }
        i = i + 1;
    }
    assert(*a =~= *b);
    true
}

impl Junction {
    /// Whether two junctions are the same step.
    pub fn same_as(&self, other: &Junction) -> (r: bool)
        ensures
            r == (*self == *other),
    {
        match (self, other) {
            (Junction::Parachain(a), Junction::Parachain(b)) => *a == *b,
            (
                Junction::AccountId32 { network: na, id: a },
                Junction::AccountId32 { network: nb, id: b },
            ) => *na == *nb && bytes_eq(a, b),
            (
                Junction::AccountIndex64 { network: na, index: a },
                Junction::AccountIndex64 { network: nb, index: b },
            ) => *na == *nb && *a == *b,
            (
                Junction::AccountKey20 { network: na, key: a },
                Junction::AccountKey20 { network: nb, key: b },
            ) => *na == *nb && bytes_eq(a, b),
            (Junction::PalletInstance(a), Junction::PalletInstance(b)) => *a == *b,
            (Junction::GeneralIndex(a), Junction::GeneralIndex(b)) => *a == *b,
            (Junction::OnlyChild, Junction::OnlyChild) => true,
            (Junction::Plurality { id: ia, part: pa }, Junction::Plurality { id: ib, part: pb }) =>
                *ia == *ib && *pa == *pb,
            (Junction::GlobalConsensus(a), Junction::GlobalConsensus(b)) => *a == *b,
            _ => false,
        }
    }
}

/// The interior of a location: at most eight junctions, outermost first.
#[derive(Clone, Copy, Debug, PartialEq, Eq)]
pub enum Junctions {
    Here,
    X1(Junction),
    X2(Junction, Junction),
    X3(Junction, Junction, Junction),
    X4(Junction, Junction, Junction, Junction),
    X5(Junction, Junction, Junction, Junction, Junction),
    X6(Junction, Junction, Junction, Junction, Junction, Junction),
    X7(Junction, Junction, Junction, Junction, Junction, Junction, Junction),
    X8(Junction, Junction, Junction, Junction, Junction, Junction, Junction, Junction),
}

/// The junctions of a sequence of at most eight, as an interior.
pub open spec fn junctions_of(s: Seq<Junction>) -> Junctions
    recommends
        s.len() <= MAX_JUNCTIONS,
{
    if s.len() == 0 {
        Junctions::Here
    } else if s.len() == 1 {
        Junctions::X1(s[0])
    } else if s.len() == 2 {
        Junctions::X2(s[0], s[1])
    } else if s.len() == 3 {
        Junctions::X3(s[0], s[1], s[2])
    } else if s.len() == 4 {
        Junctions::X4(s[0], s[1], s[2], s[3])
    } else if s.len() == 5 {
        Junctions::X5(s[0], s[1], s[2], s[3], s[4])
    } else if s.len() == 6 {
        Junctions::X6(s[0], s[1], s[2], s[3], s[4], s[5])
    } else if s.len() == 7 {
        Junctions::X7(s[0], s[1], s[2], s[3], s[4], s[5], s[6])
    } else {
        Junctions::X8(s[0], s[1], s[2], s[3], s[4], s[5], s[6], s[7])
    }
}

impl View for Junctions {
    type V = Seq<Junction>;

    open spec fn view(&self) -> Seq<Junction> {
        match *self {
            Junctions::Here => seq![],
            Junctions::X1(a) => seq![a],
            Junctions::X2(a, b) => seq![a, b],
            Junctions::X3(a, b, c) => seq![a, b, c],
            Junctions::X4(a, b, c, d) => seq![a, b, c, d],
            Junctions::X5(a, b, c, d, e) => seq![a, b, c, d, e],
            Junctions::X6(a, b, c, d, e, f) => seq![a, b, c, d, e, f],
            Junctions::X7(a, b, c, d, e, f, g) => seq![a, b, c, d, e, f, g],
            Junctions::X8(a, b, c, d, e, f, g, h) => seq![a, b, c, d, e, f, g, h],
        }
    }
}

/// An interior is determined by its sequence of junctions.
pub proof fn lemma_junctions_of_view(j: Junctions)
    ensures
        j@.len() <= MAX_JUNCTIONS,
        junctions_of(j@) == j,
{
}

/// Two interiors with the same junctions are equal.
pub proof fn lemma_junctions_view_injective(a: Junctions, b: Junctions)
    ensures
        a@ == b@ <==> a == b,
{
    lemma_junctions_of_view(a);
    lemma_junctions_of_view(b);
}

impl Junctions {
    /// The number of junctions.
    pub fn len(&self) -> (r: usize)
        ensures
            r == self@.len(),
            r <= MAX_JUNCTIONS,
    {
        match self {
            Junctions::Here => 0,
            Junctions::X1(..) => 1,
            Junctions::X2(..) => 2,
            Junctions::X3(..) => 3,
            Junctions::X4(..) => 4,
            Junctions::X5(..) => 5,
            Junctions::X6(..) => 6,
            Junctions::X7(..) => 7,
            Junctions::X8(..) => 8,
        }
    }

    /// The junction at position `i`, outermost first.
    pub fn at(&self, i: usize) -> (r: Option<Junction>)
        ensures
            i < self@.len() ==> r == Some(self@[i as int]),
            i >= self@.len() ==> r is None,
    {
        match *self {
            Junctions::Here => None,
            Junctions::X1(a) => if i == 0 { Some(a) } else { None },
            Junctions::X2(a, b) => if i == 0 { Some(a) } else if i == 1 { Some(b) } else { None },
            Junctions::X3(a, b, c) => if i == 0 { Some(a) } else if i == 1 { Some(b) } else if i == 2 { Some(c) } else { None },
            Junctions::X4(a, b, c, d) => if i == 0 { Some(a) } else if i == 1 { Some(b) } else if i == 2 { Some(c) } else if i == 3 { Some(d) } else { None },
            Junctions::X5(a, b, c, d, e) => if i == 0 { Some(a) } else if i == 1 { Some(b) } else if i == 2 { Some(c) } else if i == 3 { Some(d) } else if i == 4 { Some(e) } else { None },
            Junctions::X6(a, b, c, d, e, f) => if i == 0 { Some(a) } else if i == 1 { Some(b) } else if i == 2 { Some(c) } else if i == 3 { Some(d) } else if i == 4 { Some(e) } else if i == 5 { Some(f) } else { None },
            Junctions::X7(a, b, c, d, e, f, g) => if i == 0 { Some(a) } else if i == 1 { Some(b) } else if i == 2 { Some(c) } else if i == 3 { Some(d) } else if i == 4 { Some(e) } else if i == 5 { Some(f) } else if i == 6 { Some(g) } else { None },
            Junctions::X8(a, b, c, d, e, f, g, h) => if i == 0 { Some(a) } else if i == 1 { Some(b) } else if i == 2 { Some(c) } else if i == 3 { Some(d) } else if i == 4 { Some(e) } else if i == 5 { Some(f) } else if i == 6 { Some(g) } else if i == 7 { Some(h) } else { None },
        }
    }

    /// The last (innermost) junction, if any.
    pub fn last(&self) -> (r: Option<Junction>)
        ensures
            self@.len() == 0 ==> r is None,
            self@.len() > 0 ==> r == Some(self@.last()),
    {
        let n = self.len();
        if n == 0 {
            None
        } else {
            self.at(n - 1)
        }
    }

    /// The first (outermost) junction, if any.
    pub fn first(&self) -> (r: Option<Junction>)
        ensures
            self@.len() == 0 ==> r is None,
            self@.len() > 0 ==> r == Some(self@[0]),
    {
        self.at(0)
    }

    /// These junctions with `j` added at the inner end, or `Err(j)` when eight are held already.
    pub fn pushed_with(self, j: Junction) -> (r: Result<Junctions, Junction>)
        ensures
            self@.len() < MAX_JUNCTIONS ==> (r matches Ok(n) && n@ == self@.push(j)),
            self@.len() >= MAX_JUNCTIONS ==> r == Err::<Junctions, Junction>(j),
    {
        match self {
            Junctions::Here => Ok(Junctions::X1(j)),
            Junctions::X1(a) => Ok(Junctions::X2(a, j)),
            Junctions::X2(a, b) => Ok(Junctions::X3(a, b, j)),
            Junctions::X3(a, b, c) => Ok(Junctions::X4(a, b, c, j)),
            Junctions::X4(a, b, c, d) => Ok(Junctions::X5(a, b, c, d, j)),
            Junctions::X5(a, b, c, d, e) => Ok(Junctions::X6(a, b, c, d, e, j)),
            Junctions::X6(a, b, c, d, e, f) => Ok(Junctions::X7(a, b, c, d, e, f, j)),
            Junctions::X7(a, b, c, d, e, f, g) => Ok(Junctions::X8(a, b, c, d, e, f, g, j)),
            Junctions::X8(..) => Err(j),
        }
    }

    /// These junctions with `j` added at the outer end, or `Err(j)` when eight are held already.
    pub fn pushed_front_with(self, j: Junction) -> (r: Result<Junctions, Junction>)
        ensures
            self@.len() < MAX_JUNCTIONS ==> (r matches Ok(n) && n@ == seq![j] + self@),
            self@.len() >= MAX_JUNCTIONS ==> r == Err::<Junctions, Junction>(j),
    {
        let r = match self {
            Junctions::Here => Ok(Junctions::X1(j)),
            Junctions::X1(a) => Ok(Junctions::X2(j, a)),
            Junctions::X2(a, b) => Ok(Junctions::X3(j, a, b)),
            Junctions::X3(a, b, c) => Ok(Junctions::X4(j, a, b, c)),
            Junctions::X4(a, b, c, d) => Ok(Junctions::X5(j, a, b, c, d)),
            Junctions::X5(a, b, c, d, e) => Ok(Junctions::X6(j, a, b, c, d, e)),
            Junctions::X6(a, b, c, d, e, f) => Ok(Junctions::X7(j, a, b, c, d, e, f)),
            Junctions::X7(a, b, c, d, e, f, g) => Ok(Junctions::X8(j, a, b, c, d, e, f, g)),
            Junctions::X8(..) => Err(j),
        };
        proof {
            if let Ok(n) = r {
                assert(n@ =~= seq![j] + self@);
            }
        }
        r
    }

    /// These junctions without the innermost one, and that junction.
    pub fn split_last(self) -> (r: (Junctions, Option<Junction>))
        ensures
            self@.len() == 0 ==> r.0 == self && r.1 is None,
            self@.len() > 0 ==> r.0@ == self@.drop_last() && r.1 == Some(self@.last()),
    {
        let r = match self {
            Junctions::Here => (Junctions::Here, None),
            Junctions::X1(a) => (Junctions::Here, Some(a)),
            Junctions::X2(a, b) => (Junctions::X1(a), Some(b)),
            Junctions::X3(a, b, c) => (Junctions::X2(a, b), Some(c)),
            Junctions::X4(a, b, c, d) => (Junctions::X3(a, b, c), Some(d)),
            Junctions::X5(a, b, c, d, e) => (Junctions::X4(a, b, c, d), Some(e)),
            Junctions::X6(a, b, c, d, e, f) => (Junctions::X5(a, b, c, d, e), Some(f)),
            Junctions::X7(a, b, c, d, e, f, g) => (Junctions::X6(a, b, c, d, e, f), Some(g)),
            Junctions::X8(a, b, c, d, e, f, g, h) => (Junctions::X7(a, b, c, d, e, f, g), Some(h)),
        };
        proof {
            if self@.len() > 0 {
                assert(r.0@ =~= self@.drop_last());
            }
        }
        r
    }

    /// These junctions without the outermost one, and that junction.
    pub fn split_first(self) -> (r: (Junctions, Option<Junction>))
        ensures
            self@.len() == 0 ==> r.0 == self && r.1 is None,
            self@.len() > 0 ==> r.0@ == self@.drop_first() && r.1 == Some(self@[0]),
    {
        let r = match self {
            Junctions::Here => (Junctions::Here, None),
            Junctions::X1(a) => (Junctions::Here, Some(a)),
            Junctions::X2(a, b) => (Junctions::X1(b), Some(a)),
            Junctions::X3(a, b, c) => (Junctions::X2(b, c), Some(a)),
            Junctions::X4(a, b, c, d) => (Junctions::X3(b, c, d), Some(a)),
            Junctions::X5(a, b, c, d, e) => (Junctions::X4(b, c, d, e), Some(a)),
            Junctions::X6(a, b, c, d, e, f) => (Junctions::X5(b, c, d, e, f), Some(a)),
            Junctions::X7(a, b, c, d, e, f, g) => (Junctions::X6(b, c, d, e, f, g), Some(a)),
            Junctions::X8(a, b, c, d, e, f, g, h) => (Junctions::X7(b, c, d, e, f, g, h), Some(a)),
        };
        proof {
            if self@.len() > 0 {
                assert(r.0@ =~= self@.drop_first());
            }
        }
        r
    }

    /// Whether two interiors hold the same junctions.
    pub fn same_as(&self, other: &Junctions) -> (r: bool)
        ensures
            r == (*self == *other),
    {
        proof {
            lemma_junctions_view_injective(*self, *other);
        }
        let n = self.len();
        if n != other.len() {
            return false;
        }
        let mut i: usize = 0;
        while i < n
            invariant
                n == self@.len(),
                n == other@.len(),
                i <= n,
                forall|k: int| 0 <= k < i ==> self@[k] == other@[k],
            decreases n - i,
        {
            let a = self.at(i).unwrap();
            let b = other.at(i).unwrap();
            if !a.same_as(&b) {
                return false;
            }
            i = i + 1;
        }
        assert(self@ =~= other@);
        true
    }
}

/// A relative address: `parents` hops up, then down through `interior`.
#[derive(Clone, Copy, Debug, PartialEq, Eq)]
pub struct Location {
    pub parents: u8,
    pub interior: Junctions,
}

/// The result of appending `suffix` to `prefix`: the suffix's parents first
/// cancel the prefix's innermost junctions; `None` where the interior would
/// exceed eight junctions or the parents would exceed 255.
pub open spec fn appended(prefix: Location, suffix: Location) -> Option<Location> {
    let n = prefix.interior@.len();
    let k = if (suffix.parents as int) < n { suffix.parents as int } else { n as int };
    let interior = prefix.interior@.subrange(0, n - k) + suffix.interior@;
    let parents = prefix.parents + (suffix.parents - k);
    if interior.len() <= MAX_JUNCTIONS && parents <= 255 {
        Some(Location { parents: parents as u8, interior: junctions_of(interior) })
    } else {
        None
    }
}

impl Location {
    /// A location from its parts.
    pub fn new(parents: u8, interior: Junctions) -> (r: Location)
        ensures
            r == (Location { parents, interior }),
    {
        Location { parents, interior }
    }

    /// The local consensus system itself.
    pub fn here() -> (r: Location)
        ensures
            r == (Location { parents: 0, interior: Junctions::Here }),
    {
        Location { parents: 0, interior: Junctions::Here }
    }

    /// The consensus system one hop up.
    pub fn parent() -> (r: Location)
        ensures
            r == (Location { parents: 1, interior: Junctions::Here }),
    {
        Location { parents: 1, interior: Junctions::Here }
    }

    /// Whether this location denotes the local system itself.
    pub fn is_here(&self) -> (r: bool)
        ensures
            r == (self.parents == 0 && self.interior == Junctions::Here),
    {
        proof {
            lemma_junctions_view_injective(self.interior, Junctions::Here);
        }
        self.parents == 0 && self.interior.len() == 0
    }

    /// Whether two locations are the same address.
    pub fn same_as(&self, other: &Location) -> (r: bool)
        ensures
            r == (*self == *other),
    {
        self.parents == other.parents && self.interior.same_as(&other.interior)
    }

    /// The innermost junction, if any.
    pub fn last(&self) -> (r: Option<Junction>)
        ensures
            self.interior@.len() == 0 ==> r is None,
            self.interior@.len() > 0 ==> r == Some(self.interior@.last()),
    {
        self.interior.last()
    }

    /// Appends `suffix` to this location; on failure leaves it unchanged and
    /// hands `suffix` back.
    pub fn append_with(&mut self, suffix: Location) -> (r: Result<(), Location>)
        ensures
            appended(*old(self), suffix) matches Some(l) ==> r is Ok && *final(self) == l,
            appended(*old(self), suffix) is None ==> r == Err::<(), Location>(suffix)
                && *final(self) == *old(self),
    {
        let n = self.interior.len();
        let k: usize = if (suffix.parents as usize) < n { suffix.parents as usize } else { n };
        let m = suffix.interior.len();
        if n - k + m > MAX_JUNCTIONS || self.parents as usize + (suffix.parents as usize - k) > 255 {
            return Err(suffix);
        }
        let mut interior = self.interior;
        let mut i: usize = 0;
        while i < k
            invariant
                i <= k <= n,
                n == self.interior@.len(),
                interior@ == self.interior@.subrange(0, n - i),
            decreases k - i,
        {
            let (rest, _) = interior.split_last();
            interior = rest;
            i = i + 1;
        }
        let mut j: usize = 0;
        while j < m
            invariant
                j <= m,
                m == suffix.interior@.len(),
                k <= n,
                n == self.interior@.len(),
                n - k + m <= MAX_JUNCTIONS,
                interior@ == self.interior@.subrange(0, n - k) + suffix.interior@.subrange(0, j as int),
            decreases m - j,
        {
            let next = suffix.interior.at(j).unwrap();
            assert(interior@.len() == n - k + j);
            match interior.pushed_with(next) {
                Ok(more) => {
                    interior = more;
                },
                Err(_) => {
                    return Err(suffix);
                },
            }
            proof {
                assert(interior@ =~= self.interior@.subrange(0, n - k) + suffix.interior@.subrange(0, j + 1));
            }
            j = j + 1;
        }
        proof {
            assert(suffix.interior@.subrange(0, m as int) =~= suffix.interior@);
            lemma_junctions_of_view(interior);
        }
        self.parents = (self.parents as usize + (suffix.parents as usize - k)) as u8;
        self.interior = interior;
        Ok(())
    }
}

/// From the point of view of a parachain: the id of `maybe_sibling` if it is a
/// sibling parachain, that is one hop up and then a single parachain junction.
pub fn check_sibling_parachains(maybe_sibling: Location) -> (r: Option<u32>)
    ensures
        r == (match maybe_sibling {
            Location { parents: 1, interior: Junctions::X1(Junction::Parachain(id)) } => Some(id),
            _ => None::<u32>,
        }),
{
    match maybe_sibling {
        Location { parents: 1, interior: Junctions::X1(Junction::Parachain(id)) } => Some(id),
        _ => None,
    }
}

/// The 32-byte account key of `location`'s innermost junction, if that
/// junction is a 32-byte account.
pub fn extract_last_account_id(location: Location) -> (r: Option<[u8; 32]>)
    ensures
        r == (if location.interior@.len() > 0 {
            match location.interior@.last() {
                Junction::AccountId32 { id, .. } => Some(id),
                _ => None::<[u8; 32]>,
            }
        } else {
            None::<[u8; 32]>
        }),
{
    match location.last() {
        Some(Junction::AccountId32 { id, .. }) => Some(id),
        _ => None,
    }
}

/// Appends `who` to `origin`; fails with `LocationFull` when the result would
/// not fit, leaving `origin` unchanged.
pub fn descend_origin(origin: &mut Location, who: Location) -> (r: Result<(), XcmError>)
    ensures
        appended(*old(origin), who) matches Some(l) ==> r is Ok && *final(origin) == l,
        appended(*old(origin), who) is None ==> r == Err::<(), XcmError>(XcmError::LocationFull)
            && *final(origin) == *old(origin),
{
    match origin.append_with(who) {
        Ok(()) => Ok(()),
        Err(_) => Err(XcmError::LocationFull),
    }
}

/// The junctions by which a location `p` hops above a system at universal
/// position `ctx` addresses that system: the innermost `p` junctions of `ctx`,
/// padded at the outer end with `OnlyChild` where `ctx` has fewer.
pub open spec fn inverted_junctions(ctx: Seq<Junction>, p: int) -> Seq<Junction> {
    Seq::new(
        p as nat,
        |m: int|
            if m >= p - ctx.len() {
                ctx[ctx.len() - p + m]
            } else {
                Junction::OnlyChild
            },
    )
}

/// `l` with each leading parent dropped that only climbs out of, and back into,
/// the junction of `ctx` it would re-enter.
pub open spec fn simplified(l: Location, ctx: Seq<Junction>) -> Location
    decreases l.parents,
{
    if l.parents > 0 && ctx.len() >= l.parents && l.interior@.len() > 0 && l.interior@[0] == ctx[ctx.len()
        - l.parents] {
        simplified(
            Location { parents: (l.parents - 1) as u8, interior: junctions_of(l.interior@.drop_first()) },
            ctx,
        )
    } else {
        l
    }
}

/// `l` as seen from `target`, for a local system at universal position `ctx`;
/// `None` where `target` climbs more than eight hops or the result does not fit.
pub open spec fn reanchored(l: Location, target: Location, ctx: Seq<Junction>) -> Option<Location> {
    if target.parents > MAX_JUNCTIONS {
        None
    } else {
        let inverted = Location {
            parents: target.interior@.len() as u8,
            interior: junctions_of(inverted_junctions(ctx, target.parents as int)),
        };
        match appended(inverted, l) {
            Some(m) => Some(simplified(m, target.interior@)),
            None => None,
        }
    }
}

impl Junctions {
    /// How `target` addresses the system whose universal position is these
    /// junctions; fails where `target` climbs more than eight hops.
    pub fn invert_target(&self, target: &Location) -> (r: Result<Location, ()>)
        ensures
            target.parents <= MAX_JUNCTIONS ==> (r matches Ok(l) && l.parents == target.interior@.len()
                && l.interior@ == inverted_junctions(self@, target.parents as int)),
            target.parents > MAX_JUNCTIONS ==> r is Err,
    {
        let ghost ctx = self@;
        let c = self.len();
        let mut itself = *self;
        let mut junctions = Junctions::Here;
        let mut i: u8 = 0;
        while i < target.parents
            invariant
                i <= target.parents,
                c == ctx.len(),
                i <= MAX_JUNCTIONS,
                junctions@ == inverted_junctions(ctx, i as int),
                itself@ == ctx.subrange(0, if i < c { c - i } else { 0 }),
            decreases target.parents - i,
        {
            let (rest, last) = itself.split_last();
            itself = rest;
            let next = match last {
                Some(j) => j,
                None => Junction::OnlyChild,
            };
            match junctions.pushed_front_with(next) {
                Ok(more) => {
                    junctions = more;
                },
                Err(_) => {
                    return Err(());
                },
            }
            proof {
                assert(junctions@ =~= inverted_junctions(ctx, i + 1));
                assert(itself@ =~= ctx.subrange(0, if i + 1 < c { c - i - 1 } else { 0 }));
            }
            i = i + 1;
        }
        Ok(Location::new(target.interior.len() as u8, junctions))
    }
}

impl Location {
    /// Puts `prefix` in front of this location; on failure leaves it
    /// unchanged and hands `prefix` back.
    pub fn prepend_with(&mut self, prefix: Location) -> (r: Result<(), Location>)
        ensures
            appended(prefix, *old(self)) matches Some(l) ==> r is Ok && *final(self) == l,
            appended(prefix, *old(self)) is None ==> r == Err::<(), Location>(prefix)
                && *final(self) == *old(self),
    {
        let mut whole = prefix;
        match whole.append_with(*self) {
            Ok(()) => {
                *self = whole;
                Ok(())
            },
            Err(_) => Err(prefix),
        }
    }

    /// Drops the leading parents that climb out of, and straight back into,
    /// a junction of `context`.
    pub fn simplify(&mut self, context: &Junctions)
        ensures
            *final(self) == simplified(*old(self), context@),
    {
        if context.len() < self.parents as usize {
            return;
        }
        let ghost goal = simplified(*self, context@);
        let mut done = false;
        while self.parents > 0 && !done
            invariant
                context@.len() >= self.parents,
                simplified(*self, context@) == goal,
                done ==> simplified(*self, context@) == *self,
            decreases self.parents, if done { 0int } else { 1int },
        {
            let expected = context.at(context.len() - self.parents as usize);
            match (self.interior.first(), expected) {
                (Some(a), Some(b)) => {
                    if a.same_as(&b) {
                        let (rest, _) = self.interior.split_first();
                        proof {
                            lemma_junctions_of_view(rest);
                        }
                        self.interior = rest;
                        self.parents = self.parents - 1;
                    } else {
                        done = true;
                    }
                },
                _ => {
                    done = true;
                },
            }
        }
    }

    /// Re-expresses this location as `target` would address it, for a local
    /// system at universal position `context`; on failure leaves it unchanged.
    pub fn reanchor(&mut self, target: &Location, context: &Junctions) -> (r: Result<(), ()>)
        ensures
            reanchored(*old(self), *target, context@) matches Some(l) ==> r is Ok && *final(self) == l,
            reanchored(*old(self), *target, context@) is None ==> r is Err && *final(self) == *old(self),
    {
        let inverted = match context.invert_target(target) {
            Ok(l) => l,
            Err(()) => {
                return Err(());
            },
        };
        proof {
            lemma_junctions_of_view(inverted.interior);
        }
        match self.prepend_with(inverted) {
            Ok(()) => {},
            Err(_) => {
                return Err(());
            },
        }
        self.simplify(&target.interior);
        Ok(())
    }
}

} // verus!

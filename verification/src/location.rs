//! Relative locations of consensus systems, as XCM version 3 writes them, and the
//! split of a location into the chain it names and the part inside that chain.

use crate::bytes::{Bytes20, Bytes32, Bytes4};
use vstd::prelude::*;

verus! {

/// A global identifier of a consensus network.
#[derive(Clone, Copy, PartialEq, Eq, Structural, Debug)]
pub enum NetworkId {
    ByGenesis(Bytes32),
    ByFork { block_number: u64, block_hash: Bytes32 },
    Polkadot,
    Kusama,
    Westend,
    Rococo,
    Wococo,
    Ethereum { chain_id: u64 },
    BitcoinCore,
    BitcoinCash,
    PolkadotBulletin,
}

/// An identifier of a pluralistic body.
#[derive(Clone, Copy, PartialEq, Eq, Structural, Debug)]
pub enum BodyId {
    Unit,
    Moniker(Bytes4),
    Index(u32),
    Executive,
    Technical,
    Legislative,
    Judicial,
    Defense,
    Administration,
    Treasury,
}

/// A part of a pluralistic body.
#[derive(Clone, Copy, PartialEq, Eq, Structural, Debug)]
pub enum BodyPart {
    Voice,
    Members { count: u32 },
    Fraction { nom: u32, denom: u32 },
    AtLeastProportion { nom: u32, denom: u32 },
    MoreThanProportion { nom: u32, denom: u32 },
}

/// One step of a path from a context to a consensus system inside it.
#[derive(Clone, Copy, PartialEq, Eq, Structural, Debug)]
#[allow(inconsistent_fields)]
pub enum Junction {
    Parachain(u32),
    AccountId32 { network: Option<NetworkId>, id: Bytes32 },
    AccountIndex64 { network: Option<NetworkId>, index: u64 },
    AccountKey20 { network: Option<NetworkId>, key: Bytes20 },
    PalletInstance(u8),
    GeneralIndex(u128),
    GeneralKey { length: u8, data: Bytes32 },
    OnlyChild,
    Plurality { id: BodyId, part: BodyPart },
    GlobalConsensus(NetworkId),
}

/// A path of at most eight junctions.
#[derive(Clone, Copy, PartialEq, Eq, Structural, Debug)]
pub enum Junctions {
    Here,
    X1(Junction),
    X2(Junction, Junction),
    X3(Junction, Junction, Junction),
    X4(Junction, Junction, Junction, Junction),
    X5(Junction, Junction, Junction, Junction, Junction),
    X6(Junction, Junction, Junction, Junction, Junction, Junction),
    X7(Junction, Junction, Junction, Junction, Junction, Junction, Junction),
    X8(Junction, Junction, Junction, Junction, Junction, Junction, Junction, Junction),
}

/// A location relative to the current one: `parents` steps up, then down `interior`.
#[derive(Clone, Copy, PartialEq, Eq, Structural, Debug)]
pub struct Location {
    pub parents: u8,
    pub interior: Junctions,
}

/// The most junctions a path holds.
pub const MAX_JUNCTIONS: usize = 8;

impl View for Junctions {
    type V = Seq<Junction>;

    open spec fn view(&self) -> Seq<Junction> {
        match *self {
            Junctions::Here => seq![],
            Junctions::X1(a) => seq![a],
            Junctions::X2(a, b) => seq![a, b],
            Junctions::X3(a, b, c) => seq![a, b, c],
            Junctions::X4(a, b, c, d) => seq![a, b, c, d],
            Junctions::X5(a, b, c, d, e) => seq![a, b, c, d, e],
            Junctions::X6(a, b, c, d, e, f) => seq![a, b, c, d, e, f],
            Junctions::X7(a, b, c, d, e, f, g) => seq![a, b, c, d, e, f, g],
            Junctions::X8(a, b, c, d, e, f, g, h) => seq![a, b, c, d, e, f, g, h],
        }
    }
}

/// The path of the given junctions; defined on sequences of at most eight.
pub open spec fn junctions_of(s: Seq<Junction>) -> Junctions {
    if s.len() == 0 {
        Junctions::Here
    } else if s.len() == 1 {
        Junctions::X1(s[0])
    } else if s.len() == 2 {
        Junctions::X2(s[0], s[1])
    } else if s.len() == 3 {
        Junctions::X3(s[0], s[1], s[2])
    } else if s.len() == 4 {
        Junctions::X4(s[0], s[1], s[2], s[3])
    } else if s.len() == 5 {
        Junctions::X5(s[0], s[1], s[2], s[3], s[4])
    } else if s.len() == 6 {
        Junctions::X6(s[0], s[1], s[2], s[3], s[4], s[5])
    } else if s.len() == 7 {
        Junctions::X7(s[0], s[1], s[2], s[3], s[4], s[5], s[6])
    } else {
        Junctions::X8(s[0], s[1], s[2], s[3], s[4], s[5], s[6], s[7])
    }
}

/// A path is the path of its own junctions, and a short sequence is the sequence of its path.
pub proof fn lemma_junctions_of(j: Junctions, s: Seq<Junction>)
    ensures
        j@.len() <= 8,
        junctions_of(j@) == j,
        s.len() <= 8 ==> junctions_of(s)@ == s,
{
    if s.len() <= 8 {
        assert(junctions_of(s)@ =~= s);
    }
}

/// Two paths with the same junctions are the same path.
pub proof fn lemma_junctions_view_injective(a: Junctions, b: Junctions)
    requires
        a@ == b@,
    ensures
        a == b,
{
    lemma_junctions_of(a, a@);
    lemma_junctions_of(b, b@);
}

impl Junctions {
    /// The number of junctions.
    pub fn len(&self) -> (n: usize)
        ensures
            n == self@.len(),
    {
        match self {
            Junctions::Here => 0,
            Junctions::X1(..) => 1,
            Junctions::X2(..) => 2,
            Junctions::X3(..) => 3,
            Junctions::X4(..) => 4,
            Junctions::X5(..) => 5,
            Junctions::X6(..) => 6,
            Junctions::X7(..) => 7,
            Junctions::X8(..) => 8,
        }
    }

    /// The first junction, if any.
    pub fn first(&self) -> (r: Option<Junction>)
        ensures
            r == (if self@.len() > 0 { Some(self@[0]) } else { None::<Junction> }),
    {
        match *self {
            Junctions::Here => None,
            Junctions::X1(a) => Some(a),
            Junctions::X2(a, ..) => Some(a),
            Junctions::X3(a, ..) => Some(a),
            Junctions::X4(a, ..) => Some(a),
            Junctions::X5(a, ..) => Some(a),
            Junctions::X6(a, ..) => Some(a),
            Junctions::X7(a, ..) => Some(a),
            Junctions::X8(a, ..) => Some(a),
        }
    }

    /// The junctions, in order.
    pub fn to_vec(&self) -> (v: Vec<Junction>)
        ensures
            v@ == self@,
    {
        let mut v: Vec<Junction> = Vec::new();
        match *self {
            Junctions::Here => {},
            Junctions::X1(a) => {
                v.push(a);
            },
            Junctions::X2(a, b) => {
                v.push(a);
                v.push(b);
            },
            Junctions::X3(a, b, c) => {
                v.push(a);
                v.push(b);
                v.push(c);
            },
            Junctions::X4(a, b, c, d) => {
                v.push(a);
                v.push(b);
                v.push(c);
                v.push(d);
            },
            Junctions::X5(a, b, c, d, e) => {
                v.push(a);
                v.push(b);
                v.push(c);
                v.push(d);
                v.push(e);
            },
            Junctions::X6(a, b, c, d, e, f) => {
                v.push(a);
                v.push(b);
                v.push(c);
                v.push(d);
                v.push(e);
                v.push(f);
            },
            Junctions::X7(a, b, c, d, e, f, g) => {
                v.push(a);
                v.push(b);
                v.push(c);
                v.push(d);
                v.push(e);
                v.push(f);
                v.push(g);
            },
            Junctions::X8(a, b, c, d, e, f, g, h) => {
                v.push(a);
                v.push(b);
                v.push(c);
                v.push(d);
                v.push(e);
                v.push(f);
                v.push(g);
                v.push(h);
            },
        }
        assert(v@ =~= self@);
        v
    }

    /// The path made of the given junctions, of which there are at most eight.
    pub fn from_slice(s: &[Junction]) -> (r: Junctions)
        requires
            s@.len() <= MAX_JUNCTIONS,
        ensures
            r@ == s@,
            r == junctions_of(s@),
    {
        proof {
            lemma_junctions_of(Junctions::Here, s@);
        }
        let n = s.len();
        if n == 0 {
            Junctions::Here
        } else if n == 1 {
            Junctions::X1(s[0])
        } else if n == 2 {
            Junctions::X2(s[0], s[1])
        } else if n == 3 {
            Junctions::X3(s[0], s[1], s[2])
        } else if n == 4 {
            Junctions::X4(s[0], s[1], s[2], s[3])
        } else if n == 5 {
            Junctions::X5(s[0], s[1], s[2], s[3], s[4])
        } else if n == 6 {
            Junctions::X6(s[0], s[1], s[2], s[3], s[4], s[5])
        } else if n == 7 {
            Junctions::X7(s[0], s[1], s[2], s[3], s[4], s[5], s[6])
        } else {
            Junctions::X8(s[0], s[1], s[2], s[3], s[4], s[5], s[6], s[7])
        }
    }
}

impl Location {
    /// The current location itself.
    pub open spec fn spec_here() -> Location {
        Location { parents: 0, interior: Junctions::Here }
    }

    /// The parent of the current location.
    pub open spec fn spec_parent() -> Location {
        Location { parents: 1, interior: Junctions::Here }
    }

    /// The current location itself.
    pub fn here() -> (r: Location)
        ensures
            r == Location::spec_here(),
    {
        Location { parents: 0, interior: Junctions::Here }
    }

    /// The parent of the current location.
    pub fn parent() -> (r: Location)
        ensures
            r == Location::spec_parent(),
    {
        Location { parents: 1, interior: Junctions::Here }
    }
}

/// The chain that a location names, seen from here: a sibling parachain, the relay
/// chain, or a child parachain.
pub open spec fn spec_chain_part(l: Location) -> Option<Location> {
    let first_is_para = l.interior@.len() > 0 && l.interior@[0] is Parachain;
    if l.parents == 1 && first_is_para {
        Some(Location { parents: 1, interior: Junctions::X1(l.interior@[0]) })
    } else if l.parents == 1 {
        Some(Location::spec_parent())
    } else if l.parents == 0 && first_is_para {
        Some(Location { parents: 0, interior: Junctions::X1(l.interior@[0]) })
    } else {
        None
    }
}

/// The junctions left once the leading parachain junctions are dropped.
pub open spec fn strip_parachains(s: Seq<Junction>) -> Seq<Junction>
    decreases s.len(),
{
    if s.len() > 0 && s[0] is Parachain {
        strip_parachains(s.drop_first())
    } else {
        s
    }
}

/// The part of a location inside its chain: its interior without the leading
/// parachain junctions, if anything is left.
pub open spec fn spec_non_chain_part(l: Location) -> Option<Location> {
    let rest = strip_parachains(l.interior@);
    if rest.len() > 0 {
        Some(Location { parents: 0, interior: junctions_of(rest) })
    } else {
        None
    }
}

/// The first `k` junctions are parachains and the next is not: dropping leading
/// parachains leaves the junctions from `k` on.
pub proof fn lemma_strip_parachains_at(s: Seq<Junction>, k: int)
    requires
        0 <= k <= s.len(),
        forall|i: int| 0 <= i < k ==> #[trigger] s[i] is Parachain,
        k < s.len() ==> !(s[k] is Parachain),
    ensures
        strip_parachains(s) == s.skip(k),
    decreases k,
{
    if k > 0 {
        let t = s.drop_first();
        assert forall|i: int| 0 <= i < k - 1 implies #[trigger] t[i] is Parachain by {
            assert(t[i] == s[i + 1]);
        }
        if k - 1 < t.len() {
            assert(t[k - 1] == s[k]);
        }
        lemma_strip_parachains_at(t, k - 1);
        assert(t.skip(k - 1) =~= s.skip(k));
    } else {
        assert(s.skip(0) =~= s);
    }
}

/// The chain that `location` names, as seen from here.
pub fn chain_part(location: &Location) -> (r: Option<Location>)
    ensures
        r == spec_chain_part(*location),
{
    match (location.parents, location.interior.first()) {
        (1, Some(Junction::Parachain(id))) => Some(
            Location { parents: 1, interior: Junctions::X1(Junction::Parachain(id)) },
        ),
        (1, _) => Some(Location::parent()),
        (0, Some(Junction::Parachain(id))) => Some(
            Location { parents: 0, interior: Junctions::X1(Junction::Parachain(id)) },
        ),
        _ => None,
    }
}

/// The part of `location` inside the chain it names.
pub fn non_chain_part(location: &Location) -> (r: Option<Location>)
    ensures
        r == spec_non_chain_part(*location),
{
    let junctions = location.interior.to_vec();
    let n = junctions.len();
    let mut k: usize = 0;
    while k < n && matches!(junctions[k], Junction::Parachain(_))
        invariant
            n == junctions@.len(),
            junctions@ == location.interior@,
            k <= n,
            forall|i: int| 0 <= i < k ==> #[trigger] junctions@[i] is Parachain,
        decreases n - k,
    {
        k = k + 1;
    }
    let mut rest: Vec<Junction> = Vec::new();
    let mut i: usize = k;
    while i < n
        invariant
            n == junctions@.len(),
            k <= i <= n,
            rest@ == junctions@.subrange(k as int, i as int),
        decreases n - i,
    {
        rest.push(junctions[i]);
        i = i + 1;
        assert(rest@ =~= junctions@.subrange(k as int, i as int));
    }
    proof {
        lemma_junctions_of(location.interior, location.interior@);
        lemma_strip_parachains_at(junctions@, k as int);
        assert(rest@ =~= junctions@.skip(k as int));
    }
    if rest.len() > 0 {
        Some(Location { parents: 0, interior: Junctions::from_slice(rest.as_slice()) })
    } else {
        None
    }
}

} // verus!

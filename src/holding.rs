//! The holding register: the assets a run of the virtual machine holds.
use vstd::prelude::*;

use crate::asset::{Asset, AssetFilter, AssetId, AssetInstance, Fungibility, WildAsset};
use crate::order::{instance_code, instance_code_vec, lemma_lex_le_trans, lemma_lex_total, lex_le, lex_less, lex_lt, location_code, location_code_vec};

verus! {

/// `a + b`, clamped at the largest `u128`.
pub open spec fn sat_add(a: u128, b: u128) -> u128 {
    if a + b > u128::MAX {
        u128::MAX
    } else {
        (a + b) as u128
    }
}

/// What a holding register holds: an amount per fungible class, and a set of
/// non-fungible items.
pub struct HoldingView {
    pub fungible: Map<AssetId, u128>,
    pub non_fungible: Set<(AssetId, AssetInstance)>,
}

impl HoldingView {
    /// Nothing held.
    pub open spec fn empty() -> HoldingView {
        HoldingView { fungible: Map::empty(), non_fungible: Set::empty() }
    }

    /// The amount held of the fungible class `id` (zero where there is no entry).
    pub open spec fn held(self, id: AssetId) -> int {
        if self.fungible.contains_key(id) {
            self.fungible[id] as int
        } else {
            0
        }
    }

    /// This holding with `a` added: a fungible amount is added to the class's
    /// entry, saturating, or makes a new entry; an item joins the set.
    pub open spec fn subsume(self, a: Asset) -> HoldingView {
        match a.fun {
            Fungibility::Fungible(n) => HoldingView {
                fungible: self.fungible.insert(
                    a.id,
                    if self.fungible.contains_key(a.id) {
                        sat_add(self.fungible[a.id], n)
                    } else {
                        n
                    },
                ),
                non_fungible: self.non_fungible,
            },
            Fungibility::NonFungible(i) => HoldingView {
                fungible: self.fungible,
                non_fungible: self.non_fungible.insert((a.id, i)),
            },
        }
    }

    /// This holding with each asset of `s` added in turn.
    pub open spec fn subsume_seq(self, s: Seq<Asset>) -> HoldingView
        decreases s.len(),
    {
        if s.len() == 0 {
            self
        } else {
            self.subsume_seq(s.drop_last()).subsume(s.last())
        }
    }

    /// This holding and `o` together: amounts of a class held by both are added,
    /// saturating; the item sets are united.
    pub open spec fn merge(self, o: HoldingView) -> HoldingView {
        HoldingView {
            fungible: Map::new(
                |id: AssetId| self.fungible.contains_key(id) || o.fungible.contains_key(id),
                |id: AssetId|
                    if self.fungible.contains_key(id) && o.fungible.contains_key(id) {
                        sat_add(self.fungible[id], o.fungible[id])
                    } else if self.fungible.contains_key(id) {
                        self.fungible[id]
                    } else {
                        o.fungible[id]
                    },
            ),
            non_fungible: self.non_fungible.union(o.non_fungible),
        }
    }

    /// Taking up to `a` out of this holding into `taken`: of a fungible class
    /// the smaller of the request and what is held moves (an entry that reaches
    /// zero goes; nothing moves into `taken` when that is zero); an item moves
    /// if it is held.
    pub open spec fn take_one(self, taken: HoldingView, a: Asset) -> (HoldingView, HoldingView) {
        match a.fun {
            Fungibility::Fungible(n) => {
                if self.fungible.contains_key(a.id) {
                    let held = self.fungible[a.id];
                    let amount = if n < held { n } else { held };
                    let left = (held - amount) as u128;
                    let f = if left == 0 {
                        self.fungible.remove(a.id)
                    } else {
                        self.fungible.insert(a.id, left)
                    };
                    (
                        HoldingView { fungible: f, non_fungible: self.non_fungible },
                        if amount > 0 {
                            taken.subsume(Asset { id: a.id, fun: Fungibility::Fungible(amount) })
                        } else {
                            taken
                        },
                    )
                } else {
                    (self, taken)
                }
            },
            Fungibility::NonFungible(i) => {
                if self.non_fungible.contains((a.id, i)) {
                    (
                        HoldingView {
                            fungible: self.fungible,
                            non_fungible: self.non_fungible.remove((a.id, i)),
                        },
                        taken.subsume(a),
                    )
                } else {
                    (self, taken)
                }
            },
        }
    }

    /// Taking up to each asset of `s` in turn: what is left, and what was taken.
    pub open spec fn take_seq(self, taken: HoldingView, s: Seq<Asset>) -> (HoldingView, HoldingView)
        decreases s.len(),
    {
        if s.len() == 0 {
            (self, taken)
        } else {
            let (h, t) = self.take_seq(taken, s.drop_last());
            h.take_one(t, s.last())
        }
    }
}

/// The map from class to amount that a list of entries with distinct classes holds.
pub open spec fn entries_map(s: Seq<(AssetId, u128)>) -> Map<AssetId, u128> {
    Map::new(
        |id: AssetId| exists|i: int| 0 <= i < s.len() && s[i].0 == id,
        |id: AssetId| s[choose|i: int| 0 <= i < s.len() && s[i].0 == id].1,
    )
}

/// No two entries share a class.
pub open spec fn unique_ids(s: Seq<(AssetId, u128)>) -> bool {
    forall|i: int, j: int| 0 <= i < s.len() && 0 <= j < s.len() && i != j ==> s[i].0 != s[j].0
}

/// The assets of `s` that are fungible have distinct classes.
pub open spec fn distinct_fungible_ids(s: Seq<Asset>) -> bool {
    forall|i: int, j: int|
        0 <= i < s.len() && 0 <= j < s.len() && i != j && s[i].fun is Fungible && s[j].fun is Fungible
            ==> s[i].id != s[j].id
}

proof fn lemma_entries_index(s: Seq<(AssetId, u128)>, i: int)
    requires
        unique_ids(s),
        0 <= i < s.len(),
    ensures
        entries_map(s).contains_key(s[i].0),
        entries_map(s)[s[i].0] == s[i].1,
{
    let id = s[i].0;
    assert(exists|j: int| 0 <= j < s.len() && s[j].0 == id);
    let j = choose|j: int| 0 <= j < s.len() && s[j].0 == id;
    assert(j == i);
}

proof fn lemma_entries_push(s: Seq<(AssetId, u128)>, id: AssetId, v: u128)
    requires
        unique_ids(s),
        !entries_map(s).contains_key(id),
    ensures
        unique_ids(s.push((id, v))),
        entries_map(s.push((id, v))) == entries_map(s).insert(id, v),
{
    let t = s.push((id, v));
    assert forall|i: int| 0 <= i < s.len() implies s[i].0 != id by {
        if s[i].0 == id {
            assert(entries_map(s).contains_key(id));
        }
    }
    assert(unique_ids(t));
    assert forall|k: AssetId| #[trigger] entries_map(t).contains_key(k) == entries_map(s).insert(id, v).contains_key(k) by {
        if exists|i: int| 0 <= i < s.len() && s[i].0 == k {
            let i = choose|i: int| 0 <= i < s.len() && s[i].0 == k;
            assert(t[i].0 == k);
        }
        if k == id {
            assert(t[s.len() as int].0 == k);
        }
    }
    assert forall|k: AssetId| #[trigger] entries_map(t).contains_key(k) implies entries_map(t)[k] == entries_map(s).insert(id, v)[k] by {
        let j = choose|j: int| 0 <= j < t.len() && t[j].0 == k;
        lemma_entries_index(t, j);
        if k != id {
            assert(j < s.len());
            lemma_entries_index(s, j);
        }
    }
    assert(entries_map(t) =~= entries_map(s).insert(id, v));
}

proof fn lemma_entries_update(s: Seq<(AssetId, u128)>, i: int, v: u128)
    requires
        unique_ids(s),
        0 <= i < s.len(),
    ensures
        unique_ids(s.update(i, (s[i].0, v))),
        entries_map(s.update(i, (s[i].0, v))) == entries_map(s).insert(s[i].0, v),
{
    let id = s[i].0;
    let t = s.update(i, (id, v));
    assert(unique_ids(t));
    lemma_entries_index(s, i);
    assert forall|k: AssetId| #[trigger] entries_map(t).contains_key(k) == entries_map(s).insert(id, v).contains_key(k) by {
        if exists|j: int| 0 <= j < s.len() && s[j].0 == k {
            let j = choose|j: int| 0 <= j < s.len() && s[j].0 == k;
            assert(t[j].0 == k);
        }
        if exists|j: int| 0 <= j < t.len() && t[j].0 == k {
            let j = choose|j: int| 0 <= j < t.len() && t[j].0 == k;
            assert(s[j].0 == k);
        }
    }
    assert forall|k: AssetId| #[trigger] entries_map(t).contains_key(k) implies entries_map(t)[k] == entries_map(s).insert(id, v)[k] by {
        let j = choose|j: int| 0 <= j < t.len() && t[j].0 == k;
        lemma_entries_index(t, j);
        if j != i {
            lemma_entries_index(s, j);
        }
    }
    assert(entries_map(t) =~= entries_map(s).insert(id, v));
}

proof fn lemma_entries_remove(s: Seq<(AssetId, u128)>, i: int)
    requires
        unique_ids(s),
        0 <= i < s.len(),
    ensures
        unique_ids(s.remove(i)),
        entries_map(s.remove(i)) == entries_map(s).remove(s[i].0),
{
    let id = s[i].0;
    let t = s.remove(i);
    assert forall|a: int, b: int| 0 <= a < t.len() && 0 <= b < t.len() && a != b implies t[a].0 != t[b].0 by {
        let a2 = if a < i { a } else { a + 1 };
        let b2 = if b < i { b } else { b + 1 };
        assert(t[a] == s[a2]);
        assert(t[b] == s[b2]);
    }
    assert forall|k: AssetId| #[trigger] entries_map(t).contains_key(k) == entries_map(s).remove(id).contains_key(k) by {
        if exists|j: int| 0 <= j < s.len() && s[j].0 == k {
            let j = choose|j: int| 0 <= j < s.len() && s[j].0 == k;
            if j < i {
                assert(t[j].0 == k);
            } else if j > i {
                assert(t[j - 1].0 == k);
            }
        }
        if exists|j: int| 0 <= j < t.len() && t[j].0 == k {
            let j = choose|j: int| 0 <= j < t.len() && t[j].0 == k;
            let j2 = if j < i { j } else { j + 1 };
            assert(s[j2].0 == k);
            assert(j2 != i);
        }
    }
    assert forall|k: AssetId| #[trigger] entries_map(t).contains_key(k) implies entries_map(t)[k] == entries_map(s).remove(id)[k] by {
        let j = choose|j: int| 0 <= j < t.len() && t[j].0 == k;
        lemma_entries_index(t, j);
        let j2 = if j < i { j } else { j + 1 };
        assert(s[j2] == t[j]);
        lemma_entries_index(s, j2);
    }
    assert(entries_map(t) =~= entries_map(s).remove(id));
}

proof fn lemma_push_to_set<T>(s: Seq<T>, x: T)
    ensures
        s.push(x).to_set() == s.to_set().insert(x),
{
    let t = s.push(x);
    assert forall|y: T| #[trigger] t.contains(y) == s.to_set().insert(x).contains(y) by {
        if s.contains(y) {
            let i = choose|i: int| 0 <= i < s.len() && s[i] == y;
            assert(t[i] == y);
        }
        if y == x {
            assert(t[s.len() as int] == y);
        }
        if t.contains(y) && y != x {
            let i = choose|i: int| 0 <= i < t.len() && t[i] == y;
            assert(s[i] == y);
        }
    }
    assert(t.to_set() =~= s.to_set().insert(x));
}

/// Each code comes no later than the ones after it.
pub open spec fn sorted_codes(c: Seq<Seq<u128>>) -> bool {
    forall|i: int, j: int| 0 <= i < j < c.len() ==> lex_le(#[trigger] c[i], #[trigger] c[j])
}

/// The codes of the classes of fungible entries.
pub open spec fn fungible_codes(s: Seq<(AssetId, u128)>) -> Seq<Seq<u128>> {
    s.map_values(|e: (AssetId, u128)| location_code(e.0.0))
}

/// The code of a non-fungible item: its class, then its instance.
pub open spec fn item_code(e: (AssetId, AssetInstance)) -> Seq<u128> {
    location_code(e.0.0) + instance_code(e.1)
}

/// The codes of non-fungible items.
pub open spec fn item_codes(s: Seq<(AssetId, AssetInstance)>) -> Seq<Seq<u128>> {
    s.map_values(|e: (AssetId, AssetInstance)| item_code(e))
}

proof fn lemma_sorted_insert(c: Seq<Seq<u128>>, p: int, k: Seq<u128>)
    requires
        sorted_codes(c),
        0 <= p <= c.len(),
        forall|q: int| 0 <= q < p ==> lex_lt(#[trigger] c[q], k),
        p < c.len() ==> lex_le(k, c[p]),
    ensures
        sorted_codes(c.insert(p, k)),
{
    let t = c.insert(p, k);
    assert forall|i: int, j: int| 0 <= i < j < t.len() implies lex_le(#[trigger] t[i], #[trigger] t[j]) by {
        if j < p {
            assert(t[i] == c[i] && t[j] == c[j]);
        } else if j == p {
            assert(t[i] == c[i]);
            lemma_lex_total(c[i], k);
        } else if i < p {
            assert(t[i] == c[i] && t[j] == c[j - 1]);
        } else if i == p {
            assert(t[j] == c[j - 1]);
            lemma_lex_total(c[p], c[p]);
            if j - 1 > p {
                lemma_lex_le_trans(k, c[p], c[j - 1]);
            }
        } else {
            assert(t[i] == c[i - 1] && t[j] == c[j - 1]);
        }
    }
}

proof fn lemma_sorted_remove(c: Seq<Seq<u128>>, p: int)
    requires
        sorted_codes(c),
        0 <= p < c.len(),
    ensures
        sorted_codes(c.remove(p)),
{
    let t = c.remove(p);
    assert forall|i: int, j: int| 0 <= i < j < t.len() implies lex_le(#[trigger] t[i], #[trigger] t[j]) by {
        let i2 = if i < p { i } else { i + 1 };
        let j2 = if j < p { j } else { j + 1 };
        assert(t[i] == c[i2] && t[j] == c[j2]);
    }
}

proof fn lemma_entries_insert(s: Seq<(AssetId, u128)>, p: int, id: AssetId, v: u128)
    requires
        unique_ids(s),
        !entries_map(s).contains_key(id),
        0 <= p <= s.len(),
    ensures
        unique_ids(s.insert(p, (id, v))),
        entries_map(s.insert(p, (id, v))) == entries_map(s).insert(id, v),
{
    let t = s.insert(p, (id, v));
    assert forall|i: int| 0 <= i < s.len() implies s[i].0 != id by {
        if s[i].0 == id {
            assert(entries_map(s).contains_key(id));
        }
    }
    assert forall|a: int, b: int| 0 <= a < t.len() && 0 <= b < t.len() && a != b implies t[a].0 != t[b].0 by {
        let a2 = if a < p { a } else { a - 1 };
        let b2 = if b < p { b } else { b - 1 };
        if a != p && b != p {
            assert(t[a] == s[a2] && t[b] == s[b2]);
        } else if a == p {
            assert(t[b] == s[b2]);
        } else {
            assert(t[a] == s[a2]);
        }
    }
    assert forall|k: AssetId| #[trigger] entries_map(t).contains_key(k) == entries_map(s).insert(id, v).contains_key(k) by {
        if exists|i: int| 0 <= i < s.len() && s[i].0 == k {
            let i = choose|i: int| 0 <= i < s.len() && s[i].0 == k;
            if i < p {
                assert(t[i].0 == k);
            } else {
                assert(t[i + 1].0 == k);
            }
        }
        if k == id {
            assert(t[p].0 == k);
        }
        if exists|i: int| 0 <= i < t.len() && t[i].0 == k {
            let i = choose|i: int| 0 <= i < t.len() && t[i].0 == k;
            if i < p {
                assert(s[i].0 == k);
            } else if i > p {
                assert(s[i - 1].0 == k);
            }
        }
    }
    assert forall|k: AssetId| #[trigger] entries_map(t).contains_key(k) implies entries_map(t)[k] == entries_map(s).insert(id, v)[k] by {
        let j = choose|j: int| 0 <= j < t.len() && t[j].0 == k;
        lemma_entries_index(t, j);
        if j < p {
            lemma_entries_index(s, j);
        } else if j > p {
            lemma_entries_index(s, j - 1);
        }
    }
    assert(entries_map(t) =~= entries_map(s).insert(id, v));
}

proof fn lemma_insert_to_set<T>(s: Seq<T>, p: int, x: T)
    requires
        s.no_duplicates(),
        !s.contains(x),
        0 <= p <= s.len(),
    ensures
        s.insert(p, x).no_duplicates(),
        s.insert(p, x).to_set() == s.to_set().insert(x),
{
    let t = s.insert(p, x);
    assert forall|a: int, b: int| 0 <= a < t.len() && 0 <= b < t.len() && a != b implies t[a] != t[b] by {
        let a2 = if a < p { a } else { a - 1 };
        let b2 = if b < p { b } else { b - 1 };
        if a != p && b != p {
            assert(t[a] == s[a2] && t[b] == s[b2]);
        } else if a == p {
            assert(t[b] == s[b2]);
        } else {
            assert(t[a] == s[a2]);
        }
    }
    assert forall|y: T| #[trigger] t.contains(y) == s.to_set().insert(x).contains(y) by {
        if s.contains(y) {
            let i = choose|i: int| 0 <= i < s.len() && s[i] == y;
            if i < p {
                assert(t[i] == y);
            } else {
                assert(t[i + 1] == y);
            }
        }
        if y == x {
            assert(t[p] == y);
        }
        if t.contains(y) && y != x {
            let i = choose|i: int| 0 <= i < t.len() && t[i] == y;
            if i < p {
                assert(s[i] == y);
            } else {
                assert(s[i - 1] == y);
            }
        }
    }
    assert(t.to_set() =~= s.to_set().insert(x));
}

/// The map of no entries is empty.
proof fn lemma_entries_empty(s: Seq<(AssetId, u128)>)
    requires
        s.len() == 0,
    ensures
        entries_map(s) == Map::<AssetId, u128>::empty(),
{
    assert(entries_map(s) =~= Map::<AssetId, u128>::empty());
}

/// The code of the item `(id, instance)`.
fn nf_key(id: &AssetId, instance: &AssetInstance) -> (r: Vec<u128>)
    ensures
        r@ == item_code((*id, *instance)),
{
    let mut r = location_code_vec(&id.0);
    let mut tail = instance_code_vec(instance);
    r.append(&mut tail);
    r
}

/// The holding register: an amount per fungible class and a set of
/// non-fungible items, each class and each item held at most once, kept in
/// ascending order of their codes.
#[derive(Clone, Debug, PartialEq, Eq)]
pub struct AssetsInHolding {
    fungible: Vec<(AssetId, u128)>,
    non_fungible: Vec<(AssetId, AssetInstance)>,
}

impl View for AssetsInHolding {
    type V = HoldingView;

    closed spec fn view(&self) -> HoldingView {
        HoldingView {
            fungible: entries_map(self.fungible@),
            non_fungible: self.non_fungible@.to_set(),
        }
    }
}

/// A fungible entry as an asset.
pub open spec fn fungible_asset(e: (AssetId, u128)) -> Asset {
    Asset { id: e.0, fun: Fungibility::Fungible(e.1) }
}

/// A non-fungible entry as an asset.
pub open spec fn non_fungible_asset(e: (AssetId, AssetInstance)) -> Asset {
    Asset { id: e.0, fun: Fungibility::NonFungible(e.1) }
}

impl AssetsInHolding {
    /// The invariant: no class has two entries, no item is held twice.
    pub closed spec fn wf(&self) -> bool {
        unique_ids(self.fungible@) && self.non_fungible@.no_duplicates() && sorted_codes(
            fungible_codes(self.fungible@),
        ) && sorted_codes(item_codes(self.non_fungible@))
    }

    /// The held assets as a list: every fungible entry, then every item.
    pub closed spec fn assets_seq(&self) -> Seq<Asset> {
        self.fungible@.map_values(|e: (AssetId, u128)| fungible_asset(e))
            + self.non_fungible@.map_values(|e: (AssetId, AssetInstance)| non_fungible_asset(e))
    }

    /// An empty holding.
    pub fn new() -> (r: AssetsInHolding)
        ensures
            r.wf(),
            r@ == HoldingView::empty(),
    {
        let r = AssetsInHolding { fungible: Vec::new(), non_fungible: Vec::new() };
        proof {
            lemma_entries_empty(r.fungible@);
            assert(r.non_fungible@.to_set() =~= Set::<(AssetId, AssetInstance)>::empty());
        }
        r
    }

    /// The position of the entry of class `id`, if there is one.
    fn find_fungible(&self, id: &AssetId) -> (r: Option<usize>)
        ensures
            r matches Some(i) ==> i < self.fungible@.len() && self.fungible@[i as int].0 == *id,
            r is None ==> forall|i: int| 0 <= i < self.fungible@.len() ==> self.fungible@[i].0 != *id,
    {
        let mut i: usize = 0;
        while i < self.fungible.len()
            invariant
                i <= self.fungible@.len(),
                forall|k: int| 0 <= k < i ==> self.fungible@[k].0 != *id,
            decreases self.fungible@.len() - i,
        {
            if self.fungible[i].0.same_as(id) {
                return Some(i);
            }
            i = i + 1;
        }
        None
    }

    /// The position of the item `(id, instance)`, if it is held.
    fn find_non_fungible(&self, id: &AssetId, instance: &AssetInstance) -> (r: Option<usize>)
        ensures
            r matches Some(i) ==> i < self.non_fungible@.len() && self.non_fungible@[i as int] == (*id, *instance),
            r is None ==> !self.non_fungible@.contains((*id, *instance)),
    {
        let mut i: usize = 0;
        while i < self.non_fungible.len()
            invariant
                i <= self.non_fungible@.len(),
                forall|k: int| 0 <= k < i ==> self.non_fungible@[k] != (*id, *instance),
            decreases self.non_fungible@.len() - i,
        {
            let e = &self.non_fungible[i];
            if e.0.same_as(id) && e.1.same_as(instance) {
                return Some(i);
            }
            i = i + 1;
        }
        None
    }

    /// Where an entry with class code `key` goes to keep the order.
    fn fungible_position(&self, key: &Vec<u128>) -> (p: usize)
        ensures
            p <= self.fungible@.len(),
            forall|q: int| 0 <= q < p ==> lex_lt(#[trigger] fungible_codes(self.fungible@)[q], key@),
            p < self.fungible@.len() ==> lex_le(key@, fungible_codes(self.fungible@)[p as int]),
    {
        let mut p: usize = 0;
        let mut done = false;
        while p < self.fungible.len() && !done
            invariant
                p <= self.fungible@.len(),
                forall|q: int| 0 <= q < p ==> lex_lt(#[trigger] fungible_codes(self.fungible@)[q], key@),
                done ==> p < self.fungible@.len() && lex_le(key@, fungible_codes(self.fungible@)[p as int]),
            decreases self.fungible@.len() - p, if done { 0int } else { 1int },
        {
            let c = location_code_vec(&self.fungible[p].0.0);
            if lex_less(&c, key) {
                p = p + 1;
            } else {
                done = true;
            }
        }
        p
    }

    /// Where an item with code `key` goes to keep the order.
    fn non_fungible_position(&self, key: &Vec<u128>) -> (p: usize)
        ensures
            p <= self.non_fungible@.len(),
            forall|q: int| 0 <= q < p ==> lex_lt(#[trigger] item_codes(self.non_fungible@)[q], key@),
            p < self.non_fungible@.len() ==> lex_le(key@, item_codes(self.non_fungible@)[p as int]),
    {
        let mut p: usize = 0;
        let mut done = false;
        while p < self.non_fungible.len() && !done
            invariant
                p <= self.non_fungible@.len(),
                forall|q: int| 0 <= q < p ==> lex_lt(#[trigger] item_codes(self.non_fungible@)[q], key@),
                done ==> p < self.non_fungible@.len() && lex_le(key@, item_codes(self.non_fungible@)[p as int]),
            decreases self.non_fungible@.len() - p, if done { 0int } else { 1int },
        {
            let e = &self.non_fungible[p];
            let c = nf_key(&e.0, &e.1);
            if lex_less(&c, key) {
                p = p + 1;
            } else {
                done = true;
            }
        }
        p
    }

    /// The amount held of the fungible class `id`, if it has an entry.
    pub fn fungible_amount(&self, id: &AssetId) -> (r: Option<u128>)
        requires
            self.wf(),
        ensures
            r == (if self@.fungible.contains_key(*id) {
                Some(self@.fungible[*id])
            } else {
                None::<u128>
            }),
    {
        match self.find_fungible(id) {
            Some(i) => {
                proof {
                    lemma_entries_index(self.fungible@, i as int);
                }
                Some(self.fungible[i].1)
            },
            None => None,
        }
    }

    /// Whether the item `(id, instance)` is held.
    pub fn contains_non_fungible(&self, id: &AssetId, instance: &AssetInstance) -> (r: bool)
        ensures
            r == self@.non_fungible.contains((*id, *instance)),
    {
        self.find_non_fungible(id, instance).is_some()
    }

    /// Adds `asset`: a fungible amount to its class's entry, saturating at the
    /// largest amount, or as a new entry; an item to the set.
    pub fn subsume(&mut self, asset: Asset)
        requires
            old(self).wf(),
        ensures
            final(self).wf(),
            final(self)@ == old(self)@.subsume(asset),
    {
        match asset.fun {
            Fungibility::Fungible(amount) => {
                match self.find_fungible(&asset.id) {
                    Some(i) => {
                        let existing = self.fungible[i].1;
                        proof {
                            lemma_entries_index(self.fungible@, i as int);
                            lemma_entries_update(self.fungible@, i as int, existing.saturating_add(amount));
                            assert(fungible_codes(self.fungible@.update(i as int, (asset.id, existing.saturating_add(amount))))
                                =~= fungible_codes(self.fungible@));
                        }
                        self.fungible.set(i, (asset.id, existing.saturating_add(amount)));
                    },
                    None => {
                        let key = location_code_vec(&asset.id.0);
                        let p = self.fungible_position(&key);
                        proof {
                            lemma_entries_insert(self.fungible@, p as int, asset.id, amount);
                            lemma_sorted_insert(fungible_codes(self.fungible@), p as int, key@);
                            assert(fungible_codes(self.fungible@.insert(p as int, (asset.id, amount)))
                                =~= fungible_codes(self.fungible@).insert(p as int, key@));
                        }
                        self.fungible.insert(p, (asset.id, amount));
                    },
                }
            },
            Fungibility::NonFungible(instance) => {
                match self.find_non_fungible(&asset.id, &instance) {
                    Some(_) => {
                        proof {
                            assert(self.non_fungible@.to_set().insert((asset.id, instance)) =~= self.non_fungible@.to_set());
                        }
                    },
                    None => {
                        let key = nf_key(&asset.id, &instance);
                        let p = self.non_fungible_position(&key);
                        let ghost before = self.non_fungible@;
                        proof {
                            lemma_insert_to_set(before, p as int, (asset.id, instance));
                            lemma_sorted_insert(item_codes(before), p as int, key@);
                            assert(item_codes(before.insert(p as int, (asset.id, instance)))
                                =~= item_codes(before).insert(p as int, key@));
                        }
                        self.non_fungible.insert(p, (asset.id, instance));
                    },
                }
            },
        }
    }
}


impl AssetsInHolding {
    /// All held assets, consuming the holding: every fungible entry in
    /// ascending class order, then every item in ascending (class, instance)
    /// order. Re-adding them to an empty holding gives this holding back.
    pub fn into_assets_iter(self) -> (r: Vec<Asset>)
        requires
            self.wf(),
        ensures
            lists(r@, self@),
            r@ == self.assets_seq(),
            HoldingView::empty().subsume_seq(r@) == self@,
            distinct_fungible_ids(r@),
            r@.no_duplicates(),
            forall|i: int, j: int| 0 <= i < j < r@.len() && r@[j].fun is Fungible ==> r@[i].fun is Fungible,
            forall|i: int, j: int|
            0 <= i < j < r@.len() && r@[i].fun is Fungible && r@[j].fun is Fungible
                    ==> lex_le(location_code(r@[i].id.0), location_code(r@[j].id.0)),
            forall|i: int, j: int|
            0 <= i < j < r@.len() && r@[i].fun is NonFungible && r@[j].fun is NonFungible
                    ==> lex_le(
                item_code((r@[i].id, r@[i].fun->NonFungible_0)),
                item_code((r@[j].id, r@[j].fun->NonFungible_0)),
                ),
    {
        let ghost fs = self.fungible@.map_values(|e: (AssetId, u128)| fungible_asset(e));
        let ghost ns = self.non_fungible@.map_values(|e: (AssetId, AssetInstance)| non_fungible_asset(e));
        let mut r: Vec<Asset> = Vec::new();
        let mut i: usize = 0;
        while i < self.fungible.len()
            invariant
                i <= self.fungible@.len(),
                fs == self.fungible@.map_values(|e: (AssetId, u128)| fungible_asset(e)),
                r@ == fs.subrange(0, i as int),
            decreases self.fungible@.len() - i,
        {
            let e = self.fungible[i];
            r.push(Asset { id: e.0, fun: Fungibility::Fungible(e.1) });
            i = i + 1;
            proof {
                assert(r@ =~= fs.subrange(0, i as int));
            }
        }
        let mut j: usize = 0;
        while j < self.non_fungible.len()
            invariant
                j <= self.non_fungible@.len(),
                fs.len() == self.fungible@.len(),
                ns == self.non_fungible@.map_values(|e: (AssetId, AssetInstance)| non_fungible_asset(e)),
                r@ == fs + ns.subrange(0, j as int),
            decreases self.non_fungible@.len() - j,
        {
            let e = self.non_fungible[j];
            r.push(Asset { id: e.0, fun: Fungibility::NonFungible(e.1) });
            j = j + 1;
            proof {
                assert(r@ =~= fs + ns.subrange(0, j as int));
            }
        }
        proof {
            assert(fs.subrange(0, fs.len() as int) =~= fs);
            assert(ns.subrange(0, ns.len() as int) =~= ns);
            assert(r@ == self.assets_seq());
            lemma_round_trip(self);
            lemma_assets_seq_shape(self);
        }
        r
    }

    /// Adds every asset of `assets` to this holding: amounts of a class held
    /// by both are added, saturating; items are united.
    pub fn subsume_assets(&mut self, assets: AssetsInHolding)
        requires
            old(self).wf(),
            assets.wf(),
        ensures
            final(self).wf(),
            final(self)@ == old(self)@.merge(assets@),
            final(self)@ == old(self)@.subsume_seq(assets.assets_seq()),
    {
        let ghost start = self@;
        let ghost consumed = assets;
        let items = assets.into_assets_iter();
        let mut i: usize = 0;
        while i < items.len()
            invariant
                self.wf(),
                i <= items@.len(),
                self@ == start.subsume_seq(items@.subrange(0, i as int)),
            decreases items@.len() - i,
        {
            let a = items[i];
            self.subsume(a);
            proof {
                assert(items@.subrange(0, i + 1).drop_last() =~= items@.subrange(0, i as int));
            }
            i = i + 1;
        }
        proof {
            assert(items@.subrange(0, items@.len() as int) =~= items@);
            lemma_subsume_seq_merge(start, items@);
            lemma_merge_is_subsume_each(start, consumed);
        }
    }

    /// A holding of the given assets, added in turn.
    pub fn from_assets(assets: Vec<Asset>) -> (r: AssetsInHolding)
        ensures
            r.wf(),
            r@ == HoldingView::empty().subsume_seq(assets@),
    {
        let mut r = AssetsInHolding::new();
        let mut i: usize = 0;
        while i < assets.len()
            invariant
                r.wf(),
                i <= assets@.len(),
                r@ == HoldingView::empty().subsume_seq(assets@.subrange(0, i as int)),
            decreases assets@.len() - i,
        {
            r.subsume(assets[i]);
            proof {
                assert(assets@.subrange(0, i + 1).drop_last() =~= assets@.subrange(0, i as int));
            }
            i = i + 1;
        }
        proof {
            assert(assets@.subrange(0, assets@.len() as int) =~= assets@);
        }
        r
    }

    /// Whether nothing is held.
    pub fn is_empty(&self) -> (r: bool)
        requires
            self.wf(),
        ensures
            r == (self@ == HoldingView::empty()),
    {
        proof {
            if self.fungible@.len() > 0 {
                lemma_entries_index(self.fungible@, 0);
                assert(!(self@.fungible =~= Map::<AssetId, u128>::empty()));
            }
            if self.non_fungible@.len() > 0 {
                assert(self@.non_fungible.contains(self.non_fungible@[0]));
            }
            if self.fungible@.len() == 0 && self.non_fungible@.len() == 0 {
                lemma_entries_empty(self.fungible@);
                assert(self.non_fungible@.to_set() =~= Set::<(AssetId, AssetInstance)>::empty());
            }
        }
        self.fungible.len() == 0 && self.non_fungible.len() == 0
    }

    /// A copy of this holding.
    pub fn duplicate(&self) -> (r: AssetsInHolding)
        requires
            self.wf(),
        ensures
            r.wf(),
            r@ == self@,
    {
        let mut f: Vec<(AssetId, u128)> = Vec::new();
        let mut i: usize = 0;
        while i < self.fungible.len()
            invariant
                i <= self.fungible@.len(),
                f@ == self.fungible@.subrange(0, i as int),
            decreases self.fungible@.len() - i,
        {
            f.push(self.fungible[i]);
            i = i + 1;
            proof {
                assert(f@ =~= self.fungible@.subrange(0, i as int));
            }
        }
        let mut n: Vec<(AssetId, AssetInstance)> = Vec::new();
        let mut j: usize = 0;
        while j < self.non_fungible.len()
            invariant
                j <= self.non_fungible@.len(),
                n@ == self.non_fungible@.subrange(0, j as int),
            decreases self.non_fungible@.len() - j,
        {
            n.push(self.non_fungible[j]);
            j = j + 1;
            proof {
                assert(n@ =~= self.non_fungible@.subrange(0, j as int));
            }
        }
        proof {
            assert(f@ =~= self.fungible@);
            assert(n@ =~= self.non_fungible@);
        }
        AssetsInHolding { fungible: f, non_fungible: n }
    }
}

proof fn lemma_fungible_prefix(h: AssetsInHolding, k: int)
    requires
        h.wf(),
        0 <= k <= h.fungible@.len(),
    ensures
        HoldingView::empty().subsume_seq(
            h.fungible@.map_values(|e: (AssetId, u128)| fungible_asset(e)).subrange(0, k),
        ) == (HoldingView { fungible: entries_map(h.fungible@.subrange(0, k)), non_fungible: Set::empty() }),
    decreases k,
{
    let fs = h.fungible@.map_values(|e: (AssetId, u128)| fungible_asset(e));
    let f = h.fungible@;
    if k == 0 {
        lemma_entries_empty(f.subrange(0, 0));
        assert(fs.subrange(0, 0) =~= Seq::<Asset>::empty());
    } else {
        lemma_fungible_prefix(h, k - 1);
        assert(fs.subrange(0, k).drop_last() =~= fs.subrange(0, k - 1));
        let p = f.subrange(0, k - 1);
        let e = f[k - 1];
        assert(unique_ids(p));
        assert(!entries_map(p).contains_key(e.0)) by {
            if entries_map(p).contains_key(e.0) {
                let i = choose|i: int| 0 <= i < p.len() && p[i].0 == e.0;
                assert(f[i].0 == f[k - 1].0);
            }
        }
        lemma_entries_push(p, e.0, e.1);
        assert(p.push(e) =~= f.subrange(0, k));
    }
}

proof fn lemma_non_fungible_prefix(h: AssetsInHolding, j: int)
    requires
        h.wf(),
        0 <= j <= h.non_fungible@.len(),
    ensures
        HoldingView::empty().subsume_seq(
            h.fungible@.map_values(|e: (AssetId, u128)| fungible_asset(e))
                + h.non_fungible@.map_values(|e: (AssetId, AssetInstance)| non_fungible_asset(e)).subrange(0, j),
        ) == (HoldingView { fungible: entries_map(h.fungible@), non_fungible: h.non_fungible@.subrange(0, j).to_set() }),
    decreases j,
{
    let fs = h.fungible@.map_values(|e: (AssetId, u128)| fungible_asset(e));
    let ns = h.non_fungible@.map_values(|e: (AssetId, AssetInstance)| non_fungible_asset(e));
    if j == 0 {
        lemma_fungible_prefix(h, h.fungible@.len() as int);
        assert(fs + ns.subrange(0, 0) =~= fs.subrange(0, fs.len() as int));
        assert(h.fungible@.subrange(0, h.fungible@.len() as int) =~= h.fungible@);
        assert(h.non_fungible@.subrange(0, 0).to_set() =~= Set::<(AssetId, AssetInstance)>::empty());
    } else {
        lemma_non_fungible_prefix(h, j - 1);
        assert((fs + ns.subrange(0, j)).drop_last() =~= fs + ns.subrange(0, j - 1));
        lemma_push_to_set(h.non_fungible@.subrange(0, j - 1), h.non_fungible@[j - 1]);
        assert(h.non_fungible@.subrange(0, j - 1).push(h.non_fungible@[j - 1]) =~= h.non_fungible@.subrange(0, j));
    }
}

/// Adding a holding's assets, as `into_assets_iter` lists them, to an empty
/// holding gives back the same holding.
pub proof fn lemma_round_trip(h: AssetsInHolding)
    requires
        h.wf(),
    ensures
        HoldingView::empty().subsume_seq(h.assets_seq()) == h@,
{
    let ns = h.non_fungible@.map_values(|e: (AssetId, AssetInstance)| non_fungible_asset(e));
    lemma_non_fungible_prefix(h, h.non_fungible@.len() as int);
    assert(ns.subrange(0, ns.len() as int) =~= ns);
    assert(h.non_fungible@.subrange(0, h.non_fungible@.len() as int) =~= h.non_fungible@);
}

proof fn lemma_assets_seq_shape(h: AssetsInHolding)
    requires
        h.wf(),
    ensures
        distinct_fungible_ids(h.assets_seq()),
        h.assets_seq().no_duplicates(),
        forall|i: int, j: int|
            0 <= i < j < h.assets_seq().len() && h.assets_seq()[j].fun is Fungible
                ==> h.assets_seq()[i].fun is Fungible,
        forall|i: int, j: int|
            0 <= i < j < h.assets_seq().len() && h.assets_seq()[i].fun is Fungible && h.assets_seq()[j].fun is Fungible
                ==> lex_le(location_code(h.assets_seq()[i].id.0), location_code(h.assets_seq()[j].id.0)),
        forall|i: int, j: int|
            0 <= i < j < h.assets_seq().len() && h.assets_seq()[i].fun is NonFungible && h.assets_seq()[j].fun is NonFungible
                ==> lex_le(
                item_code((h.assets_seq()[i].id, h.assets_seq()[i].fun->NonFungible_0)),
                item_code((h.assets_seq()[j].id, h.assets_seq()[j].fun->NonFungible_0)),
            ),
{
    let fs = h.fungible@.map_values(|e: (AssetId, u128)| fungible_asset(e));
    let ns = h.non_fungible@.map_values(|e: (AssetId, AssetInstance)| non_fungible_asset(e));
    let s = h.assets_seq();
    assert(s == fs + ns);
    assert forall|i: int, j: int|
        0 <= i < s.len() && 0 <= j < s.len() && i != j && s[i].fun is Fungible && s[j].fun is Fungible
        implies s[i].id != s[j].id by {
        assert(i < fs.len());
        assert(j < fs.len());
        assert(s[i] == fs[i]);
        assert(s[j] == fs[j]);
    }
    assert forall|i: int, j: int| 0 <= i < s.len() && 0 <= j < s.len() && i != j implies s[i] != s[j] by {
        if i < fs.len() && j < fs.len() {
            assert(s[i] == fs[i]);
            assert(s[j] == fs[j]);
        } else if i >= fs.len() && j >= fs.len() {
            assert(s[i] == ns[i - fs.len()]);
            assert(s[j] == ns[j - fs.len()]);
            assert(h.non_fungible@[i - fs.len()] != h.non_fungible@[j - fs.len()]);
        }
    }
    assert forall|i: int, j: int| 0 <= i < j < s.len() && s[j].fun is Fungible implies s[i].fun is Fungible by {
        assert(j < fs.len());
        assert(s[i] == fs[i]);
    }
    assert forall|i: int, j: int|
        0 <= i < j < s.len() && s[i].fun is Fungible && s[j].fun is Fungible
        implies lex_le(location_code(s[i].id.0), location_code(s[j].id.0)) by {
        assert(s[i] == fs[i] && s[j] == fs[j]);
        assert(fungible_codes(h.fungible@)[i] == location_code(h.fungible@[i].0.0));
        assert(fungible_codes(h.fungible@)[j] == location_code(h.fungible@[j].0.0));
    }
    assert forall|i: int, j: int|
        0 <= i < j < s.len() && s[i].fun is NonFungible && s[j].fun is NonFungible
        implies lex_le(
            item_code((s[i].id, s[i].fun->NonFungible_0)),
            item_code((s[j].id, s[j].fun->NonFungible_0)),
        ) by {
        let n = fs.len();
        assert(i >= n && j >= n);
        assert(s[i] == ns[i - n] && s[j] == ns[j - n]);
        assert(item_codes(h.non_fungible@)[i - n] == item_code(h.non_fungible@[i - n]));
        assert(item_codes(h.non_fungible@)[j - n] == item_code(h.non_fungible@[j - n]));
    }
}

/// Whether `items` lists what `h` holds as `into_assets_iter` does: each
/// fungible class once, in ascending order, then each item once, in
/// ascending order; added to an empty holding they give `h`.
pub open spec fn lists(items: Seq<Asset>, h: HoldingView) -> bool {
    &&& HoldingView::empty().subsume_seq(items) == h
    &&& distinct_fungible_ids(items)
    &&& items.no_duplicates()
    &&& forall|i: int, j: int| 0 <= i < j < items.len() && items[j].fun is Fungible ==> items[i].fun is Fungible
    &&& forall|i: int, j: int|
        0 <= i < j < items.len() && items[i].fun is Fungible && items[j].fun is Fungible
            ==> lex_le(location_code(items[i].id.0), location_code(items[j].id.0))
    &&& forall|i: int, j: int|
        0 <= i < j < items.len() && items[i].fun is NonFungible && items[j].fun is NonFungible
            ==> lex_le(
            item_code((items[i].id, items[i].fun->NonFungible_0)),
            item_code((items[j].id, items[j].fun->NonFungible_0)),
        )
}

/// Whether `s` holds a fungible asset of class `id`.
pub open spec fn has_fungible(s: Seq<Asset>, id: AssetId) -> bool {
    exists|i: int| 0 <= i < s.len() && s[i].id == id && s[i].fun is Fungible
}

/// The saturating sum, in order, of the fungible amounts of class `id` in `s`.
pub open spec fn saturating_total(s: Seq<Asset>, id: AssetId) -> u128
    decreases s.len(),
{
    if s.len() == 0 {
        0
    } else {
        let t = saturating_total(s.drop_last(), id);
        if s.last().id == id {
            match s.last().fun {
                Fungibility::Fungible(n) => sat_add(t, n),
                Fungibility::NonFungible(_) => t,
            }
        } else {
            t
        }
    }
}

/// The non-fungible items that `s` names.
pub open spec fn non_fungible_pairs(s: Seq<Asset>) -> Set<(AssetId, AssetInstance)> {
    Set::new(
        |p: (AssetId, AssetInstance)|
            exists|i: int| 0 <= i < s.len() && s[i].id == p.0 && s[i].fun == Fungibility::NonFungible(p.1),
    )
}

/// Adding the assets of `s` in turn to an empty holding gives, for each
/// fungible class, an entry exactly when `s` names that class, holding the
/// saturating sum of its amounts; and, as items, exactly those that `s` names.
pub proof fn lemma_subsume_totals(s: Seq<Asset>, id: AssetId)
    ensures
        HoldingView::empty().subsume_seq(s).fungible.contains_key(id) == has_fungible(s, id),
        has_fungible(s, id) ==> HoldingView::empty().subsume_seq(s).fungible[id] == saturating_total(s, id),
        !has_fungible(s, id) ==> saturating_total(s, id) == 0,
        HoldingView::empty().subsume_seq(s).non_fungible == non_fungible_pairs(s),
    decreases s.len(),
{
    if s.len() == 0 {
        assert(non_fungible_pairs(s) =~= Set::<(AssetId, AssetInstance)>::empty());
    } else {
        let p = s.drop_last();
        let a = s.last();
        lemma_subsume_totals(p, id);
        assert(has_fungible(s, id) == (has_fungible(p, id) || (a.id == id && a.fun is Fungible))) by {
            if has_fungible(p, id) {
                let i = choose|i: int| 0 <= i < p.len() && p[i].id == id && p[i].fun is Fungible;
                assert(s[i] == p[i]);
            }
            if a.id == id && a.fun is Fungible {
                assert(s[s.len() - 1] == a);
            }
            if has_fungible(s, id) {
                let i = choose|i: int| 0 <= i < s.len() && s[i].id == id && s[i].fun is Fungible;
                if i < p.len() {
                    assert(p[i] == s[i]);
                }
            }
        }
        assert forall|q: (AssetId, AssetInstance)| #[trigger] non_fungible_pairs(s).contains(q)
            == (non_fungible_pairs(p).contains(q) || (a.id == q.0 && a.fun == Fungibility::NonFungible(q.1))) by {
            if non_fungible_pairs(p).contains(q) {
                let i = choose|i: int| 0 <= i < p.len() && p[i].id == q.0 && p[i].fun == Fungibility::NonFungible(q.1);
                assert(s[i] == p[i]);
            }
            if a.id == q.0 && a.fun == Fungibility::NonFungible(q.1) {
                assert(s[s.len() - 1] == a);
            }
            if non_fungible_pairs(s).contains(q) {
                let i = choose|i: int| 0 <= i < s.len() && s[i].id == q.0 && s[i].fun == Fungibility::NonFungible(q.1);
                if i < p.len() {
                    assert(p[i] == s[i]);
                }
            }
        }
        let x = HoldingView::empty().subsume_seq(p);
        match a.fun {
            Fungibility::Fungible(n) => {
                assert(x.subsume(a).non_fungible =~= non_fungible_pairs(s));
            },
            Fungibility::NonFungible(i) => {
                assert(x.subsume(a).non_fungible =~= non_fungible_pairs(s));
            },
        }
    }
}

proof fn lemma_merge_subsume(h: HoldingView, x: HoldingView, a: Asset)
    requires
        a.fun is Fungible ==> !x.fungible.contains_key(a.id),
    ensures
        h.merge(x).subsume(a) == h.merge(x.subsume(a)),
{
    let l = h.merge(x).subsume(a);
    let r = h.merge(x.subsume(a));
    assert(l.fungible =~= r.fungible);
    assert(l.non_fungible =~= r.non_fungible);
}

proof fn lemma_subsume_seq_merge(h: HoldingView, s: Seq<Asset>)
    requires
        distinct_fungible_ids(s),
    ensures
        h.subsume_seq(s) == h.merge(HoldingView::empty().subsume_seq(s)),
    decreases s.len(),
{
    if s.len() == 0 {
        let m = h.merge(HoldingView::empty());
        assert(m.fungible =~= h.fungible);
        assert(m.non_fungible =~= h.non_fungible);
    } else {
        let p = s.drop_last();
        let a = s.last();
        assert(distinct_fungible_ids(p)) by {
            assert forall|i: int, j: int|
                0 <= i < p.len() && 0 <= j < p.len() && i != j && p[i].fun is Fungible && p[j].fun is Fungible
                implies p[i].id != p[j].id by {
                assert(p[i] == s[i] && p[j] == s[j]);
            }
        }
        lemma_subsume_seq_merge(h, p);
        let x = HoldingView::empty().subsume_seq(p);
        if a.fun is Fungible {
            lemma_subsume_totals(p, a.id);
            if has_fungible(p, a.id) {
                let i = choose|i: int| 0 <= i < p.len() && p[i].id == a.id && p[i].fun is Fungible;
                assert(s[i] == p[i]);
                assert(s[s.len() - 1] == a);
            }
        }
        lemma_merge_subsume(h, x, a);
    }
}

/// Merging a holding into `h` is adding its assets to `h` one by one, in the
/// order that `into_assets_iter` lists them.
pub proof fn lemma_merge_is_subsume_each(h: HoldingView, o: AssetsInHolding)
    requires
        o.wf(),
    ensures
        h.merge(o@) == h.subsume_seq(o.assets_seq()),
{
    lemma_assets_seq_shape(o);
    lemma_round_trip(o);
    lemma_subsume_seq_merge(h, o.assets_seq());
}


impl AssetsInHolding {
    /// Removes up to `filter`'s worth from this holding and returns what was
    /// removed. The wildcard over everything takes the whole holding. A
    /// definite list is taken request by request: of a fungible class the
    /// smaller of the request and what is held, deleting an entry that reaches
    /// zero; an item if it is held. A request is never an error.
    pub fn saturating_take(&mut self, filter: AssetFilter) -> (taken: AssetsInHolding)
        requires
            old(self).wf(),
            filter.is_supported(),
        ensures
            final(self).wf(),
            taken.wf(),
            filter == AssetFilter::Wild(WildAsset::All) ==> taken == *old(self)
                && final(self)@ == HoldingView::empty(),
            filter matches AssetFilter::Definite(v) ==> (final(self)@, taken@) == old(self)@.take_seq(
                HoldingView::empty(),
                v@,
            ),
    {
        match filter {
            AssetFilter::Wild(_) => {
                let mut new_holding = AssetsInHolding::new();
                std::mem::swap(self, &mut new_holding);
                new_holding
            },
            AssetFilter::Definite(assets) => {
                let mut taken = AssetsInHolding::new();
                let ghost start = self@;
                let mut i: usize = 0;
                while i < assets.len()
                    invariant
                        self.wf(),
                        taken.wf(),
                        i <= assets@.len(),
                        (self@, taken@) == start.take_seq(HoldingView::empty(), assets@.subrange(0, i as int)),
                    decreases assets@.len() - i,
                {
                    let a = assets[i];
                    proof {
                        assert(assets@.subrange(0, i + 1).drop_last() =~= assets@.subrange(0, i as int));
                    }
                    self.take_one(&mut taken, a);
                    i = i + 1;
                }
                proof {
                    assert(assets@.subrange(0, assets@.len() as int) =~= assets@);
                }
                taken
            },
        }
    }

    /// Moves up to `a` from this holding into `taken`.
    fn take_one(&mut self, taken: &mut AssetsInHolding, a: Asset)
        requires
            old(self).wf(),
            old(taken).wf(),
        ensures
            final(self).wf(),
            final(taken).wf(),
            (final(self)@, final(taken)@) == old(self)@.take_one(old(taken)@, a),
    {
        match a.fun {
            Fungibility::Fungible(requested) => {
                match self.find_fungible(&a.id) {
                    Some(k) => {
                        proof {
                            lemma_entries_index(self.fungible@, k as int);
                        }
                        let held = self.fungible[k].1;
                        let amount = if requested < held { requested } else { held };
                        let left = held - amount;
                        if left == 0 {
                            proof {
                                lemma_entries_remove(self.fungible@, k as int);
                                lemma_sorted_remove(fungible_codes(self.fungible@), k as int);
                                assert(fungible_codes(self.fungible@.remove(k as int))
                                    =~= fungible_codes(self.fungible@).remove(k as int));
                            }
                            self.fungible.remove(k);
                        } else {
                            proof {
                                lemma_entries_update(self.fungible@, k as int, left);
                                assert(fungible_codes(self.fungible@.update(k as int, (a.id, left)))
                                    =~= fungible_codes(self.fungible@));
                            }
                            self.fungible.set(k, (a.id, left));
                        }
                        if amount > 0 {
                            taken.subsume(Asset { id: a.id, fun: Fungibility::Fungible(amount) });
                        }
                    },
                    None => {
                        proof {
                            if self@.fungible.contains_key(a.id) {
                                let i = choose|i: int| 0 <= i < self.fungible@.len() && self.fungible@[i].0 == a.id;
                            }
                        }
                    },
                }
            },
            Fungibility::NonFungible(instance) => {
                match self.find_non_fungible(&a.id, &instance) {
                    Some(k) => {
                        let ghost before = self.non_fungible@;
                        self.non_fungible.remove(k);
                        proof {
                            lemma_remove_to_set(before, k as int);
                            lemma_sorted_remove(item_codes(before), k as int);
                            assert(item_codes(before.remove(k as int)) =~= item_codes(before).remove(k as int));
                        }
                        taken.subsume(a);
                    },
                    None => {},
                }
            },
        }
    }
}

proof fn lemma_remove_to_set<T>(s: Seq<T>, k: int)
    requires
        s.no_duplicates(),
        0 <= k < s.len(),
    ensures
        s.remove(k).no_duplicates(),
        s.remove(k).to_set() == s.to_set().remove(s[k]),
{
    let t = s.remove(k);
    assert forall|a: int, b: int| 0 <= a < t.len() && 0 <= b < t.len() && a != b implies t[a] != t[b] by {
        let a2 = if a < k { a } else { a + 1 };
        let b2 = if b < k { b } else { b + 1 };
        assert(t[a] == s[a2] && t[b] == s[b2]);
    }
    assert forall|y: T| #[trigger] t.contains(y) == s.to_set().remove(s[k]).contains(y) by {
        if t.contains(y) {
            let i = choose|i: int| 0 <= i < t.len() && t[i] == y;
            let i2 = if i < k { i } else { i + 1 };
            assert(s[i2] == y);
            assert(i2 != k);
        }
        if s.contains(y) && y != s[k] {
            let i = choose|i: int| 0 <= i < s.len() && s[i] == y;
            if i < k {
                assert(t[i] == y);
            } else {
                assert(t[i - 1] == y);
            }
        }
    }
    assert(t.to_set() =~= s.to_set().remove(s[k]));
}


/// The sum of the fungible amounts of class `id` that `s` requests.
pub open spec fn requested(s: Seq<Asset>, id: AssetId) -> int
    decreases s.len(),
{
    if s.len() == 0 {
        0
    } else {
        requested(s.drop_last(), id) + if s.last().id == id {
            match s.last().fun {
                Fungibility::Fungible(n) => n as int,
                Fungibility::NonFungible(_) => 0int,
            }
        } else {
            0int
        }
    }
}

/// Taking a definite list from `h` never removes more than is held: of each
/// fungible class the amount taken is the smaller of the total requested and
/// what was held, what is left is the rest, an entry left at zero after a
/// request for its class is deleted, and the taken holding has an entry for
/// the class only when the amount taken is positive.
pub proof fn lemma_take_totals(h: HoldingView, s: Seq<Asset>, id: AssetId)
    ensures
        h.take_seq(HoldingView::empty(), s).1.held(id) == (if requested(s, id) < h.held(id) {
            requested(s, id)
        } else {
            h.held(id)
        }),
        h.take_seq(HoldingView::empty(), s).0.held(id) == h.held(id) - h.take_seq(HoldingView::empty(), s).1.held(id),
        h.take_seq(HoldingView::empty(), s).1.fungible.contains_key(id) == (h.take_seq(HoldingView::empty(), s).1.held(id) > 0),
        has_fungible(s, id) && h.take_seq(HoldingView::empty(), s).0.held(id) == 0
            ==> !h.take_seq(HoldingView::empty(), s).0.fungible.contains_key(id),
    decreases s.len(),
{
    if s.len() > 0 {
        let p = s.drop_last();
        let a = s.last();
        lemma_take_totals(h, p, id);
        assert(requested(p, id) >= 0) by {
            lemma_requested_nonnegative(p, id);
        }
        assert(has_fungible(s, id) == (has_fungible(p, id) || (a.id == id && a.fun is Fungible))) by {
            if has_fungible(p, id) {
                let i = choose|i: int| 0 <= i < p.len() && p[i].id == id && p[i].fun is Fungible;
                assert(s[i] == p[i]);
            }
            if a.id == id && a.fun is Fungible {
                assert(s[s.len() - 1] == a);
            }
            if has_fungible(s, id) {
                let i = choose|i: int| 0 <= i < s.len() && s[i].id == id && s[i].fun is Fungible;
                if i < p.len() {
                    assert(p[i] == s[i]);
                }
            }
        }
    }
}

proof fn lemma_requested_nonnegative(s: Seq<Asset>, id: AssetId)
    ensures
        requested(s, id) >= 0,
    decreases s.len(),
{
    if s.len() > 0 {
        lemma_requested_nonnegative(s.drop_last(), id);
    }
}

} // verus!

//! Amounts per address, kept in the host's ordered map.
use crate::types::{Address, AddressKind};
use vstd::prelude::*;

verus! {

/// The contract host's environment, in which host objects live.
#[verifier::external_type_specification]
#[verifier::external_body]
pub struct ExEnv(soroban_sdk::Env);

/// The host's ordered map.
#[verifier::external_type_specification]
#[verifier::external_body]
#[verifier::reject_recursive_types(K)]
#[verifier::reject_recursive_types(V)]
pub struct ExHostMap<K, V>(soroban_sdk::Map<K, V>);

/// The keys and values that a host map holds.
pub uninterp spec fn host_map_contents(map: soroban_sdk::Map<(u32, u128, u128), i128>) -> Map<
    (u32, u128, u128),
    i128,
>;

/// Whether every key and value in a host map has the type that the map is used
/// at. The host itself does not enforce it on maps that come from elsewhere.
pub uninterp spec fn host_map_is_typed(map: soroban_sdk::Map<(u32, u128, u128), i128>) -> bool;

/// Lexicographic order on keys.
pub open spec fn key_before(a: (u32, u128, u128), b: (u32, u128, u128)) -> bool {
    ||| a.0 < b.0
    ||| a.0 == b.0 && a.1 < b.1
    ||| a.0 == b.0 && a.1 == b.1 && a.2 < b.2
}

/// Calls `soroban_sdk::Map::new`: a map without entries. Like every host call,
/// it is metered by the host, which ends the transaction where the budget of
/// the transaction is used up; nothing is said of that here.
#[verifier::external_body]
fn host_map_new(env: &soroban_sdk::Env) -> (map: soroban_sdk::Map<(u32, u128, u128), i128>)
    ensures
        host_map_contents(map).dom() == Set::<(u32, u128, u128)>::empty(),
        host_map_is_typed(map),
{
    soroban_sdk::Map::new(env)
}

/// Calls `soroban_sdk::Map::get`: the value under a key, or `None` where the
/// map has no such key. It panics where the value is not of the map's type,
/// which `requires` rules out.
#[verifier::external_body]
fn host_map_get(
    map: &soroban_sdk::Map<(u32, u128, u128), i128>,
    key: (u32, u128, u128),
) -> (value: Option<i128>)
    requires
        host_map_is_typed(*map),
    ensures
        value == if host_map_contents(*map).contains_key(key) {
            Some(host_map_contents(*map)[key])
        } else {
            None
        },
{
    map.get(key)
}

/// Calls `soroban_sdk::Map::set`: the key now has this value, and all other
/// keys keep theirs. The host refuses to grow a map beyond `u32::MAX` entries,
/// which `requires` rules out.
#[verifier::external_body]
fn host_map_set(
    map: &mut soroban_sdk::Map<(u32, u128, u128), i128>,
    key: (u32, u128, u128),
    value: i128,
)
    requires
        host_map_is_typed(*old(map)),
        host_map_contents(*old(map)).dom().finite(),
        host_map_contents(*old(map)).dom().len() < u32::MAX,
    ensures
        host_map_contents(*final(map)) == host_map_contents(*old(map)).insert(key, value),
        host_map_is_typed(*final(map)),
{
    map.set(key, value)
}

/// Calls `soroban_sdk::Map::iter`: every key of the map once, with its value,
/// in the order of the keys. The host orders a tuple of integers by its first
/// component, then the second, then the third, each by its value.
#[verifier::external_body]
fn host_map_iter(map: &soroban_sdk::Map<(u32, u128, u128), i128>) -> (entries: Vec<
    ((u32, u128, u128), i128),
>)
    requires
        host_map_is_typed(*map),
    ensures
        forall|i: int, j: int|
            0 <= i < j < entries.len() ==> key_before(
                (#[trigger] entries[i]).0,
                (#[trigger] entries[j]).0,
            ),
        forall|i: int|
            0 <= i < entries.len() ==> host_map_contents(*map).contains_key(
                (#[trigger] entries[i]).0,
            ) && host_map_contents(*map)[entries[i].0] == entries[i].1,
        forall|key: (u32, u128, u128)| #[trigger]
            host_map_contents(*map).contains_key(key) ==> exists|i: int|
                0 <= i < entries.len() && (#[trigger] entries[i]).0 == key,
{
    map.iter().collect()
}

impl Address {
    /// The integers by which the address is ordered: its kind, accounts first,
    /// then its identifier.
    pub open spec fn key(self) -> (u32, u128, u128) {
        (
            match self.kind {
                AddressKind::Account => 0u32,
                AddressKind::Contract => 1u32,
            },
            self.high,
            self.low,
        )
    }

    /// Whether the address comes before another one in the host's order.
    pub open spec fn before(self, other: Address) -> bool {
        key_before(self.key(), other.key())
    }

    /// The integers by which the address is ordered.
    fn to_key(&self) -> (key: (u32, u128, u128))
        ensures
            key == self.key(),
    {
        let kind: u32 = match self.kind {
            AddressKind::Account => 0,
            AddressKind::Contract => 1,
        };
        (kind, self.high, self.low)
    }

    /// The address that has these integers.
    fn from_key(key: (u32, u128, u128)) -> (address: Address)
        requires
            key.0 <= 1,
        ensures
            address.key() == key,
    {
        let kind = if key.0 == 0 {
            AddressKind::Account
        } else {
            AddressKind::Contract
        };
        Address { kind, high: key.1, low: key.2 }
    }
}

/// Whether a sequence lists all totals, each address once, in the order of the addresses.
pub open spec fn lists_totals(
    entries: Seq<(Address, i128)>,
    totals: Map<Address, i128>,
) -> bool {
    &&& forall|i: int, j: int|
        0 <= i < j < entries.len() ==> (#[trigger] entries[i]).0.before((#[trigger] entries[j]).0)
    &&& forall|i: int|
        0 <= i < entries.len() ==> totals.contains_key((#[trigger] entries[i]).0)
            && totals[entries[i].0] == entries[i].1
    &&& forall|a: Address| #[trigger]
        totals.contains_key(a) ==> exists|i: int|
            0 <= i < entries.len() && (#[trigger] entries[i]).0 == a
}

/// The totals, each address once, in the order of the addresses.
pub open spec fn listing(totals: Map<Address, i128>) -> Seq<(Address, i128)> {
    choose|entries: Seq<(Address, i128)>| lists_totals(entries, totals)
}

/// There is only one way to list totals in order.
pub proof fn lemma_listing_unique(
    s: Seq<(Address, i128)>,
    t: Seq<(Address, i128)>,
    totals: Map<Address, i128>,
)
    requires
        lists_totals(s, totals),
        lists_totals(t, totals),
    ensures
        s == t,
    decreases s.len(),
{
    if s.len() == 0 {
        if t.len() > 0 {
            assert(totals.contains_key(t[0].0));
        }
        assert(s =~= t);
    } else {
        let a = s.last().0;
        assert(s[s.len() - 1].0 == a);
        assert(totals.contains_key(a));
        let i = choose|i: int| 0 <= i < t.len() && (#[trigger] t[i]).0 == a;
        assert(t.last() == t[t.len() - 1]);
        let b = t.last().0;
        assert(totals.contains_key(b));
        let j = choose|j: int| 0 <= j < s.len() && (#[trigger] s[j]).0 == b;
        if i < t.len() - 1 {
            assert(a.before(b));
            if j < s.len() - 1 {
                assert(b.before(a));
            }
        }
        assert(a == b && s.last() == t.last());
        let rest = totals.remove(a);
        let s1 = s.drop_last();
        let t1 = t.drop_last();
        lemma_listing_init(s, totals);
        lemma_listing_init(t, totals);
        lemma_listing_unique(s1, t1, rest);
        assert(s =~= s1.push(s.last()));
        assert(t =~= t1.push(t.last()));
    }
}

/// A listing without its last entry lists the totals without that address.
pub proof fn lemma_listing_init(s: Seq<(Address, i128)>, totals: Map<Address, i128>)
    requires
        lists_totals(s, totals),
        s.len() > 0,
    ensures
        lists_totals(s.drop_last(), totals.remove(s.last().0)),
{
    let init = s.drop_last();
    let a = s.last().0;
    let rest = totals.remove(a);
    assert forall|i: int| 0 <= i < init.len() implies rest.contains_key((#[trigger] init[i]).0)
        && rest[init[i].0] == init[i].1 by {
        assert(s[i].0.before(s[s.len() - 1].0));
    }
    assert forall|i: int, j: int| 0 <= i < j < init.len() implies (#[trigger] init[i]).0.before(
        (#[trigger] init[j]).0,
    ) by {
        assert(s[i].0.before(s[j].0));
    }
    assert forall|b: Address| #[trigger] rest.contains_key(b) implies exists|i: int|
        0 <= i < init.len() && (#[trigger] init[i]).0 == b by {
        let i = choose|i: int| 0 <= i < s.len() && (#[trigger] s[i]).0 == b;
        assert(init[i].0 == b);
    }
}

/// A listing with one more entry, put where its address belongs.
pub open spec fn with_entry(s: Seq<(Address, i128)>, x: (Address, i128)) -> Seq<(Address, i128)>
    decreases s.len(),
{
    if s.len() == 0 || s.last().0.before(x.0) {
        s.push(x)
    } else {
        with_entry(s.drop_last(), x).push(s.last())
    }
}

/// A listing with one more entry lists the totals with that entry.
pub proof fn lemma_with_entry(
    s: Seq<(Address, i128)>,
    x: (Address, i128),
    totals: Map<Address, i128>,
)
    requires
        lists_totals(s, totals),
        !totals.contains_key(x.0),
    ensures
        lists_totals(with_entry(s, x), totals.insert(x.0, x.1)),
    decreases s.len(),
{
    let t = with_entry(s, x);
    let more = totals.insert(x.0, x.1);
    if s.len() == 0 || s.last().0.before(x.0) {
        assert forall|i: int, j: int| 0 <= i < j < t.len() implies (#[trigger] t[i]).0.before(
            (#[trigger] t[j]).0,
        ) by {
            if j == s.len() && i < s.len() - 1 {
                assert(s[i].0.before(s[s.len() - 1].0));
            }
        }
        assert forall|i: int| 0 <= i < t.len() implies more.contains_key((#[trigger] t[i]).0)
            && more[t[i].0] == t[i].1 by {
            if i < s.len() {
                assert(totals.contains_key(s[i].0));
            }
        }
        assert forall|a: Address| #[trigger] more.contains_key(a) implies exists|i: int|
            0 <= i < t.len() && (#[trigger] t[i]).0 == a by {
            if a == x.0 {
                assert(t[s.len() as int].0 == a);
            } else {
                let i = choose|i: int| 0 <= i < s.len() && (#[trigger] s[i]).0 == a;
                assert(t[i].0 == a);
            }
        }
    } else {
        let last = s.last();
        let init = s.drop_last();
        let inner = with_entry(init, x);
        assert(totals.contains_key(s[s.len() - 1].0));
        assert(x.0.before(last.0));
        lemma_listing_init(s, totals);
        lemma_with_entry(init, x, totals.remove(last.0));
        let inner_totals = totals.remove(last.0).insert(x.0, x.1);
        assert forall|i: int| 0 <= i < inner.len() implies (#[trigger] inner[i]).0.before(
            last.0,
        ) by {
            let a = inner[i].0;
            assert(inner_totals.contains_key(a));
            if a != x.0 {
                let j = choose|j: int| 0 <= j < init.len() && (#[trigger] init[j]).0 == a;
                assert(s[j].0.before(s[s.len() - 1].0));
            }
        }
        assert forall|i: int| 0 <= i < t.len() implies more.contains_key((#[trigger] t[i]).0)
            && more[t[i].0] == t[i].1 by {
            if i < inner.len() {
                assert(inner_totals.contains_key(inner[i].0));
            }
        }
        assert forall|i: int, j: int| 0 <= i < j < t.len() implies (#[trigger] t[i]).0.before(
            (#[trigger] t[j]).0,
        ) by {
            assert(t[i] == inner[i]);
            if j < inner.len() {
                assert(inner[i].0.before(inner[j].0));
            }
        }
        assert forall|a: Address| #[trigger] more.contains_key(a) implies exists|i: int|
            0 <= i < t.len() && (#[trigger] t[i]).0 == a by {
            if a == last.0 {
                assert(t[inner.len() as int].0 == a);
            } else {
                assert(inner_totals.contains_key(a));
                let i = choose|i: int| 0 <= i < inner.len() && (#[trigger] inner[i]).0 == a;
                assert(t[i].0 == a);
            }
        }
    }
}

/// Finitely many totals can be listed in order.
pub proof fn lemma_listing(totals: Map<Address, i128>)
    requires
        totals.dom().finite(),
    ensures
        lists_totals(listing(totals), totals),
    decreases totals.dom().len(),
{
    if totals.dom().len() == 0 {
        assert(totals.dom() =~= Set::empty());
        assert forall|a: Address| totals.contains_key(a) implies false by {
            assert(totals.dom().contains(a));
        }
        assert(lists_totals(Seq::empty(), totals));
    } else {
        let a = totals.dom().choose();
        assert(totals.contains_key(a));
        let rest = totals.remove(a);
        assert(rest.dom() =~= totals.dom().remove(a));
        lemma_listing(rest);
        lemma_with_entry(listing(rest), (a, totals[a]), rest);
        assert(rest.insert(a, totals[a]) =~= totals);
        assert(lists_totals(with_entry(listing(rest), (a, totals[a])), totals));
    }
}

/// An amount for each of a number of addresses.
pub struct Tally {
    map: soroban_sdk::Map<(u32, u128, u128), i128>,
}

impl View for Tally {
    type V = Map<Address, i128>;

    closed spec fn view(&self) -> Map<Address, i128> {
        Map::new(
            |a: Address| host_map_contents(self.map).contains_key(a.key()),
            |a: Address| host_map_contents(self.map)[a.key()],
        )
    }
}

impl Tally {
    /// Whether the map behind the tally is sound: typed, finite, and keyed by addresses only.
    pub closed spec fn wf(&self) -> bool {
        &&& host_map_is_typed(self.map)
        &&& host_map_contents(self.map).dom().finite()
        &&& forall|key: (u32, u128, u128)| #[trigger]
            host_map_contents(self.map).contains_key(key) ==> key.0 <= 1
    }

    /// How many addresses have an amount.
    pub closed spec fn size(&self) -> nat {
        host_map_contents(self.map).dom().len()
    }

    /// A tally without amounts.
    pub fn new(env: &soroban_sdk::Env) -> (tally: Tally)
        ensures
            tally.wf(),
            tally.size() == 0,
            tally@ == Map::<Address, i128>::empty(),
    {
        let tally = Tally { map: host_map_new(env) };
        assert(tally@ =~= Map::<Address, i128>::empty());
        tally
    }

    /// The amount of an address, if it has one.
    pub fn get(&self, address: Address) -> (amount: Option<i128>)
        requires
            self.wf(),
        ensures
            amount == if self@.contains_key(address) {
                Some(self@[address])
            } else {
                None
            },
    {
        host_map_get(&self.map, address.to_key())
    }

    /// Gives an address an amount.
    pub fn set(&mut self, address: Address, amount: i128)
        requires
            old(self).wf(),
            old(self).size() < u32::MAX,
        ensures
            final(self).wf(),
            final(self).size() <= old(self).size() + 1,
            final(self)@ == old(self)@.insert(address, amount),
    {
        host_map_set(&mut self.map, address.to_key(), amount);
        assert(self@ =~= old(self)@.insert(address, amount)) by {
            assert forall|a: Address| a.key() == address.key() implies a == address by {}
        }
    }

    /// All amounts, in the order of the addresses.
    pub fn entries(&self) -> (entries: Vec<(Address, i128)>)
        requires
            self.wf(),
        ensures
            lists_totals(entries@, self@),
            entries@ == listing(self@),
    {
        let pairs = host_map_iter(&self.map);
        let mut entries: Vec<(Address, i128)> = Vec::new();
        let mut i: usize = 0;
        while i < pairs.len()
            invariant
                i <= pairs.len(),
                entries.len() == i,
                forall|j: int|
                    0 <= j < pairs.len() ==> host_map_contents(self.map).contains_key(
                        (#[trigger] pairs[j]).0,
                    ),
                self.wf(),
                forall|j: int|
                    0 <= j < i ==> (#[trigger] entries[j]).0.key() == pairs[j].0 && entries[j].1
                        == pairs[j].1,
            decreases pairs.len() - i,
        {
            let (key, amount) = pairs[i];
            assert(host_map_contents(self.map).contains_key(pairs[i as int].0));
            entries.push((Address::from_key(key), amount));
            i = i + 1;
        }
        proof {
            assert forall|m: int, n: int| 0 <= m < n < entries.len() implies (
            #[trigger] entries[m]).0.before((#[trigger] entries[n]).0) by {
                assert(key_before(pairs[m].0, pairs[n].0));
            }
            assert forall|m: int| 0 <= m < entries.len() implies self@.contains_key(
                (#[trigger] entries[m]).0,
            ) && self@[entries[m].0] == entries[m].1 by {
                assert(host_map_contents(self.map).contains_key(pairs[m].0));
            }
            assert forall|a: Address| #[trigger] self@.contains_key(a) implies exists|m: int|
                0 <= m < entries.len() && (#[trigger] entries[m]).0 == a by {
                assert(host_map_contents(self.map).contains_key(a.key()));
                let m = choose|m: int| 0 <= m < pairs.len() && (#[trigger] pairs[m]).0 == a.key();
                assert(entries[m].0.key() == a.key());
                assert(entries[m].0 == a);
            }
            lemma_listing_unique(entries@, listing(self@), self@);
        }
        entries
    }
}

} // verus!

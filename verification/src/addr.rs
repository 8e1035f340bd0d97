//! Network addresses, and sets and maps keyed by them.
use vstd::prelude::*;

verus! {

/// An IP address: the number that its bytes spell, most significant first.
#[derive(Debug, PartialEq, Eq, Clone, Copy, Structural)]
pub enum IpAddr {
    V4(u32),
    V6(u128),
}

/// The address of a socket. The flow label and the scope are zero for an IPv4
/// address.
#[derive(Debug, PartialEq, Eq, Clone, Copy, Structural)]
pub struct SocketAddr {
    pub ip: IpAddr,
    pub port: u16,
    pub flow_info: u32,
    pub scope_id: u32,
}

impl SocketAddr {
    /// The socket address of a port of `ip`.
    pub fn new(ip: IpAddr, port: u16) -> (addr: SocketAddr)
        ensures
            addr == (SocketAddr { ip, port, flow_info: 0, scope_id: 0 }),
    {
        SocketAddr { ip, port, flow_info: 0, scope_id: 0 }
    }
}

/// IPv4 addresses come before IPv6 addresses, and each kind is ordered by its
/// number.
pub open spec fn ip_le(a: IpAddr, b: IpAddr) -> bool {
    match (a, b) {
        (IpAddr::V4(x), IpAddr::V4(y)) => x <= y,
        (IpAddr::V6(x), IpAddr::V6(y)) => x <= y,
        (IpAddr::V4(_), IpAddr::V6(_)) => true,
        (IpAddr::V6(_), IpAddr::V4(_)) => false,
    }
}

impl IpAddr {
    /// Whether this address comes before `other` or is the same.
    pub fn le(&self, other: &IpAddr) -> (le: bool)
        ensures
            le == ip_le(*self, *other),
    {
        match (*self, *other) {
            (IpAddr::V4(x), IpAddr::V4(y)) => x <= y,
            (IpAddr::V6(x), IpAddr::V6(y)) => x <= y,
            (IpAddr::V4(_), IpAddr::V6(_)) => true,
            (IpAddr::V6(_), IpAddr::V4(_)) => false,
        }
    }
}

/// Where `ip` stands in the list, if it does.
pub fn position_of(list: &Vec<IpAddr>, ip: IpAddr) -> (found: Option<usize>)
    ensures
        match found {
            Some(i) => i < list@.len() && list@[i as int] == ip,
            None => !list@.contains(ip),
        },
{
    let mut i: usize = 0;
    while i < list.len()
        invariant
            i <= list@.len(),
            forall|k: int| 0 <= k < i ==> list@[k] != ip,
        decreases list@.len() - i,
    {
        if list[i] == ip {
            return Some(i);
        }
        i += 1;
    }
    None
}

/// Whether both lists hold the same addresses in the same order.
pub fn same_list(a: &Vec<IpAddr>, b: &Vec<IpAddr>) -> (same: bool)
    ensures
        same == (a@ == b@),
{
    if a.len() != b.len() {
        return false;
    }
    let mut i: usize = 0;
    while i < a.len()
        invariant
            i <= a@.len() == b@.len(),
            forall|k: int| 0 <= k < i ==> a@[k] == b@[k],
        decreases a@.len() - i,
    {
        if a[i] != b[i] {
            return false;
        }
        i += 1;
    }
    assert(a@ =~= b@);
    true
}

/// A set of addresses.
#[derive(Debug)]
pub struct AddrSet {
    items: Vec<IpAddr>,
}

impl View for AddrSet {
    type V = Set<IpAddr>;

    closed spec fn view(&self) -> Set<IpAddr> {
        self.items@.to_set()
    }
}

impl AddrSet {
    #[verifier::type_invariant]
    spec fn distinct(self) -> bool {
        self.items@.no_duplicates()
    }

    /// The empty set.
    pub fn new() -> (set: AddrSet)
        ensures
            set@ == Set::<IpAddr>::empty(),
    {
        let set = AddrSet { items: Vec::new() };
        assert(set@ =~= Set::<IpAddr>::empty());
        set
    }

    /// Whether the set holds `ip`.
    pub fn contains(&self, ip: &IpAddr) -> (found: bool)
        ensures
            found == self@.contains(*ip),
    {
        position_of(&self.items, *ip).is_some()
    }

    /// Whether the set holds nothing.
    pub fn is_empty(&self) -> (empty: bool)
        ensures
            empty == (self@ == Set::<IpAddr>::empty()),
    {
        proof {
            if self.items@.len() > 0 {
                assert(self.items@.contains(self.items@[0]));
                assert(self@.contains(self.items@[0]));
            } else {
                assert(self@ =~= Set::<IpAddr>::empty());
            }
        }
        self.items.is_empty()
    }

    /// Adds `ip`.
    pub fn insert(&mut self, ip: IpAddr)
        ensures
            final(self)@ == old(self)@.insert(ip),
    {
        proof {
            use_type_invariant(&*self);
        }
        let mut items = copy_list(&self.items);
        if position_of(&items, ip).is_none() {
            let ghost before = items@;
            items.push(ip);
            proof {
                assert(items@.to_set() =~= before.to_set().insert(ip)) by {
                    assert forall|x: IpAddr| items@.contains(x) == (before.contains(x) || x == ip) by {
                        if before.contains(x) {
                            let k = choose|k: int| 0 <= k < before.len() && before[k] == x;
                            assert(items@[k] == x);
                        }
                        assert(items@[items@.len() - 1] == ip);
                    }
                }
            }
        } else {
            assert(items@.contains(ip));
            assert(items@.to_set().insert(ip) =~= items@.to_set());
        }
        *self = AddrSet { items };
    }

    /// Every address of the set, once each.
    pub fn to_list(&self) -> (list: Vec<IpAddr>)
        ensures
            list@.no_duplicates(),
            list@.to_set() == self@,
    {
        proof {
            use_type_invariant(self);
        }
        copy_list(&self.items)
    }

    /// Removes `ip`. Returns whether it was there.
    pub fn remove(&mut self, ip: &IpAddr) -> (found: bool)
        ensures
            found == old(self)@.contains(*ip),
            final(self)@ == old(self)@.remove(*ip),
    {
        proof {
            use_type_invariant(&*self);
        }
        let ghost before = self.items@;
        let mut items = copy_list(&self.items);
        match position_of(&items, *ip) {
            Some(i) => {
                items.remove(i);
                proof {
                    assert(before.contains(*ip)) by {
                        assert(before[i as int] == *ip);
                    }
                    assert(items@ =~= before.remove(i as int));
                    assert forall|a: int, b: int| 0 <= a < items@.len() && 0 <= b < items@.len()
                        && a != b implies items@[a] != items@[b] by {
                        let x = if a < i {
                            a
                        } else {
                            a + 1
                        };
                        let y = if b < i {
                            b
                        } else {
                            b + 1
                        };
                        assert(items@[a] == before[x]);
                        assert(items@[b] == before[y]);
                    }
                    assert forall|x: IpAddr| items@.contains(x) == (before.contains(x) && x
                        != *ip) by {
                        if items@.contains(x) {
                            let k = choose|k: int| 0 <= k < items@.len() && items@[k] == x;
                            let m = if k < i {
                                k
                            } else {
                                k + 1
                            };
                            assert(before[m] == x);
                            assert(before[m] != before[i as int]);
                        }
                        if before.contains(x) && x != *ip {
                            let k = choose|k: int| 0 <= k < before.len() && before[k] == x;
                            if k < i {
                                assert(items@[k] == x);
                            } else {
                                assert(items@[k - 1] == x);
                            }
                        }
                    }
                    assert(items@.to_set() =~= before.to_set().remove(*ip));
                }
                *self = AddrSet { items };
                true
            },
            None => {
                assert(before.to_set().remove(*ip) =~= before.to_set());
                false
            },
        }
    }

    /// Whether every address of this set is in `other`.
    pub fn is_within(&self, other: &AddrSet) -> (within: bool)
        ensures
            within == self@.subset_of(other@),
    {
        let mut i: usize = 0;
        while i < self.items.len()
            invariant
                i <= self.items@.len(),
                forall|k: int| 0 <= k < i ==> other@.contains(#[trigger] self.items@[k]),
            decreases self.items@.len() - i,
        {
            if !other.contains(&self.items[i]) {
                proof {
                    assert(self.items@.contains(self.items@[i as int]));
                    assert(self@.contains(self.items@[i as int]));
                }
                return false;
            }
            i += 1;
        }
        assert forall|ip: IpAddr| self@.contains(ip) implies other@.contains(ip) by {
            let k = choose|k: int| 0 <= k < self.items@.len() && self.items@[k] == ip;
            assert(other@.contains(self.items@[k]));
        }
        true
    }

    /// Whether both sets hold the same addresses.
    pub fn same_set(&self, other: &AddrSet) -> (same: bool)
        ensures
            same == (self@ == other@),
    {
        let same: bool = self.is_within(other) && other.is_within(self);
        proof {
            if same {
                assert(self@ =~= other@);
            }
        }
        same
    }

    /// Adds every address of `list`.
    pub fn insert_all(&mut self, list: &Vec<IpAddr>)
        ensures
            final(self)@ == old(self)@.union(list@.to_set()),
    {
        let ghost before = self@;
        let mut i: usize = 0;
        assert(self@ =~= before.union(list@.take(0).to_set()));
        while i < list.len()
            invariant
                i <= list@.len(),
                self@ == before.union(list@.take(i as int).to_set()),
            decreases list@.len() - i,
        {
            self.insert(list[i]);
            proof {
                let then = list@.take(i as int);
                let now = list@.take(i + 1);
                assert forall|x: IpAddr| now.contains(x) == (then.contains(x) || x == list@[i as int]) by {
                    if then.contains(x) {
                        let k = choose|k: int| 0 <= k < then.len() && then[k] == x;
                        assert(now[k] == x);
                    }
                    if now.contains(x) && x != list@[i as int] {
                        let k = choose|k: int| 0 <= k < now.len() && now[k] == x;
                        assert(then[k] == x);
                    }
                    assert(now[i as int] == list@[i as int]);
                }
                assert(self@ =~= before.union(now.to_set()));
            }
            i += 1;
        }
        assert(list@.take(i as int) =~= list@);
    }
}

impl Clone for AddrSet {
    /// A set of the same addresses.
    fn clone(&self) -> (set: Self)
        ensures
            set@ == self@,
    {
        proof {
            use_type_invariant(self);
        }
        AddrSet { items: copy_list(&self.items) }
    }
}

/// A list of the same addresses.
pub fn copy_list(list: &Vec<IpAddr>) -> (copy: Vec<IpAddr>)
    ensures
        copy@ == list@,
{
    let mut copy: Vec<IpAddr> = Vec::new();
    let mut i: usize = 0;
    while i < list.len()
        invariant
            i <= list@.len(),
            copy@ == list@.take(i as int),
        decreases list@.len() - i,
    {
        copy.push(list[i]);
        i += 1;
        assert(copy@ =~= list@.take(i as int));
    }
    assert(list@.take(i as int) =~= list@);
    copy
}

/// A map from addresses to values.
#[derive(Debug)]
pub struct AddrMap<V: Copy> {
    entries: Vec<(IpAddr, V)>,
}

/// The map that a list of entries makes: a later entry replaces an earlier one
/// with the same key.
pub open spec fn entry_map<V>(entries: Seq<(IpAddr, V)>) -> Map<IpAddr, V>
    decreases entries.len(),
{
    if entries.len() == 0 {
        Map::empty()
    } else {
        entry_map(entries.drop_last()).insert(entries.last().0, entries.last().1)
    }
}

/// No two entries have the same key.
pub open spec fn distinct_keys<V>(entries: Seq<(IpAddr, V)>) -> bool {
    forall|i: int, j: int|
        0 <= i < j < entries.len() ==> (#[trigger] entries[i]).0 != (#[trigger] entries[j]).0
}

/// Which keys a list of entries has, and where their values stand.
pub proof fn lemma_entry_map<V>(entries: Seq<(IpAddr, V)>)
    requires
        distinct_keys(entries),
    ensures
        forall|i: int|
            0 <= i < entries.len() ==> entry_map(entries).contains_key(
                (#[trigger] entries[i]).0,
            ) && entry_map(entries)[entries[i].0] == entries[i].1,
        forall|k: IpAddr| #[trigger]
            entry_map(entries).contains_key(k) ==> exists|i: int|
                0 <= i < entries.len() && (#[trigger] entries[i]).0 == k,
    decreases entries.len(),
{
    if entries.len() > 0 {
        let front = entries.drop_last();
        lemma_entry_map(front);
        let last = entries.last();
        assert forall|i: int| 0 <= i < entries.len() implies entry_map(entries).contains_key(
            (#[trigger] entries[i]).0,
        ) && entry_map(entries)[entries[i].0] == entries[i].1 by {
            if i < entries.len() - 1 {
                assert(front[i] == entries[i]);
                assert(entries[i].0 != entries[entries.len() - 1].0);
            }
        }
        assert forall|k: IpAddr| #[trigger] entry_map(entries).contains_key(k) implies exists|i: int|
            0 <= i < entries.len() && (#[trigger] entries[i]).0 == k by {
            if k == last.0 {
                assert(entries[entries.len() - 1].0 == k);
            } else {
                assert(entry_map(front).contains_key(k));
                let i = choose|i: int| 0 <= i < front.len() && (#[trigger] front[i]).0 == k;
                assert(entries[i].0 == k);
            }
        }
    }
}

impl<V: Copy> View for AddrMap<V> {
    type V = Map<IpAddr, V>;

    closed spec fn view(&self) -> Map<IpAddr, V> {
        entry_map(self.entries@)
    }
}

impl<V: Copy> AddrMap<V> {
    #[verifier::type_invariant]
    spec fn distinct(self) -> bool {
        distinct_keys(self.entries@)
    }

    /// The empty map.
    pub fn new() -> (map: AddrMap<V>)
        ensures
            map@ == Map::<IpAddr, V>::empty(),
    {
        AddrMap { entries: Vec::new() }
    }

    /// The value of `ip`, where it has one.
    pub fn get(&self, ip: &IpAddr) -> (value: Option<V>)
        ensures
            value == (if self@.contains_key(*ip) {
                Some(self@[*ip])
            } else {
                None
            }),
    {
        proof {
            use_type_invariant(self);
            lemma_entry_map(self.entries@);
        }
        let mut i: usize = 0;
        while i < self.entries.len()
            invariant
                i <= self.entries@.len(),
                forall|k: int| 0 <= k < i ==> (#[trigger] self.entries@[k]).0 != *ip,
                forall|k: int|
                    0 <= k < self.entries@.len() ==> self@.contains_key(
                        (#[trigger] self.entries@[k]).0,
                    ) && self@[self.entries@[k].0] == self.entries@[k].1,
            decreases self.entries@.len() - i,
        {
            if self.entries[i].0 == *ip {
                return Some(self.entries[i].1);
            }
            i += 1;
        }
        None
    }

    /// Whether `ip` has a value.
    pub fn contains_key(&self, ip: &IpAddr) -> (found: bool)
        ensures
            found == self@.contains_key(*ip),
    {
        self.get(ip).is_some()
    }

    /// Gives `ip` a value.
    pub fn insert(&mut self, ip: IpAddr, value: V)
        ensures
            final(self)@ == old(self)@.insert(ip, value),
    {
        proof {
            use_type_invariant(&*self);
            lemma_entry_map(self.entries@);
        }
        let ghost before = self.entries@;
        let mut entries: Vec<(IpAddr, V)> = Vec::new();
        let mut i: usize = 0;
        while i < self.entries.len()
            invariant
                i <= self.entries@.len(),
                self.entries@ == before,
                distinct_keys(before),
                distinct_keys(entries@),
                forall|k: int| 0 <= k < entries@.len() ==> (#[trigger] entries@[k]).0 != ip,
                forall|k: int|
                    0 <= k < entries@.len() ==> exists|j: int|
                        0 <= j < i && before[j] == #[trigger] entries@[k],
                entry_map(entries@) == entry_map(before.take(i as int)).remove(ip),
            decreases self.entries@.len() - i,
        {
            let entry = self.entries[i];
            proof {
                let now = before.take(i + 1);
                assert(now.drop_last() =~= before.take(i as int));
                assert(now.last() == entry);
            }
            if entry.0 != ip {
                let ghost then = entries@;
                entries.push(entry);
                proof {
                    assert(entries@.drop_last() =~= then);
                    assert forall|a: int, b: int| 0 <= a < b < entries@.len() implies (
                    #[trigger] entries@[a]).0 != (#[trigger] entries@[b]).0 by {
                        if b == then.len() {
                            assert(entries@[a] == then[a]);
                            let j = choose|j: int| 0 <= j < i && before[j] == then[a];
                            assert(before[j].0 != before[i as int].0);
                        } else {
                            assert(entries@[a] == then[a]);
                            assert(entries@[b] == then[b]);
                        }
                    }
                    assert forall|k: int| 0 <= k < entries@.len() implies exists|j: int|
                        0 <= j < i + 1 && before[j] == #[trigger] entries@[k] by {
                        if k < then.len() {
                            let j = choose|j: int| 0 <= j < i && before[j] == then[k];
                            assert(before[j] == entries@[k]);
                        } else {
                            assert(before[i as int] == entries@[k]);
                        }
                    }
                    assert(entry_map(entries@) =~= entry_map(before.take(i + 1)).remove(ip));
                }
            } else {
                proof {
                    assert(entry_map(entries@) =~= entry_map(before.take(i + 1)).remove(ip));
                    assert forall|k: int| 0 <= k < entries@.len() implies exists|j: int|
                        0 <= j < i + 1 && before[j] == #[trigger] entries@[k] by {
                        let j = choose|j: int| 0 <= j < i && before[j] == entries@[k];
                        assert(before[j] == entries@[k]);
                    }
                }
            }
            i += 1;
        }
        let ghost then = entries@;
        entries.push((ip, value));
        proof {
            assert(before.take(i as int) =~= before);
            assert(entries@.drop_last() =~= then);
            assert forall|a: int, b: int| 0 <= a < b < entries@.len() implies (
            #[trigger] entries@[a]).0 != (#[trigger] entries@[b]).0 by {
                assert(entries@[a] == then[a]);
                if b < then.len() {
                    assert(entries@[b] == then[b]);
                }
            }
            assert(entry_map(entries@) =~= entry_map(before).insert(ip, value));
        }
        *self = AddrMap { entries };
    }

    /// Every entry of the map, once each.
    pub fn entries(&self) -> (entries: Vec<(IpAddr, V)>)
        ensures
            distinct_keys(entries@),
            entry_map(entries@) == self@,
    {
        proof {
            use_type_invariant(self);
        }
        let mut entries: Vec<(IpAddr, V)> = Vec::new();
        let mut i: usize = 0;
        while i < self.entries.len()
            invariant
                i <= self.entries@.len(),
                entries@ == self.entries@.take(i as int),
            decreases self.entries@.len() - i,
        {
            entries.push(self.entries[i]);
            i += 1;
            assert(entries@ =~= self.entries@.take(i as int));
        }
        assert(self.entries@.take(i as int) =~= self.entries@);
        entries
    }

    /// Gives every address of `other` the value that it has there.
    pub fn insert_all(&mut self, other: &AddrMap<V>)
        ensures
            final(self)@ == old(self)@.union_prefer_right(other@),
    {
        let ghost before = self@;
        let all: Vec<(IpAddr, V)> = other.entries();
        let mut i: usize = 0;
        assert(self@ =~= before.union_prefer_right(entry_map(all@.take(0))));
        while i < all.len()
            invariant
                i <= all@.len(),
                self@ == before.union_prefer_right(entry_map(all@.take(i as int))),
            decreases all@.len() - i,
        {
            let ghost now = all@.take(i + 1);
            assert(now.drop_last() =~= all@.take(i as int));
            self.insert(all[i].0, all[i].1);
            assert(self@ =~= before.union_prefer_right(entry_map(now)));
            i += 1;
        }
        assert(all@.take(i as int) =~= all@);
    }

    /// The entries whose address is in `keep`.
    pub fn restricted(&self, keep: &AddrSet) -> (map: AddrMap<V>)
        ensures
            map@ == self@.restrict(keep@),
    {
        let all: Vec<(IpAddr, V)> = self.entries();
        let mut map: AddrMap<V> = AddrMap::new();
        let mut i: usize = 0;
        assert(map@ =~= entry_map(all@.take(0)).restrict(keep@));
        while i < all.len()
            invariant
                i <= all@.len(),
                map@ == entry_map(all@.take(i as int)).restrict(keep@),
            decreases all@.len() - i,
        {
            let ghost now = all@.take(i + 1);
            assert(now.drop_last() =~= all@.take(i as int));
            if keep.contains(&all[i].0) {
                map.insert(all[i].0, all[i].1);
            }
            assert(map@ =~= entry_map(now).restrict(keep@));
            i += 1;
        }
        assert(all@.take(i as int) =~= all@);
        map
    }
}

impl<V: Copy> Clone for AddrMap<V> {
    /// A map with the same entries.
    fn clone(&self) -> (map: Self)
        ensures
            map@ == self@,
    {
        AddrMap { entries: self.entries() }
    }
}

} // verus!

//! Address locks by network: which address of a client is pinned while this
//! host is on a given network.
use vstd::prelude::*;
use crate::addr::IpAddr;
use crate::text::same_text;

verus! {

/// The pinned address of each network that has one.
#[derive(Debug)]
pub struct LockMap {
    entries: Vec<(String, IpAddr)>,
}

/// The map that a list of entries makes: a later entry replaces an earlier one
/// for the same network.
pub open spec fn lock_map(entries: Seq<(String, IpAddr)>) -> Map<Seq<char>, IpAddr>
    decreases entries.len(),
{
    if entries.len() == 0 {
        Map::empty()
    } else {
        lock_map(entries.drop_last()).insert(entries.last().0@, entries.last().1)
    }
}

/// No two entries are for the same network.
pub open spec fn distinct_networks(entries: Seq<(String, IpAddr)>) -> bool {
    forall|i: int, j: int|
        0 <= i < j < entries.len() ==> (#[trigger] entries[i]).0@ != (#[trigger] entries[j]).0@
}

proof fn lemma_lock_map(entries: Seq<(String, IpAddr)>)
    requires
        distinct_networks(entries),
    ensures
        forall|i: int|
            0 <= i < entries.len() ==> lock_map(entries).contains_key((#[trigger] entries[i]).0@)
                && lock_map(entries)[entries[i].0@] == entries[i].1,
        forall|k: Seq<char>| #[trigger]
            lock_map(entries).contains_key(k) ==> exists|i: int|
                0 <= i < entries.len() && (#[trigger] entries[i]).0@ == k,
    decreases entries.len(),
{
    if entries.len() > 0 {
        let front = entries.drop_last();
        lemma_lock_map(front);
        assert forall|i: int| 0 <= i < entries.len() implies lock_map(entries).contains_key(
            (#[trigger] entries[i]).0@,
        ) && lock_map(entries)[entries[i].0@] == entries[i].1 by {
            if i < entries.len() - 1 {
                assert(front[i] == entries[i]);
                assert(entries[i].0@ != entries[entries.len() - 1].0@);
            }
        }
        assert forall|k: Seq<char>| #[trigger] lock_map(entries).contains_key(k) implies exists|
            i: int,
        |
            0 <= i < entries.len() && (#[trigger] entries[i]).0@ == k by {
            if k == entries.last().0@ {
                assert(entries[entries.len() - 1].0@ == k);
            } else {
                assert(lock_map(front).contains_key(k));
                let i = choose|i: int| 0 <= i < front.len() && (#[trigger] front[i]).0@ == k;
                assert(entries[i].0@ == k);
            }
        }
    }
}

impl View for LockMap {
    type V = Map<Seq<char>, IpAddr>;

    closed spec fn view(&self) -> Map<Seq<char>, IpAddr> {
        lock_map(self.entries@)
    }
}

impl LockMap {
    #[verifier::type_invariant]
    spec fn distinct(self) -> bool {
        distinct_networks(self.entries@)
    }

    /// No lock on any network.
    pub fn new() -> (locks: LockMap)
        ensures
            locks@ == Map::<Seq<char>, IpAddr>::empty(),
    {
        LockMap { entries: Vec::new() }
    }

    /// The lock of a network.
    pub fn get(&self, network: &str) -> (ip: Option<IpAddr>)
        ensures
            ip == (if self@.contains_key(network@) {
                Some(self@[network@])
            } else {
                None
            }),
    {
        proof {
            use_type_invariant(self);
            lemma_lock_map(self.entries@);
        }
        let mut i: usize = 0;
        while i < self.entries.len()
            invariant
                i <= self.entries@.len(),
                forall|k: int| 0 <= k < i ==> (#[trigger] self.entries@[k]).0@ != network@,
                forall|k: int|
                    0 <= k < self.entries@.len() ==> self@.contains_key(
                        (#[trigger] self.entries@[k]).0@,
                    ) && self@[self.entries@[k].0@] == self.entries@[k].1,
            decreases self.entries@.len() - i,
        {
            if same_text(self.entries[i].0.as_str(), network) {
                return Some(self.entries[i].1);
            }
            i += 1;
        }
        None
    }

    /// The entries of all other networks.
    fn others(&self, network: &str) -> (entries: Vec<(String, IpAddr)>)
        ensures
            distinct_networks(entries@),
            forall|k: int| 0 <= k < entries@.len() ==> (#[trigger] entries@[k]).0@ != network@,
            lock_map(entries@) == self@.remove(network@),
    {
        proof {
            use_type_invariant(self);
        }
        let mut entries: Vec<(String, IpAddr)> = Vec::new();
        let mut i: usize = 0;
        assert(lock_map(entries@) =~= lock_map(self.entries@.take(0)).remove(network@));
        while i < self.entries.len()
            invariant
                i <= self.entries@.len(),
                distinct_networks(self.entries@),
                distinct_networks(entries@),
                forall|k: int| 0 <= k < entries@.len() ==> (#[trigger] entries@[k]).0@ != network@,
                forall|k: int|
                    0 <= k < entries@.len() ==> exists|j: int|
                        0 <= j < i && (#[trigger] self.entries@[j]).0@ == (
                        #[trigger] entries@[k]).0@,
                lock_map(entries@) == lock_map(self.entries@.take(i as int)).remove(network@),
            decreases self.entries@.len() - i,
        {
            let ghost now = self.entries@.take(i + 1);
            let ghost then = entries@;
            assert(now.drop_last() =~= self.entries@.take(i as int));
            if !same_text(self.entries[i].0.as_str(), network) {
                entries.push((self.entries[i].0.clone(), self.entries[i].1));
                proof {
                    assert(entries@.drop_last() =~= then);
                    assert forall|a: int, b: int| 0 <= a < b < entries@.len() implies (
                    #[trigger] entries@[a]).0@ != (#[trigger] entries@[b]).0@ by {
                        assert(entries@[a] == then[a]);
                        if b == then.len() {
                            let j = choose|j: int|
                                0 <= j < i && (#[trigger] self.entries@[j]).0@ == then[a].0@;
                            assert(self.entries@[j].0@ != self.entries@[i as int].0@);
                        } else {
                            assert(entries@[b] == then[b]);
                        }
                    }
                    assert forall|k: int| 0 <= k < entries@.len() implies exists|j: int|
                        0 <= j < i + 1 && (#[trigger] self.entries@[j]).0@ == (
                        #[trigger] entries@[k]).0@ by {
                        if k < then.len() {
                            assert(entries@[k] == then[k]);
                            let j = choose|j: int|
                                0 <= j < i && (#[trigger] self.entries@[j]).0@ == then[k].0@;
                            assert(self.entries@[j].0@ == entries@[k].0@);
                        } else {
                            assert(self.entries@[i as int].0@ == entries@[k].0@);
                        }
                    }
                }
            }
            assert(lock_map(entries@) =~= lock_map(now).remove(network@));
            i += 1;
        }
        assert(self.entries@.take(i as int) =~= self.entries@);
        entries
    }

    /// Sets the lock of a network.
    pub fn insert(&mut self, network: &str, ip: IpAddr)
        ensures
            final(self)@ == old(self)@.insert(network@, ip),
    {
        let ghost before = self@;
        let mut entries = self.others(network);
        let ghost then = entries@;
        entries.push((network.to_owned(), ip));
        proof {
            assert(entries@.drop_last() =~= then);
            assert forall|a: int, b: int| 0 <= a < b < entries@.len() implies (
            #[trigger] entries@[a]).0@ != (#[trigger] entries@[b]).0@ by {
                assert(entries@[a] == then[a]);
                if b < then.len() {
                    assert(entries@[b] == then[b]);
                }
            }
            assert(lock_map(entries@) =~= before.insert(network@, ip));
        }
        *self = LockMap { entries };
    }

    /// Removes the lock of a network, and tells what it was.
    pub fn remove(&mut self, network: &str) -> (ip: Option<IpAddr>)
        ensures
            final(self)@ == old(self)@.remove(network@),
            ip == (if old(self)@.contains_key(network@) {
                Some(old(self)@[network@])
            } else {
                None
            }),
    {
        let ip = self.get(network);
        let entries = self.others(network);
        *self = LockMap { entries };
        ip
    }
}

impl Clone for LockMap {
    /// The same locks.
    fn clone(&self) -> (locks: Self)
        ensures
            locks@ == self@,
    {
        proof {
            use_type_invariant(self);
        }
        let mut entries: Vec<(String, IpAddr)> = Vec::new();
        let mut i: usize = 0;
        while i < self.entries.len()
            invariant
                i <= self.entries@.len(),
                entries@.len() == i,
                forall|k: int|
                    0 <= k < i ==> (#[trigger] entries@[k]).0@ == self.entries@[k].0@
                        && entries@[k].1 == self.entries@[k].1,
                lock_map(entries@) == lock_map(self.entries@.take(i as int)),
            decreases self.entries@.len() - i,
        {
            let ghost then = entries@;
            entries.push((self.entries[i].0.clone(), self.entries[i].1));
            proof {
                assert(entries@.drop_last() =~= then);
                assert(self.entries@.take(i + 1).drop_last() =~= self.entries@.take(i as int));
            }
            i += 1;
        }
        proof {
            assert(self.entries@.take(i as int) =~= self.entries@);
            assert forall|a: int, b: int| 0 <= a < b < entries@.len() implies (
            #[trigger] entries@[a]).0@ != (#[trigger] entries@[b]).0@ by {
                assert(self.entries@[a].0@ != self.entries@[b].0@);
            }
        }
        LockMap { entries }
    }
}

} // verus!

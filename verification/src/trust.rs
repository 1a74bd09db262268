//! The peers that the operator of this node has chosen to trust always.

use vstd::prelude::*;

verus! {

/// A peer that is trusted, under the hexadecimal text of its public key.
#[derive(Debug, Clone)]
pub struct TrustedDevice {
    pub public_key: String,
    pub name: String,
    /// When the peer was first trusted, in seconds since the epoch.
    pub first_seen: u64,
    /// When the peer was last approved, in seconds since the epoch.
    pub last_approved: u64,
}

/// Whether a device with this public key is in the list.
pub open spec fn lists_key(devices: Seq<TrustedDevice>, key: Seq<char>) -> bool {
    exists|i: int| 0 <= i < devices.len() && (#[trigger] devices[i]).public_key@ == key
}

/// No two devices have the same public key.
pub open spec fn distinct_keys(devices: Seq<TrustedDevice>) -> bool {
    forall|i: int, j: int|
        #![trigger devices[i], devices[j]]
        0 <= i < j < devices.len() ==> devices[i].public_key@ != devices[j].public_key@
}

/// Whether a device is named by a text: the text is its public key or its name.
pub open spec fn is_named(device: TrustedDevice, key_or_name: Seq<char>) -> bool {
    device.public_key@ == key_or_name || device.name@ == key_or_name
}

/// Whether two devices hold the same data.
pub open spec fn same_device(a: TrustedDevice, b: TrustedDevice) -> bool {
    &&& a.public_key@ == b.public_key@
    &&& a.name@ == b.name@
    &&& a.first_seen == b.first_seen
    &&& a.last_approved == b.last_approved
}

/// Whether a device is the entry of a key under a name, first trusted at
/// one time and last approved at another.
pub open spec fn is_entry(
    device: TrustedDevice,
    key: Seq<char>,
    name: Seq<char>,
    first_seen: u64,
    last_approved: u64,
) -> bool {
    &&& device.public_key@ == key
    &&& device.name@ == name
    &&& device.first_seen == first_seen
    &&& device.last_approved == last_approved
}

/// The set of peers that are trusted always.
pub struct TrustedStore {
    devices: Vec<TrustedDevice>,
}

impl TrustedStore {
    /// The trusted devices, in the order in which they were first trusted.
    pub closed spec fn devices(&self) -> Seq<TrustedDevice> {
        self.devices@
    }

    /// What holds of every store: no two devices share a public key.
    pub open spec fn wf(&self) -> bool {
        distinct_keys(self.devices())
    }

    /// A store that trusts nobody.
    pub fn new() -> (store: TrustedStore)
        ensures
            store.wf(),
            store.devices() == Seq::<TrustedDevice>::empty(),
    {
        TrustedStore { devices: Vec::new() }
    }

    /// The position of the device with this public key.
    fn find(&self, key: &str) -> (found: Option<usize>)
        ensures
            found.is_some() == lists_key(self.devices(), key@),
            found.is_some() ==> ({
                &&& found.unwrap() < self.devices().len()
                &&& self.devices()[found.unwrap() as int].public_key@ == key@
            }),
    {
        let wanted = key.to_owned();
        let mut i: usize = 0;
        while i < self.devices.len()
            invariant
                i <= self.devices@.len(),
                wanted@ == key@,
                forall|j: int| 0 <= j < i ==> (#[trigger] self.devices@[j]).public_key@ != key@,
            decreases self.devices@.len() - i,
        {
            if self.devices[i].public_key == wanted {
                return Some(i);
            }
            i = i + 1;
        }
        None
    }

    /// Whether the peer with this public key is trusted.
    pub fn is_trusted(&self, key: &str) -> (trusted: bool)
        ensures
            trusted == lists_key(self.devices(), key@),
    {
        self.find(key).is_some()
    }

    /// Trusts the peer with this public key from `now` on. A peer that is
    /// trusted already keeps its place and the time it was first seen, and
    /// takes the new name; any other is added at the end.
    #[verifier::rlimit(40)]
    pub fn add_trusted(&mut self, key: String, name: String, now: u64)
        requires
            old(self).wf(),
        ensures
            final(self).wf(),
            lists_key(final(self).devices(), key@),
            forall|other: Seq<char>|
                other != key@ ==> lists_key(final(self).devices(), other) == lists_key(
                    old(self).devices(),
                    other,
                ),
            lists_key(old(self).devices(), key@) ==>
                exists|i: int|
                    #![trigger old(self).devices()[i]]
                    0 <= i < old(self).devices().len()
                        && old(self).devices()[i].public_key@ == key@
                        && final(self).devices() == old(self).devices().update(
                            i,
                            final(self).devices()[i],
                        )
                        && is_entry(
                            final(self).devices()[i],
                            key@,
                            name@,
                            old(self).devices()[i].first_seen,
                            now,
                        ),
            !lists_key(old(self).devices(), key@) ==> ({
                &&& final(self).devices() == old(self).devices().push(final(self).devices().last())
                &&& is_entry(final(self).devices().last(), key@, name@, now, now)
            }),
    {
        let ghost before = self.devices();
        match self.find(key.as_str()) {
            Some(i) => {
                let first_seen = self.devices[i].first_seen;
                self.devices[i] = TrustedDevice {
                    public_key: key,
                    name,
                    first_seen,
                    last_approved: now,
                };
                proof {
                    let now_held = self.devices();
                    assert forall|a: int, b: int|
                        0 <= a < b < now_held.len() implies
                            (#[trigger] now_held[a]).public_key@
                                != (#[trigger] now_held[b]).public_key@ by {
                        assert(before[a].public_key@ != before[b].public_key@);
                    }
                    assert(self.devices()[i as int].public_key@ == key@);
                    assert forall|other: Seq<char>|
                        other != key@ implies
                            lists_key(self.devices(), other) == lists_key(before, other) by {
                        if lists_key(self.devices(), other) {
                            let j = choose|j: int|
                                0 <= j < now_held.len() && (#[trigger] now_held[j]).public_key@
                                    == other;
                            assert(before[j].public_key@ == other);
                        }
                        if lists_key(before, other) {
                            let j = choose|j: int|
                                0 <= j < before.len() && (#[trigger] before[j]).public_key@
                                    == other;
                            assert(self.devices()[j].public_key@ == other);
                        }
                    }
                    assert(before[i as int].public_key@ == key@);
                }
            },
            None => {
                self.devices.push(
                    TrustedDevice { public_key: key, name, first_seen: now, last_approved: now },
                );
                proof {
                    let last = self.devices().len() - 1;
                    let now_held = self.devices();
                    assert forall|a: int, b: int|
                        0 <= a < b < now_held.len() implies
                            (#[trigger] now_held[a]).public_key@
                                != (#[trigger] now_held[b]).public_key@ by {
                        assert(self.devices()[a] == before[a]);
                        if b < last {
                            assert(self.devices()[b] == before[b]);
                            assert(before[a].public_key@ != before[b].public_key@);
                        }
                    }
                    assert(self.devices()[last].public_key@ == key@);
                    assert forall|other: Seq<char>|
                        other != key@ implies
                            lists_key(self.devices(), other) == lists_key(before, other) by {
                        if lists_key(self.devices(), other) {
                            let j = choose|j: int|
                                0 <= j < now_held.len() && (#[trigger] now_held[j]).public_key@
                                    == other;
                            assert(before[j].public_key@ == other);
                        }
                        if lists_key(before, other) {
                            let j = choose|j: int|
                                0 <= j < before.len() && (#[trigger] before[j]).public_key@
                                    == other;
                            assert(self.devices()[j].public_key@ == other);
                        }
                    }
                }
            },
        }
    }

    /// Enters a device as it was recorded earlier, with its times. A
    /// device whose key is in the store already is left out. Returns
    /// whether the device was entered.
    pub fn restore(&mut self, device: TrustedDevice) -> (entered: bool)
        requires
            old(self).wf(),
        ensures
            final(self).wf(),
            entered == !lists_key(old(self).devices(), device.public_key@),
            entered ==> final(self).devices() == old(self).devices().push(device),
            !entered ==> final(self).devices() == old(self).devices(),
    {
        if self.find(device.public_key.as_str()).is_some() {
            return false;
        }
        let ghost before = self.devices();
        self.devices.push(device);
        proof {
            let last = self.devices().len() - 1;
            let now_held = self.devices();
            assert forall|a: int, b: int|
                0 <= a < b < now_held.len() implies
                    (#[trigger] now_held[a]).public_key@
                        != (#[trigger] now_held[b]).public_key@ by {
                assert(self.devices()[a] == before[a]);
                if b < last {
                    assert(self.devices()[b] == before[b]);
                    assert(before[a].public_key@ != before[b].public_key@);
                }
            }
        }
        true
    }

    /// The trusted devices, in the order in which they were first trusted.
    pub fn list_trusted(&self) -> (list: Vec<TrustedDevice>)
        ensures
            list@.len() == self.devices().len(),
            forall|i: int|
                0 <= i < list@.len() ==> same_device(#[trigger] list@[i], self.devices()[i]),
    {
        let mut list: Vec<TrustedDevice> = Vec::new();
        let mut i: usize = 0;
        while i < self.devices.len()
            invariant
                i <= self.devices@.len(),
                list@.len() == i,
                forall|j: int| 0 <= j < i ==> same_device(#[trigger] list@[j], self.devices@[j]),
            decreases self.devices@.len() - i,
        {
            let d = &self.devices[i];
            list.push(
                TrustedDevice {
                    public_key: d.public_key.clone(),
                    name: d.name.clone(),
                    first_seen: d.first_seen,
                    last_approved: d.last_approved,
                },
            );
            i = i + 1;
        }
        list
    }

    /// Stops trusting every device that the text names, by public key or
    /// by name, and returns those devices. The others keep their order.
    #[verifier::loop_isolation(false)]
    #[verifier::rlimit(40)]
    pub fn remove_trusted(&mut self, key_or_name: &str) -> (removed: Vec<TrustedDevice>)
        requires
            old(self).wf(),
        ensures
            final(self).wf(),
            final(self).devices() == old(self).devices().filter(
                |d: TrustedDevice| !is_named(d, key_or_name@),
            ),
            removed@ == old(self).devices().filter(|d: TrustedDevice| is_named(d, key_or_name@)),
    {
        let wanted = key_or_name.to_owned();
        let ghost before = self.devices();
        let ghost keep = |d: TrustedDevice| !is_named(d, key_or_name@);
        let ghost drop = |d: TrustedDevice| is_named(d, key_or_name@);
        let mut removed: Vec<TrustedDevice> = Vec::new();
        let mut i: usize = 0;
        let ghost mut k: int = 0;
        proof {
            assert(before.subrange(0, 0) =~= Seq::<TrustedDevice>::empty());
            assert(before.subrange(0, before.len() as int) =~= before);
        }
        while i < self.devices.len()
            invariant
                0 <= k <= before.len(),
                i <= self.devices@.len(),
                self.devices@.len() - i == before.len() - k,
                self.devices@.subrange(0, i as int) == before.subrange(0, k).filter(keep),
                self.devices@.subrange(i as int, self.devices@.len() as int) == before.subrange(
                    k,
                    before.len() as int,
                ),
                removed@ == before.subrange(0, k).filter(drop),
            decreases self.devices@.len() - i,
        {
            let ghost cur = self.devices@;
            let ghost head = before.subrange(0, k);
            let ghost next = before.subrange(0, k + 1);
            proof {
                assert(cur[i as int] == cur.subrange(i as int, cur.len() as int)[0]);
                assert(cur[i as int] == before[k]);
                assert(next =~= head.push(before[k]));
                assert(next.drop_last() =~= head);
                reveal(Seq::filter);
                assert(next.filter(keep) == (if keep(before[k]) {
                    head.filter(keep).push(before[k])
                } else {
                    head.filter(keep)
                }));
                assert(next.filter(drop) == (if drop(before[k]) {
                    head.filter(drop).push(before[k])
                } else {
                    head.filter(drop)
                }));
            }
            let hit = self.devices[i].public_key == wanted || self.devices[i].name == wanted;
            if hit {
                let gone = self.devices.remove(i);
                removed.push(gone);
                proof {
                    assert(self.devices@.subrange(0, i as int) =~= cur.subrange(0, i as int));
                    assert(drop(before[k]) && !keep(before[k]));
                    let tail = cur.subrange(i as int, cur.len() as int);
                    assert(self.devices@.subrange(i as int, self.devices@.len() as int)
                        =~= tail.subrange(1, tail.len() as int));
                    assert(before.subrange(k, before.len() as int).subrange(1, before.len() - k)
                        =~= before.subrange(k + 1, before.len() as int));
                    k = k + 1;
                }
            } else {
                proof {
                    assert(self.devices@.subrange(0, i + 1) =~= cur.subrange(0, i as int).push(
                        cur[i as int],
                    ));
                    assert(!drop(before[k]) && keep(before[k]));
                    let tail = cur.subrange(i as int, cur.len() as int);
                    assert(self.devices@.subrange(i + 1, self.devices@.len() as int)
                        =~= tail.subrange(1, tail.len() as int));
                    assert(before.subrange(k, before.len() as int).subrange(1, before.len() - k)
                        =~= before.subrange(k + 1, before.len() as int));
                    k = k + 1;
                }
                i = i + 1;
            }
        }
        proof {
            assert(k == before.len());
            assert(before.subrange(0, k) =~= before);
            assert(self.devices@.subrange(0, i as int) =~= self.devices@);
            let kept = before.filter(keep);
            assert forall|a: int, b: int|
                0 <= a < b < kept.len() implies
                    (#[trigger] kept[a]).public_key@ != (#[trigger] kept[b]).public_key@ by {
                lemma_filter_keeps_distinct(before, keep, a, b);
            }
        }
        removed
    }
}

/// Two entries of a filtered list stand at two positions of the list
/// itself, in the same order.
proof fn lemma_filter_positions(
    s: Seq<TrustedDevice>,
    pred: spec_fn(TrustedDevice) -> bool,
    a: int,
    b: int,
) -> (r: (int, int))
    requires
        0 <= a < b < s.filter(pred).len(),
    ensures
        0 <= r.0 < r.1 < s.len(),
        s[r.0] == s.filter(pred)[a],
        s[r.1] == s.filter(pred)[b],
    decreases s.len(),
{
    reveal(Seq::filter);
    let rest = s.drop_last();
    let f = s.filter(pred);
    if s.len() == 0 {
        (0, 0)
    } else if pred(s.last()) {
        assert(f =~= rest.filter(pred).push(s.last()));
        if b == f.len() - 1 {
            let i = lemma_filter_position(rest, pred, a);
            (i, s.len() - 1)
        } else {
            let r = lemma_filter_positions(rest, pred, a, b);
            r
        }
    } else {
        assert(f =~= rest.filter(pred));
        let r = lemma_filter_positions(rest, pred, a, b);
        r
    }
}

/// An entry of a filtered list stands at some position of the list itself.
proof fn lemma_filter_position(
    s: Seq<TrustedDevice>,
    pred: spec_fn(TrustedDevice) -> bool,
    a: int,
) -> (r: int)
    requires
        0 <= a < s.filter(pred).len(),
    ensures
        0 <= r < s.len(),
        s[r] == s.filter(pred)[a],
    decreases s.len(),
{
    reveal(Seq::filter);
    let rest = s.drop_last();
    let f = s.filter(pred);
    if s.len() == 0 {
        0
    } else if pred(s.last()) {
        assert(f =~= rest.filter(pred).push(s.last()));
        if a == f.len() - 1 {
            s.len() - 1
        } else {
            lemma_filter_position(rest, pred, a)
        }
    } else {
        assert(f =~= rest.filter(pred));
        lemma_filter_position(rest, pred, a)
    }
}

/// Two entries of a filtered list have two keys, where those of the list
/// itself do.
proof fn lemma_filter_keeps_distinct(
    s: Seq<TrustedDevice>,
    pred: spec_fn(TrustedDevice) -> bool,
    a: int,
    b: int,
)
    requires
        distinct_keys(s),
        0 <= a < b < s.filter(pred).len(),
    ensures
        s.filter(pred)[a].public_key@ != s.filter(pred)[b].public_key@,
{
    let r = lemma_filter_positions(s, pred, a, b);
    assert(s[r.0].public_key@ != s[r.1].public_key@);
}

} // verus!

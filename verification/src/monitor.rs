//! Reconciling the set of open device connections with the input ports
//! currently present.
//!
//! Port names are carried as UTF-8 bytes. The registry records the names
//! with an open connection; the surrounding application owns the actual
//! connections, keyed the same way, and performs the opening and closing
//! that a poll cycle calls for.

use vstd::prelude::*;

verus! {

/// The element views of a list of byte-string names.
pub open spec fn views_of(v: Seq<Vec<u8>>) -> Seq<Seq<u8>> {
    Seq::new(v.len(), |i: int| v[i]@)
}

/// Is the name `n` among `v`?
pub open spec fn has_name(v: Seq<Seq<u8>>, n: Seq<u8>) -> bool {
    exists|i: int| 0 <= i < v.len() && v[i] == n
}

/// No name occurs twice.
pub open spec fn unique_names(v: Seq<Seq<u8>>) -> bool {
    forall|i: int, j: int| 0 <= i < j < v.len() ==> v[i] != v[j]
}

/// ASCII lowercase folding of one byte.
pub open spec fn fold_byte(b: u8) -> u8 {
    if 0x41 <= b && b <= 0x5a {
        (b + 0x20) as u8
    } else {
        b
    }
}

/// The device-class filter: does the name hold the marker `usb`,
/// compared without regard to ASCII case? A deliberately crude
/// heuristic, kept as is: anything so named is treated as a keyboard.
pub open spec fn is_target_name(n: Seq<u8>) -> bool {
    exists|i: int|
        0 <= i && i + 3 <= n.len() && #[trigger] fold_byte(n[i]) == 0x75 && fold_byte(n[i + 1])
            == 0x73 && fold_byte(n[i + 2]) == 0x62
}

fn fold_byte_x(b: u8) -> (r: u8)
    ensures
        r == fold_byte(b),
{
    if 0x41 <= b && b <= 0x5a {
        b + 0x20
    } else {
        b
    }
}

/// Run the device-class filter on one port name.
pub fn name_is_target(name: &Vec<u8>) -> (r: bool)
    ensures
        r == is_target_name(name@),
{
    if name.len() < 3 {
        return false;
    }
    let limit = name.len() - 3;
    let mut i: usize = 0;
    while i <= limit
        invariant
            name@.len() >= 3,
            name@.len() <= usize::MAX,
            limit == name@.len() - 3,
            i <= name@.len(),
            forall|k: int|
                0 <= k < i ==> !(#[trigger] fold_byte(name@[k]) == 0x75 && fold_byte(
                    name@[k + 1],
                ) == 0x73 && fold_byte(name@[k + 2]) == 0x62),
        decreases name@.len() - i,
    {
        if fold_byte_x(name[i]) == 0x75 && fold_byte_x(name[i + 1]) == 0x73 && fold_byte_x(
            name[i + 2],
        ) == 0x62 {
            return true;
        }
        i += 1;
    }
    false
}

/// Compare two byte strings.
fn bytes_eq(a: &Vec<u8>, b: &Vec<u8>) -> (r: bool)
    ensures
        r == (a@ == b@),
{
    if a.len() != b.len() {
        return false;
    }
    let mut i: usize = 0;
    while i < a.len()
        invariant
            a@.len() == b@.len(),
            i <= a@.len(),
            forall|k: int| 0 <= k < i ==> a@[k] == b@[k],
        decreases a@.len() - i,
    {
        if a[i] != b[i] {
            return false;
        }
        i += 1;
    }
    proof {
        assert(a@ =~= b@);
    }
    true
}

/// A fresh copy of one byte-string name.
fn copy_name(src: &Vec<u8>) -> (r: Vec<u8>)
    ensures
        r@ == src@,
{
    let mut r: Vec<u8> = Vec::new();
    let mut i: usize = 0;
    while i < src.len()
        invariant
            i <= src@.len(),
            r@ == src@.take(i as int),
        decreases src@.len() - i,
    {
        r.push(src[i]);
        proof {
            assert(r@ =~= src@.take(i + 1));
        }
        i += 1;
    }
    proof {
        assert(src@.take(src@.len() as int) =~= src@);
    }
    r
}

/// Is `n` among the names in `v`?
fn list_has_name(v: &Vec<Vec<u8>>, n: &Vec<u8>) -> (r: bool)
    ensures
        r == has_name(views_of(v@), n@),
{
    let mut i: usize = 0;
    while i < v.len()
        invariant
            i <= v@.len(),
            forall|k: int| 0 <= k < i ==> views_of(v@)[k] != n@,
        decreases v@.len() - i,
    {
        if bytes_eq(&v[i], n) {
            proof {
                assert(views_of(v@)[i as int] == n@);
            }
            return true;
        }
        i += 1;
    }
    false
}

/// Membership in a pushed list.
proof fn lemma_has_name_push(v: Seq<Seq<u8>>, x: Seq<u8>, m: Seq<u8>)
    ensures
        has_name(v.push(x), m) <==> (has_name(v, m) || x == m),
{
    if has_name(v.push(x), m) {
        let i = choose|i: int| 0 <= i < v.push(x).len() && v.push(x)[i] == m;
        if i < v.len() {
            assert(v[i] == m);
        } else {
            assert(x == m);
        }
    }
    if has_name(v, m) {
        let i = choose|i: int| 0 <= i < v.len() && v[i] == m;
        assert(v.push(x)[i] == m);
    }
    if x == m {
        assert(v.push(x)[v.len() as int] == m);
    }
}

/// The names of `s` that are also in `p`, in order.
pub open spec fn keep_in(s: Seq<Seq<u8>>, p: Seq<Seq<u8>>) -> Seq<Seq<u8>>
    decreases s.len(),
{
    if s.len() == 0 {
        Seq::empty()
    } else if has_name(p, s.last()) {
        keep_in(s.drop_last(), p).push(s.last())
    } else {
        keep_in(s.drop_last(), p)
    }
}

/// The names of `s` that are not in `p`, in order.
pub open spec fn drop_in(s: Seq<Seq<u8>>, p: Seq<Seq<u8>>) -> Seq<Seq<u8>>
    decreases s.len(),
{
    if s.len() == 0 {
        Seq::empty()
    } else if !has_name(p, s.last()) {
        drop_in(s.drop_last(), p).push(s.last())
    } else {
        drop_in(s.drop_last(), p)
    }
}

/// What `keep_in` and `drop_in` hold: the members of `s` split by
/// membership in `p`.
proof fn lemma_split_member(s: Seq<Seq<u8>>, p: Seq<Seq<u8>>, m: Seq<u8>)
    ensures
        has_name(keep_in(s, p), m) <==> (has_name(s, m) && has_name(p, m)),
        has_name(drop_in(s, p), m) <==> (has_name(s, m) && !has_name(p, m)),
    decreases s.len(),
{
    if s.len() == 0 {
        assert(!has_name(s, m));
        assert(!has_name(keep_in(s, p), m));
        assert(!has_name(drop_in(s, p), m));
    } else {
        let d = s.drop_last();
        lemma_split_member(d, p, m);
        assert(s =~= d.push(s.last()));
        lemma_has_name_push(d, s.last(), m);
        if has_name(p, s.last()) {
            lemma_has_name_push(keep_in(d, p), s.last(), m);
        } else {
            lemma_has_name_push(drop_in(d, p), s.last(), m);
        }
    }
}

/// `keep_in` keeps names unique.
proof fn lemma_keep_in_unique(s: Seq<Seq<u8>>, p: Seq<Seq<u8>>)
    requires
        unique_names(s),
    ensures
        unique_names(keep_in(s, p)),
    decreases s.len(),
{
    if s.len() > 0 {
        let d = s.drop_last();
        assert(unique_names(d)) by {
            assert(forall|i: int, j: int|
                0 <= i < j < d.len() ==> d[i] == s[i] && d[j] == s[j]);
        }
        lemma_keep_in_unique(d, p);
        if has_name(p, s.last()) {
            let k = keep_in(d, p);
            assert(!has_name(d, s.last())) by {
                if has_name(d, s.last()) {
                    let i = choose|i: int| 0 <= i < d.len() && d[i] == s.last();
                    assert(s[i] == s[s.len() - 1]);
                }
            }
            assert(!has_name(k, s.last())) by {
                lemma_split_member(d, p, s.last());
            }
            assert forall|i: int, j: int| 0 <= i < j < k.push(s.last()).len() implies k.push(
                s.last(),
            )[i] != k.push(s.last())[j] by {
                if j < k.len() {
                } else {
                    assert(k.push(s.last())[j] == s.last());
                    assert(has_name(k, k[i]));
                }
            }
        }
    }
}

/// The monitor's registry: the names of the devices that currently have
/// an open connection.
pub struct DeviceRegistry {
    names: Vec<Vec<u8>>,
}

impl DeviceRegistry {
    /// The registered names.
    pub closed spec fn names_seq(self) -> Seq<Seq<u8>> {
        views_of(self.names@)
    }

    /// Is a device of this name registered?
    pub open spec fn has(self, n: Seq<u8>) -> bool {
        has_name(self.names_seq(), n)
    }

    /// No device is registered twice.
    pub open spec fn wf(self) -> bool {
        unique_names(self.names_seq())
    }

    /// An empty registry.
    pub fn new() -> (r: Self)
        ensures
            r.wf(),
            forall|n: Seq<u8>| !r.has(n),
    {
        let r = DeviceRegistry { names: Vec::new() };
        proof {
            assert forall|n: Seq<u8>| !r.has(n) by {
                assert(r.names_seq().len() == 0);
            }
        }
        r
    }

    /// Is a device of this name registered, as a runtime check?
    pub fn contains(&self, name: &Vec<u8>) -> (r: bool)
        ensures
            r == self.has(name@),
    {
        list_has_name(&self.names, name)
    }

    /// The registered names, for the caller to walk.
    pub fn names_list(&self) -> (r: &Vec<Vec<u8>>)
        ensures
            views_of(r@) == self.names_seq(),
    {
        &self.names
    }

    /// Record one newly connected device. Registering a name twice is
    /// harmless: the second registration is absorbed.
    pub fn insert(&mut self, name: Vec<u8>)
        requires
            old(self).wf(),
        ensures
            final(self).wf(),
            forall|m: Seq<u8>| final(self).has(m) <==> (old(self).has(m) || m == name@),
    {
        let present = list_has_name(&self.names, &name);
        if !present {
            let ghost s0 = views_of(self.names@);
            let ghost n = name@;
            self.names.push(name);
            proof {
                assert(views_of(self.names@) =~= s0.push(n));
                assert forall|m: Seq<u8>| self.has(m) <==> (has_name(s0, m) || m == n) by {
                    lemma_has_name_push(s0, n, m);
                }
                assert forall|i: int, j: int|
                    0 <= i < j < self.names_seq().len() implies self.names_seq()[i]
                    != self.names_seq()[j] by {
                    if j == s0.len() {
                        assert(has_name(s0, s0[i]));
                    }
                }
            }
        }
    }

    /// Which of the scanned ports call for a new connection: those that
    /// pass the device-class filter and are not yet registered, each
    /// listed once, in scan order.
    pub fn plan_arrivals(&self, ports: &Vec<Vec<u8>>) -> (arrivals: Vec<Vec<u8>>)
        ensures
            unique_names(views_of(arrivals@)),
            forall|m: Seq<u8>| #![trigger has_name(views_of(arrivals@), m)]
                has_name(views_of(arrivals@), m) <==> (has_name(views_of(ports@), m)
                    && is_target_name(m) && !self.has(m)),
    {
        let ghost ps = views_of(ports@);
        let mut arrivals: Vec<Vec<u8>> = Vec::new();
        let mut i: usize = 0;
        while i < ports.len()
            invariant
                i <= ports@.len(),
                ps == views_of(ports@),
                unique_names(views_of(arrivals@)),
                forall|m: Seq<u8>| #![trigger has_name(views_of(arrivals@), m)]
                    has_name(views_of(arrivals@), m) <==> (has_name(ps.take(i as int), m)
                        && is_target_name(m) && !self.has(m)),
            decreases ports@.len() - i,
        {
            let ghost a0 = views_of(arrivals@);
            let ghost cur = ports@[i as int]@;
            let wanted = name_is_target(&ports[i]) && !self.contains(&ports[i]);
            let fresh = !list_has_name(&arrivals, &ports[i]);
            if wanted && fresh {
                arrivals.push(copy_name(&ports[i]));
                proof {
                    assert(views_of(arrivals@) =~= a0.push(cur));
                }
            }
            proof {
                assert(ps.take(i + 1).drop_last() =~= ps.take(i as int));
                assert(ps.take(i + 1) =~= ps.take(i as int).push(cur));
                assert forall|m: Seq<u8>| #![trigger has_name(views_of(arrivals@), m)]
                    has_name(views_of(arrivals@), m) <==> (has_name(ps.take(i + 1), m)
                        && is_target_name(m) && !self.has(m)) by {
                    lemma_has_name_push(ps.take(i as int), cur, m);
                    assert(has_name(a0, m) <==> (has_name(ps.take(i as int), m)
                        && is_target_name(m) && !self.has(m)));
                    if wanted && fresh {
                        lemma_has_name_push(a0, cur, m);
                    }
                }
                if wanted && fresh {
                    assert forall|k1: int, k2: int|
                        0 <= k1 < k2 < views_of(arrivals@).len() implies views_of(arrivals@)[k1]
                        != views_of(arrivals@)[k2] by {
                        if k2 == a0.len() {
                            assert(has_name(a0, a0[k1]));
                        }
                    }
                }
            }
            i += 1;
        }
        proof {
            assert(ps.take(ps.len() as int) =~= ps);
        }
        arrivals
    }

    /// Record a whole batch of newly connected devices.
    pub fn record_connected(&mut self, connected: &Vec<Vec<u8>>)
        requires
            old(self).wf(),
        ensures
            final(self).wf(),
            forall|m: Seq<u8>|
                final(self).has(m) <==> (old(self).has(m) || has_name(views_of(connected@), m)),
    {
        let ghost cs = views_of(connected@);
        let mut i: usize = 0;
        while i < connected.len()
            invariant
                i <= connected@.len(),
                cs == views_of(connected@),
                self.wf(),
                forall|m: Seq<u8>|
                    self.has(m) <==> (old(self).has(m) || has_name(cs.take(i as int), m)),
            decreases connected@.len() - i,
        {
            let ghost cur = connected@[i as int]@;
            let c = copy_name(&connected[i]);
            self.insert(c);
            proof {
                assert(cs.take(i + 1) =~= cs.take(i as int).push(cur));
                assert forall|m: Seq<u8>|
                    self.has(m) <==> (old(self).has(m) || has_name(cs.take(i + 1), m)) by {
                    lemma_has_name_push(cs.take(i as int), cur, m);
                }
            }
            i += 1;
        }
        proof {
            assert(cs.take(cs.len() as int) =~= cs);
        }
    }

    /// Drop every registered device whose name is absent from `present`,
    /// and hand back the dropped names so the caller can close their
    /// connections.
    pub fn retain_present(&mut self, present: &Vec<Vec<u8>>) -> (dropped: Vec<Vec<u8>>)
        requires
            old(self).wf(),
        ensures
            final(self).wf(),
            forall|m: Seq<u8>|
                final(self).has(m) <==> (old(self).has(m) && has_name(views_of(present@), m)),
            forall|m: Seq<u8>|
                has_name(views_of(dropped@), m) <==> (old(self).has(m) && !has_name(
                    views_of(present@),
                    m,
                )),
    {
        let ghost s0 = views_of(self.names@);
        let ghost p = views_of(present@);
        let mut kept: Vec<Vec<u8>> = Vec::new();
        let mut dropped: Vec<Vec<u8>> = Vec::new();
        let mut i: usize = 0;
        while i < self.names.len()
            invariant
                i <= self.names@.len(),
                s0 == views_of(self.names@),
                p == views_of(present@),
                views_of(kept@) == keep_in(s0.take(i as int), p),
                views_of(dropped@) == drop_in(s0.take(i as int), p),
            decreases self.names@.len() - i,
        {
            let ghost k0 = views_of(kept@);
            let ghost d0 = views_of(dropped@);
            let ghost cur = self.names@[i as int]@;
            let is_present = list_has_name(present, &self.names[i]);
            let c = copy_name(&self.names[i]);
            if is_present {
                kept.push(c);
                proof {
                    assert(views_of(kept@) =~= k0.push(cur));
                }
            } else {
                dropped.push(c);
                proof {
                    assert(views_of(dropped@) =~= d0.push(cur));
                }
            }
            proof {
                assert(s0.take(i + 1).drop_last() =~= s0.take(i as int));
                assert(s0.take(i + 1).last() == cur);
            }
            i += 1;
        }
        proof {
            assert(s0.take(s0.len() as int) =~= s0);
        }
        self.names = kept;
        proof {
            assert forall|m: Seq<u8>|
                (self.has(m) <==> (has_name(s0, m) && has_name(p, m))) && (has_name(
                views_of(dropped@),
                m,
            ) <==> (has_name(s0, m) && !has_name(p, m))) by {
                lemma_split_member(s0, p, m);
            }
            lemma_keep_in_unique(s0, p);
        }
        dropped
    }
}

/// Keep only the port names that pass the device-class filter.
pub fn filter_targets(ports: &Vec<Vec<u8>>) -> (present: Vec<Vec<u8>>)
    ensures
        forall|m: Seq<u8>| #![trigger has_name(views_of(present@), m)]
            has_name(views_of(present@), m) <==> (has_name(views_of(ports@), m)
                && is_target_name(m)),
{
    let ghost ps = views_of(ports@);
    let mut present: Vec<Vec<u8>> = Vec::new();
    let mut i: usize = 0;
    while i < ports.len()
        invariant
            i <= ports@.len(),
            ps == views_of(ports@),
            forall|m: Seq<u8>| #![trigger has_name(views_of(present@), m)]
                has_name(views_of(present@), m) <==> (has_name(ps.take(i as int), m)
                    && is_target_name(m)),
        decreases ports@.len() - i,
    {
        let ghost f0 = views_of(present@);
        let ghost cur = ports@[i as int]@;
        let wanted = name_is_target(&ports[i]);
        if wanted {
            present.push(copy_name(&ports[i]));
            proof {
                assert(views_of(present@) =~= f0.push(cur));
            }
        }
        proof {
            assert(ps.take(i + 1) =~= ps.take(i as int).push(cur));
            assert forall|m: Seq<u8>| #![trigger has_name(views_of(present@), m)]
                has_name(views_of(present@), m) <==> (has_name(ps.take(i + 1), m)
                    && is_target_name(m)) by {
                lemma_has_name_push(ps.take(i as int), cur, m);
                assert(has_name(f0, m) <==> (has_name(ps.take(i as int), m)
                    && is_target_name(m)));
                if wanted {
                    lemma_has_name_push(f0, cur, m);
                }
            }
        }
        i += 1;
    }
    proof {
        assert(ps.take(ps.len() as int) =~= ps);
    }
    present
}

/// Convergence of one poll cycle: when every planned arrival connects
/// and is recorded, and the absentees are then dropped, the registry
/// holds exactly the target-named ports of the scan --- whatever it held
/// before.
pub proof fn lemma_cycle_convergence(
    r0: DeviceRegistry,
    r1: DeviceRegistry,
    r2: DeviceRegistry,
    ports: Seq<Seq<u8>>,
    arrivals: Seq<Seq<u8>>,
    present: Seq<Seq<u8>>,
)
    requires
        forall|m: Seq<u8>| #![trigger has_name(arrivals, m)]
            has_name(arrivals, m) <==> (has_name(ports, m) && is_target_name(m) && !r0.has(m)),
        forall|m: Seq<u8>| #![trigger r1.has(m)] r1.has(m) <==> (r0.has(m) || has_name(
            arrivals,
            m,
        )),
        forall|m: Seq<u8>| #![trigger has_name(present, m)]
            has_name(present, m) <==> (has_name(ports, m) && is_target_name(m)),
        forall|m: Seq<u8>| #![trigger r2.has(m)] r2.has(m) <==> (r1.has(m) && has_name(
            present,
            m,
        )),
    ensures
        forall|m: Seq<u8>| #![trigger r2.has(m)]
            r2.has(m) <==> (has_name(ports, m) && is_target_name(m)),
{
    assert forall|m: Seq<u8>| #![trigger r2.has(m)]
        r2.has(m) <==> (has_name(ports, m) && is_target_name(m)) by {
        assert(r2.has(m) <==> (r1.has(m) && has_name(present, m)));
        assert(has_name(present, m) <==> (has_name(ports, m) && is_target_name(m)));
        assert(r1.has(m) <==> (r0.has(m) || has_name(arrivals, m)));
        assert(has_name(arrivals, m) <==> (has_name(ports, m) && is_target_name(m) && !r0.has(
            m,
        )));
    }
}

} // verus!

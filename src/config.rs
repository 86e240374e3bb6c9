//! Keeps the GSI routing table in step with the guest's writes to one device's
//! MSI capability.

use crate::cap::{vector_count, InvalidAccess, MsiCap};
use std::collections::HashMap;
use vstd::prelude::*;

verus! {

broadcast use vstd::std_specs::hash::group_hash_axioms;

/// An MSI routing entry: what the hypervisor delivers when the GSI fires.
#[derive(Clone, Copy, Debug, PartialEq, Eq, Structural)]
pub struct MsiRoutingEntry {
    pub gsi: u32,
    pub address_lo: u32,
    pub address_hi: u32,
    pub data: u32,
}

/// One allocated interrupt route of a device, known by its GSI.
#[derive(Clone, Copy, Debug, PartialEq, Eq, Structural)]
pub struct InterruptRoute {
    pub gsi: u32,
}

/// What is to be done with the eventfd binding of every route of the device.
#[derive(Clone, Copy, Debug, PartialEq, Eq, Structural)]
pub enum IrqfdAction {
    /// The device stayed enabled or stayed disabled.
    Keep,
    /// The device went from disabled to enabled: bind each route.
    Register,
    /// The device went from enabled to disabled: unbind each route.
    Unregister,
}

/// What a configuration write led to, for the caller to act on and report.
#[derive(Clone, Copy, Debug)]
pub struct MsiUpdate {
    /// Whether the write reached a field of the capability.
    pub access: Result<(), InvalidAccess>,
    /// The change of binding that every route of the device needs.
    pub irqfd: IrqfdAction,
}

/// The routing entry of vector `vector` of a device, on GSI `gsi`: the low bits
/// of the message data select the vector.
pub open spec fn route_entry(cap: MsiCap, gsi: u32, vector: int) -> MsiRoutingEntry {
    MsiRoutingEntry {
        gsi,
        address_lo: cap.msg_addr_lo,
        address_hi: cap.msg_addr_hi,
        data: (cap.msg_data as u32) | (#[verifier::truncate] (vector as u32)),
    }
}

/// The binding change for a device that was enabled or not, and now is or not.
pub open spec fn irqfd_action(was_enabled: bool, now_enabled: bool) -> IrqfdAction {
    if now_enabled && !was_enabled {
        IrqfdAction::Register
    } else if !now_enabled && was_enabled {
        IrqfdAction::Unregister
    } else {
        IrqfdAction::Keep
    }
}

/// The table after the first `n` routes of a device with register block `cap`
/// and GSIs `gsis` were brought in step: while the device is enabled, each
/// unmasked vector's entry is written and a masked one's removed; while it is
/// disabled, each GSI's entry is removed.
pub open spec fn routes_after(
    t: Map<u32, MsiRoutingEntry>,
    cap: MsiCap,
    gsis: Seq<u32>,
    n: nat,
) -> Map<u32, MsiRoutingEntry>
    decreases n,
{
    if n == 0 {
        t
    } else {
        let prev = routes_after(t, cap, gsis, (n - 1) as nat);
        let i = n - 1;
        if cap.is_enabled() {
            if cap.is_vector_masked(i) {
                prev.remove(gsis[i])
            } else {
                prev.insert(gsis[i], route_entry(cap, gsis[i], i))
            }
        } else {
            prev.remove(gsis[i])
        }
    }
}

/// No GSI occurs twice.
pub open spec fn distinct_gsis(gsis: Seq<u32>) -> bool {
    forall|i: int, j: int| 0 <= i < j < gsis.len() ==> gsis[i] != gsis[j]
}

/// Key `k` holds the same entry, or none, in both tables.
pub open spec fn same_at(a: Map<u32, MsiRoutingEntry>, b: Map<u32, MsiRoutingEntry>, k: u32) -> bool {
    &&& a.contains_key(k) == b.contains_key(k)
    &&& a.contains_key(k) ==> a[k] == b[k]
}

/// One device's MSI capability and the interrupt routes allocated for it.
///
/// The routes are allocated once, one per vector enabled at construction; a
/// later change of multiple message enable neither adds nor drops routes, so
/// only that many vectors can ever be routed.
pub struct MsiConfig {
    pub cap: MsiCap,
    pub irq_routes: Vec<InterruptRoute>,
}

impl MsiConfig {
    /// The GSIs of the routes, in vector order.
    pub open spec fn gsis(&self) -> Seq<u32> {
        self.irq_routes@.map_values(|r: InterruptRoute| r.gsi)
    }

    /// Every route has a GSI of its own.
    pub open spec fn wf(&self) -> bool {
        distinct_gsis(self.gsis())
    }

    /// A device whose capability has message control `msg_ctl` and zero
    /// everywhere else, with one route for each vector that `msg_ctl` enables.
    pub fn new(msg_ctl: u16, irq_routes: Vec<InterruptRoute>) -> (r: MsiConfig)
        requires
            irq_routes@.len() == vector_count(msg_ctl),
            distinct_gsis(irq_routes@.map_values(|r: InterruptRoute| r.gsi)),
        ensures
            r.cap == MsiCap::with_control(msg_ctl),
            r.irq_routes@ == irq_routes@,
            r.wf(),
    {
        MsiConfig { cap: MsiCap::new(msg_ctl), irq_routes }
    }

    pub fn enabled(&self) -> (r: bool)
        ensures
            r == self.cap.is_enabled(),
    {
        self.cap.enabled()
    }

    pub fn size(&self) -> (r: u64)
        ensures
            r == self.cap.structure_size(),
    {
        self.cap.size()
    }

    pub fn num_enabled_vectors(&self) -> (r: usize)
        ensures
            r == vector_count(self.cap.msg_ctl),
    {
        self.cap.num_enabled_vectors()
    }

    pub fn vector_masked(&self, vector: usize) -> (r: bool)
        ensures
            r == self.cap.is_vector_masked(vector as int),
    {
        self.cap.vector_masked(vector)
    }

    /// Applies a guest write to the capability, then brings the device's
    /// entries in `routes` in step with it: while the device is enabled, every
    /// unmasked vector gets its entry and a masked one has none; while it is
    /// disabled, every one of its GSIs is removed. No other key of
    /// `routes` changes. The result tells whether the write reached a field and
    /// how the routes' bindings must change.
    pub fn update(&mut self, offset: u64, data: &[u8], routes: &mut HashMap<u32, MsiRoutingEntry>) -> (r: MsiUpdate)
        requires
            old(self).wf(),
        ensures
            final(self).cap == old(self).cap.written(offset, data@),
            final(self).irq_routes@ == old(self).irq_routes@,
            final(self).wf(),
            r.access == old(self).cap.access_status(offset, data@.len()),
            r.irqfd == irqfd_action(old(self).cap.is_enabled(), final(self).cap.is_enabled()),
            final(routes)@ == routes_after(old(routes)@, final(self).cap, old(self).gsis(), old(self).gsis().len()),
            forall|i: int|
                0 <= i < old(self).gsis().len() && final(self).cap.is_enabled() && !final(self).cap.is_vector_masked(i)
                    ==> #[trigger] final(routes)@.contains_key(old(self).gsis()[i])
                    && final(routes)@[old(self).gsis()[i]] == route_entry(final(self).cap, old(self).gsis()[i], i),
            forall|i: int|
                0 <= i < old(self).gsis().len() && final(self).cap.is_enabled() && final(self).cap.is_vector_masked(i)
                    ==> !final(routes)@.contains_key(#[trigger] old(self).gsis()[i]),
            forall|i: int|
                0 <= i < old(self).gsis().len() && !final(self).cap.is_enabled()
                    ==> !final(routes)@.contains_key(#[trigger] old(self).gsis()[i]),
            forall|k: u32| !old(self).gsis().contains(k) ==> #[trigger] same_at(final(routes)@, old(routes)@, k),
    {
        let was_enabled = self.cap.enabled();
        let access = self.cap.update(offset, data);
        let enabled = self.cap.enabled();
        let ghost t0 = routes@;
        let n = self.irq_routes.len();
        let mut idx: usize = 0;
        while idx < n
            invariant
                n == self.irq_routes@.len(),
                idx <= n,
                enabled == self.cap.is_enabled(),
                routes@ == routes_after(t0, self.cap, self.gsis(), idx as nat),
            decreases n - idx,
        {
            let gsi = self.irq_routes[idx].gsi;
            if enabled {
                if self.cap.vector_masked(idx) {
                    routes.remove(&gsi);
                } else {
                    let entry = MsiRoutingEntry {
                        gsi,
                        address_lo: self.cap.msg_addr_lo,
                        address_hi: self.cap.msg_addr_hi,
                        data: (self.cap.msg_data as u32) | (idx as u32),
                    };
                    routes.insert(gsi, entry);
                }
            } else {
                routes.remove(&gsi);
            }
            idx += 1;
        }
        proof {
            lemma_routes_after_at(t0, self.cap, self.gsis(), n as nat);
        }
        let irqfd = if enabled && !was_enabled {
            IrqfdAction::Register
        } else if !enabled && was_enabled {
            IrqfdAction::Unregister
        } else {
            IrqfdAction::Keep
        };
        MsiUpdate { access, irqfd }
    }
}

/// What `routes_after` leaves at each key, for distinct GSIs.
pub proof fn lemma_routes_after_at(t: Map<u32, MsiRoutingEntry>, cap: MsiCap, gsis: Seq<u32>, n: nat)
    requires
        distinct_gsis(gsis),
        n <= gsis.len(),
    ensures
        forall|i: int|
            0 <= i < n && cap.is_enabled() && !cap.is_vector_masked(i)
                ==> routes_after(t, cap, gsis, n).contains_key(#[trigger] gsis[i])
                && routes_after(t, cap, gsis, n)[gsis[i]] == route_entry(cap, gsis[i], i),
        forall|i: int|
            0 <= i < n && cap.is_enabled() && cap.is_vector_masked(i)
                ==> !routes_after(t, cap, gsis, n).contains_key(#[trigger] gsis[i]),
        forall|i: int|
            0 <= i < n && !cap.is_enabled() ==> !routes_after(t, cap, gsis, n).contains_key(#[trigger] gsis[i]),
        forall|k: u32|
            !gsis.subrange(0, n as int).contains(k) ==> #[trigger] same_at(routes_after(t, cap, gsis, n), t, k),
    decreases n,
{
    if n > 0 {
        lemma_routes_after_at(t, cap, gsis, (n - 1) as nat);
        let m = (n - 1) as int;
        assert forall|k: u32| !gsis.subrange(0, n as int).contains(k) implies !gsis.subrange(0, m).contains(k) && k != gsis[m] by {
            if gsis.subrange(0, m).contains(k) {
                let j = choose|j: int| 0 <= j < m && gsis.subrange(0, m)[j] == k;
                assert(gsis.subrange(0, n as int)[j] == k);
            }
            assert(gsis.subrange(0, n as int)[m] == gsis[m]);
        }
        let prev = routes_after(t, cap, gsis, m as nat);
        let cur = routes_after(t, cap, gsis, n);
        assert(!gsis.subrange(0, m).contains(gsis[m])) by {
            if gsis.subrange(0, m).contains(gsis[m]) {
                let j = choose|j: int| 0 <= j < m && gsis.subrange(0, m)[j] == gsis[m];
                assert(gsis[j] == gsis[m]);
            }
        }
        assert(same_at(prev, t, gsis[m]));
        assert forall|i: int| 0 <= i < m implies gsis[i] != gsis[m] && same_at(cur, prev, gsis[i]) by {}
        assert forall|k: u32| !gsis.subrange(0, n as int).contains(k) implies same_at(cur, t, k) by {
            assert(!gsis.subrange(0, m).contains(k) && k != gsis[m]);
            assert(same_at(prev, t, k));
            assert(same_at(cur, prev, k));
        }
        assert forall|i: int|
            0 <= i < n && cap.is_enabled() && cap.is_vector_masked(i) implies !cur.contains_key(gsis[i]) by {
            if i < m {
                assert(same_at(cur, prev, gsis[i]));
            }
        }
        assert forall|i: int|
            0 <= i < n && cap.is_enabled() && !cap.is_vector_masked(i) implies cur.contains_key(gsis[i])
                && cur[gsis[i]] == route_entry(cap, gsis[i], i) by {
            if i < m {
                assert(same_at(cur, prev, gsis[i]));
            }
        }
    }
}

/// Number of unmasked vectors among the first `n`.
pub open spec fn unmasked_count(cap: MsiCap, n: nat) -> nat
    decreases n,
{
    if n == 0 {
        0
    } else {
        unmasked_count(cap, (n - 1) as nat) + if cap.is_vector_masked(n - 1) {
            0nat
        } else {
            1nat
        }
    }
}

proof fn lemma_enabled_len(t: Map<u32, MsiRoutingEntry>, cap: MsiCap, gsis: Seq<u32>, n: nat)
    requires
        distinct_gsis(gsis),
        n <= gsis.len(),
        cap.is_enabled(),
        t.dom().finite(),
        forall|i: int| 0 <= i < gsis.len() ==> !t.contains_key(#[trigger] gsis[i]),
    ensures
        routes_after(t, cap, gsis, n).dom().finite(),
        routes_after(t, cap, gsis, n).dom().len() == t.dom().len() + unmasked_count(cap, n),
    decreases n,
{
    if n > 0 {
        let m = (n - 1) as int;
        lemma_enabled_len(t, cap, gsis, m as nat);
        lemma_routes_after_at(t, cap, gsis, m as nat);
        let prev = routes_after(t, cap, gsis, m as nat);
        assert(!gsis.subrange(0, m).contains(gsis[m])) by {
            if gsis.subrange(0, m).contains(gsis[m]) {
                let j = choose|j: int| 0 <= j < m && gsis.subrange(0, m)[j] == gsis[m];
                assert(gsis[j] == gsis[m]);
            }
        }
        assert(same_at(prev, t, gsis[m]));
        assert(!prev.dom().contains(gsis[m]));
        assert(prev.remove(gsis[m]) =~= prev);
    }
}

/// Enabling a device none of whose GSIs is in the table installs exactly one
/// entry per unmasked vector, under that vector's GSI, whose data is the
/// message data ORed with the vector index; no other key changes.
pub proof fn lemma_enable_installs_unmasked(t: Map<u32, MsiRoutingEntry>, cap: MsiCap, gsis: Seq<u32>)
    requires
        distinct_gsis(gsis),
        cap.is_enabled(),
        t.dom().finite(),
        forall|i: int| 0 <= i < gsis.len() ==> !t.contains_key(#[trigger] gsis[i]),
    ensures
        forall|i: int|
            0 <= i < gsis.len() ==> (#[trigger] routes_after(t, cap, gsis, gsis.len()).contains_key(gsis[i])
                <==> !cap.is_vector_masked(i)),
        forall|i: int|
            0 <= i < gsis.len() && !cap.is_vector_masked(i) ==> routes_after(t, cap, gsis, gsis.len())[#[trigger] gsis[i]]
                == route_entry(cap, gsis[i], i) && routes_after(t, cap, gsis, gsis.len())[gsis[i]].data == (cap.msg_data as u32) | (#[verifier::truncate] (i as u32)),
        forall|k: u32| !gsis.contains(k) ==> #[trigger] same_at(routes_after(t, cap, gsis, gsis.len()), t, k),
        routes_after(t, cap, gsis, gsis.len()).dom().len() == t.dom().len() + unmasked_count(cap, gsis.len()),
{
    lemma_routes_after_at(t, cap, gsis, gsis.len());
    lemma_enabled_len(t, cap, gsis, gsis.len());
    assert(gsis.subrange(0, gsis.len() as int) =~= gsis);
}

/// Disabling a device removes every one of its GSIs from the table and no
/// other key; a device that was enabled before has each route unbound.
pub proof fn lemma_disable_removes_all(
    t: Map<u32, MsiRoutingEntry>,
    cap_before: MsiCap,
    cap: MsiCap,
    gsis: Seq<u32>,
)
    requires
        distinct_gsis(gsis),
        !cap.is_enabled(),
    ensures
        forall|i: int|
            0 <= i < gsis.len() ==> !(#[trigger] routes_after(t, cap, gsis, gsis.len()).contains_key(gsis[i])),
        forall|k: u32| !gsis.contains(k) ==> #[trigger] same_at(routes_after(t, cap, gsis, gsis.len()), t, k),
        cap_before.is_enabled() ==> irqfd_action(cap_before.is_enabled(), cap.is_enabled())
            == IrqfdAction::Unregister,
{
    lemma_routes_after_at(t, cap, gsis, gsis.len());
    assert(gsis.subrange(0, gsis.len() as int) =~= gsis);
}

/// While the device stays enabled, masking vector `i` leaves it no entry
/// after the update, whatever was there before; every unmasked vector's entry
/// is its own, and no key outside the device's GSIs changes.
pub proof fn lemma_masked_vector_absent(t: Map<u32, MsiRoutingEntry>, cap: MsiCap, gsis: Seq<u32>, i: int)
    requires
        distinct_gsis(gsis),
        cap.is_enabled(),
        0 <= i < gsis.len(),
        cap.is_vector_masked(i),
    ensures
        !routes_after(t, cap, gsis, gsis.len()).contains_key(gsis[i]),
        forall|j: int|
            0 <= j < gsis.len() && !cap.is_vector_masked(j) ==> routes_after(t, cap, gsis, gsis.len()).contains_key(
                #[trigger] gsis[j],
            ) && routes_after(t, cap, gsis, gsis.len())[gsis[j]] == route_entry(cap, gsis[j], j),
        forall|k: u32| !gsis.contains(k) ==> #[trigger] same_at(routes_after(t, cap, gsis, gsis.len()), t, k),
{
    lemma_routes_after_at(t, cap, gsis, gsis.len());
    assert(gsis.subrange(0, gsis.len() as int) =~= gsis);
}

/// Two devices with disjoint GSIs, updated one after the other in either
/// order, leave the same table: each device's GSIs hold what its own update
/// puts there, and every other key is untouched.
pub proof fn lemma_disjoint_devices_commute(
    t: Map<u32, MsiRoutingEntry>,
    cap_a: MsiCap,
    gsis_a: Seq<u32>,
    cap_b: MsiCap,
    gsis_b: Seq<u32>,
)
    requires
        distinct_gsis(gsis_a),
        distinct_gsis(gsis_b),
        forall|i: int, j: int| 0 <= i < gsis_a.len() && 0 <= j < gsis_b.len() ==> gsis_a[i] != gsis_b[j],
    ensures
        routes_after(routes_after(t, cap_a, gsis_a, gsis_a.len()), cap_b, gsis_b, gsis_b.len())
            == routes_after(routes_after(t, cap_b, gsis_b, gsis_b.len()), cap_a, gsis_a, gsis_a.len()),
        forall|i: int|
            0 <= i < gsis_a.len() ==> same_at(
                routes_after(routes_after(t, cap_a, gsis_a, gsis_a.len()), cap_b, gsis_b, gsis_b.len()),
                routes_after(t, cap_a, gsis_a, gsis_a.len()),
                #[trigger] gsis_a[i],
            ),
        forall|j: int|
            0 <= j < gsis_b.len() ==> same_at(
                routes_after(routes_after(t, cap_a, gsis_a, gsis_a.len()), cap_b, gsis_b, gsis_b.len()),
                routes_after(t, cap_b, gsis_b, gsis_b.len()),
                #[trigger] gsis_b[j],
            ),
        forall|k: u32|
            !gsis_a.contains(k) && !gsis_b.contains(k) ==> #[trigger] same_at(
                routes_after(routes_after(t, cap_a, gsis_a, gsis_a.len()), cap_b, gsis_b, gsis_b.len()),
                t,
                k,
            ),
{
    let ra = routes_after(t, cap_a, gsis_a, gsis_a.len());
    let rb = routes_after(t, cap_b, gsis_b, gsis_b.len());
    let ab = routes_after(ra, cap_b, gsis_b, gsis_b.len());
    let ba = routes_after(rb, cap_a, gsis_a, gsis_a.len());
    lemma_routes_after_at(t, cap_a, gsis_a, gsis_a.len());
    lemma_routes_after_at(t, cap_b, gsis_b, gsis_b.len());
    lemma_routes_after_at(ra, cap_b, gsis_b, gsis_b.len());
    lemma_routes_after_at(rb, cap_a, gsis_a, gsis_a.len());
    assert(gsis_a.subrange(0, gsis_a.len() as int) =~= gsis_a);
    assert(gsis_b.subrange(0, gsis_b.len() as int) =~= gsis_b);
    assert forall|i: int| 0 <= i < gsis_a.len() implies same_at(ab, ra, gsis_a[i]) && same_at(ba, ra, gsis_a[i]) by {
        assert(!gsis_b.contains(gsis_a[i]));
        assert(same_at(ab, ra, gsis_a[i]));
        assert(same_at(rb, t, gsis_a[i]));
    }
    assert forall|j: int| 0 <= j < gsis_b.len() implies same_at(ab, rb, gsis_b[j]) && same_at(ba, rb, gsis_b[j]) by {
        assert(!gsis_a.contains(gsis_b[j]));
        assert(same_at(ba, rb, gsis_b[j]));
        assert(same_at(ra, t, gsis_b[j]));
    }
    assert forall|k: u32| !gsis_a.contains(k) && !gsis_b.contains(k) implies same_at(ab, t, k) && same_at(ba, t, k) by {
        assert(same_at(ab, ra, k));
        assert(same_at(ra, t, k));
        assert(same_at(ba, rb, k));
        assert(same_at(rb, t, k));
    }
    assert forall|k: u32| #[trigger] same_at(ab, ba, k) by {
        if gsis_a.contains(k) {
            let i = choose|i: int| 0 <= i < gsis_a.len() && gsis_a[i] == k;
            assert(same_at(ab, ra, gsis_a[i]));
        } else if gsis_b.contains(k) {
            let j = choose|j: int| 0 <= j < gsis_b.len() && gsis_b[j] == k;
            assert(same_at(ab, rb, gsis_b[j]));
        } else {
            assert(same_at(ab, t, k));
        }
    }
    assert(ab.dom() =~= ba.dom()) by {
        assert forall|k: u32| ab.dom().contains(k) == ba.dom().contains(k) by {
            assert(same_at(ab, ba, k));
        }
    }
    assert(ab =~= ba) by {
        assert forall|k: u32| ab.dom().contains(k) implies ab[k] == ba[k] by {
            assert(same_at(ab, ba, k));
        }
    }
}

} // verus!

//! The device cache and the state-push decisions of the device commander.
//!
//! The cache owns one record per discovered controller, keyed by its stable
//! full name.  Registration decisions (probe or not) and the minimal state
//! deltas pushed to a device are computed here; performing the network
//! probes and pushes themselves is the caller's business.

use vstd::prelude::*;

verus! {

/// A device network address as a plain value: the raw bits of an IPv4 or
/// IPv6 address.
#[derive(Clone, Copy, Debug, PartialEq, Eq, Structural)]
pub struct IpAddress {
    pub is_v6: bool,
    pub bits: u128,
}

/// The fields of a controller's reported state that the engine reads or
/// writes.
#[derive(Clone, Copy, Debug, PartialEq, Eq)]
pub struct DeviceState {
    /// Whether the device is on.
    pub on: Option<bool>,
    /// The current brightness byte.
    pub bri: Option<u8>,
    /// The currently active preset id.
    pub ps: Option<i32>,
}

/// A cached controller: its last fetched state snapshot, its network
/// address, and its stable full name.
#[derive(Clone, Debug)]
pub struct WLED {
    pub state: Option<DeviceState>,
    pub address: IpAddress,
    pub name: String,
}

// ------------------------------------------------------------------
// Commander: minimal state deltas
// ------------------------------------------------------------------

/// A minimal state delta: only the fields being changed are set.
#[derive(Clone, Copy, Debug, PartialEq, Eq)]
pub struct StateDelta {
    pub on: Option<bool>,
    pub bri: Option<u8>,
    pub ps: Option<i32>,
}

/// The delta that selects a preset, leaving power and brightness alone.
pub fn led_set_preset(new_preset: u16) -> (d: StateDelta)
    ensures
        d == (StateDelta {
            on: Option::None,
            bri: Option::None,
            ps: Option::Some(new_preset as i32),
        }),
{
    StateDelta { on: Option::None, bri: Option::None, ps: Option::Some(new_preset as i32) }
}

/// The delta that switches the device on or off.
pub fn led_set_power(power: bool) -> (d: StateDelta)
    ensures
        d == (StateDelta { on: Option::Some(power), bri: Option::None, ps: Option::None }),
{
    StateDelta { on: Option::Some(power), bri: Option::None, ps: Option::None }
}

/// The delta that sets a brightness byte; the on/off flag follows
/// implicitly (off exactly when the byte is zero).
pub fn led_set_brightness(new_bri: u8) -> (d: StateDelta)
    ensures
        d == (StateDelta {
            on: Option::Some(new_bri > 0),
            bri: Option::Some(new_bri),
            ps: Option::None,
        }),
{
    StateDelta { on: Option::Some(new_bri > 0), bri: Option::Some(new_bri), ps: Option::None }
}

/// Whether a preset write must be issued: exactly when the device's current
/// preset does not already equal the target.
pub open spec fn preset_push_needed_spec(current: Option<i32>, target: u16) -> bool {
    current != Option::Some(target as i32)
}

/// The read-before-write guard of preset application: compare the device's
/// reported preset against the target and push only on a mismatch.
pub fn preset_push_needed(current: Option<i32>, target: u16) -> (need: bool)
    ensures
        need == preset_push_needed_spec(current, target),
{
    match current {
        Option::Some(p) => p != target as i32,
        Option::None => true,
    }
}

// ------------------------------------------------------------------
// Device cache
// ------------------------------------------------------------------

/// No two cache records share a name.
pub open spec fn cache_wf(s: Seq<WLED>) -> bool {
    forall|i: int, j: int|
        0 <= i < j < s.len() ==> (#[trigger] s[i]).name@ != (#[trigger] s[j]).name@
}

/// The index of the first record named `name`, if any.
pub open spec fn find_device(s: Seq<WLED>, name: Seq<char>) -> Option<int>
    decreases s.len(),
{
    if s.len() == 0 {
        Option::None
    } else if s[0].name@ == name {
        Option::Some(0)
    } else {
        match find_device(s.drop_first(), name) {
            Option::Some(i) => Option::Some(i + 1),
            Option::None => Option::None,
        }
    }
}

/// What a `find_device` answer means.
pub proof fn lemma_find_device_props(s: Seq<WLED>, name: Seq<char>)
    ensures
        match find_device(s, name) {
            Option::Some(i) => {
                &&& 0 <= i < s.len()
                &&& s[i].name@ == name
                &&& forall|j: int| 0 <= j < i ==> (#[trigger] s[j]).name@ != name
            },
            Option::None => forall|j: int| 0 <= j < s.len() ==> (#[trigger] s[j]).name@ != name,
        },
    decreases s.len(),
{
    if s.len() > 0 && s[0].name@ != name {
        lemma_find_device_props(s.drop_first(), name);
        let s1 = s.drop_first();
        match find_device(s1, name) {
            Option::Some(i) => {
                assert forall|j: int| 0 <= j < i + 1 implies (#[trigger] s[j]).name@ != name by {
                    if j > 0 {
                        assert(s1[j - 1].name@ != name);
                    }
                }
            }
            Option::None => {
                assert forall|j: int| 0 <= j < s.len() implies (#[trigger] s[j]).name@
                    != name by {
                    if j > 0 {
                        assert(s1[j - 1].name@ != name);
                    }
                }
            }
        }
    }
}

/// A record that matches at `k`, with no earlier match, is the one found.
proof fn lemma_find_device_at(s: Seq<WLED>, name: Seq<char>, k: int)
    requires
        0 <= k < s.len(),
        s[k].name@ == name,
        forall|j: int| 0 <= j < k ==> (#[trigger] s[j]).name@ != name,
    ensures
        find_device(s, name) == Option::Some(k),
    decreases s.len(),
{
    if k > 0 {
        let s1 = s.drop_first();
        lemma_find_device_at(s1, name, k - 1);
    }
}

/// No record matches: nothing is found.
proof fn lemma_find_device_none(s: Seq<WLED>, name: Seq<char>)
    requires
        forall|j: int| 0 <= j < s.len() ==> (#[trigger] s[j]).name@ != name,
    ensures
        find_device(s, name) is None,
    decreases s.len(),
{
    if s.len() > 0 {
        lemma_find_device_none(s.drop_first(), name);
    }
}

/// The registration decision for one advertisement.
#[derive(Clone, Copy, Debug, PartialEq, Eq, Structural)]
pub enum RegistrationPlan {
    /// The cached record's address is still among the advertised ones:
    /// nothing to do, no probe.
    NoOp,
    /// The advertised addresses must be probed in order; `address_changed`
    /// says whether an existing record's address went stale (worth a
    /// warning: a possible DHCP lease change).
    Probe { address_changed: bool },
}

/// The registration decision: a cached record whose address is still
/// advertised needs nothing; otherwise the candidates are probed, and an
/// existing record makes it an address change.
pub open spec fn plan_spec(s: Seq<WLED>, name: Seq<char>, addrs: Seq<IpAddress>) -> RegistrationPlan {
    match find_device(s, name) {
        Option::Some(i) => if addrs.contains(s[i].address) {
            RegistrationPlan::NoOp
        } else {
            RegistrationPlan::Probe { address_changed: true }
        },
        Option::None => RegistrationPlan::Probe { address_changed: false },
    }
}

/// The cache of discovered controllers, keyed by stable full name.
pub struct WledCache {
    devices: Vec<WLED>,
}

impl View for WledCache {
    type V = Seq<WLED>;

    closed spec fn view(&self) -> Seq<WLED> {
        self.devices@
    }
}

impl WledCache {
    /// An empty cache.
    pub fn new() -> (c: WledCache)
        ensures
            c@ == Seq::<WLED>::empty(),
            cache_wf(c@),
    {
        WledCache { devices: Vec::new() }
    }

    /// How many controllers are cached.
    pub fn len(&self) -> (n: usize)
        ensures
            n == self@.len(),
    {
        self.devices.len()
    }

    /// The cached record at position `k`.
    pub fn device_at(&self, k: usize) -> (w: &WLED)
        requires
            k < self@.len(),
        ensures
            *w == self@[k as int],
    {
        &self.devices[k]
    }

    fn find_index(&self, name: &String) -> (r: Option<usize>)
        ensures
            match r {
                Option::Some(k) => find_device(self@, name@) == Option::Some(k as int),
                Option::None => find_device(self@, name@) is None,
            },
    {
        let mut k: usize = 0;
        while k < self.devices.len()
            invariant
                0 <= k <= self@.len(),
                forall|j: int| 0 <= j < k ==> (#[trigger] self@[j]).name@ != name@,
            decreases self@.len() - k,
        {
            if self.devices[k].name == *name {
                proof {
                    lemma_find_device_at(self@, name@, k as int);
                }
                return Option::Some(k);
            }
            k += 1;
        }
        proof {
            lemma_find_device_none(self@, name@);
        }
        Option::None
    }

    /// Look a controller up by its full name.
    pub fn get(&self, name: &String) -> (r: Option<&WLED>)
        ensures
            match r {
                Option::Some(w) => find_device(self@, name@) matches Option::Some(i) && *w
                    == self@[i],
                Option::None => find_device(self@, name@) is None,
            },
    {
        match self.find_index(name) {
            Option::Some(k) => {
                proof {
                    lemma_find_device_props(self@, name@);
                }
                Option::Some(&self.devices[k])
            }
            Option::None => Option::None,
        }
    }

    /// Decide what an advertisement for `name` with candidate `addresses`
    /// requires: nothing, or a probe sequence over the candidates.
    pub fn plan_registration(&self, name: &String, addresses: &Vec<IpAddress>) -> (p:
        RegistrationPlan)
        ensures
            p == plan_spec(self@, name@, addresses@),
    {
        match self.find_index(name) {
            Option::Some(i) => {
                proof {
                    lemma_find_device_props(self@, name@);
                }
                let current = self.devices[i].address;
                let mut k: usize = 0;
                let mut found = false;
                while k < addresses.len()
                    invariant
                        0 <= k <= addresses@.len(),
                        found <==> exists|j: int|
                            0 <= j < k && (#[trigger] addresses@[j]) == current,
                    decreases addresses@.len() - k,
                {
                    if addresses[k] == current {
                        found = true;
                    }
                    k += 1;
                }
                if found {
                    RegistrationPlan::NoOp
                } else {
                    RegistrationPlan::Probe { address_changed: true }
                }
            }
            Option::None => RegistrationPlan::Probe { address_changed: false },
        }
    }

    /// Record a successful probe: overwrite the record named `name` in
    /// place, or append a fresh one.  The rest of the cache is untouched
    /// and names stay unique.
    pub fn register_probed(&mut self, name: &String, address: IpAddress, state: DeviceState)
        requires
            cache_wf(old(self)@),
        ensures
            cache_wf(final(self)@),
            match find_device(old(self)@, name@) {
                Option::Some(i) => {
                    &&& final(self)@.len() == old(self)@.len()
                    &&& final(self)@[i].name@ == name@
                    &&& final(self)@[i].address == address
                    &&& final(self)@[i].state == Option::Some(state)
                    &&& forall|j: int|
                        0 <= j < old(self)@.len() && j != i ==> final(self)@[j] == old(
                            self,
                        )@[j]
                },
                Option::None => {
                    &&& final(self)@.len() == old(self)@.len() + 1
                    &&& final(self)@.last().name@ == name@
                    &&& final(self)@.last().address == address
                    &&& final(self)@.last().state == Option::Some(state)
                    &&& forall|j: int|
                        0 <= j < old(self)@.len() ==> final(self)@[j] == old(self)@[j]
                },
            },
            find_device(final(self)@, name@) is Some,
    {
        proof {
            lemma_find_device_props(self@, name@);
        }
        let w = WLED { state: Option::Some(state), address, name: name.clone() };
        match self.find_index(name) {
            Option::Some(i) => {
                self.devices[i] = w;
                proof {
                    lemma_find_device_at(self@, name@, i as int);
                }
            }
            Option::None => {
                self.devices.push(w);
                proof {
                    lemma_find_device_at(self@, name@, self@.len() - 1);
                }
            }
        }
    }
}

/// Once a record for `name` carries address `addr`, planning a registration
/// for `name` is a no-op exactly when `addr` is still among the advertised
/// addresses; otherwise it asks for one probe sequence and flags the
/// address change.
pub proof fn lemma_registered_plan(
    s: Seq<WLED>,
    name: Seq<char>,
    addr: IpAddress,
    addrs: Seq<IpAddress>,
)
    requires
        cache_wf(s),
        exists|i: int| 0 <= i < s.len() && (#[trigger] s[i]).name@ == name && s[i].address == addr,
    ensures
        addrs.contains(addr) ==> plan_spec(s, name, addrs) == RegistrationPlan::NoOp,
        !addrs.contains(addr) ==> plan_spec(s, name, addrs) == (RegistrationPlan::Probe {
            address_changed: true,
        }),
{
    let i = choose|i: int|
        0 <= i < s.len() && (#[trigger] s[i]).name@ == name && s[i].address == addr;
    lemma_find_device_props(s, name);
    match find_device(s, name) {
        Option::Some(k) => {
            if k != i {
                assert(s[k].name@ == s[i].name@);
                if k < i {
                    assert(s[k].name@ != s[i].name@);
                } else {
                    assert(s[i].name@ != s[k].name@);
                }
            }
            assert(s[k].address == addr);
        }
        Option::None => {
            assert(s[i].name@ != name);
        }
    }
}

} // verus!

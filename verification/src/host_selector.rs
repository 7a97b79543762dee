//! Host selection and punishment engine: per-host health state, adaptive
//! timeouts, availability policy, and round-robin selection over a host
//! registry.
//!
//! Time enters every operation as a caller-supplied monotonic reading in
//! milliseconds, so the whole engine is a deterministic state machine.

use rand::seq::SliceRandom;
use vstd::prelude::*;
use vstd::arithmetic::power2::pow2;
use crate::strutil::{str_equal, str_lt, vec_contains_str, spec_contains_str, spec_lex_lt};

verus! {

/// Health state of one host.
#[derive(Clone, Copy, Debug)]
pub struct PunishedInfo {
    /// Monotonic milliseconds of the last punishment; absent when the
    /// host was never punished.
    pub last_punished_at: Option<u64>,
    pub continuous_punished_times: u64,
    pub timeout_power: u64,
    pub failed_to_connect: bool,
}

impl PunishedInfo {
    pub open spec fn spec_default() -> Self {
        PunishedInfo {
            last_punished_at: None,
            continuous_punished_times: 0,
            timeout_power: 0,
            failed_to_connect: false,
        }
    }
}

impl Default for PunishedInfo {
    fn default() -> (r: Self)
        ensures
            r == Self::spec_default(),
    {
        PunishedInfo {
            last_punished_at: None,
            continuous_punished_times: 0,
            timeout_power: 0,
            failed_to_connect: false,
        }
    }
}

/// Order on optional timestamps: absent sorts before every reading.
pub open spec fn spec_opt_lt(a: Option<u64>, b: Option<u64>) -> bool {
    match (a, b) {
        (Option::None, Option::Some(_)) => true,
        (Option::Some(x), Option::Some(y)) => x < y,
        _ => false,
    }
}

/// Strict health-state order: lexicographic by `(failed_to_connect,
/// timeout_power, continuous_punished_times, last_punished_at)`; larger
/// means worse.
pub open spec fn spec_info_lt(a: PunishedInfo, b: PunishedInfo) -> bool {
    if a.failed_to_connect != b.failed_to_connect {
        !a.failed_to_connect
    } else if a.timeout_power != b.timeout_power {
        a.timeout_power < b.timeout_power
    } else if a.continuous_punished_times != b.continuous_punished_times {
        a.continuous_punished_times < b.continuous_punished_times
    } else {
        spec_opt_lt(a.last_punished_at, b.last_punished_at)
    }
}

/// Exec mirror of `spec_info_lt`.
fn info_lt(a: &PunishedInfo, b: &PunishedInfo) -> (r: bool)
    ensures
        r == spec_info_lt(*a, *b),
{
    if a.failed_to_connect != b.failed_to_connect {
        !a.failed_to_connect
    } else if a.timeout_power != b.timeout_power {
        a.timeout_power < b.timeout_power
    } else if a.continuous_punished_times != b.continuous_punished_times {
        a.continuous_punished_times < b.continuous_punished_times
    } else {
        match (a.last_punished_at, b.last_punished_at) {
            (Option::None, Option::Some(_)) => true,
            (Option::Some(x), Option::Some(y)) => x < y,
            _ => false,
        }
    }
}

/// Milliseconds elapsed from the reading `t` to the reading `now`; 0 when
/// `t` lies in the future.
pub open spec fn spec_elapsed(now: u64, t: u64) -> int {
    if now >= t {
        now - t
    } else {
        0
    }
}

/// Per-attempt timeout: `base · 2^power`, capped at 600 s.
pub open spec fn spec_timeout_ms(base: u64, power: u64) -> int {
    let raw = base * pow2(power as nat);
    if raw < 600_000 {
        raw
    } else {
        600_000
    }
}

/// Cap on seek attempts per selection: `⌊count · percent / 100⌋`, capped
/// at the machine word.
pub open spec fn spec_max_seek_times(count: int, percent: u8) -> int {
    let raw = count * percent / 100;
    if raw < usize::MAX {
        raw
    } else {
        usize::MAX as int
    }
}

/// Punishment policy: lifetime of a punishment, timeout base,
/// availability bounds, and whether a caller-side punish predicate is
/// configured.
#[derive(Clone, Copy, Debug)]
pub struct HostPunisher {
    /// Whether the owner configured a predicate that decides which errors
    /// punish; without one every error punishes.
    pub has_should_punish_callback: bool,
    pub punish_duration_ms: u64,
    pub base_timeout_ms: u64,
    pub max_punished_times: u64,
    pub max_punished_hosts_percent: u8,
}

impl HostPunisher {
    pub open spec fn spec_is_available(&self, info: PunishedInfo, connection_sensitive: bool) -> bool {
        (!connection_sensitive || !info.failed_to_connect) && info.continuous_punished_times
            <= self.max_punished_times
    }

    /// Whether the host may still be chosen: optionally
    /// connection-sensitive, and not punished past the configured bound.
    pub fn is_available(&self, info: &PunishedInfo, connection_sensitive: bool) -> (r: bool)
        ensures
            r == self.spec_is_available(*info, connection_sensitive),
    {
        if connection_sensitive && info.failed_to_connect {
            return false;
        }
        info.continuous_punished_times <= self.max_punished_times
    }

    pub open spec fn spec_is_punishment_expired(&self, info: PunishedInfo, now: u64) -> bool {
        match info.last_punished_at {
            Option::None => true,
            Option::Some(t) => spec_elapsed(now, t) >= self.punish_duration_ms,
        }
    }

    /// Whether the last punishment is older than the configured lifetime
    /// (or the host was never punished).
    pub fn is_punishment_expired(&self, info: &PunishedInfo, now: u64) -> (r: bool)
        ensures
            r == self.spec_is_punishment_expired(*info, now),
    {
        match info.last_punished_at {
            Option::None => true,
            Option::Some(t) => {
                let elapsed = if now >= t {
                    now - t
                } else {
                    0
                };
                elapsed >= self.punish_duration_ms
            },
        }
    }

    pub open spec fn spec_timeout(&self, info: PunishedInfo) -> int {
        spec_timeout_ms(self.base_timeout_ms, info.timeout_power)
    }

    /// Per-attempt timeout of a host in the given state.
    pub fn timeout(&self, info: &PunishedInfo) -> (r: u64)
        ensures
            r == self.spec_timeout(*info),
    {
        timeout_of(self.base_timeout_ms, info.timeout_power)
    }

    pub open spec fn spec_max_seek_times(&self, count: int) -> int {
        spec_max_seek_times(count, self.max_punished_hosts_percent)
    }

    /// Bound on seek attempts for a registry of `count` hosts.
    pub fn max_seek_times(&self, count: usize) -> (r: usize)
        ensures
            r == self.spec_max_seek_times(count as int),
    {
        proof {
            assert((count as u128) * (self.max_punished_hosts_percent as u128) <= u128::MAX)
                by (nonlinear_arith)
                requires
                    count <= u64::MAX,
                    self.max_punished_hosts_percent <= u8::MAX,
            ;
        }
        let prod: u128 = (count as u128) * (self.max_punished_hosts_percent as u128);
        let raw: u128 = prod / 100;
        proof {
            assert(raw == count * self.max_punished_hosts_percent / 100);
        }
        if raw < usize::MAX as u128 {
            raw as usize
        } else {
            usize::MAX
        }
    }

    pub open spec fn spec_should_punish(&self, callback_verdict: bool) -> bool {
        if self.has_should_punish_callback {
            callback_verdict
        } else {
            true
        }
    }

    /// Whether an error punishes: the configured predicate's verdict, or
    /// always when none is configured.
    pub fn should_punish(&self, callback_verdict: bool) -> (r: bool)
        ensures
            r == self.spec_should_punish(callback_verdict),
    {
        if self.has_should_punish_callback {
            callback_verdict
        } else {
            true
        }
    }
}

/// Exec computation of `spec_timeout_ms`.
fn timeout_of(base: u64, power: u64) -> (r: u64)
    ensures
        r == spec_timeout_ms(base, power),
{
    if base == 0 {
        proof {
            vstd::arithmetic::power2::lemma_pow2_pos(power as nat);
            assert(0 * pow2(power as nat) == 0) by (nonlinear_arith);
        }
        return 0;
    }
    if power >= 64 {
        proof {
            vstd::bits::lemma_u64_pow2_no_overflow(63);
            if power as nat > 63 {
                vstd::arithmetic::power2::lemma_pow2_strictly_increases(63, power as nat);
            }
            assert(pow2(63) >= 0x8000_0000_0000_0000) by {
                vstd::arithmetic::power2::lemma2_to64_rest();
            }
            assert(base * pow2(power as nat) >= pow2(power as nat)) by (nonlinear_arith)
                requires
                    base >= 1,
            ;
        }
        return 600_000;
    }
    proof {
        vstd::bits::lemma_u64_pow2_no_overflow(power as nat);
        vstd::bits::lemma_u64_shl_is_mul(1u64, power);
    }
    let factor: u64 = 1u64 << power;
    match base.checked_mul(factor) {
        Option::Some(t) => {
            if t < 600_000 {
                t
            } else {
                600_000
            }
        },
        Option::None => {
            proof {
                assert(base * factor > 600_000) by (nonlinear_arith)
                    requires
                        base * factor > u64::MAX,
                ;
            }
            600_000
        },
    }
}

/// Index of the first string of `keys` holding the characters `h`, or -1.
pub open spec fn spec_key_index(keys: Seq<Seq<char>>, h: Seq<char>) -> int
    decreases keys.len(),
{
    if keys.len() == 0 {
        -1
    } else if keys[0] == h {
        0
    } else {
        let r = spec_key_index(keys.skip(1), h);
        if r < 0 {
            -1
        } else {
            r + 1
        }
    }
}

/// The index returned by `spec_key_index` is a real match when
/// non-negative.
pub proof fn lemma_key_index_bounds(keys: Seq<Seq<char>>, h: Seq<char>)
    ensures
        -1 <= spec_key_index(keys, h) < keys.len(),
        spec_key_index(keys, h) >= 0 ==> keys[spec_key_index(keys, h)] == h,
    decreases keys.len(),
{
    if keys.len() > 0 && keys[0] != h {
        lemma_key_index_bounds(keys.skip(1), h);
    }
}

/// When a prefix holds no match and position `i` does, the lookup lands
/// on `i`.
proof fn lemma_key_index_found(keys: Seq<Seq<char>>, h: Seq<char>, i: int)
    requires
        0 <= i < keys.len(),
        forall|j: int| 0 <= j < i ==> keys[j] != h,
        keys[i] == h,
    ensures
        spec_key_index(keys, h) == i,
    decreases i,
{
    if i > 0 {
        lemma_key_index_found(keys.skip(1), h, i - 1);
    }
}

/// When nothing matches, the lookup reports -1.
proof fn lemma_key_index_absent(keys: Seq<Seq<char>>, h: Seq<char>)
    requires
        forall|j: int| 0 <= j < keys.len() ==> keys[j] != h,
    ensures
        spec_key_index(keys, h) == -1,
    decreases keys.len(),
{
    if keys.len() > 0 {
        lemma_key_index_absent(keys.skip(1), h);
    }
}

/// One state per key, keys distinct, and every listed host has a state
/// entry.
pub open spec fn spec_registry_wf(
    keys: Seq<Seq<char>>,
    states: Seq<PunishedInfo>,
    hosts: Seq<Seq<char>>,
) -> bool {
    &&& keys.len() == states.len()
    &&& forall|i: int, j: int| 0 <= i < j < keys.len() ==> keys[i] != keys[j]
    &&& forall|i: int| 0 <= i < hosts.len() ==> spec_key_index(keys, (#[trigger] hosts[i])) >= 0
}

/// Auto-refresh bookkeeping: how often the host list may refresh, and
/// when it last did.
#[derive(Clone, Copy, Debug)]
pub struct UpdateOption {
    pub interval_ms: u64,
    pub last_updated_at_ms: u64,
}

impl UpdateOption {
    pub fn new(interval_ms: u64, now: u64) -> (r: Self)
        ensures
            r == (UpdateOption { interval_ms, last_updated_at_ms: now }),
    {
        UpdateOption { interval_ms, last_updated_at_ms: now }
    }
}

/// Registry of hosts: the round-robin sequence, one health state per
/// distinct host, the rolling index, and the last selected timeout power.
#[derive(Clone, Debug)]
pub struct HostsUpdater {
    hosts: Vec<String>,
    keys: Vec<String>,
    states: Vec<PunishedInfo>,
    index: u64,
    current_timeout_power: u64,
    update_option: Option<UpdateOption>,
}

impl HostsUpdater {
    pub closed spec fn spec_hosts(&self) -> Seq<Seq<char>> {
        self.hosts@.map_values(|s: String| s@)
    }

    pub closed spec fn spec_keys(&self) -> Seq<Seq<char>> {
        self.keys@.map_values(|s: String| s@)
    }

    pub closed spec fn spec_states(&self) -> Seq<PunishedInfo> {
        self.states@
    }

    pub closed spec fn spec_index(&self) -> u64 {
        self.index
    }

    pub closed spec fn spec_current_timeout_power(&self) -> u64 {
        self.current_timeout_power
    }

    pub closed spec fn spec_update_option(&self) -> Option<UpdateOption> {
        self.update_option
    }

    /// One state per key, keys distinct, and every listed host has a
    /// state entry.
    pub open spec fn wf(&self) -> bool {
        spec_registry_wf(self.spec_keys(), self.spec_states(), self.spec_hosts())
    }

    pub open spec fn spec_has_key(&self, h: Seq<char>) -> bool {
        spec_key_index(self.spec_keys(), h) >= 0
    }

    /// Health state recorded for the host `h`; default when unknown.
    pub open spec fn spec_state_of(&self, h: Seq<char>) -> PunishedInfo {
        let i = spec_key_index(self.spec_keys(), h);
        if i < 0 {
            PunishedInfo::spec_default()
        } else {
            self.spec_states()[i]
        }
    }

    /// Index of the state entry of `host`, if the host is known.
    fn find_key(&self, host: &str) -> (r: Option<usize>)
        requires
            self.wf(),
        ensures
            r matches Some(i) ==> i == spec_key_index(self.spec_keys(), host@) && i
                < self.spec_states().len(),
            r is None ==> spec_key_index(self.spec_keys(), host@) == -1,
    {
        let ghost keys = self.spec_keys();
        let n = self.keys.len();
        proof {
            assert(keys.len() == n);
        }
        for i in 0..n
            invariant
                self.wf(),
                keys == self.spec_keys(),
                n == keys.len(),
                n == self.spec_states().len(),
                forall|j: int| 0 <= j < i ==> keys[j] != host@,
        {
            proof {
                assert(keys[i as int] == self.keys@[i as int]@);
            }
            if str_equal(self.keys[i].as_str(), host) {
                proof {
                    lemma_key_index_found(keys, host@, i as int);
                }
                return Some(i);
            }
        }
        proof {
            lemma_key_index_absent(keys, host@);
        }
        None
    }

    /// Builds a registry: every distinct host gets the default state, the
    /// rolling index starts at 0.
    pub fn new(hosts: Vec<String>, update_option: Option<UpdateOption>) -> (r: Self)
        ensures
            r.wf(),
            r.spec_hosts() == hosts@.map_values(|s: String| s@),
            forall|h: Seq<char>| r.spec_state_of(h) == PunishedInfo::spec_default(),
            r.spec_index() == 0,
            r.spec_current_timeout_power() == 0,
            r.spec_update_option() == update_option,
    {
        let (keys, states) = dedup_keys(&hosts);
        let r = HostsUpdater {
            hosts,
            keys,
            states,
            index: 0,
            current_timeout_power: 0,
            update_option,
        };
        proof {
            assert forall|h: Seq<char>| r.spec_state_of(h) == PunishedInfo::spec_default() by {
                lemma_key_index_bounds(r.spec_keys(), h);
            }
        }
        r
    }

    /// Replaces the host list: the sequence is shuffled, and every host
    /// starts over from the default state.
    pub fn set_hosts(&mut self, hosts: Vec<String>)
        ensures
            final(self).wf(),
            final(self).spec_hosts().to_multiset() == hosts@.map_values(
                |s: String| s@,
            ).to_multiset(),
            final(self).spec_hosts().len() == hosts@.len(),
            forall|h: Seq<char>|
                final(self).spec_state_of(h) == PunishedInfo::spec_default(),
            final(self).spec_index() == old(self).spec_index(),
            final(self).spec_current_timeout_power() == old(self).spec_current_timeout_power(),
            final(self).spec_update_option() == old(self).spec_update_option(),
    {
        let ghost ohv = hosts@.map_values(|s: String| s@);
        let (keys, states) = dedup_keys(&hosts);
        let mut shuffled = hosts;
        shuffle_strings(&mut shuffled);
        self.hosts = shuffled;
        self.keys = keys;
        self.states = states;
        proof {
            broadcast use vstd::seq_lib::group_to_multiset_ensures;

            assert forall|h: Seq<char>| self.spec_state_of(h) == PunishedInfo::spec_default() by {
                lemma_key_index_bounds(self.spec_keys(), h);
            }
            let shv = self.spec_hosts();
            assert forall|i: int|
                0 <= i < shv.len() implies spec_key_index(self.spec_keys(), shv[i]) >= 0 by {
                assert(shv.contains(shv[i]));
                assert(shv.to_multiset().count(shv[i]) > 0);
                assert(ohv.to_multiset().count(shv[i]) > 0);
                assert(ohv.contains(shv[i]));
                let j = choose|j: int| 0 <= j < ohv.len() && ohv[j] == shv[i];
                assert(spec_key_index(self.spec_keys(), ohv[j]) >= 0);
            }
        }
    }

    /// Fetch-and-increment of the rolling index, wrapping at the word
    /// boundary.
    pub fn next_index(&mut self) -> (r: u64)
        ensures
            r == old(self).spec_index(),
            final(self).spec_index() == old(self).spec_index().wrapping_add(1),
            final(self).spec_hosts() == old(self).spec_hosts(),
            final(self).spec_keys() == old(self).spec_keys(),
            final(self).spec_states() == old(self).spec_states(),
            final(self).spec_current_timeout_power() == old(self).spec_current_timeout_power(),
            final(self).spec_update_option() == old(self).spec_update_option(),
            final(self).wf() == old(self).wf(),
    {
        let r = self.index;
        self.index = self.index.wrapping_add(1);
        r
    }

    /// Whether the configured refresh interval has elapsed, so a
    /// background refresh should be scheduled.
    pub fn should_auto_update(&self, now: u64) -> (r: bool)
        ensures
            r == (self.spec_update_option() matches Some(o) && spec_elapsed(
                now,
                o.last_updated_at_ms,
            ) >= o.interval_ms),
    {
        match &self.update_option {
            Option::Some(o) => {
                let elapsed = if now >= o.last_updated_at_ms {
                    now - o.last_updated_at_ms
                } else {
                    0
                };
                elapsed >= o.interval_ms
            },
            Option::None => false,
        }
    }

    /// Records that a refresh just happened.
    pub fn note_updated(&mut self, now: u64)
        ensures
            final(self).spec_update_option() == (match old(self).spec_update_option() {
                Some(o) => Some(UpdateOption { last_updated_at_ms: now, ..o }),
                None => None::<UpdateOption>,
            }),
            final(self).spec_hosts() == old(self).spec_hosts(),
            final(self).spec_keys() == old(self).spec_keys(),
            final(self).spec_states() == old(self).spec_states(),
            final(self).spec_index() == old(self).spec_index(),
            final(self).spec_current_timeout_power() == old(self).spec_current_timeout_power(),
            final(self).wf() == old(self).wf(),
    {
        match &mut self.update_option {
            Option::Some(o) => {
                o.last_updated_at_ms = now;
            },
            Option::None => {},
        }
    }

    /// Applies a fetched host list: a non-empty list replaces the
    /// registry, an empty one is ignored.
    pub fn update_hosts(&mut self, fetched: Vec<String>) -> (r: bool)
        ensures
            r == (fetched@.len() > 0),
            r ==> final(self).wf() && final(self).spec_hosts().to_multiset() == fetched@.map_values(
                |s: String| s@,
            ).to_multiset() && final(self).spec_hosts().len() == fetched@.len() && forall|
                h: Seq<char>,
            |
                final(self).spec_state_of(h) == PunishedInfo::spec_default(),
            !r ==> *final(self) == *old(self),
    {
        if fetched.len() > 0 {
            self.set_hosts(fetched);
            true
        } else {
            false
        }
    }

    /// Raises the host's timeout power to at least `timeout_power + 1`
    /// and stamps the punishment time.
    pub fn increase_timeout_power_by(&mut self, host: &str, timeout_power: u64, now: u64)
        requires
            old(self).wf(),
        ensures
            final(self).wf(),
            forall|h: Seq<char>|
                final(self).spec_state_of(h) == (if h == host@ && old(self).spec_has_key(h) {
                    spec_power_raised(old(self).spec_state_of(h), timeout_power, now)
                } else {
                    old(self).spec_state_of(h)
                }),
            final(self).spec_hosts() == old(self).spec_hosts(),
            final(self).spec_keys() == old(self).spec_keys(),
            final(self).spec_index() == old(self).spec_index(),
            final(self).spec_current_timeout_power() == old(self).spec_current_timeout_power(),
            final(self).spec_update_option() == old(self).spec_update_option(),
    {
        let found = self.find_key(host);
        match found {
            Option::Some(i) => {
                let raised = timeout_power.saturating_add(1);
                let mut info = self.states[i];
                if info.timeout_power < raised {
                    info.timeout_power = raised;
                }
                info.last_punished_at = Some(now);
                self.states[i] = info;
                proof {
                    assert(self.spec_states() =~= old(self).spec_states().update(
                        i as int,
                        self.spec_states()[i as int],
                    ));
                    self.lemma_state_update(*old(self), i as int, host@);
                }
            },
            Option::None => {},
        }
    }

    /// Marks the host as failing to connect and stamps the punishment
    /// time.
    pub fn mark_connection_as_failed(&mut self, host: &str, now: u64)
        requires
            old(self).wf(),
        ensures
            final(self).wf(),
            forall|h: Seq<char>|
                final(self).spec_state_of(h) == (if h == host@ && old(self).spec_has_key(h) {
                    spec_conn_failed(old(self).spec_state_of(h), now)
                } else {
                    old(self).spec_state_of(h)
                }),
            final(self).spec_hosts() == old(self).spec_hosts(),
            final(self).spec_keys() == old(self).spec_keys(),
            final(self).spec_index() == old(self).spec_index(),
            final(self).spec_current_timeout_power() == old(self).spec_current_timeout_power(),
            final(self).spec_update_option() == old(self).spec_update_option(),
    {
        let found = self.find_key(host);
        match found {
            Option::Some(i) => {
                let mut info = self.states[i];
                info.failed_to_connect = true;
                info.last_punished_at = Some(now);
                self.states[i] = info;
                proof {
                    assert(self.spec_states() =~= old(self).spec_states().update(
                        i as int,
                        self.spec_states()[i as int],
                    ));
                    self.lemma_state_update(*old(self), i as int, host@);
                }
            },
            Option::None => {},
        }
    }


    /// Number of listed hosts.
    pub fn hosts_len(&self) -> (r: usize)
        ensures
            r == self.spec_hosts().len(),
    {
        self.hosts.len()
    }

    /// The listed host at position `i`.
    pub fn host_at(&self, i: usize) -> (r: String)
        requires
            i < self.spec_hosts().len(),
        ensures
            r@ == self.spec_hosts()[i as int],
    {
        self.hosts[i].clone()
    }

    /// The recorded health state of `host` (default when unknown).
    pub fn state_of(&self, host: &str) -> (r: PunishedInfo)
        requires
            self.wf(),
        ensures
            r == self.spec_state_of(host@),
    {
        let found = self.find_key(host);
        match found {
            Option::Some(i) => self.states[i],
            Option::None => PunishedInfo::default(),
        }
    }

    /// The timeout power of the last selection.
    pub fn current_timeout_power(&self) -> (r: u64)
        ensures
            r == self.spec_current_timeout_power(),
    {
        self.current_timeout_power
    }

    /// Records the timeout power of the host just selected.
    pub fn set_current_timeout_power(&mut self, power: u64)
        ensures
            final(self).spec_current_timeout_power() == power,
            final(self).spec_hosts() == old(self).spec_hosts(),
            final(self).spec_keys() == old(self).spec_keys(),
            final(self).spec_states() == old(self).spec_states(),
            final(self).spec_index() == old(self).spec_index(),
            final(self).spec_update_option() == old(self).spec_update_option(),
            final(self).wf() == old(self).wf(),
    {
        self.current_timeout_power = power;
    }



    /// Forgives a host: punishments reset, connection mark cleared, and
    /// the timeout power steps down by one.
    pub fn reward(&mut self, host: &str)
        requires
            old(self).wf(),
        ensures
            final(self).wf(),
            forall|h: Seq<char>|
                final(self).spec_state_of(h) == (if h == host@ && old(self).spec_has_key(h) {
                    spec_rewarded(old(self).spec_state_of(h))
                } else {
                    old(self).spec_state_of(h)
                }),
            final(self).spec_hosts() == old(self).spec_hosts(),
            final(self).spec_keys() == old(self).spec_keys(),
            final(self).spec_index() == old(self).spec_index(),
            final(self).spec_current_timeout_power() == old(self).spec_current_timeout_power(),
            final(self).spec_update_option() == old(self).spec_update_option(),
    {
        let found = self.find_key(host);
        match found {
            Option::Some(i) => {
                let mut info = self.states[i];
                info.continuous_punished_times = 0;
                info.failed_to_connect = false;
                info.timeout_power = if info.timeout_power == 0 {
                    0
                } else {
                    info.timeout_power - 1
                };
                self.states[i] = info;
                proof {
                    assert(self.spec_states() =~= old(self).spec_states().update(
                        i as int,
                        self.spec_states()[i as int],
                    ));
                    self.lemma_state_update(*old(self), i as int, host@);
                }
            },
            Option::None => {},
        }
    }

    /// Punishes a known host: one more continuous punishment and a fresh
    /// stamp; hands back the new state, or nothing for an unknown host.
    pub fn punish_host(&mut self, host: &str, now: u64) -> (r: Option<PunishedInfo>)
        requires
            old(self).wf(),
        ensures
            final(self).wf(),
            forall|h: Seq<char>|
                final(self).spec_state_of(h) == (if h == host@ && old(self).spec_has_key(h) {
                    spec_punished(old(self).spec_state_of(h), now)
                } else {
                    old(self).spec_state_of(h)
                }),
            r == (if old(self).spec_has_key(host@) {
                Some(spec_punished(old(self).spec_state_of(host@), now))
            } else {
                None::<PunishedInfo>
            }),
            final(self).spec_hosts() == old(self).spec_hosts(),
            final(self).spec_keys() == old(self).spec_keys(),
            final(self).spec_index() == old(self).spec_index(),
            final(self).spec_current_timeout_power() == old(self).spec_current_timeout_power(),
            final(self).spec_update_option() == old(self).spec_update_option(),
    {
        let found = self.find_key(host);
        match found {
            Option::Some(i) => {
                let mut info = self.states[i];
                info.continuous_punished_times = if info.continuous_punished_times == u64::MAX {
                    u64::MAX
                } else {
                    info.continuous_punished_times + 1
                };
                info.last_punished_at = Some(now);
                self.states[i] = info;
                proof {
                    assert(self.spec_states() =~= old(self).spec_states().update(
                        i as int,
                        self.spec_states()[i as int],
                    ));
                    self.lemma_state_update(*old(self), i as int, host@);
                }
                Some(info)
            },
            Option::None => None,
        }
    }

    /// After updating the state entry `i` of `prev` (keys untouched),
    /// lookups change for the key at `i` alone.
    proof fn lemma_state_update(&self, prev: Self, i: int, h: Seq<char>)
        requires
            prev.wf(),
            0 <= i < prev.spec_states().len(),
            self.spec_hosts() == prev.spec_hosts(),
            self.spec_keys() == prev.spec_keys(),
            self.spec_states() == prev.spec_states().update(i, self.spec_states()[i]),
            self.spec_states().len() == prev.spec_states().len(),
            spec_key_index(prev.spec_keys(), h) == i,
        ensures
            self.wf(),
            self.spec_state_of(h) == self.spec_states()[i],
            forall|g: Seq<char>|
                g != h ==> self.spec_state_of(g) == prev.spec_state_of(g),
    {
        lemma_key_index_bounds(prev.spec_keys(), h);
        assert forall|g: Seq<char>| g != h implies self.spec_state_of(g) == prev.spec_state_of(
            g,
        ) by {
            lemma_key_index_bounds(prev.spec_keys(), g);
            let j = spec_key_index(prev.spec_keys(), g);
            if j >= 0 {
                assert(prev.spec_keys()[j] == g);
                assert(prev.spec_keys()[i] == h);
                assert(j != i);
            }
        }
    }
}

/// State transform of a timeout-power raise.
pub open spec fn spec_power_raised(info: PunishedInfo, timeout_power: u64, now: u64) -> PunishedInfo {
    let raised = if timeout_power == u64::MAX {
        u64::MAX
    } else {
        (timeout_power + 1) as u64
    };
    PunishedInfo {
        timeout_power: if info.timeout_power < raised {
            raised
        } else {
            info.timeout_power
        },
        last_punished_at: Some(now),
        ..info
    }
}

/// State transform of a connection failure.
pub open spec fn spec_conn_failed(info: PunishedInfo, now: u64) -> PunishedInfo {
    PunishedInfo { failed_to_connect: true, last_punished_at: Some(now), ..info }
}

/// State transform of a reward: the punishments are forgiven and the
/// timeout power steps down by one.
pub open spec fn spec_rewarded(info: PunishedInfo) -> PunishedInfo {
    PunishedInfo {
        continuous_punished_times: 0,
        failed_to_connect: false,
        timeout_power: if info.timeout_power == 0 {
            0
        } else {
            (info.timeout_power - 1) as u64
        },
        ..info
    }
}

/// State transform of a punishment: one more continuous punishment, and a
/// fresh punishment stamp.
pub open spec fn spec_punished(info: PunishedInfo, now: u64) -> PunishedInfo {
    PunishedInfo {
        continuous_punished_times: if info.continuous_punished_times == u64::MAX {
            u64::MAX
        } else {
            (info.continuous_punished_times + 1) as u64
        },
        last_punished_at: Some(now),
        ..info
    }
}

/// Splits a host list into its distinct hosts, each with the default
/// state.
fn dedup_keys(hosts: &Vec<String>) -> (r: (Vec<String>, Vec<PunishedInfo>))
    ensures
        r.0@.len() == r.1@.len(),
        forall|i: int, j: int|
            0 <= i < j < r.0@.len() ==> (#[trigger] r.0@[i])@ != (#[trigger] r.0@[j])@,
        forall|i: int|
            0 <= i < hosts@.len() ==> spec_key_index(
                r.0@.map_values(|s: String| s@),
                (#[trigger] hosts@[i])@,
            ) >= 0,
        forall|i: int| 0 <= i < r.1@.len() ==> r.1@[i] == PunishedInfo::spec_default(),
{
    let mut keys: Vec<String> = Vec::new();
    let mut states: Vec<PunishedInfo> = Vec::new();
    let n = hosts.len();
    for i in 0..n
        invariant
            n == hosts@.len(),
            keys@.len() == states@.len(),
            forall|a: int, b: int|
                0 <= a < b < keys@.len() ==> (#[trigger] keys@[a])@ != (#[trigger] keys@[b])@,
            forall|a: int|
                0 <= a < i ==> spec_key_index(
                    keys@.map_values(|s: String| s@),
                    (#[trigger] hosts@[a])@,
                ) >= 0,
            forall|a: int| 0 <= a < states@.len() ==> states@[a] == PunishedInfo::spec_default(),
    {
        let ghost prev_keys = keys@.map_values(|s: String| s@);
        let mut found = false;
        let kn = keys.len();
        for j in 0..kn
            invariant
                i < n,
                n == hosts@.len(),
                kn == keys@.len(),
                prev_keys == keys@.map_values(|s: String| s@),
                found == exists|b: int| 0 <= b < j && prev_keys[b] == hosts@[i as int]@,
        {
            proof {
                assert(prev_keys[j as int] == keys@[j as int]@);
            }
            if str_equal(keys[j].as_str(), hosts[i].as_str()) {
                proof {
                    assert(prev_keys[j as int] == hosts@[i as int]@);
                }
                found = true;
            } else {
                proof {
                    assert(prev_keys[j as int] != hosts@[i as int]@);
                }
            }
        }
        if !found {
            keys.push(hosts[i].clone());
            states.push(PunishedInfo::default());
            proof {
                assert forall|a: int, b: int|
                    0 <= a < b < keys@.len() implies (#[trigger] keys@[a])@ != (
                #[trigger] keys@[b])@ by {
                    if b == keys@.len() as int - 1 {
                        assert(keys@[b]@ == hosts@[i as int]@);
                        assert(keys@[a]@ == prev_keys[a]);
                        assert(!(exists|c: int|
                            0 <= c < prev_keys.len() && prev_keys[c] == hosts@[i as int]@));
                    }
                }
            }
        }
        proof {
            let cur_keys = keys@.map_values(|s: String| s@);
            if !found {
                assert(cur_keys =~= prev_keys.push(hosts@[i as int]@));
            }
            assert forall|a: int|
                0 <= a < i + 1 implies spec_key_index(cur_keys, (#[trigger] hosts@[a])@) >= 0 by {
                let h = hosts@[a]@;
                if a < i {
                    assert(spec_key_index(prev_keys, h) >= 0);
                    lemma_key_index_extend(prev_keys, cur_keys, h);
                } else {
                    if found {
                        let b = choose|b: int| 0 <= b < kn && prev_keys[b] == hosts@[i as int]@;
                        assert(cur_keys[b] == h);
                        lemma_key_index_member(cur_keys, h, b);
                    } else {
                        assert(cur_keys[cur_keys.len() as int - 1] == h);
                        lemma_key_index_member(cur_keys, h, cur_keys.len() as int - 1);
                    }
                }
            }
        }
    }
    (keys, states)
}

/// A key present at some position has a non-negative lookup index.
proof fn lemma_key_index_member(keys: Seq<Seq<char>>, h: Seq<char>, i: int)
    requires
        0 <= i < keys.len(),
        keys[i] == h,
    ensures
        spec_key_index(keys, h) >= 0,
    decreases i,
{
    if keys[0] != h {
        lemma_key_index_member(keys.skip(1), h, i - 1);
    }
}

/// A lookup that succeeds keeps succeeding when the key list grows at the
/// end.
proof fn lemma_key_index_extend(prev: Seq<Seq<char>>, cur: Seq<Seq<char>>, h: Seq<char>)
    requires
        spec_key_index(prev, h) >= 0,
        prev.len() <= cur.len(),
        forall|j: int| 0 <= j < prev.len() ==> cur[j] == prev[j],
    ensures
        spec_key_index(cur, h) >= 0,
{
    lemma_key_index_bounds(prev, h);
    let i = spec_key_index(prev, h);
    lemma_key_index_member(cur, h, i);
}

/// Relies on rand's slice shuffle: the strings are permuted in place,
/// uniformly at random.
#[verifier::external_body]
fn shuffle_strings(hosts: &mut Vec<String>)
    ensures
        final(hosts)@.map_values(|s: String| s@).to_multiset() == old(hosts)@.map_values(
            |s: String| s@,
        ).to_multiset(),
        final(hosts)@.len() == old(hosts)@.len(),
{
    hosts.shuffle(&mut rand::rng());
}


/// One buffered candidate of a selection round: a host that was seen but
/// not directly picked.
struct Candidate {
    host: String,
    info: PunishedInfo,
}

/// Ghost image of a buffered candidate.
pub ghost struct SpecCandidate {
    pub host: Seq<char>,
    pub info: PunishedInfo,
}

/// Ghost image of a selection result.
pub ghost struct SpecChoice {
    pub host: Seq<char>,
    pub timeout_ms: int,
    pub timeout_power: u64,
}

/// What one selection round computes: the choice and the rolling index
/// after it.
pub ghost struct SpecSelectOutcome {
    pub choice: Option<SpecChoice>,
    pub end_index: u64,
}

/// The rolling index after one seek.
pub open spec fn spec_wrap_inc(i: u64) -> u64 {
    if i == u64::MAX {
        0
    } else {
        (i + 1) as u64
    }
}

/// Candidate availability ignores connection failures: only the punish
/// count bounds it.
pub open spec fn spec_cand_available(p: HostPunisher, info: PunishedInfo) -> bool {
    info.continuous_punished_times <= p.max_punished_times
}

/// Total order on candidates, read as `a >= b`: expired punishments come
/// first, then still-available hosts, then the reverse of the
/// health-state order (the least-bad state wins).
pub open spec fn spec_cand_ge(p: HostPunisher, now: u64, a: SpecCandidate, b: SpecCandidate) -> bool {
    let ea = p.spec_is_punishment_expired(a.info, now);
    let eb = p.spec_is_punishment_expired(b.info, now);
    if ea {
        true
    } else if eb {
        false
    } else {
        let aa = spec_cand_available(p, a.info);
        let ab = spec_cand_available(p, b.info);
        if aa && !ab {
            true
        } else if !aa && ab {
            false
        } else {
            !spec_info_lt(b.info, a.info)
        }
    }
}

/// Exec mirror of `spec_cand_ge`.
fn cand_ge(p: &HostPunisher, now: u64, a: &Candidate, b: &Candidate) -> (r: bool)
    ensures
        r == spec_cand_ge(*p, now, SpecCandidate { host: a.host@, info: a.info }, SpecCandidate { host: b.host@, info: b.info }),
{
    let ea = p.is_punishment_expired(&a.info, now);
    let eb = p.is_punishment_expired(&b.info, now);
    if ea {
        true
    } else if eb {
        false
    } else {
        let aa = a.info.continuous_punished_times <= p.max_punished_times;
        let ab = b.info.continuous_punished_times <= p.max_punished_times;
        if aa && !ab {
            true
        } else if !aa && ab {
            false
        } else {
            !info_lt(&b.info, &a.info)
        }
    }
}

/// The "least bad" buffered candidate: the last maximum under the
/// candidate order, as a left-to-right fold.
pub open spec fn spec_best_cand(p: HostPunisher, now: u64, cands: Seq<SpecCandidate>) -> Option<
    SpecCandidate,
>
    decreases cands.len(),
{
    if cands.len() == 0 {
        None
    } else {
        let prev = spec_best_cand(p, now, cands.take(cands.len() as int - 1));
        let c = cands[cands.len() as int - 1];
        match prev {
            None => Some(c),
            Some(b) => if spec_cand_ge(p, now, c, b) {
                Some(c)
            } else {
                Some(b)
            },
        }
    }
}

/// The choice made from the buffered candidates, if any.
pub open spec fn spec_best_choice(p: HostPunisher, now: u64, cands: Seq<SpecCandidate>) -> Option<
    SpecChoice,
> {
    match spec_best_cand(p, now, cands) {
        None => None,
        Some(c) => Some(
            SpecChoice {
                host: c.host,
                timeout_ms: p.spec_timeout(c.info),
                timeout_power: c.info.timeout_power,
            },
        ),
    }
}

/// One selection round over a non-empty registry, starting at the rolling
/// index `idx` with `remaining` seeks left: each seek takes the next host
/// round-robin; a tried host is skipped; a host whose punishment expired
/// is picked at the base timeout; an available host no worse than the
/// last selected power is picked at its own timeout; anything else is
/// buffered, and when the seeks run out the least-bad buffered candidate
/// is picked.
pub open spec fn spec_select_loop(
    u: HostsUpdater,
    p: HostPunisher,
    tried: Seq<Seq<char>>,
    now: u64,
    idx: u64,
    remaining: nat,
    cands: Seq<SpecCandidate>,
) -> SpecSelectOutcome
    decreases remaining,
{
    let n = u.spec_hosts().len() as int;
    if remaining == 0 {
        SpecSelectOutcome { choice: spec_best_choice(p, now, cands), end_index: idx }
    } else {
        let h = u.spec_hosts()[(idx as int) % n];
        let next = spec_wrap_inc(idx);
        if spec_contains_str(tried, h) {
            spec_select_loop(u, p, tried, now, next, (remaining - 1) as nat, cands)
        } else {
            let st = u.spec_state_of(h);
            if p.spec_is_punishment_expired(st, now) {
                SpecSelectOutcome {
                    choice: Some(
                        SpecChoice {
                            host: h,
                            timeout_ms: p.base_timeout_ms as int,
                            timeout_power: 0,
                        },
                    ),
                    end_index: next,
                }
            } else if p.spec_is_available(st, true) && u.spec_current_timeout_power()
                >= st.timeout_power {
                SpecSelectOutcome {
                    choice: Some(
                        SpecChoice {
                            host: h,
                            timeout_ms: p.spec_timeout(st),
                            timeout_power: st.timeout_power,
                        },
                    ),
                    end_index: next,
                }
            } else {
                spec_select_loop(
                    u,
                    p,
                    tried,
                    now,
                    next,
                    (remaining - 1) as nat,
                    cands.push(SpecCandidate { host: h, info: st }),
                )
            }
        }
    }
}

/// The best buffered candidate is one of the buffered candidates.
proof fn lemma_best_cand_member(p: HostPunisher, now: u64, cands: Seq<SpecCandidate>)
    ensures
        spec_best_cand(p, now, cands) matches Some(c) ==> cands.contains(c),
        cands.len() > 0 ==> spec_best_cand(p, now, cands) is Some,
    decreases cands.len(),
{
    if cands.len() > 0 {
        lemma_best_cand_member(p, now, cands.take(cands.len() as int - 1));
        assert(cands[cands.len() as int - 1] == cands.last());
        let t = cands.take(cands.len() as int - 1);
        assert forall|c: SpecCandidate| t.contains(c) implies cands.contains(c) by {
            let i = choose|i: int| 0 <= i < t.len() && (#[trigger] t[i]) == c;
            assert(cands[i] == c);
        }
        assert(cands.contains(cands[cands.len() as int - 1]));
    }
}

/// Whatever the selection round picks is a listed host and is not among
/// the tried ones; and with nothing tried over a non-empty registry it
/// always picks something.
proof fn lemma_select_loop_sound(
    u: HostsUpdater,
    p: HostPunisher,
    tried: Seq<Seq<char>>,
    now: u64,
    idx: u64,
    remaining: nat,
    cands: Seq<SpecCandidate>,
)
    requires
        u.spec_hosts().len() > 0,
        forall|j: int|
            0 <= j < cands.len() ==> !spec_contains_str(tried, (#[trigger] cands[j]).host)
                && spec_contains_str(u.spec_hosts(), cands[j].host),
    ensures
        spec_select_loop(u, p, tried, now, idx, remaining, cands).choice matches Some(c)
            ==> !spec_contains_str(tried, c.host) && spec_contains_str(u.spec_hosts(), c.host),
        tried.len() == 0 && (remaining > 0 || cands.len() > 0) ==> spec_select_loop(
            u,
            p,
            tried,
            now,
            idx,
            remaining,
            cands,
        ).choice is Some,
    decreases remaining,
{
    let n = u.spec_hosts().len() as int;
    if remaining == 0 {
        lemma_best_cand_member(p, now, cands);
        if spec_best_cand(p, now, cands) is Some {
            let c = spec_best_cand(p, now, cands)->Some_0;
            assert(cands.contains(c));
            let j = choose|j: int| 0 <= j < cands.len() && cands[j] == c;
            assert(!spec_contains_str(tried, cands[j].host));
        }
    } else {
        let h = u.spec_hosts()[(idx as int) % n];
        let next = spec_wrap_inc(idx);
        assert(0 <= (idx as int) % n < n);
        assert(spec_contains_str(u.spec_hosts(), h));
        if spec_contains_str(tried, h) {
            lemma_select_loop_sound(u, p, tried, now, next, (remaining - 1) as nat, cands);
        } else {
            let st = u.spec_state_of(h);
            if p.spec_is_punishment_expired(st, now) {
            } else if p.spec_is_available(st, true) && u.spec_current_timeout_power()
                >= st.timeout_power {
            } else {
                let cands2 = cands.push(SpecCandidate { host: h, info: st });
                assert forall|j: int|
                    0 <= j < cands2.len() implies !spec_contains_str(
                    tried,
                    (#[trigger] cands2[j]).host,
                ) && spec_contains_str(u.spec_hosts(), cands2[j].host) by {
                    if j < cands.len() {
                        assert(cands2[j] == cands[j]);
                    }
                }
                lemma_select_loop_sound(u, p, tried, now, next, (remaining - 1) as nat, cands2);
            }
        }
    }
}

/// Immutable snapshot handed to the caller of a selection: the chosen
/// host, its timeout power, and the timeout of the attempt.
#[derive(Clone, Debug)]
pub struct HostInfo {
    host: String,
    timeout_power: u64,
    timeout_ms: u64,
}

impl HostInfo {
    pub closed spec fn spec_host(&self) -> Seq<char> {
        self.host@
    }

    pub closed spec fn spec_timeout_power(&self) -> u64 {
        self.timeout_power
    }

    pub closed spec fn spec_timeout_ms(&self) -> u64 {
        self.timeout_ms
    }

    pub fn host(&self) -> (r: &String)
        ensures
            r@ == self.spec_host(),
    {
        &self.host
    }

    pub fn timeout_power(&self) -> (r: u64)
        ensures
            r == self.spec_timeout_power(),
    {
        self.timeout_power
    }

    /// Timeout of the attempt, in milliseconds.
    pub fn timeout(&self) -> (r: u64)
        ensures
            r == self.spec_timeout_ms(),
    {
        self.timeout_ms
    }
}

/// Outcome of a punishment.
#[derive(Clone, Copy, Debug, PartialEq, Eq, Structural)]
pub enum PunishResult {
    NoPunishment,
    Punished,
    PunishedAndFreezed,
}

/// Round-robin host selector over a registry, governed by a punisher
/// policy.
#[derive(Clone, Debug)]
pub struct HostSelector {
    updater: HostsUpdater,
    punisher: HostPunisher,
}

impl HostSelector {
    pub closed spec fn spec_updater(&self) -> HostsUpdater {
        self.updater
    }

    pub closed spec fn spec_punisher(&self) -> HostPunisher {
        self.punisher
    }

    pub open spec fn wf(&self) -> bool {
        self.spec_updater().wf()
    }

    pub open spec fn spec_hosts(&self) -> Seq<Seq<char>> {
        self.spec_updater().spec_hosts()
    }

    pub open spec fn spec_state_of(&self, h: Seq<char>) -> PunishedInfo {
        self.spec_updater().spec_state_of(h)
    }

    pub fn builder(hosts: Vec<String>) -> (r: HostSelectorBuilder)
        ensures
            r.hosts@ == hosts@,
            !r.has_update_callback,
            !r.has_should_punish_callback,
            r.update_interval_ms == 60_000,
            r.punish_duration_ms == 1_800_000,
            r.base_timeout_ms == 3_000,
            r.max_punished_times == 5,
            r.max_punished_hosts_percent == 50,
    {
        HostSelectorBuilder::new(hosts)
    }

    /// Replaces the host list (shuffled; every host starts from the
    /// default state).
    pub fn set_hosts(&mut self, hosts: Vec<String>)
        ensures
            final(self).wf(),
            final(self).spec_hosts().to_multiset() == hosts@.map_values(
                |s: String| s@,
            ).to_multiset(),
            final(self).spec_hosts().len() == hosts@.len(),
            forall|h: Seq<char>|
                final(self).spec_state_of(h) == PunishedInfo::spec_default(),
            final(self).spec_punisher() == old(self).spec_punisher(),
            final(self).spec_updater().spec_index() == old(self).spec_updater().spec_index(),
    {
        self.updater.set_hosts(hosts);
    }

    /// Applies a fetched host list; an empty fetch is ignored.
    pub fn update_hosts(&mut self, fetched: Vec<String>) -> (r: bool)
        ensures
            r == (fetched@.len() > 0),
            r ==> final(self).wf() && final(self).spec_hosts().to_multiset() == fetched@.map_values(
                |s: String| s@,
            ).to_multiset() && forall|h: Seq<char>|
                final(self).spec_state_of(h) == PunishedInfo::spec_default(),
            !r ==> *final(self) == *old(self),
            final(self).spec_punisher() == old(self).spec_punisher(),
    {
        self.updater.update_hosts(fetched)
    }

    /// Whether the refresh interval elapsed, so the owner should fetch a
    /// fresh host list.
    pub fn should_auto_update(&self, now: u64) -> (r: bool)
        ensures
            r == (self.spec_updater().spec_update_option() matches Some(o) && spec_elapsed(
                now,
                o.last_updated_at_ms,
            ) >= o.interval_ms),
    {
        self.updater.should_auto_update(now)
    }

    /// Records that a refresh just happened.
    pub fn note_updated(&mut self, now: u64)
        ensures
            final(self).wf() == old(self).wf(),
            final(self).spec_hosts() == old(self).spec_hosts(),
            forall|h: Seq<char>|
                final(self).spec_state_of(h) == old(self).spec_state_of(h),
            final(self).spec_punisher() == old(self).spec_punisher(),
    {
        self.updater.note_updated(now);
    }

    /// The hosts a caller may still try: punishment expired, or available
    /// and reachable.
    pub fn hosts(&self, now: u64) -> (r: Vec<String>)
        requires
            self.wf(),
        ensures
            r@.map_values(|s: String| s@) == self.spec_hosts().filter(
                |h: Seq<char>| spec_host_usable(*self, now, h),
            ),
    {
        let ghost pred = |h: Seq<char>| spec_host_usable(*self, now, h);
        let mut r: Vec<String> = Vec::new();
        let n = self.updater.hosts_len();
        proof {
            assert(self.spec_hosts().take(0) =~= Seq::<Seq<char>>::empty());
            assert(self.spec_hosts().take(0).filter(pred) =~= Seq::<Seq<char>>::empty());
        }
        for i in 0..n
            invariant
                self.wf(),
                n == self.spec_hosts().len(),
                pred == (|h: Seq<char>| spec_host_usable(*self, now, h)),
                r@.map_values(|s: String| s@) == self.spec_hosts().take(i as int).filter(pred),
        {
            let ghost prefix = self.spec_hosts().take(i as int);
            let host = self.updater.host_at(i);
            let st = self.updater.state_of(host.as_str());
            let keep = {
                if self.punisher.is_punishment_expired(&st, now) {
                    true
                } else {
                    self.punisher.is_available(&st, true)
                }
            };
            let ghost prev = r@.map_values(|s: String| s@);
            if keep {
                let h2 = host.clone();
                r.push(h2);
            }
            proof {
                reveal_with_fuel(Seq::<_>::filter, 2);
                let ext = self.spec_hosts().take(i + 1);
                assert(ext.drop_last() =~= prefix);
                assert(ext.last() == self.spec_hosts()[i as int]);
                assert(keep == spec_host_usable(*self, now, ext.last()));
                assert(keep == pred(ext.last()));
                if keep {
                    assert(r@.map_values(|s: String| s@) =~= prev.push(self.spec_hosts()[i as int]));
                    assert(ext.filter(pred) == prefix.filter(pred).push(ext.last()));
                } else {
                    assert(ext.filter(pred) == prefix.filter(pred));
                }
            }
        }
        proof {
            assert(self.spec_hosts().take(n as int) =~= self.spec_hosts());
        }
        r
    }

    /// Selects a host for the next attempt, skipping the `tried` ones;
    /// see `spec_select_loop` for the policy.  An empty registry yields
    /// nothing.
    pub fn select_host(&mut self, tried: &Vec<String>, now: u64) -> (r: Option<HostInfo>)
        requires
            old(self).wf(),
        ensures
            final(self).wf(),
            final(self).spec_punisher() == old(self).spec_punisher(),
            final(self).spec_hosts() == old(self).spec_hosts(),
            final(self).spec_updater().spec_keys() == old(self).spec_updater().spec_keys(),
            forall|h: Seq<char>|
                final(self).spec_state_of(h) == old(self).spec_state_of(h),
            old(self).spec_hosts().len() == 0 ==> r is None && *final(self) == *old(self),
            old(self).spec_hosts().len() > 0 ==> {
                let out = spec_select_loop(
                    old(self).spec_updater(),
                    old(self).spec_punisher(),
                    tried@.map_values(|s: String| s@),
                    now,
                    old(self).spec_updater().spec_index(),
                    (old(self).spec_punisher().spec_max_seek_times(
                        old(self).spec_hosts().len() as int,
                    ) + 1) as nat,
                    Seq::<SpecCandidate>::empty(),
                );
                &&& final(self).spec_updater().spec_index() == out.end_index
                &&& (match (r, out.choice) {
                    (Some(hi), Some(c)) => hi.spec_host() == c.host && hi.spec_timeout_ms()
                        == c.timeout_ms && hi.spec_timeout_power() == c.timeout_power,
                    (None, None) => true,
                    _ => false,
                })
                &&& (out.choice matches Some(c) ==> final(self).spec_updater().spec_current_timeout_power() == c.timeout_power)
                &&& (out.choice is None ==> final(self).spec_updater().spec_current_timeout_power()
                    == old(self).spec_updater().spec_current_timeout_power())
            },
            r matches Some(hi) ==> !spec_contains_str(
                tried@.map_values(|s: String| s@),
                hi.spec_host(),
            ) && spec_contains_str(old(self).spec_hosts(), hi.spec_host()),
            old(self).spec_hosts().len() > 0 && tried@.len() == 0 ==> r is Some,
    {
        let ghost u0 = self.updater;
        let ghost p = self.punisher;
        let ghost tv = tried@.map_values(|s: String| s@);
        let n = self.updater.hosts_len();
        if n == 0 {
            return None;
        }
        let max_seek = self.punisher.max_seek_times(n);
        let ghost full: nat = (max_seek + 1) as nat;
        let mut candidates: Vec<Candidate> = Vec::new();
        let mut chosen: Option<HostInfo> = None;
        let mut i: u128 = 0;
        proof {
            assert(candidates@.map_values(|c: Candidate| spec_cand_view(c)) =~= Seq::<SpecCandidate>::empty());
            lemma_select_loop_sound(u0, p, tv, now, u0.spec_index(), full, Seq::empty());
        }
        loop
            invariant
                u0 == old(self).spec_updater(),
                p == old(self).spec_punisher(),
                tv == tried@.map_values(|s: String| s@),
                self.wf(),
                self.punisher == p,
                self.updater.spec_hosts() == u0.spec_hosts(),
                self.updater.spec_keys() == u0.spec_keys(),
                self.updater.spec_states() == u0.spec_states(),
                self.updater.spec_current_timeout_power() == u0.spec_current_timeout_power(),
                self.updater.spec_update_option() == u0.spec_update_option(),
                n == u0.spec_hosts().len(),
                n > 0,
                max_seek == p.spec_max_seek_times(n as int),
                full == (max_seek + 1) as nat,
                i <= max_seek as u128 + 1,
                chosen is None,
                spec_select_loop(u0, p, tv, now, u0.spec_index(), full, Seq::empty())
                    == spec_select_loop(
                    u0,
                    p,
                    tv,
                    now,
                    self.updater.spec_index(),
                    (full - i) as nat,
                    candidates@.map_values(|c: Candidate| spec_cand_view(c)),
                ),
            ensures
                u0 == old(self).spec_updater(),
                p == old(self).spec_punisher(),
                tv == tried@.map_values(|s: String| s@),
                self.wf(),
                self.punisher == p,
                self.updater.spec_hosts() == u0.spec_hosts(),
                self.updater.spec_keys() == u0.spec_keys(),
                self.updater.spec_states() == u0.spec_states(),
                self.updater.spec_current_timeout_power() == u0.spec_current_timeout_power(),
                self.updater.spec_update_option() == u0.spec_update_option(),
                n == u0.spec_hosts().len(),
                n > 0,
                max_seek == p.spec_max_seek_times(n as int),
                full == (max_seek + 1) as nat,
                i == max_seek as u128 + 1,
                spec_select_loop(u0, p, tv, now, u0.spec_index(), full, Seq::empty())
                    == spec_select_loop(
                    u0,
                    p,
                    tv,
                    now,
                    self.updater.spec_index(),
                    (full - i) as nat,
                    candidates@.map_values(|c: Candidate| spec_cand_view(c)),
                ),
            decreases max_seek as u128 + 1 - i,
        {
            if i > max_seek as u128 {
                break;
            }
            let ghost pre_idx = self.updater.spec_index();
            let ghost pre_cands = candidates@.map_values(|c: Candidate| spec_cand_view(c));
            let idx = self.updater.next_index();
            let hidx = (idx % (n as u64)) as usize;
            proof {
                assert(hidx < n);
                assert(u0.spec_hosts()[hidx as int] == self.updater.spec_hosts()[hidx as int]);
                assert((full - i) as nat > 0);
                assert(spec_wrap_inc(pre_idx) == self.updater.spec_index());
            }
            let host = self.updater.host_at(hidx);
            let ghost h = host@;
            proof {
                assert(h == u0.spec_hosts()[(pre_idx as int) % (n as int)]);
            }
            if vec_contains_str(tried, host.as_str()) {
                proof {
                    assert(spec_contains_str(tv, h));
                }
            } else {
                proof {
                    assert(!spec_contains_str(tv, h));
                }
                let st = self.updater.state_of(host.as_str());
                if self.punisher.is_punishment_expired(&st, now) {
                    let hi = HostInfo {
                        host: host.clone(),
                        timeout_power: 0,
                        timeout_ms: self.punisher.base_timeout_ms,
                    };
                    self.updater.set_current_timeout_power(0);
                    proof {
                        assert(spec_contains_str(u0.spec_hosts(), h));
                    }
                    return Some(hi);
                }
                let avail = self.punisher.is_available(&st, true);
                if avail && self.updater.current_timeout_power() >= st.timeout_power {
                    let t = self.punisher.timeout(&st);
                    let hi = HostInfo {
                        host: host.clone(),
                        timeout_power: st.timeout_power,
                        timeout_ms: t,
                    };
                    self.updater.set_current_timeout_power(st.timeout_power);
                    proof {
                        assert(spec_contains_str(u0.spec_hosts(), h));
                    }
                    return Some(hi);
                }
                let cand = Candidate { host: host.clone(), info: st };
                candidates.push(cand);
                proof {
                    assert(candidates@.map_values(|c: Candidate| spec_cand_view(c)) =~= pre_cands.push(
                        SpecCandidate { host: h, info: st },
                    ));
                }
            }
            i = i + 1;
        }
        proof {
            assert((full - i) as nat == 0);
        }
        let best = best_candidate(&self.punisher, now, &candidates);
        match best {
            Option::Some(c) => {
                let t = self.punisher.timeout(&c.info);
                let hi = HostInfo {
                    host: c.host,
                    timeout_power: c.info.timeout_power,
                    timeout_ms: t,
                };
                self.updater.set_current_timeout_power(hi.timeout_power);
                Some(hi)
            },
            Option::None => {
                proof {
                    lemma_best_cand_member(p, now, candidates@.map_values(|c: Candidate| spec_cand_view(c)));
                }
                None
            },
        }
    }

    /// CRC-32 of the sorted host list joined with `$`, used to
    /// fingerprint the registry contents.
    pub fn all_hosts_crc32(&self) -> (r: u32)
        requires
            self.wf(),
        ensures
            r == crc32_of(spec_dollar_join(spec_sort_strings(self.spec_hosts()))),
    {
        let ghost hv = self.spec_hosts();
        let mut sorted: Vec<String> = Vec::new();
        let n = self.updater.hosts_len();
        proof {
            assert(hv.take(0) =~= Seq::<Seq<char>>::empty());
            assert(sorted@.map_values(|s: String| s@) =~= spec_sort_strings(hv.take(0)));
        }
        for i in 0..n
            invariant
                self.wf(),
                hv == self.spec_hosts(),
                n == hv.len(),
                sorted@.map_values(|s: String| s@) == spec_sort_strings(hv.take(i as int)),
        {
            let ghost prev = sorted@.map_values(|s: String| s@);
            let host = self.updater.host_at(i);
            let sn = sorted.len();
            let mut j: usize = 0;
            loop
                invariant
                    hv == self.spec_hosts(),
                    n == hv.len(),
                    i < n,
                    host@ == hv[i as int],
                    sn == sorted@.len(),
                    prev == sorted@.map_values(|s: String| s@),
                    j <= sn,
                    forall|k: int| 0 <= k < j ==> !spec_lex_lt(host@, #[trigger] prev[k]),
                ensures
                    hv == self.spec_hosts(),
                    host@ == hv[i as int],
                    sn == sorted@.len(),
                    prev == sorted@.map_values(|s: String| s@),
                    j <= sn,
                    forall|k: int| 0 <= k < j ==> !spec_lex_lt(host@, #[trigger] prev[k]),
                    j < sn ==> spec_lex_lt(host@, prev[j as int]),
                decreases sn - j,
            {
                if j == sn {
                    break;
                }
                proof {
                    assert(prev[j as int] == sorted@[j as int]@);
                }
                if str_lt(host.as_str(), sorted[j].as_str()) {
                    break;
                }
                j = j + 1;
            }
            sorted.insert(j, host);
            proof {
                lemma_sorted_insert_at(prev, hv[i as int], j as int);
                assert(sorted@.map_values(|s: String| s@) =~= prev.insert(
                    j as int,
                    hv[i as int],
                ));
                assert(hv.take(i + 1).take(hv.take(i + 1).len() as int - 1) =~= hv.take(i as int));
                assert(hv.take(i + 1).last() == hv[i as int]);
            }
        }
        proof {
            assert(hv.take(n as int) =~= hv);
        }
        let ghost sv = spec_sort_strings(hv);
        let mut joined = String::new();
        let sn = sorted.len();
        proof {
            assert(sn == sv.len()) by {
                assert(sorted@.map_values(|s: String| s@) == sv);
            }
            assert(joined@ =~= spec_dollar_join(sv.take(0)));
        }
        for i in 0..sn
            invariant
                sn == sorted@.len(),
                sorted@.map_values(|s: String| s@) == sv,
                joined@ == spec_dollar_join(sv.take(i as int)),
        {
            if i > 0 {
                joined.append("$");
            }
            proof {
                assert(sorted@[i as int]@ == sv[i as int]);
            }
            joined.append(sorted[i].as_str());
            proof {
                let ext = sv.take(i + 1);
                assert(ext.take(ext.len() as int - 1) =~= sv.take(i as int));
                assert(ext.last() == sv[i as int]);
                if i == 0 {
                    assert(spec_dollar_join(ext) == sv[0]);
                    assert(spec_dollar_join(sv.take(0)) =~= Seq::<char>::empty());
                    assert(joined@ =~= spec_dollar_join(ext));
                }
            }
        }
        proof {
            assert(sv.take(sn as int) =~= sv);
        }
        crc32_str(joined.as_str())
    }

    /// Forgives a host: punishments reset, connection mark cleared, and
    /// the timeout power steps down by one.
    pub fn reward(&mut self, host: &str)
        requires
            old(self).wf(),
        ensures
            final(self).wf(),
            final(self).spec_punisher() == old(self).spec_punisher(),
            final(self).spec_hosts() == old(self).spec_hosts(),
            final(self).spec_updater().spec_keys() == old(self).spec_updater().spec_keys(),
            forall|h: Seq<char>|
                final(self).spec_state_of(h) == (if h == host@ && old(
                    self,
                ).spec_updater().spec_has_key(h) {
                    spec_rewarded(old(self).spec_state_of(h))
                } else {
                    old(self).spec_state_of(h)
                }),
    {
        self.updater.reward(host);
    }

    /// Punishes a host when the policy says so: one more continuous
    /// punishment and a fresh stamp; a host punished past the bound is
    /// frozen.
    pub fn punish_without_dotter(&mut self, host: &str, should_punish_verdict: bool, now: u64) -> (r:
        PunishResult)
        requires
            old(self).wf(),
        ensures
            final(self).wf(),
            final(self).spec_punisher() == old(self).spec_punisher(),
            final(self).spec_hosts() == old(self).spec_hosts(),
            final(self).spec_updater().spec_keys() == old(self).spec_updater().spec_keys(),
            !old(self).spec_punisher().spec_should_punish(should_punish_verdict) ==> r
                == PunishResult::NoPunishment && forall|h: Seq<char>|
                final(self).spec_state_of(h) == old(self).spec_state_of(h),
            old(self).spec_punisher().spec_should_punish(should_punish_verdict) ==> {
                &&& forall|h: Seq<char>|
                    final(self).spec_state_of(h) == (if h == host@ && old(
                        self,
                    ).spec_updater().spec_has_key(h) {
                        spec_punished(old(self).spec_state_of(h), now)
                    } else {
                        old(self).spec_state_of(h)
                    })
                &&& r != PunishResult::NoPunishment
                &&& (old(self).spec_updater().spec_has_key(host@) ==> r == (if old(
                    self,
                ).spec_punisher().spec_is_available(
                    spec_punished(old(self).spec_state_of(host@), now),
                    false,
                ) {
                    PunishResult::Punished
                } else {
                    PunishResult::PunishedAndFreezed
                }))
                &&& (!old(self).spec_updater().spec_has_key(host@) ==> r
                    == PunishResult::Punished)
            },
    {
        if self.punisher.should_punish(should_punish_verdict) {
            let frozen = self.updater.punish_host(host, now);
            match frozen {
                Option::Some(st) => {
                    if self.punisher.is_available(&st, false) {
                        PunishResult::Punished
                    } else {
                        PunishResult::PunishedAndFreezed
                    }
                },
                Option::None => PunishResult::Punished,
            }
        } else {
            PunishResult::NoPunishment
        }
    }

    /// Raises the host's timeout power to at least `timeout_power + 1`.
    pub fn increase_timeout_power_by(&mut self, host: &str, timeout_power: u64, now: u64)
        requires
            old(self).wf(),
        ensures
            final(self).wf(),
            final(self).spec_punisher() == old(self).spec_punisher(),
            final(self).spec_hosts() == old(self).spec_hosts(),
            final(self).spec_updater().spec_keys() == old(self).spec_updater().spec_keys(),
            forall|h: Seq<char>|
                final(self).spec_state_of(h) == (if h == host@ && old(
                    self,
                ).spec_updater().spec_has_key(h) {
                    spec_power_raised(old(self).spec_state_of(h), timeout_power, now)
                } else {
                    old(self).spec_state_of(h)
                }),
    {
        self.updater.increase_timeout_power_by(host, timeout_power, now);
    }

    /// Marks the host as failing to connect.
    pub fn mark_connection_as_failed(&mut self, host: &str, now: u64)
        requires
            old(self).wf(),
        ensures
            final(self).wf(),
            final(self).spec_punisher() == old(self).spec_punisher(),
            final(self).spec_hosts() == old(self).spec_hosts(),
            final(self).spec_updater().spec_keys() == old(self).spec_updater().spec_keys(),
            forall|h: Seq<char>|
                final(self).spec_state_of(h) == (if h == host@ && old(
                    self,
                ).spec_updater().spec_has_key(h) {
                    spec_conn_failed(old(self).spec_state_of(h), now)
                } else {
                    old(self).spec_state_of(h)
                }),
    {
        self.updater.mark_connection_as_failed(host, now);
    }

    /// The configured base timeout, in milliseconds.
    pub fn base_timeout(&self) -> (r: u64)
        ensures
            r == self.spec_punisher().base_timeout_ms,
    {
        self.punisher.base_timeout_ms
    }

    /// Whether the host's state is no worse than the last selected
    /// timeout power, and available.
    pub fn is_satisfied_with(&self, info: &PunishedInfo) -> (r: bool)
        ensures
            r == (self.spec_punisher().spec_is_available(*info, true)
                && self.spec_updater().spec_current_timeout_power() >= info.timeout_power),
    {
        self.punisher.is_available(info, true) && self.updater.current_timeout_power()
            >= info.timeout_power
    }
}


/// Checksum of a character string, as crc32fast computes it over the
/// UTF-8 bytes.  The value is a function of the characters alone.
pub uninterp spec fn crc32_of(data: Seq<char>) -> u32;

/// Relies on crc32fast::hash: the CRC-32 checksum of the bytes, which
/// UTF-8 determines from the characters alone.
#[verifier::external_body]
fn crc32_str(s: &str) -> (r: u32)
    ensures
        r == crc32_of(s@),
{
    crc32fast::hash(s.as_bytes())
}

/// Insertion of `x` into a sorted run: after every element that does not
/// come strictly after it.
pub open spec fn spec_sorted_insert(sorted: Seq<Seq<char>>, x: Seq<char>) -> Seq<Seq<char>>
    decreases sorted.len(),
{
    if sorted.len() == 0 {
        seq![x]
    } else if spec_lex_lt(x, sorted[0]) {
        seq![x] + sorted
    } else {
        seq![sorted[0]] + spec_sorted_insert(sorted.skip(1), x)
    }
}

/// Stable insertion sort of a string sequence, in code-point order.
pub open spec fn spec_sort_strings(s: Seq<Seq<char>>) -> Seq<Seq<char>>
    decreases s.len(),
{
    if s.len() == 0 {
        Seq::empty()
    } else {
        spec_sorted_insert(spec_sort_strings(s.take(s.len() as int - 1)), s.last())
    }
}

/// The strings joined with a `$` between each pair.
pub open spec fn spec_dollar_join(s: Seq<Seq<char>>) -> Seq<char>
    decreases s.len(),
{
    if s.len() == 0 {
        Seq::empty()
    } else if s.len() == 1 {
        s[0]
    } else {
        spec_dollar_join(s.take(s.len() as int - 1)) + "$"@ + s.last()
    }
}

/// Inserting at the first position whose element comes strictly after
/// `x` realizes `spec_sorted_insert`.
proof fn lemma_sorted_insert_at(prev: Seq<Seq<char>>, x: Seq<char>, j: int)
    requires
        0 <= j <= prev.len(),
        forall|k: int| 0 <= k < j ==> !spec_lex_lt(x, #[trigger] prev[k]),
        j < prev.len() ==> spec_lex_lt(x, prev[j]),
    ensures
        spec_sorted_insert(prev, x) =~= prev.insert(j, x),
    decreases prev.len(),
{
    if prev.len() == 0 {
        assert(spec_sorted_insert(prev, x) == seq![x]);
    } else if j == 0 {
        assert(spec_lex_lt(x, prev[0]));
    } else {
        assert(!spec_lex_lt(x, prev[0]));
        lemma_sorted_insert_at(prev.skip(1), x, j - 1);
        assert(spec_sorted_insert(prev, x) == seq![prev[0]] + spec_sorted_insert(prev.skip(1), x));
        assert(seq![prev[0]] + prev.skip(1).insert(j - 1, x) =~= prev.insert(j, x));
    }
}

/// Whether a caller may still try the host: punishment expired, or
/// available and reachable.
pub open spec fn spec_host_usable(sel: HostSelector, now: u64, h: Seq<char>) -> bool {
    sel.spec_punisher().spec_is_punishment_expired(sel.spec_state_of(h), now)
        || sel.spec_punisher().spec_is_available(sel.spec_state_of(h), true)
}

/// Ghost image of a buffered exec candidate.
spec fn spec_cand_view(c: Candidate) -> SpecCandidate {
    SpecCandidate { host: c.host@, info: c.info }
}

/// The least-bad buffered candidate: last maximum under the candidate
/// order.
fn best_candidate(p: &HostPunisher, now: u64, cands: &Vec<Candidate>) -> (r: Option<Candidate>)
    ensures
        (match (r, spec_best_cand(*p, now, cands@.map_values(|c: Candidate| spec_cand_view(c)))) {
            (Some(c), Some(b)) => spec_cand_view(c) == b,
            (None, None) => true,
            _ => false,
        }),
{
    let ghost cv = cands@.map_values(|c: Candidate| spec_cand_view(c));
    let mut best: Option<Candidate> = None;
    let n = cands.len();
    proof {
        assert(cv.take(0) =~= Seq::<SpecCandidate>::empty());
    }
    for i in 0..n
        invariant
            n == cv.len(),
            cv == cands@.map_values(|c: Candidate| spec_cand_view(c)),
            (match (best, spec_best_cand(*p, now, cv.take(i as int))) {
                (Some(c), Some(b)) => spec_cand_view(c) == b,
                (None, None) => true,
                _ => false,
            }),
    {
        let c = Candidate { host: cands[i].host.clone(), info: cands[i].info };
        proof {
            assert(spec_cand_view(c) == cv[i as int]);
            assert(cv.take(i + 1).take(cv.take(i + 1).len() as int - 1) =~= cv.take(i as int));
            assert(cv.take(i + 1)[cv.take(i + 1).len() as int - 1] == cv[i as int]);
        }
        let replace = match &best {
            Option::None => true,
            Option::Some(b) => cand_ge(p, now, &c, b),
        };
        if replace {
            best = Some(c);
        }
    }
    proof {
        assert(cv.take(n as int) =~= cv);
    }
    best
}


/// Builder of a `HostSelector`; the punisher defaults mirror the policy
/// defaults: 30 min punish lifetime, 3 s base timeout, 5 punishments
/// before a freeze, and seeks bounded by half the hosts.
#[derive(Debug)]
pub struct HostSelectorBuilder {
    pub hosts: Vec<String>,
    pub has_update_callback: bool,
    pub has_should_punish_callback: bool,
    pub update_interval_ms: u64,
    pub punish_duration_ms: u64,
    pub base_timeout_ms: u64,
    pub max_punished_times: u64,
    pub max_punished_hosts_percent: u8,
}

impl HostSelectorBuilder {
    pub fn new(hosts: Vec<String>) -> (r: Self)
        ensures
            r.hosts@ == hosts@,
            !r.has_update_callback,
            !r.has_should_punish_callback,
            r.update_interval_ms == 60_000,
            r.punish_duration_ms == 1_800_000,
            r.base_timeout_ms == 3_000,
            r.max_punished_times == 5,
            r.max_punished_hosts_percent == 50,
    {
        HostSelectorBuilder {
            hosts,
            has_update_callback: false,
            has_should_punish_callback: false,
            update_interval_ms: 60_000,
            punish_duration_ms: 1_800_000,
            base_timeout_ms: 3_000,
            max_punished_times: 5,
            max_punished_hosts_percent: 50,
        }
    }

    /// Declares whether the owner runs a refresh callback for the host
    /// list.
    pub fn update_callback(self, has_callback: bool) -> (r: Self)
        ensures
            r == (Self { has_update_callback: has_callback, ..self }),
    {
        let mut b = self;
        b.has_update_callback = has_callback;
        b
    }

    /// Declares whether the owner runs a predicate that decides which
    /// errors punish.
    pub fn should_punish_callback(self, has_callback: bool) -> (r: Self)
        ensures
            r == (Self { has_should_punish_callback: has_callback, ..self }),
    {
        let mut b = self;
        b.has_should_punish_callback = has_callback;
        b
    }

    pub fn update_interval(self, interval_ms: u64) -> (r: Self)
        ensures
            r == (Self { update_interval_ms: interval_ms, ..self }),
    {
        let mut b = self;
        b.update_interval_ms = interval_ms;
        b
    }

    pub fn punish_duration(self, duration_ms: u64) -> (r: Self)
        ensures
            r == (Self { punish_duration_ms: duration_ms, ..self }),
    {
        let mut b = self;
        b.punish_duration_ms = duration_ms;
        b
    }

    pub fn base_timeout(self, timeout_ms: u64) -> (r: Self)
        ensures
            r == (Self { base_timeout_ms: timeout_ms, ..self }),
    {
        let mut b = self;
        b.base_timeout_ms = timeout_ms;
        b
    }

    pub fn max_punished_times(self, times: u64) -> (r: Self)
        ensures
            r == (Self { max_punished_times: times, ..self }),
    {
        let mut b = self;
        b.max_punished_times = times;
        b
    }

    pub fn max_punished_hosts_percent(self, percent: u8) -> (r: Self)
        ensures
            r == (Self { max_punished_hosts_percent: percent, ..self }),
    {
        let mut b = self;
        b.max_punished_hosts_percent = percent;
        b
    }

    /// Builds the selector; `now` seeds the refresh bookkeeping.
    pub fn build(self, now: u64) -> (r: HostSelector)
        ensures
            r.wf(),
            r.spec_hosts() == self.hosts@.map_values(|s: String| s@),
            forall|h: Seq<char>| r.spec_state_of(h) == PunishedInfo::spec_default(),
            r.spec_updater().spec_index() == 0,
            r.spec_updater().spec_current_timeout_power() == 0,
            r.spec_updater().spec_update_option() == (if self.has_update_callback {
                Some(UpdateOption { interval_ms: self.update_interval_ms, last_updated_at_ms: now })
            } else {
                None::<UpdateOption>
            }),
            r.spec_punisher() == (HostPunisher {
                has_should_punish_callback: self.has_should_punish_callback,
                punish_duration_ms: self.punish_duration_ms,
                base_timeout_ms: self.base_timeout_ms,
                max_punished_times: self.max_punished_times,
                max_punished_hosts_percent: self.max_punished_hosts_percent,
            }),
    {
        let update_option = if self.has_update_callback {
            Some(UpdateOption::new(self.update_interval_ms, now))
        } else {
            None
        };
        let punisher = HostPunisher {
            has_should_punish_callback: self.has_should_punish_callback,
            punish_duration_ms: self.punish_duration_ms,
            base_timeout_ms: self.base_timeout_ms,
            max_punished_times: self.max_punished_times,
            max_punished_hosts_percent: self.max_punished_hosts_percent,
        };
        let updater = HostsUpdater::new(self.hosts, update_option);
        HostSelector { updater, punisher }
    }
}

} // verus!

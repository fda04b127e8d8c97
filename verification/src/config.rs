//! Mixer configuration: the integer hot-reload settings, the EQ band keys,
//! structured diagnostics, and the snapshot store that keeps the last valid
//! configuration across hot reloads.

use vstd::prelude::*;
use vstd::string::*;
use crate::text::{str_eq, push_decimal, decimal};

verus! {

/// Filename of the runtime mixer config, resolved relative to the bank parent.
pub const MIXER_CONFIG_FILENAME: &'static str = "sound_mixer_config.json";

/// EQ band center frequencies (ISO standard, Hz).
pub const EQ_BAND_FREQS: [u32; 10] = [31, 62, 125, 250, 500, 1000, 2000, 4000, 8000, 16000];

/// ADSR envelope curve types.
#[derive(Debug, Clone, Copy, PartialEq, Eq, Structural)]
pub enum AdsrCurve {
    Linear,
    Exponential,
    Logarithmic,
}

impl Default for AdsrCurve {
    fn default() -> (r: Self)
        ensures
            r == AdsrCurve::Linear,
    {
        AdsrCurve::Linear
    }
}

/// A diagnostic about one location of a configuration document.
#[derive(Debug, Clone)]
pub struct ConfigDiagnostic {
    pub path: String,
    pub message: String,
}

/// Hot reload configuration.
#[derive(Debug, Clone, Copy, PartialEq, Eq, Structural)]
pub struct HotReloadConfig {
    pub enabled: bool,
    /// Polling interval in milliseconds [50, 5000].
    pub poll_interval_ms: u32,
    /// Transition/crossfade time in milliseconds [0, 500].
    pub transition_ms: u32,
}

pub fn default_true() -> (r: bool)
    ensures
        r,
{
    true
}

pub fn default_poll_interval() -> (r: u32)
    ensures
        r == 250,
{
    250
}

pub fn default_transition_ms() -> (r: u32)
    ensures
        r == 30,
{
    30
}

/// `v` clamped to `[lo, hi]`.
pub open spec fn clamp(v: int, lo: int, hi: int) -> int {
    if v < lo { lo } else if v > hi { hi } else { v }
}

impl Default for HotReloadConfig {
    fn default() -> (r: Self)
        ensures
            r == (HotReloadConfig { enabled: false, poll_interval_ms: 250, transition_ms: 30 }),
    {
        HotReloadConfig {
            enabled: false,
            poll_interval_ms: default_poll_interval(),
            transition_ms: default_transition_ms(),
        }
    }
}

impl HotReloadConfig {
    /// Clamp the polling interval to [50, 5000] ms and the transition to [0, 500] ms.
    pub fn sanitized(self) -> (r: Self)
        ensures
            r.enabled == self.enabled,
            r.poll_interval_ms == clamp(self.poll_interval_ms as int, 50, 5000),
            r.transition_ms == clamp(self.transition_ms as int, 0, 500),
    {
        let poll = if self.poll_interval_ms < 50 {
            50
        } else if self.poll_interval_ms > 5000 {
            5000
        } else {
            self.poll_interval_ms
        };
        let transition = if self.transition_ms > 500 { 500 } else { self.transition_ms };
        HotReloadConfig { enabled: self.enabled, poll_interval_ms: poll, transition_ms: transition }
    }
}

/// The ISO band frequencies, in order.
pub open spec fn eq_band_freqs() -> Seq<u32> {
    seq![31u32, 62u32, 125u32, 250u32, 500u32, 1000u32, 2000u32, 4000u32, 8000u32, 16000u32]
}

/// Is `key` the decimal name of one of the ISO band frequencies?
pub open spec fn is_eq_band_key(key: Seq<char>) -> bool {
    exists|i: int| 0 <= i < 10 && key == decimal(#[trigger] eq_band_freqs()[i] as nat)
}

/// Does a `bands_db` key name one of the ten ISO bands ("31", "62", ..., "16000")?
pub fn eq_band_key_valid(key: &str) -> (r: bool)
    ensures
        r == is_eq_band_key(key@),
{
    let mut i: usize = 0;
    while i < 10
        invariant
            i <= 10,
            forall|j: int| 0 <= j < i ==> key@ != decimal(#[trigger] eq_band_freqs()[j] as nat),
        decreases 10 - i,
    {
        let f = EQ_BAND_FREQS[i];
        assert(f == eq_band_freqs()[i as int]);
        let mut name = String::new();
        push_decimal(&mut name, f as u64);
        if str_eq(key, name.as_str()) {
            return true;
        }
        i = i + 1;
    }
    false
}

/// Owner-thread storage for startup and hot reload. An invalid candidate is
/// reported but never replaces the last valid snapshot.
#[derive(Debug, Clone)]
pub struct ConfigSnapshotStore<C> {
    current: Option<C>,
    /// Source hash of `current`; empty while there is none.
    current_hash: String,
    generation: u64,
}

impl<C> ConfigSnapshotStore<C> {
    /// The stored snapshot, if any.
    pub closed spec fn snapshot(&self) -> Option<C> {
        self.current
    }

    /// Source hash of the stored snapshot.
    pub closed spec fn snapshot_hash(&self) -> Seq<char> {
        self.current_hash@
    }

    /// Number of accepted changes (sticking at the maximum).
    pub closed spec fn generation_count(&self) -> u64 {
        self.generation
    }

    /// An empty store.
    pub fn new() -> (r: Self)
        ensures
            r.snapshot().is_none(),
            r.generation_count() == 0,
    {
        ConfigSnapshotStore { current: None, current_hash: String::new(), generation: 0 }
    }

    pub fn current(&self) -> (r: Option<&C>)
        ensures
            match r {
                Some(c) => self.snapshot() == Some(*c),
                None => self.snapshot().is_none(),
            },
    {
        match &self.current {
            Some(c) => Some(c),
            None => None,
        }
    }

    pub fn generation(&self) -> (r: u64)
        ensures
            r == self.generation_count(),
    {
        self.generation
    }

    /// Offer a resolved candidate with its validity and source hash. A valid
    /// candidate whose source differs from the stored snapshot (or the first
    /// valid candidate) replaces it and advances the generation; anything else
    /// leaves the store unchanged. Returns whether the candidate was stored.
    pub fn offer(&mut self, candidate: C, is_valid: bool, source_hash: &str) -> (stored: bool)
        ensures
            stored == (is_valid && (old(self).snapshot().is_none() || old(self).snapshot_hash() != source_hash@)),
            stored ==> final(self).snapshot() == Some(candidate)
                && final(self).snapshot_hash() == source_hash@
                && final(self).generation_count() == (if old(self).generation_count() < u64::MAX {
                    (old(self).generation_count() + 1) as u64
                } else {
                    old(self).generation_count()
                }),
            !stored ==> final(self).snapshot() == old(self).snapshot()
                && final(self).snapshot_hash() == old(self).snapshot_hash()
                && final(self).generation_count() == old(self).generation_count(),
            is_valid ==> final(self).snapshot().is_some() && final(self).snapshot_hash() == source_hash@,
    {
        if !is_valid {
            return false;
        }
        let changed = match &self.current {
            None => true,
            Some(_) => !str_eq(self.current_hash.as_str(), source_hash),
        };
        if changed {
            self.generation = self.generation.saturating_add(1);
            self.current = Some(candidate);
            self.current_hash = String::from_str(source_hash);
        }
        changed
    }
}

impl<C> Default for ConfigSnapshotStore<C> {
    fn default() -> (r: Self)
        ensures
            r.snapshot().is_none(),
            r.generation_count() == 0,
    {
        Self::new()
    }
}

} // verus!

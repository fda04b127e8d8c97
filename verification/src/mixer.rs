//! The integer decisions of the legacy mixer: which one-shot variant a
//! trigger starts, when a delayed companion starts, how a one-shot voice
//! advances frame by frame, and how long a level-of-detail crossfade lasts.

use vstd::prelude::*;
use vstd::string::*;
use crate::state::{trigger_key, Trigger};
use crate::text::str_eq;

verus! {

#[derive(Debug, Clone, Copy, PartialEq, Eq, Structural)]
pub enum ContinuousSourceKind {
    Legacy,
    V10Gf509,
}

#[derive(Debug, Clone, Copy, PartialEq, Eq, Structural)]
pub enum DiagnosticMode {
    Mix,
    V10Only,
    EventsOnly,
}

/// Delay of a shift companion after its trigger, in milliseconds.
pub const SHIFT_COMPANION_DELAY_MS: usize = 20;

/// Samples over which a one-shot fades in and out.
pub const ONE_SHOT_ENV_SAMPLES: usize = 256;

/// Multiplier of the variant selection generator.
pub const VARIANT_LCG_MULTIPLIER: u64 = 6364136223846793005;

/// The variant generator's next state: `state * multiplier + 1`, modulo 2^64.
pub open spec fn lcg_next(state: u64) -> u64 {
    ((state as nat * VARIANT_LCG_MULTIPLIER as nat + 1) % 0x1_0000_0000_0000_0000nat) as u64
}

pub fn next_variant_state(state: u64) -> (r: u64)
    ensures
        r == lcg_next(state),
{
    let product = state.wrapping_mul(VARIANT_LCG_MULTIPLIER);
    let r = product.wrapping_add(1);
    proof {
        let m = 0x1_0000_0000_0000_0000nat;
        let p = state as nat * VARIANT_LCG_MULTIPLIER as nat;
        assert(product as nat == p % m);
        vstd::arithmetic::div_mod::lemma_add_mod_noop(p as int, 1, m as int);
        vstd::arithmetic::div_mod::lemma_mod_twice(p as int, m as int);
        assert((1int % (m as int)) == 1);
        assert(r as nat == (product as nat + 1) % m);
    }
    r
}

/// Frames by which a shift companion follows its trigger.
pub open spec fn companion_delay(sample_rate: u32) -> int {
    sample_rate as int * SHIFT_COMPANION_DELAY_MS as int / 1000
}

pub fn companion_delay_frames(sample_rate: u32) -> (r: usize)
    requires
        sample_rate as int * SHIFT_COMPANION_DELAY_MS as int <= usize::MAX,
    ensures
        r == companion_delay(sample_rate),
{
    sample_rate as usize * SHIFT_COMPANION_DELAY_MS / 1000
}

/// Frames of a level-of-detail crossfade of `ms` milliseconds.
pub fn lod_transition_frames(ms: u32, sample_rate: u32) -> (r: usize)
    requires
        ms as int * sample_rate as int / 1000 <= usize::MAX,
    ensures
        r == ms as int * sample_rate as int / 1000,
{
    assert(ms as int * sample_rate as int <= u32::MAX as int * u32::MAX as int) by (nonlinear_arith);
    ((ms as u64 * sample_rate as u64) / 1000) as usize
}

pub open spec fn delayed_suffix() -> Seq<char> {
    seq!['_', 'd', 'e', 'l', 'a', 'y', 'e', 'd']
}

/// Is the bank key that of a delayed companion (it ends in `_delayed`)?
pub open spec fn is_companion(key: Seq<char>) -> bool {
    key.len() >= 8 && key.subrange(key.len() - 8, key.len() as int) == delayed_suffix()
}

pub fn is_companion_key(key: &str) -> (r: bool)
    ensures
        r == is_companion(key@),
{
    let n = key.unicode_len();
    if n < 8 {
        return false;
    }
    let tail = key.substring_char(n - 8, n);
    let r = tail.get_char(0) == '_' && tail.get_char(1) == 'd' && tail.get_char(2) == 'e'
        && tail.get_char(3) == 'l' && tail.get_char(4) == 'a' && tail.get_char(5) == 'y'
        && tail.get_char(6) == 'e' && tail.get_char(7) == 'd';
    proof {
        if r {
            assert(tail@ =~= delayed_suffix());
        } else if tail@ == delayed_suffix() {
            assert(tail@[0] == '_');
        }
    }
    r
}

/// The integer state of a one-shot voice.
#[derive(Debug, Clone, Copy, PartialEq, Eq, Structural)]
pub struct OneShotVoice {
    pub trigger: Trigger,
    pub companion: bool,
    pub cursor: usize,
    pub delay_remaining: usize,
    pub active: bool,
}

/// Is voice `v` a selectable variant of trigger `t` (not a companion)?
pub open spec fn is_variant_of(v: OneShotVoice, t: Trigger) -> bool {
    v.trigger == t && !v.companion
}

/// The number of variants of `t` among the first `i` voices.
pub open spec fn variant_ordinal(voices: Seq<OneShotVoice>, t: Trigger, i: int) -> nat
    decreases i,
{
    if i <= 0 {
        0
    } else {
        variant_ordinal(voices, t, i - 1) + if is_variant_of(voices[i - 1], t) { 1nat } else { 0nat }
    }
}

/// The voice `v` becomes when trigger `t` fires with selected variant
/// `selected`; `ordinal` is the number of variants of `t` before it.
pub open spec fn fired_voice(v: OneShotVoice, t: Trigger, ordinal: nat, selected: nat, sample_rate: u32) -> OneShotVoice {
    if v.trigger != t {
        v
    } else if v.companion {
        OneShotVoice { active: true, cursor: 0, delay_remaining: companion_delay(sample_rate) as usize, ..v }
    } else if ordinal == selected {
        OneShotVoice { active: true, cursor: 0, delay_remaining: 0, ..v }
    } else {
        OneShotVoice { active: false, ..v }
    }
}

/// The variant index chosen from generator state `state` among `count` variants.
pub open spec fn selected_variant(state: u64, count: nat) -> nat {
    ((state as nat / 0x1_0000_0000nat) % count) as nat
}

/// Fires trigger `t`: when it has variants, the generator advances, the
/// selected variant starts from its first frame, the other variants stop,
/// and every companion of `t` starts after the companion delay. With no
/// variant nothing changes.
pub fn fire_trigger(voices: &mut Vec<OneShotVoice>, rng_state: &mut u64, t: Trigger, sample_rate: u32)
    requires
        sample_rate as int * SHIFT_COMPANION_DELAY_MS as int <= usize::MAX,
    ensures
        ({
            let count = variant_ordinal(old(voices)@, t, old(voices)@.len() as int);
            if count == 0 {
                final(voices)@ == old(voices)@ && *final(rng_state) == *old(rng_state)
            } else {
                &&& *final(rng_state) == lcg_next(*old(rng_state))
                &&& final(voices)@.len() == old(voices)@.len()
                &&& forall|i: int| 0 <= i < old(voices)@.len() ==> #[trigger] final(voices)@[i] == fired_voice(
                    old(voices)@[i],
                    t,
                    variant_ordinal(old(voices)@, t, i),
                    selected_variant(*final(rng_state), count),
                    sample_rate,
                )
            }
        }),
{
    let n = voices.len();
    let mut count: usize = 0;
    let mut i: usize = 0;
    while i < n
        invariant
            n == voices@.len(),
            i <= n,
            count == variant_ordinal(voices@, t, i as int),
            count <= i,
        decreases n - i,
    {
        if voices[i].trigger == t && !voices[i].companion {
            count = count + 1;
        }
        i = i + 1;
    }
    if count == 0 {
        return;
    }
    let state = next_variant_state(*rng_state);
    *rng_state = state;
    let selected: usize = ((state >> 32) as usize) % count;
    proof {
        assert((state >> 32) == state / 0x1_0000_0000) by (bit_vector);
    }
    let delay = companion_delay_frames(sample_rate);
    let ghost before = voices@;
    let mut ordinal: usize = 0;
    let mut j: usize = 0;
    while j < n
        invariant
            n == voices@.len(),
            n == before.len(),
            j <= n,
            ordinal == variant_ordinal(before, t, j as int),
            ordinal <= j,
            selected == selected_variant(state, count as nat),
            delay == companion_delay(sample_rate),
            forall|k: int| 0 <= k < j ==> #[trigger] voices@[k] == fired_voice(
                before[k], t, variant_ordinal(before, t, k), selected as nat, sample_rate),
            forall|k: int| j <= k < n ==> voices@[k] == before[k],
        decreases n - j,
    {
        let v = voices[j];
        if v.trigger == t {
            if v.companion {
                voices.set(j, OneShotVoice { active: true, cursor: 0, delay_remaining: delay, ..v });
            } else {
                if ordinal == selected {
                    voices.set(j, OneShotVoice { active: true, cursor: 0, delay_remaining: 0, ..v });
                } else {
                    voices.set(j, OneShotVoice { active: false, ..v });
                }
                ordinal = ordinal + 1;
            }
        }
        j = j + 1;
    }
}

proof fn lemma_ordinal_monotone(voices: Seq<OneShotVoice>, t: Trigger, i: int, j: int)
    requires
        0 <= i <= j,
    ensures
        variant_ordinal(voices, t, i) <= variant_ordinal(voices, t, j),
    decreases j - i,
{
    if i < j {
        lemma_ordinal_monotone(voices, t, i, j - 1);
    }
}

/// A trigger starts at most one of its variants: two different variants of
/// `t` are never both started by the same firing.
pub proof fn lemma_one_variant_starts(voices: Seq<OneShotVoice>, t: Trigger, selected: nat, sample_rate: u32, i: int, j: int)
    requires
        0 <= i < j < voices.len(),
        is_variant_of(voices[i], t),
        is_variant_of(voices[j], t),
    ensures
        !(fired_voice(voices[i], t, variant_ordinal(voices, t, i), selected, sample_rate).active
            && fired_voice(voices[j], t, variant_ordinal(voices, t, j), selected, sample_rate).active),
{
    lemma_ordinal_monotone(voices, t, i + 1, j);
}

proof fn lemma_ordinal_reached(voices: Seq<OneShotVoice>, t: Trigger, n: int, m: nat)
    requires
        0 <= n <= voices.len(),
        m < variant_ordinal(voices, t, n),
    ensures
        exists|i: int| 0 <= i < n && is_variant_of(voices[i], t) && variant_ordinal(voices, t, i) == m,
    decreases n,
{
    if m < variant_ordinal(voices, t, n - 1) {
        lemma_ordinal_reached(voices, t, n - 1, m);
        let i = choose|i: int| 0 <= i < n - 1 && is_variant_of(voices[i], t) && variant_ordinal(voices, t, i) == m;
        assert(0 <= i < n);
    } else {
        assert(is_variant_of(voices[n - 1], t) && variant_ordinal(voices, t, n - 1) == m);
    }
}

/// When the trigger has variants, one of them is started by the firing.
pub proof fn lemma_some_variant_starts(voices: Seq<OneShotVoice>, t: Trigger, state: u64, sample_rate: u32)
    requires
        variant_ordinal(voices, t, voices.len() as int) > 0,
    ensures
        exists|i: int| 0 <= i < voices.len() && is_variant_of(voices[i], t) && #[trigger] fired_voice(
            voices[i],
            t,
            variant_ordinal(voices, t, i),
            selected_variant(state, variant_ordinal(voices, t, voices.len() as int)),
            sample_rate,
        ).active,
{
    let count = variant_ordinal(voices, t, voices.len() as int);
    let selected = selected_variant(state, count);
    lemma_ordinal_reached(voices, t, voices.len() as int, selected);
    let i = choose|i: int| 0 <= i < voices.len() && is_variant_of(voices[i], t) && variant_ordinal(voices, t, i) == selected;
    assert(fired_voice(voices[i], t, variant_ordinal(voices, t, i), selected, sample_rate).active);
}

/// What one rendered frame does with a one-shot voice.
#[derive(Debug, Clone, Copy, PartialEq, Eq, Structural)]
pub enum OneShotFrame {
    /// The voice is inactive (or its sample is empty, which stops it).
    Skip,
    /// The voice is waiting out its start delay.
    Wait,
    /// Sample `index` is played; `release` says the fade-out starts here.
    Play { index: usize, release: bool },
}

/// One frame of a one-shot voice whose sample has `len` frames.
pub open spec fn one_shot_step(v: OneShotVoice, len: usize) -> (OneShotVoice, OneShotFrame) {
    if !v.active {
        (v, OneShotFrame::Skip)
    } else if v.delay_remaining > 0 {
        (OneShotVoice { delay_remaining: (v.delay_remaining - 1) as usize, ..v }, OneShotFrame::Wait)
    } else if len == 0 {
        (OneShotVoice { active: false, ..v }, OneShotFrame::Skip)
    } else {
        let index = if v.cursor < len { v.cursor } else { (len - 1) as usize };
        let release = len - v.cursor == ONE_SHOT_ENV_SAMPLES;
        let cursor = (v.cursor + 1) as usize;
        (
            OneShotVoice { cursor, active: cursor < len, ..v },
            OneShotFrame::Play { index, release },
        )
    }
}

/// Advances a one-shot voice by one frame.
pub fn step_one_shot(v: &mut OneShotVoice, len: usize) -> (f: OneShotFrame)
    requires
        old(v).cursor < usize::MAX,
    ensures
        (*final(v), f) == one_shot_step(*old(v), len),
{
    if !v.active {
        return OneShotFrame::Skip;
    }
    if v.delay_remaining > 0 {
        v.delay_remaining = v.delay_remaining - 1;
        return OneShotFrame::Wait;
    }
    if len == 0 {
        v.active = false;
        return OneShotFrame::Skip;
    }
    let index = if v.cursor < len { v.cursor } else { len - 1 };
    let release = len.saturating_sub(v.cursor) == ONE_SHOT_ENV_SAMPLES;
    v.cursor = v.cursor + 1;
    if v.cursor >= len {
        v.active = false;
    }
    OneShotFrame::Play { index, release }
}

/// The voice after `n` frames.
pub open spec fn one_shot_after(v: OneShotVoice, len: usize, n: nat) -> OneShotVoice
    decreases n,
{
    if n == 0 {
        v
    } else {
        one_shot_after(one_shot_step(v, len).0, len, (n - 1) as nat)
    }
}

/// A started voice with a start delay of `d` frames waits exactly `d`
/// frames: each of them is a wait, and the frame after them plays its first
/// sample.
pub proof fn lemma_delayed_start(v: OneShotVoice, len: usize)
    requires
        v.active,
        v.cursor == 0,
        len > 0,
    ensures
        forall|k: nat| k < v.delay_remaining ==> (#[trigger] one_shot_step(one_shot_after(v, len, k), len)).1 == OneShotFrame::Wait,
        one_shot_step(one_shot_after(v, len, v.delay_remaining as nat), len).1 == (OneShotFrame::Play {
            index: 0,
            release: len == ONE_SHOT_ENV_SAMPLES,
        }),
    decreases v.delay_remaining,
{
    if v.delay_remaining > 0 {
        let next = one_shot_step(v, len).0;
        lemma_delayed_start(next, len);
        assert forall|k: nat| k < v.delay_remaining implies (#[trigger] one_shot_step(one_shot_after(v, len, k), len)).1 == OneShotFrame::Wait by {
            if k > 0 {
                assert(one_shot_after(v, len, k) == one_shot_after(next, len, (k - 1) as nat));
            }
        }
        assert(one_shot_after(v, len, v.delay_remaining as nat) == one_shot_after(next, len, next.delay_remaining as nat));
    }
}

/// The shift one-shot of a gear change: entering a higher gear fires the
/// upshift, a lower one the downshift; leaving neutral fires nothing. The
/// remembered gear follows every change.
pub fn gear_change(last_gear: &mut i32, gear: i32) -> (r: Option<Trigger>)
    ensures
        *final(last_gear) == gear,
        r == (if gear != *old(last_gear) && *old(last_gear) != 0 {
            Some(if gear > *old(last_gear) { Trigger::ShiftUp } else { Trigger::ShiftDown })
        } else {
            None
        }),
{
    if gear == *last_gear {
        return None;
    }
    let fired = if *last_gear != 0 {
        Some(if gear > *last_gear { Trigger::ShiftUp } else { Trigger::ShiftDown })
    } else {
        None
    };
    *last_gear = gear;
    fired
}

/// The one-shot entries with a fixed bank key, in table order: each trigger
/// with its own key, then the delayed companions of the two shifts.
pub open spec fn fixed_one_shots() -> Seq<(Trigger, Seq<char>)> {
    seq![
        (Trigger::ShiftUp, trigger_key(Trigger::ShiftUp)),
        (Trigger::ShiftDown, trigger_key(Trigger::ShiftDown)),
        (Trigger::Hit1, trigger_key(Trigger::Hit1)),
        (Trigger::Hit2, trigger_key(Trigger::Hit2)),
        (Trigger::Hit3, trigger_key(Trigger::Hit3)),
        (Trigger::Hit4, trigger_key(Trigger::Hit4)),
        (Trigger::Barrier, trigger_key(Trigger::Barrier)),
        (Trigger::Cone, trigger_key(Trigger::Cone)),
        (Trigger::Fire, trigger_key(Trigger::Fire)),
        (Trigger::Scrape, trigger_key(Trigger::Scrape)),
        (Trigger::ShiftUp, "shift_up_delayed"@),
        (Trigger::ShiftDown, "shift_down_delayed"@),
    ]
}

/// Does the bank (its samples as `(key, role)`) hold `key`?
pub open spec fn has_sample(samples: Seq<(String, String)>, key: Seq<char>) -> bool {
    exists|i: int| 0 <= i < samples.len() && (#[trigger] samples[i]).0@ == key
}

/// The entries whose key the bank holds, in order.
pub open spec fn present_entries(entries: Seq<(Trigger, Seq<char>)>, samples: Seq<(String, String)>) -> Seq<(Trigger, Seq<char>)>
    decreases entries.len(),
{
    if entries.len() == 0 {
        Seq::empty()
    } else if has_sample(samples, entries.last().1) {
        present_entries(entries.drop_last(), samples).push(entries.last())
    } else {
        present_entries(entries.drop_last(), samples)
    }
}

/// A backfire entry for each sample whose role is `engine_backfire`, in the
/// order of the samples.
pub open spec fn backfire_entries(samples: Seq<(String, String)>) -> Seq<(Trigger, Seq<char>)>
    decreases samples.len(),
{
    if samples.len() == 0 {
        Seq::empty()
    } else if samples.last().1@ == "engine_backfire"@ {
        backfire_entries(samples.drop_last()).push((Trigger::Backfire, samples.last().0@))
    } else {
        backfire_entries(samples.drop_last())
    }
}

pub open spec fn entries_view(entries: Seq<(Trigger, String)>) -> Seq<(Trigger, Seq<char>)> {
    entries.map_values(|e: (Trigger, String)| (e.0, e.1@))
}

fn fixed_one_shot(i: usize) -> (r: (Trigger, &'static str))
    requires
        i < 12,
    ensures
        (r.0, r.1@) == fixed_one_shots()[i as int],
{
    let t = match i {
        0 => Trigger::ShiftUp,
        1 => Trigger::ShiftDown,
        2 => Trigger::Hit1,
        3 => Trigger::Hit2,
        4 => Trigger::Hit3,
        5 => Trigger::Hit4,
        6 => Trigger::Barrier,
        7 => Trigger::Cone,
        8 => Trigger::Fire,
        9 => Trigger::Scrape,
        10 => {
            return (Trigger::ShiftUp, "shift_up_delayed");
        },
        _ => {
            return (Trigger::ShiftDown, "shift_down_delayed");
        },
    };
    (t, t.bank_key())
}

fn sample_has_key(samples: &Vec<(String, String)>, key: &str) -> (r: bool)
    ensures
        r == has_sample(samples@, key@),
{
    let n = samples.len();
    let mut i: usize = 0;
    while i < n
        invariant
            n == samples@.len(),
            i <= n,
            forall|k: int| 0 <= k < i ==> (#[trigger] samples@[k]).0@ != key@,
        decreases n - i,
    {
        if str_eq(samples[i].0.as_str(), key) {
            assert(samples@[i as int].0@ == key@);
            return true;
        }
        i = i + 1;
    }
    false
}

/// The one-shot voices of the legacy mixer, given the bank's samples as
/// `(key, role)` in key order: each trigger whose own key the bank holds
/// (shift up, shift down, the four hits, barrier, cone, fire, scrape), then
/// the delayed shift companions the bank holds, then one backfire variant per
/// sample of role `engine_backfire`, in key order.
pub fn one_shot_table(samples: &Vec<(String, String)>) -> (r: Vec<(Trigger, String)>)
    ensures
        entries_view(r@) == present_entries(fixed_one_shots(), samples@) + backfire_entries(samples@),
{
    let mut out: Vec<(Trigger, String)> = Vec::new();
    let mut i: usize = 0;
    while i < 12
        invariant
            i <= 12,
            entries_view(out@) == present_entries(fixed_one_shots().take(i as int), samples@),
        decreases 12 - i,
    {
        let (t, key) = fixed_one_shot(i);
        let ghost before = out@;
        assert(fixed_one_shots().take(i + 1).drop_last() =~= fixed_one_shots().take(i as int));
        if sample_has_key(samples, key) {
            out.push((t, String::from_str(key)));
            assert(entries_view(out@) =~= entries_view(before).push((t, key@)));
        }
        i = i + 1;
    }
    assert(fixed_one_shots().take(12) =~= fixed_one_shots());
    let ghost fixed_part = entries_view(out@);
    let n = samples.len();
    let mut j: usize = 0;
    assert(samples@.take(0) =~= Seq::<(String, String)>::empty());
    assert(fixed_part + backfire_entries(samples@.take(0)) =~= fixed_part);
    while j < n
        invariant
            n == samples@.len(),
            j <= n,
            fixed_part == present_entries(fixed_one_shots(), samples@),
            entries_view(out@) == fixed_part + backfire_entries(samples@.take(j as int)),
        decreases n - j,
    {
        let ghost before = out@;
        assert(samples@.take(j + 1).drop_last() =~= samples@.take(j as int));
        assert(samples@.take(j + 1).last() == samples@[j as int]);
        if str_eq(samples[j].1.as_str(), "engine_backfire") {
            out.push((Trigger::Backfire, samples[j].0.clone()));
            assert(entries_view(out@) =~= entries_view(before).push((Trigger::Backfire, samples@[j as int].0@)));
        }
        j = j + 1;
    }
    assert(samples@.take(n as int) =~= samples@);
    out
}

} // verus!

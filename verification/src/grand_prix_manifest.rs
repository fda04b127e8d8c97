//! The structural rules of a Grand Prix bank manifest.
//!
//! A manifest is held here as the integers and names that the rules read,
//! together with the outcome of each comparison on its real-valued fields
//! (rpm ranges, gains, timings), made by the caller in the order the rules
//! ask for them. The rules are checked in a fixed order and the first one
//! that fails decides the error.

use vstd::prelude::*;
use vstd::string::*;
use crate::digest::{is_hex_sha256, is_sha256_text};
use crate::grand_prix_bank::{
    GrandPrixBankError, GrandPrixEventRole, GrandPrixSelection, GrandPrixTriggerEvent,
    is_invalid_asset, role_named, selection_named, trigger_named,
};
use crate::text::{decimal, hex_lower, push_decimal, str_eq};
use crate::bank::{AssetLabels, refusal_text, wav_refusal, wav_refusal_text};
use crate::digest::{sha256, sha256_hex};
use crate::wav::{parse_wav_mono16, wav_mono16};

verus! {

/// A loop asset: its names and frame counts, and the outcome of each check on
/// its real-valued fields.
#[derive(Debug, Clone)]
pub struct LoopFacts {
    pub id: String,
    pub role: String,
    pub source_sha256: String,
    pub derived_sha256: String,
    pub derived_frames: u64,
    pub loop_start_frame: u64,
    pub loop_end_frame_exclusive: u64,
    pub loop_crossfade_frames: u64,
    /// The reference rpm is finite and positive.
    pub reference_positive: bool,
    /// The reference rpm exceeds that of the previous loop (0 for the first).
    pub reference_ascending: bool,
    /// The calibrated gain is finite and positive.
    pub gain_valid: bool,
    /// Both playback rate bounds are finite and positive, and ordered.
    pub playback_rates_valid: bool,
    /// Whether the active coverage matches the neighbouring transitions;
    /// `None` when a transition it must be compared with does not exist.
    pub coverage_agrees: Option<bool>,
    /// The active coverage lies within the declared playback rates.
    pub coverage_within_rates: bool,
    /// The active coverage starts at the manifest's minimum rpm.
    pub reaches_minimum: bool,
    /// The active coverage ends at the manifest's maximum rpm.
    pub reaches_maximum: bool,
}

#[derive(Debug, Clone)]
pub struct TransitionFacts {
    pub from_loop_id: String,
    pub to_loop_id: String,
    pub blend_law: String,
    pub gain_law: String,
    /// Start and end are finite, positive and ordered.
    pub window_valid: bool,
    /// The window does not start before the previous one ends.
    pub follows_previous: bool,
}

#[derive(Debug, Clone)]
pub struct EventFacts {
    pub id: String,
    pub role: String,
    pub source_sha256: String,
    pub derived_sha256: String,
    pub derived_frames: u64,
    /// The duration is finite and positive.
    pub duration_positive: bool,
}

#[derive(Debug, Clone)]
pub struct VariantFacts {
    pub asset_id: String,
    /// The event gain is finite and positive.
    pub gain_valid: bool,
    /// The pitch reference, where there is one, is finite and positive.
    pub pitch_reference_valid: bool,
}

#[derive(Debug, Clone)]
pub struct GroupFacts {
    pub id: String,
    pub role: String,
    pub selection: String,
    pub trigger_event: String,
    pub voice_limit: u32,
    /// The retrigger interval is finite and positive and the timing offset
    /// finite and not negative.
    pub timing_valid: bool,
    pub variants: Vec<VariantFacts>,
}

#[derive(Debug, Clone)]
pub struct ManifestFacts {
    pub schema_version: u64,
    pub bank_id: String,
    pub preparation_tool: String,
    pub preparation_tool_revision: u64,
    pub source_inventory_sha256: String,
    pub output_sample_rate: u32,
    /// Both coverage bounds are finite and positive, and ordered.
    pub coverage_valid: bool,
    pub loops: Vec<LoopFacts>,
    pub transitions: Vec<TransitionFacts>,
    /// The first transition does not start below, and the last does not end
    /// above, the declared coverage.
    pub transitions_within_coverage: bool,
    pub events: Vec<EventFacts>,
    pub groups: Vec<GroupFacts>,
    pub lift_edge_valid: bool,
    pub limiter_edge_valid: bool,
}

/// A refusal: `(true, name, reason)` for an invalid asset, `(false, message, _)`
/// for an invalid manifest.
pub type Fault = (bool, Seq<char>, Seq<char>);

pub open spec fn manifest_fault(message: Seq<char>) -> Option<Fault> {
    Some((false, message, Seq::empty()))
}

pub open spec fn asset_fault(name: Seq<char>, reason: Seq<char>) -> Option<Fault> {
    Some((true, name, reason))
}

/// Does `r` report `f`: `Ok` for no fault, else the matching error?
pub open spec fn reports_fault(r: Result<(), GrandPrixBankError>, f: Option<Fault>) -> bool {
    match f {
        None => r is Ok,
        Some(f) => r is Err && if f.0 {
            is_invalid_asset(r->Err_0, f.1, f.2)
        } else {
            (r->Err_0 matches GrandPrixBankError::InvalidManifest(m) && m@ == f.1)
        },
    }
}

pub open spec fn header_fault(m: ManifestFacts) -> Option<Fault> {
    if m.schema_version != 1 {
        manifest_fault("unsupported schema_version "@ + decimal(m.schema_version as nat))
    } else if m.bank_id@.len() == 0 {
        manifest_fault("bank_id missing"@)
    } else if m.preparation_tool@.len() == 0 || m.preparation_tool_revision == 0 {
        manifest_fault("preparation provenance missing"@)
    } else if !is_sha256_text(m.source_inventory_sha256@) {
        manifest_fault("source_inventory_sha256 invalid"@)
    } else if m.output_sample_rate != 44100 {
        manifest_fault("output_sample_rate must be 44100"@)
    } else if m.loops@.len() < 2 || m.loops@.len() > 16 {
        manifest_fault("loop count "@ + decimal(m.loops@.len()) + " outside [2, 16]"@)
    } else if !m.coverage_valid {
        manifest_fault("coverage range invalid"@)
    } else {
        None
    }
}

pub open spec fn loop_ids(loops: Seq<LoopFacts>) -> Seq<Seq<char>> {
    loops.map_values(|l: LoopFacts| l.id@)
}

/// The checks of loop `i` made before its coverage is compared with the
/// transitions.
pub open spec fn loop_fault_before_coverage(loops: Seq<LoopFacts>, i: int) -> Option<Fault> {
    let l = loops[i];
    if l.role@ != "engine_loop"@ {
        asset_fault(l.id@, "loop role must be engine_loop"@)
    } else if loop_ids(loops).take(i).contains(l.id@) {
        asset_fault(l.id@, "duplicate loop id"@)
    } else if !is_sha256_text(l.derived_sha256@) || !is_sha256_text(l.source_sha256@) {
        asset_fault(l.id@, "sha256 fields invalid"@)
    } else if !l.reference_positive {
        asset_fault(l.id@, "reference rpm must be positive and finite"@)
    } else if !l.reference_ascending {
        asset_fault(l.id@, "loop references must be strictly ascending"@)
    } else if !l.gain_valid {
        asset_fault(l.id@, "calibrated_gain must be finite and positive"@)
    } else if !l.playback_rates_valid {
        asset_fault(l.id@, "playback rate bounds invalid"@)
    } else if l.loop_start_frame >= l.loop_end_frame_exclusive || l.loop_end_frame_exclusive > l.derived_frames {
        asset_fault(l.id@, "loop bounds invalid"@)
    } else if l.loop_crossfade_frames == 0
        || l.loop_crossfade_frames * 4 > l.loop_end_frame_exclusive - l.loop_start_frame {
        asset_fault(l.id@, "loop crossfade invalid"@)
    } else {
        None
    }
}

/// The checks of loop `i` made after its coverage agrees with the transitions.
pub open spec fn loop_fault_after_coverage(loops: Seq<LoopFacts>, i: int) -> Option<Fault> {
    let l = loops[i];
    if !l.coverage_within_rates {
        asset_fault(l.id@, "active coverage exceeds declared playback rate bounds"@)
    } else if i == 0 && !l.reaches_minimum {
        asset_fault(l.id@, "first loop does not reach minimum coverage"@)
    } else if i == loops.len() - 1 && !l.reaches_maximum {
        asset_fault(l.id@, "last loop does not reach maximum coverage"@)
    } else {
        None
    }
}

/// The first fault among the loops from `i` on, and whether the check of a
/// loop's coverage reaches a transition that does not exist before any fault.
pub open spec fn loops_outcome(loops: Seq<LoopFacts>, i: int) -> (bool, Option<Fault>)
    decreases loops.len() - i,
{
    if i < 0 || i >= loops.len() {
        (false, None)
    } else if loop_fault_before_coverage(loops, i).is_some() {
        (false, loop_fault_before_coverage(loops, i))
    } else if loops[i].coverage_agrees.is_none() {
        (true, None)
    } else if loops[i].coverage_agrees != Some(true) {
        (false, asset_fault(loops[i].id@, "active coverage disagrees with transitions"@))
    } else if loop_fault_after_coverage(loops, i).is_some() {
        (false, loop_fault_after_coverage(loops, i))
    } else {
        loops_outcome(loops, i + 1)
    }
}

pub open spec fn transition_fault_at(m: ManifestFacts, i: int) -> Option<Fault> {
    let t = m.transitions@[i];
    if t.from_loop_id@ != m.loops@[i].id@ || t.to_loop_id@ != m.loops@[i + 1].id@ {
        manifest_fault("transition endpoints do not match loop order"@)
    } else if !t.window_valid {
        manifest_fault("transition window invalid"@)
    } else if t.blend_law@ != "smoothstep"@ || t.gain_law@ != "equal_power"@ {
        manifest_fault("unsupported blend or gain law"@)
    } else if i > 0 && !t.follows_previous {
        manifest_fault("transition windows overlap"@)
    } else {
        None
    }
}

pub open spec fn transitions_fault_from(m: ManifestFacts, i: int) -> Option<Fault>
    decreases m.transitions@.len() - i,
{
    if i < 0 || i >= m.transitions@.len() {
        None
    } else if transition_fault_at(m, i).is_some() {
        transition_fault_at(m, i)
    } else {
        transitions_fault_from(m, i + 1)
    }
}

pub open spec fn transitions_fault(m: ManifestFacts) -> Option<Fault> {
    if m.transitions@.len() != m.loops@.len() - 1 {
        manifest_fault("transition count does not match loop count"@)
    } else if transitions_fault_from(m, 0).is_some() {
        transitions_fault_from(m, 0)
    } else if !m.transitions_within_coverage {
        manifest_fault("transitions exceed declared coverage"@)
    } else {
        None
    }
}

pub open spec fn event_ids(events: Seq<EventFacts>) -> Seq<Seq<char>> {
    events.map_values(|e: EventFacts| e.id@)
}

pub open spec fn event_fault_at(events: Seq<EventFacts>, i: int) -> Option<Fault> {
    let e = events[i];
    if event_ids(events).take(i).contains(e.id@) {
        asset_fault(e.id@, "duplicate event id"@)
    } else if role_named(e.role@).is_none() {
        asset_fault(e.role@, "unknown event role"@)
    } else if !is_sha256_text(e.derived_sha256@) || !is_sha256_text(e.source_sha256@) {
        asset_fault(e.id@, "sha256 fields invalid"@)
    } else if e.derived_frames == 0 || !e.duration_positive {
        asset_fault(e.id@, "event duration invalid"@)
    } else {
        None
    }
}

pub open spec fn events_fault_from(events: Seq<EventFacts>, i: int) -> Option<Fault>
    decreases events.len() - i,
{
    if i < 0 || i >= events.len() {
        None
    } else if event_fault_at(events, i).is_some() {
        event_fault_at(events, i)
    } else {
        events_fault_from(events, i + 1)
    }
}

/// The role of the last event with identifier `id`.
pub open spec fn role_of_event(events: Seq<EventFacts>, id: Seq<char>) -> Option<GrandPrixEventRole>
    decreases events.len(),
{
    if events.len() == 0 {
        None
    } else if events.last().id@ == id {
        role_named(events.last().role@)
    } else {
        role_of_event(events.drop_last(), id)
    }
}

pub open spec fn variant_fault_at(events: Seq<EventFacts>, g: GroupFacts, j: int) -> Option<Fault> {
    let v = g.variants@[j];
    if !event_ids(events).contains(v.asset_id@) {
        asset_fault(g.id@, "unknown variant asset "@ + v.asset_id@)
    } else if role_of_event(events, v.asset_id@) != role_named(g.role@) {
        asset_fault(g.id@, "variant "@ + v.asset_id@ + " role mismatch"@)
    } else if !v.gain_valid {
        asset_fault(g.id@, "variant gain invalid"@)
    } else if !v.pitch_reference_valid {
        asset_fault(g.id@, "variant pitch reference invalid"@)
    } else {
        None
    }
}

pub open spec fn variants_fault_from(events: Seq<EventFacts>, g: GroupFacts, j: int) -> Option<Fault>
    decreases g.variants@.len() - j,
{
    if j < 0 || j >= g.variants@.len() {
        None
    } else if variant_fault_at(events, g, j).is_some() {
        variant_fault_at(events, g, j)
    } else {
        variants_fault_from(events, g, j + 1)
    }
}

pub open spec fn group_ids(groups: Seq<GroupFacts>) -> Seq<Seq<char>> {
    groups.map_values(|g: GroupFacts| g.id@)
}

pub open spec fn group_fault_at(events: Seq<EventFacts>, groups: Seq<GroupFacts>, i: int) -> Option<Fault> {
    let g = groups[i];
    if group_ids(groups).take(i).contains(g.id@) {
        asset_fault(g.id@, "duplicate event group id"@)
    } else if role_named(g.role@).is_none() {
        asset_fault(g.role@, "unknown event role"@)
    } else if selection_named(g.selection@).is_none() {
        asset_fault(g.selection@, "unknown selection policy"@)
    } else if trigger_named(g.trigger_event@).is_none() {
        asset_fault(g.trigger_event@, "unknown trigger event"@)
    } else if g.voice_limit == 0 || g.voice_limit > 8 {
        asset_fault(g.id@, "voice_limit must be within 1..=8"@)
    } else if !g.timing_valid {
        asset_fault(g.id@, "group timing invalid"@)
    } else if g.variants@.len() == 0 {
        asset_fault(g.id@, "group has no variants"@)
    } else {
        variants_fault_from(events, g, 0)
    }
}

pub open spec fn groups_fault_from(events: Seq<EventFacts>, groups: Seq<GroupFacts>, i: int) -> Option<Fault>
    decreases groups.len() - i,
{
    if i < 0 || i >= groups.len() {
        None
    } else if group_fault_at(events, groups, i).is_some() {
        group_fault_at(events, groups, i)
    } else {
        groups_fault_from(events, groups, i + 1)
    }
}

pub open spec fn policy_fault(m: ManifestFacts) -> Option<Fault> {
    if !m.lift_edge_valid {
        manifest_fault("lift edge policy invalid"@)
    } else if !m.limiter_edge_valid {
        manifest_fault("limiter edge policy invalid"@)
    } else {
        None
    }
}

/// Does checking `m` reach the coverage of a loop whose neighbouring
/// transition does not exist, before any rule has failed?
pub open spec fn validation_reaches_missing_transition(m: ManifestFacts) -> bool {
    header_fault(m).is_none() && loops_outcome(m.loops@, 0).0
}

/// The first rule that `m` breaks, if any.
pub open spec fn validation_fault(m: ManifestFacts) -> Option<Fault> {
    if header_fault(m).is_some() {
        header_fault(m)
    } else if loops_outcome(m.loops@, 0).1.is_some() {
        loops_outcome(m.loops@, 0).1
    } else if transitions_fault(m).is_some() {
        transitions_fault(m)
    } else if events_fault_from(m.events@, 0).is_some() {
        events_fault_from(m.events@, 0)
    } else if groups_fault_from(m.events@, m.groups@, 0).is_some() {
        groups_fault_from(m.events@, m.groups@, 0)
    } else {
        policy_fault(m)
    }
}

/// `loops` with the maximum-coverage flag of loop `i` set to `reaches`.
pub open spec fn with_maximum_flag(loops: Seq<LoopFacts>, i: int, reaches: bool) -> Seq<LoopFacts> {
    loops.update(i, LoopFacts { reaches_maximum: reaches, ..loops[i] })
}

proof fn lemma_loops_outcome_inner_maximum(loops: Seq<LoopFacts>, i: int, reaches: bool, k: int)
    requires
        0 <= i < loops.len() - 1,
    ensures
        loops_outcome(with_maximum_flag(loops, i, reaches), k) == loops_outcome(loops, k),
    decreases loops.len() - k,
{
    let changed = with_maximum_flag(loops, i, reaches);
    if 0 <= k < loops.len() {
        assert(loop_ids(changed) =~= loop_ids(loops));
        assert(changed[k].id == loops[k].id);
        assert(loop_fault_before_coverage(changed, k) == loop_fault_before_coverage(loops, k));
        assert(loop_fault_after_coverage(changed, k) == loop_fault_after_coverage(loops, k));
        lemma_loops_outcome_inner_maximum(loops, i, reaches, k + 1);
    }
}

proof fn lemma_transitions_same_ids(m1: ManifestFacts, m2: ManifestFacts, j: int)
    requires
        m2.transitions == m1.transitions,
        m2.loops@.len() == m1.loops@.len(),
        m1.transitions@.len() == m1.loops@.len() - 1,
        forall|k: int| 0 <= k < m1.loops@.len() ==> (#[trigger] m2.loops@[k]).id == m1.loops@[k].id,
    ensures
        transitions_fault_from(m2, j) == transitions_fault_from(m1, j),
    decreases m1.transitions@.len() - j,
{
    if 0 <= j < m1.transitions@.len() {
        assert(m2.loops@[j].id == m1.loops@[j].id);
        assert(m2.loops@[j + 1].id == m1.loops@[j + 1].id);
        assert(transition_fault_at(m2, j) == transition_fault_at(m1, j));
        lemma_transitions_same_ids(m1, m2, j + 1);
    }
}

/// Only the last loop must reach the maximum coverage: changing whether any
/// other loop reaches it changes neither the outcome of validation nor
/// whether validation can be carried out.
pub proof fn lemma_only_last_loop_reaches_maximum(m1: ManifestFacts, m2: ManifestFacts, i: int)
    requires
        0 <= i < m1.loops@.len() - 1,
        m2.loops@ == with_maximum_flag(m1.loops@, i, m2.loops@[i].reaches_maximum),
        (ManifestFacts { loops: m1.loops, ..m2 }) == m1,
    ensures
        validation_fault(m2) == validation_fault(m1),
        validation_reaches_missing_transition(m2) == validation_reaches_missing_transition(m1),
{
    lemma_loops_outcome_inner_maximum(m1.loops@, i, m2.loops@[i].reaches_maximum, 0);
    assert(header_fault(m2) == header_fault(m1));
    if m1.transitions@.len() == m1.loops@.len() - 1 {
        lemma_transitions_same_ids(m1, m2, 0);
    }
    assert(transitions_fault(m2) == transitions_fault(m1));
}

/// `loops` with the minimum-coverage flag of loop `i` set to `reaches`.
pub open spec fn with_minimum_flag(loops: Seq<LoopFacts>, i: int, reaches: bool) -> Seq<LoopFacts> {
    loops.update(i, LoopFacts { reaches_minimum: reaches, ..loops[i] })
}

proof fn lemma_loops_outcome_later_minimum(loops: Seq<LoopFacts>, i: int, reaches: bool, k: int)
    requires
        0 < i < loops.len(),
    ensures
        loops_outcome(with_minimum_flag(loops, i, reaches), k) == loops_outcome(loops, k),
    decreases loops.len() - k,
{
    let changed = with_minimum_flag(loops, i, reaches);
    if 0 <= k < loops.len() {
        assert(loop_ids(changed) =~= loop_ids(loops));
        assert(loop_fault_before_coverage(changed, k) == loop_fault_before_coverage(loops, k));
        assert(loop_fault_after_coverage(changed, k) == loop_fault_after_coverage(loops, k));
        lemma_loops_outcome_later_minimum(loops, i, reaches, k + 1);
    }
}

/// Only the first loop must reach the minimum coverage: changing whether any
/// other loop reaches it changes neither the outcome of validation nor
/// whether validation can be carried out.
pub proof fn lemma_only_first_loop_reaches_minimum(m1: ManifestFacts, m2: ManifestFacts, i: int)
    requires
        0 < i < m1.loops@.len(),
        m2.loops@ == with_minimum_flag(m1.loops@, i, m2.loops@[i].reaches_minimum),
        (ManifestFacts { loops: m1.loops, ..m2 }) == m1,
    ensures
        validation_fault(m2) == validation_fault(m1),
        validation_reaches_missing_transition(m2) == validation_reaches_missing_transition(m1),
{
    lemma_loops_outcome_later_minimum(m1.loops@, i, m2.loops@[i].reaches_minimum, 0);
    assert(header_fault(m2) == header_fault(m1));
    if m1.transitions@.len() == m1.loops@.len() - 1 {
        lemma_transitions_same_ids(m1, m2, 0);
    }
    assert(transitions_fault(m2) == transitions_fault(m1));
}

fn invalid_manifest(message: String) -> (e: GrandPrixBankError)
    ensures
        e matches GrandPrixBankError::InvalidManifest(m) && m@ == message@,
{
    GrandPrixBankError::InvalidManifest(message)
}

fn invalid_manifest_text(message: &str) -> (e: GrandPrixBankError)
    ensures
        e matches GrandPrixBankError::InvalidManifest(m) && m@ == message@,
{
    GrandPrixBankError::InvalidManifest(String::from_str(message))
}

fn invalid_asset_text(name: &str, reason: &str) -> (e: GrandPrixBankError)
    ensures
        is_invalid_asset(e, name@, reason@),
{
    GrandPrixBankError::InvalidAsset(String::from_str(name), String::from_str(reason))
}

fn check_header(m: &ManifestFacts) -> (r: Result<(), GrandPrixBankError>)
    ensures
        reports_fault(r, header_fault(*m)),
{
    if m.schema_version != 1 {
        let mut message = String::from_str("unsupported schema_version ");
        push_decimal(&mut message, m.schema_version);
        return Err(invalid_manifest(message));
    }
    if m.bank_id.unicode_len() == 0 {
        return Err(invalid_manifest_text("bank_id missing"));
    }
    if m.preparation_tool.unicode_len() == 0 || m.preparation_tool_revision == 0 {
        return Err(invalid_manifest_text("preparation provenance missing"));
    }
    if !is_hex_sha256(m.source_inventory_sha256.as_str()) {
        return Err(invalid_manifest_text("source_inventory_sha256 invalid"));
    }
    if m.output_sample_rate != 44100 {
        return Err(invalid_manifest_text("output_sample_rate must be 44100"));
    }
    let count = m.loops.len();
    if count < 2 || count > 16 {
        let mut message = String::from_str("loop count ");
        push_decimal(&mut message, count as u64);
        message.append(" outside [2, 16]");
        return Err(invalid_manifest(message));
    }
    if !m.coverage_valid {
        return Err(invalid_manifest_text("coverage range invalid"));
    }
    Ok(())
}

/// Is `id` among the identifiers of the first `upto` loops?
fn loop_id_seen(loops: &Vec<LoopFacts>, upto: usize, id: &str) -> (r: bool)
    requires
        upto <= loops@.len(),
    ensures
        r == loop_ids(loops@).take(upto as int).contains(id@),
{
    let ghost ids = loop_ids(loops@).take(upto as int);
    let mut k: usize = 0;
    while k < upto
        invariant
            upto <= loops@.len(),
            ids == loop_ids(loops@).take(upto as int),
            k <= upto,
            forall|j: int| 0 <= j < k ==> ids[j] != id@,
        decreases upto - k,
    {
        if str_eq(loops[k].id.as_str(), id) {
            assert(ids[k as int] == id@);
            return true;
        }
        k = k + 1;
    }
    false
}

fn event_id_seen(events: &Vec<EventFacts>, upto: usize, id: &str) -> (r: bool)
    requires
        upto <= events@.len(),
    ensures
        r == event_ids(events@).take(upto as int).contains(id@),
{
    let ghost ids = event_ids(events@).take(upto as int);
    let mut k: usize = 0;
    while k < upto
        invariant
            upto <= events@.len(),
            ids == event_ids(events@).take(upto as int),
            k <= upto,
            forall|j: int| 0 <= j < k ==> ids[j] != id@,
        decreases upto - k,
    {
        if str_eq(events[k].id.as_str(), id) {
            assert(ids[k as int] == id@);
            return true;
        }
        k = k + 1;
    }
    false
}

fn group_id_seen(groups: &Vec<GroupFacts>, upto: usize, id: &str) -> (r: bool)
    requires
        upto <= groups@.len(),
    ensures
        r == group_ids(groups@).take(upto as int).contains(id@),
{
    let ghost ids = group_ids(groups@).take(upto as int);
    let mut k: usize = 0;
    while k < upto
        invariant
            upto <= groups@.len(),
            ids == group_ids(groups@).take(upto as int),
            k <= upto,
            forall|j: int| 0 <= j < k ==> ids[j] != id@,
        decreases upto - k,
    {
        if str_eq(groups[k].id.as_str(), id) {
            assert(ids[k as int] == id@);
            return true;
        }
        k = k + 1;
    }
    false
}

fn check_loop_before_coverage(loops: &Vec<LoopFacts>, i: usize) -> (r: Result<(), GrandPrixBankError>)
    requires
        i < loops@.len(),
    ensures
        reports_fault(r, loop_fault_before_coverage(loops@, i as int)),
{
    let l = &loops[i];
    let id = l.id.as_str();
    if !str_eq(l.role.as_str(), "engine_loop") {
        return Err(invalid_asset_text(id, "loop role must be engine_loop"));
    }
    if loop_id_seen(loops, i, id) {
        return Err(invalid_asset_text(id, "duplicate loop id"));
    }
    if !is_hex_sha256(l.derived_sha256.as_str()) || !is_hex_sha256(l.source_sha256.as_str()) {
        return Err(invalid_asset_text(id, "sha256 fields invalid"));
    }
    if !l.reference_positive {
        return Err(invalid_asset_text(id, "reference rpm must be positive and finite"));
    }
    if !l.reference_ascending {
        return Err(invalid_asset_text(id, "loop references must be strictly ascending"));
    }
    if !l.gain_valid {
        return Err(invalid_asset_text(id, "calibrated_gain must be finite and positive"));
    }
    if !l.playback_rates_valid {
        return Err(invalid_asset_text(id, "playback rate bounds invalid"));
    }
    if l.loop_start_frame >= l.loop_end_frame_exclusive || l.loop_end_frame_exclusive > l.derived_frames {
        return Err(invalid_asset_text(id, "loop bounds invalid"));
    }
    let length = l.loop_end_frame_exclusive - l.loop_start_frame;
    let fade = l.loop_crossfade_frames;
    assert((fade * 4 > length) == (fade > length / 4)) by (nonlinear_arith);
    if fade == 0 || fade > length / 4 {
        return Err(invalid_asset_text(id, "loop crossfade invalid"));
    }
    Ok(())
}

fn check_loop_after_coverage(loops: &Vec<LoopFacts>, i: usize) -> (r: Result<(), GrandPrixBankError>)
    requires
        i < loops@.len(),
    ensures
        reports_fault(r, loop_fault_after_coverage(loops@, i as int)),
{
    let l = &loops[i];
    let id = l.id.as_str();
    if !l.coverage_within_rates {
        return Err(invalid_asset_text(id, "active coverage exceeds declared playback rate bounds"));
    }
    if i == 0 && !l.reaches_minimum {
        return Err(invalid_asset_text(id, "first loop does not reach minimum coverage"));
    }
    if i == loops.len() - 1 && !l.reaches_maximum {
        return Err(invalid_asset_text(id, "last loop does not reach maximum coverage"));
    }
    Ok(())
}

/// Does checking the loops reach the coverage of a loop whose neighbouring
/// transition does not exist, before any of them has failed?
fn loops_reach_missing_transition(loops: &Vec<LoopFacts>) -> (r: bool)
    ensures
        r == loops_outcome(loops@, 0).0,
{
    let n = loops.len();
    let mut i: usize = 0;
    while i < n
        invariant
            n == loops@.len(),
            i <= n,
            loops_outcome(loops@, 0) == loops_outcome(loops@, i as int),
        decreases n - i,
    {
        if check_loop_before_coverage(loops, i).is_err() {
            return false;
        }
        match loops[i].coverage_agrees {
            None => {
                return true;
            },
            Some(agrees) => {
                if !agrees {
                    return false;
                }
            },
        }
        if check_loop_after_coverage(loops, i).is_err() {
            return false;
        }
        i = i + 1;
    }
    false
}

fn check_loops(loops: &Vec<LoopFacts>) -> (r: Result<(), GrandPrixBankError>)
    requires
        !loops_outcome(loops@, 0).0,
    ensures
        reports_fault(r, loops_outcome(loops@, 0).1),
{
    let n = loops.len();
    let mut i: usize = 0;
    while i < n
        invariant
            n == loops@.len(),
            i <= n,
            loops_outcome(loops@, 0) == loops_outcome(loops@, i as int),
            !loops_outcome(loops@, 0).0,
        decreases n - i,
    {
        let before = check_loop_before_coverage(loops, i);
        if before.is_err() {
            return before;
        }
        match loops[i].coverage_agrees {
            None => {
                assert(false);
            },
            Some(agrees) => {
                if !agrees {
                    return Err(invalid_asset_text(loops[i].id.as_str(), "active coverage disagrees with transitions"));
                }
            },
        }
        let after = check_loop_after_coverage(loops, i);
        if after.is_err() {
            return after;
        }
        i = i + 1;
    }
    Ok(())
}

fn check_transition(m: &ManifestFacts, i: usize) -> (r: Result<(), GrandPrixBankError>)
    requires
        i < m.transitions@.len(),
        i + 1 < m.loops@.len(),
    ensures
        reports_fault(r, transition_fault_at(*m, i as int)),
{
    let t = &m.transitions[i];
    let loop_count = m.loops.len();
    if !str_eq(t.from_loop_id.as_str(), m.loops[i].id.as_str())
        || !str_eq(t.to_loop_id.as_str(), m.loops[i + 1].id.as_str()) {
        return Err(invalid_manifest_text("transition endpoints do not match loop order"));
    }
    if !t.window_valid {
        return Err(invalid_manifest_text("transition window invalid"));
    }
    if !str_eq(t.blend_law.as_str(), "smoothstep") || !str_eq(t.gain_law.as_str(), "equal_power") {
        return Err(invalid_manifest_text("unsupported blend or gain law"));
    }
    if i > 0 && !t.follows_previous {
        return Err(invalid_manifest_text("transition windows overlap"));
    }
    Ok(())
}

fn check_transitions(m: &ManifestFacts) -> (r: Result<(), GrandPrixBankError>)
    requires
        m.loops@.len() >= 1,
    ensures
        reports_fault(r, transitions_fault(*m)),
{
    let n = m.transitions.len();
    if n != m.loops.len() - 1 {
        return Err(invalid_manifest_text("transition count does not match loop count"));
    }
    let mut i: usize = 0;
    while i < n
        invariant
            n == m.transitions@.len(),
            n == m.loops@.len() - 1,
            i <= n,
            transitions_fault_from(*m, 0) == transitions_fault_from(*m, i as int),
        decreases n - i,
    {
        let step = check_transition(m, i);
        if step.is_err() {
            return step;
        }
        i = i + 1;
    }
    if !m.transitions_within_coverage {
        return Err(invalid_manifest_text("transitions exceed declared coverage"));
    }
    Ok(())
}

fn check_event(events: &Vec<EventFacts>, i: usize) -> (r: Result<(), GrandPrixBankError>)
    requires
        i < events@.len(),
    ensures
        reports_fault(r, event_fault_at(events@, i as int)),
{
    let e = &events[i];
    let id = e.id.as_str();
    if event_id_seen(events, i, id) {
        return Err(invalid_asset_text(id, "duplicate event id"));
    }
    match GrandPrixEventRole::from_role_name(e.role.as_str()) {
        Err(err) => {
            return Err(err);
        },
        Ok(_) => {},
    }
    if !is_hex_sha256(e.derived_sha256.as_str()) || !is_hex_sha256(e.source_sha256.as_str()) {
        return Err(invalid_asset_text(id, "sha256 fields invalid"));
    }
    if e.derived_frames == 0 || !e.duration_positive {
        return Err(invalid_asset_text(id, "event duration invalid"));
    }
    Ok(())
}

fn check_events(events: &Vec<EventFacts>) -> (r: Result<(), GrandPrixBankError>)
    ensures
        reports_fault(r, events_fault_from(events@, 0)),
{
    let n = events.len();
    let mut i: usize = 0;
    while i < n
        invariant
            n == events@.len(),
            i <= n,
            events_fault_from(events@, 0) == events_fault_from(events@, i as int),
        decreases n - i,
    {
        let step = check_event(events, i);
        if step.is_err() {
            return step;
        }
        i = i + 1;
    }
    Ok(())
}

/// The role of the last event named `id`, as `role_of_event` gives it.
fn event_role(events: &Vec<EventFacts>, id: &str) -> (r: Option<GrandPrixEventRole>)
    ensures
        r == role_of_event(events@, id@),
{
    let mut k: usize = events.len();
    assert(events@.take(k as int) =~= events@);
    while k > 0
        invariant
            k <= events@.len(),
            role_of_event(events@, id@) == role_of_event(events@.take(k as int), id@),
        decreases k,
    {
        let ghost prefix = events@.take(k as int);
        assert(prefix.drop_last() =~= events@.take(k - 1));
        if str_eq(events[k - 1].id.as_str(), id) {
            return match GrandPrixEventRole::from_role_name(events[k - 1].role.as_str()) {
                Ok(role) => Some(role),
                Err(_) => None,
            };
        }
        k = k - 1;
    }
    None
}

fn same_role(a: Option<GrandPrixEventRole>, b: GrandPrixEventRole) -> (r: bool)
    ensures
        r == (a == Some(b)),
{
    match a {
        None => false,
        Some(x) => x == b,
    }
}

fn check_variant(events: &Vec<EventFacts>, g: &GroupFacts, group_role: GrandPrixEventRole, j: usize) -> (r: Result<(), GrandPrixBankError>)
    requires
        j < g.variants@.len(),
        role_named(g.role@) == Some(group_role),
    ensures
        reports_fault(r, variant_fault_at(events@, *g, j as int)),
{
    let v = &g.variants[j];
    let asset = v.asset_id.as_str();
    let mut seen = false;
    let n = events.len();
    let mut k: usize = 0;
    while k < n
        invariant
            n == events@.len(),
            k <= n,
            seen == event_ids(events@).take(k as int).contains(asset@),
        decreases n - k,
    {
        let ghost before = event_ids(events@).take(k as int);
        let ghost after = event_ids(events@).take(k + 1);
        assert(after =~= before.push(events@[k as int].id@));
        if str_eq(events[k].id.as_str(), asset) {
            seen = true;
            assert(after[k as int] == asset@);
        } else {
            assert(after.contains(asset@) == before.contains(asset@)) by {
                if after.contains(asset@) {
                    let w = choose|w: int| 0 <= w < after.len() && after[w] == asset@;
                    assert(before[w] == asset@);
                }
                if before.contains(asset@) {
                    let w = choose|w: int| 0 <= w < before.len() && before[w] == asset@;
                    assert(after[w] == asset@);
                }
            }
        }
        k = k + 1;
    }
    assert(event_ids(events@).take(n as int) =~= event_ids(events@));
    if !seen {
        let mut reason = String::from_str("unknown variant asset ");
        reason.append(asset);
        return Err(GrandPrixBankError::InvalidAsset(g.id.clone(), reason));
    }
    if !same_role(event_role(events, asset), group_role) {
        let mut reason = String::from_str("variant ");
        reason.append(asset);
        reason.append(" role mismatch");
        return Err(GrandPrixBankError::InvalidAsset(g.id.clone(), reason));
    }
    if !v.gain_valid {
        return Err(invalid_asset_text(g.id.as_str(), "variant gain invalid"));
    }
    if !v.pitch_reference_valid {
        return Err(invalid_asset_text(g.id.as_str(), "variant pitch reference invalid"));
    }
    Ok(())
}

fn check_group(events: &Vec<EventFacts>, groups: &Vec<GroupFacts>, i: usize) -> (r: Result<(), GrandPrixBankError>)
    requires
        i < groups@.len(),
    ensures
        reports_fault(r, group_fault_at(events@, groups@, i as int)),
{
    let g = &groups[i];
    let id = g.id.as_str();
    if group_id_seen(groups, i, id) {
        return Err(invalid_asset_text(id, "duplicate event group id"));
    }
    let group_role = match GrandPrixEventRole::from_role_name(g.role.as_str()) {
        Err(err) => {
            return Err(err);
        },
        Ok(role) => role,
    };
    match GrandPrixSelection::from_selection_name(g.selection.as_str()) {
        Err(err) => {
            return Err(err);
        },
        Ok(_) => {},
    }
    match GrandPrixTriggerEvent::from_trigger_name(g.trigger_event.as_str()) {
        Err(err) => {
            return Err(err);
        },
        Ok(_) => {},
    }
    if g.voice_limit == 0 || g.voice_limit > 8 {
        return Err(invalid_asset_text(id, "voice_limit must be within 1..=8"));
    }
    if !g.timing_valid {
        return Err(invalid_asset_text(id, "group timing invalid"));
    }
    let n = g.variants.len();
    if n == 0 {
        return Err(invalid_asset_text(id, "group has no variants"));
    }
    let mut j: usize = 0;
    assert(group_fault_at(events@, groups@, i as int) == variants_fault_from(events@, *g, 0));
    while j < n
        invariant
            n == g.variants@.len(),
            j <= n,
            role_named(g.role@) == Some(group_role),
            group_fault_at(events@, groups@, i as int) == variants_fault_from(events@, *g, 0),
            variants_fault_from(events@, *g, 0) == variants_fault_from(events@, *g, j as int),
        decreases n - j,
    {
        let step = check_variant(events, g, group_role, j);
        if step.is_err() {
            return step;
        }
        j = j + 1;
    }
    Ok(())
}

fn check_groups(events: &Vec<EventFacts>, groups: &Vec<GroupFacts>) -> (r: Result<(), GrandPrixBankError>)
    ensures
        reports_fault(r, groups_fault_from(events@, groups@, 0)),
{
    let n = groups.len();
    let mut i: usize = 0;
    while i < n
        invariant
            n == groups@.len(),
            i <= n,
            groups_fault_from(events@, groups@, 0) == groups_fault_from(events@, groups@, i as int),
        decreases n - i,
    {
        let step = check_group(events, groups, i);
        if step.is_err() {
            return step;
        }
        i = i + 1;
    }
    Ok(())
}

impl ManifestFacts {
    /// Does checking this manifest reach the coverage of a loop whose
    /// neighbouring transition does not exist, before any rule has failed?
    /// Such a manifest cannot be checked.
    pub fn reaches_missing_transition(&self) -> (r: bool)
        ensures
            r == validation_reaches_missing_transition(*self),
    {
        check_header(self).is_ok() && loops_reach_missing_transition(&self.loops)
    }

    /// Checks the manifest's rules in order; the first rule broken decides
    /// the error.
    pub fn validate(&self) -> (r: Result<(), GrandPrixBankError>)
        requires
            !validation_reaches_missing_transition(*self),
        ensures
            reports_fault(r, validation_fault(*self)),
    {
        let header = check_header(self);
        if header.is_err() {
            return header;
        }
        let loops = check_loops(&self.loops);
        if loops.is_err() {
            return loops;
        }
        let transitions = check_transitions(self);
        if transitions.is_err() {
            return transitions;
        }
        let events = check_events(&self.events);
        if events.is_err() {
            return events;
        }
        let groups = check_groups(&self.events, &self.groups);
        if groups.is_err() {
            return groups;
        }
        if !self.lift_edge_valid {
            return Err(invalid_manifest_text("lift edge policy invalid"));
        }
        if !self.limiter_edge_valid {
            return Err(invalid_manifest_text("limiter edge policy invalid"));
        }
        Ok(())
    }
}

/// Checks one Grand Prix asset held in memory: its SHA-256 must be the
/// declared one, and it must be an accepted WAVE file.
pub fn check_grand_prix_asset(filename: &str, expected_sha256: &str, bytes: &[u8], labels: &AssetLabels) -> (r: Result<Vec<i16>, GrandPrixBankError>)
    ensures
        if hex_lower(sha256(bytes@)) != expected_sha256@ {
            r is Err && (r->Err_0 matches GrandPrixBankError::Sha256Mismatch(f) && f@ == filename@)
        } else {
            match wav_mono16(bytes@) {
                Ok(pcm) => r is Ok && r->Ok_0@ == pcm,
                Err(e) => r is Err && (r->Err_0 matches GrandPrixBankError::Decode(f, t)
                    && f@ == filename@ && t@ == refusal_text(wav_refusal(e, *labels))),
            }
        },
{
    let actual = sha256_hex(bytes);
    if !str_eq(actual.as_str(), expected_sha256) {
        return Err(GrandPrixBankError::Sha256Mismatch(String::from_str(filename)));
    }
    match parse_wav_mono16(bytes) {
        Ok(pcm) => Ok(pcm),
        Err(e) => Err(GrandPrixBankError::Decode(String::from_str(filename), wav_refusal_text(e, labels))),
    }
}

/// A decoded asset must have exactly the number of frames its manifest
/// entry declares.
pub fn check_decoded_frames(id: &str, decoded: usize, declared: u64) -> (r: Result<(), GrandPrixBankError>)
    ensures
        decoded == declared <==> r is Ok,
        r is Err ==> is_invalid_asset(
            r->Err_0,
            id@,
            "decoded "@ + decimal(decoded as nat) + " frames but manifest declares "@ + decimal(declared as nat),
        ),
{
    if decoded as u64 == declared {
        return Ok(());
    }
    let mut reason = String::from_str("decoded ");
    push_decimal(&mut reason, decoded as u64);
    reason.append(" frames but manifest declares ");
    push_decimal(&mut reason, declared);
    Err(GrandPrixBankError::InvalidAsset(String::from_str(id), reason))
}

} // verus!

//! Bank keys of the one-shot triggers and the surface beds.
//!
//! The floating-point mix (band weights, gains, pitch scales) lives in the
//! application layer; this module holds the key tables that every consumer of
//! the bank shares.

use vstd::prelude::*;
use crate::text::str_eq;

verus! {

/// Five engine bands, in increasing RPM order. Keys match the v10_vehicle bank.
pub const ENGINE_BAND_KEYS: [&'static str; 5] = [
    "engine_idle",
    "engine_low",
    "engine_mid",
    "engine_high",
    "engine_redline",
];

/// Loop-wrap crossfade in samples (~11.6 ms @ 44.1 kHz).
pub const LOOP_XFADE: usize = 512;

/// Surface tokens. Asphalt intentionally has no tire bed (engine only).
pub const SURFACE_ASPHALT: &'static str = "asphalt";
pub const SURFACE_SAND: &'static str = "sand";
pub const SURFACE_GRASS: &'static str = "grass";
pub const SURFACE_RUMBLE: &'static str = "rumble";

/// One-shot trigger kinds mapped to bank keys (no wind, no ambient).
#[derive(Debug, Clone, Copy, PartialEq, Eq, Structural)]
pub enum Trigger {
    ShiftUp,
    ShiftDown,
    Backfire,
    Hit1,
    Hit2,
    Hit3,
    Hit4,
    Barrier,
    Cone,
    Fire,
    Scrape,
}

/// The bank key of each trigger.
pub open spec fn trigger_key(t: Trigger) -> Seq<char> {
    match t {
        Trigger::ShiftUp => "shift_up"@,
        Trigger::ShiftDown => "shift_down"@,
        Trigger::Backfire => "engine_backfire"@,
        Trigger::Hit1 => "impact_hit_1"@,
        Trigger::Hit2 => "impact_hit_2"@,
        Trigger::Hit3 => "impact_hit_3"@,
        Trigger::Hit4 => "impact_hit_4"@,
        Trigger::Barrier => "impact_barrier"@,
        Trigger::Cone => "impact_cone"@,
        Trigger::Fire => "impact_fire"@,
        Trigger::Scrape => "impact_scrape"@,
    }
}

/// The trigger of each code of the C interface:
/// 0 ShiftUp, 1 ShiftDown, 2 Backfire, 3..6 Hit1..4, 7 Barrier, 8 Cone, 9 Fire, 10 Scrape.
pub open spec fn trigger_of_code(code: int) -> Option<Trigger> {
    if code == 0 { Some(Trigger::ShiftUp) }
    else if code == 1 { Some(Trigger::ShiftDown) }
    else if code == 2 { Some(Trigger::Backfire) }
    else if code == 3 { Some(Trigger::Hit1) }
    else if code == 4 { Some(Trigger::Hit2) }
    else if code == 5 { Some(Trigger::Hit3) }
    else if code == 6 { Some(Trigger::Hit4) }
    else if code == 7 { Some(Trigger::Barrier) }
    else if code == 8 { Some(Trigger::Cone) }
    else if code == 9 { Some(Trigger::Fire) }
    else if code == 10 { Some(Trigger::Scrape) }
    else { None }
}

/// The trigger codes of the C interface: 0 shift up, 1 shift down, 2
/// backfire, 3 to 6 the four hits, 7 barrier, 8 cone, 9 fire, 10 scrape; no
/// other code names a trigger.
pub proof fn lemma_trigger_codes(code: int)
    ensures
        trigger_of_code(0) == Some(Trigger::ShiftUp),
        trigger_of_code(1) == Some(Trigger::ShiftDown),
        trigger_of_code(2) == Some(Trigger::Backfire),
        trigger_of_code(3) == Some(Trigger::Hit1),
        trigger_of_code(4) == Some(Trigger::Hit2),
        trigger_of_code(5) == Some(Trigger::Hit3),
        trigger_of_code(6) == Some(Trigger::Hit4),
        trigger_of_code(7) == Some(Trigger::Barrier),
        trigger_of_code(8) == Some(Trigger::Cone),
        trigger_of_code(9) == Some(Trigger::Fire),
        trigger_of_code(10) == Some(Trigger::Scrape),
        code < 0 || code > 10 ==> trigger_of_code(code) is None,
        trigger_of_code(code) is Some ==> 0 <= code <= 10,
{
}

/// The bank key that each code of the C interface plays: 0 `shift_up`, 1
/// `shift_down`, 2 `engine_backfire`, 3 to 6 `impact_hit_1` to `impact_hit_4`,
/// 7 `impact_barrier`, 8 `impact_cone`, 9 `impact_fire`, 10 `impact_scrape`.
pub proof fn lemma_code_keys()
    ensures
        trigger_key(trigger_of_code(0)->0) == "shift_up"@,
        trigger_key(trigger_of_code(1)->0) == "shift_down"@,
        trigger_key(trigger_of_code(2)->0) == "engine_backfire"@,
        trigger_key(trigger_of_code(3)->0) == "impact_hit_1"@,
        trigger_key(trigger_of_code(4)->0) == "impact_hit_2"@,
        trigger_key(trigger_of_code(5)->0) == "impact_hit_3"@,
        trigger_key(trigger_of_code(6)->0) == "impact_hit_4"@,
        trigger_key(trigger_of_code(7)->0) == "impact_barrier"@,
        trigger_key(trigger_of_code(8)->0) == "impact_cone"@,
        trigger_key(trigger_of_code(9)->0) == "impact_fire"@,
        trigger_key(trigger_of_code(10)->0) == "impact_scrape"@,
{
}

/// The surface bed key of a surface token; asphalt and unknown tokens have none.
pub open spec fn surface_bed_key(surface: Seq<char>) -> Option<Seq<char>> {
    if surface == "sand"@ {
        Some("surf_sand"@)
    } else if surface == "grass"@ {
        Some("surf_grass"@)
    } else if surface == "rumble"@ {
        Some("surf_rumble"@)
    } else {
        None
    }
}

impl Trigger {
    /// The bank key that this trigger plays.
    pub fn bank_key(self) -> (r: &'static str)
        ensures
            r@ == trigger_key(self),
    {
        match self {
            Trigger::ShiftUp => "shift_up",
            Trigger::ShiftDown => "shift_down",
            Trigger::Backfire => "engine_backfire",
            Trigger::Hit1 => "impact_hit_1",
            Trigger::Hit2 => "impact_hit_2",
            Trigger::Hit3 => "impact_hit_3",
            Trigger::Hit4 => "impact_hit_4",
            Trigger::Barrier => "impact_barrier",
            Trigger::Cone => "impact_cone",
            Trigger::Fire => "impact_fire",
            Trigger::Scrape => "impact_scrape",
        }
    }

    /// The trigger that an integer code of the C interface names, if any.
    pub fn from_code(code: i32) -> (r: Option<Trigger>)
        ensures
            r == trigger_of_code(code as int),
    {
        match code {
            0 => Some(Trigger::ShiftUp),
            1 => Some(Trigger::ShiftDown),
            2 => Some(Trigger::Backfire),
            3 => Some(Trigger::Hit1),
            4 => Some(Trigger::Hit2),
            5 => Some(Trigger::Hit3),
            6 => Some(Trigger::Hit4),
            7 => Some(Trigger::Barrier),
            8 => Some(Trigger::Cone),
            9 => Some(Trigger::Fire),
            10 => Some(Trigger::Scrape),
            _ => None,
        }
    }
}

/// Resolve a surface token to a bank bed key (asphalt and unknown tokens -> None).
pub fn surface_key(surface: &str) -> (r: Option<&'static str>)
    ensures
        match r {
            Some(k) => surface_bed_key(surface@) == Some(k@),
            None => surface_bed_key(surface@).is_none(),
        },
{
    proof {
        reveal_strlit("asphalt");
        reveal_strlit("sand");
        reveal_strlit("grass");
        reveal_strlit("rumble");
        assert("asphalt"@[0] != "sand"@[0]);
        assert("asphalt"@[0] != "grass"@[0]);
        assert("asphalt"@[0] != "rumble"@[0]);
    }
    if str_eq(surface, "asphalt") {
        None
    } else if str_eq(surface, "sand") {
        Some("surf_sand")
    } else if str_eq(surface, "grass") {
        Some("surf_grass")
    } else if str_eq(surface, "rumble") {
        Some("surf_rumble")
    } else {
        None
    }
}

} // verus!

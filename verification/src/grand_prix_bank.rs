//! Names and errors of the Grand Prix sample bank manifest.

use vstd::prelude::*;
use vstd::string::*;
use crate::text::str_eq;

verus! {

pub const GRAND_PRIX_SAMPLE_RATE: u32 = 44100;
pub const GRAND_PRIX_SCHEMA_VERSION: u64 = 1;
pub const GRAND_PRIX_MINIMUM_LOOP_COUNT: usize = 2;
pub const GRAND_PRIX_MAXIMUM_LOOP_COUNT: usize = 16;

#[verifier::external_type_specification]
#[verifier::external_body]
pub struct ExPathBuf(std::path::PathBuf);

#[verifier::external_type_specification]
#[verifier::external_body]
pub struct ExIoError(std::io::Error);

/// Why a Grand Prix bank cannot be loaded.
#[derive(Debug)]
pub enum GrandPrixBankError {
    MissingDirectory(std::path::PathBuf),
    MissingManifest(std::path::PathBuf),
    Io(std::io::Error),
    InvalidManifest(String),
    Sha256Mismatch(String),
    InvalidAsset(String, String),
    Decode(String, String),
}

#[derive(Debug, Clone, Copy, PartialEq, Eq, Structural)]
pub enum GrandPrixEventRole {
    GearboxUpshift,
    GearboxDownshift,
    LiftBackfire,
    LimiterEvent,
}

#[derive(Debug, Clone, Copy, PartialEq, Eq, Structural)]
pub enum GrandPrixSelection {
    SingleVariant,
    SeededCycle,
    SeededNoImmediateRepeat,
}

#[derive(Debug, Clone, Copy, PartialEq, Eq, Structural)]
pub enum GrandPrixTriggerEvent {
    UpshiftCutEntry,
    DownshiftCutEntry,
    LiftEdge,
    LimiterEntryEdge,
}

/// A decoded event asset.
#[derive(Debug, Clone)]
pub struct GrandPrixDecodedEvent {
    pub id: String,
    pub role: GrandPrixEventRole,
    pub pcm: Vec<i16>,
}

/// The role that a manifest role name denotes.
pub open spec fn role_named(name: Seq<char>) -> Option<GrandPrixEventRole> {
    if name == "gearbox_upshift"@ {
        Some(GrandPrixEventRole::GearboxUpshift)
    } else if name == "gearbox_downshift"@ {
        Some(GrandPrixEventRole::GearboxDownshift)
    } else if name == "lift_backfire"@ {
        Some(GrandPrixEventRole::LiftBackfire)
    } else if name == "limiter_event"@ {
        Some(GrandPrixEventRole::LimiterEvent)
    } else {
        None
    }
}

/// The selection policy that a manifest selection name denotes.
pub open spec fn selection_named(name: Seq<char>) -> Option<GrandPrixSelection> {
    if name == "single_variant"@ {
        Some(GrandPrixSelection::SingleVariant)
    } else if name == "seeded_cycle"@ {
        Some(GrandPrixSelection::SeededCycle)
    } else if name == "seeded_no_immediate_repeat"@ {
        Some(GrandPrixSelection::SeededNoImmediateRepeat)
    } else {
        None
    }
}

/// The trigger that a manifest trigger name denotes.
pub open spec fn trigger_named(name: Seq<char>) -> Option<GrandPrixTriggerEvent> {
    if name == "upshift_cut_entry"@ {
        Some(GrandPrixTriggerEvent::UpshiftCutEntry)
    } else if name == "downshift_cut_entry"@ {
        Some(GrandPrixTriggerEvent::DownshiftCutEntry)
    } else if name == "lift_edge"@ {
        Some(GrandPrixTriggerEvent::LiftEdge)
    } else if name == "limiter_entry_edge"@ {
        Some(GrandPrixTriggerEvent::LimiterEntryEdge)
    } else {
        None
    }
}

/// `InvalidAsset(name, reason)`, as plain text.
pub open spec fn is_invalid_asset(e: GrandPrixBankError, name: Seq<char>, reason: Seq<char>) -> bool {
    match e {
        GrandPrixBankError::InvalidAsset(n, r) => n@ == name && r@ == reason,
        _ => false,
    }
}

fn invalid_asset(name: &str, reason: &str) -> (e: GrandPrixBankError)
    ensures
        is_invalid_asset(e, name@, reason@),
{
    GrandPrixBankError::InvalidAsset(String::from_str(name), String::from_str(reason))
}

impl GrandPrixEventRole {
    pub fn from_role_name(name: &str) -> (r: Result<Self, GrandPrixBankError>)
        ensures
            match r {
                Ok(role) => role_named(name@) == Some(role),
                Err(e) => role_named(name@).is_none() && is_invalid_asset(e, name@, "unknown event role"@),
            },
    {
        if str_eq(name, "gearbox_upshift") {
            Ok(Self::GearboxUpshift)
        } else if str_eq(name, "gearbox_downshift") {
            Ok(Self::GearboxDownshift)
        } else if str_eq(name, "lift_backfire") {
            Ok(Self::LiftBackfire)
        } else if str_eq(name, "limiter_event") {
            Ok(Self::LimiterEvent)
        } else {
            Err(invalid_asset(name, "unknown event role"))
        }
    }
}

impl GrandPrixSelection {
    pub fn from_selection_name(name: &str) -> (r: Result<Self, GrandPrixBankError>)
        ensures
            match r {
                Ok(selection) => selection_named(name@) == Some(selection),
                Err(e) => selection_named(name@).is_none() && is_invalid_asset(e, name@, "unknown selection policy"@),
            },
    {
        if str_eq(name, "single_variant") {
            Ok(Self::SingleVariant)
        } else if str_eq(name, "seeded_cycle") {
            Ok(Self::SeededCycle)
        } else if str_eq(name, "seeded_no_immediate_repeat") {
            Ok(Self::SeededNoImmediateRepeat)
        } else {
            Err(invalid_asset(name, "unknown selection policy"))
        }
    }
}

impl GrandPrixTriggerEvent {
    pub fn from_trigger_name(name: &str) -> (r: Result<Self, GrandPrixBankError>)
        ensures
            match r {
                Ok(trigger) => trigger_named(name@) == Some(trigger),
                Err(e) => trigger_named(name@).is_none() && is_invalid_asset(e, name@, "unknown trigger event"@),
            },
    {
        if str_eq(name, "upshift_cut_entry") {
            Ok(Self::UpshiftCutEntry)
        } else if str_eq(name, "downshift_cut_entry") {
            Ok(Self::DownshiftCutEntry)
        } else if str_eq(name, "lift_edge") {
            Ok(Self::LiftEdge)
        } else if str_eq(name, "limiter_entry_edge") {
            Ok(Self::LimiterEntryEdge)
        } else {
            Err(invalid_asset(name, "unknown trigger event"))
        }
    }
}

} // verus!

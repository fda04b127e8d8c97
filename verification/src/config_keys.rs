//! The structure of a mixer configuration document: a JSON value as the
//! structural rules read it, the warnings for keys the schema does not know,
//! the schema version it declares, and the order in which sounds are
//! resolved.

use vstd::prelude::*;
use vstd::string::*;
use crate::config::ConfigDiagnostic;
use crate::powertrain::{diag_text, lemma_concat_contains};
use crate::text::{hex_lower, str_eq};
use crate::digest::{sha256, sha256_hex};

verus! {

/// A JSON value. A number keeps its value when it is a non-negative integer
/// that fits in 64 bits, and its text as the JSON reader prints it; an object
/// keeps its members in the order the reader gives them.
#[derive(Debug)]
pub enum JsonValue {
    Null,
    Bool(bool),
    Number(Option<u64>, String),
    Text(String),
    Array(Vec<JsonValue>),
    Object(Vec<(String, JsonValue)>),
}

/// The value type of the JSON reader.
#[verifier::external_type_specification]
#[verifier::external_body]
pub struct ExSerdeJsonValue(serde_json::Value);

/// What `serde_json::from_str` reads from a text as a `serde_json::Value`:
/// the value, or the displayed text of its error.
pub uninterp spec fn json_document(text: Seq<char>) -> Result<JsonValue, String>;

/// Reads `text` as a JSON document with `serde_json::from_str` into a
/// `serde_json::Value`. Trusted: the result, converted value for value (a
/// number as `as_u64` and its printed text, an object's members in the
/// order the reader's map yields them), or the error's displayed text, is
/// taken to be a function of the text alone; nothing more of it is stated.
#[verifier::external_body]
pub(crate) fn parse_json_document(text: &str) -> (r: Result<JsonValue, String>)
    ensures
        r == json_document(text@),
{
    match serde_json::from_str::<serde_json::Value>(text) {
        Ok(value) => Ok(json_value_from(&value)),
        Err(e) => Err(e.to_string()),
    }
}

/// Converts a `serde_json::Value` into a `JsonValue`, variant for variant.
#[verifier::external_body]
fn json_value_from(value: &serde_json::Value) -> JsonValue {
    match value {
        serde_json::Value::Null => JsonValue::Null,
        serde_json::Value::Bool(b) => JsonValue::Bool(*b),
        serde_json::Value::Number(n) => JsonValue::Number(n.as_u64(), n.to_string()),
        serde_json::Value::String(s) => JsonValue::Text(s.clone()),
        serde_json::Value::Array(items) => JsonValue::Array(items.iter().map(json_value_from).collect()),
        serde_json::Value::Object(map) => {
            JsonValue::Object(map.iter().map(|(k, v)| (k.clone(), json_value_from(v))).collect())
        },
    }
}

pub const ROOT_KEYS: [&'static str; 8] = [
    "schema_version",
    "gains",
    "defaults",
    "sounds",
    "reverb_buses",
    "exhaust",
    "master",
    "hot_reload",
];

pub const SOUND_KEYS: [&'static str; 5] = ["volume", "pan", "adsr", "eq", "reverb"];

pub const ADSR_KEYS: [&'static str; 6] = ["enabled", "attack_ms", "decay_ms", "sustain", "release_ms", "curve"];

pub const EQ_KEYS: [&'static str; 5] = ["enabled", "bands_db", "q", "output_db", "tube_color"];

pub const TUBE_COLOR_KEYS: [&'static str; 6] = ["enabled", "amount", "boost_link", "bias", "mix", "auto_gain"];

pub const REVERB_SEND_KEYS: [&'static str; 3] = ["enabled", "bus", "send_db"];

pub const REVERB_BUS_KEYS: [&'static str; 8] = [
    "enabled",
    "pre_delay_ms",
    "decay_s",
    "damping",
    "low_cut_hz",
    "high_cut_hz",
    "stereo_width",
    "wet_db",
];

pub const MASTER_KEYS: [&'static str; 3] = ["output_db", "limiter_threshold", "saturation"];

pub const HOT_RELOAD_KEYS: [&'static str; 3] = ["enabled", "poll_interval_ms", "transition_ms"];

pub const EXHAUST_KEYS: [&'static str; 5] = [
    "enabled",
    "base_gain",
    "throttle_sensitivity",
    "gas_flow_gain",
    "crackle_gain",
];

/// A list of names as character sequences.
pub open spec fn names(list: Seq<&'static str>) -> Seq<Seq<char>> {
    list.map_values(|s: &'static str| s@)
}

pub type Diag = (Seq<char>, Seq<char>);

/// The value of the first member named `key`.
pub open spec fn lookup(members: Seq<(String, JsonValue)>, key: Seq<char>) -> Option<JsonValue>
    decreases members.len(),
{
    if members.len() == 0 {
        None
    } else if members[0].0@ == key {
        Some(members[0].1)
    } else {
        lookup(members.drop_first(), key)
    }
}

/// The member `key` of `v`, when `v` is an object that has it.
pub open spec fn member(v: Option<JsonValue>, key: Seq<char>) -> Option<JsonValue> {
    match v {
        Some(JsonValue::Object(members)) => lookup(members@, key),
        _ => None,
    }
}

/// The members of `v`, when it is an object.
pub open spec fn members_of(v: Option<JsonValue>) -> Option<Seq<(String, JsonValue)>> {
    match v {
        Some(JsonValue::Object(members)) => Some(members@),
        _ => None,
    }
}

pub open spec fn unknown_key_diag(path: Seq<char>, key: Seq<char>) -> Diag {
    (path + "."@ + key, "unknown key ignored"@)
}

/// One warning per member whose name is not allowed, in document order.
pub open spec fn unknown_members(members: Seq<(String, JsonValue)>, allowed: Seq<Seq<char>>, path: Seq<char>) -> Seq<Diag>
    decreases members.len(),
{
    if members.len() == 0 {
        Seq::empty()
    } else if allowed.contains(members.last().0@) {
        unknown_members(members.drop_last(), allowed, path)
    } else {
        unknown_members(members.drop_last(), allowed, path).push(unknown_key_diag(path, members.last().0@))
    }
}

pub open spec fn check_members(object: Option<Seq<(String, JsonValue)>>, allowed: Seq<Seq<char>>, path: Seq<char>) -> Seq<Diag> {
    match object {
        None => Seq::empty(),
        Some(members) => unknown_members(members, allowed, path),
    }
}

/// The warnings for the envelope, EQ, tube colour and reverb send of a sound.
pub open spec fn sound_children(sound: Option<JsonValue>, path: Seq<char>) -> Seq<Diag> {
    if sound.is_none() {
        Seq::empty()
    } else {
        check_members(members_of(member(sound, "adsr"@)), names(ADSR_KEYS@), path + ".adsr"@)
            + check_members(members_of(member(sound, "eq"@)), names(EQ_KEYS@), path + ".eq"@)
            + check_members(
                members_of(member(member(sound, "eq"@), "tube_color"@)),
                names(TUBE_COLOR_KEYS@),
                path + ".eq.tube_color"@,
            )
            + check_members(members_of(member(sound, "reverb"@)), names(REVERB_SEND_KEYS@), path + ".reverb"@)
    }
}

/// The warnings of one sound: its own members and its children.
pub open spec fn sound_diags(key: Seq<char>, sound: JsonValue) -> Seq<Diag> {
    let path = "$.sounds."@ + key;
    check_members(members_of(Some(sound)), names(SOUND_KEYS@), path) + sound_children(Some(sound), path)
}

pub open spec fn sounds_diags(members: Seq<(String, JsonValue)>) -> Seq<Diag>
    decreases members.len(),
{
    if members.len() == 0 {
        Seq::empty()
    } else {
        sounds_diags(members.drop_last()) + sound_diags(members.last().0@, members.last().1)
    }
}

pub open spec fn buses_diags(members: Seq<(String, JsonValue)>) -> Seq<Diag>
    decreases members.len(),
{
    if members.len() == 0 {
        Seq::empty()
    } else {
        buses_diags(members.drop_last()) + check_members(
            members_of(Some(members.last().1)),
            names(REVERB_BUS_KEYS@),
            "$.reverb_buses."@ + members.last().0@,
        )
    }
}

/// The schema version a document declares, when it is a non-negative integer.
pub open spec fn declared_version(v: JsonValue) -> Option<u64> {
    match member(Some(v), "schema_version"@) {
        Some(JsonValue::Number(n, _)) => n,
        _ => None,
    }
}

pub open spec fn sounds_section_diags(v: JsonValue) -> Seq<Diag> {
    match members_of(member(Some(v), "sounds"@)) {
        Some(members) => sounds_diags(members),
        None => Seq::empty(),
    }
}

pub open spec fn buses_section_diags(v: JsonValue) -> Seq<Diag> {
    match members_of(member(Some(v), "reverb_buses"@)) {
        Some(members) => buses_diags(members),
        None => Seq::empty(),
    }
}

pub open spec fn defaults_section_diags(v: JsonValue) -> Seq<Diag> {
    check_members(members_of(member(Some(v), "defaults"@)), names(SOUND_KEYS@), "$.defaults"@)
        + sound_children(member(Some(v), "defaults"@), "$.defaults"@)
}

pub open spec fn tail_sections_diags(v: JsonValue) -> Seq<Diag> {
    check_members(members_of(member(Some(v), "master"@)), names(MASTER_KEYS@), "$.master"@)
        + check_members(members_of(member(Some(v), "hot_reload"@)), names(HOT_RELOAD_KEYS@), "$.hot_reload"@)
        + check_members(members_of(member(Some(v), "exhaust"@)), names(EXHAUST_KEYS@), "$.exhaust"@)
}

/// The unknown-key warnings of a document: the top level always, and the
/// sections of the second schema when the document declares it.
pub open spec fn unknown_key_diags(v: JsonValue) -> Seq<Diag> {
    let top = check_members(members_of(Some(v)), names(ROOT_KEYS@), "$"@);
    if declared_version(v) != Some(2u64) {
        top
    } else {
        top + defaults_section_diags(v) + sounds_section_diags(v) + buses_section_diags(v)
            + tail_sections_diags(v)
    }
}

pub open spec fn diags_of(d: Seq<ConfigDiagnostic>) -> Seq<Diag> {
    d.map_values(|x: ConfigDiagnostic| diag_text(x))
}

pub open spec fn opt_value(v: Option<&JsonValue>) -> Option<JsonValue> {
    match v {
        Some(x) => Some(*x),
        None => None,
    }
}

/// The member `key` of `v`, when `v` is an object that has it.
pub fn json_member<'a>(v: Option<&'a JsonValue>, key: &str) -> (r: Option<&'a JsonValue>)
    ensures
        opt_value(r) == member(opt_value(v), key@),
{
    let val = match v {
        Some(x) => x,
        None => {
            return None;
        },
    };
    assert(opt_value(v) == Some(*val));
    match val {
        JsonValue::Object(members) => {
            assert(member(opt_value(v), key@) == lookup(members@, key@));
            let n = members.len();
            let mut i: usize = 0;
            assert(members@.skip(0) =~= members@);
            while i < n
                invariant
                    n == members@.len(),
                    i <= n,
                    lookup(members@, key@) == lookup(members@.skip(i as int), key@),
                    member(opt_value(v), key@) == lookup(members@, key@),
                decreases n - i,
            {
                assert(members@.skip(i as int)[0] == members@[i as int]);
                assert(members@.skip(i as int).len() > 0);
                if str_eq(members[i].0.as_str(), key) {
                    assert(members@[i as int].0@ == key@);
                    assert(lookup(members@.skip(i as int), key@) == Some(members@[i as int].1));
                    return Some(&members[i].1);
                }
                assert(members@.skip(i as int).drop_first() =~= members@.skip(i + 1));
                i = i + 1;
            }
            None
        },
        _ => None,
    }
}

fn members_ref<'a>(v: Option<&'a JsonValue>) -> (r: Option<&'a Vec<(String, JsonValue)>>)
    ensures
        match r {
            Some(m) => members_of(opt_value(v)) == Some(m@),
            None => members_of(opt_value(v)).is_none(),
        },
{
    match v {
        Some(JsonValue::Object(members)) => Some(members),
        _ => None,
    }
}

fn name_allowed(key: &str, allowed: &[&'static str]) -> (r: bool)
    ensures
        r == names(allowed@).contains(key@),
{
    let n = allowed.len();
    let mut i: usize = 0;
    while i < n
        invariant
            n == allowed@.len(),
            i <= n,
            forall|j: int| 0 <= j < i ==> names(allowed@)[j] != key@,
        decreases n - i,
    {
        if str_eq(allowed[i], key) {
            assert(names(allowed@)[i as int] == key@);
            return true;
        }
        i = i + 1;
    }
    false
}

fn push_diag(out: &mut Vec<ConfigDiagnostic>, path: String, message: String)
    ensures
        diags_of(final(out)@) == diags_of(old(out)@).push((path@, message@)),
{
    out.push(ConfigDiagnostic { path, message });
    assert(diags_of(final(out)@) =~= diags_of(old(out)@).push((path@, message@)));
}

fn check_object(object: Option<&Vec<(String, JsonValue)>>, allowed: &[&'static str], path: &str, out: &mut Vec<ConfigDiagnostic>)
    ensures
        diags_of(final(out)@) == diags_of(old(out)@) + check_members(
            match object { Some(m) => Some(m@), None => None },
            names(allowed@),
            path@,
        ),
{
    match object {
        None => {
            assert(diags_of(old(out)@) + Seq::<Diag>::empty() =~= diags_of(old(out)@));
        },
        Some(members) => {
            let ghost start = diags_of(out@);
            let n = members.len();
            let mut i: usize = 0;
            assert(members@.take(0) =~= Seq::<(String, JsonValue)>::empty());
            while i < n
                invariant
                    n == members@.len(),
                    i <= n,
                    diags_of(out@) == start + unknown_members(members@.take(i as int), names(allowed@), path@),
                decreases n - i,
            {
                let ghost before = diags_of(out@);
                assert(members@.take(i + 1).drop_last() =~= members@.take(i as int));
                assert(members@.take(i + 1).last() == members@[i as int]);
                let key = members[i].0.as_str();
                if !name_allowed(key, allowed) {
                    let mut p = String::from_str(path);
                    p.append(".");
                    p.append(key);
                    push_diag(out, p, String::from_str("unknown key ignored"));
                    assert(start + unknown_members(members@.take(i + 1), names(allowed@), path@)
                        =~= before.push(unknown_key_diag(path@, key@)));
                } else {
                    assert(unknown_members(members@.take(i + 1), names(allowed@), path@)
                        == unknown_members(members@.take(i as int), names(allowed@), path@));
                }
                i = i + 1;
            }
            assert(members@.take(n as int) =~= members@);
        },
    }
}

fn check_children(sound: Option<&JsonValue>, path: &str, out: &mut Vec<ConfigDiagnostic>)
    ensures
        diags_of(final(out)@) == diags_of(old(out)@) + sound_children(opt_value(sound), path@),
{
    if sound.is_none() {
        assert(diags_of(old(out)@) + Seq::<Diag>::empty() =~= diags_of(old(out)@));
        return;
    }
    let ghost d0 = diags_of(out@);
    let mut p = String::from_str(path);
    p.append(".adsr");
    check_object(members_ref(json_member(sound, "adsr")), &ADSR_KEYS, p.as_str(), out);
    let ghost d1 = diags_of(out@);
    let eq = json_member(sound, "eq");
    let mut p = String::from_str(path);
    p.append(".eq");
    check_object(members_ref(eq), &EQ_KEYS, p.as_str(), out);
    let ghost d2 = diags_of(out@);
    let mut p = String::from_str(path);
    p.append(".eq.tube_color");
    check_object(members_ref(json_member(eq, "tube_color")), &TUBE_COLOR_KEYS, p.as_str(), out);
    let ghost d3 = diags_of(out@);
    let mut p = String::from_str(path);
    p.append(".reverb");
    check_object(members_ref(json_member(sound, "reverb")), &REVERB_SEND_KEYS, p.as_str(), out);
    let ghost d4 = diags_of(out@);
    assert(d4 =~= d0 + sound_children(opt_value(sound), path@));
}

fn check_sounds(root: Option<&JsonValue>, out: &mut Vec<ConfigDiagnostic>)
    requires
        root is Some,
    ensures
        diags_of(final(out)@) == diags_of(old(out)@) + sounds_section_diags(opt_value(root)->0),
{
    let ghost d0 = diags_of(out@);
    match members_ref(json_member(root, "sounds")) {
        Some(sounds) => {
            let n = sounds.len();
            let mut i: usize = 0;
            assert(sounds@.take(0) =~= Seq::<(String, JsonValue)>::empty());
            while i < n
                invariant
                    n == sounds@.len(),
                    i <= n,
                    diags_of(out@) == d0 + sounds_diags(sounds@.take(i as int)),
                decreases n - i,
            {
                assert(sounds@.take(i + 1).drop_last() =~= sounds@.take(i as int));
                assert(sounds@.take(i + 1).last() == sounds@[i as int]);
                let key = sounds[i].0.as_str();
                let sound = &sounds[i].1;
                let mut path = String::from_str("$.sounds.");
                path.append(key);
                check_object(members_ref(Some(sound)), &SOUND_KEYS, path.as_str(), out);
                check_children(Some(sound), path.as_str(), out);
                assert(diags_of(out@) =~= d0 + sounds_diags(sounds@.take(i + 1)));
                i = i + 1;
            }
            assert(sounds@.take(n as int) =~= sounds@);
        },
        None => {
            assert(diags_of(out@) =~= d0 + Seq::<Diag>::empty());
        },
    }
}

fn check_buses(root: Option<&JsonValue>, out: &mut Vec<ConfigDiagnostic>)
    requires
        root is Some,
    ensures
        diags_of(final(out)@) == diags_of(old(out)@) + buses_section_diags(opt_value(root)->0),
{
    let ghost d0 = diags_of(out@);
    match members_ref(json_member(root, "reverb_buses")) {
        Some(buses) => {
            let n = buses.len();
            let mut i: usize = 0;
            assert(buses@.take(0) =~= Seq::<(String, JsonValue)>::empty());
            while i < n
                invariant
                    n == buses@.len(),
                    i <= n,
                    diags_of(out@) == d0 + buses_diags(buses@.take(i as int)),
                decreases n - i,
            {
                assert(buses@.take(i + 1).drop_last() =~= buses@.take(i as int));
                assert(buses@.take(i + 1).last() == buses@[i as int]);
                let mut path = String::from_str("$.reverb_buses.");
                path.append(buses[i].0.as_str());
                check_object(members_ref(Some(&buses[i].1)), &REVERB_BUS_KEYS, path.as_str(), out);
                assert(diags_of(out@) =~= d0 + buses_diags(buses@.take(i + 1)));
                i = i + 1;
            }
            assert(buses@.take(n as int) =~= buses@);
        },
        None => {
            assert(diags_of(out@) =~= d0 + Seq::<Diag>::empty());
        },
    }
}

fn check_defaults(root: Option<&JsonValue>, out: &mut Vec<ConfigDiagnostic>)
    requires
        root is Some,
    ensures
        diags_of(final(out)@) == diags_of(old(out)@) + defaults_section_diags(opt_value(root)->0),
{
    let ghost d0 = diags_of(out@);
    let defaults = json_member(root, "defaults");
    check_object(members_ref(defaults), &SOUND_KEYS, "$.defaults", out);
    check_children(defaults, "$.defaults", out);
    assert(diags_of(out@) =~= d0 + defaults_section_diags(opt_value(root)->0));
}

fn check_tail_sections(root: Option<&JsonValue>, out: &mut Vec<ConfigDiagnostic>)
    requires
        root is Some,
    ensures
        diags_of(final(out)@) == diags_of(old(out)@) + tail_sections_diags(opt_value(root)->0),
{
    let ghost d0 = diags_of(out@);
    check_object(members_ref(json_member(root, "master")), &MASTER_KEYS, "$.master", out);
    check_object(members_ref(json_member(root, "hot_reload")), &HOT_RELOAD_KEYS, "$.hot_reload", out);
    check_object(members_ref(json_member(root, "exhaust")), &EXHAUST_KEYS, "$.exhaust", out);
    assert(diags_of(out@) =~= d0 + tail_sections_diags(opt_value(root)->0));
}

/// Appends one warning per key that the configuration schema does not know:
/// at the top level always, and, for a document that declares schema 2, in
/// its defaults, sounds (and their envelope, EQ, tube colour and reverb
/// send), reverb buses, master, hot reload and exhaust sections.
pub fn collect_unknown_keys(value: &JsonValue, warnings: &mut Vec<ConfigDiagnostic>)
    ensures
        diags_of(final(warnings)@) == diags_of(old(warnings)@) + unknown_key_diags(*value),
{
    let ghost d0 = diags_of(warnings@);
    let root = Some(value);
    check_object(members_ref(root), &ROOT_KEYS, "$", warnings);
    let ghost d1 = diags_of(warnings@);
    let declared = match json_member(root, "schema_version") {
        Some(JsonValue::Number(n, _)) => *n,
        _ => None,
    };
    let is_two = match declared {
        Some(n) => n == 2,
        None => false,
    };
    if !is_two {
        assert(d1 =~= d0 + unknown_key_diags(*value));
        return;
    }
    check_defaults(root, warnings);
    let ghost d2 = diags_of(warnings@);
    check_sounds(root, warnings);
    let ghost d3 = diags_of(warnings@);
    check_buses(root, warnings);
    let ghost d4 = diags_of(warnings@);
    check_tail_sections(root, warnings);
    assert(diags_of(warnings@) =~= d0 + unknown_key_diags(*value));
}

/// The schema version of a document: its declared version truncated to 32
/// bits, or 1 when it declares none.
pub fn schema_version_of(value: &JsonValue) -> (r: u32)
    ensures
        r == match declared_version(*value) {
            Some(n) => (n % 0x1_0000_0000) as u32,
            None => 1u32,
        },
{
    match json_member(Some(value), "schema_version") {
        Some(JsonValue::Number(Some(n), _)) => {
            let r = (*n % 0x1_0000_0000) as u32;
            r
        },
        _ => 1,
    }
}

/// The keys whose sounds are resolved, in order: the bank's keys, then the
/// document's own, each key once, at its first place.
pub open spec fn resolution_order(keys: Seq<Seq<char>>) -> Seq<Seq<char>>
    decreases keys.len(),
{
    if keys.len() == 0 {
        Seq::empty()
    } else if keys.drop_last().contains(keys.last()) {
        resolution_order(keys.drop_last())
    } else {
        resolution_order(keys.drop_last()).push(keys.last())
    }
}

proof fn lemma_resolution_order_contains(keys: Seq<Seq<char>>, x: Seq<char>)
    ensures
        resolution_order(keys).contains(x) <==> keys.contains(x),
    decreases keys.len(),
{
    if keys.len() > 0 {
        let init = keys.drop_last();
        lemma_resolution_order_contains(init, x);
        assert(keys =~= init.push(keys.last()));
        if init.contains(x) {
            let k = choose|k: int| 0 <= k < init.len() && init[k] == x;
            assert(keys[k] == x);
        }
        if keys.contains(x) && x != keys.last() {
            let k = choose|k: int| 0 <= k < keys.len() && keys[k] == x;
            assert(init[k] == x);
        }
        let r = resolution_order(init);
        if x == keys.last() && !init.contains(x) {
            assert(r.push(x)[r.len() as int] == x);
        }
        if !init.contains(keys.last()) && r.contains(x) {
            let k = choose|k: int| 0 <= k < r.len() && r[k] == x;
            assert(r.push(keys.last())[k] == x);
        }
        if !init.contains(keys.last()) && r.push(keys.last()).contains(x) && x != keys.last() {
            let k = choose|k: int| 0 <= k < r.len() + 1 && r.push(keys.last())[k] == x;
            assert(r[k] == x);
        }
    }
}

/// Every key of the bank and of the document is resolved, once.
pub proof fn lemma_resolution_order_covers(keys: Seq<Seq<char>>, x: Seq<char>)
    ensures
        resolution_order(keys).contains(x) <==> keys.contains(x),
        resolution_order(keys).no_duplicates(),
    decreases keys.len(),
{
    lemma_resolution_order_contains(keys, x);
    if keys.len() > 0 {
        lemma_resolution_order_covers(keys.drop_last(), x);
        lemma_resolution_order_contains(keys.drop_last(), keys.last());
    }
}

fn among(list: &Vec<String>, upto: usize, key: &str) -> (r: bool)
    requires
        upto <= list@.len(),
    ensures
        r == crate::commands::ids_of(list@).take(upto as int).contains(key@),
{
    let ghost ids = crate::commands::ids_of(list@).take(upto as int);
    let mut k: usize = 0;
    while k < upto
        invariant
            upto <= list@.len(),
            ids == crate::commands::ids_of(list@).take(upto as int),
            k <= upto,
            forall|j: int| 0 <= j < k ==> ids[j] != key@,
        decreases upto - k,
    {
        if str_eq(list[k].as_str(), key) {
            assert(ids[k as int] == key@);
            return true;
        }
        k = k + 1;
    }
    false
}

/// The order in which sounds are resolved: the bank's keys, then the keys
/// the document configures, each once, at its first place.
pub fn sound_resolution_order(bank_keys: &Vec<String>, configured: &Vec<String>) -> (r: Vec<String>)
    ensures
        crate::commands::ids_of(r@) == resolution_order(
            crate::commands::ids_of(bank_keys@) + crate::commands::ids_of(configured@),
        ),
{
    let mut all: Vec<String> = Vec::new();
    let mut i: usize = 0;
    while i < bank_keys.len()
        invariant
            i <= bank_keys@.len(),
            crate::commands::ids_of(all@) == crate::commands::ids_of(bank_keys@).take(i as int),
        decreases bank_keys@.len() - i,
    {
        let ghost before = crate::commands::ids_of(all@);
        all.push(bank_keys[i].clone());
        assert(crate::commands::ids_of(all@) =~= before.push(bank_keys@[i as int]@));
        assert(crate::commands::ids_of(bank_keys@).take(i + 1) =~= crate::commands::ids_of(bank_keys@).take(i as int).push(bank_keys@[i as int]@));
        i = i + 1;
    }
    let mut j: usize = 0;
    while j < configured.len()
        invariant
            j <= configured@.len(),
            crate::commands::ids_of(all@) == crate::commands::ids_of(bank_keys@) + crate::commands::ids_of(configured@).take(j as int),
        decreases configured@.len() - j,
    {
        let ghost before = crate::commands::ids_of(all@);
        all.push(configured[j].clone());
        assert(crate::commands::ids_of(all@) =~= before.push(configured@[j as int]@));
        assert(crate::commands::ids_of(configured@).take(j + 1) =~= crate::commands::ids_of(configured@).take(j as int).push(configured@[j as int]@));
        j = j + 1;
    }
    assert(crate::commands::ids_of(bank_keys@).take(bank_keys@.len() as int) =~= crate::commands::ids_of(bank_keys@));
    assert(crate::commands::ids_of(configured@).take(configured@.len() as int) =~= crate::commands::ids_of(configured@));
    let ghost keys = crate::commands::ids_of(all@);
    let mut out: Vec<String> = Vec::new();
    let n = all.len();
    let mut k: usize = 0;
    assert(keys.take(0) =~= Seq::<Seq<char>>::empty());
    while k < n
        invariant
            n == all@.len(),
            keys == crate::commands::ids_of(all@),
            k <= n,
            crate::commands::ids_of(out@) == resolution_order(keys.take(k as int)),
        decreases n - k,
    {
        let ghost prefix = keys.take(k + 1);
        assert(prefix.drop_last() =~= keys.take(k as int));
        assert(prefix.last() == keys[k as int]);
        if !among(&all, k, all[k].as_str()) {
            let ghost before = crate::commands::ids_of(out@);
            out.push(all[k].clone());
            assert(crate::commands::ids_of(out@) =~= before.push(keys[k as int]));
        }
        k = k + 1;
    }
    assert(keys.take(n as int) =~= keys);
    out
}

/// The warning for a sound whose reverb send names a bus that does not
/// exist (the send is then disabled).
pub fn missing_bus_diag(key: &str, bus: &str) -> (r: ConfigDiagnostic)
    ensures
        r.path@ == "$.sounds."@ + key@ + ".reverb.bus"@,
        r.message@ == "bus '"@ + bus@ + "' does not exist; send disabled"@,
{
    let mut path = String::from_str("$.sounds.");
    path.append(key);
    path.append(".reverb.bus");
    let mut message = String::from_str("bus '");
    message.append(bus);
    message.append("' does not exist; send disabled");
    ConfigDiagnostic { path, message }
}

/// The source hash of a configuration document: the lower-case hexadecimal
/// SHA-256 of its UTF-8 bytes.
pub fn config_source_hash(raw: &str) -> (r: String)
    ensures
        r@ == hex_lower(sha256(raw.spec_bytes())),
{
    sha256_hex(raw.as_bytes())
}

/// The error of a document that is not JSON, at the document root.
pub fn invalid_json_diag(reason: &str) -> (r: ConfigDiagnostic)
    ensures
        r.path@ == "$"@,
        r.message@ == "invalid JSON: "@ + reason@,
{
    let mut message = String::from_str("invalid JSON: ");
    message.append(reason);
    ConfigDiagnostic { path: String::from_str("$"), message }
}


/// What the structural rules make of a configuration text: when it is JSON,
/// the warnings for the keys the schema does not know and the schema version
/// it declares; when it is not, the error at the document root.
pub fn config_structure(raw: &str) -> (r: Result<(Vec<ConfigDiagnostic>, u32), ConfigDiagnostic>)
    ensures
        match json_document(raw@) {
            Err(reason) => r matches Err(d) && d.path@ == "$"@ && d.message@ == "invalid JSON: "@ + reason@,
            Ok(doc) => r matches Ok(found) && diags_of(found.0@) == unknown_key_diags(doc) && found.1 == match declared_version(doc) {
                Some(n) => (n % 0x1_0000_0000) as u32,
                None => 1u32,
            },
        },
{
    let doc = match parse_json_document(raw) {
        Ok(doc) => doc,
        Err(reason) => {
            return Err(invalid_json_diag(reason.as_str()));
        },
    };
    let mut warnings: Vec<ConfigDiagnostic> = Vec::new();
    collect_unknown_keys(&doc, &mut warnings);
    assert(diags_of(Seq::<ConfigDiagnostic>::empty()) =~= Seq::<Diag>::empty());
    assert(Seq::<Diag>::empty() + unknown_key_diags(doc) =~= unknown_key_diags(doc));
    let version = schema_version_of(&doc);
    Ok((warnings, version))
}

/// The member names a reverb bus may have.
pub open spec fn is_reverb_bus_key(k: Seq<char>) -> bool {
    ||| k == "enabled"@
    ||| k == "pre_delay_ms"@
    ||| k == "decay_s"@
    ||| k == "damping"@
    ||| k == "low_cut_hz"@
    ||| k == "high_cut_hz"@
    ||| k == "stereo_width"@
    ||| k == "wet_db"@
}

proof fn lemma_reverb_bus_names(k: Seq<char>)
    ensures
        names(REVERB_BUS_KEYS@).contains(k) <==> is_reverb_bus_key(k),
{
    let l = names(REVERB_BUS_KEYS@);
    assert(l.len() == 8);
    assert(l[0] == "enabled"@);
    assert(l[1] == "pre_delay_ms"@);
    assert(l[2] == "decay_s"@);
    assert(l[3] == "damping"@);
    assert(l[4] == "low_cut_hz"@);
    assert(l[5] == "high_cut_hz"@);
    assert(l[6] == "stereo_width"@);
    assert(l[7] == "wet_db"@);
    if is_reverb_bus_key(k) {
        if k == "enabled"@ { assert(l[0] == k); }
        else if k == "pre_delay_ms"@ { assert(l[1] == k); }
        else if k == "decay_s"@ { assert(l[2] == k); }
        else if k == "damping"@ { assert(l[3] == k); }
        else if k == "low_cut_hz"@ { assert(l[4] == k); }
        else if k == "high_cut_hz"@ { assert(l[5] == k); }
        else if k == "stereo_width"@ { assert(l[6] == k); }
        else { assert(l[7] == k); }
    }
}

proof fn lemma_unknown_members_none(members: Seq<(String, JsonValue)>, allowed: Seq<Seq<char>>, path: Seq<char>)
    requires
        forall|k: int| 0 <= k < members.len() ==> allowed.contains(#[trigger] members[k].0@),
    ensures
        unknown_members(members, allowed, path) == Seq::<Diag>::empty(),
    decreases members.len(),
{
    if members.len() > 0 {
        let rest = members.drop_last();
        assert forall|k: int| 0 <= k < rest.len() implies allowed.contains(#[trigger] rest[k].0@) by {
            assert(rest[k] == members[k]);
        }
        assert(allowed.contains(members[members.len() - 1].0@));
        lemma_unknown_members_none(rest, allowed, path);
    }
}

proof fn lemma_unknown_members_warns(members: Seq<(String, JsonValue)>, allowed: Seq<Seq<char>>, path: Seq<char>, j: int)
    requires
        0 <= j < members.len(),
        !allowed.contains(members[j].0@),
    ensures
        unknown_members(members, allowed, path).contains(unknown_key_diag(path, members[j].0@)),
    decreases members.len(),
{
    let rest = members.drop_last();
    if j == members.len() - 1 {
        let w = unknown_members(rest, allowed, path).push(unknown_key_diag(path, members[j].0@));
        assert(w[w.len() - 1] == unknown_key_diag(path, members[j].0@));
    } else {
        assert(rest[j] == members[j]);
        lemma_unknown_members_warns(rest, allowed, path, j);
        let u = unknown_members(rest, allowed, path);
        let x = unknown_key_diag(path, members[j].0@);
        let k = choose|k: int| 0 <= k < u.len() && u[k] == x;
        if !allowed.contains(members.last().0@) {
            assert(u.push(unknown_key_diag(path, members.last().0@))[k] == x);
        }
    }
}

/// A bus whose members all have reverb bus names.
pub open spec fn bus_members_known(bus: JsonValue) -> bool {
    match bus {
        JsonValue::Object(members) => forall|k: int| 0 <= k < members@.len() ==> is_reverb_bus_key(#[trigger] members@[k].0@),
        _ => true,
    }
}

/// A reverb bus never gets an unknown-key warning for a member named
/// `enabled`, `pre_delay_ms`, `decay_s`, `damping`, `low_cut_hz`,
/// `high_cut_hz`, `stereo_width` or `wet_db`: buses whose members all have
/// such names give no warning at all; and a member with any other name gets
/// the warning `unknown key ignored` at `$.reverb_buses.<bus>.<member>`.
pub proof fn lemma_reverb_bus_warnings(buses: Seq<(String, JsonValue)>)
    ensures
        (forall|i: int| 0 <= i < buses.len() ==> bus_members_known(#[trigger] buses[i].1))
            ==> buses_diags(buses) == Seq::<Diag>::empty(),
        forall|i: int, j: int| 0 <= i < buses.len() && buses[i].1 is Object
            && 0 <= j < buses[i].1->Object_0@.len() && !is_reverb_bus_key(#[trigger] buses[i].1->Object_0@[j].0@)
            ==> buses_diags(buses).contains((
                "$.reverb_buses."@ + buses[i].0@ + "."@ + buses[i].1->Object_0@[j].0@,
                "unknown key ignored"@,
            )),
    decreases buses.len(),
{
    if buses.len() > 0 {
        let rest = buses.drop_last();
        let last = buses.last();
        let path = "$.reverb_buses."@ + last.0@;
        let allowed = names(REVERB_BUS_KEYS@);
        lemma_reverb_bus_warnings(rest);
        let tail = check_members(members_of(Some(last.1)), allowed, path);
        if forall|i: int| 0 <= i < buses.len() ==> bus_members_known(#[trigger] buses[i].1) {
            assert forall|i: int| 0 <= i < rest.len() implies bus_members_known(#[trigger] rest[i].1) by {
                assert(rest[i] == buses[i]);
                assert(bus_members_known(buses[i].1));
            }
            assert(bus_members_known(buses[buses.len() - 1].1));
            if let JsonValue::Object(members) = last.1 {
                assert forall|k: int| 0 <= k < members@.len() implies allowed.contains(#[trigger] members@[k].0@) by {
                    lemma_reverb_bus_names(members@[k].0@);
                }
                lemma_unknown_members_none(members@, allowed, path);
            }
            assert(tail =~= Seq::<Diag>::empty());
            assert(buses_diags(buses) =~= Seq::<Diag>::empty());
        }
        assert forall|i: int, j: int| 0 <= i < buses.len() && buses[i].1 is Object
            && 0 <= j < buses[i].1->Object_0@.len() && !is_reverb_bus_key(#[trigger] buses[i].1->Object_0@[j].0@)
            implies buses_diags(buses).contains((
                "$.reverb_buses."@ + buses[i].0@ + "."@ + buses[i].1->Object_0@[j].0@,
                "unknown key ignored"@,
            )) by {
            let members = buses[i].1->Object_0;
            let x = ("$.reverb_buses."@ + buses[i].0@ + "."@ + members@[j].0@, "unknown key ignored"@);
            lemma_concat_contains(buses_diags(rest), tail, x);
            if i < buses.len() - 1 {
                assert(rest[i] == buses[i]);
                assert(!is_reverb_bus_key(rest[i].1->Object_0@[j].0@));
            } else {
                lemma_reverb_bus_names(members@[j].0@);
                lemma_unknown_members_warns(members@, allowed, path, j);
                assert(unknown_key_diag(path, members@[j].0@) == x);
            }
        }
    }
}

/// The member names a top-level section may have.
pub open spec fn is_root_key(k: Seq<char>) -> bool {
    ||| k == "schema_version"@
    ||| k == "gains"@
    ||| k == "defaults"@
    ||| k == "sounds"@
    ||| k == "reverb_buses"@
    ||| k == "exhaust"@
    ||| k == "master"@
    ||| k == "hot_reload"@
}

proof fn lemma_root_names()
    ensures
        forall|k: Seq<char>| names(ROOT_KEYS@).contains(k) <==> is_root_key(k),
{
    let l = names(ROOT_KEYS@);
    assert(l.len() == 8);
    assert(l[0] == "schema_version"@);
    assert(l[1] == "gains"@);
    assert(l[2] == "defaults"@);
    assert(l[3] == "sounds"@);
    assert(l[4] == "reverb_buses"@);
    assert(l[5] == "exhaust"@);
    assert(l[6] == "master"@);
    assert(l[7] == "hot_reload"@);
    assert forall|k: Seq<char>| l.contains(k) <==> is_root_key(k) by {
        if l.contains(k) {
            let i = choose|i: int| 0 <= i < l.len() && l[i] == k;
            if i == 0 {} else if i == 1 {} else if i == 2 {} else if i == 3 {} else if i == 4 {} else if i == 5 {} else if i == 6 {} else if i == 7 {}
        }
        if is_root_key(k) {
            if k == "schema_version"@ {
                assert(l[0] == k);
            } else if k == "gains"@ {
                assert(l[1] == k);
            } else if k == "defaults"@ {
                assert(l[2] == k);
            } else if k == "sounds"@ {
                assert(l[3] == k);
            } else if k == "reverb_buses"@ {
                assert(l[4] == k);
            } else if k == "exhaust"@ {
                assert(l[5] == k);
            } else if k == "master"@ {
                assert(l[6] == k);
            } else if k == "hot_reload"@ {
                assert(l[7] == k);
            }
        }
    }
}

/// The member names a sound (or the defaults) section may have.
pub open spec fn is_sound_key(k: Seq<char>) -> bool {
    ||| k == "volume"@
    ||| k == "pan"@
    ||| k == "adsr"@
    ||| k == "eq"@
    ||| k == "reverb"@
}

proof fn lemma_sound_names()
    ensures
        forall|k: Seq<char>| names(SOUND_KEYS@).contains(k) <==> is_sound_key(k),
{
    let l = names(SOUND_KEYS@);
    assert(l.len() == 5);
    assert(l[0] == "volume"@);
    assert(l[1] == "pan"@);
    assert(l[2] == "adsr"@);
    assert(l[3] == "eq"@);
    assert(l[4] == "reverb"@);
    assert forall|k: Seq<char>| l.contains(k) <==> is_sound_key(k) by {
        if l.contains(k) {
            let i = choose|i: int| 0 <= i < l.len() && l[i] == k;
            if i == 0 {} else if i == 1 {} else if i == 2 {} else if i == 3 {} else if i == 4 {}
        }
        if is_sound_key(k) {
            if k == "volume"@ {
                assert(l[0] == k);
            } else if k == "pan"@ {
                assert(l[1] == k);
            } else if k == "adsr"@ {
                assert(l[2] == k);
            } else if k == "eq"@ {
                assert(l[3] == k);
            } else if k == "reverb"@ {
                assert(l[4] == k);
            }
        }
    }
}

/// The member names an envelope section may have.
pub open spec fn is_adsr_key(k: Seq<char>) -> bool {
    ||| k == "enabled"@
    ||| k == "attack_ms"@
    ||| k == "decay_ms"@
    ||| k == "sustain"@
    ||| k == "release_ms"@
    ||| k == "curve"@
}

proof fn lemma_adsr_names()
    ensures
        forall|k: Seq<char>| names(ADSR_KEYS@).contains(k) <==> is_adsr_key(k),
{
    let l = names(ADSR_KEYS@);
    assert(l.len() == 6);
    assert(l[0] == "enabled"@);
    assert(l[1] == "attack_ms"@);
    assert(l[2] == "decay_ms"@);
    assert(l[3] == "sustain"@);
    assert(l[4] == "release_ms"@);
    assert(l[5] == "curve"@);
    assert forall|k: Seq<char>| l.contains(k) <==> is_adsr_key(k) by {
        if l.contains(k) {
            let i = choose|i: int| 0 <= i < l.len() && l[i] == k;
            if i == 0 {} else if i == 1 {} else if i == 2 {} else if i == 3 {} else if i == 4 {} else if i == 5 {}
        }
        if is_adsr_key(k) {
            if k == "enabled"@ {
                assert(l[0] == k);
            } else if k == "attack_ms"@ {
                assert(l[1] == k);
            } else if k == "decay_ms"@ {
                assert(l[2] == k);
            } else if k == "sustain"@ {
                assert(l[3] == k);
            } else if k == "release_ms"@ {
                assert(l[4] == k);
            } else if k == "curve"@ {
                assert(l[5] == k);
            }
        }
    }
}

/// The member names an EQ section may have.
pub open spec fn is_eq_key(k: Seq<char>) -> bool {
    ||| k == "enabled"@
    ||| k == "bands_db"@
    ||| k == "q"@
    ||| k == "output_db"@
    ||| k == "tube_color"@
}

proof fn lemma_eq_names()
    ensures
        forall|k: Seq<char>| names(EQ_KEYS@).contains(k) <==> is_eq_key(k),
{
    let l = names(EQ_KEYS@);
    assert(l.len() == 5);
    assert(l[0] == "enabled"@);
    assert(l[1] == "bands_db"@);
    assert(l[2] == "q"@);
    assert(l[3] == "output_db"@);
    assert(l[4] == "tube_color"@);
    assert forall|k: Seq<char>| l.contains(k) <==> is_eq_key(k) by {
        if l.contains(k) {
            let i = choose|i: int| 0 <= i < l.len() && l[i] == k;
            if i == 0 {} else if i == 1 {} else if i == 2 {} else if i == 3 {} else if i == 4 {}
        }
        if is_eq_key(k) {
            if k == "enabled"@ {
                assert(l[0] == k);
            } else if k == "bands_db"@ {
                assert(l[1] == k);
            } else if k == "q"@ {
                assert(l[2] == k);
            } else if k == "output_db"@ {
                assert(l[3] == k);
            } else if k == "tube_color"@ {
                assert(l[4] == k);
            }
        }
    }
}

/// The member names a tube colour section may have.
pub open spec fn is_tube_key(k: Seq<char>) -> bool {
    ||| k == "enabled"@
    ||| k == "amount"@
    ||| k == "boost_link"@
    ||| k == "bias"@
    ||| k == "mix"@
    ||| k == "auto_gain"@
}

proof fn lemma_tube_names()
    ensures
        forall|k: Seq<char>| names(TUBE_COLOR_KEYS@).contains(k) <==> is_tube_key(k),
{
    let l = names(TUBE_COLOR_KEYS@);
    assert(l.len() == 6);
    assert(l[0] == "enabled"@);
    assert(l[1] == "amount"@);
    assert(l[2] == "boost_link"@);
    assert(l[3] == "bias"@);
    assert(l[4] == "mix"@);
    assert(l[5] == "auto_gain"@);
    assert forall|k: Seq<char>| l.contains(k) <==> is_tube_key(k) by {
        if l.contains(k) {
            let i = choose|i: int| 0 <= i < l.len() && l[i] == k;
            if i == 0 {} else if i == 1 {} else if i == 2 {} else if i == 3 {} else if i == 4 {} else if i == 5 {}
        }
        if is_tube_key(k) {
            if k == "enabled"@ {
                assert(l[0] == k);
            } else if k == "amount"@ {
                assert(l[1] == k);
            } else if k == "boost_link"@ {
                assert(l[2] == k);
            } else if k == "bias"@ {
                assert(l[3] == k);
            } else if k == "mix"@ {
                assert(l[4] == k);
            } else if k == "auto_gain"@ {
                assert(l[5] == k);
            }
        }
    }
}

/// The member names a reverb send section may have.
pub open spec fn is_send_key(k: Seq<char>) -> bool {
    ||| k == "enabled"@
    ||| k == "bus"@
    ||| k == "send_db"@
}

proof fn lemma_send_names()
    ensures
        forall|k: Seq<char>| names(REVERB_SEND_KEYS@).contains(k) <==> is_send_key(k),
{
    let l = names(REVERB_SEND_KEYS@);
    assert(l.len() == 3);
    assert(l[0] == "enabled"@);
    assert(l[1] == "bus"@);
    assert(l[2] == "send_db"@);
    assert forall|k: Seq<char>| l.contains(k) <==> is_send_key(k) by {
        if l.contains(k) {
            let i = choose|i: int| 0 <= i < l.len() && l[i] == k;
            if i == 0 {} else if i == 1 {} else if i == 2 {}
        }
        if is_send_key(k) {
            if k == "enabled"@ {
                assert(l[0] == k);
            } else if k == "bus"@ {
                assert(l[1] == k);
            } else if k == "send_db"@ {
                assert(l[2] == k);
            }
        }
    }
}

/// The member names the master section may have.
pub open spec fn is_master_key(k: Seq<char>) -> bool {
    ||| k == "output_db"@
    ||| k == "limiter_threshold"@
    ||| k == "saturation"@
}

proof fn lemma_master_names()
    ensures
        forall|k: Seq<char>| names(MASTER_KEYS@).contains(k) <==> is_master_key(k),
{
    let l = names(MASTER_KEYS@);
    assert(l.len() == 3);
    assert(l[0] == "output_db"@);
    assert(l[1] == "limiter_threshold"@);
    assert(l[2] == "saturation"@);
    assert forall|k: Seq<char>| l.contains(k) <==> is_master_key(k) by {
        if l.contains(k) {
            let i = choose|i: int| 0 <= i < l.len() && l[i] == k;
            if i == 0 {} else if i == 1 {} else if i == 2 {}
        }
        if is_master_key(k) {
            if k == "output_db"@ {
                assert(l[0] == k);
            } else if k == "limiter_threshold"@ {
                assert(l[1] == k);
            } else if k == "saturation"@ {
                assert(l[2] == k);
            }
        }
    }
}

/// The member names the hot reload section may have.
pub open spec fn is_hot_reload_key(k: Seq<char>) -> bool {
    ||| k == "enabled"@
    ||| k == "poll_interval_ms"@
    ||| k == "transition_ms"@
}

proof fn lemma_hot_reload_names()
    ensures
        forall|k: Seq<char>| names(HOT_RELOAD_KEYS@).contains(k) <==> is_hot_reload_key(k),
{
    let l = names(HOT_RELOAD_KEYS@);
    assert(l.len() == 3);
    assert(l[0] == "enabled"@);
    assert(l[1] == "poll_interval_ms"@);
    assert(l[2] == "transition_ms"@);
    assert forall|k: Seq<char>| l.contains(k) <==> is_hot_reload_key(k) by {
        if l.contains(k) {
            let i = choose|i: int| 0 <= i < l.len() && l[i] == k;
            if i == 0 {} else if i == 1 {} else if i == 2 {}
        }
        if is_hot_reload_key(k) {
            if k == "enabled"@ {
                assert(l[0] == k);
            } else if k == "poll_interval_ms"@ {
                assert(l[1] == k);
            } else if k == "transition_ms"@ {
                assert(l[2] == k);
            }
        }
    }
}

/// The member names the exhaust section may have.
pub open spec fn is_exhaust_key(k: Seq<char>) -> bool {
    ||| k == "enabled"@
    ||| k == "base_gain"@
    ||| k == "throttle_sensitivity"@
    ||| k == "gas_flow_gain"@
    ||| k == "crackle_gain"@
}

proof fn lemma_exhaust_names()
    ensures
        forall|k: Seq<char>| names(EXHAUST_KEYS@).contains(k) <==> is_exhaust_key(k),
{
    let l = names(EXHAUST_KEYS@);
    assert(l.len() == 5);
    assert(l[0] == "enabled"@);
    assert(l[1] == "base_gain"@);
    assert(l[2] == "throttle_sensitivity"@);
    assert(l[3] == "gas_flow_gain"@);
    assert(l[4] == "crackle_gain"@);
    assert forall|k: Seq<char>| l.contains(k) <==> is_exhaust_key(k) by {
        if l.contains(k) {
            let i = choose|i: int| 0 <= i < l.len() && l[i] == k;
            if i == 0 {} else if i == 1 {} else if i == 2 {} else if i == 3 {} else if i == 4 {}
        }
        if is_exhaust_key(k) {
            if k == "enabled"@ {
                assert(l[0] == k);
            } else if k == "base_gain"@ {
                assert(l[1] == k);
            } else if k == "throttle_sensitivity"@ {
                assert(l[2] == k);
            } else if k == "gas_flow_gain"@ {
                assert(l[3] == k);
            } else if k == "crackle_gain"@ {
                assert(l[4] == k);
            }
        }
    }
}


/// Every member of `o`, when it is an object, has a name that `known` accepts.
pub open spec fn all_known(o: Option<JsonValue>, known: spec_fn(Seq<char>) -> bool) -> bool {
    match members_of(o) {
        Some(ms) => forall|k: int| 0 <= k < ms.len() ==> known(#[trigger] ms[k].0@),
        None => true,
    }
}

/// `diags` holds the warning `unknown key ignored` at `<path>.<name>` for
/// every member of `o`, when it is an object, whose name `known` rejects.
pub open spec fn warns_unknown(diags: Seq<Diag>, o: Option<JsonValue>, path: Seq<char>, known: spec_fn(Seq<char>) -> bool) -> bool {
    match members_of(o) {
        Some(ms) => forall|k: int| 0 <= k < ms.len() && !known(#[trigger] ms[k].0@)
            ==> diags.contains((path + "."@ + ms[k].0@, "unknown key ignored"@)),
        None => true,
    }
}

pub open spec fn root_key() -> spec_fn(Seq<char>) -> bool { |k: Seq<char>| is_root_key(k) }
pub open spec fn sound_key() -> spec_fn(Seq<char>) -> bool { |k: Seq<char>| is_sound_key(k) }
pub open spec fn adsr_key() -> spec_fn(Seq<char>) -> bool { |k: Seq<char>| is_adsr_key(k) }
pub open spec fn eq_key() -> spec_fn(Seq<char>) -> bool { |k: Seq<char>| is_eq_key(k) }
pub open spec fn tube_key() -> spec_fn(Seq<char>) -> bool { |k: Seq<char>| is_tube_key(k) }
pub open spec fn send_key() -> spec_fn(Seq<char>) -> bool { |k: Seq<char>| is_send_key(k) }
pub open spec fn master_key() -> spec_fn(Seq<char>) -> bool { |k: Seq<char>| is_master_key(k) }
pub open spec fn hot_reload_key() -> spec_fn(Seq<char>) -> bool { |k: Seq<char>| is_hot_reload_key(k) }
pub open spec fn exhaust_key() -> spec_fn(Seq<char>) -> bool { |k: Seq<char>| is_exhaust_key(k) }
pub open spec fn bus_key() -> spec_fn(Seq<char>) -> bool { |k: Seq<char>| is_reverb_bus_key(k) }

proof fn lemma_check_members_exact(o: Option<JsonValue>, allowed: Seq<Seq<char>>, path: Seq<char>, known: spec_fn(Seq<char>) -> bool)
    requires
        forall|k: Seq<char>| allowed.contains(k) <==> #[trigger] known(k),
    ensures
        all_known(o, known) ==> check_members(members_of(o), allowed, path) == Seq::<Diag>::empty(),
        warns_unknown(check_members(members_of(o), allowed, path), o, path, known),
{
    match members_of(o) {
        Some(ms) => {
            if all_known(o, known) {
                assert forall|k: int| 0 <= k < ms.len() implies allowed.contains(#[trigger] ms[k].0@) by {
                    assert(known(ms[k].0@));
                }
                lemma_unknown_members_none(ms, allowed, path);
            }
            assert forall|k: int| 0 <= k < ms.len() && !known(#[trigger] ms[k].0@)
                implies check_members(members_of(o), allowed, path).contains((path + "."@ + ms[k].0@, "unknown key ignored"@)) by {
                lemma_unknown_members_warns(ms, allowed, path, k);
            }
        },
        None => {},
    }
}

proof fn lemma_warns_concat(a: Seq<Diag>, b: Seq<Diag>, o: Option<JsonValue>, path: Seq<char>, known: spec_fn(Seq<char>) -> bool)
    ensures
        warns_unknown(a, o, path, known) ==> warns_unknown(a + b, o, path, known),
        warns_unknown(b, o, path, known) ==> warns_unknown(a + b, o, path, known),
{
    match members_of(o) {
        Some(ms) => {
            if warns_unknown(a, o, path, known) || warns_unknown(b, o, path, known) {
                assert forall|k: int| 0 <= k < ms.len() && !known(#[trigger] ms[k].0@)
                    implies (a + b).contains((path + "."@ + ms[k].0@, "unknown key ignored"@)) by {
                    lemma_concat_contains(a, b, (path + "."@ + ms[k].0@, "unknown key ignored"@));
                }
            }
        },
        None => {},
    }
}

/// The envelope, EQ, tube colour and reverb send of `s` have only known member names.
pub open spec fn children_known(s: Option<JsonValue>) -> bool {
    &&& all_known(member(s, "adsr"@), adsr_key())
    &&& all_known(member(s, "eq"@), eq_key())
    &&& all_known(member(member(s, "eq"@), "tube_color"@), tube_key())
    &&& all_known(member(s, "reverb"@), send_key())
}

/// `diags` warns of every unknown member of the envelope, EQ, tube colour and reverb send of `s`.
pub open spec fn children_warned(diags: Seq<Diag>, s: Option<JsonValue>, path: Seq<char>) -> bool {
    &&& warns_unknown(diags, member(s, "adsr"@), path + ".adsr"@, adsr_key())
    &&& warns_unknown(diags, member(s, "eq"@), path + ".eq"@, eq_key())
    &&& warns_unknown(diags, member(member(s, "eq"@), "tube_color"@), path + ".eq.tube_color"@, tube_key())
    &&& warns_unknown(diags, member(s, "reverb"@), path + ".reverb"@, send_key())
}

proof fn lemma_children_concat(a: Seq<Diag>, b: Seq<Diag>, s: Option<JsonValue>, path: Seq<char>)
    ensures
        children_warned(a, s, path) ==> children_warned(a + b, s, path),
        children_warned(b, s, path) ==> children_warned(a + b, s, path),
{
    lemma_warns_concat(a, b, member(s, "adsr"@), path + ".adsr"@, adsr_key());
    lemma_warns_concat(a, b, member(s, "eq"@), path + ".eq"@, eq_key());
    lemma_warns_concat(a, b, member(member(s, "eq"@), "tube_color"@), path + ".eq.tube_color"@, tube_key());
    lemma_warns_concat(a, b, member(s, "reverb"@), path + ".reverb"@, send_key());
}

proof fn lemma_sound_children_exact(s: Option<JsonValue>, path: Seq<char>)
    ensures
        children_known(s) ==> sound_children(s, path) == Seq::<Diag>::empty(),
        children_warned(sound_children(s, path), s, path),
{
    lemma_adsr_names();
    lemma_eq_names();
    lemma_tube_names();
    lemma_send_names();
    if s.is_some() {
        let a = check_members(members_of(member(s, "adsr"@)), names(ADSR_KEYS@), path + ".adsr"@);
        let e = check_members(members_of(member(s, "eq"@)), names(EQ_KEYS@), path + ".eq"@);
        let t = check_members(members_of(member(member(s, "eq"@), "tube_color"@)), names(TUBE_COLOR_KEYS@), path + ".eq.tube_color"@);
        let r = check_members(members_of(member(s, "reverb"@)), names(REVERB_SEND_KEYS@), path + ".reverb"@);
        lemma_check_members_exact(member(s, "adsr"@), names(ADSR_KEYS@), path + ".adsr"@, adsr_key());
        lemma_check_members_exact(member(s, "eq"@), names(EQ_KEYS@), path + ".eq"@, eq_key());
        lemma_check_members_exact(member(member(s, "eq"@), "tube_color"@), names(TUBE_COLOR_KEYS@), path + ".eq.tube_color"@, tube_key());
        lemma_check_members_exact(member(s, "reverb"@), names(REVERB_SEND_KEYS@), path + ".reverb"@, send_key());
        if children_known(s) {
            assert(a + e + t + r =~= Seq::<Diag>::empty());
        }
        lemma_warns_concat(a, e, member(s, "adsr"@), path + ".adsr"@, adsr_key());
        lemma_warns_concat(a + e, t, member(s, "adsr"@), path + ".adsr"@, adsr_key());
        lemma_warns_concat(a + e + t, r, member(s, "adsr"@), path + ".adsr"@, adsr_key());
        lemma_warns_concat(a, e, member(s, "eq"@), path + ".eq"@, eq_key());
        lemma_warns_concat(a + e, t, member(s, "eq"@), path + ".eq"@, eq_key());
        lemma_warns_concat(a + e + t, r, member(s, "eq"@), path + ".eq"@, eq_key());
        lemma_warns_concat(a + e, t, member(member(s, "eq"@), "tube_color"@), path + ".eq.tube_color"@, tube_key());
        lemma_warns_concat(a + e + t, r, member(member(s, "eq"@), "tube_color"@), path + ".eq.tube_color"@, tube_key());
        lemma_warns_concat(a + e + t, r, member(s, "reverb"@), path + ".reverb"@, send_key());
    }
}

/// Every sound of `sounds` (an object of sounds) and its children have only known member names.
pub open spec fn sounds_known(sounds: Option<JsonValue>) -> bool {
    match members_of(sounds) {
        Some(ms) => forall|i: int| 0 <= i < ms.len() ==> {
            &&& all_known(Some(#[trigger] ms[i].1), sound_key())
            &&& children_known(Some(ms[i].1))
        },
        None => true,
    }
}

/// `diags` warns of every unknown member of every sound of `sounds` and of its children.
pub open spec fn sounds_warned(diags: Seq<Diag>, sounds: Option<JsonValue>) -> bool {
    match members_of(sounds) {
        Some(ms) => forall|i: int| 0 <= i < ms.len() ==> {
            &&& warns_unknown(diags, Some(#[trigger] ms[i].1), "$.sounds."@ + ms[i].0@, sound_key())
            &&& children_warned(diags, Some(ms[i].1), "$.sounds."@ + ms[i].0@)
        },
        None => true,
    }
}

/// Every reverb bus of `buses` (an object of buses) has only known member names.
pub open spec fn buses_known(buses: Option<JsonValue>) -> bool {
    match members_of(buses) {
        Some(ms) => forall|i: int| 0 <= i < ms.len() ==> all_known(Some(#[trigger] ms[i].1), bus_key()),
        None => true,
    }
}

/// `diags` warns of every unknown member of every reverb bus of `buses`.
pub open spec fn buses_warned(diags: Seq<Diag>, buses: Option<JsonValue>) -> bool {
    match members_of(buses) {
        Some(ms) => forall|i: int| 0 <= i < ms.len()
            ==> warns_unknown(diags, Some(#[trigger] ms[i].1), "$.reverb_buses."@ + ms[i].0@, bus_key()),
        None => true,
    }
}

proof fn lemma_sounds_exact(ms: Seq<(String, JsonValue)>)
    ensures
        (forall|i: int| 0 <= i < ms.len() ==> all_known(Some(#[trigger] ms[i].1), sound_key()) && children_known(Some(ms[i].1)))
            ==> sounds_diags(ms) == Seq::<Diag>::empty(),
        forall|i: int| 0 <= i < ms.len() ==> {
            &&& warns_unknown(sounds_diags(ms), Some(#[trigger] ms[i].1), "$.sounds."@ + ms[i].0@, sound_key())
            &&& children_warned(sounds_diags(ms), Some(ms[i].1), "$.sounds."@ + ms[i].0@)
        },
    decreases ms.len(),
{
    if ms.len() > 0 {
        let rest = ms.drop_last();
        let last = ms.last();
        let path = "$.sounds."@ + last.0@;
        lemma_sounds_exact(rest);
        lemma_sound_names();
        lemma_check_members_exact(Some(last.1), names(SOUND_KEYS@), path, sound_key());
        lemma_sound_children_exact(Some(last.1), path);
        let own = check_members(members_of(Some(last.1)), names(SOUND_KEYS@), path);
        let kids = sound_children(Some(last.1), path);
        assert(sound_diags(last.0@, last.1) == own + kids);
        if forall|i: int| 0 <= i < ms.len() ==> all_known(Some(#[trigger] ms[i].1), sound_key()) && children_known(Some(ms[i].1)) {
            assert forall|i: int| 0 <= i < rest.len() implies all_known(Some(#[trigger] rest[i].1), sound_key()) && children_known(Some(rest[i].1)) by {
                assert(rest[i] == ms[i]);
                assert(all_known(Some(ms[i].1), sound_key()));
            }
            assert(all_known(Some(ms[ms.len() - 1].1), sound_key()));
            assert(sounds_diags(ms) =~= Seq::<Diag>::empty());
        }
        lemma_warns_concat(own, kids, Some(last.1), path, sound_key());
        lemma_children_concat(own, kids, Some(last.1), path);
        assert forall|i: int| 0 <= i < ms.len() implies {
            &&& warns_unknown(sounds_diags(ms), Some(#[trigger] ms[i].1), "$.sounds."@ + ms[i].0@, sound_key())
            &&& children_warned(sounds_diags(ms), Some(ms[i].1), "$.sounds."@ + ms[i].0@)
        } by {
            let p = "$.sounds."@ + ms[i].0@;
            if i < ms.len() - 1 {
                assert(rest[i] == ms[i]);
                assert(warns_unknown(sounds_diags(rest), Some(rest[i].1), "$.sounds."@ + rest[i].0@, sound_key()));
                lemma_warns_concat(sounds_diags(rest), own + kids, Some(ms[i].1), p, sound_key());
                lemma_children_concat(sounds_diags(rest), own + kids, Some(ms[i].1), p);
            } else {
                lemma_warns_concat(sounds_diags(rest), own + kids, Some(ms[i].1), p, sound_key());
                lemma_children_concat(sounds_diags(rest), own + kids, Some(ms[i].1), p);
            }
        }
    }
}

proof fn lemma_buses_exact(ms: Seq<(String, JsonValue)>)
    ensures
        (forall|i: int| 0 <= i < ms.len() ==> all_known(Some(#[trigger] ms[i].1), bus_key()))
            ==> buses_diags(ms) == Seq::<Diag>::empty(),
        forall|i: int| 0 <= i < ms.len()
            ==> warns_unknown(buses_diags(ms), Some(#[trigger] ms[i].1), "$.reverb_buses."@ + ms[i].0@, bus_key()),
    decreases ms.len(),
{
    if ms.len() > 0 {
        let rest = ms.drop_last();
        let last = ms.last();
        let path = "$.reverb_buses."@ + last.0@;
        lemma_buses_exact(rest);
        assert forall|k: Seq<char>| names(REVERB_BUS_KEYS@).contains(k) <==> #[trigger] bus_key()(k) by {
            lemma_reverb_bus_names(k);
        }
        lemma_check_members_exact(Some(last.1), names(REVERB_BUS_KEYS@), path, bus_key());
        let own = check_members(members_of(Some(last.1)), names(REVERB_BUS_KEYS@), path);
        if forall|i: int| 0 <= i < ms.len() ==> all_known(Some(#[trigger] ms[i].1), bus_key()) {
            assert forall|i: int| 0 <= i < rest.len() implies all_known(Some(#[trigger] rest[i].1), bus_key()) by {
                assert(rest[i] == ms[i]);
            }
            assert(all_known(Some(ms[ms.len() - 1].1), bus_key()));
            assert(buses_diags(ms) =~= Seq::<Diag>::empty());
        }
        assert forall|i: int| 0 <= i < ms.len()
            implies warns_unknown(buses_diags(ms), Some(#[trigger] ms[i].1), "$.reverb_buses."@ + ms[i].0@, bus_key()) by {
            let p = "$.reverb_buses."@ + ms[i].0@;
            if i < ms.len() - 1 {
                assert(rest[i] == ms[i]);
                assert(warns_unknown(buses_diags(rest), Some(rest[i].1), "$.reverb_buses."@ + rest[i].0@, bus_key()));
            }
            lemma_warns_concat(buses_diags(rest), own, Some(ms[i].1), p, bus_key());
        }
    }
}


/// The unknown-key warnings of a configuration document are exact. Every
/// top-level member whose name is not one of `schema_version`, `gains`,
/// `defaults`, `sounds`, `reverb_buses`, `exhaust`, `master`, `hot_reload`
/// is warned of at `$.<name>`; a document that does not declare schema 2 gets
/// no other warning. A document that declares schema 2 is also warned of
/// every unknown member of its defaults and each sound (`volume`, `pan`,
/// `adsr`, `eq`, `reverb`), of their envelope, EQ, tube colour and reverb
/// send, of each reverb bus, and of its master, hot reload and exhaust
/// sections, each at the member's path; and a document whose members all
/// have known names gets no warning at all.
pub proof fn lemma_unknown_key_warnings_exact(v: JsonValue)
    ensures
        warns_unknown(unknown_key_diags(v), Some(v), "$"@, root_key()),
        declared_version(v) != Some(2u64) && all_known(Some(v), root_key())
            ==> unknown_key_diags(v) == Seq::<Diag>::empty(),
        declared_version(v) == Some(2u64) ==> {
            let d = unknown_key_diags(v);
            &&& warns_unknown(d, member(Some(v), "defaults"@), "$.defaults"@, sound_key())
            &&& children_warned(d, member(Some(v), "defaults"@), "$.defaults"@)
            &&& sounds_warned(d, member(Some(v), "sounds"@))
            &&& buses_warned(d, member(Some(v), "reverb_buses"@))
            &&& warns_unknown(d, member(Some(v), "master"@), "$.master"@, master_key())
            &&& warns_unknown(d, member(Some(v), "hot_reload"@), "$.hot_reload"@, hot_reload_key())
            &&& warns_unknown(d, member(Some(v), "exhaust"@), "$.exhaust"@, exhaust_key())
        },
        declared_version(v) == Some(2u64)
            && all_known(Some(v), root_key())
            && all_known(member(Some(v), "defaults"@), sound_key())
            && children_known(member(Some(v), "defaults"@))
            && sounds_known(member(Some(v), "sounds"@))
            && buses_known(member(Some(v), "reverb_buses"@))
            && all_known(member(Some(v), "master"@), master_key())
            && all_known(member(Some(v), "hot_reload"@), hot_reload_key())
            && all_known(member(Some(v), "exhaust"@), exhaust_key())
            ==> unknown_key_diags(v) == Seq::<Diag>::empty(),
{
    lemma_root_names();
    lemma_sound_names();
    lemma_master_names();
    lemma_hot_reload_names();
    lemma_exhaust_names();
    let top = check_members(members_of(Some(v)), names(ROOT_KEYS@), "$"@);
    lemma_check_members_exact(Some(v), names(ROOT_KEYS@), "$"@, root_key());
    if declared_version(v) == Some(2u64) {
        let defaults = member(Some(v), "defaults"@);
        let def_own = check_members(members_of(defaults), names(SOUND_KEYS@), "$.defaults"@);
        let def_kids = sound_children(defaults, "$.defaults"@);
        lemma_check_members_exact(defaults, names(SOUND_KEYS@), "$.defaults"@, sound_key());
        lemma_sound_children_exact(defaults, "$.defaults"@);
        let dd = defaults_section_diags(v);
        assert(dd == def_own + def_kids);
        lemma_warns_concat(def_own, def_kids, defaults, "$.defaults"@, sound_key());
        lemma_children_concat(def_own, def_kids, defaults, "$.defaults"@);
        let sd = sounds_section_diags(v);
        let bd = buses_section_diags(v);
        match members_of(member(Some(v), "sounds"@)) {
            Some(ms) => { lemma_sounds_exact(ms); },
            None => {},
        }
        match members_of(member(Some(v), "reverb_buses"@)) {
            Some(ms) => { lemma_buses_exact(ms); },
            None => {},
        }
        let master = check_members(members_of(member(Some(v), "master"@)), names(MASTER_KEYS@), "$.master"@);
        let hot = check_members(members_of(member(Some(v), "hot_reload"@)), names(HOT_RELOAD_KEYS@), "$.hot_reload"@);
        let exh = check_members(members_of(member(Some(v), "exhaust"@)), names(EXHAUST_KEYS@), "$.exhaust"@);
        lemma_check_members_exact(member(Some(v), "master"@), names(MASTER_KEYS@), "$.master"@, master_key());
        lemma_check_members_exact(member(Some(v), "hot_reload"@), names(HOT_RELOAD_KEYS@), "$.hot_reload"@, hot_reload_key());
        lemma_check_members_exact(member(Some(v), "exhaust"@), names(EXHAUST_KEYS@), "$.exhaust"@, exhaust_key());
        let td = tail_sections_diags(v);
        assert(td == master + hot + exh);
        lemma_warns_concat(master, hot, member(Some(v), "master"@), "$.master"@, master_key());
        lemma_warns_concat(master + hot, exh, member(Some(v), "master"@), "$.master"@, master_key());
        lemma_warns_concat(master, hot, member(Some(v), "hot_reload"@), "$.hot_reload"@, hot_reload_key());
        lemma_warns_concat(master + hot, exh, member(Some(v), "hot_reload"@), "$.hot_reload"@, hot_reload_key());
        lemma_warns_concat(master + hot, exh, member(Some(v), "exhaust"@), "$.exhaust"@, exhaust_key());
        let d = unknown_key_diags(v);
        assert(d == top + dd + sd + bd + td);
        // Lift each section's warnings to the whole list.
        lemma_warns_concat(top, dd, Some(v), "$"@, root_key());
        lemma_warns_concat(top + dd, sd, Some(v), "$"@, root_key());
        lemma_warns_concat(top + dd + sd, bd, Some(v), "$"@, root_key());
        lemma_warns_concat(top + dd + sd + bd, td, Some(v), "$"@, root_key());
        lemma_warns_concat(top, dd, defaults, "$.defaults"@, sound_key());
        lemma_warns_concat(top + dd, sd, defaults, "$.defaults"@, sound_key());
        lemma_warns_concat(top + dd + sd, bd, defaults, "$.defaults"@, sound_key());
        lemma_warns_concat(top + dd + sd + bd, td, defaults, "$.defaults"@, sound_key());
        lemma_children_concat(top, dd, defaults, "$.defaults"@);
        lemma_children_concat(top + dd, sd, defaults, "$.defaults"@);
        lemma_children_concat(top + dd + sd, bd, defaults, "$.defaults"@);
        lemma_children_concat(top + dd + sd + bd, td, defaults, "$.defaults"@);
        match members_of(member(Some(v), "sounds"@)) {
            Some(ms) => {
                assert forall|i: int| 0 <= i < ms.len() implies {
                    &&& warns_unknown(d, Some(#[trigger] ms[i].1), "$.sounds."@ + ms[i].0@, sound_key())
                    &&& children_warned(d, Some(ms[i].1), "$.sounds."@ + ms[i].0@)
                } by {
                    let p = "$.sounds."@ + ms[i].0@;
                    assert(sd == sounds_diags(ms));
                    lemma_warns_concat(top + dd, sd, Some(ms[i].1), p, sound_key());
                    lemma_warns_concat(top + dd + sd, bd, Some(ms[i].1), p, sound_key());
                    lemma_warns_concat(top + dd + sd + bd, td, Some(ms[i].1), p, sound_key());
                    lemma_children_concat(top + dd, sd, Some(ms[i].1), p);
                    lemma_children_concat(top + dd + sd, bd, Some(ms[i].1), p);
                    lemma_children_concat(top + dd + sd + bd, td, Some(ms[i].1), p);
                }
            },
            None => {},
        }
        match members_of(member(Some(v), "reverb_buses"@)) {
            Some(ms) => {
                assert forall|i: int| 0 <= i < ms.len()
                    implies warns_unknown(d, Some(#[trigger] ms[i].1), "$.reverb_buses."@ + ms[i].0@, bus_key()) by {
                    let p = "$.reverb_buses."@ + ms[i].0@;
                    assert(bd == buses_diags(ms));
                    lemma_warns_concat(top + dd + sd, bd, Some(ms[i].1), p, bus_key());
                    lemma_warns_concat(top + dd + sd + bd, td, Some(ms[i].1), p, bus_key());
                }
            },
            None => {},
        }
        let m_o = member(Some(v), "master"@);
        let h_o = member(Some(v), "hot_reload"@);
        let e_o = member(Some(v), "exhaust"@);
        lemma_warns_concat(top + dd + sd + bd, td, m_o, "$.master"@, master_key());
        lemma_warns_concat(top + dd + sd + bd, td, h_o, "$.hot_reload"@, hot_reload_key());
        lemma_warns_concat(top + dd + sd + bd, td, e_o, "$.exhaust"@, exhaust_key());
        if all_known(Some(v), root_key())
            && all_known(defaults, sound_key())
            && children_known(defaults)
            && sounds_known(member(Some(v), "sounds"@))
            && buses_known(member(Some(v), "reverb_buses"@))
            && all_known(m_o, master_key())
            && all_known(h_o, hot_reload_key())
            && all_known(e_o, exhaust_key()) {
            assert(sd =~= Seq::<Diag>::empty());
            assert(bd =~= Seq::<Diag>::empty());
            assert(d =~= Seq::<Diag>::empty());
        }
    }
}

} // verus!

//! The rules of the vehicle sound bank: which keys a manifest entry denotes,
//! which keys are retired, how an asset file is checked, and how the engine
//! band entries must be laid out.

use vstd::prelude::*;
use vstd::string::*;
use crate::digest::{sha256, sha256_hex};
use crate::text::{decimal, hex_lower, push_decimal, str_eq};
use crate::wav::{parse_wav_mono16, wav_mono16, WavError};
use crate::config_keys::{json_document, json_member, member, opt_value, parse_json_document, JsonValue};

verus! {

/// Continuous sampled engine/exhaust voices retired in favour of the
/// procedural synth; the runtime bank must not contain any of them.
pub const RETIRED_KEYS: [&'static str; 8] = [
    "engine_high",
    "engine_idle",
    "engine_limiter",
    "engine_low",
    "engine_mid",
    "engine_redline",
    "engine_tc",
    "exhaust-mic",
];

/// Number of engine bands a bank either declares completely or not at all.
pub const ENGINE_BAND_COUNT: usize = 5;

/// Why a vehicle sound bank cannot be loaded.
#[derive(Debug)]
pub enum BankError {
    MissingDir(std::path::PathBuf),
    MissingManifest(std::path::PathBuf),
    InvalidManifest(String),
    Io(std::io::Error),
    InvalidWav(String, String),
    ShaMismatch(String),
    Format(String),
    InvalidPlayback(String),
}

/// A loaded mono PCM16 sample buffer.
#[derive(Debug, Clone)]
pub struct Sample {
    pub key: String,
    pub role: String,
    pub sample_rate: u32,
    pub pcm: Vec<i16>,
    pub is_loop: bool,
}

/// How an asset path is written in error messages: its file name, its
/// display form and its debug form.
#[derive(Debug, Clone)]
pub struct AssetLabels {
    pub file_name: String,
    pub display: String,
    pub debug: String,
}

pub open spec fn wav_suffix() -> Seq<char> {
    seq!['.', 'w', 'a', 'v']
}

/// `s` with every trailing `.wav` removed.
pub open spec fn strip_wav(s: Seq<char>) -> Seq<char>
    decreases s.len(),
{
    if s.len() >= 4 && s.subrange(s.len() - 4, s.len() as int) == wav_suffix() {
        strip_wav(s.subrange(0, s.len() - 4))
    } else {
        s
    }
}

/// The retired keys as character sequences.
pub open spec fn retired_keys() -> Seq<Seq<char>> {
    seq![
        "engine_high"@,
        "engine_idle"@,
        "engine_limiter"@,
        "engine_low"@,
        "engine_mid"@,
        "engine_redline"@,
        "engine_tc"@,
        "exhaust-mic"@,
    ]
}

/// The bank key of a manifest file name: the name without its trailing
/// `.wav` extensions.
pub fn bank_key(file: &str) -> (r: String)
    ensures
        r@ == strip_wav(file@),
{
    let mut end = file.unicode_len();
    assert(file@.subrange(0, end as int) =~= file@);
    loop
        invariant
            end <= file@.len(),
            strip_wav(file@) == strip_wav(file@.subrange(0, end as int)),
        ensures
            end <= file@.len(),
            strip_wav(file@) == file@.subrange(0, end as int),
        decreases end,
    {
        let ghost cur = file@.subrange(0, end as int);
        if end < 4 {
            assert(strip_wav(cur) == cur);
            break;
        }
        let tail = file.substring_char(end - 4, end);
        if !(tail.get_char(0) == '.' && tail.get_char(1) == 'w' && tail.get_char(2) == 'a'
            && tail.get_char(3) == 'v') {
            assert(cur.subrange(cur.len() - 4, cur.len() as int) != wav_suffix()) by {
                assert(cur.subrange(cur.len() - 4, cur.len() as int) =~= tail@);
                if tail@ == wav_suffix() {
                    assert(tail@[0] == '.');
                }
            }
            assert(strip_wav(cur) == cur);
            break;
        }
        assert(cur.subrange(cur.len() - 4, cur.len() as int) =~= wav_suffix());
        assert(cur.subrange(0, cur.len() - 4) =~= file@.subrange(0, end - 4));
        end = end - 4;
    }
    let prefix = file.substring_char(0, end);
    String::from_str(prefix)
}

/// Is `key` one of the retired keys?
pub fn is_retired_key(key: &str) -> (r: bool)
    ensures
        r == retired_keys().contains(key@),
{
    let mut i: usize = 0;
    while i < 8
        invariant
            i <= 8,
            forall|k: int| 0 <= k < i ==> retired_keys()[k] != key@,
        decreases 8 - i,
    {
        let candidate = RETIRED_KEYS[i];
        proof {
            assert(candidate@ == retired_keys()[i as int]);
        }
        if str_eq(candidate, key) {
            assert(retired_keys()[i as int] == key@);
            return true;
        }
        i = i + 1;
    }
    false
}

/// The key of a manifest entry, refused when it is a retired key.
pub fn entry_key(file: &str) -> (r: Result<String, BankError>)
    ensures
        match r {
            Ok(key) => key@ == strip_wav(file@) && !retired_keys().contains(key@),
            Err(e) => retired_keys().contains(strip_wav(file@))
                && (e matches BankError::InvalidManifest(m)
                && m@ == "retired key present in bank: "@ + strip_wav(file@)),
        },
{
    let key = bank_key(file);
    if is_retired_key(key.as_str()) {
        let mut message = String::from_str("retired key present in bank: ");
        message.append(key.as_str());
        Err(BankError::InvalidManifest(message))
    } else {
        Ok(key)
    }
}

/// The bank error that a refused WAVE file is reported as.
pub open spec fn wav_refusal(e: WavError, labels: AssetLabels) -> (bool, Seq<char>, Seq<char>) {
    match e {
        WavError::NotRiffWave => (true, labels.file_name@, "not a RIFF/WAVE file"@),
        WavError::TruncatedFmt => (true, labels.display@, "truncated fmt"@),
        WavError::NotMono { channels } => (
            false,
            labels.debug@ + ": expected mono, got "@ + decimal(channels as nat),
            Seq::empty(),
        ),
        WavError::Not16Bit { bits } => (
            false,
            labels.debug@ + ": expected 16-bit, got "@ + decimal(bits as nat),
            Seq::empty(),
        ),
        WavError::WrongSampleRate { sample_rate } => (
            false,
            labels.debug@ + ": expected 44100 Hz, got "@ + decimal(sample_rate as nat),
            Seq::empty(),
        ),
    }
}

/// Does `e` report the refusal `(invalid_wav, first, second)`: an invalid
/// WAVE file with two texts, or else a format error with the first?
pub open spec fn reports(e: BankError, refusal: (bool, Seq<char>, Seq<char>)) -> bool {
    if refusal.0 {
        (e matches BankError::InvalidWav(a, b) && a@ == refusal.1 && b@ == refusal.2)
    } else {
        (e matches BankError::Format(m) && m@ == refusal.1)
    }
}

/// The text that a refusal is displayed as.
pub open spec fn refusal_text(refusal: (bool, Seq<char>, Seq<char>)) -> Seq<char> {
    if refusal.0 {
        "invalid wav "@ + refusal.1 + ": "@ + refusal.2
    } else {
        "format error: "@ + refusal.1
    }
}

fn wav_bank_error(e: WavError, labels: &AssetLabels) -> (r: BankError)
    ensures
        reports(r, wav_refusal(e, *labels)),
{
    match e {
        WavError::NotRiffWave => BankError::InvalidWav(
            labels.file_name.clone(),
            String::from_str("not a RIFF/WAVE file"),
        ),
        WavError::TruncatedFmt => BankError::InvalidWav(
            labels.display.clone(),
            String::from_str("truncated fmt"),
        ),
        WavError::NotMono { channels } => {
            let mut m = labels.debug.clone();
            m.append(": expected mono, got ");
            push_decimal(&mut m, channels as u64);
            BankError::Format(m)
        },
        WavError::Not16Bit { bits } => {
            let mut m = labels.debug.clone();
            m.append(": expected 16-bit, got ");
            push_decimal(&mut m, bits as u64);
            BankError::Format(m)
        },
        WavError::WrongSampleRate { sample_rate } => {
            let mut m = labels.debug.clone();
            m.append(": expected 44100 Hz, got ");
            push_decimal(&mut m, sample_rate as u64);
            BankError::Format(m)
        },
    }
}

/// The displayed text of the error that a refused WAVE file is reported as.
pub fn wav_refusal_text(e: WavError, labels: &AssetLabels) -> (r: String)
    ensures
        r@ == refusal_text(wav_refusal(e, *labels)),
{
    let err = wav_bank_error(e, labels);
    match err {
        BankError::InvalidWav(a, b) => {
            let mut t = String::from_str("invalid wav ");
            t.append(a.as_str());
            t.append(": ");
            t.append(b.as_str());
            t
        },
        BankError::Format(m) => {
            let mut t = String::from_str("format error: ");
            t.append(m.as_str());
            t
        },
        _ => {
            proof {
                assert(false);
            }
            String::new()
        },
    }
}

/// Checks one bank asset held in memory: it must be an accepted WAVE file,
/// and, where the manifest gives a digest, its SHA-256 must match it.
pub fn check_bank_asset(file: &str, expected_sha256: &str, bytes: &[u8], labels: &AssetLabels) -> (r: Result<Vec<i16>, BankError>)
    ensures
        match wav_mono16(bytes@) {
            Err(e) => r is Err && reports(r->Err_0, wav_refusal(e, *labels)),
            Ok(pcm) => if expected_sha256@.len() > 0 && hex_lower(sha256(bytes@)) != expected_sha256@ {
                r is Err && (r->Err_0 matches BankError::ShaMismatch(f) && f@ == file@)
            } else {
                r is Ok && r->Ok_0@ == pcm
            },
        },
{
    let pcm = match parse_wav_mono16(bytes) {
        Ok(pcm) => pcm,
        Err(e) => {
            return Err(wav_bank_error(e, labels));
        },
    };
    if expected_sha256.unicode_len() > 0 {
        let actual = sha256_hex(bytes);
        if !str_eq(actual.as_str(), expected_sha256) {
            return Err(BankError::ShaMismatch(String::from_str(file)));
        }
    }
    Ok(pcm)
}

/// Where the engine bands go once ordered by band index: `Some(order)` with
/// `order[i]` the position of the band whose index is `i`, when no band is
/// declared or every index below `ENGINE_BAND_COUNT` is declared exactly once;
/// `None` otherwise.
pub fn engine_band_order(indices: &Vec<usize>) -> (r: Option<Vec<usize>>)
    ensures
        r is Some <==> (indices@.len() == 0 || (indices@.len() == ENGINE_BAND_COUNT
            && forall|b: int| 0 <= b < ENGINE_BAND_COUNT ==> #[trigger] indices@.contains(b as usize))),
        r matches Some(order) ==> order@.len() == indices@.len()
            && forall|b: int| 0 <= b < order@.len() ==> #[trigger] order@[b] < indices@.len()
                && indices@[order@[b] as int] == b,
{
    let n = indices.len();
    if n == 0 {
        return Some(Vec::new());
    }
    if n != ENGINE_BAND_COUNT {
        return None;
    }
    let mut order: Vec<usize> = Vec::new();
    let mut b: usize = 0;
    while b < ENGINE_BAND_COUNT
        invariant
            n == indices@.len(),
            n == ENGINE_BAND_COUNT,
            b <= ENGINE_BAND_COUNT,
            order@.len() == b,
            forall|c: int| 0 <= c < b ==> #[trigger] order@[c] < n && indices@[order@[c] as int] == c,
            forall|c: int| 0 <= c < b ==> #[trigger] indices@.contains(c as usize),
        decreases ENGINE_BAND_COUNT - b,
    {
        let mut j: usize = 0;
        while j < n
            invariant
                n == indices@.len(),
                j <= n,
                forall|k: int| 0 <= k < j ==> indices@[k] != b,
            ensures
                j <= n,
                j < n ==> indices@[j as int] == b,
                forall|k: int| 0 <= k < j ==> indices@[k] != b,
            decreases n - j,
        {
            if indices[j] == b {
                break;
            }
            j = j + 1;
        }
        if j == n {
            assert(!indices@.contains((b as int) as usize)) by {
                if indices@.contains(b) {
                    let k = choose|k: int| 0 <= k < n && indices@[k] == b;
                }
            }
            return None;
        }
        assert(indices@[j as int] == b);
        order.push(j);
        b = b + 1;
    }
    Some(order)
}


/// What the loader reads of an engine band: its index when it is a
/// non-negative integer, and the texts of its centre and width when they are
/// numbers.
#[derive(Debug, Clone)]
pub struct BandFacts {
    pub index: Option<u64>,
    pub center: Option<String>,
    pub width: Option<String>,
}

/// What the loader reads of a `playback` object: the text of its native rpm
/// when it is a number, and its engine band when that is an object.
#[derive(Debug, Clone)]
pub struct PlaybackFacts {
    pub native_rpm: Option<String>,
    pub band: Option<BandFacts>,
}

/// What the loader reads of one manifest entry.
#[derive(Debug, Clone)]
pub struct ManifestEntryFacts {
    pub file: Option<String>,
    pub role: Option<String>,
    pub is_loop: bool,
    pub sha256: String,
    pub playback: Option<PlaybackFacts>,
}

/// A bank manifest as the loader reads it.
#[derive(Debug, Clone)]
pub struct BankManifest {
    pub bank_name: String,
    pub retired_names: Vec<String>,
    pub entries: Vec<ManifestEntryFacts>,
}

pub open spec fn opt_view(o: Option<String>) -> Option<Seq<char>> {
    match o {
        Some(s) => Some(s@),
        None => None,
    }
}

pub open spec fn string_views(s: Seq<String>) -> Seq<Seq<char>> {
    s.map_values(|x: String| x@)
}

/// The text of `v`, when it is a string.
pub open spec fn text_of(v: Option<JsonValue>) -> Option<Seq<char>> {
    match v {
        Some(JsonValue::Text(s)) => Some(s@),
        _ => None,
    }
}

/// The printed text of `v`, when it is a number.
pub open spec fn number_text_of(v: Option<JsonValue>) -> Option<Seq<char>> {
    match v {
        Some(JsonValue::Number(_, t)) => Some(t@),
        _ => None,
    }
}

/// The value of `v`, when it is a non-negative integer that fits in 64 bits.
pub open spec fn u64_of(v: Option<JsonValue>) -> Option<u64> {
    match v {
        Some(JsonValue::Number(n, _)) => n,
        _ => None,
    }
}

pub open spec fn bool_of(v: Option<JsonValue>) -> Option<bool> {
    match v {
        Some(JsonValue::Bool(b)) => Some(b),
        _ => None,
    }
}

pub open spec fn items_of(v: Option<JsonValue>) -> Option<Seq<JsonValue>> {
    match v {
        Some(JsonValue::Array(items)) => Some(items@),
        _ => None,
    }
}

pub open spec fn is_object(v: Option<JsonValue>) -> bool {
    v matches Some(JsonValue::Object(_))
}

/// The strings among `items`, in order.
pub open spec fn texts_in(items: Seq<JsonValue>) -> Seq<Seq<char>>
    decreases items.len(),
{
    if items.len() == 0 {
        Seq::empty()
    } else {
        match items.last() {
            JsonValue::Text(s) => texts_in(items.drop_last()).push(s@),
            _ => texts_in(items.drop_last()),
        }
    }
}

/// The retired names a manifest declares: the strings of its `retired_keys`
/// array, or the built-in retired keys when it has no such array or no
/// string in it.
pub open spec fn declared_retired(doc: JsonValue) -> Seq<Seq<char>> {
    match items_of(member(Some(doc), "retired_keys"@)) {
        Some(items) => if texts_in(items).len() > 0 {
            texts_in(items)
        } else {
            retired_keys()
        },
        None => retired_keys(),
    }
}

/// The bank name a manifest declares, or `unknown`.
pub open spec fn declared_bank_name(doc: JsonValue) -> Seq<char> {
    match text_of(member(Some(doc), "bank_name"@)) {
        Some(name) => name,
        None => "unknown"@,
    }
}

pub open spec fn band_read(b: BandFacts, band: Option<JsonValue>) -> bool {
    &&& b.index == u64_of(member(band, "index"@))
    &&& opt_view(b.center) == number_text_of(member(band, "center"@))
    &&& opt_view(b.width) == number_text_of(member(band, "width"@))
}

pub open spec fn playback_read(p: PlaybackFacts, playback: Option<JsonValue>) -> bool {
    &&& opt_view(p.native_rpm) == number_text_of(member(playback, "native_rpm"@))
    &&& match p.band {
        Some(b) => is_object(member(playback, "engine_band"@)) && band_read(b, member(playback, "engine_band"@)),
        None => !is_object(member(playback, "engine_band"@)),
    }
}

/// `e` is what the loader reads of the manifest entry `v`: its file and role
/// when they are strings, its loop flag (false unless a boolean says
/// otherwise), its digest text (empty when absent) and its playback object.
pub open spec fn entry_read(e: ManifestEntryFacts, v: JsonValue) -> bool {
    &&& opt_view(e.file) == text_of(member(Some(v), "file"@))
    &&& opt_view(e.role) == text_of(member(Some(v), "role"@))
    &&& e.is_loop == match bool_of(member(Some(v), "loop"@)) {
        Some(b) => b,
        None => false,
    }
    &&& e.sha256@ == match text_of(member(Some(v), "sha256"@)) {
        Some(t) => t,
        None => Seq::empty(),
    }
    &&& match e.playback {
        Some(p) => is_object(member(Some(v), "playback"@)) && playback_read(p, member(Some(v), "playback"@)),
        None => !is_object(member(Some(v), "playback"@)),
    }
}

/// `m` is what the loader reads of the manifest document `doc`, whose
/// `files` array holds `items`.
pub open spec fn manifest_read(m: BankManifest, doc: JsonValue, items: Seq<JsonValue>) -> bool {
    &&& m.bank_name@ == declared_bank_name(doc)
    &&& string_views(m.retired_names@) == declared_retired(doc)
    &&& m.entries@.len() == items.len()
    &&& forall|i: int| 0 <= i < items.len() ==> #[trigger] entry_read(m.entries@[i], items[i])
}

fn text_member(v: Option<&JsonValue>, key: &str) -> (r: Option<String>)
    ensures
        opt_view(r) == text_of(member(opt_value(v), key@)),
{
    match json_member(v, key) {
        Some(JsonValue::Text(s)) => Some(s.clone()),
        _ => None,
    }
}

fn number_text_member(v: Option<&JsonValue>, key: &str) -> (r: Option<String>)
    ensures
        opt_view(r) == number_text_of(member(opt_value(v), key@)),
{
    match json_member(v, key) {
        Some(JsonValue::Number(_, t)) => Some(t.clone()),
        _ => None,
    }
}

fn band_facts(band: Option<&JsonValue>) -> (r: BandFacts)
    ensures
        band_read(r, opt_value(band)),
{
    let index = match json_member(band, "index") {
        Some(JsonValue::Number(n, _)) => *n,
        _ => None,
    };
    BandFacts { index, center: number_text_member(band, "center"), width: number_text_member(band, "width") }
}

fn playback_facts(playback: Option<&JsonValue>) -> (r: PlaybackFacts)
    ensures
        playback_read(r, opt_value(playback)),
{
    let native_rpm = number_text_member(playback, "native_rpm");
    let band_value = json_member(playback, "engine_band");
    let band = match band_value {
        Some(JsonValue::Object(_)) => Some(band_facts(band_value)),
        _ => None,
    };
    PlaybackFacts { native_rpm, band }
}

fn entry_facts(entry: &JsonValue) -> (r: ManifestEntryFacts)
    ensures
        entry_read(r, *entry),
{
    let v = Some(entry);
    let is_loop = match json_member(v, "loop") {
        Some(JsonValue::Bool(b)) => *b,
        _ => false,
    };
    let sha256 = match text_member(v, "sha256") {
        Some(t) => t,
        None => String::new(),
    };
    let playback_value = json_member(v, "playback");
    let playback = match playback_value {
        Some(JsonValue::Object(_)) => Some(playback_facts(playback_value)),
        _ => None,
    };
    ManifestEntryFacts { file: text_member(v, "file"), role: text_member(v, "role"), is_loop, sha256, playback }
}

fn builtin_retired_names() -> (r: Vec<String>)
    ensures
        string_views(r@) == retired_keys(),
{
    let mut out: Vec<String> = Vec::new();
    let mut i: usize = 0;
    while i < 8
        invariant
            i <= 8,
            out@.len() == i,
            string_views(out@) == retired_keys().take(i as int),
        decreases 8 - i,
    {
        let name = RETIRED_KEYS[i];
        proof {
            assert(name@ == retired_keys()[i as int]);
        }
        let ghost before = out@;
        out.push(String::from_str(name));
        assert forall|k: int| 0 <= k < i + 1 implies #[trigger] string_views(out@)[k] == retired_keys().take(i + 1)[k] by {
            if k < i {
                assert(out@[k] == before[k]);
                assert(string_views(before)[k] == retired_keys().take(i as int)[k]);
            }
        }
        assert(string_views(out@) =~= retired_keys().take(i + 1));
        i = i + 1;
    }
    assert(retired_keys().take(8) =~= retired_keys());
    out
}

fn retired_names_of(doc: &JsonValue) -> (r: Vec<String>)
    ensures
        string_views(r@) == declared_retired(*doc),
{
    match json_member(Some(doc), "retired_keys") {
        Some(JsonValue::Array(items)) => {
            let mut out: Vec<String> = Vec::new();
            let n = items.len();
            let mut i: usize = 0;
            while i < n
                invariant
                    n == items@.len(),
                    i <= n,
                    string_views(out@) == texts_in(items@.take(i as int)),
                decreases n - i,
            {
                assert(items@.take(i + 1).drop_last() =~= items@.take(i as int));
                match &items[i] {
                    JsonValue::Text(s) => {
                        out.push(s.clone());
                    },
                    _ => {},
                }
                assert(string_views(out@) =~= texts_in(items@.take(i + 1)));
                i = i + 1;
            }
            assert(items@.take(n as int) =~= items@);
            if out.len() == 0 {
                builtin_retired_names()
            } else {
                out
            }
        },
        _ => builtin_retired_names(),
    }
}

/// What the loader reads of a parsed manifest document: the bank name
/// (`unknown` when it gives none), the retired names (the built-in list when
/// it declares none) and what it reads of each entry of its `files` array, in
/// order. Refused when the document has no `files` array.
pub fn bank_manifest_of(doc: &JsonValue) -> (r: Result<BankManifest, BankError>)
    ensures
        match items_of(member(Some(*doc), "files"@)) {
            None => r is Err && (r->Err_0 matches BankError::InvalidManifest(m) && m@ == "files missing"@),
            Some(items) => r is Ok && manifest_read(r->Ok_0, *doc, items),
        },
{
    let root = Some(doc);
    let items = match json_member(root, "files") {
        Some(JsonValue::Array(items)) => items,
        _ => {
            return Err(BankError::InvalidManifest(String::from_str("files missing")));
        },
    };
    let bank_name = match text_member(root, "bank_name") {
        Some(name) => name,
        None => String::from_str("unknown"),
    };
    let retired_names = retired_names_of(doc);
    let mut entries: Vec<ManifestEntryFacts> = Vec::new();
    let n = items.len();
    let mut i: usize = 0;
    while i < n
        invariant
            n == items@.len(),
            i <= n,
            entries@.len() == i,
            forall|k: int| 0 <= k < i ==> #[trigger] entry_read(entries@[k], items@[k]),
        decreases n - i,
    {
        entries.push(entry_facts(&items[i]));
        i = i + 1;
    }
    Ok(BankManifest { bank_name, retired_names, entries })
}

/// Reads a bank manifest from its JSON text, as `bank_manifest_of` reads the
/// document. Refused when the text is not JSON, with the reader's reason.
pub fn read_bank_manifest(text: &str) -> (r: Result<BankManifest, BankError>)
    ensures
        match json_document(text@) {
            Err(reason) => r is Err && (r->Err_0 matches BankError::InvalidManifest(m) && m@ == reason@),
            Ok(doc) => match items_of(member(Some(doc), "files"@)) {
                None => r is Err && (r->Err_0 matches BankError::InvalidManifest(m) && m@ == "files missing"@),
                Some(items) => r is Ok && manifest_read(r->Ok_0, doc, items),
            },
        },
{
    match parse_json_document(text) {
        Ok(doc) => bank_manifest_of(&doc),
        Err(reason) => Err(BankError::InvalidManifest(reason)),
    }
}

/// The key and role of a manifest entry: the key is its file name without
/// `.wav`, the role is its own or else its file name. Refused when the entry
/// has no file name, or when its key is retired.
pub fn manifest_entry_key(entry: &ManifestEntryFacts) -> (r: Result<(String, String), BankError>)
    ensures
        match entry.file {
            None => r is Err && (r->Err_0 matches BankError::InvalidManifest(m) && m@ == "file field missing"@),
            Some(file) => if retired_keys().contains(strip_wav(file@)) {
                r is Err && (r->Err_0 matches BankError::InvalidManifest(m)
                    && m@ == "retired key present in bank: "@ + strip_wav(file@))
            } else {
                r is Ok && r->Ok_0.0@ == strip_wav(file@) && r->Ok_0.1@ == match entry.role {
                    Some(role) => role@,
                    None => file@,
                }
            },
        },
{
    let file = match &entry.file {
        Some(file) => file,
        None => {
            return Err(BankError::InvalidManifest(String::from_str("file field missing")));
        },
    };
    let key = entry_key(file.as_str())?;
    let role = match &entry.role {
        Some(role) => role.clone(),
        None => file.clone(),
    };
    Ok((key, role))
}

/// Why a playback object is refused, given whether its native rpm is finite
/// and positive and whether its band's centre and width lie in [0, 1] with a
/// non-zero width: the first missing or invalid value, in the order the
/// loader reads them.
pub open spec fn playback_refusal(p: PlaybackFacts, native_positive: bool, band_in_range: bool) -> Option<Seq<char>> {
    if p.native_rpm is None {
        Some("native_rpm missing"@)
    } else if !native_positive {
        Some("native_rpm must be positive"@)
    } else {
        match p.band {
            None => None,
            Some(b) => if b.index is None {
                Some("band index missing"@)
            } else if b.center is None {
                Some("band center missing"@)
            } else if b.width is None {
                Some("band width missing"@)
            } else if b.index->0 >= ENGINE_BAND_COUNT || !band_in_range {
                Some("invalid engine band index/center/width"@)
            } else {
                None
            },
        }
    }
}

fn playback_error(file: &str, what: &str) -> (r: BankError)
    ensures
        r matches BankError::InvalidPlayback(m) && m@ == file@ + ": "@ + what@,
{
    let mut m = String::from_str(file);
    m.append(": ");
    m.append(what);
    BankError::InvalidPlayback(m)
}

/// Checks the playback object of the entry `file`; the caller tells whether
/// its native rpm, read as a real number, is finite and positive, and
/// whether its band's centre and width lie in [0, 1] with a non-zero width.
pub fn check_playback(file: &str, playback: &PlaybackFacts, native_positive: bool, band_in_range: bool) -> (r: Result<(), BankError>)
    ensures
        match playback_refusal(*playback, native_positive, band_in_range) {
            None => r is Ok,
            Some(what) => r is Err && (r->Err_0 matches BankError::InvalidPlayback(m) && m@ == file@ + ": "@ + what),
        },
{
    if playback.native_rpm.is_none() {
        return Err(playback_error(file, "native_rpm missing"));
    }
    if !native_positive {
        return Err(playback_error(file, "native_rpm must be positive"));
    }
    match &playback.band {
        None => Ok(()),
        Some(b) => {
            let index = match b.index {
                Some(index) => index,
                None => {
                    return Err(playback_error(file, "band index missing"));
                },
            };
            if b.center.is_none() {
                return Err(playback_error(file, "band center missing"));
            }
            if b.width.is_none() {
                return Err(playback_error(file, "band width missing"));
            }
            if index >= ENGINE_BAND_COUNT as u64 || !band_in_range {
                return Err(playback_error(file, "invalid engine band index/center/width"));
            }
            Ok(())
        },
    }
}

/// Checks the layout of a loaded bank: the engine bands, by their indices in
/// manifest order, must be absent or the complete set (their order by index
/// is returned, as `engine_band_order` gives it); and an `exhaust-mic`
/// sample needs a native rpm.
pub fn check_bank_layout(indices: &Vec<usize>, has_exhaust_sample: bool, has_exhaust_native: bool) -> (r: Result<Vec<usize>, BankError>)
    ensures
        !(indices@.len() == 0 || (indices@.len() == ENGINE_BAND_COUNT
            && forall|b: int| 0 <= b < ENGINE_BAND_COUNT ==> #[trigger] indices@.contains(b as usize))) ==> r is Err
            && (r->Err_0 matches BankError::InvalidPlayback(m) && m@ == "expected 5 unique ordered engine bands"@),
        (indices@.len() == 0 || (indices@.len() == ENGINE_BAND_COUNT
            && forall|b: int| 0 <= b < ENGINE_BAND_COUNT ==> #[trigger] indices@.contains(b as usize))) ==> if has_exhaust_sample && !has_exhaust_native {
            r is Err && (r->Err_0 matches BankError::InvalidPlayback(m) && m@ == "exhaust-mic: native_rpm missing"@)
        } else {
            r matches Ok(order) && order@.len() == indices@.len()
                && forall|b: int| 0 <= b < order@.len() ==> #[trigger] order@[b] < indices@.len()
                    && indices@[order@[b] as int] == b
        },
{
    let order = match engine_band_order(indices) {
        Some(order) => order,
        None => {
            return Err(BankError::InvalidPlayback(String::from_str("expected 5 unique ordered engine bands")));
        },
    };
    if has_exhaust_sample && !has_exhaust_native {
        return Err(BankError::InvalidPlayback(String::from_str("exhaust-mic: native_rpm missing")));
    }
    Ok(order)
}

} // verus!

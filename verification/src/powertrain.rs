//! The `audio.powertrain_synthesis` contract: its model enums and the
//! validation of the cylinder layout (model shape, firing order, and the
//! number of firing phases).

use vstd::prelude::*;
use vstd::string::*;
use crate::config::ConfigDiagnostic;
use crate::text::{push_decimal, decimal, lemma_decimal_injective, lemma_decimal_len};
use crate::config_keys::{json_document, json_member, member, parse_json_document, JsonValue};

verus! {

/// Dot path of the powertrain synthesis section inside a physics profile JSON.
pub const PROFILE_SECTION: &'static str = "audio.powertrain_synthesis";

/// Engine synthesis model family.
#[derive(Debug, Clone, Copy, PartialEq, Eq, Structural)]
pub enum SynthesisModel {
    /// Half-block V10: one cylinder bank is physically simulated, the second
    /// bank is derived from it.
    HalfBlock5FourStroke,
}

/// Combustion cycle.
#[derive(Debug, Clone, Copy, PartialEq, Eq, Structural)]
pub enum Cycle {
    FourStroke,
}

/// Aspiration type.
#[derive(Debug, Clone, Copy, PartialEq, Eq, Structural)]
pub enum Aspiration {
    NaturallyAspirated,
}

/// Limiter cut curve shape.
#[derive(Debug, Clone, Copy, PartialEq, Eq, Structural)]
pub enum CutShape {
    /// Gradual cut starting before the limiter threshold.
    Soft,
    /// Hard cut right at the limiter threshold.
    Hard,
}

/// Oscillator waveform of a modular voice.
#[derive(Debug, Clone, Copy, PartialEq, Eq, Structural)]
pub enum Waveform {
    Saw,
    Square,
    Noise,
}

impl Default for SynthesisModel {
    fn default() -> (r: Self)
        ensures
            r == SynthesisModel::HalfBlock5FourStroke,
    {
        SynthesisModel::HalfBlock5FourStroke
    }
}

impl Default for Cycle {
    fn default() -> (r: Self)
        ensures
            r == Cycle::FourStroke,
    {
        Cycle::FourStroke
    }
}

impl Default for Aspiration {
    fn default() -> (r: Self)
        ensures
            r == Aspiration::NaturallyAspirated,
    {
        Aspiration::NaturallyAspirated
    }
}

impl Default for CutShape {
    fn default() -> (r: Self)
        ensures
            r == CutShape::Soft,
    {
        CutShape::Soft
    }
}

/// A diagnostic as plain text: `(path, message)`.
pub open spec fn diag_text(d: ConfigDiagnostic) -> (Seq<char>, Seq<char>) {
    (d.path@, d.message@)
}

/// Path of a field of the section.
pub open spec fn field_path(field: Seq<char>) -> Seq<char> {
    "audio.powertrain_synthesis."@ + field
}

/// Path of an element of a list field of the section.
pub open spec fn element_path(field: Seq<char>, index: nat) -> Seq<char> {
    field_path(field) + "["@ + decimal(index) + "]"@
}

/// Diagnostics of the model shape: schema version 1, ten cylinders of which
/// five are simulated, two banks.
pub open spec fn core_diagnostics(schema_version: u32, total: u32, simulated: u32, banks: u32) -> Seq<(Seq<char>, Seq<char>)> {
    (if schema_version != 1 {
        seq![(field_path("schema_version"@),
            "unsupported schema_version "@ + decimal(schema_version as nat) + "; contract version 1 is required"@)]
    } else {
        Seq::empty()
    }) + (if total != 10 {
        seq![(field_path("total_cylinders"@), "must be 10 for half_block_5_four_stroke model"@)]
    } else {
        Seq::empty()
    }) + (if simulated != 5 {
        seq![(field_path("physically_simulated_cylinders"@), "must be 5 for half_block_5_four_stroke model"@)]
    } else {
        Seq::empty()
    }) + (if banks != 2 {
        seq![(field_path("bank_count"@), "must be 2 for half_block_5_four_stroke model"@)]
    } else {
        Seq::empty()
    })
}

/// Diagnostics of the firing-order entry at `index`: outside `1..=total`, and
/// repeated from an earlier entry.
pub open spec fn firing_entry_diagnostics(order: Seq<u8>, total: u32, index: int) -> Seq<(Seq<char>, Seq<char>)> {
    let c = order[index];
    (if c == 0 || c as int > total as int {
        seq![(element_path("firing_order"@, index as nat),
            "cylinder "@ + decimal(c as nat) + " outside 1..="@ + decimal(total as nat))]
    } else {
        Seq::empty()
    }) + (if exists|j: int| 0 <= j < index && order[j] == c {
        seq![(element_path("firing_order"@, index as nat),
            "duplicate cylinder "@ + decimal(c as nat) + " in firing_order"@)]
    } else {
        Seq::empty()
    })
}

/// Diagnostics of the first `n` firing-order entries.
pub open spec fn firing_entries_diagnostics(order: Seq<u8>, total: u32, n: int) -> Seq<(Seq<char>, Seq<char>)>
    decreases n,
{
    if n <= 0 {
        Seq::empty()
    } else {
        firing_entries_diagnostics(order, total, n - 1) + firing_entry_diagnostics(order, total, n - 1)
    }
}

/// Diagnostics of a firing order: one entry per cylinder, then each entry.
pub open spec fn firing_order_diagnostics(order: Seq<u8>, total: u32) -> Seq<(Seq<char>, Seq<char>)> {
    (if order.len() != total as int {
        seq![(field_path("firing_order"@),
            "must list one entry per cylinder; total_cylinders is "@ + decimal(total as nat) + " but got "@
                + decimal(order.len()))]
    } else {
        Seq::empty()
    }) + firing_entries_diagnostics(order, total, order.len() as int)
}

/// An element of a concatenation is an element of one of its parts.
pub proof fn lemma_concat_contains<A>(a: Seq<A>, b: Seq<A>, x: A)
    ensures
        (a + b).contains(x) <==> (a.contains(x) || b.contains(x)),
{
    if (a + b).contains(x) {
        let k = choose|k: int| 0 <= k < (a + b).len() && (a + b)[k] == x;
        if k < a.len() {
            assert(a[k] == x);
        } else {
            assert(b[k - a.len()] == x);
        }
    }
    if a.contains(x) {
        let k = choose|k: int| 0 <= k < a.len() && a[k] == x;
        assert((a + b)[k] == x);
    }
    if b.contains(x) {
        let k = choose|k: int| 0 <= k < b.len() && b[k] == x;
        assert((a + b)[k + a.len()] == x);
    }
}

/// What the first `n` entries report is what some entry below `n` reports.
proof fn lemma_entries_contain(order: Seq<u8>, total: u32, n: int, x: (Seq<char>, Seq<char>))
    ensures
        firing_entries_diagnostics(order, total, n).contains(x)
            <==> exists|j: int| 0 <= j < n && #[trigger] firing_entry_diagnostics(order, total, j).contains(x),
    decreases n,
{
    if n > 0 {
        lemma_entries_contain(order, total, n - 1, x);
        lemma_concat_contains(
            firing_entries_diagnostics(order, total, n - 1),
            firing_entry_diagnostics(order, total, n - 1),
            x,
        );
    }
}

proof fn lemma_strip_affixes(p: Seq<char>, a: Seq<char>, b: Seq<char>, q: Seq<char>)
    requires
        p + a + q == p + b + q,
    ensures
        a == b,
{
    assert((p + a).len() == p.len() + a.len());
    assert((p + b).len() == p.len() + b.len());
    assert((p + a + q).len() == (p + a).len() + q.len());
    assert((p + b + q).len() == (p + b).len() + q.len());
    assert(a.len() == b.len());
    assert((p + a + q).subrange(p.len() as int, (p.len() + a.len()) as int)
        == (p + b + q).subrange(p.len() as int, (p.len() + b.len()) as int));
    assert(a =~= (p + a + q).subrange(p.len() as int, (p.len() + a.len()) as int));
    assert(b =~= (p + b + q).subrange(p.len() as int, (p.len() + b.len()) as int));
}

/// The firing-order entry at `i` is reported as a cylinder outside
/// `1..=total` exactly when it is 0 or greater than `total`.
pub proof fn lemma_firing_entry_out_of_range(order: Seq<u8>, total: u32, i: int)
    requires
        0 <= i < order.len(),
    ensures
        firing_order_diagnostics(order, total).contains((
            "audio.powertrain_synthesis.firing_order["@ + decimal(i as nat) + "]"@,
            "cylinder "@ + decimal(order[i] as nat) + " outside 1..="@ + decimal(total as nat),
        )) <==> (order[i] == 0 || order[i] > total),
{
    let x = (
        "audio.powertrain_synthesis.firing_order["@ + decimal(i as nat) + "]"@,
        "cylinder "@ + decimal(order[i] as nat) + " outside 1..="@ + decimal(total as nat),
    );
    let n = order.len() as int;
    let head = if order.len() != total as int {
        seq![(field_path("firing_order"@),
            "must list one entry per cylinder; total_cylinders is "@ + decimal(total as nat) + " but got "@
                + decimal(order.len()))]
    } else {
        Seq::empty()
    };
    let prefix = "audio.powertrain_synthesis.firing_order["@;
    reveal_strlit("audio.powertrain_synthesis.");
    reveal_strlit("firing_order");
    reveal_strlit("[");
    reveal_strlit("audio.powertrain_synthesis.firing_order[");
    assert(field_path("firing_order"@) + "["@ =~= prefix);
    assert forall|j: int| 0 <= j < n implies #[trigger] element_path("firing_order"@, j as nat)
        == prefix + decimal(j as nat) + "]"@ by {
        assert(element_path("firing_order"@, j as nat) =~= prefix + decimal(j as nat) + "]"@);
    }
    lemma_concat_contains(head, firing_entries_diagnostics(order, total, n), x);
    lemma_entries_contain(order, total, n, x);
    lemma_decimal_len(i as nat);
    // The count diagnostic sits at a shorter path.
    assert(!head.contains(x)) by {
        if head.contains(x) {
            assert(head[0] == x);
            reveal_strlit("audio.powertrain_synthesis.");
            reveal_strlit("firing_order");
            reveal_strlit("audio.powertrain_synthesis.firing_order[");
            assert(x.0.len() > field_path("firing_order"@).len());
        }
    }
    let own = firing_entry_diagnostics(order, total, i);
    if order[i] == 0 || order[i] > total {
        assert(own[0] == x);
        assert(own.contains(x));
    }
    if exists|j: int| 0 <= j < n && #[trigger] firing_entry_diagnostics(order, total, j).contains(x) {
        let j = choose|j: int| 0 <= j < n && #[trigger] firing_entry_diagnostics(order, total, j).contains(x);
        let e = firing_entry_diagnostics(order, total, j);
        let k = choose|k: int| 0 <= k < e.len() && e[k] == x;
        let c = order[j];
        let range = if c == 0 || c as int > total as int {
            seq![(element_path("firing_order"@, j as nat),
                "cylinder "@ + decimal(c as nat) + " outside 1..="@ + decimal(total as nat))]
        } else {
            Seq::<(Seq<char>, Seq<char>)>::empty()
        };
        let dup = if exists|m: int| 0 <= m < j && order[m] == c {
            seq![(element_path("firing_order"@, j as nat),
                "duplicate cylinder "@ + decimal(c as nat) + " in firing_order"@)]
        } else {
            Seq::<(Seq<char>, Seq<char>)>::empty()
        };
        assert(e == range + dup);
        lemma_concat_contains(range, dup, x);
        if dup.contains(x) {
            reveal_strlit("cylinder ");
            reveal_strlit("duplicate cylinder ");
            assert(dup[0] == x);
            assert(x.1[0] == 'c');
            assert(dup[0].1[0] == 'd');
        } else {
            assert(range.contains(x));
            assert(range[0] == x);
            lemma_strip_affixes(prefix, decimal(j as nat), decimal(i as nat), "]"@);
            lemma_decimal_injective(j as nat, i as nat);
        }
    }
}

/// The firing-order entry at `i` is reported as a duplicate exactly when an
/// earlier entry names the same cylinder.
pub proof fn lemma_firing_entry_duplicate(order: Seq<u8>, total: u32, i: int)
    requires
        0 <= i < order.len(),
    ensures
        firing_order_diagnostics(order, total).contains((
            "audio.powertrain_synthesis.firing_order["@ + decimal(i as nat) + "]"@,
            "duplicate cylinder "@ + decimal(order[i] as nat) + " in firing_order"@,
        )) <==> (exists|j: int| 0 <= j < i && order[j] == order[i]),
{
    let x = (
        "audio.powertrain_synthesis.firing_order["@ + decimal(i as nat) + "]"@,
        "duplicate cylinder "@ + decimal(order[i] as nat) + " in firing_order"@,
    );
    let n = order.len() as int;
    let head = if order.len() != total as int {
        seq![(field_path("firing_order"@),
            "must list one entry per cylinder; total_cylinders is "@ + decimal(total as nat) + " but got "@
                + decimal(order.len()))]
    } else {
        Seq::empty()
    };
    let prefix = "audio.powertrain_synthesis.firing_order["@;
    reveal_strlit("audio.powertrain_synthesis.");
    reveal_strlit("firing_order");
    reveal_strlit("[");
    reveal_strlit("audio.powertrain_synthesis.firing_order[");
    assert(field_path("firing_order"@) + "["@ =~= prefix);
    assert forall|j: int| 0 <= j < n implies #[trigger] element_path("firing_order"@, j as nat)
        == prefix + decimal(j as nat) + "]"@ by {
        assert(element_path("firing_order"@, j as nat) =~= prefix + decimal(j as nat) + "]"@);
    }
    lemma_concat_contains(head, firing_entries_diagnostics(order, total, n), x);
    lemma_entries_contain(order, total, n, x);
    lemma_decimal_len(i as nat);
    assert(!head.contains(x)) by {
        if head.contains(x) {
            assert(head[0] == x);
            assert(x.0.len() > field_path("firing_order"@).len());
        }
    }
    let own = firing_entry_diagnostics(order, total, i);
    let c = order[i];
    let own_range = if c == 0 || c as int > total as int {
        seq![(element_path("firing_order"@, i as nat),
            "cylinder "@ + decimal(c as nat) + " outside 1..="@ + decimal(total as nat))]
    } else {
        Seq::<(Seq<char>, Seq<char>)>::empty()
    };
    let own_dup = if exists|m: int| 0 <= m < i && order[m] == c {
        seq![(element_path("firing_order"@, i as nat),
            "duplicate cylinder "@ + decimal(c as nat) + " in firing_order"@)]
    } else {
        Seq::<(Seq<char>, Seq<char>)>::empty()
    };
    assert(own == own_range + own_dup);
    if exists|m: int| 0 <= m < i && order[m] == c {
        assert(own_dup[0] == x);
        lemma_concat_contains(own_range, own_dup, x);
    }
    if exists|j: int| 0 <= j < n && #[trigger] firing_entry_diagnostics(order, total, j).contains(x) {
        let j = choose|j: int| 0 <= j < n && #[trigger] firing_entry_diagnostics(order, total, j).contains(x);
        let e = firing_entry_diagnostics(order, total, j);
        let cj = order[j];
        let range = if cj == 0 || cj as int > total as int {
            seq![(element_path("firing_order"@, j as nat),
                "cylinder "@ + decimal(cj as nat) + " outside 1..="@ + decimal(total as nat))]
        } else {
            Seq::<(Seq<char>, Seq<char>)>::empty()
        };
        let dup = if exists|m: int| 0 <= m < j && order[m] == cj {
            seq![(element_path("firing_order"@, j as nat),
                "duplicate cylinder "@ + decimal(cj as nat) + " in firing_order"@)]
        } else {
            Seq::<(Seq<char>, Seq<char>)>::empty()
        };
        assert(e == range + dup);
        lemma_concat_contains(range, dup, x);
        if range.contains(x) {
            reveal_strlit("cylinder ");
            reveal_strlit("duplicate cylinder ");
            assert(range[0] == x);
            assert(x.1[0] == 'd');
            assert(range[0].1[0] == 'c');
        } else {
            assert(dup.contains(x));
            assert(dup[0] == x);
            lemma_strip_affixes(prefix, decimal(j as nat), decimal(i as nat), "]"@);
            lemma_decimal_injective(j as nat, i as nat);
        }
    }
}

/// Diagnostic of the number of firing phases: one per simulated cylinder.
pub open spec fn firing_phase_count_diagnostics(count: nat, simulated: u32) -> Seq<(Seq<char>, Seq<char>)> {
    if count != simulated as nat {
        seq![(field_path("firing_phases_deg"@),
            "must list one phase per simulated cylinder;                          physically_simulated_cylinders is "@
                + decimal(simulated as nat) + " but got "@ + decimal(count))]
    } else {
        Seq::empty()
    }
}

fn field_path_string(field: &str) -> (r: String)
    ensures
        r@ == field_path(field@),
{
    let mut path = String::from_str("audio.powertrain_synthesis.");
    path.append(field);
    path
}

fn push_diag(diags: &mut Vec<ConfigDiagnostic>, path: String, message: String)
    ensures
        final(diags)@.map_values(|d: ConfigDiagnostic| diag_text(d))
            == old(diags)@.map_values(|d: ConfigDiagnostic| diag_text(d)).push((path@, message@)),
{
    diags.push(ConfigDiagnostic { path, message });
    assert(final(diags)@.map_values(|d: ConfigDiagnostic| diag_text(d))
        =~= old(diags)@.map_values(|d: ConfigDiagnostic| diag_text(d)).push((path@, message@)));
}

/// Check the model shape and append one diagnostic per offending field.
pub fn validate_core_invariants(
    schema_version: u32,
    total_cylinders: u32,
    physically_simulated_cylinders: u32,
    bank_count: u32,
    diags: &mut Vec<ConfigDiagnostic>,
)
    ensures
        final(diags)@.map_values(|d: ConfigDiagnostic| diag_text(d))
            == old(diags)@.map_values(|d: ConfigDiagnostic| diag_text(d))
                + core_diagnostics(schema_version, total_cylinders, physically_simulated_cylinders, bank_count),
{
    let ghost before = diags@.map_values(|d: ConfigDiagnostic| diag_text(d));
    if schema_version != 1 {
        let mut message = String::from_str("unsupported schema_version ");
        push_decimal(&mut message, schema_version as u64);
        message.append("; contract version 1 is required");
        push_diag(diags, field_path_string("schema_version"), message);
    }
    let ghost after_schema = diags@.map_values(|d: ConfigDiagnostic| diag_text(d));
    if total_cylinders != 10 {
        push_diag(diags, field_path_string("total_cylinders"), String::from_str("must be 10 for half_block_5_four_stroke model"));
    }
    let ghost after_total = diags@.map_values(|d: ConfigDiagnostic| diag_text(d));
    if physically_simulated_cylinders != 5 {
        push_diag(diags, field_path_string("physically_simulated_cylinders"), String::from_str("must be 5 for half_block_5_four_stroke model"));
    }
    let ghost after_simulated = diags@.map_values(|d: ConfigDiagnostic| diag_text(d));
    if bank_count != 2 {
        push_diag(diags, field_path_string("bank_count"), String::from_str("must be 2 for half_block_5_four_stroke model"));
    }
    proof {
        let c = core_diagnostics(schema_version, total_cylinders, physically_simulated_cylinders, bank_count);
        assert(diags@.map_values(|d: ConfigDiagnostic| diag_text(d)) =~= before + c);
    }
}

/// Check a firing order against the cylinder count and append its diagnostics.
pub fn validate_firing_order(order: &Vec<u8>, total_cylinders: u32, diags: &mut Vec<ConfigDiagnostic>)
    ensures
        final(diags)@.map_values(|d: ConfigDiagnostic| diag_text(d))
            == old(diags)@.map_values(|d: ConfigDiagnostic| diag_text(d))
                + firing_order_diagnostics(order@, total_cylinders),
{
    let ghost before = diags@.map_values(|d: ConfigDiagnostic| diag_text(d));
    if order.len() != total_cylinders as usize {
        let mut message = String::from_str("must list one entry per cylinder; total_cylinders is ");
        push_decimal(&mut message, total_cylinders as u64);
        message.append(" but got ");
        push_decimal(&mut message, order.len() as u64);
        push_diag(diags, field_path_string("firing_order"), message);
    }
    let ghost start = diags@.map_values(|d: ConfigDiagnostic| diag_text(d));
    assert(start == before + (if order@.len() != total_cylinders as int {
        seq![(field_path("firing_order"@),
            "must list one entry per cylinder; total_cylinders is "@ + decimal(total_cylinders as nat) + " but got "@
                + decimal(order@.len()))]
    } else {
        Seq::empty()
    }));
    let mut seen: Vec<bool> = vec![false; 256];
    let mut index: usize = 0;
    while index < order.len()
        invariant
            index <= order@.len(),
            seen@.len() == 256,
            forall|c: int| 0 <= c < 256 ==> (#[trigger] seen@[c] <==> exists|j: int| 0 <= j < index && order@[j] == c),
            diags@.map_values(|d: ConfigDiagnostic| diag_text(d)) == start + firing_entries_diagnostics(order@, total_cylinders, index as int),
        decreases order@.len() - index,
    {
        let cylinder = order[index];
        let ghost mid = diags@.map_values(|d: ConfigDiagnostic| diag_text(d));
        if cylinder == 0 || cylinder as u32 > total_cylinders {
            let mut path = field_path_string("firing_order");
            path.append("[");
            push_decimal(&mut path, index as u64);
            path.append("]");
            let mut message = String::from_str("cylinder ");
            push_decimal(&mut message, cylinder as u64);
            message.append(" outside 1..=");
            push_decimal(&mut message, total_cylinders as u64);
            push_diag(diags, path, message);
        }
        let ghost mid2 = diags@.map_values(|d: ConfigDiagnostic| diag_text(d));
        let duplicate = seen[cylinder as usize];
        if duplicate {
            let mut path = field_path_string("firing_order");
            path.append("[");
            push_decimal(&mut path, index as u64);
            path.append("]");
            let mut message = String::from_str("duplicate cylinder ");
            push_decimal(&mut message, cylinder as u64);
            message.append(" in firing_order");
            push_diag(diags, path, message);
        }
        seen.set(cylinder as usize, true);
        proof {
            let e = firing_entry_diagnostics(order@, total_cylinders, index as int);
            assert(duplicate == exists|j: int| 0 <= j < index && order@[j] == cylinder);
            assert(diags@.map_values(|d: ConfigDiagnostic| diag_text(d)) =~= mid + e);
            assert(firing_entries_diagnostics(order@, total_cylinders, index + 1)
                == firing_entries_diagnostics(order@, total_cylinders, index as int) + e);
            assert forall|c: int| 0 <= c < 256 implies (#[trigger] seen@[c] <==> exists|j: int| 0 <= j < index + 1 && order@[j] == c) by {
                if c == cylinder {
                    assert(order@[index as int] == c);
                } else {
                    if exists|j: int| 0 <= j < index + 1 && order@[j] == c {
                        let j = choose|j: int| 0 <= j < index + 1 && order@[j] == c;
                        assert(j < index);
                    }
                }
            }
        }
        index = index + 1;
    }
}

/// Check the number of firing phases against the simulated cylinders.
pub fn validate_firing_phase_count(count: usize, physically_simulated_cylinders: u32, diags: &mut Vec<ConfigDiagnostic>)
    ensures
        final(diags)@.map_values(|d: ConfigDiagnostic| diag_text(d))
            == old(diags)@.map_values(|d: ConfigDiagnostic| diag_text(d))
                + firing_phase_count_diagnostics(count as nat, physically_simulated_cylinders),
{
    let ghost before = diags@.map_values(|d: ConfigDiagnostic| diag_text(d));
    if count as u64 != physically_simulated_cylinders as u64 {
        let mut message = String::from_str("must list one phase per simulated cylinder;                          physically_simulated_cylinders is ");
        push_decimal(&mut message, physically_simulated_cylinders as u64);
        message.append(" but got ");
        push_decimal(&mut message, count as u64);
        push_diag(diags, field_path_string("firing_phases_deg"), message);
    }
    assert(diags@.map_values(|d: ConfigDiagnostic| diag_text(d))
        =~= before + firing_phase_count_diagnostics(count as nat, physically_simulated_cylinders));
}

/// Is the `audio.powertrain_synthesis` section of a physics profile present
/// (and not `null`)? A text that is not JSON is refused with
/// `invalid JSON: ` and the reader's reason.
pub fn profile_section_present(json: &str) -> (r: Result<bool, String>)
    ensures
        match json_document(json@) {
            Err(reason) => r matches Err(m) && m@ == "invalid JSON: "@ + reason@,
            Ok(doc) => r == Ok::<bool, String>(
                match member(member(Some(doc), "audio"@), "powertrain_synthesis"@) {
                    None => false,
                    Some(JsonValue::Null) => false,
                    Some(_) => true,
                },
            ),
        },
{
    let doc = match parse_json_document(json) {
        Ok(doc) => doc,
        Err(reason) => {
            let mut m = String::from_str("invalid JSON: ");
            m.append(reason.as_str());
            return Err(m);
        },
    };
    let audio = json_member(Some(&doc), "audio");
    match json_member(audio, "powertrain_synthesis") {
        None => Ok(false),
        Some(JsonValue::Null) => Ok(false),
        Some(_) => Ok(true),
    }
}

/// A diagnostic as one line: `path: message`.
pub open spec fn diag_line(d: ConfigDiagnostic) -> Seq<char> {
    d.path@ + ": "@ + d.message@
}

/// The lines of the diagnostics, joined by newlines.
pub open spec fn joined_diag_lines(diags: Seq<ConfigDiagnostic>) -> Seq<char>
    decreases diags.len(),
{
    if diags.len() == 0 {
        Seq::empty()
    } else if diags.len() == 1 {
        diag_line(diags[0])
    } else {
        joined_diag_lines(diags.drop_last()) + "\n"@ + diag_line(diags.last())
    }
}

/// The error text of a profile whose section has diagnostics: their lines
/// joined by newlines; none when there is no diagnostic.
pub fn profile_error_text(diags: &Vec<ConfigDiagnostic>) -> (r: Option<String>)
    ensures
        (diags@.len() == 0) <==> r is None,
        r matches Some(t) ==> t@ == joined_diag_lines(diags@),
{
    let n = diags.len();
    if n == 0 {
        return None;
    }
    let mut out = String::new();
    let mut i: usize = 0;
    while i < n
        invariant
            n == diags@.len(),
            0 < n,
            i <= n,
            out@ == joined_diag_lines(diags@.take(i as int)),
        decreases n - i,
    {
        let ghost before = out@;
        assert(diags@.take(i + 1).drop_last() =~= diags@.take(i as int));
        assert(diags@.take(i + 1).last() == diags@[i as int]);
        if i > 0 {
            out.append("\n");
        } else {
            assert(diags@.take(1)[0] == diags@[0]);
            assert(before == Seq::<char>::empty());
        }
        out.append(diags[i].path.as_str());
        out.append(": ");
        out.append(diags[i].message.as_str());
        proof {
            if i == 0 {
                assert(out@ =~= diag_line(diags@[0]));
            } else {
                assert(out@ =~= before + "\n"@ + diag_line(diags@[i as int]));
            }
        }
        i = i + 1;
    }
    assert(diags@.take(n as int) =~= diags@);
    Some(out)
}

} // verus!

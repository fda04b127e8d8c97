//! Bookkeeping of the command frames handed to the renderer: which looping
//! voices are active, which must be stopped, the journal of recent one-shots
//! and the sequence numbers that identify them.

use vstd::prelude::*;
use vstd::string::*;
use crate::text::{lex_lt, lemma_lex_transitive, lemma_lex_trichotomy, str_eq, str_lt};

verus! {

pub const AUDIO_COMMAND_SCHEMA_VERSION: u32 = 2;

/// One-shots stay in the journal while they are at most this many ticks old.
pub const SHOT_JOURNAL_TICKS: u64 = 120;

#[derive(Debug, Clone, Copy, PartialEq, Eq, Structural)]
pub enum AudioBackend {
    CommonV10Commands,
    LegacyV10Pcm,
    Disabled,
}

impl Default for AudioBackend {
    fn default() -> (r: Self)
        ensures
            r == AudioBackend::Disabled,
    {
        AudioBackend::Disabled
    }
}

#[derive(Debug, Clone, Copy, PartialEq, Eq, Structural)]
pub enum CollisionKind {
    Barrier,
    Prop,
    Vehicle,
    Generic,
}

/// Per-family diagnostic muting. Muted families still emit their voices, at
/// -80 dB, so the renderer never restarts phase or changes voice identity.
#[derive(Debug, Clone, Copy, PartialEq, Eq, Structural)]
pub struct FamilyMutes {
    pub engine_int: bool,
    pub engine_ext: bool,
    pub transmission: bool,
    pub wind: bool,
    pub wheel: bool,
    pub surfaces: bool,
    pub collisions: bool,
    pub ambience: bool,
}

impl Default for FamilyMutes {
    fn default() -> (r: Self)
        ensures
            !r.engine_int && !r.engine_ext && !r.transmission && !r.wind,
            !r.wheel && !r.surfaces && !r.collisions && !r.ambience,
    {
        FamilyMutes {
            engine_int: false,
            engine_ext: false,
            transmission: false,
            wind: false,
            wheel: false,
            surfaces: false,
            collisions: false,
            ambience: false,
        }
    }
}

/// The character sequences of a list of strings.
pub open spec fn ids_of(v: Seq<String>) -> Seq<Seq<char>> {
    v.map_values(|s: String| s@)
}

/// Each element comes strictly before the next in `String` order.
pub open spec fn strictly_sorted(s: Seq<Seq<char>>) -> bool {
    forall|i: int, j: int| 0 <= i < j < s.len() ==> lex_lt(#[trigger] s[i], #[trigger] s[j])
}

/// The elements of `a` that `b` lacks, in the order of `a`.
pub open spec fn without(a: Seq<Seq<char>>, b: Seq<Seq<char>>) -> Seq<Seq<char>>
    decreases a.len(),
{
    if a.len() == 0 {
        Seq::empty()
    } else if b.contains(a.last()) {
        without(a.drop_last(), b)
    } else {
        without(a.drop_last(), b).push(a.last())
    }
}

/// An element is in `without(a, b)` exactly when it is in `a` and not in `b`.
pub proof fn lemma_without_contains(a: Seq<Seq<char>>, b: Seq<Seq<char>>, x: Seq<char>)
    ensures
        without(a, b).contains(x) <==> (a.contains(x) && !b.contains(x)),
    decreases a.len(),
{
    if a.len() > 0 {
        lemma_without_contains(a.drop_last(), b, x);
        assert(a =~= a.drop_last().push(a.last()));
        if a.drop_last().contains(x) {
            let k = choose|k: int| 0 <= k < a.drop_last().len() && a.drop_last()[k] == x;
            assert(a[k] == x);
        }
        if a.contains(x) && x != a.last() {
            let k = choose|k: int| 0 <= k < a.len() && a[k] == x;
            assert(a.drop_last()[k] == x);
        }
        if without(a, b).contains(x) && !b.contains(a.last()) && x != a.last() {
            let w = without(a.drop_last(), b);
            let k = choose|k: int| 0 <= k < w.push(a.last()).len() && w.push(a.last())[k] == x;
            assert(w[k] == x);
        }
        if !b.contains(a.last()) && x == a.last() {
            let w = without(a.drop_last(), b);
            assert(w.push(a.last())[w.len() as int] == x);
        }
        if !b.contains(a.last()) && without(a.drop_last(), b).contains(x) {
            let w = without(a.drop_last(), b);
            let k = choose|k: int| 0 <= k < w.len() && w[k] == x;
            assert(w.push(a.last())[k] == x);
        }
    }
}

/// What is left of a strictly ascending list after removing some elements is
/// still strictly ascending.
pub proof fn lemma_without_sorted(a: Seq<Seq<char>>, b: Seq<Seq<char>>)
    requires
        strictly_sorted(a),
    ensures
        strictly_sorted(without(a, b)),
    decreases a.len(),
{
    if a.len() > 0 {
        let p = a.drop_last();
        assert forall|i: int, j: int| 0 <= i < j < p.len() implies lex_lt(#[trigger] p[i], #[trigger] p[j]) by {
            assert(p[i] == a[i] && p[j] == a[j]);
        }
        lemma_without_sorted(p, b);
        if !b.contains(a.last()) {
            let w = without(p, b);
            let t = w.push(a.last());
            assert forall|i: int, j: int| 0 <= i < j < t.len() implies lex_lt(#[trigger] t[i], #[trigger] t[j]) by {
                if j == w.len() {
                    assert(t[i] == w[i]);
                    assert(w.contains(w[i]));
                    lemma_without_contains(p, b, w[i]);
                    let k = choose|k: int| 0 <= k < p.len() && p[k] == w[i];
                    assert(a[k] == p[k]);
                    assert(lex_lt(a[k], a[a.len() - 1]));
                } else {
                    assert(t[i] == w[i] && t[j] == w[j]);
                }
            }
        }
    }
}

proof fn lemma_sorted_insert(s: Seq<Seq<char>>, j: int, x: Seq<char>)
    requires
        strictly_sorted(s),
        0 <= j <= s.len(),
        forall|k: int| 0 <= k < j ==> lex_lt(#[trigger] s[k], x),
        j < s.len() ==> lex_lt(x, s[j]),
    ensures
        strictly_sorted(s.insert(j, x)),
{
    let t = s.insert(j, x);
    assert forall|a: int, b: int| 0 <= a < b < t.len() implies lex_lt(#[trigger] t[a], #[trigger] t[b]) by {
        if b < j {
        } else if b == j {
        } else if a < j {
            assert(t[b] == s[b - 1]);
            if b - 1 > j {
                assert(lex_lt(s[j], s[b - 1]));
                lemma_lex_transitive(x, s[j], s[b - 1]);
            }
            lemma_lex_transitive(s[a], x, s[b - 1]);
        } else if a == j {
            assert(t[b] == s[b - 1]);
            if b - 1 > j {
                assert(lex_lt(s[j], s[b - 1]));
                lemma_lex_transitive(x, s[j], s[b - 1]);
            }
        } else {
            assert(t[a] == s[a - 1] && t[b] == s[b - 1]);
        }
    }
}

/// A set of voice identifiers, held in ascending `String` order.
pub struct VoiceSet {
    ids: Vec<String>,
}

impl View for VoiceSet {
    type V = Seq<Seq<char>>;

    closed spec fn view(&self) -> Seq<Seq<char>> {
        ids_of(self.ids@)
    }
}

impl VoiceSet {
    /// The identifiers are strictly ascending, so none occurs twice.
    pub open spec fn wf(&self) -> bool {
        strictly_sorted(self@)
    }

    pub fn new() -> (r: Self)
        ensures
            r.wf(),
            r@ == Seq::<Seq<char>>::empty(),
    {
        let r = VoiceSet { ids: Vec::new() };
        assert(r@ =~= Seq::<Seq<char>>::empty());
        r
    }

    /// The set of the given identifiers.
    pub fn from_ids(ids: &Vec<String>) -> (r: Self)
        ensures
            r.wf(),
            r@.to_set() == ids_of(ids@).to_set(),
    {
        let mut set = VoiceSet::new();
        let mut i: usize = 0;
        while i < ids.len()
            invariant
                i <= ids@.len(),
                set.wf(),
                set@.to_set() == ids_of(ids@.subrange(0, i as int)).to_set(),
            decreases ids@.len() - i,
        {
            let id = ids[i].clone();
            set.insert(id);
            assert(ids_of(ids@.subrange(0, i + 1)) =~= ids_of(ids@.subrange(0, i as int)).push(
                ids@[i as int]@,
            ));
            proof {
                ids_of(ids@.subrange(0, i as int)).lemma_push_to_set_commute(ids@[i as int]@);
            }
            i = i + 1;
        }
        assert(ids@.subrange(0, ids@.len() as int) =~= ids@);
        set
    }

    /// Is `id` in the set?
    pub fn contains(&self, id: &str) -> (r: bool)
        ensures
            r == self@.contains(id@),
    {
        let n = self.ids.len();
        let mut j: usize = 0;
        while j < n
            invariant
                n == self@.len(),
                j <= n,
                forall|k: int| 0 <= k < j ==> self@[k] != id@,
            decreases n - j,
        {
            if str_eq(self.ids[j].as_str(), id) {
                assert(self@[j as int] == id@);
                return true;
            }
            j = j + 1;
        }
        false
    }

    /// Adds `id`, keeping the order.
    pub fn insert(&mut self, id: String)
        requires
            old(self).wf(),
        ensures
            final(self).wf(),
            final(self)@.to_set() == old(self)@.to_set().insert(id@),
    {
        let n = self.ids.len();
        let mut j: usize = 0;
        while j < n
            invariant
                n == self@.len(),
                j <= n,
                self.wf(),
                forall|k: int| 0 <= k < j ==> lex_lt(#[trigger] self@[k], id@),
            ensures
                j <= n,
                j < n ==> !lex_lt(self@[j as int], id@),
                forall|k: int| 0 <= k < j ==> lex_lt(#[trigger] self@[k], id@),
            decreases n - j,
        {
            if !str_lt(self.ids[j].as_str(), id.as_str()) {
                break;
            }
            j = j + 1;
        }
        if j < n && str_eq(self.ids[j].as_str(), id.as_str()) {
            assert(self@.to_set().insert(id@) =~= self@.to_set()) by {
                assert(self@[j as int] == id@);
            }
            return;
        }
        proof {
            if j < n {
                lemma_lex_trichotomy(self@[j as int], id@);
            }
            lemma_sorted_insert(self@, j as int, id@);
        }
        let ghost before = self@;
        self.ids.insert(j, id);
        assert(self@ =~= before.insert(j as int, id@));
        assert(self@.to_set() =~= before.to_set().insert(id@)) by {
            assert forall|x: Seq<char>| self@.to_set().contains(x) implies before.to_set().insert(id@).contains(x) by {
                let k = choose|k: int| 0 <= k < self@.len() && self@[k] == x;
                if k < j {
                    assert(before[k] == x);
                } else if k > j {
                    assert(before[k - 1] == x);
                }
            }
            assert forall|x: Seq<char>| before.to_set().insert(id@).contains(x) implies self@.to_set().contains(x) by {
                if x == id@ {
                    assert(self@[j as int] == x);
                } else {
                    let k = choose|k: int| 0 <= k < before.len() && before[k] == x;
                    if k < j {
                        assert(self@[k] == x);
                    } else {
                        assert(self@[k + 1] == x);
                    }
                }
            }
        }
    }

    /// The identifiers of `self` that `other` lacks, in ascending order.
    pub fn minus(&self, other: &VoiceSet) -> (r: Vec<String>)
        ensures
            ids_of(r@) == without(self@, other@),
    {
        let mut out: Vec<String> = Vec::new();
        let n = self.ids.len();
        let mut i: usize = 0;
        while i < n
            invariant
                n == self@.len(),
                i <= n,
                ids_of(out@) == without(self@.subrange(0, i as int), other@),
            decreases n - i,
        {
            let ghost pre = self@.subrange(0, i as int);
            let ghost next = self@.subrange(0, i + 1);
            assert(next.drop_last() =~= pre);
            assert(next.last() == self@[i as int]);
            if !other.contains(self.ids[i].as_str()) {
                out.push(self.ids[i].clone());
                assert(ids_of(out@) =~= without(pre, other@).push(self@[i as int]));
            }
            i = i + 1;
        }
        assert(self@.subrange(0, n as int) =~= self@);
        out
    }

    /// All identifiers, in ascending order.
    pub fn to_vec(&self) -> (r: Vec<String>)
        ensures
            ids_of(r@) == self@,
    {
        let mut out: Vec<String> = Vec::new();
        let n = self.ids.len();
        let mut i: usize = 0;
        while i < n
            invariant
                n == self@.len(),
                i <= n,
                ids_of(out@) == self@.subrange(0, i as int),
            decreases n - i,
        {
            let ghost pre = ids_of(out@);
            out.push(self.ids[i].clone());
            assert(ids_of(out@) =~= pre.push(self@[i as int]));
            assert(self@.subrange(0, i + 1) =~= self@.subrange(0, i as int).push(self@[i as int]));
            i = i + 1;
        }
        assert(self@.subrange(0, n as int) =~= self@);
        out
    }
}

/// Has a one-shot recorded at `tick` left the journal window at `now`?
pub open spec fn expired(now: u64, tick: u64) -> bool {
    now - tick > SHOT_JOURNAL_TICKS
}

/// The number of leading journal entries that have expired at `now`.
pub open spec fn expired_prefix<S>(now: u64, s: Seq<(u64, S)>) -> nat
    decreases s.len(),
{
    if s.len() == 0 {
        0
    } else if expired(now, s[0].0) {
        1 + expired_prefix(now, s.drop_first())
    } else {
        0
    }
}

/// The journal after the expired entries at its front have been dropped.
pub open spec fn recent<S>(now: u64, s: Seq<(u64, S)>) -> Seq<(u64, S)> {
    s.skip(expired_prefix(now, s) as int)
}

/// Each one-shot of `shots`, stamped with `tick` and numbered on from `base`:
/// the `i`-th gets the identifier `base + i + 1`.
pub open spec fn numbered<S>(tick: u64, base: u64, shots: Seq<S>) -> Seq<(u64, (u64, S))> {
    Seq::new(shots.len(), |i: int| (tick, ((base + i + 1) as u64, shots[i])))
}

/// The one-shot identifiers of a journal strictly ascend along it, so none
/// occurs twice.
pub open spec fn ids_ascending<S>(journal: Seq<(u64, (u64, S))>) -> bool {
    forall|a: int, b: int| 0 <= a < b < journal.len() ==> #[trigger] journal[a].1.0 < #[trigger] journal[b].1.0
}

/// No one-shot identifier of a journal is past `sequence`.
pub open spec fn ids_at_most<S>(journal: Seq<(u64, (u64, S))>, sequence: u64) -> bool {
    forall|k: int| 0 <= k < journal.len() ==> #[trigger] journal[k].1.0 <= sequence
}

proof fn lemma_expired_prefix_bound<S>(now: u64, s: Seq<(u64, S)>)
    ensures
        expired_prefix(now, s) <= s.len(),
        forall|k: int| 0 <= k < expired_prefix(now, s) ==> expired(now, #[trigger] s[k].0),
        expired_prefix(now, s) < s.len() ==> !expired(now, s[expired_prefix(now, s) as int].0),
    decreases s.len(),
{
    if s.len() > 0 && expired(now, s[0].0) {
        lemma_expired_prefix_bound(now, s.drop_first());
        assert forall|k: int| 0 <= k < expired_prefix(now, s) implies expired(now, #[trigger] s[k].0) by {
            if k > 0 {
                assert(s[k] == s.drop_first()[k - 1]);
            }
        }
    }
}

/// Dropping expired one-shots never loses one that is still inside the
/// window: every entry of the journal that has not expired at `now` is still
/// there afterwards.
pub proof fn lemma_recent_keeps_unexpired<S>(now: u64, s: Seq<(u64, S)>, i: int)
    requires
        0 <= i < s.len(),
        !expired(now, s[i].0),
    ensures
        recent(now, s).contains(s[i]),
{
    lemma_expired_prefix_bound(now, s);
    let p = expired_prefix(now, s) as int;
    assert(i >= p);
    assert(recent(now, s)[i - p] == s[i]);
}

/// When the journal is in tick order, nothing in it has expired after the
/// expired entries were dropped.
pub proof fn lemma_recent_all_unexpired<S>(now: u64, s: Seq<(u64, S)>)
    requires
        forall|a: int, b: int| 0 <= a < b < s.len() ==> #[trigger] s[a].0 <= #[trigger] s[b].0,
    ensures
        forall|k: int| 0 <= k < recent(now, s).len() ==> !expired(now, #[trigger] recent(now, s)[k].0),
{
    lemma_expired_prefix_bound(now, s);
    let p = expired_prefix(now, s) as int;
    assert forall|k: int| 0 <= k < recent(now, s).len() implies !expired(now, #[trigger] recent(now, s)[k].0) by {
        assert(recent(now, s)[k] == s[p + k]);
        assert(s[p].0 <= s[p + k].0);
    }
}

/// The integer state of the command adapter: active looping voices, the
/// journal of recent one-shots (each with the tick it was recorded at and its
/// identifier), the gear of the previous frame and the last one-shot
/// identifier handed out.
pub struct CommandLedger<S> {
    active: VoiceSet,
    journal: Vec<(u64, (u64, S))>,
    previous_gear: i32,
    sequence: u64,
}

impl<S> CommandLedger<S> {
    pub closed spec fn active_ids(&self) -> Seq<Seq<char>> {
        self.active@
    }

    pub closed spec fn journal_view(&self) -> Seq<(u64, (u64, S))> {
        self.journal@
    }

    pub closed spec fn gear_view(&self) -> i32 {
        self.previous_gear
    }

    pub closed spec fn sequence_view(&self) -> u64 {
        self.sequence
    }

    /// The active set is strictly ascending; the journal's identifiers
    /// strictly ascend and none is past the last identifier handed out.
    pub open spec fn wf(&self) -> bool {
        &&& strictly_sorted(self.active_ids())
        &&& ids_ascending(self.journal_view())
        &&& ids_at_most(self.journal_view(), self.sequence_view())
    }

    pub fn new() -> (r: Self)
        ensures
            r.wf(),
            r.active_ids() == Seq::<Seq<char>>::empty(),
            r.journal_view() == Seq::<(u64, (u64, S))>::empty(),
            r.gear_view() == 0,
            r.sequence_view() == 0,
    {
        let r = CommandLedger { active: VoiceSet::new(), journal: Vec::new(), previous_gear: 0, sequence: 0 };
        assert(r.active_ids() == r.active@);
        r
    }

    /// The gear-change one-shot of this frame, if any: `Some(true)` for an
    /// upshift, `Some(false)` for a downshift. A change away from neutral of
    /// the previous frame, or while the interior engine family is muted,
    /// gives none.
    pub fn gear_shift(&self, gear: i32, muted: bool) -> (r: Option<bool>)
        ensures
            r == (if !muted && self.gear_view() != 0 && gear != self.gear_view() {
                Some(gear > self.gear_view())
            } else {
                None
            }),
    {
        if !muted && self.previous_gear != 0 && gear != self.previous_gear {
            Some(gear > self.previous_gear)
        } else {
            None
        }
    }

    /// Closes a frame of the command backend at `tick`: numbers `shots` in
    /// order after the last identifier handed out and journals them, drops
    /// the expired front of the journal, makes `voice_ids` the active set and
    /// returns the previously active identifiers that are no longer voiced,
    /// in ascending order.
    pub fn commit(&mut self, tick: u64, voice_ids: &Vec<String>, shots: Vec<S>, gear: i32) -> (stops: Vec<String>)
        requires
            old(self).wf(),
            old(self).sequence_view() + shots@.len() <= u64::MAX,
        ensures
            final(self).wf(),
            ids_of(stops@) == without(old(self).active_ids(), final(self).active_ids()),
            strictly_sorted(ids_of(stops@)),
            strictly_sorted(final(self).active_ids()),
            final(self).active_ids().to_set() == ids_of(voice_ids@).to_set(),
            final(self).journal_view() == recent(
                tick,
                old(self).journal_view() + numbered(tick, old(self).sequence_view(), shots@),
            ),
            ids_ascending(final(self).journal_view()),
            final(self).sequence_view() == old(self).sequence_view() + shots@.len(),
            final(self).gear_view() == gear,
    {
        let ghost journal0 = self.journal@;
        let ghost sequence0 = self.sequence;
        let ghost appended = journal0 + numbered(tick, sequence0, shots@);
        let ghost active0 = self.active;
        let mut rest = shots;
        let ghost incoming = rest@;
        while rest.len() > 0
            invariant
                0 <= incoming.len() - rest@.len(),
                rest@ == incoming.skip(incoming.len() - rest@.len()),
                self.sequence == sequence0 + (incoming.len() - rest@.len()),
                sequence0 + incoming.len() <= u64::MAX,
                self.journal@ + numbered(tick, self.sequence, rest@) == appended,
                self.active == active0,
            decreases rest@.len(),
        {
            let ghost before_rest = rest@;
            let ghost before_journal = self.journal@;
            let ghost before_sequence = self.sequence;
            let shot = rest.remove(0);
            self.sequence = self.sequence + 1;
            let id = self.sequence;
            self.journal.push((tick, (id, shot)));
            assert(rest@ =~= incoming.skip(incoming.len() - rest@.len())) by {
                assert(rest@ =~= before_rest.drop_first());
            }
            assert(self.journal@ + numbered(tick, self.sequence, rest@)
                =~= before_journal + numbered(tick, before_sequence, before_rest)) by {
                assert(numbered(tick, before_sequence, before_rest)
                    =~= seq![(tick, (id, shot))] + numbered(tick, self.sequence, rest@));
            }
        }
        assert(numbered(tick, self.sequence, rest@) =~= Seq::<(u64, (u64, S))>::empty());
        assert(self.journal@ =~= appended);
        proof {
            let fresh = numbered(tick, sequence0, incoming);
            assert forall|a: int, b: int| 0 <= a < b < appended.len() implies #[trigger] appended[a].1.0 < #[trigger] appended[b].1.0 by {
                if b < journal0.len() {
                    assert(appended[a] == journal0[a] && appended[b] == journal0[b]);
                } else if a < journal0.len() {
                    assert(appended[a] == journal0[a]);
                    assert(appended[b] == fresh[b - journal0.len()]);
                } else {
                    assert(appended[a] == fresh[a - journal0.len()]);
                    assert(appended[b] == fresh[b - journal0.len()]);
                }
            }
            assert forall|k: int| 0 <= k < appended.len() implies #[trigger] appended[k].1.0 <= self.sequence by {
                if k < journal0.len() {
                    assert(appended[k] == journal0[k]);
                } else {
                    assert(appended[k] == fresh[k - journal0.len()]);
                }
            }
        }
        let n = self.journal.len();
        let mut k: usize = 0;
        assert(appended.skip(0) =~= appended);
        while k < n && tick.saturating_sub(self.journal[k].0) > SHOT_JOURNAL_TICKS
            invariant
                n == self.journal@.len(),
                self.journal@ == appended,
                k <= n,
                expired_prefix(tick, appended) == k + expired_prefix(tick, appended.skip(k as int)),
                self.active == active0,
            decreases n - k,
        {
            assert(appended.skip(k as int).drop_first() =~= appended.skip(k + 1));
            k = k + 1;
        }
        proof {
            if k < n {
                assert(appended.skip(k as int)[0] == appended[k as int]);
            } else {
                assert(appended.skip(k as int).len() == 0);
            }
        }
        let kept = self.journal.split_off(k);
        self.journal = kept;
        assert(self.journal@ =~= recent(tick, appended));
        assert(self.journal@ =~= appended.skip(k as int));
        assert forall|a: int, b: int| 0 <= a < b < self.journal@.len() implies #[trigger] self.journal@[a].1.0 < #[trigger] self.journal@[b].1.0 by {
            assert(self.journal@[a] == appended[a + k] && self.journal@[b] == appended[b + k]);
        }
        assert forall|j: int| 0 <= j < self.journal@.len() implies #[trigger] self.journal@[j].1.0 <= self.sequence by {
            assert(self.journal@[j] == appended[j + k]);
        }
        let next = VoiceSet::from_ids(voice_ids);
        let stops = self.active.minus(&next);
        proof {
            lemma_without_sorted(self.active@, next@);
        }
        self.active = next;
        self.previous_gear = gear;
        stops
    }

    /// Leaves the command backend: every active voice is stopped and the
    /// journal is emptied. The sequence number and the previous gear stay.
    pub fn release(&mut self) -> (stops: Vec<String>)
        requires
            old(self).wf(),
        ensures
            final(self).wf(),
            ids_of(stops@) == old(self).active_ids(),
            strictly_sorted(ids_of(stops@)),
            final(self).active_ids() == Seq::<Seq<char>>::empty(),
            final(self).journal_view() == Seq::<(u64, (u64, S))>::empty(),
            final(self).gear_view() == old(self).gear_view(),
            final(self).sequence_view() == old(self).sequence_view(),
    {
        let stops = self.active.to_vec();
        self.active = VoiceSet::new();
        self.journal = Vec::new();
        stops
    }

    /// The journal of recent one-shots, oldest first, each as its tick and
    /// its identifier with the one-shot.
    pub fn journal(&self) -> (r: &Vec<(u64, (u64, S))>)
        ensures
            r@ == self.journal_view(),
    {
        &self.journal
    }

    /// The active voice identifiers, in ascending order.
    pub fn active_voices(&self) -> (r: Vec<String>)
        ensures
            ids_of(r@) == self.active_ids(),
            self.wf() ==> strictly_sorted(ids_of(r@)),
    {
        self.active.to_vec()
    }

    pub fn previous_gear(&self) -> (r: i32)
        ensures
            r == self.gear_view(),
    {
        self.previous_gear
    }

    pub fn sequence(&self) -> (r: u64)
        ensures
            r == self.sequence_view(),
    {
        self.sequence
    }
}

/// One-shot identifiers are never handed out twice: the one-shots a frame
/// adds get identifiers past every identifier handed out before (the
/// sequence number, which `commit` only raises and `release` keeps), in
/// ascending order; and in every well-formed ledger (every ledger that `new`,
/// `commit` and `release` make is one) the identifiers of the journal, which
/// a frame replays, are distinct and ascending.
pub proof fn lemma_shot_ids_never_repeat<S>(ledger: CommandLedger<S>, tick: u64, shots: Seq<S>)
    requires
        ledger.wf(),
    ensures
        forall|a: int, b: int| 0 <= a < ledger.journal_view().len() && 0 <= b < ledger.journal_view().len() && a != b
            ==> #[trigger] ledger.journal_view()[a].1.0 != #[trigger] ledger.journal_view()[b].1.0,
        ledger.sequence_view() + shots.len() <= u64::MAX ==> {
            &&& forall|i: int| 0 <= i < shots.len()
                ==> #[trigger] numbered(tick, ledger.sequence_view(), shots)[i].1.0 > ledger.sequence_view()
            &&& ids_ascending(numbered(tick, ledger.sequence_view(), shots))
            &&& forall|i: int, k: int| 0 <= i < shots.len() && 0 <= k < ledger.journal_view().len()
                ==> #[trigger] ledger.journal_view()[k].1.0 < #[trigger] numbered(tick, ledger.sequence_view(), shots)[i].1.0
        },
{
    let j = ledger.journal_view();
    assert forall|a: int, b: int| 0 <= a < j.len() && 0 <= b < j.len() && a != b
        implies #[trigger] j[a].1.0 != #[trigger] j[b].1.0 by {
        if a < b {
            assert(j[a].1.0 < j[b].1.0);
        } else {
            assert(j[b].1.0 < j[a].1.0);
        }
    }
}

} // verus!

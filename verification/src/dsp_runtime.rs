//! The gates of the native DSP runtime: what the runtime accepts of a loaded
//! module (ABI version, build source, instance creation), how a block is
//! sized before it is handed over, and how a call's status code is read.

use vstd::prelude::*;
use vstd::string::*;
use crate::dsp_contract::{F90_DSP_ABI_VERSION, MAX_BLOCK_SAMPLES, MAX_EVENTS_PER_BLOCK};

verus! {

/// Length, in bytes, of the build source identifier.
pub const BUILD_SOURCE_LEN: usize = 40;

#[derive(Debug)]
pub enum DspRuntimeError {
    DllNotFound,
    UnsupportedPlatform,
    LoadFailed(i32),
    SymbolMissing(&'static str),
    AbiMismatch { got: u32, expected: u32 },
    BuildMismatch,
    CreateFailed(i32),
    BlockTooLarge(u32),
    ProcessFailed(i32),
}

/// The module must report the ABI version this runtime was built for.
pub fn check_abi(reported: u32) -> (r: Result<(), DspRuntimeError>)
    ensures
        r is Ok <==> reported == F90_DSP_ABI_VERSION,
        r is Err ==> (r->Err_0 matches DspRuntimeError::AbiMismatch { got, expected }
            && got == reported && expected == F90_DSP_ABI_VERSION),
{
    if reported != F90_DSP_ABI_VERSION {
        return Err(DspRuntimeError::AbiMismatch { got: reported, expected: F90_DSP_ABI_VERSION });
    }
    Ok(())
}

/// The module's build-source check answers 0 when it was built from the
/// expected source.
pub fn check_build_source(status: i32) -> (r: Result<(), DspRuntimeError>)
    ensures
        r is Ok <==> status == 0,
        r is Err ==> r->Err_0 is BuildMismatch,
{
    if status != 0 {
        return Err(DspRuntimeError::BuildMismatch);
    }
    Ok(())
}

/// Instance creation succeeds when it answers 0 and hands out a handle.
pub fn check_created(status: i32, handle_is_null: bool) -> (r: Result<(), DspRuntimeError>)
    ensures
        r is Ok <==> (status == 0 && !handle_is_null),
        r is Err ==> (r->Err_0 matches DspRuntimeError::CreateFailed(c) && c == status),
{
    if status != 0 || handle_is_null {
        return Err(DspRuntimeError::CreateFailed(status));
    }
    Ok(())
}

/// How a block is handed over: `(frames, events)`, the block's length and the
/// number of its events that are copied (at most the ABI's capacity). A
/// block longer than the runtime's buffers is refused.
pub fn plan_block(block_samples: u32, event_count: u32) -> (r: Result<(u32, usize), DspRuntimeError>)
    ensures
        r is Ok <==> block_samples <= MAX_BLOCK_SAMPLES,
        r matches Ok((frames, events)) ==> frames == block_samples
            && events == if event_count <= MAX_EVENTS_PER_BLOCK { event_count as int } else { MAX_EVENTS_PER_BLOCK as int },
        r is Err ==> (r->Err_0 matches DspRuntimeError::BlockTooLarge(n) && n == block_samples),
{
    if block_samples > MAX_BLOCK_SAMPLES as u32 {
        return Err(DspRuntimeError::BlockTooLarge(block_samples));
    }
    let events: usize = if event_count <= MAX_EVENTS_PER_BLOCK as u32 {
        event_count as usize
    } else {
        MAX_EVENTS_PER_BLOCK
    };
    Ok((block_samples, events))
}

/// A processed block produced `frames` frames when the module answered 0.
pub fn process_outcome(status: i32, frames: u32) -> (r: Result<u32, DspRuntimeError>)
    ensures
        r is Ok <==> status == 0,
        r is Ok ==> r->Ok_0 == frames,
        r is Err ==> (r->Err_0 matches DspRuntimeError::ProcessFailed(c) && c == status),
{
    if status == 0 {
        Ok(frames)
    } else {
        Err(DspRuntimeError::ProcessFailed(status))
    }
}

/// Characters with the Unicode `White_Space` property, which `str::trim`
/// removes.
pub open spec fn is_white_space(c: char) -> bool {
    ||| c == '\t' || c == '\n' || c == '\u{0B}' || c == '\u{0C}' || c == '\r' || c == ' '
    ||| c == '\u{85}' || c == '\u{A0}' || c == '\u{1680}'
    ||| ('\u{2000}' <= c && c <= '\u{200A}')
    ||| c == '\u{2028}' || c == '\u{2029}' || c == '\u{202F}' || c == '\u{205F}' || c == '\u{3000}'
}

/// The number of white-space characters at the front of `s`.
pub open spec fn leading_white(s: Seq<char>) -> nat
    decreases s.len(),
{
    if s.len() > 0 && is_white_space(s[0]) {
        1 + leading_white(s.drop_first())
    } else {
        0
    }
}

/// The number of white-space characters at the end of `s`.
pub open spec fn trailing_white(s: Seq<char>) -> nat
    decreases s.len(),
{
    if s.len() > 0 && is_white_space(s.last()) {
        1 + trailing_white(s.drop_last())
    } else {
        0
    }
}

/// `s` without white space at either end.
pub open spec fn trimmed(s: Seq<char>) -> Seq<char> {
    let t = s.skip(leading_white(s) as int);
    t.take(t.len() - trailing_white(t))
}

/// The number of bytes of a character's UTF-8 encoding.
pub open spec fn utf8_width(c: char) -> nat {
    if (c as u32) < 0x80 {
        1
    } else if (c as u32) < 0x800 {
        2
    } else if (c as u32) < 0x10000 {
        3
    } else {
        4
    }
}

/// The number of bytes of the UTF-8 encoding of `s`.
pub open spec fn utf8_len(s: Seq<char>) -> nat
    decreases s.len(),
{
    if s.len() == 0 {
        0
    } else {
        utf8_len(s.drop_last()) + utf8_width(s.last())
    }
}

/// Is there a prefix of `s` whose encoding is exactly `n` bytes long?
pub open spec fn has_byte_boundary(s: Seq<char>, n: nat) -> bool {
    exists|k: int| 0 <= k <= s.len() && #[trigger] utf8_len(s.take(k)) == n
}

/// The build source expected of the module: the raw text trimmed, then cut
/// to its first `BUILD_SOURCE_LEN` bytes when it is at least that long.
pub open spec fn expected_source(raw: Seq<char>) -> Seq<char> {
    let t = trimmed(raw);
    if utf8_len(t) >= BUILD_SOURCE_LEN {
        t.take(choose|k: int| 0 <= k <= t.len() && #[trigger] utf8_len(t.take(k)) == BUILD_SOURCE_LEN)
    } else {
        t
    }
}

proof fn lemma_utf8_len_prefix_grows(s: Seq<char>, k: int)
    requires
        0 <= k < s.len(),
    ensures
        utf8_len(s.take(k + 1)) == utf8_len(s.take(k)) + utf8_width(s[k]),
{
    assert(s.take(k + 1).drop_last() =~= s.take(k));
}

proof fn lemma_utf8_len_strictly_grows(s: Seq<char>, a: int, b: int)
    requires
        0 <= a < b <= s.len(),
    ensures
        utf8_len(s.take(a)) < utf8_len(s.take(b)),
    decreases b - a,
{
    lemma_utf8_len_prefix_grows(s, b - 1);
    if a < b - 1 {
        lemma_utf8_len_strictly_grows(s, a, b - 1);
    }
}

fn char_is_white_space(c: char) -> (r: bool)
    ensures
        r == is_white_space(c),
{
    c == '\t' || c == '\n' || c == '\u{0B}' || c == '\u{0C}' || c == '\r' || c == ' '
        || c == '\u{85}' || c == '\u{A0}' || c == '\u{1680}'
        || ('\u{2000}' <= c && c <= '\u{200A}')
        || c == '\u{2028}' || c == '\u{2029}' || c == '\u{202F}' || c == '\u{205F}' || c == '\u{3000}'
}

fn char_utf8_width(c: char) -> (r: usize)
    ensures
        r == utf8_width(c),
{
    let v = c as u32;
    if v < 0x80 {
        1
    } else if v < 0x800 {
        2
    } else if v < 0x10000 {
        3
    } else {
        4
    }
}

/// The expected build source of the module, from the text it was built
/// from. Cutting it at `BUILD_SOURCE_LEN` bytes must not split a character.
pub fn expected_build_source(raw: &str) -> (r: String)
    requires
        utf8_len(trimmed(raw@)) >= BUILD_SOURCE_LEN ==> has_byte_boundary(trimmed(raw@), BUILD_SOURCE_LEN as nat),
    ensures
        r@ == expected_source(raw@),
{
    let n = raw.unicode_len();
    let mut start: usize = 0;
    assert(raw@.skip(0) =~= raw@);
    while start < n && char_is_white_space(raw.get_char(start))
        invariant
            n == raw@.len(),
            start <= n,
            leading_white(raw@) == start + leading_white(raw@.skip(start as int)),
        decreases n - start,
    {
        assert(raw@.skip(start as int).drop_first() =~= raw@.skip(start + 1));
        start = start + 1;
    }
    proof {
        if start < n {
            assert(raw@.skip(start as int)[0] == raw@[start as int]);
        }
    }
    let rest = raw.substring_char(start, n);
    let m = rest.unicode_len();
    let mut end: usize = m;
    assert(rest@.take(m as int) =~= rest@);
    while end > 0 && char_is_white_space(rest.get_char(end - 1))
        invariant
            m == rest@.len(),
            end <= m,
            trailing_white(rest@) == (m - end) + trailing_white(rest@.take(end as int)),
        decreases end,
    {
        assert(rest@.take(end as int).drop_last() =~= rest@.take(end - 1));
        end = end - 1;
    }
    proof {
        if end > 0 {
            assert(rest@.take(end as int).last() == rest@[end - 1]);
        }
    }
    let t = rest.substring_char(0, end);
    assert(t@ =~= trimmed(raw@));
    let len = t.unicode_len();
    let mut bytes: usize = 0;
    let mut k: usize = 0;
    assert(t@.take(0) =~= Seq::<char>::empty());
    while k < len && bytes < BUILD_SOURCE_LEN
        invariant
            len == t@.len(),
            k <= len,
            bytes == utf8_len(t@.take(k as int)),
            k > 0 ==> utf8_len(t@.take(k - 1)) < BUILD_SOURCE_LEN,
        decreases len - k,
    {
        proof {
            lemma_utf8_len_prefix_grows(t@, k as int);
        }
        bytes = bytes + char_utf8_width(t.get_char(k));
        k = k + 1;
    }
    if bytes >= BUILD_SOURCE_LEN {
        proof {
            assert(t@.take(len as int) =~= t@);
            if k < len {
                lemma_utf8_len_strictly_grows(t@, k as int, len as int);
            }
            assert(utf8_len(t@) >= BUILD_SOURCE_LEN);
            assert(has_byte_boundary(t@, BUILD_SOURCE_LEN as nat));
            let w = choose|w: int| 0 <= w <= t@.len() && #[trigger] utf8_len(t@.take(w)) == BUILD_SOURCE_LEN;
            assert(0 <= w <= len && utf8_len(t@.take(w)) == BUILD_SOURCE_LEN);
            if w > k {
                lemma_utf8_len_strictly_grows(t@, k as int, w);
            }
            if w < k {
                if w < k - 1 {
                    lemma_utf8_len_strictly_grows(t@, w, k - 1);
                }
            }
            assert(w == k);
            assert(expected_source(raw@) == t@.take(w));
        }
        String::from_str(t.substring_char(0, k))
    } else {
        proof {
            assert(t@.take(len as int) =~= t@);
        }
        String::from_str(t)
    }
}

} // verus!

//! Where a terminal's output stands in the middle of a sequence.

use vstd::prelude::*;
use vstd::slice::slice_subrange;

verus! {

pub const ESC: u8 = 0x1b;

/// The first place at or after `from` whose byte ends what `ends` says.
pub open spec fn first_from(len: int, from: int, ends: spec_fn(int) -> bool) -> Option<int>
    decreases len - from,
{
    if from >= len {
        None
    } else if ends(from) {
        Some(from)
    } else {
        first_from(len, from + 1, ends)
    }
}

/// Whether a byte is the final byte of a control sequence.
pub open spec fn is_final(byte: u8) -> bool {
    0x40 <= byte <= 0x7e
}

/// Whether a byte is an intermediate byte of an escape sequence.
pub open spec fn is_intermediate(byte: u8) -> bool {
    0x20 <= byte <= 0x2f
}

/// Whether a byte after ESC opens a string sequence (OSC, DCS, APC, PM, SOS).
pub open spec fn opens_string(byte: u8) -> bool {
    byte == 0x5d || byte == 0x50 || byte == 0x5f || byte == 0x5e || byte == 0x58
}

/// Where a string sequence's terminator ends, if one begins at `j`: BEL, for
/// an OSC only, or ESC and a backslash.
pub open spec fn terminator_end(bytes: Seq<u8>, bel_terminates: bool, j: int) -> Option<int> {
    if bel_terminates && bytes[j] == 0x07 {
        Some(j + 1)
    } else if bytes[j] == ESC && j + 1 < bytes.len() && bytes[j + 1] == 0x5c {
        Some(j + 2)
    } else {
        None
    }
}

/// Where the sequence ends whose ESC is at `i`; `None` when it is unfinished.
pub open spec fn sequence_end(bytes: Seq<u8>, i: int) -> Option<int> {
    let len = bytes.len() as int;
    if i + 1 >= len {
        None
    } else if bytes[i + 1] == 0x5b {
        match first_from(len, i + 2, |j: int| is_final(bytes[j])) {
            Some(j) => Some(j + 1),
            None => None,
        }
    } else if opens_string(bytes[i + 1]) {
        let bel_terminates = bytes[i + 1] == 0x5d;
        match first_from(
            len,
            i + 2,
            |j: int| terminator_end(bytes, bel_terminates, j) is Some,
        ) {
            Some(j) => terminator_end(bytes, bel_terminates, j),
            None => None,
        }
    } else if is_intermediate(bytes[i + 1]) {
        match first_from(len, i + 2, |j: int| !is_intermediate(bytes[j])) {
            Some(j) => Some(j + 1),
            None => None,
        }
    } else {
        Some(i + 2)
    }
}

/// Where the escape sequence starts that is unfinished at the end, reading on
/// from `i` outside any sequence.
pub open spec fn unfinished_escape(bytes: Seq<u8>, i: int) -> Option<int>
    decreases bytes.len() - i,
{
    if i < 0 || i >= bytes.len() {
        None
    } else if bytes[i] != ESC {
        unfinished_escape(bytes, i + 1)
    } else {
        match sequence_end(bytes, i) {
            Some(end) => if i < end <= bytes.len() {
                unfinished_escape(bytes, end)
            } else {
                None
            },
            None => Some(i),
        }
    }
}

/// Whether a byte continues a UTF-8 character.
pub open spec fn is_continuation(byte: u8) -> bool {
    0x80 <= byte <= 0xbf
}

/// How many bytes a UTF-8 character has by its first byte; zero when none
/// starts so.
pub open spec fn character_length(lead: u8) -> int {
    if 0xc0 <= lead <= 0xdf {
        2
    } else if 0xe0 <= lead <= 0xef {
        3
    } else if 0xf0 <= lead <= 0xf7 {
        4
    } else {
        0
    }
}

/// How far from the end the last byte is that does not continue a character,
/// looking at three bytes at most.
pub open spec fn lead_distance(bytes: Seq<u8>) -> Option<int> {
    let len = bytes.len() as int;
    if len >= 1 && !is_continuation(bytes[len - 1]) {
        Some(1)
    } else if len >= 2 && !is_continuation(bytes[len - 2]) {
        Some(2)
    } else if len >= 3 && !is_continuation(bytes[len - 3]) {
        Some(3)
    } else {
        None
    }
}

/// Where the UTF-8 character starts that is cut off at the end.
pub open spec fn unfinished_character(bytes: Seq<u8>) -> Option<int> {
    match lead_distance(bytes) {
        Some(back) => if back < character_length(bytes[bytes.len() - back]) {
            Some(bytes.len() - back)
        } else {
            None
        },
        None => None,
    }
}

/// Where the sequence starts that is left unfinished at the end: an escape
/// sequence, else a character.
pub open spec fn unfinished(bytes: Seq<u8>) -> Option<int> {
    match unfinished_escape(bytes, 0) {
        Some(start) => Some(start),
        None => unfinished_character(bytes),
    }
}

/// The unfinished sequence at the end.
pub open spec fn tail(bytes: Seq<u8>) -> Seq<u8> {
    match unfinished(bytes) {
        Some(start) => bytes.skip(start),
        None => Seq::empty(),
    }
}

/// The first place from `from` on is in range, ends, and nothing before it
/// does.
pub proof fn lemma_first_from(len: int, from: int, ends: spec_fn(int) -> bool)
    ensures
        match first_from(len, from, ends) {
            Some(j) => from <= j < len && ends(j) && forall|k: int|
                from <= k < j ==> !(#[trigger] ends(k)),
            None => forall|k: int| from <= k < len ==> !(#[trigger] ends(k)),
        },
    decreases len - from,
{
    if from < len && !ends(from) {
        lemma_first_from(len, from + 1, ends);
    }
}

/// A finished sequence is longer than its ESC and ends within the bytes.
proof fn lemma_sequence_end(bytes: Seq<u8>, i: int)
    requires
        0 <= i < bytes.len(),
    ensures
        sequence_end(bytes, i) matches Some(end) ==> i + 2 <= end <= bytes.len(),
{
    let len = bytes.len() as int;
    if i + 1 < len {
        lemma_first_from(len, i + 2, |j: int| is_final(bytes[j]));
        lemma_first_from(len, i + 2, |j: int| !is_intermediate(bytes[j]));
        lemma_first_from(
            len,
            i + 2,
            |j: int| terminator_end(bytes, bytes[i + 1] == 0x5d, j) is Some,
        );
    }
}

/// Finds where the sequence ends whose ESC is at `start`.
fn find_sequence_end(bytes: &[u8], start: usize) -> (end: Option<usize>)
    requires
        start < bytes@.len(),
    ensures
        match end {
            Some(end) => sequence_end(bytes@, start as int) == Some(end as int) && start < end
                <= bytes@.len(),
            None => sequence_end(bytes@, start as int) is None,
        },
{
    let ghost len = bytes@.len() as int;
    proof {
        lemma_sequence_end(bytes@, start as int);
    }
    if bytes.len() - start < 2 {
        return None;
    }
    let kind: u8 = bytes[start + 1];
    let mut j: usize = start + 2;
    if kind == 0x5b {
        let ghost ends = |j: int| is_final(bytes@[j]);
        proof {
            lemma_first_from(len, start + 2, ends);
        }
        while j < bytes.len() && !(bytes[j] >= 0x40 && bytes[j] <= 0x7e)
            invariant
                start + 2 <= j <= bytes@.len(),
                ends == (|j: int| is_final(bytes@[j])),
                forall|k: int| start + 2 <= k < j ==> !(#[trigger] ends(k)),
            decreases bytes.len() - j,
        {
            assert(!ends(j as int));
            j += 1;
        }
        if j >= bytes.len() {
            return None;
        }
        assert(ends(j as int));
        return Some(j + 1);
    }
    if kind == 0x5d || kind == 0x50 || kind == 0x5f || kind == 0x5e || kind == 0x58 {
        let bel_terminates = kind == 0x5d;
        let ghost ends = |j: int| terminator_end(bytes@, bel_terminates, j) is Some;
        proof {
            lemma_first_from(len, start + 2, ends);
        }
        while j < bytes.len()
            invariant
                start + 2 <= j <= bytes@.len(),
                len == bytes@.len(),
                bytes@[start + 1] == kind,
                opens_string(kind),
                bel_terminates == (kind == 0x5d),
                ends == (|j: int| terminator_end(bytes@, bel_terminates, j) is Some),
                match first_from(len, start + 2, ends) {
                    Some(m) => start + 2 <= m < len && ends(m) && forall|k: int|
                        start + 2 <= k < m ==> !(#[trigger] ends(k)),
                    None => forall|k: int| start + 2 <= k < len ==> !(#[trigger] ends(k)),
                },
                forall|k: int| start + 2 <= k < j ==> !(#[trigger] ends(k)),
            decreases bytes.len() - j,
        {
            let byte: u8 = bytes[j];
            if bel_terminates && byte == 0x07 {
                assert(ends(j as int));
                return Some(j + 1);
            }
            if byte == ESC {
                if j + 1 >= bytes.len() {
                    proof {
                        assert(!ends(j as int));
                        assert forall|k: int| start + 2 <= k < len implies !(#[trigger] ends(k)) by {
                            if k >= j {
                                assert(k == j);
                            }
                        }
                    }
                    return None;
                }
                if bytes[j + 1] == 0x5c {
                    assert(ends(j as int));
                    return Some(j + 2);
                }
            }
            assert(!ends(j as int));
            j += 1;
        }
        return None;
    }
    if kind >= 0x20 && kind <= 0x2f {
        let ghost ends = |j: int| !is_intermediate(bytes@[j]);
        proof {
            lemma_first_from(len, start + 2, ends);
        }
        while j < bytes.len() && bytes[j] >= 0x20 && bytes[j] <= 0x2f
            invariant
                start + 2 <= j <= bytes@.len(),
                ends == (|j: int| !is_intermediate(bytes@[j])),
                forall|k: int| start + 2 <= k < j ==> !(#[trigger] ends(k)),
            decreases bytes.len() - j,
        {
            assert(!ends(j as int));
            j += 1;
        }
        if j >= bytes.len() {
            return None;
        }
        assert(ends(j as int));
        return Some(j + 1);
    }
    Some(start + 2)
}

/// Offset where a sequence left unfinished at the end of `bytes` starts:
/// an escape sequence without its final byte, a string sequence (OSC, DCS,
/// APC, PM, SOS) without its terminator, or a truncated UTF-8 character.
pub fn incomplete_tail_start(bytes: &[u8]) -> (start: Option<usize>)
    ensures
        match start {
            Some(start) => unfinished(bytes@) == Some(start as int) && start < bytes@.len(),
            None => unfinished(bytes@) is None,
        },
{
    let mut i: usize = 0;
    while i < bytes.len()
        invariant
            0 <= i <= bytes@.len(),
            unfinished_escape(bytes@, 0) == unfinished_escape(bytes@, i as int),
        decreases bytes.len() - i,
    {
        if bytes[i] != ESC {
            i += 1;
        } else {
            match find_sequence_end(bytes, i) {
                Some(end) => {
                    i = end;
                },
                None => {
                    return Some(i);
                },
            }
        }
    }
    incomplete_utf8_start(bytes)
}

/// Offset where a UTF-8 character cut off at the end of `bytes` starts.
pub fn incomplete_utf8_start(bytes: &[u8]) -> (start: Option<usize>)
    ensures
        match start {
            Some(start) => unfinished_character(bytes@) == Some(start as int) && start
                < bytes@.len(),
            None => unfinished_character(bytes@) is None,
        },
{
    let len: usize = bytes.len();
    let mut back: usize = 1;
    while back <= 3 && back <= len
        invariant
            1 <= back <= 4,
            len == bytes@.len(),
            forall|k: int| 1 <= k < back ==> is_continuation(#[trigger] bytes@[len - k]),
            back > 1 ==> is_continuation(bytes@[len - 1]),
            back > 2 ==> is_continuation(bytes@[len - 2]),
            back > 3 ==> is_continuation(bytes@[len - 3]),
            back <= len + 1,
        decreases 4 - back,
    {
        let byte: u8 = bytes[len - back];
        if !(byte >= 0x80 && byte <= 0xbf) {
            let needed: usize = if byte >= 0xc0 && byte <= 0xdf {
                2
            } else if byte >= 0xe0 && byte <= 0xef {
                3
            } else if byte >= 0xf0 && byte <= 0xf7 {
                4
            } else {
                0
            };
            return if back < needed {
                Some(len - back)
            } else {
                None
            };
        }
        back += 1;
    }
    None
}

/// The unfinished sequence at the end of `bytes`, unless it is longer than
/// `limit`.
pub fn short_tail(bytes: &[u8], limit: usize) -> (carried: Vec<u8>)
    ensures
        carried@ == (if tail(bytes@).len() <= limit {
            tail(bytes@)
        } else {
            Seq::empty()
        }),
{
    let mut carried: Vec<u8> = Vec::new();
    if let Some(start) = incomplete_tail_start(bytes) {
        if bytes.len() - start <= limit {
            carried.extend_from_slice(slice_subrange(bytes, start, bytes.len()));
            assert(carried@ =~= bytes@.skip(start as int));
        }
    }
    carried
}

/// A place found among fewer bytes is found among more.
proof fn lemma_first_from_agrees(
    len: int,
    longer: int,
    from: int,
    ends: spec_fn(int) -> bool,
    also_ends: spec_fn(int) -> bool,
)
    requires
        len <= longer,
        first_from(len, from, ends) is Some,
        forall|k: int|
            from <= k <= first_from(len, from, ends)->Some_0 ==> #[trigger] ends(k)
                == also_ends(k),
    ensures
        first_from(longer, from, also_ends) == first_from(len, from, ends),
    decreases len - from,
{
    lemma_first_from(len, from, ends);
    assert(ends(from) == also_ends(from));
    if !ends(from) {
        lemma_first_from_agrees(len, longer, from + 1, ends, also_ends);
    }
}

/// A place keeps its distance when bytes in front are left out.
proof fn lemma_first_from_shift(
    len: int,
    from: int,
    k: int,
    ends: spec_fn(int) -> bool,
    shifted: spec_fn(int) -> bool,
)
    requires
        forall|j: int| from <= j < len ==> #[trigger] ends(j) == shifted(j - k),
    ensures
        first_from(len, from, ends) == match first_from(len - k, from - k, shifted) {
            Some(j) => Some(j + k),
            None => None,
        },
    decreases len - from,
{
    if from < len {
        assert(ends(from) == shifted(from - k));
        if !ends(from) {
            lemma_first_from_shift(len, from + 1, k, ends, shifted);
        }
    }
}

/// A finished sequence stays finished, at the same place, whatever follows.
proof fn lemma_sequence_end_extends(a: Seq<u8>, b: Seq<u8>, i: int)
    requires
        0 <= i < a.len(),
        sequence_end(a, i) is Some,
    ensures
        sequence_end(a + b, i) == sequence_end(a, i),
{
    let s = a + b;
    let len = a.len() as int;
    let longer = s.len() as int;
    assert(s[i + 1] == a[i + 1]);
    if a[i + 1] == 0x5b {
        let ends = |j: int| is_final(a[j]);
        let also_ends = |j: int| is_final(s[j]);
        lemma_first_from(len, i + 2, ends);
        lemma_first_from_agrees(len, longer, i + 2, ends, also_ends);
    } else if opens_string(a[i + 1]) {
        let bel = a[i + 1] == 0x5d;
        let ends = |j: int| terminator_end(a, bel, j) is Some;
        let also_ends = |j: int| terminator_end(s, bel, j) is Some;
        lemma_first_from(len, i + 2, ends);
        let found = first_from(len, i + 2, ends)->Some_0;
        assert forall|k: int| i + 2 <= k <= found implies #[trigger] ends(k) == also_ends(k) by {
            if k + 1 < len {
                assert(s[k + 1] == a[k + 1]);
            } else {
                assert(k == found);
            }
        }
        lemma_first_from_agrees(len, longer, i + 2, ends, also_ends);
    } else if is_intermediate(a[i + 1]) {
        let ends = |j: int| !is_intermediate(a[j]);
        let also_ends = |j: int| !is_intermediate(s[j]);
        lemma_first_from(len, i + 2, ends);
        lemma_first_from_agrees(len, longer, i + 2, ends, also_ends);
    }
}

/// A sequence ends where it ends when bytes in front are left out.
proof fn lemma_sequence_end_shift(s: Seq<u8>, i: int, k: int)
    requires
        0 <= k <= i < s.len(),
    ensures
        sequence_end(s, i) == match sequence_end(s.skip(k), i - k) {
            Some(end) => Some(end + k),
            None => None,
        },
{
    let t = s.skip(k);
    let len = s.len() as int;
    if i + 1 < len {
        assert(t[i - k + 1] == s[i + 1]);
        let ends = |j: int| is_final(s[j]);
        let shifted = |j: int| is_final(t[j]);
        assert forall|j: int| i + 2 <= j < len implies #[trigger] ends(j) == shifted(j - k) by {
            assert(t[j - k] == s[j]);
        }
        lemma_first_from_shift(len, i + 2, k, ends, shifted);
        let bel = s[i + 1] == 0x5d;
        let ends = |j: int| terminator_end(s, bel, j) is Some;
        let shifted = |j: int| terminator_end(t, bel, j) is Some;
        assert forall|j: int| i + 2 <= j < len implies #[trigger] ends(j) == shifted(j - k) by {
            assert(t[j - k] == s[j]);
            if j + 1 < len {
                assert(t[j + 1 - k] == s[j + 1]);
            }
        }
        lemma_first_from_shift(len, i + 2, k, ends, shifted);
        lemma_first_from(len, i + 2, ends);
        if let Some(j) = first_from(len, i + 2, ends) {
            assert(t[j - k] == s[j]);
            if j + 1 < len {
                assert(t[j + 1 - k] == s[j + 1]);
            }
        }
        let ends = |j: int| !is_intermediate(s[j]);
        let shifted = |j: int| !is_intermediate(t[j]);
        assert forall|j: int| i + 2 <= j < len implies #[trigger] ends(j) == shifted(j - k) by {
            assert(t[j - k] == s[j]);
        }
        lemma_first_from_shift(len, i + 2, k, ends, shifted);
    }
}

/// An unfinished escape sequence is found where it is when bytes in front are
/// left out.
proof fn lemma_unfinished_escape_shift(s: Seq<u8>, i: int, k: int)
    requires
        0 <= k <= i <= s.len(),
    ensures
        unfinished_escape(s, i) == match unfinished_escape(s.skip(k), i - k) {
            Some(start) => Some(start + k),
            None => None,
        },
    decreases s.len() - i,
{
    let t = s.skip(k);
    if i < s.len() {
        assert(t[i - k] == s[i]);
        if s[i] != ESC {
            lemma_unfinished_escape_shift(s, i + 1, k);
        } else {
            lemma_sequence_end(s, i);
            lemma_sequence_end_shift(s, i, k);
            if let Some(end) = sequence_end(s, i) {
                lemma_unfinished_escape_shift(s, end, k);
            }
        }
    }
}

/// Reading on past `a` starts where reading `a` stopped: at its unfinished
/// escape sequence, else at its end.
pub proof fn lemma_unfinished_escape_extends(a: Seq<u8>, b: Seq<u8>, i: int)
    requires
        0 <= i <= a.len(),
    ensures
        unfinished_escape(a + b, i) == unfinished_escape(
            a + b,
            match unfinished_escape(a, i) {
                Some(start) => start,
                None => a.len() as int,
            },
        ),
        unfinished_escape(a, i) matches Some(start) ==> i <= start < a.len() && a[start] == ESC,
    decreases a.len() - i,
{
    let s = a + b;
    if i < a.len() {
        assert(s[i] == a[i]);
        if a[i] != ESC {
            lemma_unfinished_escape_extends(a, b, i + 1);
        } else if let Some(end) = sequence_end(a, i) {
            lemma_sequence_end(a, i);
            lemma_sequence_end_extends(a, b, i);
            lemma_unfinished_escape_extends(a, b, end);
        }
    }
}

/// Bytes without an ESC leave no escape sequence unfinished.
pub proof fn lemma_no_escape(s: Seq<u8>, i: int)
    requires
        0 <= i,
        forall|k: int| i <= k < s.len() ==> #[trigger] s[k] != ESC,
    ensures
        unfinished_escape(s, i) is None,
    decreases s.len() - i,
{
    if i < s.len() {
        lemma_no_escape(s, i + 1);
    }
}

/// A cut-off character is found where it is when the bytes in front of a byte
/// that continues none are left out.
proof fn lemma_unfinished_character_shift(s: Seq<u8>, k: int)
    requires
        0 <= k < s.len(),
        !is_continuation(s[k]),
    ensures
        unfinished_character(s) == match unfinished_character(s.skip(k)) {
            Some(start) => Some(start + k),
            None => None,
        },
{
    let t = s.skip(k);
    let n = s.len() as int;
    assert(t.len() == n - k);
    assert(t[n - k - 1] == s[n - 1]);
    if n - k >= 2 {
        assert(t[n - k - 2] == s[n - 2]);
    }
    if n - k >= 3 {
        assert(t[n - k - 3] == s[n - 3]);
    }
    assert(t[0] == s[k]);
}

/// After bytes that end on a whole character, a cut-off character is one of
/// what follows.
proof fn lemma_unfinished_character_follows(a: Seq<u8>, b: Seq<u8>)
    requires
        unfinished_character(a) is None,
    ensures
        unfinished_character(a + b) == match unfinished_character(b) {
            Some(start) => Some(start + a.len()),
            None => None,
        },
{
    let s = a + b;
    let n = s.len() as int;
    let m = b.len() as int;
    let l = a.len() as int;
    if m >= 1 {
        assert(s[n - 1] == b[m - 1]);
    } else if l >= 1 {
        assert(s[n - 1] == a[l - 1]);
    }
    if m >= 2 {
        assert(s[n - 2] == b[m - 2]);
    } else if n >= 2 {
        assert(s[n - 2] == a[l + m - 2]);
    }
    if m >= 3 {
        assert(s[n - 3] == b[m - 3]);
    } else if n >= 3 {
        assert(s[n - 3] == a[l + m - 3]);
    }
}

/// The unfinished sequence at the end of a stream needs no more of the past
/// than the unfinished sequence that was there before the last read.
pub proof fn the_tail_is_all_that_matters(a: Seq<u8>, b: Seq<u8>)
    ensures
        tail(a + b) == tail(tail(a) + b),
{
    let s = a + b;
    lemma_unfinished_escape_extends(a, b, 0);
    match unfinished(a) {
        Some(k) => {
            let t = a.skip(k);
            let r = t + b;
            lemma_tail_in_range(a);
            assert(r =~= s.skip(k));
            if unfinished_escape(a, 0) is Some {
                assert(s[k] == ESC);
                lemma_unfinished_escape_shift(s, k, k);
            } else {
                assert forall|j: int| k <= j < a.len() implies #[trigger] a[j] != ESC by {}
                lemma_no_escape(a, k);
                lemma_unfinished_escape_extends(a, b, k);
                lemma_unfinished_escape_shift(s, k, k);
                assert(unfinished_escape(s, 0) == unfinished_escape(s, k));
            }
            assert(s[k] == a[k]);
            lemma_unfinished_character_shift(s, k);
            match unfinished(r) {
                Some(m) => {
                    lemma_tail_in_range(r);
                    assert(s.skip(k + m) =~= r.skip(m));
                },
                None => {},
            }
        },
        None => {
            assert(tail(a) + b =~= b);
            assert(s.skip(a.len() as int) =~= b);
            lemma_unfinished_escape_shift(s, a.len() as int, a.len() as int);
            lemma_unfinished_character_follows(a, b);
            match unfinished(b) {
                Some(m) => {
                    lemma_tail_in_range(b);
                    assert(s.skip(a.len() + m) =~= b.skip(m));
                },
                None => {},
            }
        },
    }
}

/// An unfinished sequence starts within the bytes, at an ESC or at a byte that
/// continues no character and has only continuations behind it.
pub proof fn lemma_tail_in_range(s: Seq<u8>)
    ensures
        unfinished(s) matches Some(k) ==> {
            &&& 0 <= k < s.len()
            &&& !is_continuation(s[k])
            &&& unfinished_escape(s, 0) is None ==> forall|j: int|
                k <= j < s.len() ==> #[trigger] s[j] != ESC
        },
{
    lemma_unfinished_escape_extends(s, Seq::empty(), 0);
}

} // verus!

//! What counts as unfinished output, sequence by sequence.

use vstd::prelude::*;

verus! {

/// Bytes that end outside any sequence leave nothing unfinished, and do not
/// change what is unfinished after them.
proof fn lemma_after_whole(before: Seq<u8>, rest: Seq<u8>)
    requires
        crate::raw_tail::tail(before) == Seq::<u8>::empty(),
    ensures
        crate::raw_tail::tail(before + rest) == crate::raw_tail::tail(rest),
{
    crate::raw_tail::the_tail_is_all_that_matters(before, rest);
    assert(crate::raw_tail::tail(before) + rest =~= rest);
}

/// Bytes that start with an unfinished sequence are that sequence.
proof fn lemma_unfinished_whole(bytes: Seq<u8>)
    requires
        bytes.len() > 0,
        bytes[0] == 0x1b,
        crate::raw_tail::sequence_end(bytes, 0) is None,
    ensures
        crate::raw_tail::tail(bytes) == bytes,
{
    assert(crate::raw_tail::unfinished(bytes) == Some(0int));
    assert(bytes.skip(0) =~= bytes);
}

/// A finished sequence that the bytes end with leaves no escape sequence
/// unfinished.
proof fn lemma_finished_whole(bytes: Seq<u8>)
    requires
        bytes.len() > 0,
        bytes[0] == 0x1b,
        crate::raw_tail::sequence_end(bytes, 0) == Some(bytes.len() as int),
    ensures
        crate::raw_tail::unfinished_escape(bytes, 0) is None,
{
    assert(crate::raw_tail::unfinished_escape(bytes, bytes.len() as int) is None);
}

/// A byte below 0x80 at the end cuts no character off.
proof fn lemma_whole_character(bytes: Seq<u8>)
    requires
        bytes.len() > 0,
        bytes.last() < 0x80,
    ensures
        crate::raw_tail::unfinished_character(bytes) is None,
{
}

/// A control sequence is unfinished until its final byte, one from `@` to `~`:
/// parameters such as `?25`, `;` or `<` do not end it, and the bytes after its
/// final byte are no part of it.
pub proof fn control_sequences_end_at_their_final_byte(
    before: Seq<u8>,
    parameters: Seq<u8>,
    last: u8,
    rest: Seq<u8>,
)
    requires
        crate::raw_tail::tail(before) == Seq::<u8>::empty(),
        forall|k: int| 0 <= k < parameters.len() ==> 0x20 <= #[trigger] parameters[k] <= 0x3f,
        0x40 <= last <= 0x7e,
    ensures
        ({
            let open = seq![0x1bu8, 0x5bu8] + parameters;
            &&& crate::raw_tail::tail(before + open) == open
            &&& crate::raw_tail::tail(before + open.push(last)) == Seq::<u8>::empty()
            &&& crate::raw_tail::tail(before + open.push(last) + rest) == crate::raw_tail::tail(rest)
        }),
{
    let open = seq![0x1bu8, 0x5bu8] + parameters;
    let closed = open.push(last);
    let ends = |j: int| crate::raw_tail::is_final(open[j]);
    crate::raw_tail::lemma_first_from(open.len() as int, 2, ends);
    assert forall|k: int| 2 <= k < open.len() implies !(#[trigger] ends(k)) by {
        assert(open[k] == parameters[k - 2]);
    }
    lemma_unfinished_whole(open);
    lemma_after_whole(before, open);
    let ends = |j: int| crate::raw_tail::is_final(closed[j]);
    crate::raw_tail::lemma_first_from(closed.len() as int, 2, ends);
    assert forall|k: int| 2 <= k < open.len() implies !(#[trigger] ends(k)) by {
        assert(closed[k] == parameters[k - 2]);
    }
    assert(ends(open.len() as int));
    lemma_finished_whole(closed);
    lemma_whole_character(closed);
    lemma_after_whole(before, closed);
    lemma_after_whole(before + closed, rest);
}

/// An ESC at the end is the start of a sequence.
pub proof fn a_lone_escape_is_unfinished(before: Seq<u8>)
    requires
        crate::raw_tail::tail(before) == Seq::<u8>::empty(),
    ensures
        crate::raw_tail::tail(before.push(0x1bu8)) == seq![0x1bu8],
{
    let open = seq![0x1bu8];
    lemma_unfinished_whole(open);
    lemma_after_whole(before, open);
    assert(before + open =~= before.push(0x1bu8));
}

/// A string sequence (OSC `]`, DCS `P`, APC `_`, PM `^`, SOS `X`) is unfinished
/// until ESC and a backslash, whatever else an ESC in it is followed by; BEL
/// ends an OSC too, the others not.
pub proof fn string_sequences_end_at_their_terminator(
    before: Seq<u8>,
    kind: u8,
    body: Seq<u8>,
    rest: Seq<u8>,
)
    requires
        crate::raw_tail::tail(before) == Seq::<u8>::empty(),
        kind == 0x5d || kind == 0x50 || kind == 0x5f || kind == 0x5e || kind == 0x58,
        forall|k: int|
            0 <= k < body.len() ==> (#[trigger] body[k] == 0x1b ==> k + 1 < body.len() && body[k + 1]
                != 0x5c) && (kind == 0x5d ==> body[k] != 0x07),
    ensures
        ({
            let open = seq![0x1bu8, kind] + body;
            let ended = open + seq![0x1bu8, 0x5cu8];
            let belled = open.push(0x07u8);
            &&& crate::raw_tail::tail(before + open) == open
            &&& crate::raw_tail::tail(before + open.push(0x1bu8)) == open.push(0x1bu8)
            &&& crate::raw_tail::tail(before + ended) == Seq::<u8>::empty()
            &&& crate::raw_tail::tail(before + ended + rest) == crate::raw_tail::tail(rest)
            &&& kind == 0x5d ==> crate::raw_tail::tail(before + belled) == Seq::<u8>::empty()
                && crate::raw_tail::tail(before + belled + rest) == crate::raw_tail::tail(rest)
            &&& kind != 0x5d ==> crate::raw_tail::tail(before + belled) == belled
        }),
{
    let bel = kind == 0x5d;
    let open = seq![0x1bu8, kind] + body;
    assert forall|k: int| 2 <= k < open.len() implies (#[trigger] open[k] == 0x1b ==> k + 1
        < open.len() && open[k + 1] != 0x5c) && (kind == 0x5d ==> open[k] != 0x07) by {
        assert(open[k] == body[k - 2]);
        if open[k] == 0x1b {
            assert(open[k + 1] == body[k - 1]);
        }
    }
    lemma_string_open(open, kind);
    lemma_after_whole(before, open);

    let cut = open.push(0x1bu8);
    let ends = |j: int| crate::raw_tail::terminator_end(cut, bel, j) is Some;
    crate::raw_tail::lemma_first_from(cut.len() as int, 2, ends);
    assert forall|k: int| 2 <= k < cut.len() implies !(#[trigger] ends(k)) by {
        if k < open.len() {
            assert(cut[k] == body[k - 2]);
            if cut[k] == 0x1b {
                assert(cut[k + 1] == body[k - 1]);
            }
        }
    }
    lemma_unfinished_whole(cut);
    lemma_after_whole(before, cut);

    let ended = open + seq![0x1bu8, 0x5cu8];
    let ends = |j: int| crate::raw_tail::terminator_end(ended, bel, j) is Some;
    crate::raw_tail::lemma_first_from(ended.len() as int, 2, ends);
    assert forall|k: int| 2 <= k < open.len() implies !(#[trigger] ends(k)) by {
        assert(ended[k] == body[k - 2]);
        if ended[k] == 0x1b {
            assert(ended[k + 1] == body[k - 1]);
        }
    }
    assert(ended[open.len() as int] == 0x1b);
    assert(ended[open.len() as int + 1] == 0x5c);
    assert(ends(open.len() as int));
    lemma_finished_whole(ended);
    lemma_whole_character(ended);
    lemma_after_whole(before, ended);
    lemma_after_whole(before + ended, rest);

    let belled = open.push(0x07u8);
    if bel {
        let ends = |j: int| crate::raw_tail::terminator_end(belled, bel, j) is Some;
        crate::raw_tail::lemma_first_from(belled.len() as int, 2, ends);
        assert forall|k: int| 2 <= k < open.len() implies !(#[trigger] ends(k)) by {
            assert(belled[k] == body[k - 2]);
            if belled[k] == 0x1b {
                assert(belled[k + 1] == body[k - 1]);
            }
        }
        assert(ends(open.len() as int));
        lemma_finished_whole(belled);
        lemma_whole_character(belled);
        lemma_after_whole(before, belled);
        lemma_after_whole(before + belled, rest);
    } else {
        assert forall|k: int|
            2 <= k < belled.len() && #[trigger] belled[k] == 0x1b implies k + 1 < belled.len()
            && belled[k + 1] != 0x5c by {
            if k < open.len() {
                assert(belled[k] == body[k - 2]);
                if belled[k] == 0x1b {
                    assert(belled[k + 1] == body[k - 1]);
                }
            }
        }
        lemma_string_open(belled, kind);
        lemma_after_whole(before, belled);
    }
}

/// A string sequence with no ESC and backslash behind its opening, and no BEL if
/// it is an OSC, is unfinished.
proof fn lemma_string_open(open: Seq<u8>, kind: u8)
    requires
        open.len() >= 2,
        open[0] == 0x1b,
        open[1] == kind,
        kind == 0x5d || kind == 0x50 || kind == 0x5f || kind == 0x5e || kind == 0x58,
        forall|k: int|
            2 <= k < open.len() ==> (#[trigger] open[k] == 0x1b ==> k + 1 < open.len() && open[k + 1]
                != 0x5c) && (kind == 0x5d ==> open[k] != 0x07),
    ensures
        crate::raw_tail::tail(open) == open,
{
    let ends = |j: int| crate::raw_tail::terminator_end(open, kind == 0x5d, j) is Some;
    crate::raw_tail::lemma_first_from(open.len() as int, 2, ends);
    assert forall|k: int| 2 <= k < open.len() implies !(#[trigger] ends(k)) by {
        assert(open[k] == 0x1b ==> open[k + 1] != 0x5c);
    }
    lemma_unfinished_whole(open);
}

/// An escape sequence with intermediate bytes (from space to `/`, as in a
/// character set selection) is unfinished until a byte that is none.
pub proof fn escape_sequences_end_after_their_intermediates(
    before: Seq<u8>,
    intermediates: Seq<u8>,
    last: u8,
    rest: Seq<u8>,
)
    requires
        crate::raw_tail::tail(before) == Seq::<u8>::empty(),
        intermediates.len() > 0,
        forall|k: int|
            0 <= k < intermediates.len() ==> 0x20 <= #[trigger] intermediates[k] <= 0x2f,
        0x30 <= last <= 0x7e,
    ensures
        ({
            let open = seq![0x1bu8] + intermediates;
            &&& crate::raw_tail::tail(before + open) == open
            &&& crate::raw_tail::tail(before + open.push(last)) == Seq::<u8>::empty()
            &&& crate::raw_tail::tail(before + open.push(last) + rest) == crate::raw_tail::tail(rest)
        }),
{
    let open = seq![0x1bu8] + intermediates;
    let closed = open.push(last);
    assert(open[1] == intermediates[0]);
    assert(closed[1] == intermediates[0]);
    let ends = |j: int| !crate::raw_tail::is_intermediate(open[j]);
    crate::raw_tail::lemma_first_from(open.len() as int, 2, ends);
    assert forall|k: int| 2 <= k < open.len() implies !(#[trigger] ends(k)) by {
        assert(open[k] == intermediates[k - 1]);
    }
    lemma_unfinished_whole(open);
    lemma_after_whole(before, open);
    let ends = |j: int| !crate::raw_tail::is_intermediate(closed[j]);
    crate::raw_tail::lemma_first_from(closed.len() as int, 2, ends);
    assert forall|k: int| 2 <= k < open.len() implies !(#[trigger] ends(k)) by {
        assert(closed[k] == intermediates[k - 1]);
    }
    assert(ends(open.len() as int));
    lemma_finished_whole(closed);
    lemma_whole_character(closed);
    lemma_after_whole(before, closed);
    lemma_after_whole(before + closed, rest);
}

/// Any other byte behind an ESC finishes the sequence.
pub proof fn two_byte_sequences_are_whole(before: Seq<u8>, kind: u8, rest: Seq<u8>)
    requires
        crate::raw_tail::tail(before) == Seq::<u8>::empty(),
        kind < 0x80,
        kind != 0x5b && kind != 0x5d && kind != 0x50 && kind != 0x5f && kind != 0x5e && kind
            != 0x58,
        kind < 0x20 || kind > 0x2f,
    ensures
        crate::raw_tail::tail(before + seq![0x1bu8, kind]) == Seq::<u8>::empty(),
        crate::raw_tail::tail(before + seq![0x1bu8, kind] + rest) == crate::raw_tail::tail(rest),
{
    let closed = seq![0x1bu8, kind];
    lemma_finished_whole(closed);
    lemma_whole_character(closed);
    lemma_after_whole(before, closed);
    lemma_after_whole(before + closed, rest);
}

/// Text without an ESC that ends on an ASCII byte leaves nothing unfinished.
pub proof fn plain_text_is_whole(text: Seq<u8>)
    requires
        forall|k: int| 0 <= k < text.len() ==> #[trigger] text[k] != 0x1b,
        text.len() > 0 ==> text.last() < 0x80,
    ensures
        crate::raw_tail::tail(text) == Seq::<u8>::empty(),
{
    crate::raw_tail::lemma_no_escape(text, 0);
}

/// A character of two, three or four bytes, by the range of its first byte, is
/// unfinished until as many have come.
pub proof fn characters_are_unfinished_until_their_last_byte(
    before: Seq<u8>,
    lead: u8,
    continuations: Seq<u8>,
)
    requires
        crate::raw_tail::tail(before) == Seq::<u8>::empty(),
        0xc0 <= lead <= 0xf7,
        continuations.len() <= 3,
        0xe0 > lead ==> continuations.len() <= 1,
        0xe0 <= lead < 0xf0 ==> continuations.len() <= 2,
        forall|k: int|
            0 <= k < continuations.len() ==> 0x80 <= #[trigger] continuations[k] <= 0xbf,
    ensures
        ({
            let character = seq![lead] + continuations;
            let whole = if lead < 0xe0 {
                2
            } else if lead < 0xf0 {
                3
            } else {
                4int
            };
            crate::raw_tail::tail(before + character) == (if character.len() == whole {
                Seq::empty()
            } else {
                character
            })
        }),
{
    let character = seq![lead] + continuations;
    let n = character.len() as int;
    assert forall|k: int| 0 <= k < n implies #[trigger] character[k] != 0x1b by {
        if k > 0 {
            assert(character[k] == continuations[k - 1]);
        }
    }
    crate::raw_tail::lemma_no_escape(character, 0);
    assert(forall|k: int| 1 <= k < n ==> #[trigger] character[k] == continuations[k - 1]);
    assert(character[0] == lead);
    if n == 4 {
        assert(crate::raw_tail::is_continuation(character[3]));
        assert(crate::raw_tail::is_continuation(character[2]));
        assert(crate::raw_tail::is_continuation(character[1]));
    }
    if n == 3 {
        assert(crate::raw_tail::is_continuation(character[2]));
        assert(crate::raw_tail::is_continuation(character[1]));
    }
    if n == 2 {
        assert(crate::raw_tail::is_continuation(character[1]));
    }
    assert(character.skip(0) =~= character);
    lemma_after_whole(before, character);
}

/// A read ends inside the sequence it cut off, so replaying what is unfinished
/// ahead of the next read is as good as having seen everything: what is
/// unfinished is the end of the output, and starts a sequence or a character.
pub proof fn the_unfinished_is_the_end_of_the_output(bytes: Seq<u8>)
    ensures
        ({
            let tail = crate::raw_tail::tail(bytes);
            &&& tail.len() <= bytes.len()
            &&& tail == bytes.skip(bytes.len() - tail.len())
            &&& tail.len() > 0 ==> tail[0] == 0x1b || tail[0] >= 0xc0
            &&& crate::raw_tail::tail(tail) == tail
        }),
{
    crate::raw_tail::lemma_tail_in_range(bytes);
    crate::raw_tail::the_tail_is_all_that_matters(bytes, Seq::empty());
    let tail = crate::raw_tail::tail(bytes);
    assert(bytes + Seq::<u8>::empty() =~= bytes);
    assert(tail + Seq::<u8>::empty() =~= tail);
    crate::raw_tail::lemma_unfinished_escape_extends(bytes, Seq::empty(), 0);
    assert(bytes.skip(bytes.len() as int) =~= Seq::<u8>::empty());
}

} // verus!

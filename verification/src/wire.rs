//! The wire grammar of an encoded segment list, as a reader follows it, and
//! the proof that reading an encoding gives the written segments back.
//!
//! The text is a run of tokens. A switch marker is the switch indicator and
//! one delimiter character; it makes that delimiter the active one, and a
//! wrapped segment always follows it. A wrapped segment is a run of characters
//! without the active delimiter, closed by one copy of it. A token that begins
//! with the switch indicator is a switch marker: this is why a segment that
//! begins with the indicator is always written behind a marker.

use crate::lists::{
    active_is_candidate, candidates, encode_from, lemma_select_safe, needs_switch, select, token,
    SWITCH_INDICATOR,
};
use crate::search::first_index;
use crate::text::{is_caseless_ascii, keeps_caseless};
use vstd::prelude::*;

verus! {

/// The segments that `text` holds, read with `active` in effect; none where
/// `text` does not follow the grammar.
pub open spec fn decode_from(text: Seq<char>, active: Option<char>) -> Option<Seq<Seq<char>>>
    decreases text.len(),
{
    if text.len() == 0 {
        Some(Seq::empty())
    } else {
        let switched = text[0] == SWITCH_INDICATOR;
        let delimiter = if !switched {
            active
        } else if text.len() >= 2 {
            Some(text[1])
        } else {
            None
        };
        let body = if switched {
            text.skip(2)
        } else {
            text
        };
        match delimiter {
            None => None,
            Some(d) => {
                let end = first_index(body, d);
                if end < 0 || end >= body.len() {
                    None
                } else {
                    match decode_from(body.skip(end + 1), Some(d)) {
                        None => None,
                        Some(rest) => Some(seq![body.take(end)] + rest),
                    }
                }
            },
        }
    }
}

/// The segments that an encoded list holds: no delimiter is active at its
/// start.
pub open spec fn decode(text: Seq<char>) -> Option<Seq<Seq<char>>> {
    decode_from(text, None)
}

/// The segments that a finished script holds: the marker `V3`, then an encoded
/// segment list.
pub open spec fn decode_script(text: Seq<char>) -> Option<Seq<Seq<char>>> {
    if text.len() >= 2 && text.take(2) == "V3"@ {
        decode(text.skip(2))
    } else {
        None
    }
}

/// In a segment followed by its delimiter, the first delimiter is the one that
/// closes the segment, provided the segment does not contain it.
pub proof fn lemma_first_index_after(segment: Seq<char>, d: char, rest: Seq<char>)
    requires
        !segment.contains(d),
    ensures
        first_index(segment + seq![d] + rest, d) == segment.len(),
    decreases segment.len(),
{
    let text = segment + seq![d] + rest;
    if segment.len() == 0 {
        assert(text[0] == d);
    } else {
        assert(segment.contains(segment[0]));
        assert(text[0] == segment[0]);
        let tail = segment.drop_first();
        assert forall|c: char| tail.contains(c) implies segment.contains(c) by {
            let i = choose|i: int| 0 <= i < tail.len() && tail[i] == c;
            assert(segment[i + 1] == c);
        }
        lemma_first_index_after(tail, d, rest);
        assert(text.drop_first() =~= tail + seq![d] + rest);
    }
}

/// Round trip from any state of the encoder: where segments are encoded with
/// `active` in effect, reading the encoding with `active` in effect gives the
/// segments back, in order.
///
/// `lowered[i]` stands for the lowercase form of `segments[i]`; of it the proof
/// uses only that it keeps the caseless ASCII characters of the segment.
pub proof fn lemma_round_trip_from(
    active: Option<char>,
    segments: Seq<Seq<char>>,
    lowered: Seq<Seq<char>>,
)
    requires
        segments.len() == lowered.len(),
        forall|i: int| 0 <= i < segments.len() ==> keeps_caseless(#[trigger] segments[i], lowered[i]),
        active_is_candidate(active),
    ensures
        encode_from(active, segments, lowered) matches Some(text) ==> decode_from(text, active)
            == Some(segments),
    decreases segments.len(),
{
    if segments.len() > 0 {
        match select(active, lowered[0]) {
            None => {},
            Some(target) => {
                let segment = segments[0];
                let tail = segments.drop_first();
                let tail_lowered = lowered.drop_first();
                lemma_select_safe(active, lowered[0]);
                let k = choose|k: int|
                    0 <= k < candidates().len() && #[trigger] candidates()[k] == target;
                assert(is_caseless_ascii(target) && target != SWITCH_INDICATOR);
                assert(keeps_caseless(segments[0], lowered[0]));
                assert(!segment.contains(target));
                assert forall|i: int| 0 <= i < tail.len() implies keeps_caseless(
                    #[trigger] tail[i],
                    tail_lowered[i],
                ) by {
                    assert(tail[i] == segments[i + 1]);
                    assert(keeps_caseless(segments[i + 1], lowered[i + 1]));
                }
                lemma_round_trip_from(Some(target), tail, tail_lowered);
                match encode_from(Some(target), tail, tail_lowered) {
                    None => {},
                    Some(rest) => {
                        let text = token(active, segment, target) + rest;
                        let body = segment + seq![target] + rest;
                        lemma_first_index_after(segment, target, rest);
                        assert(body.take(segment.len() as int) =~= segment);
                        assert(body.skip(segment.len() as int + 1) =~= rest);
                        if needs_switch(active, segment, target) {
                            assert(text =~= seq![SWITCH_INDICATOR, target] + body);
                            assert(text[0] == SWITCH_INDICATOR);
                            assert(text[1] == target);
                            assert(text.skip(2) =~= body);
                        } else {
                            assert(text =~= body);
                            assert(text[0] != SWITCH_INDICATOR) by {
                                if segment.len() == 0 {
                                    assert(text[0] == target);
                                } else {
                                    assert(text[0] == segment[0]);
                                }
                            }
                        }
                        assert(seq![segment] + tail =~= segments);
                    },
                }
            },
        }
    }
}

/// Round trip: reading the encoding of a segment list gives back exactly the
/// segments that were encoded, in order.
///
/// `lowered[i]` stands for the lowercase form of `segments[i]`; of it the proof
/// uses only that it keeps the caseless ASCII characters of the segment.
pub proof fn lemma_round_trip(segments: Seq<Seq<char>>, lowered: Seq<Seq<char>>)
    requires
        segments.len() == lowered.len(),
        forall|i: int| 0 <= i < segments.len() ==> keeps_caseless(#[trigger] segments[i], lowered[i]),
    ensures
        encode_from(None, segments, lowered) matches Some(text) ==> decode(text) == Some(segments),
{
    lemma_round_trip_from(None, segments, lowered);
}

} // verus!

//! The list segment encoder: an ordered sequence of raw segments becomes one
//! flat string, each segment closed by a delimiter character that it does not
//! contain.

use crate::error::ADHDError;
use crate::text::{contains_char, is_caseless_ascii, keeps_caseless, lowercase_of, starts_with_char};
use crate::wire::{decode, lemma_round_trip};
use vstd::prelude::*;
use vstd::string::StringExecFns;

verus! {

/// The character that opens a switch marker.
pub const SWITCH_INDICATOR: char = '$';

/// The delimiter candidates in order of priority: the six bracket characters,
/// then the lowercase Latin letters.
pub open spec fn candidates() -> Seq<char> {
    seq![
        '[', ']', '<', '>', '(', ')', 'a', 'b', 'c', 'd', 'e', 'f', 'g', 'h', 'i', 'j', 'k', 'l',
        'm', 'n', 'o', 'p', 'q', 'r', 's', 't', 'u', 'v', 'w', 'x', 'y', 'z',
    ]
}

/// No candidate is left for a segment with this lowercase form.
pub open spec fn exhausted(lowered: Seq<char>) -> bool {
    forall|i: int| 0 <= i < candidates().len() ==> lowered.contains(#[trigger] candidates()[i])
}

/// The first candidate at or after position `from` that `lowered` lacks.
pub open spec fn first_free(lowered: Seq<char>, from: int) -> Option<char>
    decreases candidates().len() - from,
{
    if from < 0 || from >= candidates().len() {
        None
    } else if !lowered.contains(candidates()[from]) {
        Some(candidates()[from])
    } else {
        first_free(lowered, from + 1)
    }
}

/// The delimiter for a segment with lowercase form `lowered` while `active` is
/// in effect: `active` itself where the segment lacks it, else the first
/// candidate that the segment lacks, else none.
pub open spec fn select(active: Option<char>, lowered: Seq<char>) -> Option<char> {
    match active {
        Some(c) if !lowered.contains(c) => Some(c),
        _ => first_free(lowered, 0),
    }
}

/// `first_free` finds the candidate of least position that `lowered` lacks,
/// and finds none exactly when every candidate from `from` on occurs.
pub proof fn lemma_first_free(lowered: Seq<char>, from: int)
    requires
        0 <= from <= candidates().len(),
    ensures
        match first_free(lowered, from) {
            Some(c) => exists|i: int|
                from <= i < candidates().len() && #[trigger] candidates()[i] == c
                    && !lowered.contains(c) && forall|j: int|
                    from <= j < i ==> lowered.contains(#[trigger] candidates()[j]),
            None => forall|j: int|
                from <= j < candidates().len() ==> lowered.contains(#[trigger] candidates()[j]),
        },
    decreases candidates().len() - from,
{
    if from < candidates().len() && lowered.contains(candidates()[from]) {
        lemma_first_free(lowered, from + 1);
        match first_free(lowered, from + 1) {
            Some(c) => {
                let i = choose|i: int|
                    from + 1 <= i < candidates().len() && #[trigger] candidates()[i] == c
                        && !lowered.contains(c) && forall|j: int|
                        from + 1 <= j < i ==> lowered.contains(#[trigger] candidates()[j]);
                assert(from <= i < candidates().len() && candidates()[i] == c);
            },
            None => {},
        }
    } else if from < candidates().len() {
        assert(candidates()[from] == first_free(lowered, from).unwrap());
    }
}

/// Delimiter safety: a selected delimiter does not occur in the lowercase form
/// of the segment, and selection fails only on an exhausted segment.
pub proof fn lemma_select_safe(active: Option<char>, lowered: Seq<char>)
    ensures
        select(active, lowered) matches Some(d) ==> !lowered.contains(d),
        select(active, lowered) is None ==> exhausted(lowered),
        exhausted(lowered) && select(active, lowered) is Some ==> select(active, lowered) == active,
        select(active, lowered) matches Some(d) ==> active == Some(d) || exists|i: int|
            0 <= i < candidates().len() && #[trigger] candidates()[i] == d,
{
    lemma_first_free(lowered, 0);
}

/// The segment begins with the switch indicator, so a reader would take it for
/// a switch marker unless one stands before it.
pub open spec fn starts_with_switch(segment: Seq<char>) -> bool {
    segment.len() > 0 && segment[0] == SWITCH_INDICATOR
}

/// A switch marker stands before the segment: the delimiter changes, or the
/// segment has to be escaped.
pub open spec fn needs_switch(active: Option<char>, segment: Seq<char>, target: char) -> bool {
    active != Some(target) || starts_with_switch(segment)
}

/// What one segment adds to the output: the switch marker where one is needed,
/// the raw segment, and the delimiter that closes it.
pub open spec fn token(active: Option<char>, segment: Seq<char>, target: char) -> Seq<char> {
    if needs_switch(active, segment, target) {
        seq![SWITCH_INDICATOR, target] + segment + seq![target]
    } else {
        segment + seq![target]
    }
}

/// The encoding of `segments` with `active` in effect, where `lowered[i]` is
/// the lowercase form of `segments[i]`; none where some segment leaves no
/// delimiter.
pub open spec fn encode_from(
    active: Option<char>,
    segments: Seq<Seq<char>>,
    lowered: Seq<Seq<char>>,
) -> Option<Seq<char>>
    recommends
        segments.len() == lowered.len(),
    decreases segments.len(),
{
    if segments.len() == 0 {
        Some(Seq::empty())
    } else {
        match select(active, lowered[0]) {
            None => None,
            Some(target) => match encode_from(
                Some(target),
                segments.drop_first(),
                lowered.drop_first(),
            ) {
                None => None,
                Some(rest) => Some(token(active, segments[0], target) + rest),
            },
        }
    }
}

/// The lowercase form of each segment.
pub open spec fn lowered_forms(segments: Seq<Seq<char>>) -> Seq<Seq<char>> {
    Seq::new(segments.len(), |i: int| lowercase_of(segments[i]))
}

/// The encoding of a segment list: no delimiter is active before the first
/// segment.
pub open spec fn encoding(segments: Seq<Seq<char>>) -> Option<Seq<char>> {
    encode_from(None, segments, lowered_forms(segments))
}

/// The characters of each string of a list.
pub open spec fn texts(strings: Seq<String>) -> Seq<Seq<char>> {
    Seq::new(strings.len(), |i: int| strings[i]@)
}

/// The active delimiter, if any, is one of the candidates.
pub open spec fn active_is_candidate(active: Option<char>) -> bool {
    active matches Some(a) ==> exists|i: int|
        0 <= i < candidates().len() && #[trigger] candidates()[i] == a
}

/// `i` is the position of the first segment that leaves no delimiter.
pub open spec fn first_exhausted(segments: Seq<Seq<char>>, i: int) -> bool {
    &&& 0 <= i < segments.len()
    &&& exhausted(lowercase_of(segments[i]))
    &&& forall|j: int| 0 <= j < i ==> !exhausted(lowercase_of(#[trigger] segments[j]))
}

/// Reuse preference: while the active delimiter stays absent from the next
/// segment and the segment does not begin with the switch indicator, the
/// delimiter is kept and the segment is written without a switch marker.
pub proof fn lemma_reuse(active: char, segment: Seq<char>, lowered: Seq<char>)
    requires
        !lowered.contains(active),
        !starts_with_switch(segment),
    ensures
        select(Some(active), lowered) == Some(active),
        token(Some(active), segment, active) == segment + seq![active],
{
}

/// Escape: a segment that begins with the switch indicator is written with a
/// switch marker directly before it, whether or not the delimiter changes.
pub proof fn lemma_escape(active: Option<char>, segment: Seq<char>, target: char)
    requires
        starts_with_switch(segment),
    ensures
        token(active, segment, target) == seq![SWITCH_INDICATOR, target] + segment + seq![target],
{
}

/// Finds the delimiter for a segment whose lowercase form is `lowered`.
///
/// The active delimiter is kept where the segment lacks it; otherwise the
/// candidates are tried in order of priority.
pub fn select_container(active: Option<char>, lowered: &str) -> (r: Option<char>)
    ensures
        r == select(active, lowered@),
        r matches Some(d) ==> !lowered@.contains(d),
        r is None ==> exhausted(lowered@),
{
    proof {
        lemma_select_safe(active, lowered@);
    }
    if let Some(container) = active {
        if !contains_char(lowered, container) {
            return Some(container);
        }
    }
    let pool = "[]<>()abcdefghijklmnopqrstuvwxyz";
    proof {
        reveal_strlit("[]<>()abcdefghijklmnopqrstuvwxyz");
        assert(pool@ =~= candidates());
    }
    let mut i: usize = 0;
    while i < 32
        invariant
            i <= 32,
            pool@ == candidates(),
            candidates().len() == 32,
            select(active, lowered@) == first_free(lowered@, i as int),
        decreases 32 - i,
    {
        let candidate = pool.get_char(i);
        if !contains_char(lowered, candidate) {
            return Some(candidate);
        }
        i += 1;
    }
    None
}

/// Finds a delimiter character that `segment` does not contain, whatever the
/// case of its letters.
///
/// Fails with [`ADHDError::CharactersExhausted`], which carries the segment,
/// where the active delimiter and every candidate occur in it.
pub fn determine_container(active_container: &Option<char>, segment: &String) -> (r: Result<
    char,
    ADHDError,
>)
    ensures
        match r {
            Ok(d) => select(*active_container, lowercase_of(segment@)) == Some(d)
                && !lowercase_of(segment@).contains(d)
                && (is_caseless_ascii(d) ==> !segment@.contains(d)),
            Err(e) => select(*active_container, lowercase_of(segment@)) is None
                && exhausted(lowercase_of(segment@))
                && e is CharactersExhausted && e.subject() == segment@,
        },
        keeps_caseless(segment@, lowercase_of(segment@)),
{
    let lowered = segment.as_str().to_lowercase();
    match select_container(*active_container, lowered.as_str()) {
        Some(d) => Ok(d),
        None => Err(ADHDError::CharactersExhausted(segment.clone())),
    }
}

/// The output so far followed by what the remaining segments add.
pub open spec fn extend(output: Seq<char>, rest: Option<Seq<char>>) -> Option<Seq<char>> {
    match rest {
        Some(tail) => Some(output + tail),
        None => None,
    }
}

/// Turns a list of segments into one flat string.
///
/// Each segment is written raw and closed by a delimiter that it does not
/// contain. A switch marker, the indicator `$` and the new delimiter, stands
/// before a segment where the delimiter changes or the segment itself begins
/// with `$`. Encoding is all or nothing: it fails with
/// [`ADHDError::CharactersExhausted`] on the first segment that leaves no
/// delimiter, and succeeds where there is no such segment.
pub fn vec_to_string(content: Vec<String>) -> (r: Result<String, ADHDError>)
    ensures
        match r {
            Ok(output) => encoding(texts(content@)) == Some(output@)
                && decode(output@) == Some(texts(content@)),
            Err(e) => encoding(texts(content@)) is None && e is CharactersExhausted
                && exists|i: int| #[trigger]
                first_exhausted(texts(content@), i) && e.subject() == content@[i]@,
        },
        r is Ok <==> forall|i: int|
            0 <= i < content@.len() ==> !exhausted(lowercase_of(#[trigger] content@[i]@)),
{
    encode_segments(&content)
}

/// [`vec_to_string`] on a borrowed list.
pub fn encode_segments(content: &Vec<String>) -> (r: Result<String, ADHDError>)
    ensures
        match r {
            Ok(output) => encoding(texts(content@)) == Some(output@)
                && decode(output@) == Some(texts(content@)),
            Err(e) => encoding(texts(content@)) is None && e is CharactersExhausted
                && exists|i: int| #[trigger]
                first_exhausted(texts(content@), i) && e.subject() == content@[i]@,
        },
        r is Ok <==> forall|i: int|
            0 <= i < content@.len() ==> !exhausted(lowercase_of(#[trigger] content@[i]@)),
{
    let ghost segments = texts(content@);
    let ghost lowered = lowered_forms(segments);
    let mut output = String::new();
    let mut container: Option<char> = None;
    let mut i: usize = 0;
    proof {
        assert(segments.skip(0) =~= segments);
        assert(lowered.skip(0) =~= lowered);
        assert(extend(output@, encode_from(None, segments, lowered)) =~= encoding(segments));
    }
    while i < content.len()
        invariant
            i <= content@.len(),
            segments == texts(content@),
            lowered == lowered_forms(segments),
            active_is_candidate(container),
            forall|j: int| 0 <= j < i ==> !exhausted(lowercase_of(#[trigger] content@[j]@)),
            forall|j: int| 0 <= j < i ==> keeps_caseless(#[trigger] segments[j], lowered[j]),
            encoding(segments) == extend(
                output@,
                encode_from(container, segments.skip(i as int), lowered.skip(i as int)),
            ),
        decreases content@.len() - i,
    {
        let segment = &content[i];
        let ghost rest_segments = segments.skip(i as int);
        let ghost rest_lowered = lowered.skip(i as int);
        proof {
            assert(rest_segments[0] == segment@);
            assert(rest_lowered[0] == lowercase_of(segment@));
            assert(rest_segments.drop_first() =~= segments.skip(i + 1));
            assert(rest_lowered.drop_first() =~= lowered.skip(i + 1));
            lemma_select_safe(container, lowercase_of(segment@));
        }
        match determine_container(&container, segment) {
            Err(e) => {
                proof {
                    assert(first_exhausted(segments, i as int));
                }
                return Err(e);
            },
            Ok(target) => {
                let ghost before = output@;
                let ghost active_before = container;
                let switch = match container {
                    Some(active) => active != target,
                    None => true,
                } || starts_with_char(segment.as_str(), SWITCH_INDICATOR);
                if switch {
                    output.push(SWITCH_INDICATOR);
                    output.push(target);
                    container = Some(target);
                }
                output.append(segment.as_str());
                output.push(target);
                proof {
                    let k = choose|k: int|
                        0 <= k < candidates().len() && #[trigger] candidates()[k] == target;
                    assert(!lowercase_of(segment@).contains(candidates()[k]));
                    assert(switch == needs_switch(active_before, segment@, target));
                    assert(container == Some(target));
                    let added = token(active_before, segment@, target);
                    assert(output@ =~= before + added);
                    match encode_from(Some(target), segments.skip(i + 1), lowered.skip(i + 1)) {
                        Some(rest) => {
                            assert(before + (added + rest) =~= (before + added) + rest);
                        },
                        None => {},
                    }
                }
            },
        }
        i += 1;
    }
    proof {
        assert(segments.skip(i as int).len() == 0);
        assert(output@ + Seq::<char>::empty() =~= output@);
        lemma_round_trip(segments, lowered);
    }
    Ok(output)
}

} // verus!

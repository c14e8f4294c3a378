//! The legacy song format: the marker `V2`, then fields that the character
//! `X` separates, closed by an empty field after the last `X`. The fields
//! between are records: the opcode `O`, then a time and a lane.

use crate::lists::texts;
use crate::search::{first_index, lemma_first_index};
use crate::text::same_text;
use rosu_map::util::{ParseNumberError, StrExt};
use vstd::prelude::*;

verus! {

/// The character that separates the fields.
pub const FIELD_SEPARATOR: char = 'X';

/// One note of a legacy song: the time as the file writes it, and the lane.
pub struct LegacyNote {
    pub time: String,
    pub lane: i32,
}

/// What a note holds, as plain values.
pub ghost struct NoteView {
    pub time: Seq<char>,
    pub lane: i32,
}

impl View for LegacyNote {
    type V = NoteView;

    open spec fn view(&self) -> NoteView {
        NoteView { time: self.time@, lane: self.lane }
    }
}

/// The notes of a list.
pub open spec fn notes(list: Seq<LegacyNote>) -> Seq<NoteView> {
    Seq::new(list.len(), |i: int| list[i]@)
}

/// The fields of a text: a text without a separator is one field; in any
/// other the first field ends before the first separator, and the fields of
/// what follows that separator come after. A text has one field more than it
/// has separators.
pub open spec fn fields_of(text: Seq<char>) -> Seq<Seq<char>>
    decreases text.len(),
{
    let k = first_index(text, FIELD_SEPARATOR);
    if k < 0 || k >= text.len() {
        seq![text]
    } else {
        seq![text.take(k)] + fields_of(text.skip(k + 1))
    }
}

/// The fields of `current + rest`, where `current` holds no separator: the
/// part of the first field that was read already.
pub open spec fn fields_after(current: Seq<char>, rest: Seq<char>) -> Seq<Seq<char>> {
    let k = first_index(rest, FIELD_SEPARATOR);
    if k < 0 || k >= rest.len() {
        seq![current + rest]
    } else {
        seq![current + rest.take(k)] + fields_of(rest.skip(k + 1))
    }
}

/// Reading one more character: a separator closes the current field, any
/// other character joins it.
pub proof fn lemma_fields_step(current: Seq<char>, rest: Seq<char>)
    requires
        rest.len() > 0,
    ensures
        fields_after(current, rest) == (if rest[0] == FIELD_SEPARATOR {
            seq![current] + fields_after(Seq::empty(), rest.drop_first())
        } else {
            fields_after(current.push(rest[0]), rest.drop_first())
        }),
{
    let tail = rest.drop_first();
    let k = first_index(rest, FIELD_SEPARATOR);
    lemma_first_index(rest, FIELD_SEPARATOR);
    lemma_first_index(tail, FIELD_SEPARATOR);
    if rest[0] == FIELD_SEPARATOR {
        assert(current + rest.take(0) =~= current);
        assert(rest.skip(1) =~= tail);
        let j = first_index(tail, FIELD_SEPARATOR);
        assert(Seq::<char>::empty() + tail =~= tail);
        assert(Seq::<char>::empty() + tail.take(j) =~= tail.take(j));
    } else if k >= rest.len() {
        assert(current.push(rest[0]) + tail =~= current + rest);
    } else {
        assert(current.push(rest[0]) + tail.take(k - 1) =~= current + rest.take(k));
        assert(tail.skip(k) =~= rest.skip(k + 1));
    }
}

/// The number that a field stands for, as [`rosu_map::util::StrExt::parse_num`]
/// reads it; none where it reads none.
pub uninterp spec fn parsed_i32(field: Seq<char>) -> Option<i32>;

/// `ParseNumberError` of `rosu_map`: why a field was not read as a number.
/// Only carried through; nothing is claimed of what it holds.
#[verifier::external_type_specification]
#[verifier::external_body]
pub struct ExParseNumberError(ParseNumberError);

/// `parse_num` of `rosu_map`, for a 32-bit signed integer.
///
/// Trusted: whether a number is read, and which, is a function of the field's
/// characters alone, named [`parsed_i32`].
#[verifier::external_body]
fn parse_i32(field: &str) -> (r: Result<i32, ParseNumberError>)
    ensures
        (match r {
            Ok(n) => Some(n),
            Err(_) => None,
        }) == parsed_i32(field@),
{
    field.parse_num::<i32>()
}

/// The notes that record fields hold: each record is the opcode `O`, a time
/// and a lane that reads as a number. None where a record has another opcode,
/// lacks a field, or has a lane that is no number.
pub open spec fn records_of(fields: Seq<Seq<char>>) -> Option<Seq<NoteView>>
    decreases fields.len(),
{
    if fields.len() == 0 {
        Some(Seq::empty())
    } else if fields.len() < 3 || fields[0] != "O"@ {
        None
    } else {
        match (parsed_i32(fields[2]), records_of(fields.skip(3))) {
            (Some(lane), Some(rest)) => Some(seq![NoteView { time: fields[1], lane }] + rest),
            _ => None,
        }
    }
}

/// The notes of a legacy song given by its fields: the first field is the
/// marker, the last is empty, and the fields between are records.
pub open spec fn song_of(fields: Seq<Seq<char>>) -> Option<Seq<NoteView>> {
    if fields.len() >= 2 && fields[0] == "V2"@ && fields.last().len() == 0 {
        records_of(fields.subrange(1, fields.len() - 1))
    } else {
        None
    }
}

/// Splits a text into its fields.
pub fn split_fields(text: &str) -> (r: Vec<String>)
    ensures
        texts(r@) == fields_of(text@),
{
    let mut fields: Vec<String> = Vec::new();
    let mut current = String::new();
    proof {
        let k = first_index(text@, FIELD_SEPARATOR);
        lemma_first_index(text@, FIELD_SEPARATOR);
        assert(text@.skip(0) =~= text@);
        assert(Seq::<char>::empty() + text@ =~= text@);
        assert(Seq::<char>::empty() + text@.take(k) =~= text@.take(k));
        assert(texts(fields@) + fields_of(text@) =~= fields_of(text@));
    }
    for c in it: text.chars()
        invariant
            it.seq() == text@,
            fields_of(text@) == texts(fields@) + fields_after(
                current@,
                text@.skip(it.index() as int),
            ),
    {
        proof {
            let rest = text@.skip(it.index() as int);
            assert(rest[0] == c);
            assert(rest.drop_first() =~= text@.skip(it.index() + 1));
            lemma_fields_step(current@, rest);
        }
        if c == FIELD_SEPARATOR {
            let ghost before = texts(fields@);
            let ghost field = current@;
            let ghost tail = fields_after(Seq::empty(), text@.skip(it.index() + 1));
            fields.push(current);
            current = String::new();
            proof {
                assert(texts(fields@) =~= before.push(field));
                assert(before + (seq![field] + tail) =~= before.push(field) + tail);
            }
        } else {
            current.push(c);
        }
    }
    let ghost before = texts(fields@);
    fields.push(current);
    proof {
        let rest = text@.skip(text@.len() as int);
        assert(rest.len() == 0);
        assert(current@ + rest =~= current@);
        assert(texts(fields@) =~= before + seq![current@]);
    }
    fields
}

/// The note of one record, given its time field and what reading its lane
/// field gave: a note exactly where the lane was read.
pub fn note_of(time: &String, lane: Result<i32, ParseNumberError>) -> (r: Option<LegacyNote>)
    ensures
        match lane {
            Ok(n) => r matches Some(note) && note@ == (NoteView { time: time@, lane: n }),
            Err(_) => r is None,
        },
{
    match lane {
        Ok(n) => Some(LegacyNote { time: time.clone(), lane: n }),
        Err(_) => None,
    }
}

/// The notes read so far followed by what the remaining fields hold.
pub open spec fn notes_then(done: Seq<NoteView>, rest: Option<Seq<NoteView>>) -> Option<
    Seq<NoteView>,
> {
    match rest {
        Some(tail) => Some(done + tail),
        None => None,
    }
}

/// Reads a legacy song: its notes in order, or none where the text does not
/// follow the format.
pub fn parse_legacy(text: &str) -> (r: Option<Vec<LegacyNote>>)
    ensures
        match r {
            Some(list) => song_of(fields_of(text@)) == Some(notes(list@)),
            None => song_of(fields_of(text@)) is None,
        },
{
    let fields = split_fields(text);
    let n = fields.len();
    proof {
        reveal_strlit("");
    }
    if n < 2 || !same_text(fields[0].as_str(), "V2") || !same_text(fields[n - 1].as_str(), "") {
        proof {
            if n >= 2 {
                assert(texts(fields@).last() == fields@[n - 1]@);
                assert(fields@[n - 1]@.len() == 0 <==> fields@[n - 1]@ =~= ""@);
            }
        }
        return None;
    }
    let ghost body = texts(fields@).subrange(1, n - 1);
    let mut out: Vec<LegacyNote> = Vec::new();
    let mut i: usize = 1;
    proof {
        assert(texts(fields@).last() == fields@[n - 1]@);
        assert(fields@[n - 1]@.len() == 0);
        assert(body.skip(0) =~= body);
        match records_of(body) {
            Some(all) => {
                assert(notes(out@) + all =~= all);
            },
            None => {},
        }
    }
    while i < n - 1
        invariant
            n == fields@.len(),
            n >= 2,
            1 <= i <= n - 1,
            body == texts(fields@).subrange(1, n - 1),
            song_of(fields_of(text@)) == records_of(body),
            records_of(body) == notes_then(notes(out@), records_of(body.skip(i - 1))),
        decreases n - i,
    {
        let ghost rest = body.skip(i - 1);
        proof {
            assert(rest.len() == n - 1 - i);
            assert(rest[0] == fields@[i as int]@);
        }
        if n - 1 - i < 3 || !same_text(fields[i].as_str(), "O") {
            return None;
        }
        proof {
            assert(rest[1] == fields@[i + 1]@);
            assert(rest[2] == fields@[i + 2]@);
            assert(rest.skip(3) =~= body.skip(i + 2));
        }
        match note_of(&fields[i + 1], parse_i32(fields[i + 2].as_str())) {
            None => {
                return None;
            },
            Some(note) => {
                let ghost done = notes(out@);
                out.push(note);
                proof {
                    assert(notes(out@) =~= done.push(note@));
                    match records_of(rest.skip(3)) {
                        Some(tail) => {
                            assert(done + (seq![note@] + tail) =~= done.push(note@) + tail);
                        },
                        None => {},
                    }
                }
            },
        }
        i += 3;
    }
    proof {
        assert(body.skip(i - 1).len() == 0);
        assert(notes(out@) + Seq::<NoteView>::empty() =~= notes(out@));
    }
    Some(out)
}

} // verus!

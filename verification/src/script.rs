//! The opcode interning writer: typed records become raw segments, each record
//! led by the numeric id of its kind, and a kind is announced in the segment
//! stream the first time it is used.

use crate::decimal::{decimal_text, i32_to_string, unsigned_to_string};
use crate::error::ADHDError;
use crate::lists::{encode_segments, encoding, exhausted, first_exhausted, texts};
use crate::search::{
    extends, first_index, lemma_first_index, lemma_first_index_extends, lemma_first_index_is,
};
use crate::text::lowercase_of;
use crate::wire::decode_script;
use vstd::prelude::*;
use vstd::string::StringExecFns;

verus! {

/// One record of a content script. A time is held as its decimal text, in
/// seconds.
pub enum ContentScriptOpcode {
    /// Announces the opcode name `id`, which takes the next free id.
    OpcodeRegister { id: String },
    /// A note at `time` in `lane`.
    BeatmapNote { time: String, lane: i32 },
    /// The modifier `modifier` between the times `from` and `to`.
    BeatmapModifier { from: String, to: String, modifier: String },
    /// The finished script `script` of the song `name`.
    BeatmapCollectionRegister { name: String, script: String },
    /// The menu entry at `pos` of the state `state`, which leads to
    /// `next_state`.
    AddMenuItem { pos: i32, next_state: String, state: String },
}

/// The name of the registration opcode, which every opcode table starts with.
pub open spec fn register_name() -> Seq<char> {
    "opcode_register"@
}

impl ContentScriptOpcode {
    /// The opcode name of the record's kind.
    pub open spec fn opcode_name(&self) -> Seq<char> {
        match self {
            ContentScriptOpcode::OpcodeRegister { .. } => register_name(),
            ContentScriptOpcode::BeatmapNote { .. } => "beatmap_note"@,
            ContentScriptOpcode::BeatmapModifier { .. } => "beatmap_modifier"@,
            ContentScriptOpcode::BeatmapCollectionRegister {
                ..
            } => "beatmap_collection_register"@,
            ContentScriptOpcode::AddMenuItem { .. } => "add_menu_item"@,
        }
    }

    /// The record's fields as raw segments, in the order of declaration.
    pub open spec fn fields(&self) -> Seq<Seq<char>> {
        match self {
            ContentScriptOpcode::OpcodeRegister { id } => seq![id@],
            ContentScriptOpcode::BeatmapNote { time, lane } => seq![
                time@,
                decimal_text(*lane as int),
            ],
            ContentScriptOpcode::BeatmapModifier { from, to, modifier } => seq![
                from@,
                to@,
                modifier@,
            ],
            ContentScriptOpcode::BeatmapCollectionRegister { name, script } => seq![
                name@,
                script@,
            ],
            ContentScriptOpcode::AddMenuItem { pos, next_state, state } => seq![
                decimal_text(*pos as int),
                next_state@,
                state@,
            ],
        }
    }

    /// The opcode name of the record's kind.
    pub fn name(&self) -> (r: String)
        ensures
            r@ == self.opcode_name(),
    {
        match self {
            ContentScriptOpcode::OpcodeRegister { .. } => String::from_str("opcode_register"),
            ContentScriptOpcode::BeatmapNote { .. } => String::from_str("beatmap_note"),
            ContentScriptOpcode::BeatmapModifier { .. } => String::from_str("beatmap_modifier"),
            ContentScriptOpcode::BeatmapCollectionRegister { .. } => String::from_str(
                "beatmap_collection_register",
            ),
            ContentScriptOpcode::AddMenuItem { .. } => String::from_str("add_menu_item"),
        }
    }
}

/// What a writer holds: the pending segments and the opcode table.
pub ghost struct WriterView {
    /// The raw segments written so far, in order.
    pub segments: Seq<Seq<char>>,
    /// The interned opcode names; the id of a name is its position, from 1.
    pub opcodes: Seq<Seq<char>>,
}

/// The opcode table starts with the registration opcode and holds no name
/// twice.
pub open spec fn table_ok(table: Seq<Seq<char>>) -> bool {
    &&& table.len() >= 1
    &&& table[0] == register_name()
    &&& forall|i: int, j: int| 0 <= i < j < table.len() ==> table[i] != table[j]
}

/// The id of `name` in `table`: its position, counted from 1.
pub open spec fn opcode_id(table: Seq<Seq<char>>, name: Seq<char>) -> int {
    first_index(table, name) + 1
}

/// A writer that nothing was written to.
pub open spec fn fresh() -> WriterView {
    WriterView { segments: Seq::empty(), opcodes: seq![register_name()] }
}

/// The writer after a registration record for `name`: the id of the
/// registration opcode and the name are written, and the name joins the table
/// unless it is there already.
pub open spec fn after_registration(w: WriterView, name: Seq<char>) -> WriterView {
    WriterView {
        segments: w.segments.push(decimal_text(1)).push(name),
        opcodes: if w.opcodes.contains(name) {
            w.opcodes
        } else {
            w.opcodes.push(name)
        },
    }
}

/// The writer after the opcode `name` is resolved: a name that the table lacks
/// is registered first, then the id of the name is written.
pub open spec fn after_opcode(w: WriterView, name: Seq<char>) -> WriterView {
    let known = if w.opcodes.contains(name) {
        w
    } else {
        after_registration(w, name)
    };
    WriterView {
        segments: known.segments.push(decimal_text(opcode_id(known.opcodes, name))),
        opcodes: known.opcodes,
    }
}

/// The writer after a record is emitted: a registration record as
/// [`after_registration`] says, any other as its resolved opcode followed by
/// its fields.
pub open spec fn after_emit(w: WriterView, opcode: ContentScriptOpcode) -> WriterView {
    match opcode {
        ContentScriptOpcode::OpcodeRegister { id } => after_registration(w, id@),
        _ => {
            let led = after_opcode(w, opcode.opcode_name());
            WriterView { segments: led.segments + opcode.fields(), opcodes: led.opcodes }
        },
    }
}

/// The writer after each record of `opcodes` is emitted in turn.
pub open spec fn after_all(w: WriterView, opcodes: Seq<ContentScriptOpcode>) -> WriterView
    decreases opcodes.len(),
{
    if opcodes.len() == 0 {
        w
    } else {
        after_emit(after_all(w, opcodes.drop_last()), opcodes.last())
    }
}

/// The finished script over `segments`: the version marker, then the encoded
/// segment list.
pub open spec fn script_text(segments: Seq<Seq<char>>) -> Option<Seq<char>> {
    match encoding(segments) {
        Some(body) => Some("V3"@ + body),
        None => None,
    }
}

/// Turns a stream of records into one script.
pub struct ScriptWriter {
    segments: Vec<String>,
    opcodes: Vec<String>,
}

impl View for ScriptWriter {
    type V = WriterView;

    closed spec fn view(&self) -> WriterView {
        WriterView { segments: texts(self.segments@), opcodes: texts(self.opcodes@) }
    }
}

impl ScriptWriter {
    /// The writer's table is in order: it starts with the registration opcode
    /// and holds no name twice. Every writer that [`ScriptWriter::new`] made
    /// is so, whatever was emitted to it.
    pub open spec fn wf(&self) -> bool {
        table_ok(self@.opcodes)
    }

    /// A writer with no segment, whose table holds the registration opcode
    /// alone.
    pub fn new() -> (r: Self)
        ensures
            r@ == fresh(),
            r.wf(),
    {
        let mut opcodes: Vec<String> = Vec::new();
        opcodes.push(String::from_str("opcode_register"));
        let r = Self { segments: Vec::new(), opcodes };
        proof {
            assert(r@.segments =~= fresh().segments);
            assert(r@.opcodes =~= fresh().opcodes);
        }
        r
    }

    /// The segments written so far.
    pub fn segments(&self) -> (r: &Vec<String>)
        ensures
            texts(r@) == self@.segments,
    {
        &self.segments
    }

    /// The opcode table, in the order of the ids.
    pub fn opcodes(&self) -> (r: &Vec<String>)
        ensures
            texts(r@) == self@.opcodes,
    {
        &self.opcodes
    }

    /// Appends one raw segment.
    fn write(&mut self, text: String)
        ensures
            final(self)@.segments == old(self)@.segments.push(text@),
            final(self)@.opcodes == old(self)@.opcodes,
    {
        self.segments.push(text);
        proof {
            assert(texts(self.segments@) =~= texts(old(self).segments@).push(text@));
        }
    }

    /// The position of `name` in the table, or the table's length where it is
    /// not there.
    fn position(&self, name: &String) -> (k: usize)
        ensures
            k == first_index(self@.opcodes, name@),
            k <= self@.opcodes.len(),
            k < self@.opcodes.len() <==> self@.opcodes.contains(name@),
    {
        let ghost table = texts(self.opcodes@);
        proof {
            lemma_first_index(table, name@);
        }
        let mut k: usize = 0;
        while k < self.opcodes.len()
            invariant
                k <= self.opcodes@.len(),
                table == texts(self.opcodes@),
                forall|j: int| 0 <= j < k ==> table[j] != name@,
            decreases self.opcodes@.len() - k,
        {
            if self.opcodes[k] == *name {
                proof {
                    assert(table[k as int] == name@);
                    lemma_first_index_is(table, name@, k as int);
                }
                return k;
            }
            k += 1;
        }
        proof {
            if first_index(table, name@) < table.len() {
                assert(table[first_index(table, name@)] == name@);
            }
        }
        k
    }

    /// Resolves the opcode `id`: registers it where the table lacks it, then
    /// writes its id.
    fn write_opcode(&mut self, id: String)
        requires
            old(self).wf(),
        ensures
            final(self).wf(),
            final(self)@ == after_opcode(old(self)@, id@),
        decreases
            (if old(self)@.opcodes.contains(id@) {
                0int
            } else {
                2int
            }),
    {
        proof {
            lemma_first_index(self@.opcodes, register_name());
        }
        if self.position(&id) >= self.opcodes.len() {
            self.emit(ContentScriptOpcode::OpcodeRegister { id: id.clone() });
        }
        let k = self.position(&id);
        let n = self.opcodes.len();
        proof {
            assert(self@.opcodes.contains(id@)) by {
                if !old(self)@.opcodes.contains(id@) {
                    let table = old(self)@.opcodes.push(id@);
                    assert(table[table.len() - 1] == id@);
                }
            }
            assert(k < n);
        }
        self.write(unsigned_to_string((k + 1) as u64));
        proof {
            assert(self@ == after_opcode(old(self)@, id@));
        }
    }

    /// Writes one record: the id of its kind, then its fields in order, each
    /// as a segment of its own. A kind that is used for the first time is
    /// announced by a registration record directly before. A registration
    /// record adds its name to the table unless the table holds it already.
    pub fn emit(&mut self, opcode: ContentScriptOpcode)
        requires
            old(self).wf(),
        ensures
            final(self).wf(),
            final(self)@ == after_emit(old(self)@, opcode),
        decreases
            (if old(self)@.opcodes.contains(opcode.opcode_name()) {
                1int
            } else {
                3int
            }),
    {
        proof {
            lemma_first_index_is(self@.opcodes, register_name(), 0);
        }
        self.write_opcode(opcode.name());
        match opcode {
            ContentScriptOpcode::OpcodeRegister { id } => {
                let known = self.position(&id) < self.opcodes.len();
                self.write(id.clone());
                if !known {
                    proof {
                        lemma_push_keeps_table(texts(self.opcodes@), id@);
                    }
                    self.opcodes.push(id);
                    proof {
                        assert(texts(self.opcodes@) =~= old(self)@.opcodes.push(id@));
                    }
                }
            },
            ContentScriptOpcode::BeatmapNote { time, lane } => {
                self.write(time);
                self.write(i32_to_string(lane));
            },
            ContentScriptOpcode::BeatmapModifier { from, to, modifier } => {
                self.write(from);
                self.write(to);
                self.write(modifier);
            },
            ContentScriptOpcode::BeatmapCollectionRegister { name, script } => {
                self.write(name);
                self.write(script);
            },
            ContentScriptOpcode::AddMenuItem { pos, next_state, state } => {
                self.write(i32_to_string(pos));
                self.write(next_state);
                self.write(state);
            },
        }
        proof {
            assert(self@.segments =~= after_emit(old(self)@, opcode).segments);
        }
    }

    /// The finished script: the marker `V3`, then the encoded list of all
    /// segments written so far. The writer is left as it is.
    pub fn text(&self) -> (r: Result<String, ADHDError>)
        ensures
            match r {
                Ok(script) => script_text(self@.segments) == Some(script@) && decode_script(
                    script@,
                ) == Some(self@.segments),
                Err(e) => script_text(self@.segments) is None && e is CharactersExhausted
                    && exists|i: int| #[trigger]
                    first_exhausted(self@.segments, i) && e.subject() == self@.segments[i],
            },
            r is Ok <==> forall|i: int|
                0 <= i < self@.segments.len() ==> !exhausted(
                    lowercase_of(#[trigger] self@.segments[i]),
                ),
    {
        match encode_segments(&self.segments) {
            Ok(body) => {
                let script = String::from_str("V3").concat(body.as_str());
                proof {
                    reveal_strlit("V3");
                    assert(script@.take(2) =~= "V3"@);
                    assert(script@.skip(2) =~= body@);
                }
                Ok(script)
            },
            Err(e) => Err(e),
        }
    }
}

/// The segments that a new writer holds after the records are emitted in turn.
pub open spec fn segments_of(opcodes: Seq<ContentScriptOpcode>) -> Seq<Seq<char>> {
    after_all(fresh(), opcodes).segments
}

/// Encodes a list of records as one script, through a writer of its own.
pub fn encode(opcodes: Vec<ContentScriptOpcode>) -> (r: Result<String, ADHDError>)
    ensures
        match r {
            Ok(script) => script_text(segments_of(opcodes@)) == Some(script@) && decode_script(
                script@,
            ) == Some(segments_of(opcodes@)),
            Err(e) => script_text(segments_of(opcodes@)) is None && e is CharactersExhausted
                && exists|i: int| #[trigger]
                first_exhausted(segments_of(opcodes@), i) && e.subject() == segments_of(
                    opcodes@,
                )[i],
        },
        r is Ok <==> forall|i: int|
            0 <= i < segments_of(opcodes@).len() ==> !exhausted(
                lowercase_of(#[trigger] segments_of(opcodes@)[i]),
            ),
{
    let mut writer = ScriptWriter::new();
    let ghost all = opcodes@;
    for opcode in iter: opcodes
        invariant
            iter.seq() == all,
            writer.wf(),
            writer@ == after_all(fresh(), all.take(iter.index() as int)),
    {
        proof {
            let done = all.take(iter.index() as int);
            let next = all.take(iter.index() + 1);
            assert(next.drop_last() =~= done);
            assert(next.last() == opcode);
        }
        writer.emit(opcode);
    }
    proof {
        assert(all.take(all.len() as int) =~= all);
    }
    writer.text()
}

/// Adding a name that the table lacks keeps the table in order.
pub proof fn lemma_push_keeps_table(table: Seq<Seq<char>>, name: Seq<char>)
    requires
        table_ok(table),
        !table.contains(name),
    ensures
        table_ok(table.push(name)),
{
    let grown = table.push(name);
    assert forall|i: int, j: int| 0 <= i < j < grown.len() implies grown[i] != grown[j] by {
        if j == table.len() {
            assert(table.contains(table[i]));
        }
    }
}

/// Emitting a record keeps the table in order and only ever appends to it.
pub proof fn lemma_emit_grows_table(w: WriterView, opcode: ContentScriptOpcode)
    requires
        table_ok(w.opcodes),
    ensures
        table_ok(after_emit(w, opcode).opcodes),
        extends(after_emit(w, opcode).opcodes, w.opcodes),
        extends(after_emit(w, opcode).segments, w.segments),
{
    match opcode {
        ContentScriptOpcode::OpcodeRegister { id } => {
            if !w.opcodes.contains(id@) {
                lemma_push_keeps_table(w.opcodes, id@);
            }
        },
        _ => {
            if !w.opcodes.contains(opcode.opcode_name()) {
                lemma_push_keeps_table(w.opcodes, opcode.opcode_name());
            }
        },
    }
}

/// Emitting records in turn keeps the table in order and only ever appends to
/// it.
pub proof fn lemma_all_grow_table(w: WriterView, opcodes: Seq<ContentScriptOpcode>)
    requires
        table_ok(w.opcodes),
    ensures
        table_ok(after_all(w, opcodes).opcodes),
        extends(after_all(w, opcodes).opcodes, w.opcodes),
        extends(after_all(w, opcodes).segments, w.segments),
    decreases opcodes.len(),
{
    if opcodes.len() > 0 {
        lemma_all_grow_table(w, opcodes.drop_last());
        lemma_emit_grows_table(after_all(w, opcodes.drop_last()), opcodes.last());
    }
}

/// First use: on a new writer the registration opcode resolves to id 1, and
/// any other name is registered and resolves to id 2.
pub proof fn lemma_first_id(name: Seq<char>)
    ensures
        opcode_id(after_opcode(fresh(), name).opcodes, name) == (if name == register_name() {
            1int
        } else {
            2int
        }),
        after_opcode(fresh(), name).segments.last() == decimal_text(
            if name == register_name() {
                1int
            } else {
                2int
            },
        ),
        after_opcode(fresh(), name).opcodes == (if name == register_name() {
            fresh().opcodes
        } else {
            fresh().opcodes.push(name)
        }),
{
    let table = fresh().opcodes;
    assert(table[0] == register_name());
    if name == register_name() {
        lemma_first_index_is(table, name, 0);
    } else {
        assert(!table.contains(name));
        lemma_first_index_is(table.push(name), name, 1);
    }
}

/// Id stability: once a name is resolved, it is in the table, and whatever
/// records are emitted afterwards, resolving it again registers nothing and
/// writes the same id as the first time.
pub proof fn lemma_id_stable(w: WriterView, name: Seq<char>, between: Seq<ContentScriptOpcode>)
    requires
        table_ok(w.opcodes),
    ensures
        ({
            let first = after_opcode(w, name);
            let later = after_all(first, between);
            &&& first.opcodes.contains(name)
            &&& later.opcodes.contains(name)
            &&& opcode_id(later.opcodes, name) == opcode_id(first.opcodes, name)
            &&& after_opcode(later, name).opcodes == later.opcodes
            &&& after_opcode(later, name).segments.last() == first.segments.last()
        }),
{
    let first = after_opcode(w, name);
    let later = after_all(first, between);
    if !w.opcodes.contains(name) {
        lemma_push_keeps_table(w.opcodes, name);
        assert(w.opcodes.push(name)[w.opcodes.len() as int] == name);
    }
    lemma_all_grow_table(first, between);
    lemma_first_index_extends(first.opcodes, later.opcodes, name);
}

/// Idempotent registration: resolving a name a second time leaves the table
/// as the first time left it, and the table holds the name at one position
/// only.
pub proof fn lemma_register_once(w: WriterView, name: Seq<char>)
    requires
        table_ok(w.opcodes),
    ensures
        ({
            let once = after_opcode(w, name);
            let twice = after_opcode(once, name);
            &&& table_ok(once.opcodes)
            &&& once.opcodes.contains(name)
            &&& twice.opcodes == once.opcodes
            &&& after_registration(after_registration(w, name), name).opcodes
                == after_registration(w, name).opcodes
            &&& forall|i: int, j: int|
                0 <= i < once.opcodes.len() && 0 <= j < once.opcodes.len() && once.opcodes[i]
                    == name && once.opcodes[j] == name ==> i == j
        }),
{
    if !w.opcodes.contains(name) {
        lemma_push_keeps_table(w.opcodes, name);
        assert(w.opcodes.push(name)[w.opcodes.len() as int] == name);
    }
}

} // verus!

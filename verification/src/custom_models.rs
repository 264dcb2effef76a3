//! Capture of server-sent custom models and the bookkeeping of the 64
//! custom-model slots that the pet borrows for its own copy of a model.
//!
//! Wire layout (CPE CustomModels v2):
//! - DefineModel payload, 115 bytes: `id` (1), `name` (64, NUL/space padded),
//!   49 bytes of geometry data, `num_parts` (1).
//! - DefineModelPart payload, 166 bytes: `id` (1) followed by 165 bytes of part data.
//! - UndefineModel payload: `id` (1).

use vstd::prelude::*;
use vstd::slice::slice_to_vec;
use vstd::string::StringSliceAdditionalSpecFns;
use crate::text::str_eq;

verus! {

/// Number of custom-model slots the protocol offers.
pub const MAX_CUSTOM_MODELS: usize = 64;

/// Length of a DefineModel payload.
pub const DEFINE_MODEL_LEN: usize = 115;

/// Length of a DefineModelPart (v2) payload.
pub const DEFINE_MODEL_PART_LEN: usize = 166;

/// Length of the fixed model-name field of a DefineModel payload.
pub const MODEL_NAME_LEN: usize = 64;

/// Offset of `num_parts` in a DefineModel payload.
pub const NUM_PARTS_OFFSET: usize = 114;

// ---------------------------------------------------------------------------
// Names
// ---------------------------------------------------------------------------

/// Name of the text `String::from_utf8_lossy` makes of `bytes`.
pub uninterp spec fn utf8_lossy(bytes: Seq<u8>) -> Seq<char>;

/// All of the first `k` bytes are ASCII.
pub open spec fn ascii_upto(bytes: Seq<u8>, k: int) -> bool {
    forall|i: int| 0 <= i < k ==> bytes[i] < 128
}

/// ASCII bytes read as characters.
pub open spec fn ascii_as_chars(bytes: Seq<u8>) -> Seq<char> {
    bytes.map_values(|b: u8| b as char)
}

/// `String::from_utf8_lossy(bytes).into_owned()`.
///
/// Trusted: the result is the text named `utf8_lossy(bytes)`; valid UTF-8 is
/// decoded as it stands, and a leading run of ASCII bytes comes out as the
/// same characters (the documentation: invalid sequences are replaced by
/// U+FFFD, everything valid is kept). What replaces an invalid sequence is
/// not stated here.
#[verifier::external_body]
fn string_from_utf8_lossy(bytes: &[u8]) -> (s: String)
    ensures
        s@ == utf8_lossy(bytes@),
        vstd::utf8::valid_utf8(bytes@) ==> s@ == vstd::utf8::decode_utf8(bytes@),
        forall|k: int|
            0 <= k <= bytes@.len() && #[trigger] ascii_upto(bytes@, k) ==> k <= s@.len()
                && s@.take(k) == ascii_as_chars(bytes@.take(k)),
{
    String::from_utf8_lossy(bytes).into_owned()
}

/// ASCII bytes are valid UTF-8 and decode to the same characters.
proof fn lemma_ascii_decodes(bytes: Seq<u8>)
    requires
        ascii_upto(bytes, bytes.len() as int),
    ensures
        vstd::utf8::valid_utf8(bytes),
        vstd::utf8::decode_utf8(bytes) == ascii_as_chars(bytes),
    decreases bytes.len(),
{
    if bytes.len() > 0 {
        let b = bytes[0];
        let rest = bytes.drop_first();
        assert(ascii_upto(rest, rest.len() as int)) by {
            assert forall|i: int| 0 <= i < rest.len() implies rest[i] < 128 by {
                assert(rest[i] == bytes[i + 1]);
            }
        }
        lemma_ascii_decodes(rest);
        assert(b < 128);
        assert(b & 0x7f == b) by (bit_vector)
            requires
                b < 128,
        ;
        assert(vstd::utf8::pop_first_scalar(bytes) =~= rest);
        assert(ascii_as_chars(bytes) =~= seq![b as char] + ascii_as_chars(rest));
    }
}

/// Byte that ends the model name inside its fixed field.
pub open spec fn is_name_terminator(b: u8) -> bool {
    b == 0u8 || b == 32u8
}

/// Index of the first name terminator in `field` at or after `i`, or the
/// field's length when there is none.
pub open spec fn name_end_from(field: Seq<u8>, i: int) -> int
    decreases field.len() - i,
{
    if i < 0 || i >= field.len() {
        field.len() as int
    } else if is_name_terminator(field[i]) {
        i
    } else {
        name_end_from(field, i + 1)
    }
}

/// The 64-byte name field of a DefineModel payload.
pub open spec fn name_field(data: Seq<u8>) -> Seq<u8> {
    data.subrange(1, 1 + MODEL_NAME_LEN as int)
}

/// The name bytes of a DefineModel payload: its name field cut at the first
/// NUL or space.
pub open spec fn define_name_bytes(data: Seq<u8>) -> Seq<u8> {
    name_field(data).take(name_end_from(name_field(data), 0))
}

/// The model name of a DefineModel payload.
pub open spec fn define_name(data: Seq<u8>) -> Seq<char> {
    utf8_lossy(define_name_bytes(data))
}

/// Names starting with `pet_` belong to the pet's own injected models.
pub open spec fn has_pet_prefix(name: Seq<char>) -> bool {
    &&& name.len() >= 4
    &&& name[0] == 'p'
    &&& name[1] == 'e'
    &&& name[2] == 't'
    &&& name[3] == '_'
}

/// The raw name field of a DefineModel payload starts with the bytes `pet_`.
pub open spec fn raw_pet_prefix(data: Seq<u8>) -> bool {
    &&& data.len() >= 5
    &&& data[1] == 112u8
    &&& data[2] == 101u8
    &&& data[3] == 116u8
    &&& data[4] == 95u8
}

proof fn lemma_name_end_bounds(field: Seq<u8>, i: int)
    requires
        0 <= i <= field.len(),
    ensures
        i <= name_end_from(field, i) <= field.len(),
        forall|j: int| i <= j < name_end_from(field, i) ==> !is_name_terminator(field[j]),
    decreases field.len() - i,
{
    if i < field.len() && !is_name_terminator(field[i]) {
        lemma_name_end_bounds(field, i + 1);
    }
}

/// A raw `pet_` prefix survives the cut at the terminator and the lossy
/// decoding, so the decoded name has the `pet_` prefix too.
proof fn lemma_raw_prefix_gives_name_prefix(data: Seq<u8>, name: Seq<char>)
    requires
        data.len() == DEFINE_MODEL_LEN,
        raw_pet_prefix(data),
        forall|k: int|
            0 <= k <= define_name_bytes(data).len() && #[trigger] ascii_upto(
                define_name_bytes(data),
                k,
            ) ==> k <= name.len() && name.take(k) == ascii_as_chars(
                define_name_bytes(data).take(k),
            ),
    ensures
        has_pet_prefix(name),
{
    let field = name_field(data);
    lemma_name_end_bounds(field, 0);
    assert(!is_name_terminator(field[0]));
    assert(name_end_from(field, 0) == name_end_from(field, 1));
    assert(!is_name_terminator(field[1]));
    assert(name_end_from(field, 1) == name_end_from(field, 2));
    assert(!is_name_terminator(field[2]));
    assert(name_end_from(field, 2) == name_end_from(field, 3));
    assert(!is_name_terminator(field[3]));
    assert(name_end_from(field, 3) == name_end_from(field, 4));
    lemma_name_end_bounds(field, 4);
    let nb = define_name_bytes(data);
    assert(nb.len() >= 4);
    assert(ascii_upto(nb, 4));
    let t = name.take(4);
    assert(t == ascii_as_chars(nb.take(4)));
    assert(nb[0] == 112u8 && nb[1] == 101u8 && nb[2] == 116u8 && nb[3] == 95u8);
    assert(t[0] == name[0] && t[0] == (nb[0] as char));
    assert(t[1] == name[1] && t[1] == (nb[1] as char));
    assert(t[2] == name[2] && t[2] == (nb[2] as char));
    assert(t[3] == name[3] && t[3] == (nb[3] as char));
    assert(name[0] == (112u8 as char));
    assert(name[1] == (101u8 as char));
    assert(name[2] == (116u8 as char));
    assert(name[3] == (95u8 as char));
}

/// Index of the first NUL or space in the name field of a DefineModel payload.
fn name_end(data: &[u8]) -> (end: usize)
    requires
        data@.len() == DEFINE_MODEL_LEN,
    ensures
        end == name_end_from(name_field(data@), 0),
        end <= MODEL_NAME_LEN,
{
    let ghost field = name_field(data@);
    let mut j: usize = 0;
    while j < MODEL_NAME_LEN && !(data[1 + j] == 0u8 || data[1 + j] == 32u8)
        invariant
            j <= MODEL_NAME_LEN,
            data@.len() == DEFINE_MODEL_LEN,
            field == name_field(data@),
            name_end_from(field, j as int) == name_end_from(field, 0),
        decreases MODEL_NAME_LEN - j,
    {
        assert(field[j as int] == data@[1 + j]);
        j = j + 1;
    }
    if j < MODEL_NAME_LEN {
        assert(field[j as int] == data@[1 + j]);
    }
    j
}

/// The model name of a DefineModel payload, as a `String`.
fn define_name_string(data: &[u8]) -> (name: String)
    requires
        data@.len() == DEFINE_MODEL_LEN,
    ensures
        name@ == define_name(data@),
        raw_pet_prefix(data@) ==> has_pet_prefix(name@),
        vstd::utf8::valid_utf8(define_name_bytes(data@)) ==> name@ == vstd::utf8::decode_utf8(
            define_name_bytes(data@),
        ),
        ascii_upto(define_name_bytes(data@), define_name_bytes(data@).len() as int) ==> name@
            == ascii_as_chars(define_name_bytes(data@)),
{
    let end = name_end(data);
    let bytes = &data[1..1 + end];
    assert(bytes@ =~= define_name_bytes(data@));
    let name = string_from_utf8_lossy(bytes);
    proof {
        if raw_pet_prefix(data@) {
            lemma_raw_prefix_gives_name_prefix(data@, name@);
        }
        if ascii_upto(bytes@, bytes@.len() as int) {
            lemma_ascii_decodes(bytes@);
        }
    }
    name
}

/// Whether `s` starts with `pet_`.
fn starts_with_pet_prefix(s: &str) -> (r: bool)
    ensures
        r == has_pet_prefix(s@),
{
    let n = s.unicode_len();
    n >= 4 && s.get_char(0) == 'p' && s.get_char(1) == 'e' && s.get_char(2) == 't'
        && s.get_char(3) == '_'
}

/// Extract the model name from a DefineModel payload, trimmed at the first
/// NUL or space in the fixed 64-byte name field. A payload of any other
/// length gives the empty name.
pub fn parse_name(data: &[u8]) -> (name: String)
    ensures
        name@ == (if data@.len() == DEFINE_MODEL_LEN {
            define_name(data@)
        } else {
            Seq::empty()
        }),
        data@.len() == DEFINE_MODEL_LEN && vstd::utf8::valid_utf8(define_name_bytes(data@))
            ==> name@ == vstd::utf8::decode_utf8(define_name_bytes(data@)),
        data@.len() == DEFINE_MODEL_LEN && ascii_upto(
            define_name_bytes(data@),
            define_name_bytes(data@).len() as int,
        ) ==> name@ == ascii_as_chars(define_name_bytes(data@)),
{
    if data.len() != DEFINE_MODEL_LEN {
        return String::new();
    }
    define_name_string(data)
}

// ---------------------------------------------------------------------------
// Patching payloads
// ---------------------------------------------------------------------------

/// `n` NUL bytes.
pub open spec fn nul_bytes(n: int) -> Seq<u8> {
    Seq::new(n as nat, |i: int| 0u8)
}

/// How many bytes of `name` fit the name field.
pub open spec fn name_fit_len(name: Seq<u8>) -> int {
    if name.len() < MODEL_NAME_LEN {
        name.len() as int
    } else {
        MODEL_NAME_LEN as int
    }
}

/// A DefineModel payload with its slot id and name replaced: the name is cut
/// to 64 bytes and NUL-padded; every other byte is kept. A payload of any
/// other length is returned unchanged.
pub open spec fn patched_define(data: Seq<u8>, slot: u8, name: Seq<u8>) -> Seq<u8> {
    if data.len() != DEFINE_MODEL_LEN {
        data
    } else {
        seq![slot] + name.take(name_fit_len(name)) + nul_bytes(
            MODEL_NAME_LEN - name_fit_len(name),
        ) + data.subrange(1 + MODEL_NAME_LEN as int, DEFINE_MODEL_LEN as int)
    }
}

/// A DefineModelPart payload with its slot id replaced; a payload of any
/// other length is returned unchanged.
pub open spec fn patched_part(data: Seq<u8>, slot: u8) -> Seq<u8> {
    if data.len() != DEFINE_MODEL_PART_LEN {
        data
    } else {
        data.update(0, slot)
    }
}

/// Clone a DefineModel payload with the slot id and model name replaced.
/// The name is NUL-padded to 64 bytes; all other bytes are left verbatim.
pub fn patch_define(data: &[u8], slot: u8, new_name: &str) -> (out: Vec<u8>)
    ensures
        out@ == patched_define(data@, slot, new_name.spec_bytes()),
{
    let mut out = slice_to_vec(data);
    if data.len() == DEFINE_MODEL_LEN {
        let name_bytes = new_name.as_bytes();
        let ghost nb = name_bytes@;
        let fit: usize = if name_bytes.len() < MODEL_NAME_LEN {
            name_bytes.len()
        } else {
            MODEL_NAME_LEN
        };
        out.set(0, slot);
        let mut i: usize = 0;
        while i < MODEL_NAME_LEN
            invariant
                i <= MODEL_NAME_LEN,
                data@.len() == DEFINE_MODEL_LEN,
                nb == name_bytes@,
                fit == name_fit_len(nb),
                out@.len() == DEFINE_MODEL_LEN,
                out@[0] == slot,
                forall|k: int| 1 <= k < 1 + i ==> #[trigger] out@[k] == (if k - 1 < fit {
                    nb[k - 1]
                } else {
                    0u8
                }),
                forall|j: int| 1 + i <= j < DEFINE_MODEL_LEN ==> out@[j] == data@[j],
            decreases MODEL_NAME_LEN - i,
        {
            let b: u8 = if i < fit {
                name_bytes[i]
            } else {
                0u8
            };
            let ghost prev = out@;
            assert(b == (if i < fit { nb[i as int] } else { 0u8 }));
            out.set(1 + i, b);
            assert(out@[1 + i] == b);
            assert forall|k: int| 1 <= k < 1 + i + 1 implies #[trigger] out@[k] == (if k - 1 < fit {
                nb[k - 1]
            } else {
                0u8
            }) by {
                if k < 1 + i {
                    assert(out@[k] == prev[k]);
                }
            }
            i = i + 1;
        }
        let ghost expected = patched_define(data@, slot, nb);
        assert forall|k: int| 0 <= k < DEFINE_MODEL_LEN implies out@[k] == expected[k] by {
            if k == 0 {
            } else if k < 1 + fit {
                assert(expected[k] == nb.take(fit as int)[k - 1]);
            } else if k < 1 + MODEL_NAME_LEN {
                assert(expected[k] == nul_bytes(MODEL_NAME_LEN - fit)[k - 1 - fit]);
            } else {
            }
        }
        assert(out@ =~= expected);
    }
    out
}

/// Clone a DefineModelPart payload with byte 0 (model id) replaced by `slot`.
pub fn patch_part(data: &[u8], slot: u8) -> (out: Vec<u8>)
    ensures
        out@ == patched_part(data@, slot),
{
    let mut out = slice_to_vec(data);
    if data.len() == DEFINE_MODEL_PART_LEN {
        out.set(0, slot);
    }
    out
}

// ---------------------------------------------------------------------------
// Slots
// ---------------------------------------------------------------------------

/// True when `slot` is a valid slot index whose entry in `occupied` is false.
pub open spec fn slot_is_free(occupied: Seq<bool>, slot: int) -> bool {
    0 <= slot < occupied.len() && !occupied[slot]
}

/// Return the highest unoccupied slot index, or `None` if all 64 are taken.
/// Picking from the high end avoids colliding with servers that allocate
/// models from slot 0 upward.
pub fn pick_free_slot(occupied: &[bool; 64]) -> (r: Option<u8>)
    ensures
        r is None <==> (forall|i: int| 0 <= i < 64 ==> occupied@[i]),
        r matches Some(s) ==> slot_is_free(occupied@, s as int) && (forall|j: int|
            s < j < 64 ==> occupied@[j]),
{
    let mut i: usize = 64;
    while i > 0
        invariant
            i <= 64,
            forall|j: int| i <= j < 64 ==> occupied@[j],
        decreases i,
    {
        i = i - 1;
        if !occupied[i] {
            return Some(i as u8);
        }
    }
    None
}

// ---------------------------------------------------------------------------
// Capture state
// ---------------------------------------------------------------------------

/// The payloads of one custom model, kept so the pet can replay them.
pub struct CapturedModel {
    pub define: Vec<u8>,
    pub parts: Vec<Vec<u8>>,
}

/// Abstract content of a captured model.
pub struct CapturedView {
    pub define: Seq<u8>,
    pub parts: Seq<Seq<u8>>,
}

/// Abstract content of a model whose parts are still arriving.
pub struct InProgressView {
    pub name: Seq<char>,
    pub num_parts: u8,
    pub define: Seq<u8>,
    pub parts: Seq<Seq<u8>>,
}

/// Abstract capture state.
pub struct StateView {
    /// Complete models by name.
    pub captured: Map<Seq<char>, CapturedView>,
    /// Models whose parts are still arriving, by slot.
    pub in_progress: Map<u8, InProgressView>,
    /// Which of the 64 slots the server has told us are in use.
    pub occupied: Seq<bool>,
    /// The slot the pet's injected model uses, if any.
    pub pet_slot: Option<u8>,
    /// Set while the pet's own defines are being replayed.
    pub injecting: bool,
}

/// Byte sequences of a list of payloads.
pub open spec fn parts_view(parts: Seq<Vec<u8>>) -> Seq<Seq<u8>> {
    parts.map_values(|p: Vec<u8>| p@)
}

impl View for CapturedModel {
    type V = CapturedView;

    open spec fn view(&self) -> CapturedView {
        CapturedView { define: self.define@, parts: parts_view(self.parts@) }
    }
}

struct InProgress {
    name: String,
    num_parts: u8,
    define: Vec<u8>,
    parts: Vec<Vec<u8>>,
}

impl InProgress {
    spec fn view(&self) -> InProgressView {
        InProgressView {
            name: self.name@,
            num_parts: self.num_parts,
            define: self.define@,
            parts: parts_view(self.parts@),
        }
    }
}

struct CapturedEntry {
    name: String,
    model: CapturedModel,
}

/// Capture state for the custom-model packets the server sends.
pub struct State {
    captured: Vec<CapturedEntry>,
    captured_map: Ghost<Map<Seq<char>, CapturedView>>,
    in_progress: Vec<Option<InProgress>>,
    occupied: [bool; 64],
    pet_slot: Option<u8>,
    injecting: bool,
}

/// Some entry of `entries` is named `k`.
spec fn entries_name(entries: Seq<CapturedEntry>, k: Seq<char>) -> bool {
    exists|i: int| 0 <= i < entries.len() && entries[i].name@ == k
}

/// The in-progress table (one entry per slot) read as a map.
spec fn in_progress_map(table: Seq<Option<InProgress>>) -> Map<u8, InProgressView> {
    Map::new(
        |k: u8| (k as int) < table.len() && table[k as int] is Some,
        |k: u8| table[k as int]->0.view(),
    )
}

impl View for State {
    type V = StateView;

    closed spec fn view(&self) -> StateView {
        StateView {
            captured: self.captured_map@,
            in_progress: in_progress_map(self.in_progress@),
            occupied: self.occupied@,
            pet_slot: self.pet_slot,
            injecting: self.injecting,
        }
    }
}

/// A state with nothing captured, every slot free and no pet slot.
pub open spec fn empty_state() -> StateView {
    StateView {
        captured: Map::empty(),
        in_progress: Map::empty(),
        occupied: Seq::new(64, |i: int| false),
        pet_slot: None,
        injecting: false,
    }
}

impl State {
    /// Well-formedness: one in-progress entry per slot, distinct captured
    /// names matching the abstract map, and a pet slot inside the table.
    pub closed spec fn wf(&self) -> bool {
        &&& self.in_progress@.len() == MAX_CUSTOM_MODELS
        &&& self.pet_slot matches Some(p) ==> p < 64
        &&& forall|i: int, j: int|
            0 <= i < self.captured@.len() && 0 <= j < self.captured@.len() && i != j
                ==> self.captured@[i].name@ != self.captured@[j].name@
        &&& forall|i: int|
            0 <= i < self.captured@.len() ==> self.captured_map@.contains_key(
                #[trigger] self.captured@[i].name@,
            ) && self.captured_map@[self.captured@[i].name@] == self.captured@[i].model@
        &&& forall|k: Seq<char>|
            #[trigger] self.captured_map@.contains_key(k) ==> entries_name(self.captured@, k)
    }

    /// What well-formedness tells callers: the slot table has 64 entries,
    /// the pet's slot (if any) is one of them, and every model still
    /// waiting for parts sits on one of them.
    pub proof fn lemma_wf_bounds(&self)
        requires
            self.wf(),
        ensures
            self@.occupied.len() == MAX_CUSTOM_MODELS,
            self@.pet_slot matches Some(p) ==> p < 64,
            forall|id: u8| #[trigger] self@.in_progress.contains_key(id) ==> id < 64,
    {
    }

    /// An empty capture state.
    pub fn new() -> (s: State)
        ensures
            s.wf(),
            s@ == empty_state(),
    {
        let mut table: Vec<Option<InProgress>> = Vec::new();
        let mut i: usize = 0;
        while i < MAX_CUSTOM_MODELS
            invariant
                i <= MAX_CUSTOM_MODELS,
                table@.len() == i,
                forall|j: int| 0 <= j < i ==> table@[j] is None,
            decreases MAX_CUSTOM_MODELS - i,
        {
            table.push(None);
            i = i + 1;
        }
        let s = State {
            captured: Vec::new(),
            captured_map: Ghost(Map::empty()),
            in_progress: table,
            occupied: [false; 64],
            pet_slot: None,
            injecting: false,
        };
        proof {
            broadcast use vstd::array::group_array_axioms;

            assert(s@.in_progress =~= Map::empty());
            assert(s@.occupied =~= Seq::new(64, |i: int| false));
        }
        s
    }

    /// Index of the captured entry named `name`, if any.
    fn find_captured(&self, name: &str) -> (r: Option<usize>)
        requires
            self.wf(),
        ensures
            match r {
                Some(i) => i < self.captured@.len() && self.captured@[i as int].name@ == name@,
                None => !self@.captured.contains_key(name@),
            },
    {
        let mut i: usize = 0;
        while i < self.captured.len()
            invariant
                i <= self.captured@.len(),
                forall|j: int| 0 <= j < i ==> self.captured@[j].name@ != name@,
            decreases self.captured@.len() - i,
        {
            if str_eq(self.captured[i].name.as_str(), name) {
                return Some(i);
            }
            i = i + 1;
        }
        None
    }

    /// Record a complete model under `name`, replacing any earlier one.
    fn insert_captured(&mut self, name: String, model: CapturedModel)
        requires
            old(self).wf(),
        ensures
            final(self).wf(),
            final(self)@ == (StateView {
                captured: old(self)@.captured.insert(name@, model@),
                ..old(self)@
            }),
    {
        let ghost key = name@;
        let ghost value = model@;
        let found = self.find_captured(name.as_str());
        match found {
            Some(i) => {
                self.captured.set(i, CapturedEntry { name, model });
            },
            None => {
                self.captured.push(CapturedEntry { name, model });
            },
        }
        proof {
            self.captured_map@ = self.captured_map@.insert(key, value);
            assert forall|k: Seq<char>| #[trigger] self.captured_map@.contains_key(k) implies entries_name(self.captured@, k) by {
                if k == key {
                    match found {
                        Some(i) => assert(self.captured@[i as int].name@ == k),
                        None => assert(self.captured@[self.captured@.len() - 1].name@ == k),
                    }
                } else {
                    assert(old(self).captured_map@.contains_key(k));
                    assert(entries_name(old(self).captured@, k));
                    let i = choose|i: int|
                        0 <= i < old(self).captured@.len() && old(self).captured@[i].name@ == k;
                    assert(self.captured@[i].name@ == k);
                }
            }
        }
    }
}

impl Default for State {
    fn default() -> (s: State)
        ensures
            s.wf(),
            s@ == empty_state(),
    {
        State::new()
    }
}


// ---------------------------------------------------------------------------
// Capture handlers
// ---------------------------------------------------------------------------

/// Inputs on which `handle_define` is defined: a define that would be
/// recorded names a slot inside the 64-slot table.
pub open spec fn define_accepted(s: StateView, data: Seq<u8>) -> bool {
    !s.injecting && data.len() == DEFINE_MODEL_LEN && !raw_pet_prefix(data) ==> data[0] < 64
}

/// Whether `handle_define` takes `data` in `state`: a define it would record
/// must name one of the 64 slots.
pub fn accepts_define(state: &State, data: &[u8]) -> (r: bool)
    requires
        state.wf(),
    ensures
        r == define_accepted(state@, data@),
{
    if state.injecting || data.len() != DEFINE_MODEL_LEN {
        return true;
    }
    let prefixed = data[1] == 112u8 && data[2] == 101u8 && data[3] == 116u8 && data[4] == 95u8;
    prefixed || data[0] < 64
}

/// What a DefineModel packet does to the capture state, and whether it
/// collides with the pet's slot.
pub open spec fn define_step(s: StateView, data: Seq<u8>) -> (StateView, bool) {
    if s.injecting || data.len() != DEFINE_MODEL_LEN {
        (s, false)
    } else {
        let id = data[0];
        let revert = s.pet_slot == Some(id);
        let s1 = if revert {
            StateView { pet_slot: None, ..s }
        } else {
            s
        };
        let name = define_name(data);
        if has_pet_prefix(name) {
            (s1, revert)
        } else {
            (
                StateView {
                    occupied: s1.occupied.update(id as int, true),
                    in_progress: s1.in_progress.insert(
                        id,
                        InProgressView {
                            name,
                            num_parts: data[NUM_PARTS_OFFSET as int],
                            define: data,
                            parts: Seq::empty(),
                        },
                    ),
                    ..s1
                },
                revert,
            )
        }
    }
}

/// What a DefineModelPart packet does to the capture state: the part joins
/// its model, and once the model's part count is reached (counted modulo
/// 256, as a byte) the model moves to the captured map.
pub open spec fn part_step(s: StateView, data: Seq<u8>) -> StateView {
    if data.len() != DEFINE_MODEL_PART_LEN || !s.in_progress.contains_key(data[0]) {
        s
    } else {
        let id = data[0];
        let ip = s.in_progress[id];
        let parts = ip.parts.push(data);
        if parts.len() % 256 == ip.num_parts as int {
            StateView {
                in_progress: s.in_progress.remove(id),
                captured: s.captured.insert(ip.name, CapturedView { define: ip.define, parts }),
                ..s
            }
        } else {
            StateView {
                in_progress: s.in_progress.insert(id, InProgressView { parts, ..ip }),
                ..s
            }
        }
    }
}

/// Inputs on which `handle_undef` is defined: the slot is inside the table.
pub open spec fn undef_accepted(data: Seq<u8>) -> bool {
    data.len() > 0 ==> data[0] < 64
}

/// Whether `handle_undef` takes `data`: a non-empty undefine must name one
/// of the 64 slots.
pub fn accepts_undef(data: &[u8]) -> (r: bool)
    ensures
        r == undef_accepted(data@),
{
    data.len() == 0 || data[0] < 64
}

/// What an UndefineModel packet does to the capture state, and whether it
/// frees the pet's slot.
pub open spec fn undef_step(s: StateView, data: Seq<u8>) -> (StateView, bool) {
    if data.len() == 0 {
        (s, false)
    } else {
        let id = data[0];
        let revert = s.pet_slot == Some(id);
        (
            StateView {
                pet_slot: if revert {
                    None
                } else {
                    s.pet_slot
                },
                occupied: s.occupied.update(id as int, false),
                in_progress: s.in_progress.remove(id),
                ..s
            },
            revert,
        )
    }
}

/// Capture a DefineModel packet. Returns `true` when a foreign server define
/// lands on the slot the pet is using -- a collision the caller must react to
/// by reverting the pet off the soon-to-be-reused slot.
pub fn handle_define(state: &mut State, data: &[u8]) -> (revert: bool)
    requires
        old(state).wf(),
        define_accepted(old(state)@, data@),
    ensures
        final(state).wf(),
        (final(state)@, revert) == define_step(old(state)@, data@),
{
    if state.injecting {
        return false;
    }
    if data.len() != DEFINE_MODEL_LEN {
        return false;
    }
    let id = data[0];
    let revert = match state.pet_slot {
        Some(p) => p == id,
        None => false,
    };
    if revert {
        state.pet_slot = None;
    }
    let name = define_name_string(data);
    if starts_with_pet_prefix(name.as_str()) {
        return revert;
    }
    let ghost name_view = name@;
    state.occupied[id as usize] = true;
    let entry = InProgress {
        name,
        num_parts: data[NUM_PARTS_OFFSET],
        define: slice_to_vec(data),
        parts: Vec::new(),
    };
    assert(parts_view(entry.parts@) =~= Seq::<Seq<u8>>::empty());
    assert(entry.view() == InProgressView {
        name: name_view,
        num_parts: data@[NUM_PARTS_OFFSET as int],
        define: data@,
        parts: Seq::<Seq<u8>>::empty(),
    });
    state.in_progress.set(id as usize, Some(entry));
    proof {
        broadcast use vstd::array::group_array_axioms;

        let expected = define_step(old(state)@, data@).0;
        assert(state@.in_progress =~= expected.in_progress);
        assert(state@.occupied =~= expected.occupied);
    }
    revert
}

/// Add a DefineModelPart packet to its in-progress model, completing the
/// capture once every part has arrived.
pub fn handle_part(state: &mut State, data: &[u8])
    requires
        old(state).wf(),
    ensures
        final(state).wf(),
        final(state)@ == part_step(old(state)@, data@),
{
    if data.len() != DEFINE_MODEL_PART_LEN {
        return;
    }
    let id = data[0];
    if id as usize >= MAX_CUSTOM_MODELS {
        return;
    }
    let mut slot: Option<InProgress> = None;
    state.in_progress.set_and_swap(id as usize, &mut slot);
    match slot {
        None => {
            proof {
                assert(state.in_progress@ =~= old(state).in_progress@);
            }
        },
        Some(mut ip) => {
            let ghost old_parts = ip.parts@;
            ip.parts.push(slice_to_vec(data));
            assert(parts_view(ip.parts@) =~= parts_view(old_parts).push(data@));
            if (ip.parts.len() % 256) as u8 == ip.num_parts {
                let InProgress { name, num_parts: _, define, parts } = ip;
                proof {
                    assert(in_progress_map(state.in_progress@) =~= old(
                        state,
                    )@.in_progress.remove(id));
                }
                state.insert_captured(name, CapturedModel { define, parts });
            } else {
                state.in_progress.set(id as usize, Some(ip));
                proof {
                    assert(state@.in_progress =~= part_step(old(state)@, data@).in_progress);
                }
            }
        },
    }
}

/// Process an UndefineModel packet. Returns `true` when the server undefines
/// the slot the pet is using -- a collision the caller must react to by
/// reverting the pet before its vertex data is freed.
pub fn handle_undef(state: &mut State, data: &[u8]) -> (revert: bool)
    requires
        old(state).wf(),
        undef_accepted(data@),
    ensures
        final(state).wf(),
        (final(state)@, revert) == undef_step(old(state)@, data@),
{
    if data.len() == 0 {
        return false;
    }
    let id = data[0];
    let revert = match state.pet_slot {
        Some(p) => p == id,
        None => false,
    };
    if revert {
        state.pet_slot = None;
    }
    state.occupied[id as usize] = false;
    state.in_progress.set(id as usize, None);
    proof {
        broadcast use vstd::array::group_array_axioms;

        let expected = undef_step(old(state)@, data@).0;
        assert(state@.in_progress =~= expected.in_progress);
        assert(state@.occupied =~= expected.occupied);
    }
    revert
}

// ---------------------------------------------------------------------------
// The pet's slot
// ---------------------------------------------------------------------------

/// The DefineModelPart packet size (opcode byte included) a server that
/// negotiated custom models v2 uses.
pub const CUSTOM_MODELS_V2_PART_SIZE: u16 = 167;

/// Why the pet could not be given an entity's model.
pub enum CustomModelError {
    /// The custom-models module is not running.
    ModuleInactive,
    /// The entity does not exist (not in a world).
    EntityUnavailable,
    /// The entity has no model.
    NoModel,
    /// The entity's model has no name.
    NoModelName,
    /// ClassiCube does not know the model and it was never captured.
    NotCaptured { name: String },
    /// The server did not negotiate custom models v2.
    CustomModelsUnsupported,
    /// Every one of the 64 custom-model slots is taken.
    AllSlotsInUse,
    /// The pet does not exist (not in a world).
    PetUnavailable,
}

/// The chat message reported for `e`.
pub open spec fn error_message(e: CustomModelError) -> Seq<char> {
    match e {
        CustomModelError::ModuleInactive => "[Pet] Custom models module not active"@,
        CustomModelError::EntityUnavailable => "[Pet] Entity not available (are you in a world?)"@,
        CustomModelError::NoModel => "[Pet] Entity has no model"@,
        CustomModelError::NoModelName => "[Pet] Entity model has no name"@,
        CustomModelError::NotCaptured { name } => "[Pet] Model '"@ + name@
            + "' not yet captured -- try /reload"@,
        CustomModelError::CustomModelsUnsupported => "[Pet] Server does not support custom models v2"@,
        CustomModelError::AllSlotsInUse => "[Pet] All 64 custom model slots are in use"@,
        CustomModelError::PetUnavailable => "[Pet] Pet not available (are you in a world?)"@,
    }
}

impl CustomModelError {
    /// The chat message reported for this error.
    pub fn message(&self) -> (m: String)
        ensures
            m@ == error_message(*self),
    {
        match self {
            CustomModelError::ModuleInactive => String::from_str(
                "[Pet] Custom models module not active",
            ),
            CustomModelError::EntityUnavailable => String::from_str(
                "[Pet] Entity not available (are you in a world?)",
            ),
            CustomModelError::NoModel => String::from_str("[Pet] Entity has no model"),
            CustomModelError::NoModelName => String::from_str("[Pet] Entity model has no name"),
            CustomModelError::NotCaptured { name } => {
                let mut m = String::from_str("[Pet] Model '");
                m.append(name.as_str());
                m.append("' not yet captured -- try /reload");
                m
            },
            CustomModelError::CustomModelsUnsupported => String::from_str(
                "[Pet] Server does not support custom models v2",
            ),
            CustomModelError::AllSlotsInUse => String::from_str(
                "[Pet] All 64 custom model slots are in use",
            ),
            CustomModelError::PetUnavailable => String::from_str(
                "[Pet] Pet not available (are you in a world?)",
            ),
        }
    }
}

/// How the pet gets its copy of an entity's model.
#[derive(Clone, Copy, PartialEq, Eq, Structural, Debug)]
pub enum CopyRoute {
    /// ClassiCube already knows the model (a built-in or a registered one):
    /// point the pet at it and give up any custom slot the pet held.
    KnownModel,
    /// Replay the captured payloads into a free slot under a `pet_` name.
    InjectCaptured,
}

/// Decide how the pet gets a copy of model `name`: a captured model is
/// injected when the server speaks custom models v2 (`part_size` is the
/// negotiated DefineModelPart size); any other model is used directly when
/// ClassiCube already knows it (`known`), and is an error otherwise.
pub fn copy_route(state: &State, name: &str, known: bool, part_size: u16) -> (r: Result<
    CopyRoute,
    CustomModelError,
>)
    requires
        state.wf(),
    ensures
        state@.captured.contains_key(name@) && part_size == CUSTOM_MODELS_V2_PART_SIZE ==> r
            matches Ok(CopyRoute::InjectCaptured),
        state@.captured.contains_key(name@) && part_size != CUSTOM_MODELS_V2_PART_SIZE ==> r
            matches Err(CustomModelError::CustomModelsUnsupported),
        !state@.captured.contains_key(name@) && known ==> r matches Ok(CopyRoute::KnownModel),
        !state@.captured.contains_key(name@) && !known ==> (r matches Err(
            CustomModelError::NotCaptured { name: n },
        ) && n@ == name@),
{
    match state.captured_model(name) {
        Some(_) => {
            if part_size == CUSTOM_MODELS_V2_PART_SIZE {
                Ok(CopyRoute::InjectCaptured)
            } else {
                Err(CustomModelError::CustomModelsUnsupported)
            }
        },
        None => {
            if known {
                Ok(CopyRoute::KnownModel)
            } else {
                Err(CustomModelError::NotCaptured { name: String::from_str(name) })
            }
        },
    }
}

/// The payloads to replay so the pet gets its own copy of a captured model.
pub struct PetInjection {
    /// The slot the pet held before, to be undefined first.
    pub old_slot: Option<u8>,
    /// The free slot the copy goes to.
    pub new_slot: u8,
    /// The copy's model name: `pet_` followed by the original name, at most 64 characters.
    pub pet_name: String,
    /// The DefineModel payload, retargeted to `new_slot` and renamed.
    pub define: Vec<u8>,
    /// The DefineModelPart payloads, retargeted to `new_slot`.
    pub parts: Vec<Vec<u8>>,
}

/// The name of the pet's copy of model `name`: `pet_` + `name`, cut to 64 characters.
pub open spec fn pet_model_name(name: Seq<char>) -> Seq<char> {
    let full = seq!['p', 'e', 't', '_'] + name;
    if full.len() > MODEL_NAME_LEN {
        full.take(MODEL_NAME_LEN as int)
    } else {
        full
    }
}

/// `occupied` with the pet's slot (if any) marked free.
pub open spec fn release_occupied(occupied: Seq<bool>, slot: Option<u8>) -> Seq<bool> {
    match slot {
        Some(p) => occupied.update(p as int, false),
        None => occupied,
    }
}

/// The state after the pet gives up its slot.
pub open spec fn released(s: StateView) -> StateView {
    StateView { pet_slot: None, occupied: release_occupied(s.occupied, s.pet_slot), ..s }
}

/// The state after the pet moves to `slot` and its replay window opens.
pub open spec fn claimed(s: StateView, slot: u8) -> StateView {
    StateView {
        occupied: release_occupied(s.occupied, s.pet_slot).update(slot as int, true),
        pet_slot: Some(slot),
        injecting: true,
        ..s
    }
}

fn pet_model_name_string(name: &str) -> (s: String)
    ensures
        s@ == pet_model_name(name@),
{
    let mut full = String::from_str("pet_");
    proof {
        reveal_strlit("pet_");
    }
    full.append(name);
    assert(full@ == seq!['p', 'e', 't', '_'] + name@);
    let n = full.as_str().unicode_len();
    if n > MODEL_NAME_LEN {
        String::from_str(full.as_str().substring_char(0, MODEL_NAME_LEN))
    } else {
        full
    }
}

/// Drop the pet's claim on its custom slot (if any), marking the slot free.
/// Returns the slot the pet held, which the caller then undefines.
pub fn release_pet_slot(state: &mut State) -> (old_slot: Option<u8>)
    requires
        old(state).wf(),
    ensures
        final(state).wf(),
        old_slot == old(state)@.pet_slot,
        final(state)@ == released(old(state)@),
{
    let old_slot = state.pet_slot;
    state.pet_slot = None;
    match old_slot {
        Some(p) => {
            state.occupied[p as usize] = false;
        },
        None => {},
    }
    proof {
        broadcast use vstd::array::group_array_axioms;

        assert(state@.occupied =~= released(old(state)@).occupied);
    }
    old_slot
}

/// Prepare the pet's copy of a captured model: pick the highest free slot,
/// move the pet's claim there (freeing its old slot), open the replay window
/// (`injecting`), and retarget the payloads to the new slot under the name
/// `pet_<original_name>`. Nothing changes when every slot is taken.
pub fn begin_pet_injection(state: &mut State, original_name: &str, model: &CapturedModel) -> (r:
    Result<PetInjection, CustomModelError>)
    requires
        old(state).wf(),
    ensures
        final(state).wf(),
        r is Err <==> (forall|i: int| 0 <= i < 64 ==> old(state)@.occupied[i]),
        r is Err ==> final(state)@ == old(state)@,
        r matches Err(e) ==> e is AllSlotsInUse,
        r matches Ok(inj) ==> {
            &&& slot_is_free(old(state)@.occupied, inj.new_slot as int)
            &&& forall|j: int| inj.new_slot < j < 64 ==> old(state)@.occupied[j]
            &&& inj.old_slot == old(state)@.pet_slot
            &&& inj.pet_name@ == pet_model_name(original_name@)
            &&& inj.define@ == patched_define(
                model.define@,
                inj.new_slot,
                vstd::utf8::encode_utf8(inj.pet_name@),
            )
            &&& inj.parts@.len() == model.parts@.len()
            &&& forall|i: int|
                0 <= i < inj.parts@.len() ==> #[trigger] inj.parts@[i]@ == patched_part(
                    model.parts@[i]@,
                    inj.new_slot,
                )
            &&& final(state)@ == claimed(old(state)@, inj.new_slot)
        },
{
    let new_slot = match pick_free_slot(&state.occupied) {
        Some(s) => s,
        None => {
            return Err(CustomModelError::AllSlotsInUse);
        },
    };
    let old_slot = release_pet_slot(state);
    state.occupied[new_slot as usize] = true;
    state.pet_slot = Some(new_slot);
    state.injecting = true;
    proof {
        broadcast use vstd::array::group_array_axioms;

        assert(state@.occupied =~= claimed(old(state)@, new_slot).occupied);
    }
    let pet_name = pet_model_name_string(original_name);
    let define = patch_define(model.define.as_slice(), new_slot, pet_name.as_str());
    let mut parts: Vec<Vec<u8>> = Vec::new();
    let mut i: usize = 0;
    while i < model.parts.len()
        invariant
            i <= model.parts@.len(),
            parts@.len() == i,
            forall|j: int|
                0 <= j < i ==> #[trigger] parts@[j]@ == patched_part(model.parts@[j]@, new_slot),
        decreases model.parts@.len() - i,
    {
        parts.push(patch_part(model.parts[i].as_slice(), new_slot));
        i = i + 1;
    }
    Ok(PetInjection { old_slot, new_slot, pet_name, define, parts })
}

/// Close the replay window: defines on the pet's slot count as foreign
/// collisions again.
pub fn end_pet_injection(state: &mut State)
    requires
        old(state).wf(),
    ensures
        final(state).wf(),
        final(state)@ == (StateView { injecting: false, ..old(state)@ }),
{
    state.injecting = false;
}

// ---------------------------------------------------------------------------
// Reading and setting the state
// ---------------------------------------------------------------------------

impl State {
    /// Forget everything: the new connection sends a fresh set of models.
    pub fn clear(&mut self)
        ensures
            final(self).wf(),
            final(self)@ == empty_state(),
    {
        *self = State::new();
    }

    /// Whether the server has slot `id` in use.
    pub fn is_occupied(&self, id: u8) -> (r: bool)
        ensures
            r == (id < 64 && self@.occupied[id as int]),
    {
        (id as usize) < MAX_CUSTOM_MODELS && self.occupied[id as usize]
    }

    /// Which of the 64 slots are in use.
    pub fn occupied_slots(&self) -> (r: [bool; 64])
        ensures
            r@ == self@.occupied,
    {
        self.occupied
    }

    /// Mark slot `id` used or free.
    pub fn set_occupied(&mut self, id: u8, used: bool)
        requires
            old(self).wf(),
            id < 64,
        ensures
            final(self).wf(),
            final(self)@ == (StateView {
                occupied: old(self)@.occupied.update(id as int, used),
                ..old(self)@
            }),
    {
        self.occupied[id as usize] = used;
        proof {
            broadcast use vstd::array::group_array_axioms;

            assert(self@.occupied =~= old(self)@.occupied.update(id as int, used));
        }
    }

    /// Whether a model on slot `id` is still waiting for parts.
    pub fn has_in_progress(&self, id: u8) -> (r: bool)
        requires
            self.wf(),
        ensures
            r == self@.in_progress.contains_key(id),
    {
        (id as usize) < MAX_CUSTOM_MODELS && self.in_progress[id as usize].is_some()
    }

    /// Whether no model is waiting for parts.
    pub fn in_progress_is_empty(&self) -> (r: bool)
        requires
            self.wf(),
        ensures
            r == (self@.in_progress.dom() == Set::<u8>::empty()),
    {
        let mut i: usize = 0;
        while i < MAX_CUSTOM_MODELS
            invariant
                i <= MAX_CUSTOM_MODELS,
                self.in_progress@.len() == MAX_CUSTOM_MODELS,
                forall|j: int| 0 <= j < i ==> self.in_progress@[j] is None,
            decreases MAX_CUSTOM_MODELS - i,
        {
            if self.in_progress[i].is_some() {
                assert(self@.in_progress.contains_key(i as u8));
                return false;
            }
            i = i + 1;
        }
        assert(self@.in_progress.dom() =~= Set::<u8>::empty());
        true
    }

    /// The captured model named `name`, if any.
    pub fn captured_model(&self, name: &str) -> (r: Option<&CapturedModel>)
        requires
            self.wf(),
        ensures
            match r {
                Some(m) => self@.captured.contains_key(name@) && self@.captured[name@] == m@,
                None => !self@.captured.contains_key(name@),
            },
    {
        match self.find_captured(name) {
            Some(i) => Some(&self.captured[i].model),
            None => None,
        }
    }

    /// Whether no model has been captured.
    pub fn captured_is_empty(&self) -> (r: bool)
        requires
            self.wf(),
        ensures
            r == (self@.captured.dom() == Set::<Seq<char>>::empty()),
    {
        if self.captured.len() == 0 {
            assert forall|k: Seq<char>| !self@.captured.contains_key(k) by {
                if self@.captured.contains_key(k) {
                    assert(entries_name(self.captured@, k));
                }
            }
            assert(self@.captured.dom() =~= Set::<Seq<char>>::empty());
            true
        } else {
            assert(self@.captured.contains_key(self.captured@[0].name@));
            false
        }
    }

    /// The slot the pet's model uses, if any.
    pub fn pet_slot(&self) -> (r: Option<u8>)
        ensures
            r == self@.pet_slot,
    {
        self.pet_slot
    }

    /// Record the slot the pet's model uses.
    pub fn set_pet_slot(&mut self, slot: Option<u8>)
        requires
            old(self).wf(),
            slot matches Some(p) ==> p < 64,
        ensures
            final(self).wf(),
            final(self)@ == (StateView { pet_slot: slot, ..old(self)@ }),
    {
        self.pet_slot = slot;
    }

    /// Whether the pet's own defines are being replayed.
    pub fn is_injecting(&self) -> (r: bool)
        ensures
            r == self@.injecting,
    {
        self.injecting
    }

    /// Open or close the replay window.
    pub fn set_injecting(&mut self, injecting: bool)
        requires
            old(self).wf(),
        ensures
            final(self).wf(),
            final(self)@ == (StateView { injecting, ..old(self)@ }),
    {
        self.injecting = injecting;
    }
}

// ---------------------------------------------------------------------------
// Laws
// ---------------------------------------------------------------------------

/// The state after DefineModelPart packets `parts` arrive, in order.
pub open spec fn apply_parts(s: StateView, parts: Seq<Seq<u8>>) -> StateView
    decreases parts.len(),
{
    if parts.len() == 0 {
        s
    } else {
        part_step(apply_parts(s, parts.drop_last()), parts.last())
    }
}

/// Every payload of `parts` is a DefineModelPart payload for slot `id`.
pub open spec fn parts_for_slot(parts: Seq<Seq<u8>>, id: u8) -> bool {
    forall|i: int|
        0 <= i < parts.len() ==> (#[trigger] parts[i]).len() == DEFINE_MODEL_PART_LEN
            && parts[i][0] == id
}

proof fn lemma_parts_accumulate(
    s0: StateView,
    id: u8,
    ip: InProgressView,
    parts: Seq<Seq<u8>>,
    k: int,
)
    requires
        s0.in_progress.contains_key(id),
        s0.in_progress[id] == ip,
        ip.parts == Seq::<Seq<u8>>::empty(),
        parts.len() == ip.num_parts,
        parts_for_slot(parts, id),
        0 <= k < parts.len(),
    ensures
        apply_parts(s0, parts.take(k)) == (StateView {
            in_progress: s0.in_progress.insert(id, InProgressView { parts: parts.take(k), ..ip }),
            ..s0
        }),
    decreases k,
{
    if k == 0 {
        assert(parts.take(0) =~= Seq::<Seq<u8>>::empty());
        assert(InProgressView { parts: parts.take(0), ..ip } == ip);
        assert(s0.in_progress.insert(id, ip) =~= s0.in_progress);
    } else {
        lemma_parts_accumulate(s0, id, ip, parts, k - 1);
        let prev = apply_parts(s0, parts.take(k - 1));
        assert(parts.take(k).drop_last() =~= parts.take(k - 1));
        assert(parts.take(k).last() == parts[k - 1]);
        assert(parts_for_slot(parts, id));
        assert(parts[k - 1].len() == DEFINE_MODEL_PART_LEN && parts[k - 1][0] == id);
        assert(prev.in_progress.contains_key(id));
        assert(parts.take(k - 1).push(parts[k - 1]) =~= parts.take(k));
        assert(parts.take(k).len() % 256 == k);
        assert(prev.in_progress.insert(id, InProgressView { parts: parts.take(k), ..ip })
            =~= s0.in_progress.insert(id, InProgressView { parts: parts.take(k), ..ip }));
    }
}

/// A model is captured once all its parts have arrived: after a DefineModel
/// for a model of `n >= 1` parts, on a slot inside the table and outside the
/// replay window, followed by its `n` DefineModelPart packets, a model whose
/// name lacks the `pet_` prefix is captured under that name with exactly
/// that define and those parts, its slot is marked used, and nothing is left
/// in progress on the slot.
pub proof fn law_capture_completes_after_all_parts(
    s: StateView,
    define: Seq<u8>,
    parts: Seq<Seq<u8>>,
)
    requires
        !s.injecting,
        s.occupied.len() == MAX_CUSTOM_MODELS,
        define.len() == DEFINE_MODEL_LEN,
        define[0] < 64,
        define[NUM_PARTS_OFFSET as int] as int == parts.len(),
        parts.len() >= 1,
        parts_for_slot(parts, define[0]),
    ensures
        !has_pet_prefix(define_name(define)) ==> ({
            let after = apply_parts(define_step(s, define).0, parts);
            &&& after.captured.contains_key(define_name(define))
            &&& after.captured[define_name(define)] == (CapturedView { define, parts })
            &&& !after.in_progress.contains_key(define[0])
            &&& after.occupied[define[0] as int]
        }),
{
    if !has_pet_prefix(define_name(define)) {
        let id = define[0];
        let s0 = define_step(s, define).0;
        let ip = s0.in_progress[id];
        assert(s0.in_progress.contains_key(id));
        assert(ip.parts == Seq::<Seq<u8>>::empty());
        assert(ip.name == define_name(define));
        assert(ip.define == define);
        assert(s0.occupied[id as int]);
        let n = parts.len() as int;
        lemma_parts_accumulate(s0, id, ip, parts, n - 1);
        let prev = apply_parts(s0, parts.take(n - 1));
        assert(parts.drop_last() =~= parts.take(n - 1));
        assert(apply_parts(s0, parts) == part_step(prev, parts.last()));
        assert(parts_for_slot(parts, id));
        assert(parts[n - 1].len() == DEFINE_MODEL_PART_LEN && parts[n - 1][0] == id);
        assert(prev.in_progress.contains_key(id));
        assert(prev.in_progress[id] == InProgressView { parts: parts.take(n - 1), ..ip });
        assert(parts.take(n - 1).push(parts[n - 1]) =~= parts);
        assert(parts.len() % 256 == ip.num_parts as int);
        let after = part_step(prev, parts.last());
        assert(after.captured == prev.captured.insert(ip.name, CapturedView { define: ip.define, parts }));
        assert(after.occupied == s0.occupied);
    }
}

/// Slot bookkeeping is consistent: every model still waiting for parts sits
/// on a used slot inside the table, and the pet's slot has nothing waiting.
pub open spec fn slots_consistent(s: StateView) -> bool {
    &&& s.occupied.len() == MAX_CUSTOM_MODELS
    &&& forall|id: u8|
        #[trigger] s.in_progress.contains_key(id) ==> id < 64 && s.occupied[id as int]
    &&& s.pet_slot matches Some(p) ==> p < 64 && !s.in_progress.contains_key(p)
}

/// The packet handlers keep the slot bookkeeping consistent (for a define,
/// on payloads whose raw `pet_` prefix shows in the decoded name, which the
/// lossy decoding guarantees).
pub proof fn law_handlers_keep_slots_consistent(s: StateView, data: Seq<u8>)
    requires
        slots_consistent(s),
        define_accepted(s, data),
        undef_accepted(data),
    ensures
        (raw_pet_prefix(data) ==> has_pet_prefix(define_name(data))) ==> slots_consistent(
            define_step(s, data).0,
        ),
        slots_consistent(part_step(s, data)),
        slots_consistent(undef_step(s, data).0),
{
    let d = define_step(s, data).0;
    if raw_pet_prefix(data) ==> has_pet_prefix(define_name(data)) {
        assert forall|id: u8| #[trigger] d.in_progress.contains_key(id) implies id < 64
            && d.occupied[id as int] by {
            if !s.in_progress.contains_key(id) {
                assert(id == data[0]);
            }
        }
    }
    let u = undef_step(s, data).0;
    assert forall|id: u8| #[trigger] u.in_progress.contains_key(id) implies id < 64
        && u.occupied[id as int] by {
        assert(s.in_progress.contains_key(id));
    }
}

/// An undefine undoes a define of the same slot: after a define of
/// slot `id` and then an undefine of `id`, the slot is free again, no model
/// is in progress on it, the captured models are those from before, and the
/// pet holds no claim on it.
pub proof fn law_undefine_undoes_define(s: StateView, define: Seq<u8>)
    requires
        !s.injecting,
        s.occupied.len() == MAX_CUSTOM_MODELS,
        define.len() == DEFINE_MODEL_LEN,
        define[0] < 64,
    ensures
        ({
            let id = define[0];
            let (after_define, _) = define_step(s, define);
            let (after_undef, _) = undef_step(after_define, seq![id]);
            &&& !after_undef.occupied[id as int]
            &&& !after_undef.in_progress.contains_key(id)
            &&& after_undef.captured == s.captured
            &&& after_undef.pet_slot != Some(id)
        }),
{
}

/// Releasing a slot the pet just claimed undoes the claim: the slot
/// bookkeeping is as if the pet had only given up its old slot (the replay
/// window stays open until it is ended).
pub proof fn law_release_undoes_claim(s: StateView, slot: u8)
    requires
        s.occupied.len() == MAX_CUSTOM_MODELS,
        s.pet_slot matches Some(p) ==> p < 64,
        slot_is_free(s.occupied, slot as int),
    ensures
        released(claimed(s, slot)) == (StateView { injecting: true, ..released(s) }),
{
    let c = claimed(s, slot);
    let base = release_occupied(s.occupied, s.pet_slot);
    assert(base.len() == s.occupied.len());
    assert(!base[slot as int]);
    assert(released(c).occupied == base.update(slot as int, true).update(slot as int, false));
    assert(base.update(slot as int, true).update(slot as int, false) =~= base);
}

/// Moving the pet to a free slot, or releasing its slot, keeps the slot
/// bookkeeping consistent.
pub proof fn law_pet_slot_moves_keep_slots_consistent(s: StateView, slot: u8)
    requires
        slots_consistent(s),
        slot_is_free(s.occupied, slot as int),
    ensures
        slots_consistent(released(s)),
        slots_consistent(claimed(s, slot)),
        slots_consistent(StateView { injecting: false, ..claimed(s, slot) }),
{
    let r = released(s);
    assert forall|id: u8| #[trigger] r.in_progress.contains_key(id) implies id < 64
        && r.occupied[id as int] by {
        assert(s.in_progress.contains_key(id));
        assert(id < 64 && s.occupied[id as int]);
        match s.pet_slot {
            Some(p) => {
                assert(id != p);
                assert(release_occupied(s.occupied, s.pet_slot) == s.occupied.update(p as int, false));
                assert(r.occupied == s.occupied.update(p as int, false));
                assert(r.occupied[id as int] == s.occupied[id as int]);
            },
            None => {},
        }
    }
    let c = claimed(s, slot);
    assert forall|id: u8| #[trigger] c.in_progress.contains_key(id) implies id < 64
        && c.occupied[id as int] by {
        assert(s.in_progress.contains_key(id));
        assert(id < 64 && s.occupied[id as int]);
        match s.pet_slot {
            Some(p) => {
                assert(id != p);
                assert(release_occupied(s.occupied, s.pet_slot) == s.occupied.update(p as int, false));
                assert(release_occupied(s.occupied, s.pet_slot)[id as int]);
            },
            None => {},
        }
    }
    assert(!s.in_progress.contains_key(slot));
}

proof fn lemma_name_end_in_patched(field: Seq<u8>, name: Seq<u8>, i: int)
    requires
        name.len() <= MODEL_NAME_LEN,
        field.len() == MODEL_NAME_LEN,
        field.take(name.len() as int) == name,
        name.len() < MODEL_NAME_LEN ==> field[name.len() as int] == 0u8,
        forall|j: int| 0 <= j < name.len() ==> !is_name_terminator(#[trigger] name[j]),
        0 <= i <= name.len(),
    ensures
        name_end_from(field, i) == name.len(),
    decreases name.len() - i,
{
    if i < name.len() {
        assert(field[i] == field.take(name.len() as int)[i]);
        lemma_name_end_in_patched(field, name, i + 1);
    }
}

/// Renaming a DefineModel payload and reading its name back gives the new
/// name's bytes, for a name of at most 64 bytes without NUL or space.
pub proof fn law_patched_define_name_round_trip(data: Seq<u8>, slot: u8, name: Seq<u8>)
    requires
        data.len() == DEFINE_MODEL_LEN,
        name.len() <= MODEL_NAME_LEN,
        forall|j: int| 0 <= j < name.len() ==> !is_name_terminator(#[trigger] name[j]),
    ensures
        patched_define(data, slot, name).len() == DEFINE_MODEL_LEN,
        patched_define(data, slot, name)[0] == slot,
        define_name_bytes(patched_define(data, slot, name)) == name,
{
    let p = patched_define(data, slot, name);
    assert(name_fit_len(name) == name.len());
    assert(name.take(name.len() as int) =~= name);
    let field = name_field(p);
    assert(field.take(name.len() as int) =~= name);
    if name.len() < MODEL_NAME_LEN {
        assert(field[name.len() as int] == p[1 + name.len() as int]);
    }
    lemma_name_end_in_patched(field, name, 0);
}

} // verus!

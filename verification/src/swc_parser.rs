//! The SWC line parser: classifies raw lines as blank, comment or
//! compartment records, validates every field of a record, and assembles
//! the records into a uniquely keyed, identifier-ordered store.

use vstd::prelude::*;
use vstd::string::StringExecFns;

use crate::numerals::all_digits;
use crate::numerals::capped_code;
use crate::numerals::dec_rep;
use crate::numerals::digits_val;
use crate::numerals::is_digits;
use crate::numerals::is_float_lit;
use crate::numerals::is_float_token;
use crate::numerals::parse_kind_code;
use crate::numerals::parse_usize;
use crate::string_buffer::chars_of;
use crate::string_buffer::string_from_chars_range;

verus! {

/// Whether `c` is ASCII whitespace, the separator between record fields.
pub open spec fn is_ws(c: char) -> bool {
    c == ' ' || c == '\t' || c == '\n' || c == '\r' || c == '\u{000B}' || c == '\u{000C}'
}

/// Exec mirror of [`is_ws`].
pub fn is_ws_char(c: char) -> (r: bool)
    ensures
        r == is_ws(c),
{
    c == ' ' || c == '\t' || c == '\n' || c == '\r' || c == '\u{000B}' || c == '\u{000C}'
}

/// The length of the run of non-whitespace characters starting at `i`.
pub open spec fn token_run(s: Seq<char>, i: int) -> int
    decreases s.len() - i,
{
    if i < 0 || i >= s.len() || is_ws(s[i]) {
        0
    } else {
        1 + token_run(s, i + 1)
    }
}

proof fn lemma_token_run_bounds(s: Seq<char>, i: int)
    requires
        0 <= i <= s.len(),
    ensures
        0 <= token_run(s, i),
        i + token_run(s, i) <= s.len(),
        i < s.len() && !is_ws(s[i]) ==> token_run(s, i) >= 1,
    decreases s.len() - i,
{
    if i < s.len() && !is_ws(s[i]) {
        lemma_token_run_bounds(s, i + 1);
    }
}

/// The whitespace-separated tokens of `s` from position `i` on: maximal
/// runs of non-whitespace characters.
pub open spec fn split_ws_from(s: Seq<char>, i: int) -> Seq<Seq<char>>
    decreases s.len() - i
        when 0 <= i <= s.len()
        via split_ws_from_dec
{
    if i >= s.len() {
        Seq::empty()
    } else if is_ws(s[i]) {
        split_ws_from(s, i + 1)
    } else {
        seq![s.subrange(i, i + token_run(s, i))] + split_ws_from(s, i + token_run(s, i))
    }
}

#[via_fn]
proof fn split_ws_from_dec(s: Seq<char>, i: int) {
    if 0 <= i < s.len() && !is_ws(s[i]) {
        lemma_token_run_bounds(s, i);
    }
}

/// The whitespace-separated tokens of `s`.
pub open spec fn split_ws(s: Seq<char>) -> Seq<Seq<char>> {
    split_ws_from(s, 0)
}

/// The length of the token of `t` starting at `from`.
fn token_run_len(t: &Vec<char>, from: usize) -> (r: usize)
    requires
        from <= t@.len(),
    ensures
        r == token_run(t@, from as int),
        from + r <= t@.len(),
{
    let mut j: usize = from;
    while j < t.len() && !is_ws_char(t[j])
        invariant
            from <= j <= t@.len(),
            token_run(t@, from as int) == j - from + token_run(t@, j as int),
        decreases t@.len() - j,
    {
        j = j + 1;
    }
    proof {
        lemma_token_run_bounds(t@, j as int);
    }
    j - from
}

/// The characters `chars[from..to]`, collected into a fresh vector.
fn vec_range(chars: &Vec<char>, from: usize, to: usize) -> (r: Vec<char>)
    requires
        from <= to <= chars@.len(),
    ensures
        r@ == chars@.subrange(from as int, to as int),
{
    let mut r: Vec<char> = Vec::new();
    let mut i: usize = from;
    while i < to
        invariant
            from <= i <= to <= chars@.len(),
            r@ =~= chars@.subrange(from as int, i as int),
        decreases to - i,
    {
        r.push(chars[i]);
        i = i + 1;
        proof {
            assert(r@ =~= chars@.subrange(from as int, i as int));
        }
    }
    r
}

/// Split `line` into its whitespace-separated tokens.
pub fn split_whitespace_chars(line: &Vec<char>) -> (r: Vec<Vec<char>>)
    ensures
        r@.len() == split_ws(line@).len(),
        forall|j: int| 0 <= j < r@.len() ==> #[trigger] r@[j]@ == split_ws(line@)[j],
{
    let ghost s = line@;
    let mut toks: Vec<Vec<char>> = Vec::new();
    let ghost mut done: Seq<Seq<char>> = Seq::empty();
    let mut i: usize = 0;
    while i < line.len()
        invariant
            0 <= i <= s.len(),
            s == line@,
            split_ws(s) == done + split_ws_from(s, i as int),
            toks@.len() == done.len(),
            forall|j: int| 0 <= j < toks@.len() ==> #[trigger] toks@[j]@ == done[j],
        decreases s.len() - i,
    {
        if is_ws_char(line[i]) {
            i = i + 1;
        } else {
            let k = token_run_len(line, i);
            proof {
                lemma_token_run_bounds(s, i as int);
            }
            let tok = vec_range(line, i, i + k);
            toks.push(tok);
            proof {
                done = done.push(tok@);
                assert(done + split_ws_from(s, i + k) =~= (done.drop_last() + (seq![
                    s.subrange(i as int, i + k),
                ] + split_ws_from(s, i + k))));
            }
            i = i + k;
        }
    }
    proof {
        assert(split_ws(s) =~= done);
    }
    toks
}

/// Types of compartment defined by the most basic version of the SWC
/// standard.
#[derive(Copy, Clone, PartialEq, Eq, Structural, Hash, Debug)]
pub enum SWCCompartmentKind {
    Undefined,
    Soma,
    Axon,
    Dendrite,
    ApicalDendrite,
    Custom,
}

/// The kind denoted by a numeric category code: codes 0 to 4 map to the
/// five basic kinds in order, and every larger code means `Custom`.
pub open spec fn kind_of_code(code: int) -> SWCCompartmentKind {
    if code == 0 {
        SWCCompartmentKind::Undefined
    } else if code == 1 {
        SWCCompartmentKind::Soma
    } else if code == 2 {
        SWCCompartmentKind::Axon
    } else if code == 3 {
        SWCCompartmentKind::Dendrite
    } else if code == 4 {
        SWCCompartmentKind::ApicalDendrite
    } else {
        SWCCompartmentKind::Custom
    }
}

impl core::convert::From<usize> for SWCCompartmentKind {
    fn from(kind: usize) -> (r: SWCCompartmentKind) {
        if kind == 0 {
            SWCCompartmentKind::Undefined
        } else if kind == 1 {
            SWCCompartmentKind::Soma
        } else if kind == 2 {
            SWCCompartmentKind::Axon
        } else if kind == 3 {
            SWCCompartmentKind::Dendrite
        } else if kind == 4 {
            SWCCompartmentKind::ApicalDendrite
        } else {
            SWCCompartmentKind::Custom
        }
    }
}

impl vstd::std_specs::convert::FromSpecImpl<usize> for SWCCompartmentKind {
    open spec fn obeys_from_spec() -> bool {
        true
    }

    open spec fn from_spec(kind: usize) -> SWCCompartmentKind {
        kind_of_code(kind as int)
    }
}

/// The canonical display label of a kind, used in diagnostic text.
pub open spec fn kind_label(kind: SWCCompartmentKind) -> Seq<char> {
    match kind {
        SWCCompartmentKind::Undefined => "undefined"@,
        SWCCompartmentKind::Soma => "somatic"@,
        SWCCompartmentKind::Axon => "axonal"@,
        SWCCompartmentKind::Dendrite => "(basal) dendritic"@,
        SWCCompartmentKind::ApicalDendrite => "apical dendritic"@,
        SWCCompartmentKind::Custom => "custom"@,
    }
}

/// The canonical lowercase key of a kind, used for configuration lookup.
pub open spec fn kind_key(kind: SWCCompartmentKind) -> Seq<char> {
    match kind {
        SWCCompartmentKind::Undefined => "undefined"@,
        SWCCompartmentKind::Soma => "soma"@,
        SWCCompartmentKind::Axon => "axon"@,
        SWCCompartmentKind::Dendrite => "dendrite"@,
        SWCCompartmentKind::ApicalDendrite => "apicaldendrite"@,
        SWCCompartmentKind::Custom => "custom"@,
    }
}

/// The fixed enumeration order of the six compartment kinds.
pub open spec fn kind_order() -> Seq<SWCCompartmentKind> {
    seq![
        SWCCompartmentKind::Undefined,
        SWCCompartmentKind::Soma,
        SWCCompartmentKind::Axon,
        SWCCompartmentKind::Dendrite,
        SWCCompartmentKind::ApicalDendrite,
        SWCCompartmentKind::Custom,
    ]
}

impl SWCCompartmentKind {
    /// The display label of this kind.
    pub fn label(&self) -> (r: String)
        ensures
            r@ == kind_label(*self),
    {
        match *self {
            SWCCompartmentKind::Undefined => String::from_str("undefined"),
            SWCCompartmentKind::Soma => String::from_str("somatic"),
            SWCCompartmentKind::Axon => String::from_str("axonal"),
            SWCCompartmentKind::Dendrite => String::from_str("(basal) dendritic"),
            SWCCompartmentKind::ApicalDendrite => String::from_str("apical dendritic"),
            SWCCompartmentKind::Custom => String::from_str("custom"),
        }
    }

    /// The lowercase configuration key of this kind.
    pub fn key(&self) -> (r: String)
        ensures
            r@ == kind_key(*self),
    {
        match *self {
            SWCCompartmentKind::Undefined => String::from_str("undefined"),
            SWCCompartmentKind::Soma => String::from_str("soma"),
            SWCCompartmentKind::Axon => String::from_str("axon"),
            SWCCompartmentKind::Dendrite => String::from_str("dendrite"),
            SWCCompartmentKind::ApicalDendrite => String::from_str("apicaldendrite"),
            SWCCompartmentKind::Custom => String::from_str("custom"),
        }
    }

    /// Iterate over the kinds in their fixed enumeration order.
    pub fn iter() -> (r: SWCCompartmentKindIterator)
        ensures
            r.kinds@ == kind_order(),
            r.ptr == 0,
    {
        SWCCompartmentKindIterator::new()
    }
}

/// Iterator over variants of `SWCCompartmentKind`, in their fixed
/// enumeration order.
pub struct SWCCompartmentKindIterator {
    pub kinds: Vec<SWCCompartmentKind>,
    pub ptr: usize,
}

impl SWCCompartmentKindIterator {
    /// Prepare an iterator over all six kinds.
    pub fn new() -> (r: SWCCompartmentKindIterator)
        ensures
            r.kinds@ == kind_order(),
            r.ptr == 0,
    {
        let mut kinds: Vec<SWCCompartmentKind> = Vec::new();
        kinds.push(SWCCompartmentKind::Undefined);
        kinds.push(SWCCompartmentKind::Soma);
        kinds.push(SWCCompartmentKind::Axon);
        kinds.push(SWCCompartmentKind::Dendrite);
        kinds.push(SWCCompartmentKind::ApicalDendrite);
        kinds.push(SWCCompartmentKind::Custom);
        proof {
            assert(kinds@ =~= kind_order());
        }
        SWCCompartmentKindIterator { kinds, ptr: 0 }
    }

    /// Get the next kind, or `None` once all six have been returned.
    pub fn next(&mut self) -> (r: Option<SWCCompartmentKind>)
        requires
            old(self).kinds@ == kind_order(),
        ensures
            final(self).kinds@ == kind_order(),
            old(self).ptr < 6 ==> r == Some(kind_order()[old(self).ptr as int]) && final(self).ptr
                == old(self).ptr + 1,
            old(self).ptr >= 6 ==> r is None && final(self).ptr == old(self).ptr,
    {
        if self.ptr < self.kinds.len() {
            let result = Some(self.kinds[self.ptr]);
            self.ptr = self.ptr + 1;
            result
        } else {
            None
        }
    }
}

/// A position in space, carried as the validated literal text of its
/// three coordinates. The converter never computes with coordinates, so
/// they are kept exactly as written in the source file.
#[derive(Clone, PartialEq, Eq, Debug)]
pub struct Point {
    pub x: String,
    pub y: String,
    pub z: String,
}

/// One sampled compartment of a neuron morphology.
#[derive(Clone, Debug)]
pub struct SWCCompartment {
    pub id: usize,
    pub kind: SWCCompartmentKind,
    pub position: Point,
    /// The validated literal text of the (non-negative) radius.
    pub radius: String,
    pub parent_id: Option<usize>,
}

impl SWCCompartment {
    /// Assemble a compartment record from its parts.
    pub fn new(
        id: usize,
        kind: SWCCompartmentKind,
        position: Point,
        radius: String,
        parent_id: Option<usize>,
    ) -> (r: SWCCompartment)
        ensures
            r.id == id,
            r.kind == kind,
            r.position == position,
            r.radius == radius,
            r.parent_id == parent_id,
    {
        SWCCompartment { id, kind, position, radius, parent_id }
    }
}

/// The field of an SWC record that a diagnostic refers to.
#[derive(Copy, Clone, PartialEq, Eq, Structural, Debug)]
pub enum RecordField {
    Identifier,
    KindCode,
    PositionX,
    PositionY,
    PositionZ,
    Radius,
    Parent,
}

/// An error raised while parsing SWC text or assembling the compartment
/// store. Every variant carries what is needed to point the user at the
/// offending input.
#[derive(Clone, Debug)]
pub enum ParseError {
    /// A compartment line did not have exactly 7 fields.
    MalformedRecord { n_items: usize },
    /// A field failed to parse as its expected numeric type; carries the
    /// field and its literal text.
    InvalidField { field: RecordField, text: String },
    /// A declared parent identifier was not strictly less than the
    /// compartment's own identifier; carries the identifier and the
    /// literal text of the parent field.
    InvalidParentOrdering { id: usize, parent: String },
    /// Two compartments carried the same identifier.
    DuplicateIdentifier { id: usize },
    /// The underlying line source failed; raised by callers that read
    /// input, never by the parser itself.
    IOFailure { message: String },
}

/// Whether the identifier field denotes a non-negative integer that fits
/// the machine.
pub open spec fn id_field_ok(toks: Seq<Seq<char>>) -> bool {
    is_digits(toks[0]) && digits_val(toks[0]) <= usize::MAX
}

/// Whether the category-code field is a non-negative integer.
pub open spec fn kind_field_ok(toks: Seq<Seq<char>>) -> bool {
    is_digits(toks[1])
}

/// Whether the radius field is a non-negative floating-point literal.
pub open spec fn radius_field_ok(toks: Seq<Seq<char>>) -> bool {
    is_float_lit(toks[5]) && !(toks[5].len() > 0 && toks[5][0] == '-')
}

/// Whether the parent field declares no parent: it begins with `-`.
pub open spec fn parent_absent(toks: Seq<Seq<char>>) -> bool {
    toks[6].len() > 0 && toks[6][0] == '-'
}

/// Whether the parent field is either absent or a non-negative integer.
pub open spec fn parent_field_ok(toks: Seq<Seq<char>>) -> bool {
    parent_absent(toks) || is_digits(toks[6])
}

/// Whether the declared parent identifier (if any) is strictly less than
/// the compartment's own identifier.
pub open spec fn parent_order_ok(toks: Seq<Seq<char>>) -> bool {
    parent_absent(toks) || digits_val(toks[6]) < digits_val(toks[0])
}

/// Whether every field of the 7-field record parses as its expected type.
pub open spec fn line_fields_ok(s: Seq<char>) -> bool {
    let toks = split_ws(s);
    &&& toks.len() == 7
    &&& id_field_ok(toks)
    &&& kind_field_ok(toks)
    &&& is_float_lit(toks[2])
    &&& is_float_lit(toks[3])
    &&& is_float_lit(toks[4])
    &&& radius_field_ok(toks)
    &&& parent_field_ok(toks)
}

/// Whether `s` is a valid compartment record line.
#[verifier::opaque]
pub open spec fn line_ok(s: Seq<char>) -> bool {
    line_fields_ok(s) && parent_order_ok(split_ws(s))
}

/// Whether the compartment `c` is exactly the record that line `s`
/// denotes.
#[verifier::opaque]
pub open spec fn record_matches(c: SWCCompartment, s: Seq<char>) -> bool {
    let toks = split_ws(s);
    &&& c.id == digits_val(toks[0])
    &&& c.kind == kind_of_code(digits_val(toks[1]))
    &&& c.position.x@ == toks[2]
    &&& c.position.y@ == toks[3]
    &&& c.position.z@ == toks[4]
    &&& c.radius@ == toks[5]
    &&& if parent_absent(toks) {
        c.parent_id is None
    } else {
        c.parent_id matches Some(p) && p == digits_val(toks[6])
    }
}

/// Whether `e` is exactly the diagnostic owed for the invalid record line
/// `s`: the first field failure in field order, or the parent-ordering
/// violation once every field parses.
#[verifier::opaque]
pub open spec fn err_matches(e: ParseError, s: Seq<char>) -> bool {
    let toks = split_ws(s);
    if toks.len() != 7 {
        e matches ParseError::MalformedRecord { n_items } && n_items == toks.len()
    } else if !id_field_ok(toks) {
        e matches ParseError::InvalidField { field, text } && field == RecordField::Identifier
            && text@ == toks[0]
    } else if !kind_field_ok(toks) {
        e matches ParseError::InvalidField { field, text } && field == RecordField::KindCode
            && text@ == toks[1]
    } else if !is_float_lit(toks[2]) {
        e matches ParseError::InvalidField { field, text } && field == RecordField::PositionX
            && text@ == toks[2]
    } else if !is_float_lit(toks[3]) {
        e matches ParseError::InvalidField { field, text } && field == RecordField::PositionY
            && text@ == toks[3]
    } else if !is_float_lit(toks[4]) {
        e matches ParseError::InvalidField { field, text } && field == RecordField::PositionZ
            && text@ == toks[4]
    } else if !radius_field_ok(toks) {
        e matches ParseError::InvalidField { field, text } && field == RecordField::Radius
            && text@ == toks[5]
    } else if !parent_field_ok(toks) {
        e matches ParseError::InvalidField { field, text } && field == RecordField::Parent
            && text@ == toks[6]
    } else if !parent_order_ok(toks) {
        e matches ParseError::InvalidParentOrdering { id, parent } && id == digits_val(toks[0])
            && parent@ == toks[6]
    } else {
        false
    }
}

/// The characters of `t`, collected into a `String`.
fn token_string(t: &Vec<char>) -> (r: String)
    ensures
        r@ == t@,
{
    let r = string_from_chars_range(t, 0, t.len());
    proof {
        assert(t@.subrange(0, t@.len() as int) =~= t@);
    }
    r
}

/// Parse one line as a compartment record.
///
/// Succeeds exactly on lines of 7 whitespace-separated fields whose
/// identifier is a machine-sized non-negative integer, whose category
/// code is a non-negative integer, whose coordinates and radius are
/// floating-point literals (the radius unsigned), and whose parent field
/// either begins with `-` (no parent) or is a non-negative integer
/// strictly less than the identifier.
pub fn parse_line_as_compartment(line: &str) -> (r: Result<SWCCompartment, ParseError>)
    ensures
        r is Ok <==> line_ok(line@),
        r matches Ok(c) ==> record_matches(c, line@),
        r matches Err(e) ==> err_matches(e, line@),
{
    proof {
        reveal(line_ok);
        reveal(record_matches);
        reveal(err_matches);
    }
    let chars = chars_of(line);
    let fields = split_whitespace_chars(&chars);
    let ghost toks = split_ws(line@);

    // Check number of space-delimited items.
    if fields.len() != 7 {
        return Err(ParseError::MalformedRecord { n_items: fields.len() });
    }

    let id: usize = match parse_usize(&fields[0]) {
        Some(v) => v,
        None => {
            return Err(
                ParseError::InvalidField {
                    field: RecordField::Identifier,
                    text: token_string(&fields[0]),
                },
            );
        },
    };

    let kind: SWCCompartmentKind = match parse_kind_code(&fields[1]) {
        Some(code) => {
            proof {
                assert(kind_of_code(capped_code(toks[1])) == kind_of_code(digits_val(toks[1])));
            }
            SWCCompartmentKind::from(code)
        },
        None => {
            return Err(
                ParseError::InvalidField {
                    field: RecordField::KindCode,
                    text: token_string(&fields[1]),
                },
            );
        },
    };

    if !is_float_token(&fields[2]) {
        return Err(
            ParseError::InvalidField { field: RecordField::PositionX, text: token_string(&fields[2]) },
        );
    }
    if !is_float_token(&fields[3]) {
        return Err(
            ParseError::InvalidField { field: RecordField::PositionY, text: token_string(&fields[3]) },
        );
    }
    if !is_float_token(&fields[4]) {
        return Err(
            ParseError::InvalidField { field: RecordField::PositionZ, text: token_string(&fields[4]) },
        );
    }
    let position = Point {
        x: token_string(&fields[2]),
        y: token_string(&fields[3]),
        z: token_string(&fields[4]),
    };

    if !is_float_token(&fields[5]) || (fields[5].len() > 0 && fields[5][0] == '-') {
        return Err(
            ParseError::InvalidField { field: RecordField::Radius, text: token_string(&fields[5]) },
        );
    }
    let radius = token_string(&fields[5]);

    let parent_id: Option<usize>;
    if fields[6].len() > 0 && fields[6][0] == '-' {
        // A negative parent id means there is no parent; this is the root
        // of the neuron graph.
        parent_id = None;
    } else if !all_digits(&fields[6]) {
        return Err(
            ParseError::InvalidField { field: RecordField::Parent, text: token_string(&fields[6]) },
        );
    } else {
        match parse_usize(&fields[6]) {
            Some(parsed_parent_id) => {
                if parsed_parent_id >= id {
                    return Err(
                        ParseError::InvalidParentOrdering { id, parent: token_string(&fields[6]) },
                    );
                }
                parent_id = Some(parsed_parent_id);
            },
            None => {
                // The parent field holds digits but overflows the
                // machine, so it certainly is not below the identifier.
                return Err(
                    ParseError::InvalidParentOrdering { id, parent: token_string(&fields[6]) },
                );
            },
        }
    }

    Ok(SWCCompartment::new(id, kind, position, radius, parent_id))
}

/// The length of the run of whitespace characters starting at `i`.
pub open spec fn ws_run(s: Seq<char>, i: int) -> int
    decreases s.len() - i,
{
    if i < 0 || i >= s.len() || !is_ws(s[i]) {
        0
    } else {
        1 + ws_run(s, i + 1)
    }
}

proof fn lemma_ws_run_bounds(s: Seq<char>, i: int)
    requires
        0 <= i <= s.len(),
    ensures
        0 <= ws_run(s, i),
        i + ws_run(s, i) <= s.len(),
        i + ws_run(s, i) < s.len() ==> !is_ws(s[i + ws_run(s, i)]),
    decreases s.len() - i,
{
    if i < s.len() && is_ws(s[i]) {
        lemma_ws_run_bounds(s, i + 1);
    }
}

/// The length of the whitespace run of `t` starting at `from`.
fn ws_run_len(t: &Vec<char>, from: usize) -> (r: usize)
    requires
        from <= t@.len(),
    ensures
        r == ws_run(t@, from as int),
        from + r <= t@.len(),
{
    let mut j: usize = from;
    while j < t.len() && is_ws_char(t[j])
        invariant
            from <= j <= t@.len(),
            ws_run(t@, from as int) == j - from + ws_run(t@, j as int),
        decreases t@.len() - j,
    {
        j = j + 1;
    }
    proof {
        lemma_ws_run_bounds(t@, j as int);
    }
    j - from
}

/// The end of `s` once trailing whitespace is stripped.
pub open spec fn trim_end_idx(s: Seq<char>) -> int
    decreases s.len(),
{
    if s.len() == 0 {
        0
    } else if is_ws(s.last()) {
        trim_end_idx(s.drop_last())
    } else {
        s.len() as int
    }
}

proof fn lemma_trim_end_bounds(s: Seq<char>)
    ensures
        0 <= trim_end_idx(s) <= s.len(),
        forall|k: int| trim_end_idx(s) <= k < s.len() ==> is_ws(#[trigger] s[k]),
    decreases s.len(),
{
    if s.len() > 0 && is_ws(s.last()) {
        lemma_trim_end_bounds(s.drop_last());
        assert forall|k: int| trim_end_idx(s) <= k < s.len() implies is_ws(#[trigger] s[k]) by {
            if k < s.len() - 1 {
                assert(s[k] == s.drop_last()[k]);
            }
        }
    }
}

/// `s` with leading and trailing whitespace removed; meaningful for
/// non-blank `s`.
pub open spec fn trimmed(s: Seq<char>) -> Seq<char> {
    s.subrange(ws_run(s, 0), trim_end_idx(s))
}

/// Whether `s` consists of whitespace only.
pub open spec fn is_blank(s: Seq<char>) -> bool {
    ws_run(s, 0) == s.len()
}

/// Whether the first non-whitespace character of `s` is `#`.
pub open spec fn is_comment(s: Seq<char>) -> bool {
    !is_blank(s) && s[ws_run(s, 0)] == '#'
}

/// Whether `s` must be parsed as a compartment record.
pub open spec fn is_record_line(s: Seq<char>) -> bool {
    !is_blank(s) && !is_comment(s)
}

/// One classified input line: a compartment record, a comment, or a
/// blank line.
pub enum SWCLine {
    SWCCompartment(SWCCompartment),
    Comment(String),
    Blank,
}

/// Classify one input line and parse it as a compartment record when it
/// is neither blank nor a comment.
pub fn parse_line(line: &str) -> (r: Result<SWCLine, ParseError>)
    ensures
        is_blank(line@) ==> (r matches Ok(l) && l is Blank),
        is_comment(line@) ==> (r matches Ok(l) && l matches SWCLine::Comment(t) && t@ == trimmed(
            line@,
        )),
        is_record_line(line@) ==> {
            &&& r is Ok <==> line_ok(line@)
            &&& r matches Ok(l) ==> l matches SWCLine::SWCCompartment(c) && record_matches(
                c,
                line@,
            )
            &&& r matches Err(e) ==> err_matches(e, line@)
        },
{
    let chars = chars_of(line);
    let start = ws_run_len(&chars, 0);
    if start == chars.len() {
        // Line is blank.
        return Ok(SWCLine::Blank);
    }
    if chars[start] == '#' {
        // Strip trailing whitespace and keep the comment's text.
        let mut end: usize = chars.len();
        proof {
            assert(chars@.take(end as int) =~= chars@);
        }
        while end > 0 && is_ws_char(chars[end - 1])
            invariant
                0 <= end <= chars@.len(),
                trim_end_idx(chars@) == trim_end_idx(chars@.take(end as int)),
            decreases end,
        {
            proof {
                assert(chars@.take(end as int).drop_last() =~= chars@.take(end - 1));
            }
            end = end - 1;
        }
        proof {
            if end > 0 {
                assert(chars@.take(end as int).last() == chars@[end - 1]);
            } else {
                assert(chars@.take(0) =~= Seq::<char>::empty());
            }
            assert(trim_end_idx(chars@) == end);
            lemma_ws_run_bounds(chars@, 0);
            lemma_trim_end_bounds(chars@);
            // The first non-whitespace character lies before the trailing
            // whitespace, so the trimmed range is well formed.
            assert(!is_ws(chars@[start as int]));
            assert(end > start);
        }
        return Ok(SWCLine::Comment(string_from_chars_range(&chars, start, end)));
    }
    match parse_line_as_compartment(line) {
        Ok(compartment) => Ok(SWCLine::SWCCompartment(compartment)),
        Err(e) => Err(e),
    }
}

/// Whether the ids of `s` are strictly ascending: the store's order.
pub open spec fn ids_ascending(s: Seq<SWCCompartment>) -> bool {
    forall|i: int, j: int| 0 <= i < j < s.len() ==> s[i].id < s[j].id
}

/// Whether some compartment of `s` carries identifier `id`.
pub open spec fn contains_id(s: Seq<SWCCompartment>, id: int) -> bool {
    exists|i: int| 0 <= i < s.len() && s[i].id == id
}

/// The compartment store: all compartments of one morphology, keyed by
/// their unique identifiers and ordered by ascending identifier.
pub struct SWCNeuron {
    compartments: Vec<SWCCompartment>,
}

impl View for SWCNeuron {
    type V = Seq<SWCCompartment>;

    closed spec fn view(&self) -> Seq<SWCCompartment> {
        self.compartments@
    }
}

impl SWCNeuron {
    /// Whether the store's order invariant holds: ids strictly ascending
    /// (which also makes them unique).
    pub open spec fn wf(&self) -> bool {
        ids_ascending(self@)
    }

    /// Create an empty store.
    pub fn new() -> (r: SWCNeuron)
        ensures
            r@ == Seq::<SWCCompartment>::empty(),
            r.wf(),
    {
        SWCNeuron { compartments: Vec::new() }
    }

    /// The number of compartments in the store.
    pub fn len(&self) -> (r: usize)
        ensures
            r == self@.len(),
    {
        self.compartments.len()
    }

    /// Surrender the compartments, in identifier order.
    pub fn into_compartments(self) -> (r: Vec<SWCCompartment>)
        ensures
            r@ == self@,
    {
        self.compartments
    }

    /// The compartment at position `i` in identifier order.
    pub fn get_index(&self, i: usize) -> (r: &SWCCompartment)
        requires
            i < self@.len(),
        ensures
            *r == self@[i as int],
    {
        &self.compartments[i]
    }

    /// Insert a compartment at its place in identifier order, unless its
    /// identifier is already present; a collision leaves the store
    /// unchanged and reports the identifier.
    pub fn try_insert(&mut self, compartment: SWCCompartment) -> (r: Result<(), ParseError>)
        requires
            old(self).wf(),
        ensures
            final(self).wf(),
            r is Ok <==> !contains_id(old(self)@, compartment.id as int),
            r matches Ok(()) ==> exists|k: int|
                0 <= k <= old(self)@.len() && final(self)@ == old(self)@.insert(k, compartment),
            r matches Ok(()) ==> forall|x: SWCCompartment|
                #[trigger] final(self)@.contains(x) <==> old(self)@.contains(x) || x
                    == compartment,
            r matches Err(e) ==> ({
                &&& final(self)@ == old(self)@
                &&& e matches ParseError::DuplicateIdentifier { id } && id == compartment.id
            }),
    {
        let mut i: usize = 0;
        while i < self.compartments.len() && self.compartments[i].id < compartment.id
            invariant
                0 <= i <= self.compartments@.len(),
                forall|j: int| 0 <= j < i ==> self.compartments@[j].id < compartment.id,
                self.compartments@ == old(self)@,
                ids_ascending(self.compartments@),
            decreases self.compartments@.len() - i,
        {
            i = i + 1;
        }
        if i < self.compartments.len() && self.compartments[i].id == compartment.id {
            return Err(ParseError::DuplicateIdentifier { id: compartment.id });
        }
        proof {
            assert forall|j: int| 0 <= j < self.compartments@.len() implies self.compartments@[j].id
                != compartment.id by {
                if j >= i {
                    assert(self.compartments@[i as int].id <= self.compartments@[j].id);
                }
            }
        }
        self.compartments.insert(i, compartment);
        proof {
            lemma_insert_contains(old(self)@, i as int, compartment);
            let s = old(self)@;
            let t = self.compartments@;
            assert forall|p: int, q: int| 0 <= p < q < t.len() implies t[p].id < t[q].id by {
                if q <= i {
                } else if p >= i + 1 {
                } else if q == i + 1 && p < i {
                    assert(t[p] == s[p] && t[q] == s[q - 1]);
                } else if p == i && q > i {
                    assert(t[q] == s[q - 1]);
                    assert(s[i as int].id > compartment.id || i == s.len());
                    assert(s[q - 1].id >= s[i as int].id || q - 1 == i);
                } else if q == i && p < i {
                }
            }
        }
        Ok(())
    }
}

/// Codes 0 to 4 map one-to-one onto the five basic compartment kinds in
/// declaration order, and every code of 5 and above maps to `Custom`:
/// the mapping is total over the non-negative integers.
pub proof fn lemma_kind_code_mapping()
    ensures
        kind_of_code(0) == SWCCompartmentKind::Undefined,
        kind_of_code(1) == SWCCompartmentKind::Soma,
        kind_of_code(2) == SWCCompartmentKind::Axon,
        kind_of_code(3) == SWCCompartmentKind::Dendrite,
        kind_of_code(4) == SWCCompartmentKind::ApicalDendrite,
        forall|c: int| c >= 5 ==> #[trigger] kind_of_code(c) == SWCCompartmentKind::Custom,
        forall|a: int, b: int|
            0 <= a < b <= 4 ==> #[trigger] kind_of_code(a) != #[trigger] kind_of_code(b),
{
}

/// Every valid record line whose parent field is numeric parses to a
/// compartment whose parent is present and strictly below its own
/// identifier: `parent_id == Some(p)` with `p < id`.
pub proof fn lemma_parsed_parent_below_id(s: Seq<char>, c: SWCCompartment)
    requires
        line_ok(s),
        record_matches(c, s),
        !parent_absent(split_ws(s)),
    ensures
        c.parent_id matches Some(p) && p == digits_val(split_ws(s)[6]) && (p as int)
            < c.id as int,
{
    reveal(line_ok);
    reveal(record_matches);
}

/// Every record line whose last field begins with `-` parses to a root
/// compartment: `parent_id` is `None`, whatever the other fields hold.
pub proof fn lemma_dash_parent_means_root(s: Seq<char>, c: SWCCompartment)
    requires
        record_matches(c, s),
        parent_absent(split_ws(s)),
    ensures
        c.parent_id is None,
{
    reveal(record_matches);
}

/// The diagnostic phrase naming a record field.
pub open spec fn field_phrase(field: RecordField) -> Seq<char> {
    match field {
        RecordField::Identifier => "a compartment id"@,
        RecordField::KindCode => "a compartment kind"@,
        RecordField::PositionX => "an x position"@,
        RecordField::PositionY => "a y position"@,
        RecordField::PositionZ => "a z position"@,
        RecordField::Radius => "a radius"@,
        RecordField::Parent => "a parent id"@,
    }
}

/// The user-facing description of a parse error.
pub open spec fn error_message(e: ParseError) -> Seq<char> {
    match e {
        ParseError::MalformedRecord { n_items } => "expected 7 space-delimited items in compartment line, got "@
            + dec_rep(n_items as nat) + " items instead."@,
        ParseError::InvalidField { field, text } => "could not parse "@ + text@ + " as "@
            + field_phrase(field) + "."@,
        ParseError::InvalidParentOrdering { id, parent } => "expected parent id for compartment "@
            + dec_rep(id as nat) + " to be less than "@ + dec_rep(id as nat) + ", got "@ + parent@
            + " instead."@,
        ParseError::DuplicateIdentifier { id } => "more than one compartment with id "@ + dec_rep(
            id as nat,
        ) + " exists"@,
        ParseError::IOFailure { message } => "could not read input: "@ + message@,
    }
}

impl RecordField {
    /// The diagnostic phrase naming this field.
    pub fn phrase(&self) -> (r: String)
        ensures
            r@ == field_phrase(*self),
    {
        match *self {
            RecordField::Identifier => String::from_str("a compartment id"),
            RecordField::KindCode => String::from_str("a compartment kind"),
            RecordField::PositionX => String::from_str("an x position"),
            RecordField::PositionY => String::from_str("a y position"),
            RecordField::PositionZ => String::from_str("a z position"),
            RecordField::Radius => String::from_str("a radius"),
            RecordField::Parent => String::from_str("a parent id"),
        }
    }
}

impl ParseError {
    /// The user-facing description of this error, naming the offending
    /// line count, field text or identifier.
    pub fn message(&self) -> (r: String)
        ensures
            r@ == error_message(*self),
    {
        match self {
            ParseError::MalformedRecord { n_items } => {
                let mut m = String::from_str(
                    "expected 7 space-delimited items in compartment line, got ",
                );
                let n = crate::numerals::usize_to_string(*n_items);
                m.append(n.as_str());
                m.append(" items instead.");
                m
            },
            ParseError::InvalidField { field, text } => {
                let mut m = String::from_str("could not parse ");
                m.append(text.as_str());
                m.append(" as ");
                let p = field.phrase();
                m.append(p.as_str());
                m.append(".");
                m
            },
            ParseError::InvalidParentOrdering { id, parent } => {
                let mut m = String::from_str("expected parent id for compartment ");
                let n = crate::numerals::usize_to_string(*id);
                m.append(n.as_str());
                m.append(" to be less than ");
                m.append(n.as_str());
                m.append(", got ");
                m.append(parent.as_str());
                m.append(" instead.");
                m
            },
            ParseError::DuplicateIdentifier { id } => {
                let mut m = String::from_str("more than one compartment with id ");
                let n = crate::numerals::usize_to_string(*id);
                m.append(n.as_str());
                m.append(" exists");
                m
            },
            ParseError::IOFailure { message } => {
                let mut m = String::from_str("could not read input: ");
                m.append(message.as_str());
                m
            },
        }
    }
}

/// The identifier denoted by the first field of a record line.
#[verifier::opaque]
pub open spec fn line_id(s: Seq<char>) -> int {
    digits_val(split_ws(s)[0])
}

/// Whether a line is acceptable to the assembler: blank, a comment, or a
/// valid compartment record.
#[verifier::opaque]
pub open spec fn good_line(s: Seq<char>) -> bool {
    is_blank(s) || is_comment(s) || line_ok(s)
}

/// Whether every line is acceptable.
pub open spec fn lines_good(ls: Seq<String>) -> bool {
    forall|i: int| 0 <= i < ls.len() ==> good_line(#[trigger] ls[i]@)
}

/// Whether no two record lines declare the same identifier.
pub open spec fn lines_unique_ids(ls: Seq<String>) -> bool {
    forall|i: int, j: int|
        0 <= i < j < ls.len() && is_record_line(#[trigger] ls[i]@) && is_record_line(
            #[trigger] ls[j]@,
        ) ==> line_id(ls[i]@) != line_id(ls[j]@)
}

/// Whether `e` is the diagnostic owed for the first failing line `i`:
/// every earlier line is acceptable, and line `i` is a record line that
/// either fails to parse or collides with an earlier identifier.
pub open spec fn first_failure_at(ls: Seq<String>, i: int, e: ParseError) -> bool {
    &&& 0 <= i < ls.len()
    &&& forall|j: int| 0 <= j < i ==> good_line(#[trigger] ls[j]@)
    &&& is_record_line(ls[i]@)
    &&& if line_ok(ls[i]@) {
        &&& exists|j: int|
            0 <= j < i && is_record_line(#[trigger] ls[j]@) && line_id(ls[j]@) == line_id(ls[i]@)
        &&& e matches ParseError::DuplicateIdentifier { id } && id == line_id(ls[i]@)
    } else {
        err_matches(e, ls[i]@)
    }
}

proof fn lemma_insert_contains(s: Seq<SWCCompartment>, k: int, v: SWCCompartment)
    requires
        0 <= k <= s.len(),
    ensures
        forall|x: SWCCompartment|
            #[trigger] s.insert(k, v).contains(x) <==> s.contains(x) || x == v,
{
    s.insert_ensures(k, v);
    let t = s.insert(k, v);
    assert forall|x: SWCCompartment| #[trigger] t.contains(x) implies s.contains(x) || x == v by {
        let i = choose|i: int| 0 <= i < t.len() && t[i] == x;
        if i < k {
            assert(s[i] == x);
        } else if i > k {
            assert(t[(i - 1) + 1] == s[i - 1]);
        }
    }
    assert forall|x: SWCCompartment| s.contains(x) || x == v implies #[trigger] t.contains(x) by {
        if s.contains(x) {
            let i = choose|i: int| 0 <= i < s.len() && s[i] == x;
            if i < k {
                assert(t[i] == x);
            } else {
                assert(t[i + 1] == x);
            }
        } else {
            assert(t[k] == x);
        }
    }
}

proof fn lemma_assemble_step_ok(
    ls: Seq<String>,
    i: int,
    prev: Seq<SWCCompartment>,
    cur: Seq<SWCCompartment>,
    c: SWCCompartment,
)
    requires
        0 <= i < ls.len(),
        is_record_line(ls[i]@),
        record_matches(c, ls[i]@),
        !contains_id(prev, c.id as int),
        forall|x: SWCCompartment| #[trigger] cur.contains(x) <==> prev.contains(x) || x == c,
        forall|cc: SWCCompartment| #[trigger] prev.contains(cc) ==> exists|j: int|
            0 <= j < i && is_record_line(ls[j]@) && record_matches(cc, ls[j]@),
        forall|j: int|
            0 <= j < i && #[trigger] is_record_line(ls[j]@) ==> contains_id(prev, line_id(ls[j]@)),
    ensures
        forall|cc: SWCCompartment| #[trigger] cur.contains(cc) ==> exists|j: int|
            0 <= j < i + 1 && is_record_line(ls[j]@) && record_matches(cc, ls[j]@),
        forall|j: int|
            0 <= j < i + 1 && #[trigger] is_record_line(ls[j]@) ==> contains_id(
                cur,
                line_id(ls[j]@),
            ),
        forall|j: int|
            0 <= j < i && #[trigger] is_record_line(ls[j]@) ==> line_id(ls[j]@) != line_id(ls[i]@),
{
    reveal(line_id);
    reveal(record_matches);
    assert(c.id == line_id(ls[i]@));
    assert forall|cc: SWCCompartment| #[trigger] cur.contains(cc) implies exists|j: int|
        0 <= j < i + 1 && is_record_line(ls[j]@) && record_matches(cc, ls[j]@) by {
        if prev.contains(cc) {
            let j = choose|j: int|
                0 <= j < i && is_record_line(ls[j]@) && record_matches(cc, ls[j]@);
            assert(0 <= j < i + 1 && is_record_line(ls[j]@) && record_matches(cc, ls[j]@));
        } else {
            assert(cc == c);
            assert(0 <= i < i + 1 && is_record_line(ls[i]@) && record_matches(cc, ls[i]@));
        }
    }
    assert forall|j: int| 0 <= j < i + 1 && #[trigger] is_record_line(ls[j]@) implies contains_id(
        cur,
        line_id(ls[j]@),
    ) by {
        if j < i {
            let t = choose|t: int| 0 <= t < prev.len() && prev[t].id == line_id(ls[j]@);
            assert(prev.contains(prev[t]));
            assert(cur.contains(prev[t]));
            let u = choose|u: int| 0 <= u < cur.len() && cur[u] == prev[t];
            assert(contains_id(cur, line_id(ls[j]@)));
        } else {
            assert(cur.contains(c));
            let u = choose|u: int| 0 <= u < cur.len() && cur[u] == c;
            assert(contains_id(cur, line_id(ls[i]@)));
        }
    }
    assert forall|j: int| 0 <= j < i && #[trigger] is_record_line(ls[j]@) implies line_id(ls[j]@)
        != line_id(ls[i]@) by {
        assert(contains_id(prev, line_id(ls[j]@)));
    }
}

proof fn lemma_assemble_step_dup(
    ls: Seq<String>,
    i: int,
    prev: Seq<SWCCompartment>,
    c: SWCCompartment,
    e: ParseError,
)
    requires
        0 <= i < ls.len(),
        is_record_line(ls[i]@),
        line_ok(ls[i]@),
        record_matches(c, ls[i]@),
        contains_id(prev, c.id as int),
        e matches ParseError::DuplicateIdentifier { id } && id == c.id,
        forall|j: int| 0 <= j < i ==> good_line(#[trigger] ls[j]@),
        forall|cc: SWCCompartment| #[trigger] prev.contains(cc) ==> exists|j: int|
            0 <= j < i && is_record_line(ls[j]@) && record_matches(cc, ls[j]@),
    ensures
        first_failure_at(ls, i, e),
        exists|j: int|
            0 <= j < i && #[trigger] is_record_line(ls[j]@) && line_id(ls[j]@) == line_id(ls[i]@),
{
    reveal(record_matches);
    reveal(line_id);
    let idx = choose|idx: int| 0 <= idx < prev.len() && prev[idx].id == c.id as int;
    assert(prev.contains(prev[idx]));
    let j = choose|j: int|
        0 <= j < i && is_record_line(ls[j]@) && record_matches(prev[idx], ls[j]@);
    assert(line_id(ls[j]@) == c.id as int);
    assert(c.id == line_id(ls[i]@));
}

/// Assemble a compartment store from a sequence of input lines.
///
/// Blank and comment lines are skipped. The assembly is fail-fast: the
/// first malformed record or identifier collision aborts it, and the
/// reported error identifies that line's failure.
#[verifier::rlimit(100)]
pub fn parse_lines(lines: &Vec<String>) -> (r: Result<SWCNeuron, ParseError>)
    ensures
        r is Ok <==> lines_good(lines@) && lines_unique_ids(lines@),
        r matches Ok(n) ==> ({
            &&& n.wf()
            &&& forall|c: SWCCompartment| #[trigger] n@.contains(c) ==> exists|i: int|
                0 <= i < lines@.len() && is_record_line(lines@[i]@) && record_matches(
                    c,
                    lines@[i]@,
                )
            &&& forall|i: int|
                0 <= i < lines@.len() && #[trigger] is_record_line(lines@[i]@) ==> exists|
                    c: SWCCompartment,
                |
                    n@.contains(c) && record_matches(c, lines@[i]@)
        }),
        r matches Err(e) ==> exists|i: int| first_failure_at(lines@, i, e),
{
    let mut neuron = SWCNeuron::new();
    let mut i: usize = 0;
    while i < lines.len()
        invariant
            0 <= i <= lines@.len(),
            neuron.wf(),
            forall|j: int| 0 <= j < i ==> good_line(#[trigger] lines@[j]@),
            forall|c: SWCCompartment| #[trigger] neuron@.contains(c) ==> exists|j: int|
                0 <= j < i && is_record_line(lines@[j]@) && record_matches(c, lines@[j]@),
            forall|j: int|
                0 <= j < i && #[trigger] is_record_line(lines@[j]@) ==> contains_id(
                    neuron@,
                    line_id(lines@[j]@),
                ),
            forall|j: int|
                0 <= j < i && #[trigger] is_record_line(lines@[j]@) ==> line_ok(lines@[j]@),
            forall|j1: int, j2: int|
                0 <= j1 < j2 < i && #[trigger] is_record_line(lines@[j1]@)
                    && #[trigger] is_record_line(lines@[j2]@) ==> line_id(lines@[j1]@) != line_id(
                    lines@[j2]@,
                ),
        decreases lines@.len() - i,
    {
        proof {
            reveal(good_line);
        }
        match parse_line(lines[i].as_str()) {
            Ok(SWCLine::SWCCompartment(compartment)) => {
                let ghost c = compartment;
                let ghost prev = neuron@;
                match neuron.try_insert(compartment) {
                    Ok(()) => {
                        proof {
                            lemma_assemble_step_ok(lines@, i as int, prev, neuron@, c);
                        }
                    },
                    Err(e) => {
                        proof {
                            lemma_assemble_step_dup(lines@, i as int, prev, c, e);
                            let j = choose|j: int|
                                0 <= j < i && #[trigger] is_record_line(lines@[j]@) && line_id(
                                    lines@[j]@,
                                ) == line_id(lines@[i as int]@);
                            if lines_unique_ids(lines@) {
                                assert(line_id(lines@[j]@) != line_id(lines@[i as int]@));
                            }
                        }
                        return Err(e);
                    },
                }
            },
            Ok(_) => {
                // Blank lines and comments are skipped with no effect.
            },
            Err(e) => {
                proof {
                    assert(first_failure_at(lines@, i as int, e));
                    if lines_good(lines@) {
                        assert(good_line(lines@[i as int]@));
                    }
                }
                return Err(e);
            },
        }
        i = i + 1;
    }
    proof {
        assert forall|j: int|
            0 <= j < lines@.len() && #[trigger] is_record_line(lines@[j]@) implies exists|
            c: SWCCompartment,
        | neuron@.contains(c) && record_matches(c, lines@[j]@) by {
            reveal(record_matches);
            reveal(line_id);
            let t = choose|t: int| 0 <= t < neuron@.len() && neuron@[t].id == line_id(lines@[j]@);
            let c = neuron@[t];
            assert(neuron@.contains(c));
            let j2 = choose|j2: int|
                0 <= j2 < lines@.len() && is_record_line(lines@[j2]@) && record_matches(
                    c,
                    lines@[j2]@,
                );
            assert(line_id(lines@[j2]@) == c.id as int);
            if j2 != j {
                assert(line_id(lines@[j]@) != line_id(lines@[j2]@));
                assert(false);
            }
        }
    }
    Ok(neuron)
}

} // verus!

//! The DOT text emitter: renders vertices, per-kind style blocks and
//! one-level trees into the brace-delimited, word-wrapped DOT graph
//! description, through the word-wrapping [`StringBuffer`].

use vstd::prelude::*;
use vstd::string::StringExecFns;

use crate::components::Graph;
use crate::components::ShortTree;
use crate::components::Vertex;
use crate::components::VertexModel;
use crate::config::config_group;
use crate::config::Config;
use crate::config::ConfigModel;
use crate::config::ConfigOptionGroup;
use crate::config::EntryModel;
use crate::numerals::dec_rep;
use crate::numerals::usize_to_string;
use crate::string_buffer::bm_contents;
use crate::string_buffer::bm_len;
use crate::string_buffer::bm_new;
use crate::string_buffer::bm_newline;
use crate::string_buffer::bm_push;
use crate::string_buffer::bm_weak_push;
use crate::string_buffer::bm_wf;
use crate::string_buffer::get_indent;
use crate::string_buffer::spaces;
use crate::string_buffer::BufModel;
use crate::string_buffer::Indent;
use crate::string_buffer::StringBuffer;
use crate::swc_parser::kind_label;
use crate::swc_parser::SWCCompartmentKind;

verus! {

/// Get a `String` of spaces for indenting.
pub fn indent(level: u8) -> (r: String)
    ensures
        r@ == spaces(level as nat),
{
    get_indent(level)
}

/// Get a `String` representation of an object in DOT format.
///
/// Each implementation states the exact text it produces through
/// `dot_spec`, under the conditions of `dot_ok`.
pub trait ToDot {
    /// When the object can be rendered at the given indent.
    spec fn dot_ok(&self, leading_newline: bool, indent: Indent) -> bool;

    /// The exact text of the rendering.
    spec fn dot_spec(&self, leading_newline: bool, indent: Indent) -> Seq<char>;

    /// Render the object.
    fn to_dot(&self, leading_newline: bool, indent: Indent) -> (r: String)
        requires
            self.dot_ok(leading_newline, indent),
        ensures
            r@ == self.dot_spec(leading_newline, indent),
    ;
}

/// Whether a buffer at this indent stays within the wrap width.
pub open spec fn indent_ok(indent: Indent) -> bool {
    indent.first <= 20 && indent.main <= 20
}

/// The node declaration of a vertex: its identifier as `<id>; `,
/// buffered at the given indent.
pub open spec fn vertex_dot(id: usize, leading_newline: bool, indent: Indent) -> Seq<char> {
    bm_contents(
        bm_push(
            bm_push(
                bm_new(leading_newline, indent.first as nat, indent.main as nat),
                dec_rep(id as nat),
            ),
            "; "@,
        ),
    )
}

impl ToDot for Vertex {
    open spec fn dot_ok(&self, leading_newline: bool, indent: Indent) -> bool {
        indent_ok(indent)
    }

    open spec fn dot_spec(&self, leading_newline: bool, indent: Indent) -> Seq<char> {
        vertex_dot(self@.data.id, leading_newline, indent)
    }

    /// Get a DOT representation of a single vertex.
    fn to_dot(&self, leading_newline: bool, indent: Indent) -> (r: String) {
        let mut vertex_str = StringBuffer::new(leading_newline, indent, 32);
        let id_text = usize_to_string(self.get_id());
        vertex_str.push_str(id_text.as_str());
        vertex_str.push_str("; ");
        vertex_str.to_string()
    }
}

/// The identifiers of `ids` in decimal, joined by `", "`.
pub open spec fn ids_join(ids: Seq<usize>) -> Seq<char>
    decreases ids.len(),
{
    if ids.len() == 0 {
        Seq::empty()
    } else if ids.len() == 1 {
        dec_rep(ids[0] as nat)
    } else {
        ids_join(ids.drop_last()) + ", "@ + dec_rep(ids.last() as nat)
    }
}

/// Render `ids` in decimal, joined by `", "`.
fn join_ids(ids: &Vec<usize>) -> (r: String)
    ensures
        r@ == ids_join(ids@),
{
    let mut r = String::new();
    let mut i: usize = 0;
    while i < ids.len()
        invariant
            0 <= i <= ids@.len(),
            r@ == ids_join(ids@.take(i as int)),
        decreases ids@.len() - i,
    {
        if i > 0 {
            r.append(", ");
        }
        let d = usize_to_string(ids[i]);
        r.append(d.as_str());
        i = i + 1;
        proof {
            reveal_strlit(", ");
            assert(ids@.take(i as int).drop_last() =~= ids@.take(i - 1));
            assert(ids@.take(i as int).last() == ids@[i - 1]);
            if i == 1 {
                assert(r@ =~= ids_join(ids@.take(1)));
            } else {
                assert(r@ =~= ids_join(ids@.take(i as int)));
            }
        }
    }
    proof {
        assert(ids@.take(ids@.len() as int) =~= ids@);
    }
    r
}

/// The edge statement of a one-level tree: nothing for a childless
/// root, `<root> -- <child>;` for one child, and
/// `<root> -- {<c1>, <c2>, ...};` for several, buffered at the given
/// indent. A childless root contributes no visible text: only the
/// connective between root and children counts as real content.
pub open spec fn short_tree_dot(
    root: usize,
    children: Seq<usize>,
    leading_newline: bool,
    indent: Indent,
) -> Seq<char> {
    let m0 = bm_new(leading_newline, indent.first as nat, indent.main as nat);
    let m1 = bm_weak_push(m0, dec_rep(root as nat));
    let m2 = if children.len() == 0 {
        m1
    } else if children.len() == 1 {
        bm_push(m1, " -- "@ + dec_rep(children[0] as nat))
    } else {
        bm_push(m1, " -- {"@ + ids_join(children) + "}"@)
    };
    bm_contents(bm_weak_push(m2, ";"@))
}

impl ToDot for ShortTree {
    open spec fn dot_ok(&self, leading_newline: bool, indent: Indent) -> bool {
        indent_ok(indent)
    }

    open spec fn dot_spec(&self, leading_newline: bool, indent: Indent) -> Seq<char> {
        short_tree_dot(self@.root_id, self@.child_ids, leading_newline, indent)
    }

    /// Get a DOT representation of a rooted tree of depth 1.
    ///
    /// Rooted trees of depth 1 can be written in one line in DOT. A tree
    /// with no children renders as nothing: a leaf is represented by its
    /// node declaration alone.
    fn to_dot(&self, leading_newline: bool, indent: Indent) -> (r: String) {
        let mut tree_buf = StringBuffer::new(leading_newline, indent, 128);

        let root_text = usize_to_string(self.get_root_id());
        tree_buf.weak_push_str(root_text.as_str());
        let n_children = self.get_child_ids().len();
        if n_children == 1 {
            let mut edge = String::from_str(" -- ");
            let child_text = usize_to_string(self.get_child_ids()[0]);
            edge.append(child_text.as_str());
            tree_buf.push_str(edge.as_str());
        } else if n_children > 1 {
            let mut edge = String::from_str(" -- {");
            let joined = join_ids(self.get_child_ids());
            edge.append(joined.as_str());
            edge.append("}");
            tree_buf.push_str(edge.as_str());
        }
        tree_buf.weak_push_str(";");
        tree_buf.to_string()
    }
}

/// The token of one style option: `<name>: <value>;` or `<name>;` when
/// the option has no value.
pub open spec fn entry_tok(e: EntryModel) -> Seq<char> {
    e.key + (match e.value {
        Some(v) => ": "@ + v,
        None => Seq::<char>::empty(),
    }) + ";"@
}

/// The buffer state after pushing every option token of `g`, separated
/// by single spaces.
pub open spec fn group_fill(m: BufModel, g: Seq<EntryModel>) -> BufModel
    decreases g.len(),
{
    if g.len() == 0 {
        m
    } else {
        let mp = group_fill(m, g.drop_last());
        let mp2 = if g.len() > 1 {
            bm_push(mp, " "@)
        } else {
            mp
        };
        bm_push(mp2, entry_tok(g.last()))
    }
}

/// The style line of an option group: its option tokens in insertion
/// order, space-separated, buffered at the given indent.
pub open spec fn group_dot(g: Seq<EntryModel>, leading_newline: bool, indent: Indent) -> Seq<
    char,
> {
    bm_contents(
        group_fill(bm_new(leading_newline, indent.first as nat, indent.main as nat), g),
    )
}

impl ToDot for ConfigOptionGroup {
    open spec fn dot_ok(&self, leading_newline: bool, indent: Indent) -> bool {
        indent_ok(indent)
    }

    open spec fn dot_spec(&self, leading_newline: bool, indent: Indent) -> Seq<char> {
        group_dot(self@, leading_newline, indent)
    }

    /// Get the style line of this option group: `name: value;` tokens in
    /// insertion order, space-separated.
    fn to_dot(&self, leading_newline: bool, indent: Indent) -> (r: String) {
        let mut buf = StringBuffer::new(leading_newline, indent, 64);
        let ghost m0 = buf@;
        let mut i: usize = 0;
        while i < self.len()
            invariant
                0 <= i <= self@.len(),
                bm_wf(m0),
                bm_wf(buf@),
                buf@ == group_fill(m0, self@.take(i as int)),
            decreases self@.len() - i,
        {
            if i > 0 {
                buf.push_str(" ");
            }
            let entry = self.get_index(i);
            let mut tok = entry.0.clone();
            match &entry.1 {
                Some(v) => {
                    tok.append(": ");
                    tok.append(v.as_str());
                },
                None => {},
            }
            tok.append(";");
            buf.push_str(tok.as_str());
            i = i + 1;
            proof {
                reveal_strlit(" ");
                assert(self@.take(i as int).drop_last() =~= self@.take(i - 1));
                assert(self@.take(i as int).last() == self@[i - 1]);
                assert(tok@ =~= entry_tok(self@[i - 1]));
            }
        }
        proof {
            assert(self@.take(self@.len() as int) =~= self@);
        }
        buf.to_string()
    }
}

/// The state of a [`VertexConfigFormatter`]: one buffer model per
/// compartment kind.
pub ghost struct FmtModel {
    pub undefined: BufModel,
    pub soma: BufModel,
    pub axon: BufModel,
    pub dendrite: BufModel,
    pub apicaldendrite: BufModel,
    pub custom: BufModel,
}

/// The buffer of `m` that belongs to `kind`.
pub open spec fn fmt_get(m: FmtModel, kind: SWCCompartmentKind) -> BufModel {
    match kind {
        SWCCompartmentKind::Undefined => m.undefined,
        SWCCompartmentKind::Soma => m.soma,
        SWCCompartmentKind::Axon => m.axon,
        SWCCompartmentKind::Dendrite => m.dendrite,
        SWCCompartmentKind::ApicalDendrite => m.apicaldendrite,
        SWCCompartmentKind::Custom => m.custom,
    }
}

/// Replace the buffer of `m` that belongs to `kind`.
pub open spec fn fmt_set(m: FmtModel, kind: SWCCompartmentKind, b: BufModel) -> FmtModel {
    match kind {
        SWCCompartmentKind::Undefined => FmtModel { undefined: b, ..m },
        SWCCompartmentKind::Soma => FmtModel { soma: b, ..m },
        SWCCompartmentKind::Axon => FmtModel { axon: b, ..m },
        SWCCompartmentKind::Dendrite => FmtModel { dendrite: b, ..m },
        SWCCompartmentKind::ApicalDendrite => FmtModel { apicaldendrite: b, ..m },
        SWCCompartmentKind::Custom => FmtModel { custom: b, ..m },
    }
}

/// Whether all six buffers are well formed.
pub open spec fn fmt_wf(m: FmtModel) -> bool {
    &&& bm_wf(m.undefined)
    &&& bm_wf(m.soma)
    &&& bm_wf(m.axon)
    &&& bm_wf(m.dendrite)
    &&& bm_wf(m.apicaldendrite)
    &&& bm_wf(m.custom)
}

/// The total visible length of the six buffers, in characters.
pub open spec fn fmt_len(m: FmtModel) -> nat {
    bm_len(m.undefined) + bm_len(m.soma) + bm_len(m.axon) + bm_len(m.dendrite) + bm_len(
        m.apicaldendrite,
    ) + bm_len(m.custom)
}

/// The descriptive header seeded into a kind's buffer.
pub open spec fn header(kind: SWCCompartmentKind) -> Seq<char> {
    "/* Configuration for "@ + kind_label(kind) + " vertices. */"@
}

/// A kind's buffer as created: header comment weakly pushed, then a
/// line break, so that the buffer stays invisible until a vertex of the
/// kind arrives.
pub open spec fn seeded_buffer(kind: SWCCompartmentKind, leading_newline: bool, indent: Indent) -> BufModel {
    bm_newline(
        bm_weak_push(
            bm_new(leading_newline, indent.first as nat, indent.main as nat),
            header(kind),
        ),
    )
}

/// A fresh formatter: all six buffers seeded with their headers.
pub open spec fn fmt_new(leading_newline: bool, indent: Indent) -> FmtModel {
    FmtModel {
        undefined: seeded_buffer(SWCCompartmentKind::Undefined, leading_newline, indent),
        soma: seeded_buffer(SWCCompartmentKind::Soma, leading_newline, indent),
        axon: seeded_buffer(SWCCompartmentKind::Axon, leading_newline, indent),
        dendrite: seeded_buffer(SWCCompartmentKind::Dendrite, leading_newline, indent),
        apicaldendrite: seeded_buffer(
            SWCCompartmentKind::ApicalDendrite,
            leading_newline,
            indent,
        ),
        custom: seeded_buffer(SWCCompartmentKind::Custom, leading_newline, indent),
    }
}

/// Pretty formatting of `Vertex` attributes in DOT language: one
/// word-wrapping buffer per compartment kind, so that all vertices of a
/// kind are grouped under that kind's style block.
pub struct VertexConfigFormatter {
    undefined: StringBuffer,
    soma: StringBuffer,
    axon: StringBuffer,
    dendrite: StringBuffer,
    apicaldendrite: StringBuffer,
    custom: StringBuffer,
}

impl View for VertexConfigFormatter {
    type V = FmtModel;

    closed spec fn view(&self) -> FmtModel {
        FmtModel {
            undefined: self.undefined@,
            soma: self.soma@,
            axon: self.axon@,
            dendrite: self.dendrite@,
            apicaldendrite: self.apicaldendrite@,
            custom: self.custom@,
        }
    }
}

/// Allocate and seed the buffer of one kind with its descriptive
/// header.
fn make_seeded_buffer(kind: SWCCompartmentKind, leading_newline: bool, indent: Indent, capacity: usize) -> (r: StringBuffer)
    requires
        indent_ok(indent),
    ensures
        r@ == seeded_buffer(kind, leading_newline, indent),
        bm_wf(r@),
{
    let mut buf = StringBuffer::new(leading_newline, indent, capacity);
    let mut head = String::from_str("/* Configuration for ");
    let label = kind.label();
    head.append(label.as_str());
    head.append(" vertices. */");
    proof {
        assert(head@ =~= header(kind));
    }
    buf.weak_push_str(head.as_str());
    buf.newline();
    buf
}

impl VertexConfigFormatter {
    /// Create a formatter with a seeded buffer for every kind.
    pub fn new(leading_newline: bool, indent: Indent, capacity: usize) -> (r: VertexConfigFormatter)
        requires
            indent_ok(indent),
        ensures
            r@ == fmt_new(leading_newline, indent),
            fmt_wf(r@),
    {
        VertexConfigFormatter {
            undefined: make_seeded_buffer(
                SWCCompartmentKind::Undefined,
                leading_newline,
                indent,
                capacity,
            ),
            soma: make_seeded_buffer(SWCCompartmentKind::Soma, leading_newline, indent, capacity),
            axon: make_seeded_buffer(SWCCompartmentKind::Axon, leading_newline, indent, capacity),
            dendrite: make_seeded_buffer(
                SWCCompartmentKind::Dendrite,
                leading_newline,
                indent,
                capacity,
            ),
            apicaldendrite: make_seeded_buffer(
                SWCCompartmentKind::ApicalDendrite,
                leading_newline,
                indent,
                capacity,
            ),
            custom: make_seeded_buffer(
                SWCCompartmentKind::Custom,
                leading_newline,
                indent,
                capacity,
            ),
        }
    }

    /// Push `string` into the buffer of `vertex_kind`, marking that
    /// buffer as holding real content.
    pub fn push_config_str(&mut self, vertex_kind: SWCCompartmentKind, string: &str)
        requires
            fmt_wf(old(self)@),
        ensures
            final(self)@ == fmt_set(
                old(self)@,
                vertex_kind,
                bm_push(fmt_get(old(self)@, vertex_kind), string@),
            ),
            fmt_wf(final(self)@),
    {
        match vertex_kind {
            SWCCompartmentKind::Undefined => self.undefined.push_str(string),
            SWCCompartmentKind::Soma => self.soma.push_str(string),
            SWCCompartmentKind::Axon => self.axon.push_str(string),
            SWCCompartmentKind::Dendrite => self.dendrite.push_str(string),
            SWCCompartmentKind::ApicalDendrite => self.apicaldendrite.push_str(string),
            SWCCompartmentKind::Custom => self.custom.push_str(string),
        }
    }

    /// Add an optional component to the buffer of `vertex_kind` without
    /// marking it as holding real content.
    ///
    /// Buffers that only ever receive such optional content are left out
    /// of the rendering entirely.
    pub fn weak_push_config_str(&mut self, vertex_kind: SWCCompartmentKind, string: &str)
        requires
            fmt_wf(old(self)@),
        ensures
            final(self)@ == fmt_set(
                old(self)@,
                vertex_kind,
                bm_weak_push(fmt_get(old(self)@, vertex_kind), string@),
            ),
            fmt_wf(final(self)@),
    {
        match vertex_kind {
            SWCCompartmentKind::Undefined => self.undefined.weak_push_str(string),
            SWCCompartmentKind::Soma => self.soma.weak_push_str(string),
            SWCCompartmentKind::Axon => self.axon.weak_push_str(string),
            SWCCompartmentKind::Dendrite => self.dendrite.weak_push_str(string),
            SWCCompartmentKind::ApicalDendrite => self.apicaldendrite.weak_push_str(string),
            SWCCompartmentKind::Custom => self.custom.weak_push_str(string),
        }
    }

    /// The total visible length of all buffers, saturating at the
    /// machine limit.
    pub fn len(&self) -> (r: usize)
        ensures
            r <= fmt_len(self@),
            fmt_len(self@) <= usize::MAX ==> r == fmt_len(self@),
    {
        let mut total = saturating_add(self.undefined.len(), self.soma.len());
        total = saturating_add(total, self.axon.len());
        total = saturating_add(total, self.dendrite.len());
        total = saturating_add(total, self.apicaldendrite.len());
        total = saturating_add(total, self.custom.len());
        total
    }
}

/// `a + b`, saturating at the machine limit.
fn saturating_add(a: usize, b: usize) -> (r: usize)
    ensures
        r <= a + b,
        a + b <= usize::MAX ==> r == a + b,
{
    if a > usize::MAX - b {
        usize::MAX
    } else {
        a + b
    }
}

/// The accumulated document after one kind's block: a buffer with real
/// content is wrapped in `{` / `}` on their own lines; an untouched
/// buffer contributes nothing at all.
pub open spec fn fmt_block(acc: BufModel, b: BufModel) -> BufModel {
    if bm_len(b) > 0 {
        bm_push(bm_newline(bm_push(bm_push(bm_newline(acc), "{"@), bm_contents(b))), "}"@)
    } else {
        acc
    }
}

/// The rendering of a formatter: the blocks of the six kinds in their
/// fixed enumeration order, each wrapped in braces, kinds without real
/// content suppressed entirely.
pub open spec fn fmt_dot(m: FmtModel, leading_newline: bool, indent: Indent) -> Seq<char> {
    let acc0 = bm_new(leading_newline, indent.first as nat, indent.main as nat);
    let acc1 = fmt_block(acc0, m.undefined);
    let acc2 = fmt_block(acc1, m.soma);
    let acc3 = fmt_block(acc2, m.axon);
    let acc4 = fmt_block(acc3, m.dendrite);
    let acc5 = fmt_block(acc4, m.apicaldendrite);
    let acc6 = fmt_block(acc5, m.custom);
    bm_contents(acc6)
}

impl ToDot for VertexConfigFormatter {
    open spec fn dot_ok(&self, leading_newline: bool, indent: Indent) -> bool {
        indent_ok(indent) && fmt_wf(self@)
    }

    open spec fn dot_spec(&self, leading_newline: bool, indent: Indent) -> Seq<char> {
        fmt_dot(self@, leading_newline, indent)
    }

    /// Get the node configuration in DOT language: one brace-wrapped
    /// block per kind that holds real content, in the fixed kind order.
    fn to_dot(&self, leading_newline: bool, indent: Indent) -> (r: String) {
        let mut full_config_string = StringBuffer::new(leading_newline, indent, 64);

        if self.undefined.len() > 0 {
            full_config_string.newline();
            full_config_string.push_str("{");
            full_config_string.push_str(self.undefined.as_str());
            full_config_string.newline();
            full_config_string.push_str("}");
        }
        if self.soma.len() > 0 {
            full_config_string.newline();
            full_config_string.push_str("{");
            full_config_string.push_str(self.soma.as_str());
            full_config_string.newline();
            full_config_string.push_str("}");
        }
        if self.axon.len() > 0 {
            full_config_string.newline();
            full_config_string.push_str("{");
            full_config_string.push_str(self.axon.as_str());
            full_config_string.newline();
            full_config_string.push_str("}");
        }
        if self.dendrite.len() > 0 {
            full_config_string.newline();
            full_config_string.push_str("{");
            full_config_string.push_str(self.dendrite.as_str());
            full_config_string.newline();
            full_config_string.push_str("}");
        }
        if self.apicaldendrite.len() > 0 {
            full_config_string.newline();
            full_config_string.push_str("{");
            full_config_string.push_str(self.apicaldendrite.as_str());
            full_config_string.newline();
            full_config_string.push_str("}");
        }
        if self.custom.len() > 0 {
            full_config_string.newline();
            full_config_string.push_str("{");
            full_config_string.push_str(self.custom.as_str());
            full_config_string.newline();
            full_config_string.push_str("}");
        }

        full_config_string.to_string()
    }
}

/// Get a configured `String` representation of an object in DOT format.
///
/// # See also
///
/// - `ToDot` trait
pub trait ConfiguredToDot {
    /// When the object can be rendered at the given indent.
    spec fn dot_ok(&self, leading_newline: bool, indent: Indent, config: &Config) -> bool;

    /// The exact text of the rendering.
    spec fn dot_spec(&self, leading_newline: bool, indent: Indent, config: &Config) -> Seq<char>;

    /// Render the object, merging the given style configuration.
    fn to_dot(&self, leading_newline: bool, indent: Indent, config: &Config) -> (r: String)
        requires
            self.dot_ok(leading_newline, indent, config),
        ensures
            r@ == self.dot_spec(leading_newline, indent, config),
    ;
}

/// The node-declaration token of one vertex, as pushed into its kind's
/// buffer.
pub open spec fn vertex_tok(v: VertexModel) -> Seq<char> {
    vertex_dot(v.data.id, false, Indent { first: 0, main: 0 })
}

/// A kind's buffer after its style line and a trailing space are
/// weakly pushed.
pub open spec fn style_buf(b: BufModel, g: Seq<EntryModel>) -> BufModel {
    bm_weak_push(bm_weak_push(b, group_dot(g, false, Indent { first: 0, main: 0 })), " "@)
}

/// The formatter after every kind's style line is weakly pushed.
pub open spec fn fmt_style_seed(m: FmtModel, cfg: ConfigModel) -> FmtModel {
    FmtModel {
        undefined: style_buf(m.undefined, cfg.undefined),
        soma: style_buf(m.soma, cfg.soma),
        axon: style_buf(m.axon, cfg.axon),
        dendrite: style_buf(m.dendrite, cfg.dendrite),
        apicaldendrite: style_buf(m.apicaldendrite, cfg.apicaldendrite),
        custom: style_buf(m.custom, cfg.custom),
    }
}

/// The formatter after the node declarations of all vertices of `vs`
/// are pushed into their kinds' buffers, in order.
pub open spec fn fmt_fill(m: FmtModel, vs: Seq<VertexModel>) -> FmtModel
    decreases vs.len(),
{
    if vs.len() == 0 {
        m
    } else {
        let mp = fmt_fill(m, vs.drop_last());
        let v = vs.last();
        fmt_set(mp, v.data.kind, bm_push(fmt_get(mp, v.data.kind), vertex_tok(v)))
    }
}

/// The edge statements of all vertices of `vs`, in order, each on its
/// own line at the given indent; childless vertices contribute nothing.
pub open spec fn edges_text(vs: Seq<VertexModel>, indent: Indent) -> Seq<char>
    decreases vs.len(),
{
    if vs.len() == 0 {
        Seq::empty()
    } else {
        edges_text(vs.drop_last(), indent) + short_tree_dot(
            vs.last().data.id,
            vs.last().children,
            true,
            indent,
        )
    }
}

/// The complete DOT document of a graph: the `graph{` header, the
/// per-kind style blocks holding the node declarations, the edge
/// statements, and the closing brace.
pub open spec fn graph_dot(g: Seq<VertexModel>, cfg: ConfigModel, indent: Indent) -> Seq<char> {
    let inner = Indent {
        first: (indent.main + 1) as u8,
        main: (indent.main + 1) as u8,
    };
    let block_indent = Indent {
        first: (indent.main + 2) as u8,
        main: (indent.main + 2) as u8,
    };
    "graph{"@ + fmt_dot(fmt_fill(fmt_style_seed(fmt_new(true, block_indent), cfg), g), false, inner)
        + edges_text(g, inner) + "\n}"@
}

impl ConfiguredToDot for Graph {
    open spec fn dot_ok(&self, leading_newline: bool, indent: Indent, config: &Config) -> bool {
        indent.main <= 18
    }

    open spec fn dot_spec(&self, leading_newline: bool, indent: Indent, config: &Config) -> Seq<
        char,
    > {
        graph_dot(self@, config@, indent)
    }

    /// Render the whole graph as a DOT document: a `graph{` header, one
    /// style block per kind that has vertices (each holding the kind's
    /// style line and its vertex declarations), the edge statements in
    /// ascending identifier order, and a closing brace.
    #[verifier::rlimit(100)]
    fn to_dot(&self, _leading_newline: bool, indent: Indent, config: &Config) -> (r: String) {
        let inner = Indent::flat(indent.main + 1);
        let block_indent = Indent::flat(indent.main + 2);

        let mut graph_string = String::from_str("graph{");

        // Node configuration: seed each kind's buffer with its style
        // line, invisibly until real vertices arrive.
        let mut buffers = VertexConfigFormatter::new(true, block_indent, 256);
        let style = config.get_config(SWCCompartmentKind::Undefined).to_dot(false, Indent::zero());
        buffers.weak_push_config_str(SWCCompartmentKind::Undefined, style.as_str());
        buffers.weak_push_config_str(SWCCompartmentKind::Undefined, " ");
        let style = config.get_config(SWCCompartmentKind::Soma).to_dot(false, Indent::zero());
        buffers.weak_push_config_str(SWCCompartmentKind::Soma, style.as_str());
        buffers.weak_push_config_str(SWCCompartmentKind::Soma, " ");
        let style = config.get_config(SWCCompartmentKind::Axon).to_dot(false, Indent::zero());
        buffers.weak_push_config_str(SWCCompartmentKind::Axon, style.as_str());
        buffers.weak_push_config_str(SWCCompartmentKind::Axon, " ");
        let style = config.get_config(SWCCompartmentKind::Dendrite).to_dot(false, Indent::zero());
        buffers.weak_push_config_str(SWCCompartmentKind::Dendrite, style.as_str());
        buffers.weak_push_config_str(SWCCompartmentKind::Dendrite, " ");
        let style = config.get_config(SWCCompartmentKind::ApicalDendrite).to_dot(
            false,
            Indent::zero(),
        );
        buffers.weak_push_config_str(SWCCompartmentKind::ApicalDendrite, style.as_str());
        buffers.weak_push_config_str(SWCCompartmentKind::ApicalDendrite, " ");
        let style = config.get_config(SWCCompartmentKind::Custom).to_dot(false, Indent::zero());
        buffers.weak_push_config_str(SWCCompartmentKind::Custom, style.as_str());
        buffers.weak_push_config_str(SWCCompartmentKind::Custom, " ");
        let ghost seeded = buffers@;
        proof {
            assert(seeded == fmt_style_seed(fmt_new(true, block_indent), config@));
        }

        let mut i: usize = 0;
        while i < self.len()
            invariant
                0 <= i <= self@.len(),
                fmt_wf(buffers@),
                buffers@ == fmt_fill(seeded, self@.take(i as int)),
            decreases self@.len() - i,
        {
            let vertex = self.get_vertex(i);
            let decl = vertex.to_dot(false, Indent::zero());
            buffers.push_config_str(vertex.get_kind(), decl.as_str());
            i = i + 1;
            proof {
                assert(self@.take(i as int).drop_last() =~= self@.take(i - 1));
                assert(self@.take(i as int).last() == self@[i - 1]);
            }
        }
        proof {
            assert(self@.take(self@.len() as int) =~= self@);
        }

        let config_text = buffers.to_dot(false, inner);
        graph_string.append(config_text.as_str());

        // Write edges.
        let ghost filled = buffers@;
        let mut trees = self.iter_short_trees();
        loop
            invariant_except_break
                trees.trees@.len() == self@.len(),
                forall|t: int|
                    0 <= t < self@.len() ==> (#[trigger] trees.trees@[t]@).root_id
                        == self@[t].data.id && trees.trees@[t]@.child_ids == self@[t].children,
                0 <= trees.ptr <= self@.len(),
                indent_ok(inner),
                inner.first == indent.main + 1 && inner.main == indent.main + 1,
                graph_string@ == "graph{"@ + fmt_dot(
                    fmt_fill(fmt_style_seed(fmt_new(true, block_indent), config@), self@),
                    false,
                    inner,
                ) + edges_text(self@.take(trees.ptr as int), inner),
            ensures
                graph_string@ == "graph{"@ + fmt_dot(
                    fmt_fill(fmt_style_seed(fmt_new(true, block_indent), config@), self@),
                    false,
                    inner,
                ) + edges_text(self@, inner),
            decreases self@.len() - trees.ptr,
        {
            let ghost ptr_before = trees.ptr as int;
            match trees.next() {
                Some(tree) => {
                    let edge = tree.to_dot(true, inner);
                    graph_string.append(edge.as_str());
                    proof {
                        assert(self@.take(ptr_before + 1).drop_last() =~= self@.take(ptr_before));
                        assert(self@.take(ptr_before + 1).last() == self@[ptr_before]);
                    }
                },
                None => {
                    proof {
                        assert(self@.take(trees.ptr as int) =~= self@);
                    }
                    break ;
                },
            }
        }

        graph_string.append("\n}");
        graph_string
    }
}

proof fn lemma_fmt_fill_other_kind(m: FmtModel, vs: Seq<VertexModel>, kind: SWCCompartmentKind)
    requires
        forall|t: int| 0 <= t < vs.len() ==> (#[trigger] vs[t]).data.kind != kind,
    ensures
        fmt_get(fmt_fill(m, vs), kind) == fmt_get(m, kind),
    decreases vs.len(),
{
    if vs.len() > 0 {
        lemma_fmt_fill_other_kind(m, vs.drop_last(), kind);
    }
}

/// Buffer transitions only append: the text after an operation extends
/// the text before it.
proof fn lemma_bm_push_extends(m: BufModel, s: Seq<char>)
    ensures
        bm_weak_push(m, s).text.len() >= m.text.len() + s.len(),
        bm_weak_push(m, s).text.subrange(0, m.text.len() as int) == m.text,
        bm_push(m, s).text.len() >= m.text.len() + s.len(),
        bm_push(m, s).text.subrange(0, m.text.len() as int) == m.text,
        bm_push(m, s).written,
        bm_weak_push(m, s).written == m.written,
        bm_newline(m).text.len() > m.text.len(),
        bm_newline(m).written == m.written,
{
    assert(bm_weak_push(m, s).text.subrange(0, m.text.len() as int) =~= m.text);
    assert(bm_push(m, s).text.subrange(0, m.text.len() as int) =~= m.text);
}

/// The seeded, style-line-carrying buffer of any kind holds text but is
/// not yet marked as real content.
proof fn lemma_seeded_style_state(cfg: ConfigModel, kind: SWCCompartmentKind, indent: Indent)
    ensures
        fmt_get(fmt_style_seed(fmt_new(true, indent), cfg), kind).text.len() >= 1,
        !fmt_get(fmt_style_seed(fmt_new(true, indent), cfg), kind).written,
{
    let n0 = bm_new(true, indent.first as nat, indent.main as nat);
    assert(n0.text.len() >= 1);
    let w1 = bm_weak_push(n0, header(kind));
    lemma_bm_push_extends(n0, header(kind));
    let sb = bm_newline(w1);
    lemma_bm_push_extends(w1, Seq::<char>::empty());
    assert(sb == seeded_buffer(kind, true, indent));
    let g = config_group(cfg, kind);
    let s1 = bm_weak_push(sb, group_dot(g, false, Indent { first: 0, main: 0 }));
    lemma_bm_push_extends(sb, group_dot(g, false, Indent { first: 0, main: 0 }));
    let s2 = bm_weak_push(s1, " "@);
    lemma_bm_push_extends(s1, " "@);
    assert(fmt_get(fmt_style_seed(fmt_new(true, indent), cfg), kind) == s2);
}

proof fn lemma_fmt_fill_grows(m: FmtModel, vs: Seq<VertexModel>, kind: SWCCompartmentKind)
    ensures
        fmt_get(fmt_fill(m, vs), kind).text.len() >= fmt_get(m, kind).text.len(),
        fmt_get(m, kind).written ==> fmt_get(fmt_fill(m, vs), kind).written,
    decreases vs.len(),
{
    if vs.len() > 0 {
        lemma_fmt_fill_grows(m, vs.drop_last(), kind);
        let v = vs.last();
        if v.data.kind == kind {
            lemma_bm_push_extends(fmt_get(fmt_fill(m, vs.drop_last()), kind), vertex_tok(v));
        }
    }
}

/// A kind without vertices is suppressed entirely: its buffer never
/// receives real content, so its style block contributes nothing to the
/// rendered document.
pub proof fn lemma_category_block_suppressed(
    g: Seq<VertexModel>,
    cfg: ConfigModel,
    kind: SWCCompartmentKind,
    leading_newline: bool,
    indent: Indent,
)
    requires
        forall|t: int| 0 <= t < g.len() ==> (#[trigger] g[t]).data.kind != kind,
    ensures
        bm_len(
            fmt_get(fmt_fill(fmt_style_seed(fmt_new(leading_newline, indent), cfg), g), kind),
        ) == 0,
        forall|acc: BufModel|
            #[trigger] fmt_block(
                acc,
                fmt_get(fmt_fill(fmt_style_seed(fmt_new(leading_newline, indent), cfg), g), kind),
            ) == acc,
{
    let seeded = fmt_style_seed(fmt_new(leading_newline, indent), cfg);
    lemma_fmt_fill_other_kind(seeded, g, kind);
    assert(!fmt_get(seeded, kind).written);
}

/// A kind with at least one vertex is always rendered: its buffer holds
/// real content (the seeded header comment, the style line and the node
/// declarations), so its style block appears in the document.
proof fn lemma_fmt_fill_keeps_prefix(
    m: FmtModel,
    vs: Seq<VertexModel>,
    kind: SWCCompartmentKind,
)
    ensures
        fmt_get(fmt_fill(m, vs), kind).text.len() >= fmt_get(m, kind).text.len(),
        fmt_get(fmt_fill(m, vs), kind).text.subrange(0, fmt_get(m, kind).text.len() as int)
            == fmt_get(m, kind).text,
    decreases vs.len(),
{
    if vs.len() == 0 {
        assert(fmt_get(m, kind).text.subrange(0, fmt_get(m, kind).text.len() as int) =~= fmt_get(
            m,
            kind,
        ).text);
    } else {
        lemma_fmt_fill_keeps_prefix(m, vs.drop_last(), kind);
        let mid = fmt_get(fmt_fill(m, vs.drop_last()), kind);
        let v = vs.last();
        let fin = fmt_get(fmt_fill(m, vs), kind);
        if v.data.kind == kind {
            lemma_bm_push_extends(mid, vertex_tok(v));
        }
        assert(fin.text.subrange(0, fmt_get(m, kind).text.len() as int) =~= fmt_get(
            m,
            kind,
        ).text);
    }
}

proof fn lemma_prefix_keeps_subrange(a: Seq<char>, b: Seq<char>, off: int, len: int)
    requires
        b.len() >= a.len(),
        b.subrange(0, a.len() as int) == a,
        0 <= off,
        0 <= len,
        off + len <= a.len(),
    ensures
        b.subrange(off, off + len) == a.subrange(off, off + len),
{
    assert forall|j: int| 0 <= j < len implies #[trigger] b.subrange(off, off + len)[j]
        == a.subrange(off, off + len)[j] by {
        assert(b.subrange(0, a.len() as int)[off + j] == a[off + j]);
    }
    assert(b.subrange(off, off + len) =~= a.subrange(off, off + len));
}

#[verifier::rlimit(100)]
proof fn lemma_seeded_header_at(cfg: ConfigModel, kind: SWCCompartmentKind, indent: Indent)
    requires
        indent.first <= indent.main,
    ensures
        ({
            let sd = fmt_get(fmt_style_seed(fmt_new(true, indent), cfg), kind);
            let off = 1 + 4 * (indent.first as int);
            &&& off + header(kind).len() <= sd.text.len()
            &&& sd.text.subrange(off, off + header(kind).len()) == header(kind)
        }),
{
    let off = 1 + 4 * (indent.first as int);
    let hl = header(kind).len() as int;
    let n0 = bm_new(true, indent.first as nat, indent.main as nat);
    assert(n0.text.len() == off);
    // The cursor sits at the start of a fresh line, so the header is
    // appended in place, directly after the leading indentation.
    let w1 = bm_weak_push(n0, header(kind));
    assert(w1.text.subrange(off, off + hl) =~= header(kind));
    assert(w1.text.len() >= off + hl);
    let sb = bm_newline(w1);
    assert(sb.text.subrange(0, w1.text.len() as int) =~= w1.text);
    lemma_prefix_keeps_subrange(w1.text, sb.text, off, hl);
    let gq = config_group(cfg, kind);
    let s1 = bm_weak_push(sb, group_dot(gq, false, Indent { first: 0, main: 0 }));
    lemma_bm_push_extends(sb, group_dot(gq, false, Indent { first: 0, main: 0 }));
    lemma_prefix_keeps_subrange(sb.text, s1.text, off, hl);
    let s2 = bm_weak_push(s1, " "@);
    lemma_bm_push_extends(s1, " "@);
    lemma_prefix_keeps_subrange(s1.text, s2.text, off, hl);
    assert(fmt_get(fmt_style_seed(fmt_new(true, indent), cfg), kind) == s2);
}

/// In a rendered block, the kind's header comment stands verbatim right
/// after the buffer's leading newline and first-line indentation: the
/// block of a kind with vertices always carries its header.
#[verifier::rlimit(100)]
pub proof fn lemma_category_header_in_block(
    g: Seq<VertexModel>,
    cfg: ConfigModel,
    kind: SWCCompartmentKind,
    indent: Indent,
)
    requires
        exists|t: int| 0 <= t < g.len() && (#[trigger] g[t]).data.kind == kind,
        indent.first <= indent.main,
    ensures
        ({
            let b = fmt_get(fmt_fill(fmt_style_seed(fmt_new(true, indent), cfg), g), kind);
            let off = 1 + 4 * (indent.first as int);
            &&& off + header(kind).len() <= bm_contents(b).len()
            &&& bm_contents(b).subrange(off, off + header(kind).len()) == header(kind)
        }),
{
    let seeded = fmt_get(fmt_style_seed(fmt_new(true, indent), cfg), kind);
    let b = fmt_get(fmt_fill(fmt_style_seed(fmt_new(true, indent), cfg), g), kind);
    let off = 1 + 4 * (indent.first as int);
    let hl = header(kind).len() as int;

    lemma_seeded_header_at(cfg, kind, indent);

    // Filling only appends, so the header stays where it was seeded.
    lemma_fmt_fill_keeps_prefix(fmt_style_seed(fmt_new(true, indent), cfg), g, kind);
    lemma_prefix_keeps_subrange(seeded.text, b.text, off, hl);

    // The block holds real content, so its contents are its text.
    lemma_category_block_present(g, cfg, kind, indent);
    assert(b.written);
}

#[verifier::rlimit(100)]
pub proof fn lemma_category_block_present(
    g: Seq<VertexModel>,
    cfg: ConfigModel,
    kind: SWCCompartmentKind,
    indent: Indent,
)
    requires
        exists|t: int| 0 <= t < g.len() && (#[trigger] g[t]).data.kind == kind,
    ensures
        bm_len(fmt_get(fmt_fill(fmt_style_seed(fmt_new(true, indent), cfg), g), kind)) > 0,
    decreases g.len(),
{
    let seeded = fmt_style_seed(fmt_new(true, indent), cfg);
    let t = choose|t: int| 0 <= t < g.len() && (#[trigger] g[t]).data.kind == kind;
    lemma_seeded_style_state(cfg, kind, indent);
    if t == g.len() - 1 {
        let mp = fmt_fill(seeded, g.drop_last());
        lemma_fmt_fill_grows(seeded, g.drop_last(), kind);
        lemma_bm_push_extends(fmt_get(mp, kind), vertex_tok(g.last()));
    } else {
        assert(0 <= t < g.drop_last().len() && g.drop_last()[t].data.kind == kind);
        lemma_category_block_present(g.drop_last(), cfg, kind, indent);
        let mp = fmt_fill(seeded, g.drop_last());
        let v = g.last();
        if v.data.kind == kind {
            lemma_bm_push_extends(fmt_get(mp, kind), vertex_tok(v));
        }
    }
}

} // verus!

//! Reading a text into the tree.
use super::outside;
use super::outside::{complaint, extent, is_made_of, reading, shebang, spelling, Opened, Part};
use super::tree::Node;
use crate::parse::source_file::{too_deep, BOM};
use crate::text;
use crate::text::byte_len;
use syn::File;
use vstd::prelude::*;

verus! {

/// How many constructs deep a tree can be, which is deeper than any that fits in memory.
pub const DEPTH: u64 = 18_446_744_073_709_551_615;

/// An offset behind the bytes that are set aside in front of the text.
pub open spec fn behind(base: usize, offset: usize) -> usize {
    if base + offset <= usize::MAX {
        (base + offset) as usize
    } else {
        usize::MAX
    }
}

/// Where in the text a construct begins and ends; nowhere in particular for a construct that has no
/// use for it.
pub open spec fn place(part: Part, base: usize) -> (usize, usize) {
    match part {
        Part::Expr(_)
        | Part::Pat(_)
        | Part::Type(_)
        | Part::Block(_)
        | Part::Stmt(_)
        | Part::Path(_)
        | Part::Macro(_)
        | Part::FieldValue(_)
        | Part::Attribute(_)
        | Part::Token(_)
        | Part::Name(_)
        | Part::Dots(_) => (behind(base, extent(part).0), behind(base, extent(part).1)),
        _ => (0, 0),
    }
}

/// The text of a construct that is a word.
pub open spec fn wording(part: Part) -> Seq<char> {
    match part {
        Part::Word(word) => word@,
        Part::Name(name) => spelling(name),
        _ => Seq::empty(),
    }
}

/// Whether a node is what a construct is lowered to, looking no further than `depth` constructs
/// down.
pub open spec fn is_lowered(part: Part, node: Node, base: usize, depth: nat) -> bool
    decreases depth,
{
    &&& (node.start, node.end) == place(part, base)
    &&& node.text@ == wording(part)
    &&& exists|opened: Opened| #[trigger] is_made_of(part, opened) && {
        &&& node.kind == opened.kind
        &&& if depth == 0 {
            node.attrs@.len() == 0 && node.kids@.len() == 0
        } else {
            &&& node.attrs@.len() == opened.attrs@.len()
            &&& node.kids@.len() == opened.parts@.len()
            &&& forall|i: int|
                0 <= i < node.attrs@.len() ==> is_lowered(Part::Attribute(opened.attrs@[i]), #[trigger] node.attrs@[i], base, (depth - 1) as nat)
            &&& forall|i: int| 0 <= i < node.kids@.len() ==> is_lowered(opened.parts@[i], #[trigger] node.kids@[i], base, (depth - 1) as nat)
        }
    }
}

/// Where in the text a construct begins and ends.
fn place_of(part: &Part, base: usize) -> (r: (usize, usize))
    ensures
        r == place(*part, base),
{
    let (start, end) = match part {
        Part::Expr(_)
        | Part::Pat(_)
        | Part::Type(_)
        | Part::Block(_)
        | Part::Stmt(_)
        | Part::Path(_)
        | Part::Macro(_)
        | Part::FieldValue(_) => outside::span_of_construct(part),
        Part::Attribute(_) | Part::Token(_) | Part::Name(_) | Part::Dots(_) => outside::span_of_token(part),
        _ => return (0, 0),
    };
    (base.saturating_add(start), base.saturating_add(end))
}

/// The text of a construct that is a word.
fn wording_of(part: &Part) -> (r: String)
    ensures
        r@ == wording(*part),
{
    match part {
        Part::Word(word) => text::owned(word.as_str()),
        Part::Name(name) => outside::spell(name),
        _ => String::new(),
    }
}

/// Lowers a construct.
pub(crate) fn lower(part: Part, base: usize, depth: u64) -> (node: Node)
    ensures
        is_lowered(part, node, base, depth as nat),
    decreases depth, 1nat,
{
    let (start, end) = place_of(&part, base);
    let text = wording_of(&part);
    let opened = outside::open(part);
    let ghost made = opened;
    let kind = opened.kind;
    if depth == 0 {
        let node = Node { kind, start, end, text, attrs: Vec::new(), kids: Vec::new() };
        assert(is_made_of(part, made));
        return node;
    }
    let attrs = lower_attributes(opened.attrs, base, depth - 1);
    let kids = lower_parts(opened.parts, base, depth - 1);
    let node = Node { kind, start, end, text, attrs, kids };
    assert(is_made_of(part, made));
    node
}

/// Lowers the attributes of a construct.
fn lower_attributes(attrs: Vec<syn::Attribute>, base: usize, depth: u64) -> (nodes: Vec<Node>)
    ensures
        nodes@.len() == attrs@.len(),
        forall|i: int| 0 <= i < nodes@.len() ==> is_lowered(Part::Attribute(attrs@[i]), #[trigger] nodes@[i], base, depth as nat),
    decreases depth, 2nat,
{
    let mut nodes: Vec<Node> = Vec::new();
    let ghost all = attrs@;
    for attr in it: attrs
        invariant
            it.seq() == all,
            nodes@.len() == it.index(),
            forall|i: int| 0 <= i < nodes@.len() ==> is_lowered(Part::Attribute(all[i]), #[trigger] nodes@[i], base, depth as nat),
    {
        nodes.push(lower(Part::Attribute(attr), base, depth));
    }
    nodes
}

/// Lowers the parts of a construct.
fn lower_parts(parts: Vec<Part>, base: usize, depth: u64) -> (nodes: Vec<Node>)
    ensures
        nodes@.len() == parts@.len(),
        forall|i: int| 0 <= i < nodes@.len() ==> is_lowered(parts@[i], #[trigger] nodes@[i], base, depth as nat),
    decreases depth, 2nat,
{
    let mut nodes: Vec<Node> = Vec::new();
    let ghost all = parts@;
    for part in it: parts
        invariant
            it.seq() == all,
            nodes@.len() == it.index(),
            forall|i: int| 0 <= i < nodes@.len() ==> is_lowered(all[i], #[trigger] nodes@[i], base, depth as nat),
    {
        nodes.push(lower(part, base, depth));
    }
    nodes
}

/// How many bytes in front of a text are set aside before it is read: a byte-order mark, and a first
/// line that names an interpreter.
pub open spec fn set_aside(text: Seq<char>, file: File) -> usize {
    if text.len() > 0 && text[0] == BOM {
        behind(3, shebang(file))
    } else {
        shebang(file)
    }
}

/// Whether a tree is the one that a text is read as.
pub open spec fn is_tree_of(text: Seq<char>, tree: Node) -> bool {
    reading(text) matches Ok(file) && is_lowered(Part::File(file), tree, set_aside(text, file), DEPTH as nat)
}

/// Why a text is not read: the line, counted from one, the column, counted from zero, and what is
/// wrong there.
#[derive(Debug)]
pub struct Refusal {
    pub line: usize,
    pub column: usize,
    pub message: String,
}

/// Reads a text into the tree it is, or says why it is none.
pub fn read(text: &str) -> (r: Result<Node, Refusal>)
    requires
        byte_len(text@) < u32::MAX,
        !too_deep(text@),
    ensures
        match reading(text@) {
            Ok(file) => r matches Ok(tree) && is_tree_of(text@, tree),
            Err(error) => r matches Err(refusal) && (refusal.line, refusal.column, refusal.message@) == complaint(error),
        },
{
    match outside::parse_file(text) {
        Ok(file) => {
            let line: usize = outside::shebang_of(&file);
            let base: usize = if text::strip_first(text, BOM).is_some() {
                line.saturating_add(3)
            } else {
                line
            };
            Ok(lower(Part::File(file), base, DEPTH))
        },
        Err(error) => {
            let (line, column, message) = outside::fault(&error);
            Err(Refusal { line, column, message })
        },
    }
}

} // verus!

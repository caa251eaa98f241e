//! The symbol tree side panel: the document's symbols as a tree whose nodes
//! fold and unfold, shown as the list of the unfolded part, with a cursor.
use vstd::prelude::*;
use crate::text::{extend_str, slice_chars, string_of};

verus! {

broadcast use vstd::std_specs::vec::group_vec_axioms;

/// The identifier of the symbol tree among the editor's layers.
pub const SYMBOL_TREE_ID: &'static str = "symbol-tree";

/// A position in a document, as a language server gives it.
#[derive(Debug, Clone, Copy, PartialEq, Eq, Structural)]
pub struct LspPosition {
    pub line: u32,
    pub character: u32,
}

/// A range in a document, as a language server gives it.
#[derive(Debug, Clone, Copy, PartialEq, Eq, Structural)]
pub struct LspRange {
    pub start: LspPosition,
    pub end: LspPosition,
}

/// The kind of a symbol: the number a language server gives it.
#[derive(Debug, Clone, Copy, PartialEq, Eq, Structural)]
pub struct SymbolKind(pub i32);

/// How a language server counts characters in a line.
#[derive(Debug, Clone, Copy, PartialEq, Eq, Structural)]
pub enum OffsetEncoding {
    Utf8,
    Utf16,
    Utf32,
}

/// A symbol of a document with its nested symbols, as a language server
/// reports it.
#[derive(Debug)]
pub struct DocumentSymbol {
    pub name: String,
    pub kind: SymbolKind,
    pub range: LspRange,
    pub selection_range: LspRange,
    pub children: Option<Vec<DocumentSymbol>>,
}

/// A symbol without nesting, as a language server reports it.
#[derive(Debug)]
pub struct SymbolInformation {
    pub name: String,
    pub kind: SymbolKind,
    /// The range of the symbol's location.
    pub range: LspRange,
}

/// A language server's answer to a request for a document's symbols.
#[derive(Debug)]
pub enum DocumentSymbolResponse {
    Flat(Vec<SymbolInformation>),
    Nested(Vec<DocumentSymbol>),
}

/// A node of the symbol tree.
#[derive(Debug)]
pub struct SymbolTreeNode {
    /// The symbol name.
    pub name: String,
    /// Symbol kind (function, class, method, ...).
    pub kind: SymbolKind,
    /// The range enclosing the symbol.
    pub range: LspRange,
    /// The range to select when going to the symbol.
    pub selection_range: LspRange,
    /// The path of the document that holds the symbol.
    pub uri: String,
    /// Offset encoding of the language server.
    pub offset_encoding: OffsetEncoding,
    /// Nested symbols.
    pub children: Vec<SymbolTreeNode>,
    /// Whether the node is unfolded.
    pub expanded: bool,
}

/// The node's own fields are those of the symbol, and it is unfolded.
pub open spec fn fields_converted(sym: DocumentSymbol, node: SymbolTreeNode, uri: Seq<char>, enc: OffsetEncoding) -> bool {
    &&& node.name@ == sym.name@
    &&& node.kind == sym.kind
    &&& node.range == sym.range
    &&& node.selection_range == sym.selection_range
    &&& node.uri@ == uri
    &&& node.offset_encoding == enc
    &&& node.expanded
}

/// `node` is `sym` turned into a tree node of the document `uri`: same name,
/// kind and ranges, unfolded, with its nested symbols turned likewise.
pub open spec fn converted(sym: DocumentSymbol, node: SymbolTreeNode, uri: Seq<char>, enc: OffsetEncoding) -> bool
    decreases sym, 1nat,
{
    &&& fields_converted(sym, node, uri, enc)
    &&& match sym.children {
        Some(cs) => all_converted(cs@, node.children@, uri, enc),
        None => node.children@.len() == 0,
    }
}

/// Each node is the symbol at its position turned into a tree node.
pub open spec fn all_converted(syms: Seq<DocumentSymbol>, nodes: Seq<SymbolTreeNode>, uri: Seq<char>, enc: OffsetEncoding) -> bool
    decreases syms, 0nat,
{
    if syms.len() == 0 {
        nodes.len() == 0
    } else {
        &&& nodes.len() == syms.len()
        &&& all_converted(syms.drop_last(), nodes.drop_last(), uri, enc)
        &&& converted(syms.last(), nodes.last(), uri, enc)
    }
}

impl SymbolTreeNode {
    /// The tree node of a document symbol, unfolded, with its nested symbols.
    pub fn from_document_symbol(symbol: DocumentSymbol, uri: String, offset_encoding: OffsetEncoding) -> (r: Self)
        ensures
            converted(symbol, r, uri@, offset_encoding),
        decreases symbol,
    {
        let ghost sym = symbol;
        let DocumentSymbol { name, kind, range, selection_range, children } = symbol;
        let mut nodes: Vec<SymbolTreeNode> = Vec::new();
        let ghost csv = match sym.children {
            Some(c) => c@,
            None => Seq::<DocumentSymbol>::empty(),
        };
        match children {
            Some(cs) => {
                assert(csv.len() == cs.len());
                let mut rest = cs;
                let mut i: usize = 0;
                assert(csv.skip(0) == csv);
                while rest.len() > 0
                    invariant
                        i <= csv.len(),
                        csv.len() <= usize::MAX,
                        rest@ == csv.skip(i as int),
                        sym.children == Some(cs_of(sym)),
                        sym == symbol,
                        csv == cs_of(sym)@,
                        all_converted(csv.take(i as int), nodes@, uri@, offset_encoding),
                    decreases rest.len(),
                {
                    let c = rest.remove(0);
                    proof {
                        assert(c == csv[i as int]);
                        assert(rest@ == csv.skip(i + 1));
                        let v = cs_of(sym);
                        assert(decreases_to!(sym => sym.children));
                        assert(decreases_to!(sym.children => sym.children->0));
        assert(sym.children->0 == v);
                        assert(decreases_to!(v => v@));
                        assert(decreases_to!(v@ => v@[i as int]));
                        assert(decreases_to!(sym => c));
                        assert(decreases_to!(symbol => c));
                    }
                    let n = Self::from_document_symbol(c, uri.clone(), offset_encoding);
                    let ghost before = nodes@;
                    nodes.push(n);
                    proof {
                        assert(csv.take(i + 1).drop_last() == csv.take(i as int));
                        assert(csv.take(i + 1).last() == c);
                        assert(nodes@.drop_last() == before);
                        lemma_all_converted_len(csv.take(i as int), before, uri@, offset_encoding);
                    }
                    i = i + 1;
                }
                assert(csv.take(i as int) == csv);
            },
            None => {},
        }
        assert(all_converted(csv, nodes@, uri@, offset_encoding));
        let ghost uv = uri@;
        let ghost nodes_view = nodes@;
        let r = SymbolTreeNode {
            name,
            kind,
            range,
            selection_range,
            uri,
            offset_encoding,
            children: nodes,
            expanded: true,
        };
        assert(r.children@ == nodes_view);
        assert(r.name@ == sym.name@);
        assert(r.uri@ == uv);
        assert(fields_converted(sym, r, uv, offset_encoding));
        assert(converted(sym, r, uv, offset_encoding));
        r
    }

    /// The node has nested symbols.
    pub fn has_children(&self) -> (r: bool)
        ensures
            r == (self.children@.len() > 0),
    {
        self.children.len() > 0
    }
}

proof fn lemma_all_converted_len(syms: Seq<DocumentSymbol>, nodes: Seq<SymbolTreeNode>, uri: Seq<char>, enc: OffsetEncoding)
    requires
        all_converted(syms, nodes, uri, enc),
    ensures
        nodes.len() == syms.len(),
{
}

/// The nested symbols of a symbol that has some.
pub open spec fn cs_of(sym: DocumentSymbol) -> Vec<DocumentSymbol> {
    sym.children->0
}


/// A node's row and, where it is unfolded, the rows of its descendants, in
/// order; each row is the node's index path and the node.
pub open spec fn node_rows(node: SymbolTreeNode, path: Seq<usize>) -> Seq<(Seq<usize>, SymbolTreeNode)>
    decreases node, 1nat, 0nat,
{
    seq![(path, node)] + if node.expanded {
        list_rows(node.children@, path, node.children@.len())
    } else {
        Seq::empty()
    }
}

/// The rows of the first `n` nodes of a list whose parent has index path
/// `parent`.
pub open spec fn list_rows(nodes: Seq<SymbolTreeNode>, parent: Seq<usize>, n: nat) -> Seq<(Seq<usize>, SymbolTreeNode)>
    decreases nodes, 0nat, n,
{
    if n == 0 || n > nodes.len() {
        Seq::empty()
    } else {
        list_rows(nodes, parent, (n - 1) as nat) + node_rows(nodes[n - 1], parent.push((n - 1) as usize))
    }
}

/// The rows shown for a forest of root symbols.
pub open spec fn tree_rows(roots: Seq<SymbolTreeNode>) -> Seq<(Seq<usize>, SymbolTreeNode)> {
    list_rows(roots, Seq::empty(), roots.len())
}

/// A shown row of the tree, with what it shows.
#[derive(Debug)]
pub struct FlattenedNode {
    /// Index path to the node in the tree.
    pub path: Vec<usize>,
    /// Depth in the tree, for indentation.
    pub depth: usize,
    /// Whether the node has children.
    pub has_children: bool,
    /// Whether the node is unfolded.
    pub is_expanded: bool,
    /// The symbol name.
    pub name: String,
    /// Symbol kind.
    pub kind: SymbolKind,
    /// The path of the document, for going to the symbol.
    pub uri: String,
    /// Full range enclosing the symbol.
    pub range: LspRange,
    /// Range to select when going to the symbol.
    pub selection_range: LspRange,
    /// Offset encoding.
    pub offset_encoding: OffsetEncoding,
}

/// `f` shows row `row`.
pub open spec fn shows(f: FlattenedNode, row: (Seq<usize>, SymbolTreeNode)) -> bool {
    &&& f.path@ == row.0
    &&& row.0.len() > 0
    &&& f.depth == row.0.len() - 1
    &&& f.has_children == (row.1.children@.len() > 0)
    &&& f.is_expanded == row.1.expanded
    &&& f.name@ == row.1.name@
    &&& f.kind == row.1.kind
    &&& f.uri@ == row.1.uri@
    &&& f.range == row.1.range
    &&& f.selection_range == row.1.selection_range
    &&& f.offset_encoding == row.1.offset_encoding
}

/// The shown rows are exactly `rows`, in order.
pub open spec fn shows_all(fs: Seq<FlattenedNode>, rows: Seq<(Seq<usize>, SymbolTreeNode)>) -> bool {
    &&& fs.len() == rows.len()
    &&& forall|k: int| 0 <= k < fs.len() ==> shows(#[trigger] fs[k], rows[k])
}

fn clone_path(p: &Vec<usize>) -> (r: Vec<usize>)
    ensures
        r@ == p@,
{
    let mut r: Vec<usize> = Vec::new();
    let mut i: usize = 0;
    while i < p.len()
        invariant
            i <= p.len(),
            r@ == p@.take(i as int),
        decreases p.len() - i,
    {
        r.push(p[i]);
        i = i + 1;
        assert(p@.take(i as int) == p@.take((i - 1) as int).push(p@[i - 1]));
    }
    assert(p@.take(p.len() as int) == p@);
    r
}

/// Appends the rows of `node`, at index path `path`, to `out`.
fn flatten_node(out: &mut Vec<FlattenedNode>, node: &SymbolTreeNode, path: Vec<usize>)
    requires
        path@.len() > 0,
    ensures
        final(out)@.len() == old(out)@.len() + node_rows(*node, path@).len(),
        forall|k: int| 0 <= k < old(out)@.len() ==> #[trigger] final(out)@[k] == old(out)@[k],
        forall|k: int|
            old(out)@.len() <= k < final(out)@.len() ==> shows(#[trigger] final(out)@[k], node_rows(*node, path@)[k - old(out)@.len()]),
    decreases *node,
{
    let ghost start = out@;
    let depth = path.len() - 1;
    let row = FlattenedNode {
        path: clone_path(&path),
        depth,
        has_children: node.children.len() > 0,
        is_expanded: node.expanded,
        name: node.name.clone(),
        kind: node.kind,
        uri: node.uri.clone(),
        range: node.range,
        selection_range: node.selection_range,
        offset_encoding: node.offset_encoding,
    };
    out.push(row);
    let ghost rows = node_rows(*node, path@);
    assert(rows[0] == (path@, *node));
    if node.expanded {
        let ghost after_head = out@;
        let mut i: usize = 0;
        while i < node.children.len()
            invariant
                i <= node.children@.len(),
                path@.len() > 0,
                after_head.len() == start.len() + 1,
                forall|k: int| 0 <= k < after_head.len() ==> #[trigger] after_head[k] == if k < start.len() { start[k] } else { after_head[k] },
                out@.len() == after_head.len() + list_rows(node.children@, path@, i as nat).len(),
                forall|k: int| 0 <= k < after_head.len() ==> #[trigger] out@[k] == after_head[k],
                forall|k: int|
                    after_head.len() <= k < out@.len() ==> shows(#[trigger] out@[k], list_rows(node.children@, path@, i as nat)[k - after_head.len()]),
            decreases node.children.len() - i,
        {
            let mut child_path = clone_path(&path);
            child_path.push(i);
            let ghost before = out@;
            proof {
                assert(decreases_to!(*node => node.children));
                assert(decreases_to!(node.children => node.children@));
                assert(decreases_to!(node.children@ => node.children@[i as int]));
            }
            flatten_node(out, &node.children[i], child_path);
            proof {
                let prev = list_rows(node.children@, path@, i as nat);
                let added = node_rows(node.children@[i as int], path@.push(i));
                assert(list_rows(node.children@, path@, (i + 1) as nat) == prev + added);
                assert forall|k: int| after_head.len() <= k < out@.len() implies shows(
                    #[trigger] out@[k],
                    list_rows(node.children@, path@, (i + 1) as nat)[k - after_head.len()],
                ) by {
                    if k < before.len() {
                        assert(out@[k] == before[k]);
                    }
                }
            }
            i = i + 1;
        }
        proof {
            assert(rows == seq![(path@, *node)] + list_rows(node.children@, path@, node.children@.len()));
            assert forall|k: int| start.len() <= k < out@.len() implies shows(#[trigger] out@[k], rows[k - start.len()]) by {
                if k == start.len() {
                    assert(out@[k] == after_head[k]);
                }
            }
        }
    } else {
        assert(rows == seq![(path@, *node)]);
    }
}


/// `node` is the flat symbol `sym` turned into a tree node of the document
/// `uri`: a leaf, unfolded, whose selection range is the symbol's range.
pub open spec fn flat_converted(sym: SymbolInformation, node: SymbolTreeNode, uri: Seq<char>, enc: OffsetEncoding) -> bool {
    &&& node.name@ == sym.name@
    &&& node.kind == sym.kind
    &&& node.range == sym.range
    &&& node.selection_range == sym.range
    &&& node.uri@ == uri
    &&& node.offset_encoding == enc
    &&& node.children@.len() == 0
    &&& node.expanded
}

/// The roots of the symbol tree of a language server's answer: nested
/// symbols keep their nesting, flat ones become leaves.
pub fn build_symbol_tree(response: DocumentSymbolResponse, uri: String, offset_encoding: OffsetEncoding) -> (r: Vec<SymbolTreeNode>)
    ensures
        match response {
            DocumentSymbolResponse::Nested(syms) => all_converted(syms@, r@, uri@, offset_encoding),
            DocumentSymbolResponse::Flat(syms) => {
                &&& r@.len() == syms@.len()
                &&& forall|i: int| 0 <= i < r@.len() ==> flat_converted(syms@[i], #[trigger] r@[i], uri@, offset_encoding)
            },
        },
{
    let mut nodes: Vec<SymbolTreeNode> = Vec::new();
    match response {
        DocumentSymbolResponse::Nested(syms) => {
            let ghost all = syms@;
            assert(all.len() == syms.len());
            let mut rest = syms;
            let mut i: usize = 0;
            assert(all.skip(0) == all);
            while rest.len() > 0
                invariant
                    i <= all.len(),
                    all.len() <= usize::MAX,
                    rest@ == all.skip(i as int),
                    all_converted(all.take(i as int), nodes@, uri@, offset_encoding),
                decreases rest.len(),
            {
                let c = rest.remove(0);
                assert(c == all[i as int]);
                assert(rest@ == all.skip(i + 1));
                let n = SymbolTreeNode::from_document_symbol(c, uri.clone(), offset_encoding);
                let ghost before = nodes@;
                nodes.push(n);
                proof {
                    assert(all.take(i + 1).drop_last() == all.take(i as int));
                    assert(all.take(i + 1).last() == c);
                    assert(nodes@.drop_last() == before);
                    lemma_all_converted_len(all.take(i as int), before, uri@, offset_encoding);
                }
                i = i + 1;
            }
            assert(all.take(i as int) == all);
        },
        DocumentSymbolResponse::Flat(syms) => {
            let ghost all = syms@;
            assert(all.len() == syms.len());
            let mut rest = syms;
            let mut i: usize = 0;
            assert(all.skip(0) == all);
            while rest.len() > 0
                invariant
                    i <= all.len(),
                    all.len() <= usize::MAX,
                    rest@ == all.skip(i as int),
                    nodes@.len() == i,
                    forall|k: int| 0 <= k < i ==> flat_converted(all[k], #[trigger] nodes@[k], uri@, offset_encoding),
                decreases rest.len(),
            {
                let s = rest.remove(0);
                assert(s == all[i as int]);
                assert(rest@ == all.skip(i + 1));
                let SymbolInformation { name, kind, range } = s;
                nodes.push(SymbolTreeNode {
                    name,
                    kind,
                    range,
                    selection_range: range,
                    uri: uri.clone(),
                    offset_encoding,
                    children: Vec::new(),
                    expanded: true,
                });
                i = i + 1;
            }
        },
    }
    nodes
}

/// The short label of a symbol kind.
pub open spec fn kind_label(kind: SymbolKind) -> Seq<char> {
    let k = kind.0;
    if k == 1 { "fil"@ }
    else if k == 2 { "mod"@ }
    else if k == 3 { "ns"@ }
    else if k == 4 { "pkg"@ }
    else if k == 5 { "cls"@ }
    else if k == 6 { "mth"@ }
    else if k == 7 { "prp"@ }
    else if k == 8 { "fld"@ }
    else if k == 9 { "con"@ }
    else if k == 10 { "enm"@ }
    else if k == 11 { "ifc"@ }
    else if k == 12 { "fn"@ }
    else if k == 13 { "var"@ }
    else if k == 14 { "cst"@ }
    else if k == 15 { "str"@ }
    else if k == 16 { "num"@ }
    else if k == 17 { "bol"@ }
    else if k == 18 { "arr"@ }
    else if k == 19 { "obj"@ }
    else if k == 20 { "key"@ }
    else if k == 21 { "nul"@ }
    else if k == 22 { "enm"@ }
    else if k == 23 { "stc"@ }
    else if k == 24 { "evt"@ }
    else if k == 25 { "opr"@ }
    else if k == 26 { "typ"@ }
    else { "???"@ }
}

/// The short label shown before a symbol's name.
pub fn symbol_kind_str(kind: SymbolKind) -> (r: &'static str)
    ensures
        r@ == kind_label(kind),
{
    let k = kind.0;
    if k == 1 { "fil" }
    else if k == 2 { "mod" }
    else if k == 3 { "ns" }
    else if k == 4 { "pkg" }
    else if k == 5 { "cls" }
    else if k == 6 { "mth" }
    else if k == 7 { "prp" }
    else if k == 8 { "fld" }
    else if k == 9 { "con" }
    else if k == 10 { "enm" }
    else if k == 11 { "ifc" }
    else if k == 12 { "fn" }
    else if k == 13 { "var" }
    else if k == 14 { "cst" }
    else if k == 15 { "str" }
    else if k == 16 { "num" }
    else if k == 17 { "bol" }
    else if k == 18 { "arr" }
    else if k == 19 { "obj" }
    else if k == 20 { "key" }
    else if k == 21 { "nul" }
    else if k == 22 { "enm" }
    else if k == 23 { "stc" }
    else if k == 24 { "evt" }
    else if k == 25 { "opr" }
    else if k == 26 { "typ" }
    else { "???" }
}


/// A change to a node's fold flag.
#[derive(Debug, Clone, Copy, PartialEq, Eq, Structural)]
pub enum FoldChange {
    /// Unfold a folded node and fold an unfolded one.
    Flip,
    /// Set the flag to the given value.
    To(bool),
}

/// The fold flag after the change.
pub open spec fn changed_flag(change: FoldChange, expanded: bool) -> bool {
    match change {
        FoldChange::Flip => !expanded,
        FoldChange::To(b) => b,
    }
}

/// The symbol, document and encoding of two nodes agree.
pub open spec fn same_symbol(a: SymbolTreeNode, b: SymbolTreeNode) -> bool {
    &&& a.name@ == b.name@
    &&& a.kind == b.kind
    &&& a.range == b.range
    &&& a.selection_range == b.selection_range
    &&& a.uri@ == b.uri@
    &&& a.offset_encoding == b.offset_encoding
}

/// `new` is `old` with the change made to the node that `path` leads to from
/// `old` (the node itself where `path` is empty).
pub open spec fn node_changed(old: SymbolTreeNode, new: SymbolTreeNode, path: Seq<usize>, change: FoldChange) -> bool
    decreases path.len(), 1nat,
{
    &&& same_symbol(old, new)
    &&& if path.len() == 0 {
        &&& new.expanded == changed_flag(change, old.expanded)
        &&& new.children@ == old.children@
    } else {
        &&& new.expanded == old.expanded
        &&& list_changed(old.children@, new.children@, path, change)
    }
}

/// `new` is the list `old` with the change made to the node that the
/// non-empty `path` leads to; where no node is there, nothing changes.
pub open spec fn list_changed(old: Seq<SymbolTreeNode>, new: Seq<SymbolTreeNode>, path: Seq<usize>, change: FoldChange) -> bool
    decreases path.len(), 0nat,
{
    if path.len() == 0 || path[0] >= old.len() {
        new == old
    } else {
        &&& new.len() == old.len()
        &&& forall|j: int| 0 <= j < old.len() && j != path[0] ==> new[j] == old[j]
        &&& node_changed(old[path[0] as int], new[path[0] as int], path.drop_first(), change)
    }
}

/// Makes the change to the node that `path[at..]` leads to in `nodes`.
fn change_at(nodes: &mut Vec<SymbolTreeNode>, path: &Vec<usize>, at: usize, change: FoldChange)
    requires
        at < path@.len(),
    ensures
        list_changed(old(nodes)@, final(nodes)@, path@.skip(at as int), change),
    decreases path@.len() - at,
{
    let ghost p = path@.skip(at as int);
    assert(p[0] == path@[at as int]);
    let i = path[at];
    if i >= nodes.len() {
        return;
    }
    let ghost before = nodes@;
    let mut node = nodes.remove(i);
    let ghost old_node = node;
    if at == path.len() - 1 {
        node.expanded = match change {
            FoldChange::Flip => !node.expanded,
            FoldChange::To(b) => b,
        };
        assert(p.drop_first().len() == 0);
    } else {
        change_at(&mut node.children, path, at + 1, change);
        assert(p.drop_first() == path@.skip(at + 1));
    }
    nodes.insert(i, node);
    assert(nodes@ == before.update(i as int, node));
    assert(node_changed(old_node, node, p.drop_first(), change));
}

/// `new` is `old` with every fold flag set to `flag`.
pub open spec fn node_all_set(old: SymbolTreeNode, new: SymbolTreeNode, flag: bool) -> bool
    decreases old, 1nat,
{
    &&& same_symbol(old, new)
    &&& new.expanded == flag
    &&& list_all_set(old.children@, new.children@, flag)
}

/// Each node of `new` is the node of `old` at its position with every fold
/// flag set to `flag`.
pub open spec fn list_all_set(old: Seq<SymbolTreeNode>, new: Seq<SymbolTreeNode>, flag: bool) -> bool
    decreases old, 0nat,
{
    if old.len() == 0 {
        new.len() == 0
    } else {
        &&& new.len() == old.len()
        &&& list_all_set(old.drop_last(), new.drop_last(), flag)
        &&& node_all_set(old.last(), new.last(), flag)
    }
}

proof fn lemma_list_all_set_len(old: Seq<SymbolTreeNode>, new: Seq<SymbolTreeNode>, flag: bool)
    requires
        list_all_set(old, new, flag),
    ensures
        new.len() == old.len(),
{
}

/// Sets every fold flag of the node and its descendants to `flag`.
fn set_all_flags(node: &mut SymbolTreeNode, flag: bool)
    ensures
        node_all_set(*old(node), *final(node), flag),
    decreases *old(node), 1nat,
{
    node.expanded = flag;
    proof {
        assert(decreases_to!(*old(node) => old(node).children));
        assert(decreases_to!(old(node).children => old(node).children@));
    }
    set_list_flags(&mut node.children, flag);
}

/// Sets every fold flag of the nodes and their descendants to `flag`.
fn set_list_flags(nodes: &mut Vec<SymbolTreeNode>, flag: bool)
    ensures
        list_all_set(old(nodes)@, final(nodes)@, flag),
    decreases old(nodes)@, 0nat,
{
    let mut kids: Vec<SymbolTreeNode> = Vec::new();
    std::mem::swap(&mut kids, nodes);
    let ghost all = kids@;
    assert(all.len() == kids.len());
    let mut done: Vec<SymbolTreeNode> = Vec::new();
    let mut i: usize = 0;
    assert(all.skip(0) == all);
    while kids.len() > 0
        invariant
            i <= all.len(),
            all.len() <= usize::MAX,
            all == old(nodes)@,
            kids@ == all.skip(i as int),
            list_all_set(all.take(i as int), done@, flag),
        decreases kids.len(),
    {
        let mut c = kids.remove(0);
        proof {
            assert(c == all[i as int]);
            assert(kids@ == all.skip(i + 1));
            assert(decreases_to!(all => all[i as int]));
        }
        let ghost old_c = c;
        set_all_flags(&mut c, flag);
        let ghost before = done@;
        done.push(c);
        proof {
            assert(all.take(i + 1).drop_last() == all.take(i as int));
            assert(all.take(i + 1).last() == old_c);
            assert(done@.drop_last() == before);
            lemma_list_all_set_len(all.take(i as int), before, flag);
        }
        i = i + 1;
    }
    assert(all.take(i as int) == all);
    *nodes = done;
}

/// The symbol tree panel.
#[derive(Debug)]
pub struct SymbolTreeView {
    roots: Vec<SymbolTreeNode>,
    cursor: usize,
    doc_id: usize,
    flattened: Vec<FlattenedNode>,
    scroll_offset: usize,
    width: u16,
    render_right: bool,
}

/// What a symbol tree panel holds: its roots, the cursor row, the document,
/// the first shown row, its width and its side.
pub struct SymbolTreeState {
    pub roots: Seq<SymbolTreeNode>,
    pub cursor: nat,
    pub doc_id: usize,
    pub scroll_offset: nat,
    pub width: u16,
    pub render_right: bool,
}

impl View for SymbolTreeView {
    type V = SymbolTreeState;

    closed spec fn view(&self) -> SymbolTreeState {
        SymbolTreeState {
            roots: self.roots@,
            cursor: self.cursor as nat,
            doc_id: self.doc_id,
            scroll_offset: self.scroll_offset as nat,
            width: self.width,
            render_right: self.render_right,
        }
    }
}

/// The width a panel starts with.
pub const DEFAULT_TREE_WIDTH: u16 = 30;

/// The cursor kept within `n` rows: the last row where it went past them.
pub open spec fn clamp_cursor(cursor: nat, n: nat) -> nat {
    if n > 0 && cursor >= n { (n - 1) as nat } else { cursor }
}

/// Row `i` shows a symbol whose range holds the line.
pub open spec fn row_holds_line(rows: Seq<(Seq<usize>, SymbolTreeNode)>, i: int, line: u32) -> bool {
    &&& 0 <= i < rows.len()
    &&& rows[i].1.range.start.line <= line <= rows[i].1.range.end.line
}

/// The number of lines a row's range spans, less one.
pub open spec fn row_span(rows: Seq<(Seq<usize>, SymbolTreeNode)>, i: int) -> int {
    rows[i].1.range.end.line - rows[i].1.range.start.line
}

/// Row `i` is the deepest row that holds the line: its range is the
/// smallest of those that hold it, and the last one among equals.
pub open spec fn deepest_row(rows: Seq<(Seq<usize>, SymbolTreeNode)>, i: int, line: u32) -> bool {
    &&& row_holds_line(rows, i, line)
    &&& forall|j: int| #[trigger] row_holds_line(rows, j, line) ==> row_span(rows, i) <= row_span(rows, j)
    &&& forall|j: int| i < j && #[trigger] row_holds_line(rows, j, line) ==> row_span(rows, i) < row_span(rows, j)
}

/// At most one row is the deepest that holds a line.
pub proof fn law_deepest_row_unique(rows: Seq<(Seq<usize>, SymbolTreeNode)>, line: u32, i: int, j: int)
    requires
        deepest_row(rows, i, line),
        deepest_row(rows, j, line),
    ensures
        i == j,
{
    assert(row_holds_line(rows, i, line));
    assert(row_holds_line(rows, j, line));
}

/// The cursor row of a new panel: the deepest row that holds the line,
/// where there is a line and such a row; else the first row.
pub open spec fn start_cursor(rows: Seq<(Seq<usize>, SymbolTreeNode)>, cursor_line: Option<u32>, cursor: nat) -> bool {
    match cursor_line {
        Some(line) => if exists|j: int| #[trigger] row_holds_line(rows, j, line) {
            deepest_row(rows, cursor as int, line)
        } else {
            cursor == 0
        },
        None => cursor == 0,
    }
}

impl SymbolTreeView {
    /// The panel is consistent: its shown rows are those of its roots, and
    /// the cursor is on one of them (or 0 when there are none).
    pub closed spec fn wf(&self) -> bool {
        &&& shows_all(self.flattened@, tree_rows(self.roots@))
        &&& (self.cursor == 0 || self.cursor < self.flattened@.len())
    }

    /// The rows the panel shows: the unfolded part of its tree.
    pub open spec fn rows(&self) -> Seq<(Seq<usize>, SymbolTreeNode)> {
        tree_rows(self@.roots)
    }

    /// Recomputes the shown rows from the roots and keeps the cursor on them.
    fn rebuild_flattened(&mut self)
        requires
            old(self).cursor == 0 || tree_rows(old(self).roots@).len() > 0,
        ensures
            final(self).wf(),
            final(self)@ == (SymbolTreeState {
                cursor: clamp_cursor(old(self)@.cursor, tree_rows(old(self)@.roots).len()),
                ..old(self)@
            }),
    {
        let mut out: Vec<FlattenedNode> = Vec::new();
        let mut i: usize = 0;
        while i < self.roots.len()
            invariant
                i <= self.roots@.len(),
                self.roots@ == old(self).roots@,
                shows_all(out@, list_rows(self.roots@, Seq::empty(), i as nat)),
            decreases self.roots.len() - i,
        {
            let ghost before = out@;
            let mut path: Vec<usize> = Vec::new();
            path.push(i);
            flatten_node(&mut out, &self.roots[i], path);
            proof {
                let prev = list_rows(self.roots@, Seq::empty(), i as nat);
                let added = node_rows(self.roots@[i as int], Seq::<usize>::empty().push(i));
                assert(path@ == Seq::<usize>::empty().push(i));
                assert(list_rows(self.roots@, Seq::empty(), (i + 1) as nat) == prev + added);
                assert forall|k: int| 0 <= k < out@.len() implies shows(
                    #[trigger] out@[k],
                    list_rows(self.roots@, Seq::empty(), (i + 1) as nat)[k],
                ) by {
                    if k < before.len() {
                        assert(out@[k] == before[k]);
                    }
                }
            }
            i = i + 1;
        }
        self.flattened = out;
        if self.flattened.len() > 0 && self.cursor >= self.flattened.len() {
            self.cursor = self.flattened.len() - 1;
        }
    }

    /// A panel over the roots, with the cursor on the first row.
    pub fn new(roots: Vec<SymbolTreeNode>, doc_id: usize, render_right: bool) -> (r: Self)
        ensures
            r.wf(),
            r@ == (SymbolTreeState { roots: roots@, cursor: 0, doc_id, scroll_offset: 0, width: DEFAULT_TREE_WIDTH, render_right }),
    {
        Self::new_at_position(roots, doc_id, render_right, None)
    }

    /// A panel over the roots whose cursor is on the deepest symbol that
    /// holds `cursor_line`, where one does.
    pub fn new_at_position(roots: Vec<SymbolTreeNode>, doc_id: usize, render_right: bool, cursor_line: Option<u32>) -> (r: Self)
        ensures
            r.wf(),
            r@.roots == roots@,
            r@.doc_id == doc_id,
            r@.scroll_offset == 0,
            r@.width == DEFAULT_TREE_WIDTH,
            r@.render_right == render_right,
            start_cursor(tree_rows(roots@), cursor_line, r@.cursor),
    {
        let mut view = SymbolTreeView {
            roots,
            cursor: 0,
            doc_id,
            flattened: Vec::new(),
            scroll_offset: 0,
            width: DEFAULT_TREE_WIDTH,
            render_right,
        };
        view.rebuild_flattened();
        assert(view@.cursor == 0);
        assert(view.rows() == tree_rows(roots@));
        if let Some(line) = cursor_line {
            if let Some(idx) = view.find_deepest_symbol_at_line(line) {
                assert(row_holds_line(tree_rows(roots@), idx as int, line));
                view.cursor = idx;
                assert(view@.cursor == idx);
            }
        }
        view
    }

    /// The deepest shown row whose symbol's range holds the line: the one
    /// with the smallest range, the last among equals.
    pub fn find_deepest_symbol_at_line(&self, line: u32) -> (r: Option<usize>)
        requires
            self.wf(),
        ensures
            match r {
                Some(i) => deepest_row(self.rows(), i as int, line),
                None => forall|j: int| !(#[trigger] row_holds_line(self.rows(), j, line)),
            },
    {
        let ghost rows = tree_rows(self.roots@);
        let mut best: Option<(usize, u32)> = None;
        let mut idx: usize = 0;
        while idx < self.flattened.len()
            invariant
                self.wf(),
                rows == tree_rows(self.roots@),
                idx <= self.flattened@.len(),
                match best {
                    Some((b, size)) => {
                        &&& b < idx
                        &&& row_holds_line(rows, b as int, line)
                        &&& size == row_span(rows, b as int)
                        &&& forall|j: int| j < idx && #[trigger] row_holds_line(rows, j, line) ==> size <= row_span(rows, j)
                        &&& forall|j: int| b < j < idx && #[trigger] row_holds_line(rows, j, line) ==> size < row_span(rows, j)
                    },
                    None => forall|j: int| j < idx ==> !(#[trigger] row_holds_line(rows, j, line)),
                },
            decreases self.flattened.len() - idx,
        {
            let node = &self.flattened[idx];
            assert(shows(*node, rows[idx as int]));
            let start = node.range.start.line;
            let end = node.range.end.line;
            if line >= start && line <= end {
                let range_size = end - start;
                match best {
                    None => {
                        best = Some((idx, range_size));
                    },
                    Some((_, prev_size)) => {
                        if range_size <= prev_size {
                            best = Some((idx, range_size));
                        }
                    },
                }
            }
            idx = idx + 1;
        }
        match best {
            Some((b, _)) => Some(b),
            None => None,
        }
    }
}


/// Each of the first `n` nodes of a list gives at least one row.
proof fn lemma_list_rows_len(nodes: Seq<SymbolTreeNode>, parent: Seq<usize>, n: nat)
    requires
        n <= nodes.len(),
    ensures
        list_rows(nodes, parent, n).len() >= n,
    decreases n,
{
    if n > 0 {
        lemma_list_rows_len(nodes, parent, (n - 1) as nat);
        let last = node_rows(nodes[n - 1], parent.push((n - 1) as usize));
        assert(last.len() >= 1);
        assert(list_rows(nodes, parent, n) == list_rows(nodes, parent, (n - 1) as nat) + last);
    }
}

/// A change of fold flags keeps the number of roots.
proof fn lemma_list_changed_len(old: Seq<SymbolTreeNode>, new: Seq<SymbolTreeNode>, path: Seq<usize>, change: FoldChange)
    requires
        list_changed(old, new, path, change),
    ensures
        new.len() == old.len(),
{
}


/// `new` is `old` after the change to the node at `path` and the rebuild of
/// the shown rows, the cursor kept on them.
pub open spec fn state_after_change(old: SymbolTreeState, new: SymbolTreeState, path: Seq<usize>, change: FoldChange) -> bool {
    &&& list_changed(old.roots, new.roots, path, change)
    &&& new == (SymbolTreeState {
        roots: new.roots,
        cursor: clamp_cursor(old.cursor, tree_rows(new.roots).len()),
        ..old
    })
}

/// The first row whose index path is `path`.
pub open spec fn first_row_with_path(rows: Seq<(Seq<usize>, SymbolTreeNode)>, path: Seq<usize>, i: int) -> bool {
    &&& 0 <= i < rows.len()
    &&& rows[i].0 == path
    &&& forall|j: int| 0 <= j < i ==> (#[trigger] rows[j]).0 != path
}

/// The state after the cursor moves one row up.
pub open spec fn moved_up(old: SymbolTreeState) -> SymbolTreeState {
    SymbolTreeState { cursor: if old.cursor > 0 { (old.cursor - 1) as nat } else { old.cursor }, ..old }
}

/// The state after the cursor moves one row down.
pub open spec fn moved_down(old: SymbolTreeState) -> SymbolTreeState {
    SymbolTreeState { cursor: if old.cursor + 1 < tree_rows(old.roots).len() { old.cursor + 1 } else { old.cursor }, ..old }
}

/// The cursor row shows a node with children.
pub open spec fn on_parent_row(old: SymbolTreeState) -> bool {
    let rows = tree_rows(old.roots);
    old.cursor < rows.len() && rows[old.cursor as int].1.children@.len() > 0
}

/// `new` is `old` with the node of the cursor row folded where it was
/// unfolded and unfolded where it was folded, if it has children.
pub open spec fn toggled(old: SymbolTreeState, new: SymbolTreeState) -> bool {
    let rows = tree_rows(old.roots);
    if on_parent_row(old) {
        state_after_change(old, new, rows[old.cursor as int].0, FoldChange::Flip)
    } else {
        new == old
    }
}

/// `new` is `old` with the folded node of the cursor row unfolded, or the
/// cursor moved down from an unfolded one.
pub open spec fn expanded_at_cursor(old: SymbolTreeState, new: SymbolTreeState) -> bool {
    let rows = tree_rows(old.roots);
    if on_parent_row(old) {
        if !rows[old.cursor as int].1.expanded {
            state_after_change(old, new, rows[old.cursor as int].0, FoldChange::To(true))
        } else {
            new == moved_down(old)
        }
    } else {
        new == old
    }
}

/// `new` is `old` with the unfolded node of the cursor row folded, or the
/// cursor moved to the row of the parent.
pub open spec fn collapsed_or_up(old: SymbolTreeState, new: SymbolTreeState) -> bool {
    let rows = tree_rows(old.roots);
    let c = old.cursor;
    if on_parent_row(old) && rows[c as int].1.expanded {
        state_after_change(old, new, rows[c as int].0, FoldChange::To(false))
    } else if c < rows.len() && rows[c as int].0.len() > 1 {
        let parent = rows[c as int].0.drop_last();
        if exists|i: int| first_row_with_path(rows, parent, i) {
            first_row_with_path(rows, parent, new.cursor as int)
                && new == (SymbolTreeState { cursor: new.cursor, ..old })
        } else {
            new == old
        }
    } else {
        new == old
    }
}

impl SymbolTreeView {
    /// The cursor row; 0 when no row is shown.
    pub fn cursor_row(&self) -> (r: usize)
        ensures
            r == self@.cursor,
    {
        self.cursor
    }

    /// The shown rows.
    pub fn shown(&self) -> (r: &[FlattenedNode])
        requires
            self.wf(),
        ensures
            shows_all(r@, self.rows()),
    {
        self.flattened.as_slice()
    }

    /// The roots of the tree.
    pub fn roots(&self) -> (r: &[SymbolTreeNode])
        ensures
            r@ == self@.roots,
    {
        self.roots.as_slice()
    }

    /// Moves the cursor one row up, unless it is on the first row.
    pub fn move_up(&mut self)
        requires
            old(self).wf(),
        ensures
            final(self).wf(),
            final(self)@ == moved_up(old(self)@),
    {
        if self.cursor > 0 {
            self.cursor = self.cursor - 1;
        }
    }

    /// Moves the cursor one row down, unless it is on the last row.
    pub fn move_down(&mut self)
        requires
            old(self).wf(),
        ensures
            final(self).wf(),
            final(self)@ == moved_down(old(self)@),
    {
        if self.cursor < self.flattened.len() && self.cursor + 1 < self.flattened.len() {
            self.cursor = self.cursor + 1;
        }
    }

    /// Changes the fold flag of the node at `path` and rebuilds the rows.
    fn change_and_rebuild(&mut self, path: &Vec<usize>, change: FoldChange)
        requires
            old(self).wf(),
            path@.len() > 0,
        ensures
            final(self).wf(),
            state_after_change(old(self)@, final(self)@, path@, change),
    {
        proof {
            if self.cursor != 0 {
                assert(tree_rows(self.roots@).len() > 0);
                assert(self.roots@.len() > 0);
            }
        }
        let ghost old_roots = self.roots@;
        change_at(&mut self.roots, path, 0, change);
        assert(path@.skip(0) == path@);
        proof {
            lemma_list_changed_len(old_roots, self.roots@, path@, change);
            lemma_list_rows_len(self.roots@, Seq::empty(), self.roots@.len());
        }
        self.rebuild_flattened();
    }

    /// Folds an unfolded node with children at the cursor, and unfolds a
    /// folded one.
    pub fn toggle_current(&mut self)
        requires
            old(self).wf(),
        ensures
            final(self).wf(),
            toggled(old(self)@, final(self)@),
    {
        if self.cursor < self.flattened.len() {
            let ghost rows = self.rows();
            assert(shows(self.flattened@[self.cursor as int], rows[self.cursor as int]));
            if self.flattened[self.cursor].has_children {
                let path = clone_path(&self.flattened[self.cursor].path);
                self.change_and_rebuild(&path, FoldChange::Flip);
            }
        }
    }

    /// Unfolds a folded node with children at the cursor; on an unfolded one,
    /// moves to its first child.
    pub fn expand_current(&mut self)
        requires
            old(self).wf(),
        ensures
            final(self).wf(),
            expanded_at_cursor(old(self)@, final(self)@),
    {
        if self.cursor < self.flattened.len() {
            let ghost rows = self.rows();
            assert(shows(self.flattened@[self.cursor as int], rows[self.cursor as int]));
            let has_children = self.flattened[self.cursor].has_children;
            let is_expanded = self.flattened[self.cursor].is_expanded;
            if has_children && !is_expanded {
                let path = clone_path(&self.flattened[self.cursor].path);
                self.change_and_rebuild(&path, FoldChange::To(true));
            } else if has_children && is_expanded {
                self.move_down();
            }
        }
    }

    /// Folds an unfolded node with children at the cursor; elsewhere moves
    /// the cursor to the row of the parent, where the node has one.
    pub fn collapse_or_parent(&mut self)
        requires
            old(self).wf(),
        ensures
            final(self).wf(),
            collapsed_or_up(old(self)@, final(self)@),
    {
        if self.cursor < self.flattened.len() {
            let ghost rows = self.rows();
            assert(shows(self.flattened@[self.cursor as int], rows[self.cursor as int]));
            let has_children = self.flattened[self.cursor].has_children;
            let is_expanded = self.flattened[self.cursor].is_expanded;
            if has_children && is_expanded {
                let path = clone_path(&self.flattened[self.cursor].path);
                self.change_and_rebuild(&path, FoldChange::To(false));
            } else if self.flattened[self.cursor].path.len() > 1 {
                let path = clone_path(&self.flattened[self.cursor].path);
                let ghost parent = rows[self.cursor as int].0.drop_last();
                let n = path.len() - 1;
                let mut i: usize = 0;
                while i < self.flattened.len()
                    invariant
                        self.wf(),
                        rows == self.rows(),
                        self@ == old(self)@,
                        i <= self.flattened@.len(),
                        n == path@.len() - 1,
                        path@.drop_last() == parent,
                        old(self)@.cursor < rows.len(),
                        !(rows[old(self)@.cursor as int].1.children@.len() > 0 && rows[old(self)@.cursor as int].1.expanded),
                        rows[old(self)@.cursor as int].0.len() > 1,
                        parent == rows[old(self)@.cursor as int].0.drop_last(),
                        forall|j: int| 0 <= j < i ==> (#[trigger] rows[j]).0 != parent,
                    decreases self.flattened.len() - i,
                {
                    assert(shows(self.flattened@[i as int], rows[i as int]));
                    if path_is_prefix(&self.flattened[i].path, &path, n) {
                        assert(rows[i as int].0 == parent);
                        self.cursor = i;
                        assert(first_row_with_path(rows, parent, i as int));
                        return;
                    }
                    i = i + 1;
                }
            }
        }
    }
}

/// `p` is the first `n` entries of `q`.
fn path_is_prefix(p: &Vec<usize>, q: &Vec<usize>, n: usize) -> (r: bool)
    requires
        n <= q@.len(),
    ensures
        r == (p@ == q@.take(n as int)),
{
    if p.len() != n {
        return false;
    }
    let mut i: usize = 0;
    while i < n
        invariant
            i <= n,
            n <= q@.len(),
            p@.len() == n,
            forall|j: int| 0 <= j < i ==> p@[j] == q@[j],
        decreases n - i,
    {
        if p[i] != q[i] {
            assert(p@[i as int] != q@.take(n as int)[i as int]);
            return false;
        }
        i = i + 1;
    }
    assert(p@ == q@.take(n as int));
    true
}


/// A key or event that reaches the symbol tree panel.
#[derive(Debug, Clone, Copy, PartialEq, Eq, Structural)]
pub enum TreeInput {
    /// `j` or the down arrow.
    Down,
    /// `k` or the up arrow.
    Up,
    /// `h` or the left arrow.
    Left,
    /// `l` or the right arrow.
    Right,
    /// Tab.
    Tab,
    /// Enter.
    Enter,
    /// `z`, the start of a fold command.
    FoldPrefix,
    /// `q` or Escape.
    Close,
    /// The terminal was resized.
    Resize,
    /// Any other key or event.
    Other,
}

/// What the panel answers to an input.
#[derive(Debug, Clone, Copy, PartialEq, Eq, Structural)]
pub enum TreeResponse {
    /// The input was handled.
    Consumed,
    /// The input is not for the panel.
    Ignored,
    /// Go to the symbol of the cursor row.
    Jump,
    /// Close the panel.
    Close,
}

/// The state and answer after an input.
pub open spec fn after_input(old: SymbolTreeState, new: SymbolTreeState, input: TreeInput, r: TreeResponse) -> bool {
    match input {
        TreeInput::Down => new == moved_down(old) && r == TreeResponse::Consumed,
        TreeInput::Up => new == moved_up(old) && r == TreeResponse::Consumed,
        TreeInput::Left => collapsed_or_up(old, new) && r == TreeResponse::Consumed,
        TreeInput::Right => expanded_at_cursor(old, new) && r == TreeResponse::Consumed,
        TreeInput::Tab => if on_parent_row(old) {
            toggled(old, new) && r == TreeResponse::Consumed
        } else {
            new == old && r == TreeResponse::Ignored
        },
        TreeInput::Enter => new == old && r == TreeResponse::Jump,
        TreeInput::FoldPrefix => new == old && r == TreeResponse::Consumed,
        TreeInput::Close => new == old && r == TreeResponse::Close,
        TreeInput::Resize => new == old && r == TreeResponse::Consumed,
        TreeInput::Other => new == old && r == TreeResponse::Ignored,
    }
}

/// The first shown row after scrolling just enough to show the cursor row
/// in `height` rows.
pub open spec fn scrolled(cursor: nat, offset: nat, height: nat) -> nat {
    if cursor < offset {
        cursor
    } else if cursor >= offset + height {
        (cursor - height + 1) as nat
    } else {
        offset
    }
}

/// `depth` levels of indentation, two spaces each.
pub open spec fn indent_text(depth: nat) -> Seq<char>
    decreases depth,
{
    if depth == 0 { Seq::empty() } else { indent_text((depth - 1) as nat) + "  "@ }
}

/// The fold marker of a row: a triangle for a node with children.
pub open spec fn fold_marker(f: FlattenedNode) -> Seq<char> {
    if f.has_children {
        if f.is_expanded { "▼ "@ } else { "▶ "@ }
    } else {
        "  "@
    }
}

/// The text of a shown row: indentation, fold marker, kind label and name.
pub open spec fn row_text(f: FlattenedNode) -> Seq<char> {
    indent_text(f.depth as nat) + fold_marker(f) + kind_label(f.kind) + " "@ + f.name@
}

/// At most the first `n` characters of `s`.
pub open spec fn first_chars(s: Seq<char>, n: nat) -> Seq<char> {
    if n < s.len() { s.take(n as int) } else { s }
}

/// The text of a shown row, cut to `max_width` characters.
pub fn row_line(node: &FlattenedNode, max_width: usize) -> (r: String)
    ensures
        r@ == first_chars(row_text(*node), max_width as nat),
{
    let mut line: Vec<char> = Vec::new();
    let mut d: usize = 0;
    while d < node.depth
        invariant
            d <= node.depth,
            line@ == indent_text(d as nat),
        decreases node.depth - d,
    {
        extend_str(&mut line, "  ");
        d = d + 1;
    }
    if node.has_children {
        if node.is_expanded {
            extend_str(&mut line, "▼ ");
        } else {
            extend_str(&mut line, "▶ ");
        }
    } else {
        extend_str(&mut line, "  ");
    }
    extend_str(&mut line, symbol_kind_str(node.kind));
    extend_str(&mut line, " ");
    extend_str(&mut line, node.name.as_str());
    assert(line@ == row_text(*node));
    if max_width < line.len() {
        let cut = slice_chars(&line, 0, max_width);
        string_of(&cut)
    } else {
        string_of(&line)
    }
}

impl SymbolTreeView {
    /// Unfolds every node.
    pub fn expand_all(&mut self)
        requires
            old(self).wf(),
        ensures
            final(self).wf(),
            list_all_set(old(self)@.roots, final(self)@.roots, true),
            final(self)@ == (SymbolTreeState {
                roots: final(self)@.roots,
                cursor: clamp_cursor(old(self)@.cursor, tree_rows(final(self)@.roots).len()),
                ..old(self)@
            }),
    {
        self.set_every_flag(true);
    }

    /// Folds every node.
    pub fn collapse_all(&mut self)
        requires
            old(self).wf(),
        ensures
            final(self).wf(),
            list_all_set(old(self)@.roots, final(self)@.roots, false),
            final(self)@ == (SymbolTreeState {
                roots: final(self)@.roots,
                cursor: clamp_cursor(old(self)@.cursor, tree_rows(final(self)@.roots).len()),
                ..old(self)@
            }),
    {
        self.set_every_flag(false);
    }

    fn set_every_flag(&mut self, flag: bool)
        requires
            old(self).wf(),
        ensures
            final(self).wf(),
            list_all_set(old(self)@.roots, final(self)@.roots, flag),
            final(self)@ == (SymbolTreeState {
                roots: final(self)@.roots,
                cursor: clamp_cursor(old(self)@.cursor, tree_rows(final(self)@.roots).len()),
                ..old(self)@
            }),
    {
        proof {
            if self.cursor != 0 {
                assert(tree_rows(self.roots@).len() > 0);
                assert(self.roots@.len() > 0);
            }
        }
        let ghost old_roots = self.roots@;
        set_list_flags(&mut self.roots, flag);
        proof {
            lemma_list_all_set_len(old_roots, self.roots@, flag);
            lemma_list_rows_len(self.roots@, Seq::empty(), self.roots@.len());
        }
        self.rebuild_flattened();
    }

    /// The document, range to select and encoding of the cursor row's
    /// symbol, where a row is shown.
    pub fn current_location(&self) -> (r: Option<(String, LspRange, OffsetEncoding)>)
        requires
            self.wf(),
        ensures
            match r {
                Some((uri, range, enc)) => {
                    let row = self.rows()[self@.cursor as int].1;
                    &&& self@.cursor < self.rows().len()
                    &&& uri@ == row.uri@
                    &&& range == row.selection_range
                    &&& enc == row.offset_encoding
                },
                None => self@.cursor >= self.rows().len(),
            },
    {
        if self.cursor < self.flattened.len() {
            let node = &self.flattened[self.cursor];
            assert(shows(*node, self.rows()[self.cursor as int]));
            Some((node.uri.clone(), node.selection_range, node.offset_encoding))
        } else {
            None
        }
    }

    /// Scrolls just enough for the cursor row to be among the `visible_height`
    /// shown rows.
    pub fn scroll_to_cursor(&mut self, visible_height: usize)
        requires
            old(self).wf(),
        ensures
            final(self).wf(),
            final(self)@ == (SymbolTreeState {
                scroll_offset: scrolled(old(self)@.cursor, old(self)@.scroll_offset, visible_height as nat),
                ..old(self)@
            }),
    {
        if self.cursor < self.scroll_offset {
            self.scroll_offset = self.cursor;
        } else if self.cursor - self.scroll_offset >= visible_height {
            assert(self.cursor == 0 || self.cursor < self.flattened.len());
            self.scroll_offset = (self.cursor - visible_height) + 1;
        }
    }

    /// The first shown row.
    pub fn scroll_offset(&self) -> (r: usize)
        ensures
            r == self@.scroll_offset,
    {
        self.scroll_offset
    }

    /// The size the panel asks for in a viewport of (width, height): a third
    /// of the width (at most its own width) on the right, else a third of the
    /// height.
    pub fn required_size(&self, viewport: (u16, u16)) -> (r: Option<(u16, u16)>)
        ensures
            r == Some(if self@.render_right {
                ((if self@.width <= viewport.0 / 3 { self@.width } else { (viewport.0 / 3) as u16 }), viewport.1)
            } else {
                (viewport.0, (viewport.1 / 3) as u16)
            }),
    {
        if self.render_right {
            let third = viewport.0 / 3;
            let w = if self.width <= third { self.width } else { third };
            Some((w, viewport.1))
        } else {
            Some((viewport.0, viewport.1 / 3))
        }
    }

    /// Handles a key or event: moves, folds, unfolds, or asks to go to the
    /// symbol or to close the panel.
    pub fn handle_input(&mut self, input: TreeInput) -> (r: TreeResponse)
        requires
            old(self).wf(),
        ensures
            final(self).wf(),
            after_input(old(self)@, final(self)@, input, r),
    {
        match input {
            TreeInput::Down => {
                self.move_down();
                TreeResponse::Consumed
            },
            TreeInput::Up => {
                self.move_up();
                TreeResponse::Consumed
            },
            TreeInput::Left => {
                self.collapse_or_parent();
                TreeResponse::Consumed
            },
            TreeInput::Right => {
                self.expand_current();
                TreeResponse::Consumed
            },
            TreeInput::Tab => {
                let on_parent = self.cursor < self.flattened.len() && self.flattened[self.cursor].has_children;
                proof {
                    if self.cursor < self.flattened.len() {
                        assert(shows(self.flattened@[self.cursor as int], self.rows()[self.cursor as int]));
                    }
                }
                if on_parent {
                    self.toggle_current();
                    TreeResponse::Consumed
                } else {
                    TreeResponse::Ignored
                }
            },
            TreeInput::Enter => TreeResponse::Jump,
            TreeInput::FoldPrefix => TreeResponse::Consumed,
            TreeInput::Close => TreeResponse::Close,
            TreeInput::Resize => TreeResponse::Consumed,
            TreeInput::Other => TreeResponse::Ignored,
        }
    }
}


/// Two nodes agree in symbol, fold flag and, node by node, descendants.
pub open spec fn node_equiv(a: SymbolTreeNode, b: SymbolTreeNode) -> bool
    decreases a, 1nat,
{
    &&& same_symbol(a, b)
    &&& a.expanded == b.expanded
    &&& list_equiv(a.children@, b.children@)
}

/// Two lists of nodes agree node by node.
pub open spec fn list_equiv(a: Seq<SymbolTreeNode>, b: Seq<SymbolTreeNode>) -> bool
    decreases a, 0nat,
{
    if a.len() == 0 {
        b.len() == 0
    } else {
        &&& b.len() == a.len()
        &&& list_equiv(a.drop_last(), b.drop_last())
        &&& node_equiv(a.last(), b.last())
    }
}

proof fn lemma_node_equiv_refl(a: SymbolTreeNode)
    ensures
        node_equiv(a, a),
    decreases a, 1nat,
{
    assert(decreases_to!(a => a.children));
    assert(decreases_to!(a.children => a.children@));
    lemma_list_equiv_refl(a.children@);
}

proof fn lemma_list_equiv_refl(a: Seq<SymbolTreeNode>)
    ensures
        list_equiv(a, a),
    decreases a, 0nat,
{
    if a.len() > 0 {
        lemma_list_equiv_refl(a.drop_last());
        lemma_node_equiv_refl(a.last());
    }
}

proof fn lemma_list_equiv_pointwise(a: Seq<SymbolTreeNode>, b: Seq<SymbolTreeNode>)
    requires
        a.len() == b.len(),
        forall|i: int| 0 <= i < a.len() ==> node_equiv(#[trigger] a[i], b[i]),
    ensures
        list_equiv(a, b),
    decreases a.len(),
{
    if a.len() > 0 {
        assert forall|i: int| 0 <= i < a.drop_last().len() implies node_equiv(#[trigger] a.drop_last()[i], b.drop_last()[i]) by {
            assert(a.drop_last()[i] == a[i]);
            assert(b.drop_last()[i] == b[i]);
        }
        lemma_list_equiv_pointwise(a.drop_last(), b.drop_last());
        assert(node_equiv(a[a.len() - 1], b[a.len() - 1]));
    }
}

/// Flipping the fold flag of the node at a path twice gives back the tree
/// it started from.
pub proof fn law_flip_twice_restores(a: Seq<SymbolTreeNode>, b: Seq<SymbolTreeNode>, c: Seq<SymbolTreeNode>, path: Seq<usize>)
    requires
        list_changed(a, b, path, FoldChange::Flip),
        list_changed(b, c, path, FoldChange::Flip),
    ensures
        list_equiv(a, c),
    decreases path.len(),
{
    if path.len() == 0 || path[0] >= a.len() {
        lemma_list_equiv_refl(a);
    } else {
        let p = path[0] as int;
        let rest = path.drop_first();
        assert forall|i: int| 0 <= i < a.len() implies node_equiv(#[trigger] a[i], c[i]) by {
            if i != p {
                lemma_node_equiv_refl(a[i]);
            } else if rest.len() == 0 {
                assert(c[i].children@ == a[i].children@);
                lemma_list_equiv_refl(a[i].children@);
            } else {
                law_flip_twice_restores(a[i].children@, b[i].children@, c[i].children@, rest);
            }
        }
        lemma_list_equiv_pointwise(a, c);
    }
}

/// Once every node is folded, each root shows one row and nothing else.
pub proof fn law_collapsed_tree_shows_roots(old: Seq<SymbolTreeNode>, new: Seq<SymbolTreeNode>)
    requires
        list_all_set(old, new, false),
    ensures
        tree_rows(new).len() == new.len(),
        forall|i: int| 0 <= i < new.len() ==> #[trigger] tree_rows(new)[i] == (seq![i as usize], new[i]),
{
    lemma_all_set_flags(old, new, false);
    lemma_folded_rows(new, Seq::empty(), new.len());
}

proof fn lemma_all_set_flags(old: Seq<SymbolTreeNode>, new: Seq<SymbolTreeNode>, flag: bool)
    requires
        list_all_set(old, new, flag),
    ensures
        new.len() == old.len(),
        forall|i: int| 0 <= i < new.len() ==> (#[trigger] new[i]).expanded == flag,
    decreases old.len(),
{
    if old.len() > 0 {
        lemma_all_set_flags(old.drop_last(), new.drop_last(), flag);
        assert forall|i: int| 0 <= i < new.len() implies (#[trigger] new[i]).expanded == flag by {
            if i < new.len() - 1 {
                assert(new.drop_last()[i] == new[i]);
            } else {
                assert(node_all_set(old.last(), new.last(), flag));
            }
        }
    }
}

proof fn lemma_folded_rows(nodes: Seq<SymbolTreeNode>, parent: Seq<usize>, n: nat)
    requires
        n <= nodes.len(),
        forall|i: int| 0 <= i < nodes.len() ==> !(#[trigger] nodes[i]).expanded,
    ensures
        list_rows(nodes, parent, n).len() == n,
        forall|i: int| 0 <= i < n ==> #[trigger] list_rows(nodes, parent, n)[i] == (parent.push(i as usize), nodes[i]),
    decreases n,
{
    if n > 0 {
        lemma_folded_rows(nodes, parent, (n - 1) as nat);
        let last = node_rows(nodes[n - 1], parent.push((n - 1) as usize));
        assert(!nodes[n - 1].expanded);
        assert(last == seq![(parent.push((n - 1) as usize), nodes[n - 1])]);
        assert(list_rows(nodes, parent, n) == list_rows(nodes, parent, (n - 1) as nat) + last);
    }
}


/// The rows of the first `n` nodes of a list depend on those nodes alone.
proof fn lemma_list_rows_same_prefix(a: Seq<SymbolTreeNode>, b: Seq<SymbolTreeNode>, par: Seq<usize>, n: nat)
    requires
        n <= a.len(),
        n <= b.len(),
        forall|j: int| 0 <= j < n ==> a[j] == b[j],
    ensures
        list_rows(a, par, n) == list_rows(b, par, n),
    decreases n,
{
    if n > 0 {
        lemma_list_rows_same_prefix(a, b, par, (n - 1) as nat);
        assert(a[n - 1] == b[n - 1]);
    }
}

/// The rows of fewer nodes begin the rows of more.
proof fn lemma_list_rows_grow(ns: Seq<SymbolTreeNode>, par: Seq<usize>, m: nat, n: nat)
    requires
        m <= n <= ns.len(),
    ensures
        list_rows(ns, par, m).len() <= list_rows(ns, par, n).len(),
        forall|j: int| 0 <= j < list_rows(ns, par, m).len() ==> list_rows(ns, par, n)[j] == list_rows(ns, par, m)[j],
    decreases n,
{
    if m < n {
        lemma_list_rows_grow(ns, par, m, (n - 1) as nat);
        assert(list_rows(ns, par, n) == list_rows(ns, par, (n - 1) as nat) + node_rows(ns[n - 1], par.push((n - 1) as usize)));
    }
}

/// The rows of a node begin with its own, and every row's path extends the
/// node's path.
proof fn lemma_node_rows_paths(node: SymbolTreeNode, p: Seq<usize>)
    ensures
        node_rows(node, p).len() >= 1,
        node_rows(node, p)[0] == (p, node),
        forall|k: int| 0 <= k < node_rows(node, p).len() ==> {
            &&& (#[trigger] node_rows(node, p)[k]).0.len() >= p.len()
            &&& node_rows(node, p)[k].0.take(p.len() as int) == p
            &&& (k > 0 ==> node_rows(node, p)[k].0.len() > p.len())
        },
    decreases node, 1nat, 0nat,
{
    let rows = node_rows(node, p);
    if node.expanded {
        let kids = list_rows(node.children@, p, node.children@.len());
        assert(decreases_to!(node => node.children));
        assert(decreases_to!(node.children => node.children@));
        lemma_list_rows_paths(node.children@, p, node.children@.len());
        assert(rows == seq![(p, node)] + kids);
        assert forall|k: int| 0 <= k < rows.len() implies {
            &&& (#[trigger] rows[k]).0.len() >= p.len()
            &&& rows[k].0.take(p.len() as int) == p
            &&& (k > 0 ==> rows[k].0.len() > p.len())
        } by {
            if k == 0 {
                assert(rows[0].0.take(p.len() as int) == p);
            } else {
                assert(rows[k] == kids[k - 1]);
            }
        }
    } else {
        assert(rows == seq![(p, node)]);
        assert(rows[0].0.take(p.len() as int) == p);
    }
}

/// Every row of the first `n` nodes of a list extends the parent's path by
/// the index of one of them.
proof fn lemma_list_rows_paths(ns: Seq<SymbolTreeNode>, par: Seq<usize>, n: nat)
    requires
        n <= ns.len(),
    ensures
        forall|k: int| 0 <= k < list_rows(ns, par, n).len() ==> {
            &&& (#[trigger] list_rows(ns, par, n)[k]).0.len() > par.len()
            &&& list_rows(ns, par, n)[k].0.take(par.len() as int) == par
            &&& list_rows(ns, par, n)[k].0[par.len() as int] < n
        },
    decreases ns, 0nat, n,
{
    if n > 0 {
        let prev = list_rows(ns, par, (n - 1) as nat);
        let q = par.push((n - 1) as usize);
        let last = node_rows(ns[n - 1], q);
        lemma_list_rows_paths(ns, par, (n - 1) as nat);
        assert(decreases_to!(ns => ns[n - 1]));
        lemma_node_rows_paths(ns[n - 1], q);
        let rows = list_rows(ns, par, n);
        assert(rows == prev + last);
        assert forall|k: int| 0 <= k < rows.len() implies {
            &&& (#[trigger] rows[k]).0.len() > par.len()
            &&& rows[k].0.take(par.len() as int) == par
            &&& rows[k].0[par.len() as int] < n
        } by {
            if k >= prev.len() {
                let r = last[k - prev.len()];
                assert(rows[k] == r);
                assert(r.0.take(q.len() as int) == q);
                assert(r.0.take(par.len() as int) == r.0.take(q.len() as int).take(par.len() as int));
                assert(q.take(par.len() as int) == par);
                assert(r.0[par.len() as int] == r.0.take(q.len() as int)[par.len() as int]);
            }
        }
    }
}

/// A row lies in the rows of the node whose index its path has right after
/// the parent's path.
proof fn lemma_row_segment(ns: Seq<SymbolTreeNode>, par: Seq<usize>, n: nat, k: int)
    requires
        n <= ns.len() <= usize::MAX,
        0 <= k < list_rows(ns, par, n).len(),
    ensures
        ({
            let i = list_rows(ns, par, n)[k].0[par.len() as int] as int;
            &&& 0 <= i < n
            &&& list_rows(ns, par, i as nat).len() <= k < list_rows(ns, par, (i + 1) as nat).len()
            &&& list_rows(ns, par, n)[k] == node_rows(ns[i], par.push(i as usize))[k - list_rows(ns, par, i as nat).len()]
        }),
    decreases n,
{
    lemma_list_rows_paths(ns, par, n);
    let prev = list_rows(ns, par, (n - 1) as nat);
    let q = par.push((n - 1) as usize);
    let last = node_rows(ns[n - 1], q);
    assert(list_rows(ns, par, n) == prev + last);
    if k < prev.len() {
        lemma_row_segment(ns, par, (n - 1) as nat, k);
        assert(list_rows(ns, par, n)[k] == prev[k]);
    } else {
        lemma_node_rows_paths(ns[n - 1], q);
        let r = last[k - prev.len()];
        assert(r.0.take(q.len() as int) == q);
        assert(r.0[par.len() as int] == r.0.take(q.len() as int)[par.len() as int]);
    }
}

/// Changing the fold flag of the node a row shows keeps that row and the
/// rows before it where they were, and the row then shows the changed node.
proof fn lemma_change_keeps_rows(
    ns: Seq<SymbolTreeNode>,
    ns2: Seq<SymbolTreeNode>,
    par: Seq<usize>,
    path: Seq<usize>,
    change: FoldChange,
    k: int,
)
    requires
        list_changed(ns, ns2, path, change),
        ns.len() <= usize::MAX,
        0 <= k < list_rows(ns, par, ns.len()).len(),
        list_rows(ns, par, ns.len())[k].0 == par + path,
    ensures
        ({
            let rows = list_rows(ns, par, ns.len());
            let rows2 = list_rows(ns2, par, ns2.len());
            &&& rows2.len() > k
            &&& forall|j: int| 0 <= j <= k ==> (#[trigger] rows2[j]).0 == rows[j].0
            &&& node_changed(rows[k].1, rows2[k].1, Seq::empty(), change)
        }),
    decreases path.len(),
{
    let rows = list_rows(ns, par, ns.len());
    lemma_list_rows_paths(ns, par, ns.len());
    assert(rows[k].0.len() > par.len());
    assert(path.len() > 0);
    assert((par + path)[par.len() as int] == path[0]);
    let i = path[0] as int;
    lemma_row_segment(ns, par, ns.len(), k);
    assert(i < ns.len());
    let p_i = par.push(i as usize);
    let off = list_rows(ns, par, i as nat).len();
    let seg = node_rows(ns[i], p_i);
    let seg2 = node_rows(ns2[i], p_i);
    lemma_list_changed_len(ns, ns2, path, change);
    lemma_list_rows_same_prefix(ns, ns2, par, i as nat);
    let rows2 = list_rows(ns2, par, ns2.len());
    let head = list_rows(ns, par, i as nat);
    assert(list_rows(ns, par, (i + 1) as nat) == head + seg);
    assert(list_rows(ns2, par, (i + 1) as nat) == head + seg2);
    lemma_list_rows_grow(ns, par, (i + 1) as nat, ns.len());
    lemma_list_rows_grow(ns2, par, (i + 1) as nat, ns2.len());
    lemma_node_rows_paths(ns2[i], p_i);
    lemma_node_rows_paths(ns[i], p_i);
    let kk = k - off;
    assert(rows[k] == seg[kk]);
    if kk == 0 {
        assert(rows[k].0 == p_i);
        assert((par + path).len() == p_i.len());
        assert(path.drop_first().len() == 0);
        assert(rows2[k] == seg2[0]);
        assert forall|j: int| 0 <= j <= k implies (#[trigger] rows2[j]).0 == rows[j].0 by {
            if j < off {
                assert(rows2[j] == head[j]);
                assert(rows[j] == head[j]);
            }
        }
    } else {
        let rest = path.drop_first();
        assert(ns[i].expanded);
        let kids = list_rows(ns[i].children@, p_i, ns[i].children@.len());
        assert(seg == seq![(p_i, ns[i])] + kids);
        assert(seg[kk] == kids[kk - 1]);
        assert(rest.len() > 0);
        assert(par + path == p_i + rest);
        assert(node_changed(ns[i], ns2[i], rest, change));
        assert(ns[i].children@.len() == ns[i].children.len());
        lemma_change_keeps_rows(ns[i].children@, ns2[i].children@, p_i, rest, change, kk - 1);
        let kids2 = list_rows(ns2[i].children@, p_i, ns2[i].children@.len());
        assert(seg2 == seq![(p_i, ns2[i])] + kids2);
        assert forall|j: int| 0 <= j <= k implies (#[trigger] rows2[j]).0 == rows[j].0 by {
            if j < off {
                assert(rows2[j] == head[j]);
                assert(rows[j] == head[j]);
            } else if j == off {
                assert(rows2[j] == seg2[0]);
                assert(rows[j] == seg[0]);
            } else {
                assert(rows2[j] == seg2[j - off]);
                assert(rows[j] == seg[j - off]);
                assert(seg2[j - off] == kids2[j - off - 1]);
                assert(seg[j - off] == kids[j - off - 1]);
            }
        }
        assert(rows2[k] == kids2[kk - 1]);
    }
}

/// Pressing Tab twice on the same row gives back the tree it started from,
/// with the cursor where it was.
pub proof fn law_toggle_twice_restores(s0: SymbolTreeState, s1: SymbolTreeState, s2: SymbolTreeState)
    requires
        s0.roots.len() <= usize::MAX,
        toggled(s0, s1),
        toggled(s1, s2),
    ensures
        list_equiv(s0.roots, s2.roots),
        s2 == (SymbolTreeState { roots: s2.roots, ..s0 }),
{
    if on_parent_row(s0) {
        let rows0 = tree_rows(s0.roots);
        let c = s0.cursor as int;
        let p = rows0[c].0;
        assert(Seq::<usize>::empty() + p == p);
        lemma_change_keeps_rows(s0.roots, s1.roots, Seq::empty(), p, FoldChange::Flip, c);
        let rows1 = tree_rows(s1.roots);
        assert(rows1[c].0 == p);
        assert(s1.cursor == s0.cursor);
        assert(on_parent_row(s1));
        lemma_list_changed_len(s0.roots, s1.roots, p, FoldChange::Flip);
        lemma_change_keeps_rows(s1.roots, s2.roots, Seq::empty(), p, FoldChange::Flip, c);
        law_flip_twice_restores(s0.roots, s1.roots, s2.roots, p);
    } else {
        lemma_list_equiv_refl(s0.roots);
    }
}


/// The panel's width on the right of a screen area `area_width` wide: its
/// own width, at most a third of the area, and at least 20.
pub open spec fn right_panel_width(width: u16, area_width: u16) -> int {
    let w = if width <= area_width / 3 { width as int } else { (area_width / 3) as int };
    if w < 20 { 20 } else { w }
}

/// The panel's height at the bottom of a screen area `area_height` high: a
/// third of it, at least 5.
pub open spec fn bottom_panel_height(area_height: u16) -> int {
    if area_height / 3 < 5 { 5 } else { (area_height / 3) as int }
}

impl SymbolTreeView {
    /// Where the panel goes in the screen area at (x, y) of (width, height),
    /// as (x, y, width, height): against the right edge, the full height;
    /// or along the bottom edge, the full width.
    pub fn tree_area(&self, x: u16, y: u16, width: u16, height: u16) -> (r: (u16, u16, u16, u16))
        requires
            x + width <= u16::MAX,
            y + height <= u16::MAX,
            self@.render_right ==> x + width >= right_panel_width(self@.width, width),
            !self@.render_right ==> y + height >= bottom_panel_height(height),
        ensures
            r == if self@.render_right {
                let w = right_panel_width(self@.width, width);
                ((x + width - w) as u16, y, w as u16, height)
            } else {
                let h = bottom_panel_height(height);
                (x, (y + height - h) as u16, width, h as u16)
            },
    {
        if self.render_right {
            let third = width / 3;
            let w0 = if self.width <= third { self.width } else { third };
            let w = if w0 < 20 { 20 } else { w0 };
            (x + width - w, y, w, height)
        } else {
            let third = height / 3;
            let h = if third < 5 { 5 } else { third };
            (x, y + height - h, width, h)
        }
    }
}


/// The label of a kind, spelled out for one kind.
proof fn lemma_kind_label_at(k: i32)
    requires
        1 <= k <= 26,
    ensures
        kind_label(SymbolKind(k)).len() >= 2,
        kind_label(SymbolKind(k))[0] != '?',
{
    reveal_strlit("arr");
    reveal_strlit("bol");
    reveal_strlit("cls");
    reveal_strlit("con");
    reveal_strlit("cst");
    reveal_strlit("enm");
    reveal_strlit("evt");
    reveal_strlit("fil");
    reveal_strlit("fld");
    reveal_strlit("fn");
    reveal_strlit("ifc");
    reveal_strlit("key");
    reveal_strlit("mod");
    reveal_strlit("mth");
    reveal_strlit("ns");
    reveal_strlit("nul");
    reveal_strlit("num");
    reveal_strlit("obj");
    reveal_strlit("opr");
    reveal_strlit("pkg");
    reveal_strlit("prp");
    reveal_strlit("stc");
    reveal_strlit("str");
    reveal_strlit("typ");
    reveal_strlit("var");
    reveal_strlit("???");
}

/// Distinct symbol kinds get distinct labels, but for enums and enum
/// members, which share `enm`; a known kind never gets the `???` of an
/// unknown one, and every unknown kind gets it.
#[verifier::rlimit(60)]
pub proof fn law_kind_labels_distinct(a: i32, b: i32)
    ensures
        1 <= a <= 26 && 1 <= b <= 26 && a != b && !(a == 10 && b == 22) && !(a == 22 && b == 10) ==> kind_label(
            SymbolKind(a),
        ) != kind_label(SymbolKind(b)),
        1 <= a <= 26 ==> kind_label(SymbolKind(a)) != "???"@,
        !(1 <= a <= 26) ==> kind_label(SymbolKind(a)) == "???"@,
{
    reveal_strlit("arr");
    reveal_strlit("bol");
    reveal_strlit("cls");
    reveal_strlit("con");
    reveal_strlit("cst");
    reveal_strlit("enm");
    reveal_strlit("evt");
    reveal_strlit("fil");
    reveal_strlit("fld");
    reveal_strlit("fn");
    reveal_strlit("ifc");
    reveal_strlit("key");
    reveal_strlit("mod");
    reveal_strlit("mth");
    reveal_strlit("ns");
    reveal_strlit("nul");
    reveal_strlit("num");
    reveal_strlit("obj");
    reveal_strlit("opr");
    reveal_strlit("pkg");
    reveal_strlit("prp");
    reveal_strlit("stc");
    reveal_strlit("str");
    reveal_strlit("typ");
    reveal_strlit("var");
    reveal_strlit("???");
    if 1 <= a <= 26 {
        lemma_kind_label_at(a);
        assert("???"@[0] == '?');
    }
    if 1 <= a <= 26 && 1 <= b <= 26 && a != b && !(a == 10 && b == 22) && !(a == 22 && b == 10) {
        let la = kind_label(SymbolKind(a));
        let lb = kind_label(SymbolKind(b));
        if la == lb {
            assert(la.len() == lb.len());
            assert(la[0] == lb[0]);
            assert(la[1] == lb[1]);
            if la.len() == 3 {
                assert(la[2] == lb[2]);
            }
        }
    }
}


/// The name of a symbol kind in the language server protocol, in lower case
/// and without separators (`enumMember` is `enummember`).
pub open spec fn lsp_kind_name(kind: SymbolKind) -> Seq<char> {
    let k = kind.0;
    if k == 1 { "file"@ }
    else if k == 2 { "module"@ }
    else if k == 3 { "namespace"@ }
    else if k == 4 { "package"@ }
    else if k == 5 { "class"@ }
    else if k == 6 { "method"@ }
    else if k == 7 { "property"@ }
    else if k == 8 { "field"@ }
    else if k == 9 { "constructor"@ }
    else if k == 10 { "enum"@ }
    else if k == 11 { "interface"@ }
    else if k == 12 { "function"@ }
    else if k == 13 { "variable"@ }
    else if k == 14 { "constant"@ }
    else if k == 15 { "string"@ }
    else if k == 16 { "number"@ }
    else if k == 17 { "boolean"@ }
    else if k == 18 { "array"@ }
    else if k == 19 { "object"@ }
    else if k == 20 { "key"@ }
    else if k == 21 { "null"@ }
    else if k == 22 { "enummember"@ }
    else if k == 23 { "struct"@ }
    else if k == 24 { "event"@ }
    else if k == 25 { "operator"@ }
    else if k == 26 { "typeparameter"@ }
    else { ""@ }
}

/// `a`'s characters occur in `b` in the same order.
pub open spec fn is_subsequence(a: Seq<char>, b: Seq<char>) -> bool
    decreases b.len(),
{
    if a.len() == 0 {
        true
    } else if b.len() == 0 {
        false
    } else if a[0] == b[0] {
        is_subsequence(a.drop_first(), b.drop_first())
    } else {
        is_subsequence(a, b.drop_first())
    }
}

/// The label of every known symbol kind abbreviates the kind's name: it
/// starts with the name's first letter and its letters occur in the name in
/// the same order.
#[verifier::rlimit(100)]
pub proof fn law_kind_label_abbreviates(k: i32)
    requires
        1 <= k <= 26,
    ensures
        kind_label(SymbolKind(k))[0] == lsp_kind_name(SymbolKind(k))[0],
        is_subsequence(kind_label(SymbolKind(k)), lsp_kind_name(SymbolKind(k))),
{
    let l = kind_label(SymbolKind(k));
    let n = lsp_kind_name(SymbolKind(k));
    reveal_strlit("arr");
    reveal_strlit("bol");
    reveal_strlit("cls");
    reveal_strlit("con");
    reveal_strlit("cst");
    reveal_strlit("enm");
    reveal_strlit("evt");
    reveal_strlit("fil");
    reveal_strlit("fld");
    reveal_strlit("fn");
    reveal_strlit("ifc");
    reveal_strlit("key");
    reveal_strlit("mod");
    reveal_strlit("mth");
    reveal_strlit("ns");
    reveal_strlit("nul");
    reveal_strlit("num");
    reveal_strlit("obj");
    reveal_strlit("opr");
    reveal_strlit("pkg");
    reveal_strlit("prp");
    reveal_strlit("stc");
    reveal_strlit("str");
    reveal_strlit("typ");
    reveal_strlit("var");
    reveal_strlit("file");
    reveal_strlit("module");
    reveal_strlit("namespace");
    reveal_strlit("package");
    reveal_strlit("class");
    reveal_strlit("method");
    reveal_strlit("property");
    reveal_strlit("field");
    reveal_strlit("constructor");
    reveal_strlit("enum");
    reveal_strlit("interface");
    reveal_strlit("function");
    reveal_strlit("variable");
    reveal_strlit("constant");
    reveal_strlit("string");
    reveal_strlit("number");
    reveal_strlit("boolean");
    reveal_strlit("array");
    reveal_strlit("object");
    reveal_strlit("key");
    reveal_strlit("null");
    reveal_strlit("enummember");
    reveal_strlit("struct");
    reveal_strlit("event");
    reveal_strlit("operator");
    reveal_strlit("typeparameter");
    reveal_with_fuel(is_subsequence, 14);
    if k == 1 {
        assert(l == seq!['f', 'i', 'l']);
        assert(n == seq!['f', 'i', 'l', 'e']);
    }
    else if k == 2 {
        assert(l == seq!['m', 'o', 'd']);
        assert(n == seq!['m', 'o', 'd', 'u', 'l', 'e']);
    }
    else if k == 3 {
        assert(l == seq!['n', 's']);
        assert(n == seq!['n', 'a', 'm', 'e', 's', 'p', 'a', 'c', 'e']);
    }
    else if k == 4 {
        assert(l == seq!['p', 'k', 'g']);
        assert(n == seq!['p', 'a', 'c', 'k', 'a', 'g', 'e']);
    }
    else if k == 5 {
        assert(l == seq!['c', 'l', 's']);
        assert(n == seq!['c', 'l', 'a', 's', 's']);
    }
    else if k == 6 {
        assert(l == seq!['m', 't', 'h']);
        assert(n == seq!['m', 'e', 't', 'h', 'o', 'd']);
    }
    else if k == 7 {
        assert(l == seq!['p', 'r', 'p']);
        assert(n == seq!['p', 'r', 'o', 'p', 'e', 'r', 't', 'y']);
    }
    else if k == 8 {
        assert(l == seq!['f', 'l', 'd']);
        assert(n == seq!['f', 'i', 'e', 'l', 'd']);
    }
    else if k == 9 {
        assert(l == seq!['c', 'o', 'n']);
        assert(n == seq!['c', 'o', 'n', 's', 't', 'r', 'u', 'c', 't', 'o', 'r']);
    }
    else if k == 10 {
        assert(l == seq!['e', 'n', 'm']);
        assert(n == seq!['e', 'n', 'u', 'm']);
    }
    else if k == 11 {
        assert(l == seq!['i', 'f', 'c']);
        assert(n == seq!['i', 'n', 't', 'e', 'r', 'f', 'a', 'c', 'e']);
    }
    else if k == 12 {
        assert(l == seq!['f', 'n']);
        assert(n == seq!['f', 'u', 'n', 'c', 't', 'i', 'o', 'n']);
    }
    else if k == 13 {
        assert(l == seq!['v', 'a', 'r']);
        assert(n == seq!['v', 'a', 'r', 'i', 'a', 'b', 'l', 'e']);
    }
    else if k == 14 {
        assert(l == seq!['c', 's', 't']);
        assert(n == seq!['c', 'o', 'n', 's', 't', 'a', 'n', 't']);
    }
    else if k == 15 {
        assert(l == seq!['s', 't', 'r']);
        assert(n == seq!['s', 't', 'r', 'i', 'n', 'g']);
    }
    else if k == 16 {
        assert(l == seq!['n', 'u', 'm']);
        assert(n == seq!['n', 'u', 'm', 'b', 'e', 'r']);
    }
    else if k == 17 {
        assert(l == seq!['b', 'o', 'l']);
        assert(n == seq!['b', 'o', 'o', 'l', 'e', 'a', 'n']);
    }
    else if k == 18 {
        assert(l == seq!['a', 'r', 'r']);
        assert(n == seq!['a', 'r', 'r', 'a', 'y']);
    }
    else if k == 19 {
        assert(l == seq!['o', 'b', 'j']);
        assert(n == seq!['o', 'b', 'j', 'e', 'c', 't']);
    }
    else if k == 20 {
        assert(l == seq!['k', 'e', 'y']);
        assert(n == seq!['k', 'e', 'y']);
    }
    else if k == 21 {
        assert(l == seq!['n', 'u', 'l']);
        assert(n == seq!['n', 'u', 'l', 'l']);
    }
    else if k == 22 {
        assert(l == seq!['e', 'n', 'm']);
        assert(n == seq!['e', 'n', 'u', 'm', 'm', 'e', 'm', 'b', 'e', 'r']);
    }
    else if k == 23 {
        assert(l == seq!['s', 't', 'c']);
        assert(n == seq!['s', 't', 'r', 'u', 'c', 't']);
    }
    else if k == 24 {
        assert(l == seq!['e', 'v', 't']);
        assert(n == seq!['e', 'v', 'e', 'n', 't']);
    }
    else if k == 25 {
        assert(l == seq!['o', 'p', 'r']);
        assert(n == seq!['o', 'p', 'e', 'r', 'a', 't', 'o', 'r']);
    }
    else if k == 26 {
        assert(l == seq!['t', 'y', 'p']);
        assert(n == seq!['t', 'y', 'p', 'e', 'p', 'a', 'r', 'a', 'm', 'e', 't', 'e', 'r']);
    }
}

} // verus!

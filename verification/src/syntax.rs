use vstd::prelude::*;

verus! {

/// The C-family languages the front end reads.
#[derive(Debug, Clone, Copy, PartialEq, Eq, Structural)]
pub enum SourceLanguage {
    C,
    Cpp,
}

/// A node of a concrete syntax tree: its kind, whether it is named, the field
/// it fills in its parent, the byte range of the source it covers and its
/// children in order.
pub struct SyntaxNode {
    pub kind: String,
    pub named: bool,
    pub field: Option<String>,
    pub start: usize,
    pub end: usize,
    pub children: Vec<SyntaxNode>,
}

/// Every node of the tree covers a byte range that lies within a source of
/// `len` bytes.
pub open spec fn node_wf(n: SyntaxNode, len: nat) -> bool
    decreases n,
{
    n.start <= n.end <= len && nodes_wf(n.children@, len)
}

/// Every tree of the sequence is well formed (see `node_wf`).
pub open spec fn nodes_wf(s: Seq<SyntaxNode>, len: nat) -> bool
    decreases s,
{
    s.len() > 0 ==> node_wf(s[0], len) && nodes_wf(s.drop_first(), len)
}

/// Appending a well-formed tree keeps a sequence well formed.
proof fn lemma_nodes_wf_push(s: Seq<SyntaxNode>, n: SyntaxNode, len: nat)
    requires
        nodes_wf(s, len),
        node_wf(n, len),
    ensures
        nodes_wf(s.push(n), len),
    decreases s.len(),
{
    if s.len() > 0 {
        lemma_nodes_wf_push(s.drop_first(), n, len);
        assert(s.push(n)[0] == s[0]);
        assert(s.push(n).drop_first() =~= s.drop_first().push(n));
    } else {
        assert(s.push(n)[0] == n);
        assert(s.push(n).drop_first() =~= Seq::<SyntaxNode>::empty());
        assert(nodes_wf(Seq::<SyntaxNode>::empty(), len));
    }
}

/// A node of a parse tree as a walk of the tree in document order meets it
/// (each node before its children, the children in order): its kind, whether
/// it is named, the field it fills in its parent, the byte range it covers
/// and the number of nodes in its subtree, itself included.
pub struct TreeEntry {
    pub kind: String,
    pub named: bool,
    pub field: Option<String>,
    pub start: usize,
    pub end: usize,
    pub descendants: usize,
}

/// `n` is the subtree whose root is the entry at `i` of the walk `e`: the
/// root carries that entry's data and its children are the subtrees that
/// follow it, one after the other, up to the end of its subtree.
pub open spec fn describes(n: SyntaxNode, e: Seq<TreeEntry>, i: int) -> bool
    decreases n,
{
    &&& 0 <= i < e.len()
    &&& n.kind == e[i].kind
    &&& n.named == e[i].named
    &&& n.field == e[i].field
    &&& n.start == e[i].start
    &&& n.end == e[i].end
    &&& e[i].descendants >= 1
    &&& children_describe(n.children@, e, i + 1, i + e[i].descendants)
}

/// The trees `cs` are the subtrees of the walk `e` that start at `j` and
/// follow one another up to `stop`.
pub open spec fn children_describe(cs: Seq<SyntaxNode>, e: Seq<TreeEntry>, j: int, stop: int) -> bool
    decreases cs,
{
    if cs.len() == 0 {
        j == stop
    } else {
        describes(cs[0], e, j) && children_describe(cs.drop_first(), e, j + e[j].descendants, stop)
    }
}

/// A described subtree lies within the walk.
proof fn lemma_describes_bounds(n: SyntaxNode, e: Seq<TreeEntry>, i: int)
    requires
        describes(n, e, i),
    ensures
        i + e[i].descendants <= e.len(),
    decreases n,
{
    lemma_children_bounds(n.children@, e, i + 1, i + e[i].descendants);
}

/// Described subtrees follow one another within the walk.
proof fn lemma_children_bounds(cs: Seq<SyntaxNode>, e: Seq<TreeEntry>, j: int, stop: int)
    requires
        children_describe(cs, e, j, stop),
    ensures
        j + cs.len() <= stop,
        cs.len() > 0 ==> stop <= e.len(),
        cs.len() == 0 ==> j == stop,
    decreases cs,
{
    if cs.len() > 0 {
        assert(describes(cs[0], e, j));
        assert(e[j].descendants >= 1);
        lemma_describes_bounds(cs[0], e, j);
        lemma_children_bounds(cs.drop_first(), e, j + e[j].descendants, stop);
    }
}

/// One more subtree after the ones read so far.
proof fn lemma_children_push(cs: Seq<SyntaxNode>, n: SyntaxNode, e: Seq<TreeEntry>, j: int, stop: int)
    requires
        children_describe(cs, e, j, stop),
        describes(n, e, stop),
    ensures
        children_describe(cs.push(n), e, j, stop + e[stop].descendants),
    decreases cs.len(),
{
    if cs.len() > 0 {
        lemma_children_push(cs.drop_first(), n, e, j + e[j].descendants, stop);
        assert(cs.push(n).drop_first() =~= cs.drop_first().push(n));
        assert(cs.push(n)[0] == cs[0]);
    } else {
        assert(cs.push(n).drop_first() =~= Seq::<SyntaxNode>::empty());
        assert(cs.push(n)[0] == n);
        assert(children_describe(Seq::<SyntaxNode>::empty(), e, stop + e[stop].descendants, stop + e[stop].descendants));
    }
}

/// Subtrees read from the start of a run of children that goes on past the
/// position reached are its first ones: the rest starts there.
proof fn lemma_children_rest(cs: Seq<SyntaxNode>, ps: Seq<SyntaxNode>, e: Seq<TreeEntry>, a: int, j: int, stop: int)
    requires
        children_describe(cs, e, a, stop),
        children_describe(ps, e, a, j),
        j < stop,
    ensures
        ps.len() < cs.len(),
        children_describe(cs.skip(ps.len() as int), e, j, stop),
    decreases ps.len(),
{
    lemma_children_bounds(ps, e, a, j);
    if ps.len() == 0 {
        assert(cs.skip(0) =~= cs);
        if cs.len() == 0 {
            assert(a == stop);
        }
    } else {
        if cs.len() == 0 {
            assert(a == stop);
        }
        lemma_children_rest(cs.drop_first(), ps.drop_first(), e, a + e[a].descendants, j, stop);
        assert(cs.drop_first().skip(ps.len() - 1) =~= cs.skip(ps.len() as int));
    }
}

/// Each tree of a well-formed sequence is well formed.
proof fn lemma_nodes_wf_index(s: Seq<SyntaxNode>, len: nat, k: int)
    requires
        nodes_wf(s, len),
        0 <= k < s.len(),
    ensures
        node_wf(s[k], len),
    decreases s.len(),
{
    if k > 0 {
        lemma_nodes_wf_index(s.drop_first(), len, k - 1);
    }
}

/// The first tree of the rest of a sequence.
proof fn lemma_skip_first(s: Seq<SyntaxNode>, k: int)
    requires
        0 <= k < s.len(),
    ensures
        s.skip(k)[0] == s[k],
        s.skip(k).len() > 0,
{
}

/// Two trees with the same data in every node.
pub open spec fn same_tree(a: SyntaxNode, b: SyntaxNode) -> bool
    decreases a,
{
    &&& a.kind == b.kind
    &&& a.named == b.named
    &&& a.field == b.field
    &&& a.start == b.start
    &&& a.end == b.end
    &&& same_trees(a.children@, b.children@)
}

/// Two sequences of trees, pairwise the same (see `same_tree`).
pub open spec fn same_trees(s: Seq<SyntaxNode>, t: Seq<SyntaxNode>) -> bool
    decreases s,
{
    &&& s.len() == t.len()
    &&& s.len() > 0 ==> same_tree(s[0], t[0]) && same_trees(s.drop_first(), t.drop_first())
}

/// Pairwise the same trees are the same at each position.
pub proof fn lemma_same_trees_index(s: Seq<SyntaxNode>, t: Seq<SyntaxNode>, k: int)
    requires
        same_trees(s, t),
        0 <= k < s.len(),
    ensures
        same_tree(s[k], t[k]),
    decreases s.len(),
{
    if k > 0 {
        lemma_same_trees_index(s.drop_first(), t.drop_first(), k - 1);
    }
}

/// Two trees that both are the subtree at `i` of a walk have the same data.
pub proof fn lemma_describes_same(a: SyntaxNode, b: SyntaxNode, e: Seq<TreeEntry>, i: int)
    requires
        describes(a, e, i),
        describes(b, e, i),
    ensures
        same_tree(a, b),
    decreases a,
{
    lemma_children_same(a.children@, b.children@, e, i + 1, i + e[i].descendants);
}

/// Two runs of subtrees of a walk between the same positions have the same data.
proof fn lemma_children_same(s: Seq<SyntaxNode>, t: Seq<SyntaxNode>, e: Seq<TreeEntry>, j: int, stop: int)
    requires
        children_describe(s, e, j, stop),
        children_describe(t, e, j, stop),
    ensures
        same_trees(s, t),
    decreases s,
{
    lemma_children_bounds(s, e, j, stop);
    lemma_children_bounds(t, e, j, stop);
    if s.len() > 0 && t.len() > 0 {
        lemma_describes_same(s[0], t[0], e, j);
        lemma_children_same(s.drop_first(), t.drop_first(), e, j + e[j].descendants, stop);
    } else if s.len() > 0 {
        assert(describes(s[0], e, j));
        lemma_children_bounds(s.drop_first(), e, j + e[j].descendants, stop);
    } else if t.len() > 0 {
        assert(describes(t[0], e, j));
        lemma_children_bounds(t.drop_first(), e, j + e[j].descendants, stop);
    }
}

/// Whether tree-sitter accepts the grammar of `language` (it does when the
/// grammar's ABI version is one the library reads).
pub uninterp spec fn grammar_accepted(language: SourceLanguage) -> bool;

/// The nodes of the tree that the tree-sitter grammar of `language` parses
/// `source` into, in document order (see `TreeEntry`).
pub uninterp spec fn parsed_entries(source: Seq<char>, language: SourceLanguage) -> Seq<TreeEntry>;

/// The nodes a tree-sitter tree holds, in document order: the entry at `i`
/// is the descendant at `i` of the root, the root being the first.
pub uninterp spec fn tree_entries(tree: tree_sitter::Tree) -> Seq<TreeEntry>;

#[verifier::external_type_specification]
#[verifier::external_body]
pub struct ExTree(tree_sitter::Tree);

#[verifier::external_type_specification]
#[verifier::external_body]
pub struct ExLanguageError(tree_sitter::LanguageError);

/// `tree_sitter::Parser::new`, `Parser::set_language` with the grammar of
/// `language` (`tree_sitter_c::LANGUAGE` or `tree_sitter_cpp::LANGUAGE`) and
/// `Parser::parse` of the whole of `source` with no earlier tree. Claimed:
/// the language is set exactly when the grammar is accepted; a parser with a
/// language gives a tree (the documentation of `parse` names a missing
/// language as the one case without one); and that tree holds the nodes the
/// grammar parses the source into. Which nodes those are is left to
/// tree-sitter.
#[verifier::external_body]
fn ts_parse(source: &str, language: SourceLanguage) -> (r: Result<Option<tree_sitter::Tree>, tree_sitter::LanguageError>)
    ensures
        r is Ok <==> grammar_accepted(language),
        r matches Ok(t) ==> t is Some,
        r matches Ok(Some(t)) ==> tree_entries(t) == parsed_entries(source@, language),
{
    let mut parser = tree_sitter::Parser::new();
    let grammar: tree_sitter::Language = match language {
        SourceLanguage::C => tree_sitter_c::LANGUAGE.into(),
        SourceLanguage::Cpp => tree_sitter_cpp::LANGUAGE.into(),
    };
    parser.set_language(&grammar)?;
    Ok(parser.parse(source, None))
}

/// `tree_sitter::Node::descendant_count` of the root: the number of nodes of
/// the tree, the root included.
#[verifier::external_body]
fn ts_entry_count(tree: &tree_sitter::Tree) -> (r: usize)
    ensures
        r == tree_entries(*tree).len(),
{
    tree.root_node().descendant_count()
}

/// The node at `index` of a walk of the tree: a cursor from `Tree::walk` is
/// moved there with `TreeCursor::goto_descendant`, and the node's `kind`,
/// `is_named`, `start_byte`, `end_byte` and `descendant_count` are read, with
/// the cursor's `field_name`.
#[verifier::external_body]
fn ts_entry(tree: &tree_sitter::Tree, index: usize) -> (r: TreeEntry)
    requires
        index < tree_entries(*tree).len(),
    ensures
        r == tree_entries(*tree)[index as int],
{
    let mut cursor = tree.walk();
    cursor.goto_descendant(index);
    let node = cursor.node();
    TreeEntry {
        kind: node.kind().to_owned(),
        named: node.is_named(),
        field: cursor.field_name().map(|name| name.to_owned()),
        start: node.start_byte(),
        end: node.end_byte(),
        descendants: node.descendant_count(),
    }
}

/// Reads the subtree at `index` of the walk of `tree` (`count` nodes long)
/// into a `SyntaxNode`, with the number of its nodes; `None` exactly when no
/// tree whose byte ranges lie within a source of `len` bytes is that subtree.
fn read_subtree(tree: &tree_sitter::Tree, index: usize, count: usize, len: usize) -> (r: Option<(SyntaxNode, usize)>)
    requires
        count == tree_entries(*tree).len(),
    ensures
        match r {
            Some((n, d)) => describes(n, tree_entries(*tree), index as int) && node_wf(n, len as nat)
                && d == tree_entries(*tree)[index as int].descendants,
            None => forall|n: SyntaxNode| #[trigger] describes(n, tree_entries(*tree), index as int) ==> !node_wf(n, len as nat),
        },
    decreases count - index,
{
    let ghost e = tree_entries(*tree);
    if index >= count {
        return None;
    }
    let entry = ts_entry(tree, index);
    let d = entry.descendants;
    if d == 0 || d > count - index || !(entry.start <= entry.end && entry.end <= len) {
        proof {
            assert forall|n: SyntaxNode| #[trigger] describes(n, e, index as int) implies !node_wf(n, len as nat) by {
                lemma_describes_bounds(n, e, index as int);
            }
        }
        return None;
    }
    let stop = index + d;
    let mut children: Vec<SyntaxNode> = Vec::new();
    let mut j = index + 1;
    assert(nodes_wf(children@, len as nat));
    while j < stop
        invariant
            index < j <= stop <= count,
            count == e.len(),
            e == tree_entries(*tree),
            entry == e[index as int],
            stop == index + e[index as int].descendants,
            children_describe(children@, e, index + 1, j as int),
            nodes_wf(children@, len as nat),
        decreases stop - j,
    {
        let (child, dc) = match read_subtree(tree, j, count, len) {
            Some(r) => r,
            None => {
                proof {
                    assert forall|n: SyntaxNode| #[trigger] describes(n, e, index as int) implies !node_wf(n, len as nat) by {
                        if node_wf(n, len as nat) {
                            lemma_children_rest(n.children@, children@, e, index + 1, j as int, stop as int);
                            let k = children@.len() as int;
                            lemma_skip_first(n.children@, k);
                            let rest = n.children@.skip(k);
                            assert(describes(rest[0], e, j as int));
                            assert(nodes_wf(n.children@, len as nat));
                            lemma_nodes_wf_index(n.children@, len as nat, k);
                            assert(describes(n.children@[k], e, j as int));
                        }
                    }
                }
                return None;
            },
        };
        if dc > stop - j {
            proof {
                assert forall|n: SyntaxNode| #[trigger] describes(n, e, index as int) implies !node_wf(n, len as nat) by {
                    lemma_children_rest(n.children@, children@, e, index + 1, j as int, stop as int);
                    let rest = n.children@.skip(children@.len() as int);
                    assert(rest.len() > 0);
                    assert(describes(rest[0], e, j as int));
                    assert(children_describe(rest.drop_first(), e, j + e[j as int].descendants, stop as int));
                    lemma_children_bounds(rest.drop_first(), e, j + e[j as int].descendants, stop as int);
                }
            }
            return None;
        }
        proof {
            lemma_children_push(children@, child, e, index + 1, j as int);
            lemma_nodes_wf_push(children@, child, len as nat);
        }
        children.push(child);
        j = j + dc;
    }
    let node = SyntaxNode {
        kind: entry.kind,
        named: entry.named,
        field: entry.field,
        start: entry.start,
        end: entry.end,
        children,
    };
    Some((node, d))
}

/// Why a source could not be read into a syntax tree.
#[derive(Debug, Clone, Copy, PartialEq, Eq, Structural)]
pub enum TreeError {
    /// The parser did not accept the grammar.
    LanguageSetup,
    /// The parser produced no tree that could be read.
    NoTree,
}

/// Parses `source` with the tree-sitter grammar of `language` into a syntax
/// tree: the tree the grammar gives (see `parsed_entries`), whose byte ranges
/// lie within the source.
pub fn syntax_tree(source: &str, language: SourceLanguage) -> (r: Result<SyntaxNode, TreeError>)
    ensures
        match r {
            Ok(t) => grammar_accepted(language) && describes(t, parsed_entries(source@, language), 0)
                && node_wf(t, vstd::utf8::encode_utf8(source@).len()),
            Err(TreeError::LanguageSetup) => !grammar_accepted(language),
            Err(TreeError::NoTree) => grammar_accepted(language) && forall|t: SyntaxNode|
                #[trigger] describes(t, parsed_entries(source@, language), 0)
                    ==> !node_wf(t, vstd::utf8::encode_utf8(source@).len()),
        },
{
    let tree = match ts_parse(source, language) {
        Ok(Some(t)) => t,
        Ok(None) => {
            return Err(TreeError::NoTree);
        },
        Err(_) => {
            return Err(TreeError::LanguageSetup);
        },
    };
    let count = ts_entry_count(&tree);
    let len = source.as_bytes().len();
    match read_subtree(&tree, 0, count, len) {
        Some((node, _)) => Ok(node),
        None => Err(TreeError::NoTree),
    }
}

} // verus!

//! The matches of a query in a syntax tree.

use vstd::prelude::*;

use crate::location::Location;
use crate::values::SyntaxNodeModel;
use crate::values::SyntaxNodeRef;

verus! {

/// `tree_sitter::Query`. Nothing is known of what is inside.
#[verifier::external_type_specification]
#[verifier::external_body]
pub struct ExQuery(tree_sitter::Query);

/// `tree_sitter::Tree`. Nothing is known of what is inside.
#[verifier::external_type_specification]
#[verifier::external_body]
pub struct ExTree(tree_sitter::Tree);

/// A node that a match captured, with the index of the capture.
#[derive(Debug, PartialEq, Eq)]
pub struct QueryCapture {
    pub index: usize,
    pub node: SyntaxNodeRef,
}

/// A match of a pattern of a query, with the nodes that it captured.
#[derive(Debug, PartialEq, Eq)]
pub struct QueryMatch {
    pub pattern_index: usize,
    pub captures: Vec<QueryCapture>,
}

/// The model of a `QueryCapture`.
#[verifier::ext_equal]
pub struct CaptureModel {
    pub index: usize,
    pub node: SyntaxNodeModel,
}

/// The model of a `QueryMatch`.
#[verifier::ext_equal]
pub struct MatchModel {
    pub pattern_index: usize,
    pub captures: Seq<CaptureModel>,
}

impl View for QueryCapture {
    type V = CaptureModel;

    open spec fn view(&self) -> CaptureModel {
        CaptureModel { index: self.index, node: self.node@ }
    }
}

impl View for QueryMatch {
    type V = MatchModel;

    open spec fn view(&self) -> MatchModel {
        MatchModel {
            pattern_index: self.pattern_index,
            captures: Seq::new(self.captures@.len(), |i: int| self.captures@[i]@),
        }
    }
}

/// The models of a sequence of matches.
pub open spec fn matches_model(matches: Seq<QueryMatch>) -> Seq<MatchModel> {
    Seq::new(matches.len(), |i: int| matches[i]@)
}

/// What a match looks like: all of it but the numbers of the nodes.
#[verifier::ext_equal]
pub struct MatchShape {
    pub pattern_index: usize,
    /// For each capture its index, and the kind and the position of the node.
    pub captures: Seq<(usize, Seq<char>, Location)>,
}

impl MatchModel {
    pub open spec fn shape(self) -> MatchShape {
        MatchShape {
            pattern_index: self.pattern_index,
            captures: Seq::new(
                self.captures.len(),
                |i: int|
                    (
                        self.captures[i].index,
                        self.captures[i].node.kind,
                        self.captures[i].node.position,
                    ),
            ),
        }
    }
}

/// What a sequence of matches looks like.
pub open spec fn shapes(matches: Seq<MatchModel>) -> Seq<MatchShape> {
    Seq::new(matches.len(), |i: int| matches[i].shape())
}

/// The number of the byte at which a tree ends.
pub uninterp spec fn tree_end(tree: tree_sitter::Tree) -> nat;

/// `tree_sitter::Node::end_byte` for the root node of a tree, which `tree_sitter::Tree::root_node`
/// returns: the number is determined by the tree.
#[verifier::external_body]
pub(crate) fn end_of_tree(tree: &tree_sitter::Tree) -> (r: usize)
    ensures
        r == tree_end(*tree),
{
    tree.root_node().end_byte()
}

/// What the matches of a query in a tree of a source text look like, in the order in which they
/// are found.
pub uninterp spec fn query_shapes(
    query: tree_sitter::Query,
    tree: tree_sitter::Tree,
    source: Seq<char>,
) -> Seq<MatchShape>;

/// A number for each capture of each match of a query in a tree of a source text, by which it can
/// be seen which captures are of the same node.
pub uninterp spec fn query_nodes(
    query: tree_sitter::Query,
    tree: tree_sitter::Tree,
    source: Seq<char>,
) -> Seq<Seq<nat>>;

/// Whether there is a number in `nodes` for each capture, and two captures are of the same node if
/// and only if their numbers are the same.
pub open spec fn same_nodes(matches: Seq<MatchModel>, nodes: Seq<Seq<nat>>) -> bool {
    &&& nodes.len() == matches.len()
    &&& forall|i: int|
        0 <= i < matches.len() ==> (#[trigger] nodes[i]).len() == matches[i].captures.len()
    &&& forall|i: int, k: int, j: int, l: int|
        #![trigger nodes[i][k], nodes[j][l]]
        #![trigger matches[i].captures[k], matches[j].captures[l]]
        0 <= i < matches.len() && 0 <= k < matches[i].captures.len() && 0 <= j < matches.len()
            && 0 <= l < matches[j].captures.len() ==> (matches[i].captures[k].node
            == matches[j].captures[l].node <==> nodes[i][k] == nodes[j][l])
}

/// `tree_sitter::QueryCursor::matches`, with a new cursor and from the root of the tree: finds all
/// matches of the query. What they look like is determined by the query, the tree and the text, and
/// so is which captures are of the same node: `tree_sitter::Node::id` differs between the nodes of
/// a tree, and a node has one kind and one start. The numbers of the nodes, which are addresses,
/// are left unsaid, and so is what counts as a match. A tree that goes on after the end of the text
/// is ruled out: a predicate of the query can ask for the text of any node.
#[verifier::external_body]
pub(crate) fn find_matches(
    query: &tree_sitter::Query,
    tree: &tree_sitter::Tree,
    source: &str,
) -> (r: Vec<QueryMatch>)
    requires
        tree_end(*tree) <= vstd::utf8::encode_utf8(source@).len(),
    ensures
        shapes(matches_model(r@)) == query_shapes(*query, *tree, source@),
        same_nodes(matches_model(r@), query_nodes(*query, *tree, source@)),
{
    let mut cursor = tree_sitter::QueryCursor::new();
    let capture = |c: &tree_sitter::QueryCapture| {
        let start = c.node.start_position();
        let position = Location { row: start.row, column: start.column };
        let kind = c.node.kind().to_string();
        let node = SyntaxNodeRef { index: c.node.id(), kind, position };
        QueryCapture { index: c.index as usize, node }
    };
    let matches = cursor.matches(query, tree.root_node(), source.as_bytes());
    matches.map(
        |m| QueryMatch {
            pattern_index: m.pattern_index,
            captures: m.captures.iter().map(capture).collect(),
        },
    ).collect()
}

} // verus!

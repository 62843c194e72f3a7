//! Discovery: a depth-first walk over a directory tree, pruning every entry
//! whose full path matches the ignore filter (an ignored directory's whole
//! subtree is skipped), and keeping the files that the allow filter
//! accepts. The tree is a value handed in by the caller; the walk itself is
//! pure and returns the absolute paths of the qualifying files in traversal
//! order.

use vstd::prelude::*;
use vstd::string::*;

use crate::patterns::{regex_accepts, CompiledPattern};

verus! {

/// One entry of the modelled directory tree: a regular file, or a directory
/// with its entries in listing order.
pub enum FsNode {
    File { name: String },
    Dir { name: String, children: Vec<FsNode> },
}

impl FsNode {
    /// The entry's own name, without any directory prefix.
    pub open spec fn name_spec(&self) -> Seq<char> {
        match self {
            FsNode::File { name } => name@,
            FsNode::Dir { name, .. } => name@,
        }
    }
}

/// A node is well formed when every name in it is non-empty.
pub open spec fn wf_node(node: FsNode) -> bool
    decreases node,
{
    match node {
        FsNode::File { name } => name@.len() > 0,
        FsNode::Dir { name, children } => name@.len() > 0 && forall|i: int|
            0 <= i < children@.len() ==> wf_node(#[trigger] children@[i]),
    }
}

/// The full path of an entry named `name` listed in the directory at `dir`.
pub open spec fn child_path(dir: Seq<char>, name: Seq<char>) -> Seq<char> {
    dir + seq!['/'] + name
}

/// The pattern text of an optional filter.
pub open spec fn opt_pattern_view(p: Option<&CompiledPattern>) -> Option<Seq<char>> {
    match p {
        Some(q) => Some(q.pattern()),
        None => None,
    }
}

/// Whether an optional filter is present and matches `text`.
pub open spec fn filter_matches(p: Option<Seq<char>>, text: Seq<char>) -> bool {
    match p {
        Some(pattern) => regex_accepts(pattern, text),
        None => false,
    }
}

/// The absolute paths that the walk yields for one entry of the directory
/// at `dir`: nothing if the entry's path matches the ignore filter; the
/// recursive walk if it is a directory; the file's path if the allow
/// filter is absent or matches.
pub open spec fn spec_discover_node(
    dir: Seq<char>,
    node: FsNode,
    inc: Option<Seq<char>>,
    ign: Option<Seq<char>>,
) -> Seq<Seq<char>>
    decreases node,
{
    let path = child_path(dir, node.name_spec());
    if filter_matches(ign, path) {
        Seq::<Seq<char>>::empty()
    } else {
        match node {
            FsNode::File { .. } => if inc is None || filter_matches(inc, path) {
                seq![path]
            } else {
                Seq::<Seq<char>>::empty()
            },
            FsNode::Dir { children, .. } => spec_discover_list(path, children@, inc, ign),
        }
    }
}

/// The walk over a whole directory listing, in order.
pub open spec fn spec_discover_list(
    dir: Seq<char>,
    nodes: Seq<FsNode>,
    inc: Option<Seq<char>>,
    ign: Option<Seq<char>>,
) -> Seq<Seq<char>>
    decreases nodes,
{
    if nodes.len() == 0 {
        Seq::<Seq<char>>::empty()
    } else {
        spec_discover_node(dir, nodes.first(), inc, ign) + spec_discover_list(
            dir,
            nodes.drop_first(),
            inc,
            ign,
        )
    }
}

/// The paths of every regular file reachable from one entry, with no
/// filtering at all: the independently stated full file-system walk.
pub open spec fn spec_all_files_node(dir: Seq<char>, node: FsNode) -> Seq<Seq<char>>
    decreases node,
{
    let path = child_path(dir, node.name_spec());
    match node {
        FsNode::File { .. } => seq![path],
        FsNode::Dir { children, .. } => spec_all_files_list(path, children@),
    }
}

/// The paths of every regular file reachable from a whole listing.
pub open spec fn spec_all_files_list(dir: Seq<char>, nodes: Seq<FsNode>) -> Seq<Seq<char>>
    decreases nodes,
{
    if nodes.len() == 0 {
        Seq::<Seq<char>>::empty()
    } else {
        spec_all_files_node(dir, nodes.first()) + spec_all_files_list(
            dir,
            nodes.drop_first(),
        )
    }
}

/// With no allow filter and no ignore filter, the walk over one entry
/// yields exactly every regular file reachable from it.
pub proof fn lemma_unfiltered_walk_node(dir: Seq<char>, node: FsNode)
    ensures
        spec_discover_node(dir, node, None, None) == spec_all_files_node(dir, node),
    decreases node,
{
    match node {
        FsNode::File { .. } => {},
        FsNode::Dir { children, .. } => {
            lemma_unfiltered_walk_list(child_path(dir, node.name_spec()), children@);
        },
    }
}

/// With no allow filter and no ignore filter, the walk over a listing
/// yields exactly every regular file reachable under it, in traversal
/// order.
pub proof fn lemma_unfiltered_walk_list(dir: Seq<char>, nodes: Seq<FsNode>)
    ensures
        spec_discover_list(dir, nodes, None, None) == spec_all_files_list(dir, nodes),
    decreases nodes,
{
    if nodes.len() > 0 {
        lemma_unfiltered_walk_node(dir, nodes.first());
        lemma_unfiltered_walk_list(dir, nodes.drop_first());
    }
}

/// An entry whose path matches the ignore filter contributes nothing at
/// all: an ignored directory is never descended into, so no file beneath
/// it appears in the result, whatever the allow filter would say.
pub proof fn lemma_ignored_entry_pruned(
    dir: Seq<char>,
    node: FsNode,
    inc: Option<Seq<char>>,
    ign: Option<Seq<char>>,
)
    requires
        filter_matches(ign, child_path(dir, node.name_spec())),
    ensures
        spec_discover_node(dir, node, inc, ign) == Seq::<Seq<char>>::empty(),
{
}

/// Extending a listing on the right extends the walk's result on the right.
proof fn lemma_discover_list_push(
    dir: Seq<char>,
    nodes: Seq<FsNode>,
    node: FsNode,
    inc: Option<Seq<char>>,
    ign: Option<Seq<char>>,
)
    ensures
        spec_discover_list(dir, nodes.push(node), inc, ign) == spec_discover_list(
            dir,
            nodes,
            inc,
            ign,
        ) + spec_discover_node(dir, node, inc, ign),
    decreases nodes.len(),
{
    if nodes.len() == 0 {
        assert(nodes.push(node).drop_first() =~= nodes);
        assert(spec_discover_list(dir, nodes.push(node), inc, ign)
            =~= spec_discover_list(dir, nodes, inc, ign) + spec_discover_node(
            dir,
            node,
            inc,
            ign,
        ));
    } else {
        assert(nodes.push(node).drop_first() =~= nodes.drop_first().push(node));
        lemma_discover_list_push(dir, nodes.drop_first(), node, inc, ign);
        assert(nodes.push(node).first() == nodes.first());
        assert(spec_discover_list(dir, nodes.push(node), inc, ign)
            =~= spec_discover_list(dir, nodes, inc, ign) + spec_discover_node(
            dir,
            node,
            inc,
            ign,
        ));
    }
}

/// Builds the full path of the entry `name` under `dir`.
fn join_path(dir: &str, name: &str) -> (r: String)
    ensures
        r@ == child_path(dir@, name@),
{
    let mut r = dir.to_owned();
    r.append("/");
    proof {
        reveal_strlit("/");
        assert(("/")@ =~= seq!['/']);
    }
    r.append(name);
    r
}

/// Walks one entry; see `spec_discover_node` for what is kept and pruned.
fn discover_node(
    dir: &str,
    node: &FsNode,
    inc: Option<&CompiledPattern>,
    ignore: Option<&CompiledPattern>,
) -> (r: Vec<String>)
    ensures
        r.deep_view() == spec_discover_node(
            dir@,
            *node,
            opt_pattern_view(inc),
            opt_pattern_view(ignore),
        ),
    decreases *node,
{
    let name: &String = match node {
        FsNode::File { name } => name,
        FsNode::Dir { name, .. } => name,
    };
    let path = join_path(dir, name.as_str());
    if let Some(ig) = ignore {
        if ig.is_match(path.as_str()) {
            let r: Vec<String> = Vec::new();
            proof {
                assert(r.deep_view() =~= Seq::<Seq<char>>::empty());
            }
            return r;
        }
    }
    match node {
        FsNode::File { .. } => {
            let keep = match inc {
                None => true,
                Some(inc) => inc.is_match(path.as_str()),
            };
            let mut r: Vec<String> = Vec::new();
            if keep {
                let ghost path_view = path@;
                r.push(path);
                proof {
                    assert(r.deep_view() =~= seq![path_view]);
                }
            } else {
                proof {
                    assert(r.deep_view() =~= Seq::<Seq<char>>::empty());
                }
            }
            r
        },
        FsNode::Dir { children, .. } => {
            let mut r: Vec<String> = Vec::new();
            let mut i: usize = 0;
            proof {
                assert(r.deep_view() =~= Seq::<Seq<char>>::empty());
                assert(children@.subrange(0, 0) =~= Seq::<FsNode>::empty());
            }
            while i < children.len()
                invariant
                    i <= children.len(),
                    r.deep_view() == spec_discover_list(
                        path@,
                        children@.subrange(0, i as int),
                        opt_pattern_view(inc),
                        opt_pattern_view(ignore),
                    ),
                    path@ == child_path(dir@, node.name_spec()),
                    !filter_matches(opt_pattern_view(ignore), path@),
                    node matches FsNode::Dir { children: c, .. } && c@ == children@,
                decreases children.len() - i,
            {
                let ghost old_r = r.deep_view();
                let mut sub = discover_node(path.as_str(), &children[i], inc, ignore);
                r.append(&mut sub);
                proof {
                    assert(r.deep_view() =~= old_r + spec_discover_node(
                        path@,
                        children@[i as int],
                        opt_pattern_view(inc),
                        opt_pattern_view(ignore),
                    ));
                    lemma_discover_list_push(
                        path@,
                        children@.subrange(0, i as int),
                        children@[i as int],
                        opt_pattern_view(inc),
                        opt_pattern_view(ignore),
                    );
                    assert(children@.subrange(0, (i + 1) as int)
                        =~= children@.subrange(0, i as int).push(children@[i as int]));
                }
                i = i + 1;
            }
            proof {
                assert(children@.subrange(0, children@.len() as int) =~= children@);
            }
            r
        },
    }
}

/// Walks the listing of the base directory and returns the absolute paths
/// of every qualifying file, in traversal order.
pub fn discover(
    base_dir: &String,
    entries: &Vec<FsNode>,
    inc: Option<&CompiledPattern>,
    ignore: Option<&CompiledPattern>,
) -> (r: Vec<String>)
    ensures
        r.deep_view() == spec_discover_list(
            base_dir@,
            entries@,
            opt_pattern_view(inc),
            opt_pattern_view(ignore),
        ),
{
    let mut r: Vec<String> = Vec::new();
    let mut i: usize = 0;
    proof {
        assert(r.deep_view() =~= Seq::<Seq<char>>::empty());
        assert(entries@.subrange(0, 0) =~= Seq::<FsNode>::empty());
    }
    while i < entries.len()
        invariant
            i <= entries.len(),
            r.deep_view() == spec_discover_list(
                base_dir@,
                entries@.subrange(0, i as int),
                opt_pattern_view(inc),
                opt_pattern_view(ignore),
            ),
        decreases entries.len() - i,
    {
        let ghost old_r = r.deep_view();
        let mut sub = discover_node(base_dir.as_str(), &entries[i], inc, ignore);
        r.append(&mut sub);
        proof {
            assert(r.deep_view() =~= old_r + spec_discover_node(
                base_dir@,
                entries@[i as int],
                opt_pattern_view(inc),
                opt_pattern_view(ignore),
            ));
            lemma_discover_list_push(
                base_dir@,
                entries@.subrange(0, i as int),
                entries@[i as int],
                opt_pattern_view(inc),
                opt_pattern_view(ignore),
            );
            assert(entries@.subrange(0, (i + 1) as int)
                =~= entries@.subrange(0, i as int).push(entries@[i as int]));
        }
        i = i + 1;
    }
    proof {
        assert(entries@.subrange(0, entries@.len() as int) =~= entries@);
    }
    r
}

} // verus!

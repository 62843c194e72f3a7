//! The whole pipeline for one asset group: compile the optional filters,
//! walk the directory tree, and assemble the ordered entry list. The
//! caller supplies the base directory's path, its listing as a tree value,
//! and the optional allow/ignore pattern texts.

use vstd::prelude::*;

use crate::assembly::{all_under, assemble, assemble_post, under_base, AssetGroupResult};
use crate::discovery::{
    child_path, discover, filter_matches, spec_discover_list, spec_discover_node, wf_node,
    FsNode,
};
use crate::errors::AssetError;
use crate::patterns::{regex_valid, CompiledPattern};

verus! {

/// The text of an optional pattern argument.
pub open spec fn opt_string_view(p: Option<&String>) -> Option<Seq<char>> {
    match p {
        Some(s) => Some(s@),
        None => None,
    }
}

/// Whether a pattern argument is present and not a valid regular
/// expression.
pub open spec fn pattern_invalid(p: Option<Seq<char>>) -> bool {
    match p {
        Some(s) => !regex_valid(s),
        None => false,
    }
}

/// Everything `build_group` promises: an invalid pattern is reported as
/// such (the allow pattern first), and otherwise the result is exactly the
/// assembly of the filtered walk of the tree.
pub open spec fn build_group_post(
    base: Seq<char>,
    entries: Seq<FsNode>,
    inc: Option<Seq<char>>,
    ign: Option<Seq<char>>,
    r: Result<AssetGroupResult, AssetError>,
) -> bool {
    if pattern_invalid(inc) {
        r matches Err(AssetError::InvalidPattern { pattern }) && Some(pattern@) == inc
    } else if pattern_invalid(ign) {
        r matches Err(AssetError::InvalidPattern { pattern }) && Some(pattern@) == ign
    } else {
        assemble_post(base, spec_discover_list(base, entries, inc, ign), r)
    }
}

/// Runs one asset group through the pipeline: filters are compiled, the
/// tree is walked, and the discovered paths are assembled into the final
/// ordered entry list.
pub fn build_group(
    base_dir: &String,
    entries: &Vec<FsNode>,
    inc: Option<&String>,
    ignore: Option<&String>,
) -> (r: Result<AssetGroupResult, AssetError>)
    ensures
        build_group_post(
            base_dir@,
            entries@,
            opt_string_view(inc),
            opt_string_view(ignore),
            r,
        ),
{
    let inc_pat: Option<CompiledPattern> = match inc {
        None => None,
        Some(s) => match CompiledPattern::compile(s.as_str()) {
            Some(p) => Some(p),
            None => {
                return Err(AssetError::InvalidPattern { pattern: s.clone() });
            },
        },
    };
    let ign_pat: Option<CompiledPattern> = match ignore {
        None => None,
        Some(s) => match CompiledPattern::compile(s.as_str()) {
            Some(p) => Some(p),
            None => {
                return Err(AssetError::InvalidPattern { pattern: s.clone() });
            },
        },
    };
    let discovered = discover(base_dir, entries, inc_pat.as_ref(), ign_pat.as_ref());
    assemble(base_dir, &discovered)
}

/// Every path that the walk yields for one well-formed entry of the
/// directory at `dir` lies strictly under `base`, provided `dir` is `base`
/// itself or already lies under it.
proof fn lemma_walk_node_under(
    base: Seq<char>,
    dir: Seq<char>,
    node: FsNode,
    inc: Option<Seq<char>>,
    ign: Option<Seq<char>>,
)
    requires
        wf_node(node),
        dir == base || under_base(base, dir),
    ensures
        forall|k: int|
            0 <= k < spec_discover_node(dir, node, inc, ign).len() ==> under_base(
                base,
                #[trigger] spec_discover_node(dir, node, inc, ign)[k],
            ),
    decreases node,
{
    let path = child_path(dir, node.name_spec());
    assert(node.name_spec().len() > 0);
    if dir == base {
        assert(path.subrange(0, base.len() + 1 as int) =~= base + seq!['/']);
    } else {
        assert(path.subrange(0, base.len() + 1 as int) =~= dir.subrange(
            0,
            base.len() + 1 as int,
        ));
    }
    assert(under_base(base, path));
    match node {
        FsNode::File { .. } => {
            assert forall|k: int|
                0 <= k < spec_discover_node(dir, node, inc, ign).len() implies under_base(
                base,
                #[trigger] spec_discover_node(dir, node, inc, ign)[k],
            ) by {
                assert(spec_discover_node(dir, node, inc, ign) == seq![path]);
                assert(spec_discover_node(dir, node, inc, ign)[k] == path);
            }
        },
        FsNode::Dir { children, .. } => {
            if !filter_matches(ign, path) {
                lemma_walk_list_under(base, path, children@, inc, ign);
                assert forall|k: int|
                    0 <= k < spec_discover_node(dir, node, inc, ign).len() implies under_base(
                    base,
                    #[trigger] spec_discover_node(dir, node, inc, ign)[k],
                ) by {
                    assert(spec_discover_node(dir, node, inc, ign) == spec_discover_list(
                        path,
                        children@,
                        inc,
                        ign,
                    ));
                    assert(spec_discover_node(dir, node, inc, ign)[k]
                        == spec_discover_list(path, children@, inc, ign)[k]);
                }
            } else {
                assert(spec_discover_node(dir, node, inc, ign).len() == 0);
            }
        },
    }
}

/// The same, over a whole listing.
proof fn lemma_walk_list_under(
    base: Seq<char>,
    dir: Seq<char>,
    nodes: Seq<FsNode>,
    inc: Option<Seq<char>>,
    ign: Option<Seq<char>>,
)
    requires
        forall|i: int| 0 <= i < nodes.len() ==> wf_node(#[trigger] nodes[i]),
        dir == base || under_base(base, dir),
    ensures
        forall|k: int|
            0 <= k < spec_discover_list(dir, nodes, inc, ign).len() ==> under_base(
                base,
                #[trigger] spec_discover_list(dir, nodes, inc, ign)[k],
            ),
    decreases nodes,
{
    if nodes.len() > 0 {
        lemma_walk_node_under(base, dir, nodes.first(), inc, ign);
        assert(forall|i: int|
            0 <= i < nodes.drop_first().len() ==> wf_node(
                #[trigger] nodes.drop_first()[i],
            ));
        lemma_walk_list_under(base, dir, nodes.drop_first(), inc, ign);
        let a = spec_discover_node(dir, nodes.first(), inc, ign);
        let b = spec_discover_list(dir, nodes.drop_first(), inc, ign);
        assert forall|k: int|
            0 <= k < spec_discover_list(dir, nodes, inc, ign).len() implies under_base(
            base,
            #[trigger] spec_discover_list(dir, nodes, inc, ign)[k],
        ) by {
            if k < a.len() {
                assert(spec_discover_list(dir, nodes, inc, ign)[k] == a[k]);
            } else {
                assert(spec_discover_list(dir, nodes, inc, ign)[k] == b[k - a.len()]);
            }
        }
    }
}

/// With a well-formed tree every discovered path lies strictly under the
/// base directory: assembly's outside-base error cannot arise from the
/// walk's own output.
pub proof fn lemma_discovered_under_base(
    base: Seq<char>,
    nodes: Seq<FsNode>,
    inc: Option<Seq<char>>,
    ign: Option<Seq<char>>,
)
    requires
        forall|i: int| 0 <= i < nodes.len() ==> wf_node(#[trigger] nodes[i]),
    ensures
        all_under(base, spec_discover_list(base, nodes, inc, ign)),
{
    lemma_walk_list_under(base, base, nodes, inc, ign);
}

} // verus!

//! Assembly: discovered absolute paths become the final ordered entry
//! list. Each path is checked to lie under the base directory, its relative
//! path and identifier are derived, and the identifiers are checked to be
//! pairwise distinct before success is returned. An empty input is a
//! configuration error, never an empty success.

use vstd::prelude::*;
use vstd::string::*;

use crate::errors::AssetError;
use crate::naming::{path_to_variant_name, spec_variant_name};

verus! {

/// One discovered file: its synthesized identifier, its path relative to
/// the base directory (the externally visible logical path), and the full
/// path used to read the content.
#[derive(Debug)]
pub struct AssetEntry {
    pub identifier: String,
    pub relative_path: String,
    pub absolute_path: String,
}

/// The mathematical value of an `AssetEntry`: its three path strings.
pub ghost struct AssetEntryView {
    pub identifier: Seq<char>,
    pub relative_path: Seq<char>,
    pub absolute_path: Seq<char>,
}

impl View for AssetEntry {
    type V = AssetEntryView;

    open spec fn view(&self) -> AssetEntryView {
        AssetEntryView {
            identifier: self.identifier@,
            relative_path: self.relative_path@,
            absolute_path: self.absolute_path@,
        }
    }
}

/// The ordered, collision-checked result of one pipeline run.
#[derive(Debug)]
pub struct AssetGroupResult {
    pub entries: Vec<AssetEntry>,
}

/// The views of a sequence of entries, pointwise.
pub open spec fn entry_views(es: Seq<AssetEntry>) -> Seq<AssetEntryView> {
    Seq::new(es.len(), |i: int| es[i]@)
}

/// Whether `path` lies strictly under the directory `base`: it begins with
/// `base` followed by a separator, and at least one character follows.
pub open spec fn under_base(base: Seq<char>, path: Seq<char>) -> bool {
    path.len() > base.len() + 1 && path.subrange(0, base.len() + 1 as int) == base + seq!['/']
}

/// The path relative to `base` of an absolute path under it.
pub open spec fn rel_of(base: Seq<char>, path: Seq<char>) -> Seq<char> {
    path.subrange(base.len() + 1 as int, path.len() as int)
}

/// The identifier synthesized for an absolute path under `base`.
pub open spec fn identifier_of(base: Seq<char>, path: Seq<char>) -> Seq<char> {
    spec_variant_name(rel_of(base, path))
}

/// Every path lies under the base directory.
pub open spec fn all_under(base: Seq<char>, paths: Seq<Seq<char>>) -> bool {
    forall|i: int| 0 <= i < paths.len() ==> under_base(base, #[trigger] paths[i])
}

/// No two paths synthesize to the same identifier.
pub open spec fn identifiers_unique(base: Seq<char>, paths: Seq<Seq<char>>) -> bool {
    forall|i: int, j: int|
        0 <= i < j < paths.len() ==> identifier_of(base, #[trigger] paths[i]) != identifier_of(
            base,
            #[trigger] paths[j],
        )
}

/// The entries are exactly the records derived from `paths`, in order.
pub open spec fn entries_correspond(
    base: Seq<char>,
    paths: Seq<Seq<char>>,
    es: Seq<AssetEntryView>,
) -> bool {
    &&& es.len() == paths.len()
    &&& forall|i: int|
        0 <= i < paths.len() ==> {
            let e = #[trigger] es[i];
            &&& e.absolute_path == paths[i]
            &&& e.relative_path == rel_of(base, paths[i])
            &&& e.identifier == identifier_of(base, paths[i])
        }
}

/// Everything `assemble` promises about its result: success exactly when
/// the input is non-empty, wholly under the base directory and free of
/// identifier collisions; on success the entries correspond to the paths
/// in order; each error names the input that caused it.
pub open spec fn assemble_post(
    base: Seq<char>,
    paths: Seq<Seq<char>>,
    r: Result<AssetGroupResult, AssetError>,
) -> bool {
    &&& (r is Ok <==> paths.len() > 0 && all_under(base, paths) && identifiers_unique(
        base,
        paths,
    ))
    &&& match r {
        Ok(g) => entries_correspond(base, paths, entry_views(g.entries@)),
        Err(e) => match e {
            AssetError::NoMatches => paths.len() == 0,
            AssetError::PathOutsideBase { path } => exists|i: int|
                0 <= i < paths.len() && path@ == #[trigger] paths[i] && !under_base(
                    base,
                    paths[i],
                ),
            AssetError::DuplicateIdentifier { identifier, first_path, second_path } => exists|
                i: int,
                j: int,
            |
                {
                    &&& 0 <= i < j < paths.len()
                    &&& identifier_of(base, #[trigger] paths[i]) == identifier_of(
                        base,
                        #[trigger] paths[j],
                    )
                    &&& identifier@ == identifier_of(base, paths[i])
                    &&& first_path@ == rel_of(base, paths[i])
                    &&& second_path@ == rel_of(base, paths[j])
                },
            _ => false,
        },
    }
}

/// The invariant of a successfully assembled group: because success
/// demands pairwise distinct identifiers over the input paths and each
/// entry carries the identifier of its path, the identifiers of the
/// entries themselves are pairwise distinct.
pub proof fn lemma_result_identifiers_unique(
    base: Seq<char>,
    paths: Seq<Seq<char>>,
    es: Seq<AssetEntryView>,
)
    requires
        entries_correspond(base, paths, es),
        identifiers_unique(base, paths),
    ensures
        forall|i: int, j: int|
            0 <= i < j < es.len() ==> #[trigger] es[i].identifier != #[trigger] es[j].identifier,
{
    assert forall|i: int, j: int|
        0 <= i < j < es.len() implies #[trigger] es[i].identifier
        != #[trigger] es[j].identifier by {
        assert(es[i].identifier == identifier_of(base, paths[i]));
        assert(es[j].identifier == identifier_of(base, paths[j]));
    }
}

/// Zips the discovered paths with their synthesized identifiers into the
/// final ordered entry list, failing on an empty input, a path outside the
/// base directory, or an identifier collision.
pub fn assemble(base_dir: &String, paths: &Vec<String>) -> (r: Result<
    AssetGroupResult,
    AssetError,
>)
    ensures
        assemble_post(base_dir@, paths.deep_view(), r),
{
    let ghost dv = paths.deep_view();
    if paths.len() == 0 {
        proof {
            assert(dv.len() == 0);
        }
        return Err(AssetError::NoMatches);
    }
    let base_len = base_dir.as_str().unicode_len();
    let mut expected_prefix = base_dir.clone();
    expected_prefix.append("/");
    proof {
        reveal_strlit("/");
        assert(("/")@ =~= seq!['/']);
        assert(expected_prefix@ == base_dir@ + seq!['/']);
    }
    let mut idx: usize = 0;
    while idx < paths.len()
        invariant
            idx <= paths.len(),
            dv == paths.deep_view(),
            dv.len() == paths@.len(),
            base_len == base_dir@.len(),
            expected_prefix@ == base_dir@ + seq!['/'],
            forall|i: int| 0 <= i < idx ==> under_base(base_dir@, #[trigger] dv[i]),
        decreases paths.len() - idx,
    {
        let p = &paths[idx];
        proof {
            assert(dv[idx as int] == p@);
        }
        let plen = p.as_str().unicode_len();
        let mut ok = false;
        if plen > base_len && plen - base_len > 1 {
            let prefix = p.as_str().substring_char(0, base_len + 1).to_owned();
            ok = prefix == expected_prefix;
        }
        if !ok {
            proof {
                assert(!under_base(base_dir@, dv[idx as int]));
            }
            return Err(AssetError::PathOutsideBase { path: p.clone() });
        }
        proof {
            assert(under_base(base_dir@, dv[idx as int]));
        }
        idx = idx + 1;
    }
    proof {
        assert(all_under(base_dir@, dv));
    }
    let mut entries: Vec<AssetEntry> = Vec::new();
    let mut idx: usize = 0;
    while idx < paths.len()
        invariant
            idx <= paths.len(),
            dv == paths.deep_view(),
            dv.len() == paths@.len(),
            base_len == base_dir@.len(),
            all_under(base_dir@, dv),
            entries@.len() == idx,
            entries_correspond(
                base_dir@,
                dv.subrange(0, idx as int),
                entry_views(entries@),
            ),
            forall|i: int, j: int|
                0 <= i < j < idx ==> identifier_of(base_dir@, #[trigger] dv[i])
                    != identifier_of(base_dir@, #[trigger] dv[j]),
        decreases paths.len() - idx,
    {
        let p = &paths[idx];
        proof {
            assert(dv[idx as int] == p@);
            assert(under_base(base_dir@, dv[idx as int]));
        }
        let plen = p.as_str().unicode_len();
        let rel = p.as_str().substring_char(base_len + 1, plen).to_owned();
        proof {
            assert(rel@ == rel_of(base_dir@, dv[idx as int]));
        }
        let ident = path_to_variant_name(rel.as_str());
        proof {
            assert(ident@ == identifier_of(base_dir@, dv[idx as int]));
        }
        let mut j: usize = 0;
        while j < entries.len()
            invariant
                j <= entries.len(),
                idx < paths@.len(),
                entries@.len() == idx,
                dv == paths.deep_view(),
                dv.len() == paths@.len(),
                entries_correspond(
                    base_dir@,
                    dv.subrange(0, idx as int),
                    entry_views(entries@),
                ),
                ident@ == identifier_of(base_dir@, dv[idx as int]),
                rel@ == rel_of(base_dir@, dv[idx as int]),
                forall|t: int|
                    0 <= t < j ==> identifier_of(base_dir@, #[trigger] dv[t])
                        != identifier_of(base_dir@, dv[idx as int]),
            decreases entries.len() - j,
        {
            if entries[j].identifier == ident {
                proof {
                    assert(entry_views(entries@)[j as int].identifier == identifier_of(
                        base_dir@,
                        dv.subrange(0, idx as int)[j as int],
                    ));
                    assert(dv.subrange(0, idx as int)[j as int] == dv[j as int]);
                    assert(identifier_of(base_dir@, dv[j as int]) == identifier_of(
                        base_dir@,
                        dv[idx as int],
                    ));
                }
                let r: Result<AssetGroupResult, AssetError> = Err(
                    AssetError::DuplicateIdentifier {
                        identifier: ident,
                        first_path: entries[j].relative_path.clone(),
                        second_path: rel,
                    },
                );
                proof {
                    let wi = j as int;
                    let wj = idx as int;
                    assert({
                        &&& 0 <= wi < wj < dv.len()
                        &&& identifier_of(base_dir@, dv[wi]) == identifier_of(
                            base_dir@,
                            dv[wj],
                        )
                        &&& r matches Err(AssetError::DuplicateIdentifier {
                            identifier,
                            first_path,
                            second_path,
                        }) && identifier@ == identifier_of(base_dir@, dv[wi])
                            && first_path@ == rel_of(base_dir@, dv[wi]) && second_path@
                            == rel_of(base_dir@, dv[wj])
                    });
                    assert(!identifiers_unique(base_dir@, dv));
                }
                return r;
            }
            proof {
                assert(entry_views(entries@)[j as int].identifier == identifier_of(
                    base_dir@,
                    dv[j as int],
                ));
            }
            j = j + 1;
        }
        let ghost old_entries = entries@;
        entries.push(
            AssetEntry { identifier: ident, relative_path: rel, absolute_path: p.clone() },
        );
        proof {
            assert(entries@ =~= old_entries.push(entries@[idx as int]));
            assert(entry_views(entries@) =~= entry_views(old_entries).push(
                entries@[idx as int]@,
            ));
            assert(dv.subrange(0, (idx + 1) as int) =~= dv.subrange(0, idx as int).push(
                dv[idx as int],
            ));
        }
        idx = idx + 1;
    }
    proof {
        assert(dv.subrange(0, dv.len() as int) =~= dv);
        assert(identifiers_unique(base_dir@, dv));
    }
    Ok(AssetGroupResult { entries })
}

} // verus!

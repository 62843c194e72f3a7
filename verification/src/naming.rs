//! Identifier synthesis: a relative file path becomes a Pascal-case
//! identifier. The path is split at `/`, `\` and `.`; each fragment is
//! Pascal-cased; the fragments are concatenated; a leading digit is guarded
//! by an `Asset` prefix so the result is a valid identifier.

use vstd::prelude::*;
use vstd::string::*;

verus! {

/// The characters at which a path is cut into fragments: both path
/// separator conventions, and the dot before an extension.
pub open spec fn is_path_separator(c: char) -> bool {
    c == '/' || c == '\\' || c == '.'
}

/// An ASCII digit; an identifier must not begin with one.
pub open spec fn is_digit_char(c: char) -> bool {
    48 <= c as u32 && c as u32 <= 57
}

/// The fragments of `s` between separator characters, in order. A separator
/// at either end, or two in a row, contributes an empty fragment.
pub open spec fn spec_split(s: Seq<char>) -> Seq<Seq<char>>
    decreases s.len(),
{
    if s.len() == 0 {
        seq![Seq::<char>::empty()]
    } else if is_path_separator(s.last()) {
        spec_split(s.drop_last()).push(Seq::<char>::empty())
    } else {
        let r = spec_split(s.drop_last());
        r.update(r.len() - 1, r.last().push(s.last()))
    }
}

/// What `convert_case` produces for one fragment: Pascal case with the
/// crate's default word boundaries. Named, not spelled out: the full case
/// folding rules live in the outside crate.
pub uninterp spec fn pascal_of(fragment: Seq<char>) -> Seq<char>;

/// The Pascal-cased fragments of the whole path, concatenated.
pub open spec fn concat_pascal(fragments: Seq<Seq<char>>) -> Seq<char>
    decreases fragments.len(),
{
    if fragments.len() == 0 {
        Seq::<char>::empty()
    } else {
        pascal_of(fragments.first()) + concat_pascal(fragments.drop_first())
    }
}

/// The literal prefix that guards a digit-leading name.
pub open spec fn asset_prefix() -> Seq<char> {
    seq!['A', 's', 's', 'e', 't']
}

/// The identifier synthesized for a relative path: the concatenation of the
/// Pascal-cased fragments, with the `Asset` prefix exactly when that
/// concatenation begins with a digit.
pub open spec fn spec_variant_name(path: Seq<char>) -> Seq<char> {
    let raw = concat_pascal(spec_split(path));
    if raw.len() > 0 && is_digit_char(raw[0]) {
        asset_prefix() + raw
    } else {
        raw
    }
}

/// Relies on `convert_case`: `Converter::new().to_case(Case::Pascal)`
/// converts with the crate's default word boundaries and the capitalizing
/// pattern, a pure function of the input string alone.
#[verifier::external_body]
fn pascal_word(w: &str) -> (r: String)
    ensures
        r@ == pascal_of(w@),
{
    convert_case::Converter::new()
        .to_case(convert_case::Case::Pascal)
        .convert(w)
}

/// Cuts `path` at separator characters into its fragments.
pub fn split_path(path: &str) -> (frags: Vec<String>)
    ensures
        frags.deep_view() == spec_split(path@),
{
    let n = path.unicode_len();
    let mut frags: Vec<String> = Vec::new();
    let mut start: usize = 0;
    let mut i: usize = 0;
    proof {
        assert(path@.subrange(0, 0) =~= Seq::<char>::empty());
        assert(frags.deep_view() =~= Seq::<Seq<char>>::empty());
        assert(spec_split(path@.subrange(0, 0)) == frags.deep_view().push(
            path@.subrange(0, 0),
        ));
    }
    while i < n
        invariant
            start <= i <= n,
            n == path@.len(),
            spec_split(path@.subrange(0, i as int)) == frags.deep_view().push(
                path@.subrange(start as int, i as int),
            ),
        decreases n - i,
    {
        let ghost old_frags = frags.deep_view();
        let ghost old_start = start as int;
        let c = path.get_char(i);
        if c == '/' || c == '\\' || c == '.' {
            let frag = path.substring_char(start, i).to_owned();
            frags.push(frag);
            start = i + 1;
            proof {
                let pre = path@.subrange(0, i + 1);
                assert(pre.drop_last() =~= path@.subrange(0, i as int));
                assert(is_path_separator(pre.last()));
                assert(frags.deep_view() =~= old_frags.push(
                    path@.subrange(old_start, i as int),
                ));
                assert(spec_split(pre) == frags.deep_view().push(
                    Seq::<char>::empty(),
                ));
                assert(path@.subrange(start as int, (i + 1) as int) =~= Seq::<
                    char,
                >::empty());
            }
        } else {
            proof {
                let pre = path@.subrange(0, i + 1);
                assert(pre.drop_last() =~= path@.subrange(0, i as int));
                assert(!is_path_separator(pre.last()));
                let r = spec_split(path@.subrange(0, i as int));
                assert(r == old_frags.push(path@.subrange(old_start, i as int)));
                assert(r.last() == path@.subrange(old_start, i as int));
                assert(r.update(r.len() - 1, r.last().push(pre.last()))
                    =~= old_frags.push(
                    path@.subrange(old_start, i as int).push(path@[i as int]),
                ));
                assert(path@.subrange(old_start, i as int).push(path@[i as int])
                    =~= path@.subrange(old_start, (i + 1) as int));
            }
        }
        i = i + 1;
    }
    let frag = path.substring_char(start, n).to_owned();
    let ghost old_frags = frags.deep_view();
    frags.push(frag);
    proof {
        assert(path@.subrange(0, n as int) =~= path@);
        assert(frags.deep_view() =~= old_frags.push(
            path@.subrange(start as int, n as int),
        ));
    }
    frags
}

/// Appending one fragment on the right extends the concatenation on the
/// right.
proof fn lemma_concat_pascal_push(fragments: Seq<Seq<char>>, f: Seq<char>)
    ensures
        concat_pascal(fragments.push(f)) == concat_pascal(fragments) + pascal_of(f),
    decreases fragments.len(),
{
    if fragments.len() == 0 {
        assert(fragments.push(f).drop_first() =~= fragments);
        assert(concat_pascal(fragments.push(f)) =~= concat_pascal(fragments)
            + pascal_of(f));
    } else {
        assert(fragments.push(f).drop_first() =~= fragments.drop_first().push(f));
        lemma_concat_pascal_push(fragments.drop_first(), f);
        assert(fragments.push(f).first() == fragments.first());
        assert(concat_pascal(fragments.push(f)) =~= concat_pascal(fragments)
            + pascal_of(f));
    }
}

/// Converts a relative file path to a valid Pascal-case identifier.
pub fn path_to_variant_name(path: &str) -> (r: String)
    ensures
        r@ == spec_variant_name(path@),
        r@.len() > 0 ==> !is_digit_char(r@[0]),
{
    let frags = split_path(path);
    let mut out = String::new();
    let mut i: usize = 0;
    proof {
        assert(frags.deep_view().subrange(0, 0) =~= Seq::<Seq<char>>::empty());
    }
    while i < frags.len()
        invariant
            i <= frags.len(),
            frags.deep_view() == spec_split(path@),
            out@ == concat_pascal(frags.deep_view().subrange(0, i as int)),
        decreases frags.len() - i,
    {
        let w = pascal_word(frags[i].as_str());
        out.append(w.as_str());
        proof {
            lemma_concat_pascal_push(
                frags.deep_view().subrange(0, i as int),
                frags.deep_view()[i as int],
            );
            assert(frags.deep_view().subrange(0, (i + 1) as int)
                =~= frags.deep_view().subrange(0, i as int).push(
                frags.deep_view()[i as int],
            ));
        }
        i = i + 1;
    }
    proof {
        assert(frags.deep_view().subrange(0, frags.len() as int)
            =~= frags.deep_view());
    }
    let m = out.as_str().unicode_len();
    if m > 0 {
        let c = out.as_str().get_char(0);
        let u = c as u32;
        if 48 <= u && u <= 57 {
            let mut prefixed = String::from_str("Asset");
            proof {
                reveal_strlit("Asset");
                assert(("Asset")@ =~= asset_prefix());
            }
            prefixed.append(out.as_str());
            proof {
                assert(prefixed@ == spec_variant_name(path@));
                assert(prefixed@[0] == 'A');
            }
            return prefixed;
        }
    }
    out
}

/// Synthesis is deterministic and pure: the identifier is a function of the
/// relative path alone, so two runs over the same path agree.
pub proof fn lemma_synthesis_deterministic(a: Seq<char>, b: Seq<char>)
    requires
        a == b,
    ensures
        spec_variant_name(a) == spec_variant_name(b),
{
}

/// No synthesized identifier begins with a digit: a digit-leading name is
/// guarded by the `Asset` prefix.
pub proof fn lemma_no_leading_digit(path: Seq<char>)
    ensures
        spec_variant_name(path).len() > 0 ==> !is_digit_char(
            spec_variant_name(path)[0],
        ),
{
}

} // verus!

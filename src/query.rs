use crate::key::{
    extract_suffix, fields_present, first_missing, prefix_of, render_prefix, strictly_under,
    suffix_after, KeyError, KeyTemplate, Segment,
};
use vstd::prelude::*;
use vstd::utf8::*;

verus! {

/// Whether a scanned key reads back under `prefix`.
pub open spec fn key_decodes(prefix: Seq<char>, key: Seq<u8>) -> bool {
    valid_utf8(key) && strictly_under(prefix, decode_utf8(key))
}

/// The full components of the `i`-th scanned key: the fixed ones, then the
/// trailing field bound to what follows the prefix.
pub open spec fn completed(
    partial: Seq<(Seq<char>, Seq<char>)>,
    last_field: Seq<char>,
    prefix: Seq<char>,
    key: Seq<u8>,
) -> Seq<(Seq<char>, Seq<char>)> {
    partial.push((last_field, suffix_after(prefix, decode_utf8(key))))
}

/// A copy of `comps`, entry by entry.
pub fn copy_components(comps: &Vec<(String, String)>) -> (r: Vec<(String, String)>)
    ensures
        r.deep_view() == comps.deep_view(),
{
    let mut out: Vec<(String, String)> = Vec::new();
    let mut i: usize = 0;
    while i < comps.len()
        invariant
            i <= comps.len(),
            out.len() == i,
            out.deep_view() == comps.deep_view().subrange(0, i as int),
        decreases comps.len() - i,
    {
        let pair = (comps[i].0.clone(), comps[i].1.clone());
        let ghost prev = out@;
        let ghost prev_deep = out.deep_view();
        out.push(pair);
        assert forall|k: int| 0 <= k < i + 1 implies #[trigger] out.deep_view()[k]
            == comps.deep_view()[k] by {
            if k < i {
                assert(out@[k] == prev[k]);
                assert(prev_deep[k] == prev[k].deep_view());
            }
        }
        assert(out.deep_view() =~= comps.deep_view().subrange(0, i + 1));
        i = i + 1;
    }
    assert(comps.deep_view().subrange(0, comps.len() as int) =~= comps.deep_view());
    out
}

/// What a prefix scan over `keys` returns: see `find_all_by_prefix`.
pub open spec fn scan_outcome(
    template: KeyTemplate,
    partial: Seq<(Seq<char>, Seq<char>)>,
    keys: Seq<Vec<u8>>,
    r: Result<Vec<Vec<(String, String)>>, KeyError>,
) -> bool {
        let segs = template.segments@;
        let prefix = prefix_of(segs, partial);
        match r {
            Ok(found) => fields_present(segs.drop_last(), partial) && found.len()
                == keys.len() && forall|i: int|
                0 <= i < keys.len() ==> key_decodes(prefix, #[trigger] keys[i]@)
                    && found@[i].deep_view() == completed(
                    partial,
                    template.last_field(),
                    prefix,
                    keys[i]@,
                ),
            Err(KeyError::MissingComponent(name)) => !fields_present(
                segs.drop_last(),
                partial,
            ) && first_missing(segs.drop_last(), partial, name@),
            Err(KeyError::MalformedKey { observed, expected_prefix }) => fields_present(
                segs.drop_last(),
                partial,
            ) && expected_prefix@ == prefix && exists|i: int|
                0 <= i < keys.len() && keys[i]@ == observed@ && !key_decodes(
                    prefix,
                    #[trigger] keys[i]@,
                ) && forall|j: int| 0 <= j < i ==> key_decodes(prefix, #[trigger] keys[j]@),
            Err(KeyError::LookupFailure) => false,
        }
}

/// Decodes the keys of a prefix scan into full key components.
///
/// The prefix is rendered from `partial`; each key must lie strictly under it,
/// and what follows is bound to the template's trailing field. The first key
/// that does not read back aborts the whole query.
pub fn find_all_by_prefix(
    template: &KeyTemplate,
    partial: &Vec<(String, String)>,
    keys: &Vec<Vec<u8>>,
) -> (r: Result<Vec<Vec<(String, String)>>, KeyError>)
    requires
        template.wf(),
    ensures
        scan_outcome(*template, partial.deep_view(), keys@, r),
{
    let prefix = match render_prefix(template, partial) {
        Ok(p) => p,
        Err(e) => {
            return Err(e);
        },
    };
    let last = match &template.segments[template.segments.len() - 1] {
        Segment::Field(n) => n.clone(),
        Segment::Literal(_) => {
            // `wf` rules this out: the template ends in a placeholder.
            return Err(KeyError::LookupFailure);
        },
    };
    let ghost pv = prefix_of(template.segments@, partial.deep_view());
    let mut found: Vec<Vec<(String, String)>> = Vec::new();
    let mut i: usize = 0;
    while i < keys.len()
        invariant
            i <= keys.len(),
            prefix@ == pv,
            pv == prefix_of(template.segments@, partial.deep_view()),
            template.wf(),
            fields_present(template.segments@.drop_last(), partial.deep_view()),
            last@ == template.last_field(),
            found.len() == i,
            forall|m: int|
                0 <= m < i ==> key_decodes(pv, #[trigger] keys@[m]@) && found@[m].deep_view()
                    == completed(partial.deep_view(), last@, pv, keys@[m]@),
        decreases keys.len() - i,
    {
        let suffix = match extract_suffix(&prefix, keys[i].as_slice()) {
            Ok(s) => s,
            Err(e) => {
                assert(!key_decodes(pv, keys@[i as int]@));
                return Err(e);
            },
        };
        let mut comps = copy_components(partial);
        comps.push((last.clone(), suffix));
        assert(comps.deep_view() =~= completed(partial.deep_view(), last@, pv, keys@[i as int]@));
        found.push(comps);
        i = i + 1;
    }
    Ok(found)
}

} // verus!

use vstd::prelude::*;
use vstd::string::*;
use vstd::utf8::*;

verus! {

/// One part of a key template: a literal path segment emitted verbatim, or a
/// placeholder replaced by the value of the named key component.
pub enum Segment {
    Literal(String),
    Field(String),
}

/// A key template, parsed into its segments. Rendered, every segment is
/// preceded by `/`: `[Literal("a"), Field("x")]` gives `/a/<x>`.
pub struct KeyTemplate {
    pub segments: Vec<Segment>,
}

/// Why a key could not be built or read back.
pub enum KeyError {
    /// The template names a field that the components do not supply.
    MissingComponent(String),
    /// A scanned key does not lie under the expected prefix, has nothing after
    /// it, or is not UTF-8.
    MalformedKey { observed: Vec<u8>, expected_prefix: String },
    /// A stored payload could not be decoded.
    LookupFailure,
}

/// The value bound to `name`: the last entry for it wins, as with repeated
/// inserts into a map.
pub open spec fn lookup(comps: Seq<(Seq<char>, Seq<char>)>, name: Seq<char>) -> Option<Seq<char>>
    decreases comps.len(),
{
    if comps.len() == 0 {
        None
    } else if comps.last().0 == name {
        Some(comps.last().1)
    } else {
        lookup(comps.drop_last(), name)
    }
}

pub open spec fn field_name(seg: Segment) -> Option<Seq<char>> {
    match seg {
        Segment::Literal(_) => None,
        Segment::Field(n) => Some(n@),
    }
}

/// Whether every placeholder among `segs` has a value in `comps`.
pub open spec fn fields_present(segs: Seq<Segment>, comps: Seq<(Seq<char>, Seq<char>)>) -> bool {
    forall|i: int|
        0 <= i < segs.len() && (#[trigger] field_name(segs[i])) is Some ==> lookup(
            comps,
            field_name(segs[i])->0,
        ) is Some
}

/// Whether `name` is the first placeholder among `segs` that `comps` leaves
/// without a value.
pub open spec fn first_missing(
    segs: Seq<Segment>,
    comps: Seq<(Seq<char>, Seq<char>)>,
    name: Seq<char>,
) -> bool {
    exists|i: int|
        0 <= i < segs.len() && field_name(#[trigger] segs[i]) == Some(name) && lookup(comps, name)
            is None && fields_present(segs.subrange(0, i), comps)
}

/// The text that one segment contributes.
pub open spec fn segment_text(seg: Segment, comps: Seq<(Seq<char>, Seq<char>)>) -> Seq<char> {
    match seg {
        Segment::Literal(s) => s@,
        Segment::Field(n) => match lookup(comps, n@) {
            Some(v) => v,
            None => Seq::empty(),
        },
    }
}

/// The key that `segs` gives with `comps`: each segment's text after a `/`.
pub open spec fn rendered(segs: Seq<Segment>, comps: Seq<(Seq<char>, Seq<char>)>) -> Seq<char>
    decreases segs.len(),
{
    if segs.len() == 0 {
        Seq::empty()
    } else {
        rendered(segs.drop_last(), comps) + seq!['/'] + segment_text(segs.last(), comps)
    }
}

/// The scan prefix of a template: every segment but the last, rendered, and the
/// separator that precedes the last.
pub open spec fn prefix_of(segs: Seq<Segment>, comps: Seq<(Seq<char>, Seq<char>)>) -> Seq<char> {
    rendered(segs.drop_last(), comps) + seq!['/']
}

/// Whether `key` lies strictly under `prefix`: it starts with it and goes on.
pub open spec fn strictly_under(prefix: Seq<char>, key: Seq<char>) -> bool {
    prefix.len() < key.len() && key.subrange(0, prefix.len() as int) == prefix
}

/// What is left of `key` after `prefix`.
pub open spec fn suffix_after(prefix: Seq<char>, key: Seq<char>) -> Seq<char> {
    key.subrange(prefix.len() as int, key.len() as int)
}

/// Whether two texts are the same, character by character.
pub fn same_text(a: &str, b: &str) -> (r: bool)
    ensures
        r == (a@ == b@),
{
    let n = a.unicode_len();
    if n != b.unicode_len() {
        return false;
    }
    let mut i: usize = 0;
    while i < n
        invariant
            i <= n,
            n == a@.len(),
            n == b@.len(),
            forall|m: int| 0 <= m < i ==> a@[m] == b@[m],
        decreases n - i,
    {
        if a.get_char(i) != b.get_char(i) {
            return false;
        }
        i = i + 1;
    }
    assert(a@ =~= b@);
    true
}

/// The value bound to `name` in `comps`, if any.
pub fn find_component<'a>(comps: &'a Vec<(String, String)>, name: &String) -> (r: Option<&'a String>)
    ensures
        match r {
            Some(v) => lookup(comps.deep_view(), name@) == Some(v@),
            None => lookup(comps.deep_view(), name@) is None,
        },
{
    let mut found: Option<&String> = None;
    let mut i: usize = 0;
    while i < comps.len()
        invariant
            i <= comps.len(),
            match found {
                Some(v) => lookup(comps.deep_view().subrange(0, i as int), name@) == Some(v@),
                None => lookup(comps.deep_view().subrange(0, i as int), name@) is None,
            },
        decreases comps.len() - i,
    {
        assert(comps.deep_view().subrange(0, i + 1).drop_last() =~= comps.deep_view().subrange(0, i as int));
        if comps[i].0 == *name {
            found = Some(&comps[i].1);
        }
        i = i + 1;
    }
    assert(comps.deep_view().subrange(0, comps.len() as int) =~= comps.deep_view());
    found
}

/// Renders the first `n` segments of `segs`.
fn render_segments(segs: &Vec<Segment>, n: usize, comps: &Vec<(String, String)>) -> (r: Result<
    String,
    KeyError,
>)
    requires
        n <= segs.len(),
    ensures
        match r {
            Ok(k) => fields_present(segs@.subrange(0, n as int), comps.deep_view()) && k@ == rendered(
                segs@.subrange(0, n as int),
                comps.deep_view(),
            ),
            Err(KeyError::MissingComponent(name)) => first_missing(
                segs@.subrange(0, n as int),
                comps.deep_view(),
                name@,
            ),
            Err(_) => false,
        },
{
    let mut out = String::new();
    let mut i: usize = 0;
    while i < n
        invariant
            i <= n <= segs.len(),
            fields_present(segs@.subrange(0, i as int), comps.deep_view()),
            out@ == rendered(segs@.subrange(0, i as int), comps.deep_view()),
        decreases n - i,
    {
        let ghost before = segs@.subrange(0, i as int);
        let ghost after = segs@.subrange(0, i + 1);
        assert(after.drop_last() =~= before);
        assert(after.last() == segs@[i as int]);
        assert(rendered(after, comps.deep_view()) == rendered(before, comps.deep_view()) + seq!['/']
            + segment_text(segs@[i as int], comps.deep_view()));
        proof {
            reveal_strlit("/");
        }
        out.append("/");
        match &segs[i] {
            Segment::Literal(s) => {
                out.append(s.as_str());
            },
            Segment::Field(name) => {
                match find_component(comps, name) {
                    Some(v) => {
                        out.append(v.as_str());
                    },
                    None => {
                        assert(field_name(segs@[i as int]) == Some(name@));
                        assert(segs@.subrange(0, n as int).subrange(0, i as int) =~= before);
                        assert(segs@.subrange(0, n as int)[i as int] == segs@[i as int]);
                        return Err(KeyError::MissingComponent(name.clone()));
                    },
                }
            },
        }
        assert forall|j: int|
            0 <= j < after.len() && (#[trigger] field_name(after[j])) is Some implies lookup(
                comps.deep_view(),
                field_name(after[j])->0,
            ) is Some by {
            if j < i {
                assert(after[j] == before[j]);
            }
        }
        i = i + 1;
    }
    Ok(out)
}

impl KeyTemplate {
    /// A usable template ends in a placeholder: the component that a prefix
    /// scan reads back from each key.
    pub open spec fn wf(&self) -> bool {
        self.segments@.len() > 0 && field_name(self.segments@.last()) is Some
    }

    /// The name of the trailing placeholder.
    pub open spec fn last_field(&self) -> Seq<char> {
        field_name(self.segments@.last())->0
    }
}

/// Renders the full key of `comps`, placeholders filled in template order.
pub fn render(template: &KeyTemplate, comps: &Vec<(String, String)>) -> (r: Result<
    String,
    KeyError,
>)
    ensures
        r is Ok <==> fields_present(template.segments@, comps.deep_view()),
        match r {
            Ok(k) => k@ == rendered(template.segments@, comps.deep_view()),
            Err(KeyError::MissingComponent(name)) => first_missing(
                template.segments@,
                comps.deep_view(),
                name@,
            ),
            Err(_) => false,
        },
{
    let r = render_segments(&template.segments, template.segments.len(), comps);
    assert(template.segments@.subrange(0, template.segments@.len() as int)
        =~= template.segments@);
    r
}

/// Renders the scan prefix of a template: all segments but the trailing
/// placeholder, then the separator before it, so that a prefix for `5` never
/// takes in the keys of `55`.
pub fn render_prefix(template: &KeyTemplate, comps: &Vec<(String, String)>) -> (r: Result<
    String,
    KeyError,
>)
    requires
        template.wf(),
    ensures
        r is Ok <==> fields_present(template.segments@.drop_last(), comps.deep_view()),
        match r {
            Ok(p) => p@ == prefix_of(template.segments@, comps.deep_view()),
            Err(KeyError::MissingComponent(name)) => first_missing(
                template.segments@.drop_last(),
                comps.deep_view(),
                name@,
            ),
            Err(_) => false,
        },
{
    let n = template.segments.len() - 1;
    let r = render_segments(&template.segments, n, comps);
    assert(template.segments@.subrange(0, n as int) =~= template.segments@.drop_last());
    match r {
        Ok(mut p) => {
            proof {
                reveal_strlit("/");
            }
            p.append("/");
            Ok(p)
        },
        Err(e) => Err(e),
    }
}

/// Relies on std::str::from_utf8: it accepts exactly the valid UTF-8 byte
/// strings, and the text it gives back is made of those bytes.
#[verifier::external_body]
fn utf8_text(b: &[u8]) -> (r: Option<String>)
    ensures
        r is Some <==> valid_utf8(b@),
        r matches Some(t) ==> encode_utf8(t@) == b@,
{
    match std::str::from_utf8(b) {
        Ok(t) => Some(t.to_string()),
        Err(_) => None,
    }
}

/// Reads back the trailing key component of a scanned key: the text of `key`
/// after `prefix`.
pub fn extract_suffix(prefix: &String, key: &[u8]) -> (r: Result<String, KeyError>)
    ensures
        r is Ok <==> valid_utf8(key@) && strictly_under(prefix@, decode_utf8(key@)),
        match r {
            Ok(s) => s@ == suffix_after(prefix@, decode_utf8(key@)),
            Err(KeyError::MalformedKey { observed, expected_prefix }) => observed@ == key@
                && expected_prefix@ == prefix@,
            Err(_) => false,
        },
{
    let malformed = KeyError::MalformedKey {
        observed: vstd::slice::slice_to_vec(key),
        expected_prefix: prefix.clone(),
    };
    let text = match utf8_text(key) {
        Some(t) => t,
        None => {
            return Err(malformed);
        },
    };
    proof {
        encode_utf8_decode_utf8(text@);
    }
    let klen = text.as_str().unicode_len();
    let plen = prefix.as_str().unicode_len();
    if plen >= klen {
        return Err(malformed);
    }
    let mut j: usize = 0;
    while j < plen
        invariant
            j <= plen < klen,
            plen == prefix@.len(),
            klen == text@.len(),
            forall|m: int| 0 <= m < j ==> text@[m] == prefix@[m],
            valid_utf8(key@),
            text@ == decode_utf8(key@),
            malformed matches KeyError::MalformedKey { observed, expected_prefix } && observed@
                == key@ && expected_prefix@ == prefix@,
        decreases plen - j,
    {
        if text.as_str().get_char(j) != prefix.as_str().get_char(j) {
            assert(text@.subrange(0, plen as int)[j as int] != prefix@[j as int]);
            return Err(malformed);
        }
        j = j + 1;
    }
    assert(text@.subrange(0, plen as int) =~= prefix@);
    let rest = text.as_str().substring_char(plen, klen).to_owned();
    Ok(rest)
}

} // verus!

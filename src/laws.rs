use crate::block_message::{
    applied, block_key_view, block_prefix_view, block_type_view, decimal, digit_char, digits,
    id_view, int_or_zero, is_blank, stored_as, text_or_empty, BlockMessageView,
};
use crate::json::{json_int, json_text};
use crate::key::{
    field_name, fields_present, first_missing, lookup, prefix_of, strictly_under, suffix_after,
    KeyError, KeyTemplate, Segment,
};
use crate::query::{completed, key_decodes, scan_outcome};
use vstd::prelude::*;
use vstd::utf8::*;

verus! {

/// Whether a text holds no path separator.
pub open spec fn no_slash(s: Seq<char>) -> bool {
    forall|i: int| 0 <= i < s.len() ==> s[i] != '/'
}

/// Whether `p` is a prefix of `s`.
pub open spec fn is_prefix(p: Seq<char>, s: Seq<char>) -> bool {
    p.len() <= s.len() && s.subrange(0, p.len() as int) == p
}

proof fn lemma_digit_char(d: nat, e: nat)
    requires
        d < 10,
        e < 10,
    ensures
        digit_char(d) != '/',
        digit_char(d) != '-',
        digit_char(d) == digit_char(e) ==> d == e,
{
    assert(((48 + d) as u8) as u32 == 48 + d);
}

proof fn lemma_digits(n: nat)
    ensures
        digits(n).len() >= 1,
        no_slash(digits(n)),
        digits(n)[0] != '-',
    decreases n,
{
    lemma_digit_char(n % 10, 0);
    if n >= 10 {
        lemma_digits(n / 10);
        assert(digits(n)[0] == digits(n / 10)[0]);
    } else {
        lemma_digit_char(n, 0);
    }
}

proof fn lemma_digits_injective(n: nat, m: nat)
    requires
        digits(n) == digits(m),
    ensures
        n == m,
    decreases n,
{
    lemma_digits(n);
    lemma_digits(m);
    let dn = digits(n);
    lemma_digit_char(n % 10, m % 10);
    if n < 10 && m < 10 {
        lemma_digit_char(n, m);
    } else if n < 10 {
        lemma_digits(m / 10);
        assert(digits(m).len() >= 2);
    } else if m < 10 {
        lemma_digits(n / 10);
        assert(digits(n).len() >= 2);
    } else {
        assert(dn.last() == digit_char(n % 10));
        assert(digits(m).last() == digit_char(m % 10));
        assert(digits(n / 10) == dn.drop_last());
        assert(digits(m / 10) == digits(m).drop_last());
        lemma_digits_injective(n / 10, m / 10);
    }
}

/// Decimal texts hold no separator, and tell integers apart.
proof fn lemma_decimal(n: int, m: int)
    ensures
        no_slash(decimal(n)),
        decimal(n) == decimal(m) ==> n == m,
{
    if n < 0 {
        lemma_digits((-n) as nat);
    } else {
        lemma_digits(n as nat);
    }
    if m < 0 {
        lemma_digits((-m) as nat);
    } else {
        lemma_digits(m as nat);
    }
    if decimal(n) == decimal(m) {
        if n < 0 && m < 0 {
            assert(digits((-n) as nat) =~= decimal(n).drop_first());
            assert(digits((-m) as nat) =~= decimal(m).drop_first());
            lemma_digits_injective((-n) as nat, (-m) as nat);
        } else if n < 0 {
            assert(decimal(n)[0] == '-');
        } else if m < 0 {
            assert(decimal(m)[0] == '-');
        } else {
            lemma_digits_injective(n as nat, m as nat);
        }
    }
}

/// Where two separator-free heads precede a separator, a prefix relation
/// between the texts forces the heads to agree.
proof fn lemma_strip(a: Seq<char>, r1: Seq<char>, b: Seq<char>, r2: Seq<char>)
    requires
        no_slash(a),
        no_slash(b),
        is_prefix(a + seq!['/'] + r1, b + seq!['/'] + r2),
    ensures
        a == b,
        is_prefix(r1, r2),
{
    let l = a + seq!['/'] + r1;
    let r = b + seq!['/'] + r2;
    assert(r.subrange(0, l.len() as int)[a.len() as int] == l[a.len() as int]);
    if a.len() < b.len() {
        assert(r[a.len() as int] == b[a.len() as int]);
    } else if a.len() > b.len() {
        assert(r.subrange(0, l.len() as int)[b.len() as int] == l[b.len() as int]);
        assert(l[b.len() as int] == a[b.len() as int]);
    } else {
        assert forall|i: int| 0 <= i < a.len() implies a[i] == b[i] by {
            assert(r.subrange(0, l.len() as int)[i] == l[i]);
        }
        assert(a =~= b);
        assert forall|i: int| 0 <= i < r1.len() implies r2[i] == r1[i] by {
            assert(r.subrange(0, l.len() as int)[a.len() + 1 + i] == l[a.len() + 1 + i]);
        }
        assert(r2.subrange(0, r1.len() as int) =~= r1);
    }
}

/// A common head can be taken off both sides of a prefix relation.
proof fn lemma_drop_common(c: Seq<char>, x: Seq<char>, y: Seq<char>)
    requires
        is_prefix(c + x, c + y),
    ensures
        is_prefix(x, y),
{
    assert forall|i: int| 0 <= i < x.len() implies y[i] == x[i] by {
        assert((c + y).subrange(0, (c + x).len() as int)[c.len() + i] == (c + x)[c.len() + i]);
    }
    assert(y.subrange(0, x.len() as int) =~= x);
}

/// A prefix scan for one block and type takes in a stored message exactly when
/// the message has that block id and that type, whatever the peer id; the
/// trailing key text it reads back is then the message's peer id. An id whose
/// decimal text starts another's (5 and 55) is no exception.
pub proof fn law_scan_selects(
    block_id: i64,
    msg_type: Seq<char>,
    stored_block_id: i64,
    stored_type: Seq<char>,
    stored_peer: Seq<char>,
)
    requires
        no_slash(msg_type),
        no_slash(stored_type),
        stored_peer.len() > 0,
    ensures
        key_decodes(
            block_prefix_view(block_id, msg_type),
            encode_utf8(block_key_view(stored_block_id, stored_type, stored_peer)),
        ) <==> (block_id == stored_block_id && msg_type == stored_type),
        block_id == stored_block_id && msg_type == stored_type ==> suffix_after(
            block_prefix_view(block_id, msg_type),
            decode_utf8(encode_utf8(block_key_view(stored_block_id, stored_type, stored_peer))),
        ) == stored_peer,
{
    let prefix = block_prefix_view(block_id, msg_type);
    let key = block_key_view(stored_block_id, stored_type, stored_peer);
    encode_utf8_valid_utf8(key);
    encode_utf8_decode_utf8(key);
    assert(decode_utf8(encode_utf8(key)) == key);
    if block_id == stored_block_id && msg_type == stored_type {
        assert(key.subrange(0, prefix.len() as int) =~= prefix);
        assert(suffix_after(prefix, key) =~= stored_peer);
    }
    if strictly_under(prefix, key) {
        reveal_strlit("/block_message/");
        reveal_strlit("/type/");
        reveal_strlit("/peer/");
        reveal_strlit("type/");
        reveal_strlit("peer/");
        let d = decimal(block_id as int);
        let d2 = decimal(stored_block_id as int);
        lemma_decimal(block_id as int, stored_block_id as int);
        lemma_decimal(stored_block_id as int, block_id as int);
        let lit = "/block_message/"@;
        let x = d + seq!['/'] + ("type/"@ + msg_type + "/peer/"@);
        let y = d2 + seq!['/'] + ("type/"@ + stored_type + "/peer/"@ + stored_peer);
        assert(prefix =~= lit + x);
        assert(key =~= lit + y);
        lemma_drop_common(lit, x, y);
        lemma_strip(d, "type/"@ + msg_type + "/peer/"@, d2, "type/"@ + stored_type + "/peer/"@ + stored_peer);
        let x2 = msg_type + seq!['/'] + "peer/"@;
        let y2 = stored_type + seq!['/'] + ("peer/"@ + stored_peer);
        assert("type/"@ + msg_type + "/peer/"@ =~= "type/"@ + x2);
        assert("type/"@ + stored_type + "/peer/"@ + stored_peer =~= "type/"@ + y2);
        lemma_drop_common("type/"@, x2, y2);
        lemma_strip(msg_type, "peer/"@, stored_type, "peer/"@ + stored_peer);
    }
}

/// The value that the last member named `name` holds, if any.
pub open spec fn bound(m: Seq<(Seq<char>, serde_json::Value)>, name: Seq<char>) -> Option<
    serde_json::Value,
>
    decreases m.len(),
{
    if m.len() == 0 {
        None
    } else if m.last().0 == name {
        Some(m.last().1)
    } else {
        bound(m.drop_last(), name)
    }
}

/// Each field of a rebuilt message comes from the last member that names it,
/// or keeps the value it started with.
proof fn lemma_applied_fields(b: BlockMessageView, m: Seq<(Seq<char>, serde_json::Value)>)
    ensures
        applied(b, m).block_id == match bound(m, "block_id"@) {
            Some(v) => int_or_zero(json_int(v)),
            None => b.block_id,
        },
        applied(b, m).peer_id == match bound(m, "peer_id"@) {
            Some(v) => text_or_empty(json_text(v)),
            None => b.peer_id,
        },
        applied(b, m).msg_type == match bound(m, "type"@) {
            Some(v) => text_or_empty(json_text(v)),
            None => b.msg_type,
        },
        applied(b, m).seen_at_block_id == match bound(m, "seen_at_block_id"@) {
            Some(v) => json_int(v),
            None => b.seen_at_block_id,
        },
    decreases m.len(),
{
    reveal_strlit("block_id");
    reveal_strlit("peer_id");
    reveal_strlit("type");
    reveal_strlit("seen_at_block_id");
    reveal_strlit("content");
    if m.len() > 0 {
        lemma_applied_fields(b, m.drop_last());
        assert("block_id"@ != "peer_id"@ && "block_id"@ != "type"@ && "block_id"@
            != "seen_at_block_id"@ && "block_id"@ != "content"@) by {
            assert("block_id"@[0] != "peer_id"@[0]);
            assert("block_id"@[0] != "type"@[0]);
            assert("block_id"@[0] != "seen_at_block_id"@[0]);
            assert("block_id"@[0] != "content"@[0]);
        }
        assert("peer_id"@ != "type"@ && "peer_id"@ != "seen_at_block_id"@ && "peer_id"@
            != "content"@) by {
            assert("peer_id"@[0] != "type"@[0]);
            assert("peer_id"@[0] != "seen_at_block_id"@[0]);
            assert("peer_id"@[0] != "content"@[0]);
        }
        assert("type"@ != "seen_at_block_id"@ && "type"@ != "content"@) by {
            assert("type"@[0] != "seen_at_block_id"@[0]);
            assert("type"@[0] != "content"@[0]);
        }
        assert("seen_at_block_id"@ != "content"@) by {
            assert("seen_at_block_id"@[0] != "content"@[0]);
        }
    }
}

/// A stored payload that leaves out the optional `seen_at_block_id` gives a
/// message whose `seen_at_block_id` is its default, `None`.
pub proof fn law_missing_optional_default(x: BlockMessageView, m: Seq<(Seq<char>, serde_json::Value)>)
    requires
        stored_as(x, m),
        forall|i: int| 0 <= i < m.len() ==> (#[trigger] m[i]).0 != "seen_at_block_id"@,
    ensures
        x.seen_at_block_id is None,
{
    let b = choose|b: BlockMessageView| is_blank(b) && x == applied(b, m);
    lemma_applied_fields(b, m);
    lemma_unbound(m, "seen_at_block_id"@);
}

proof fn lemma_unbound(m: Seq<(Seq<char>, serde_json::Value)>, name: Seq<char>)
    requires
        forall|i: int| 0 <= i < m.len() ==> (#[trigger] m[i]).0 != name,
    ensures
        bound(m, name) is None,
    decreases m.len(),
{
    if m.len() > 0 {
        assert(m[m.len() - 1].0 != name);
        assert forall|i: int| 0 <= i < m.drop_last().len() implies (#[trigger] m.drop_last()[i]).0
            != name by {
            assert(m.drop_last()[i] == m[i]);
        }
        lemma_unbound(m.drop_last(), name);
    }
}

/// A message's key reads back, under the scan prefix of its own block and
/// type, into exactly the message's key components; and the message rebuilt
/// from a payload that binds its identifying fields has those same components.
pub proof fn law_round_trip(
    e: BlockMessageView,
    m: Seq<(Seq<char>, serde_json::Value)>,
    x: BlockMessageView,
)
    requires
        e.peer_id.len() > 0,
    ensures
        ({
            let prefix = block_prefix_view(e.block_id, e.msg_type);
            let key = encode_utf8(block_key_view(e.block_id, e.msg_type, e.peer_id));
            key_decodes(prefix, key) && completed(
                block_type_view(e.block_id, e.msg_type),
                "peer_id"@,
                prefix,
                key,
            ) == id_view(e.block_id, e.msg_type, e.peer_id)
        }),
        stored_as(x, m) && (bound(m, "block_id"@) matches Some(v) && json_int(v) == Some(
            e.block_id,
        )) && (bound(m, "type"@) matches Some(v) && json_text(v) == Some(e.msg_type)) && (bound(
            m,
            "peer_id"@,
        ) matches Some(v) && json_text(v) == Some(e.peer_id)) ==> id_view(
            x.block_id,
            x.msg_type,
            x.peer_id,
        ) == id_view(e.block_id, e.msg_type, e.peer_id),
{
    let prefix = block_prefix_view(e.block_id, e.msg_type);
    let text = block_key_view(e.block_id, e.msg_type, e.peer_id);
    encode_utf8_valid_utf8(text);
    encode_utf8_decode_utf8(text);
    assert(text.subrange(0, prefix.len() as int) =~= prefix);
    assert(suffix_after(prefix, text) =~= e.peer_id);
    assert(completed(block_type_view(e.block_id, e.msg_type), "peer_id"@, prefix, encode_utf8(text))
        =~= id_view(e.block_id, e.msg_type, e.peer_id));
    if stored_as(x, m) {
        let b = choose|b: BlockMessageView| is_blank(b) && x == applied(b, m);
        lemma_applied_fields(b, m);
    }
}

/// Whether two query outcomes are the same: the same component sets, or the
/// same error with the same details.
pub open spec fn same_outcome(
    r1: Result<Vec<Vec<(String, String)>>, KeyError>,
    r2: Result<Vec<Vec<(String, String)>>, KeyError>,
) -> bool {
    match (r1, r2) {
        (Ok(a), Ok(b)) => a.deep_view() == b.deep_view(),
        (Err(KeyError::MissingComponent(n1)), Err(KeyError::MissingComponent(n2))) => n1@ == n2@,
        (
            Err(KeyError::MalformedKey { observed: o1, expected_prefix: w1 }),
            Err(KeyError::MalformedKey { observed: o2, expected_prefix: w2 }),
        ) => o1@ == o2@ && w1@ == w2@,
        (Err(KeyError::LookupFailure), Err(KeyError::LookupFailure)) => true,
        _ => false,
    }
}

/// At most one placeholder is the first one left without a value.
proof fn lemma_first_missing_unique(
    segs: Seq<Segment>,
    comps: Seq<(Seq<char>, Seq<char>)>,
    n1: Seq<char>,
    n2: Seq<char>,
)
    requires
        first_missing(segs, comps, n1),
        first_missing(segs, comps, n2),
    ensures
        n1 == n2,
{
    let i1 = choose|i: int|
        0 <= i < segs.len() && field_name(#[trigger] segs[i]) == Some(n1) && lookup(comps, n1)
            is None && fields_present(segs.subrange(0, i), comps);
    let i2 = choose|i: int|
        0 <= i < segs.len() && field_name(#[trigger] segs[i]) == Some(n2) && lookup(comps, n2)
            is None && fields_present(segs.subrange(0, i), comps);
    if i1 < i2 {
        assert(segs.subrange(0, i2)[i1] == segs[i1]);
        assert(field_name(segs.subrange(0, i2)[i1]) is Some);
    } else if i2 < i1 {
        assert(segs.subrange(0, i1)[i2] == segs[i2]);
        assert(field_name(segs.subrange(0, i1)[i2]) is Some);
    }
}

/// Running the same prefix query twice over the same scan, with no write in
/// between, gives the same outcome: the same component sets in the same
/// order, or the same error.
pub proof fn law_scan_idempotent(
    template: KeyTemplate,
    partial: Seq<(Seq<char>, Seq<char>)>,
    keys: Seq<Vec<u8>>,
    r1: Result<Vec<Vec<(String, String)>>, KeyError>,
    r2: Result<Vec<Vec<(String, String)>>, KeyError>,
)
    requires
        template.wf(),
        scan_outcome(template, partial, keys, r1),
        scan_outcome(template, partial, keys, r2),
    ensures
        same_outcome(r1, r2),
{
    let segs = template.segments@;
    let prefix = prefix_of(segs, partial);
    match (r1, r2) {
        (Ok(a), Ok(b)) => {
            assert forall|i: int| 0 <= i < a.len() implies #[trigger] a.deep_view()[i]
                == b.deep_view()[i] by {
                assert(key_decodes(prefix, keys[i]@));
                assert(a@[i].deep_view() == completed(partial, template.last_field(), prefix, keys[i]@));
                assert(b@[i].deep_view() == completed(partial, template.last_field(), prefix, keys[i]@));
                assert(a.deep_view()[i] == a@[i].deep_view());
                assert(b.deep_view()[i] == b@[i].deep_view());
            }
            assert(a.deep_view() =~= b.deep_view());
        },
        (Err(KeyError::MissingComponent(n1)), Err(KeyError::MissingComponent(n2))) => {
            lemma_first_missing_unique(segs.drop_last(), partial, n1@, n2@);
        },
        (
            Err(KeyError::MalformedKey { observed: o1, expected_prefix: w1 }),
            Err(KeyError::MalformedKey { observed: o2, expected_prefix: w2 }),
        ) => {
            let i1 = choose|i: int|
                0 <= i < keys.len() && keys[i]@ == o1@ && !key_decodes(prefix, #[trigger] keys[i]@)
                    && forall|j: int| 0 <= j < i ==> key_decodes(prefix, #[trigger] keys[j]@);
            let i2 = choose|i: int|
                0 <= i < keys.len() && keys[i]@ == o2@ && !key_decodes(prefix, #[trigger] keys[i]@)
                    && forall|j: int| 0 <= j < i ==> key_decodes(prefix, #[trigger] keys[j]@);
            assert(i1 == i2);
        },
        (Ok(a), Err(KeyError::MalformedKey { observed, expected_prefix })) => {
            let i = choose|i: int|
                0 <= i < keys.len() && keys[i]@ == observed@ && !key_decodes(
                    prefix,
                    #[trigger] keys[i]@,
                ) && forall|j: int| 0 <= j < i ==> key_decodes(prefix, #[trigger] keys[j]@);
        },
        (Err(KeyError::MalformedKey { observed, expected_prefix }), Ok(b)) => {
            let i = choose|i: int|
                0 <= i < keys.len() && keys[i]@ == observed@ && !key_decodes(
                    prefix,
                    #[trigger] keys[i]@,
                ) && forall|j: int| 0 <= j < i ==> key_decodes(prefix, #[trigger] keys[j]@);
        },
        _ => {},
    }
}

} // verus!

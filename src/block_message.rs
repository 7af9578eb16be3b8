use crate::json::{
    as_int, as_text, copy_value, json_int, json_members, json_text, members_view, null_value,
    object_members,
};
use crate::key::{
    extract_suffix, field_name, fields_present, lookup, prefix_of, render, render_prefix,
    rendered, same_text, segment_text, KeyError, KeyTemplate, Segment,
};
use crate::query::key_decodes;
use vstd::prelude::*;
use vstd::string::*;

verus! {

/// A message seen in a block, stored under
/// `/block_message/<block_id>/type/<type>/peer/<peer_id>`.
pub struct BlockMessage {
    pub block_id: i64,
    pub peer_id: String,
    pub msg_type: String,
    pub seen_at_block_id: Option<i64>,
    pub content: serde_json::Value,
}

/// What a message holds, as plain values.
pub struct BlockMessageView {
    pub block_id: i64,
    pub peer_id: Seq<char>,
    pub msg_type: Seq<char>,
    pub seen_at_block_id: Option<i64>,
    pub content: serde_json::Value,
}

impl View for BlockMessage {
    type V = BlockMessageView;

    open spec fn view(&self) -> BlockMessageView {
        BlockMessageView {
            block_id: self.block_id,
            peer_id: self.peer_id@,
            msg_type: self.msg_type@,
            seen_at_block_id: self.seen_at_block_id,
            content: self.content,
        }
    }
}

pub open spec fn int_or_zero(v: Option<i64>) -> i64 {
    match v {
        Some(n) => n,
        None => 0,
    }
}

pub open spec fn text_or_empty(v: Option<Seq<char>>) -> Seq<char> {
    match v {
        Some(t) => t,
        None => Seq::empty(),
    }
}

/// The message after one stored field is assigned: numbers that are missing
/// or not integers read as zero, texts that are not strings as empty, and
/// names that the message does not have change nothing.
pub open spec fn with_field(
    e: BlockMessageView,
    field: Seq<char>,
    v: serde_json::Value,
) -> BlockMessageView {
    if field == "block_id"@ {
        BlockMessageView { block_id: int_or_zero(json_int(v)), ..e }
    } else if field == "peer_id"@ {
        BlockMessageView { peer_id: text_or_empty(json_text(v)), ..e }
    } else if field == "type"@ {
        BlockMessageView { msg_type: text_or_empty(json_text(v)), ..e }
    } else if field == "seen_at_block_id"@ {
        BlockMessageView { seen_at_block_id: json_int(v), ..e }
    } else if field == "content"@ {
        BlockMessageView { content: v, ..e }
    } else {
        e
    }
}

/// The message after each of `members` is assigned in turn.
pub open spec fn applied(
    e: BlockMessageView,
    members: Seq<(Seq<char>, serde_json::Value)>,
) -> BlockMessageView
    decreases members.len(),
{
    if members.len() == 0 {
        e
    } else {
        let prev = applied(e, members.drop_last());
        with_field(prev, members.last().0, members.last().1)
    }
}

/// A message with every field at its zero value; its content is unspecified.
pub open spec fn is_blank(e: BlockMessageView) -> bool {
    e.block_id == 0 && e.peer_id.len() == 0 && e.msg_type.len() == 0 && e.seen_at_block_id is None
}

/// The message that a stored object gives: the declared defaults, then the
/// stored members, assigned over a blank message.
pub open spec fn stored_as(e: BlockMessageView, members: Seq<(Seq<char>, serde_json::Value)>) -> bool {
    exists|b: BlockMessageView|
        is_blank(b) && e == applied(b, members)
}

/// The decimal text of an integer, with a leading `-` when it is negative.
pub open spec fn decimal(n: int) -> Seq<char> {
    if n < 0 {
        seq!['-'] + digits((-n) as nat)
    } else {
        digits(n as nat)
    }
}

pub open spec fn digits(n: nat) -> Seq<char>
    decreases n,
{
    if n < 10 {
        seq![digit_char(n)]
    } else {
        digits(n / 10).push(digit_char(n % 10))
    }
}

pub open spec fn digit_char(d: nat) -> char {
    ((48 + d) as u8) as char
}

/// Relies on the Display of `i64` (through `to_string`): its decimal text.
#[verifier::external_body]
fn decimal_text(n: i64) -> (r: String)
    ensures
        r@ == decimal(n as int),
{
    n.to_string()
}

/// The key components of a message: decimal block id, type and peer id.
pub open spec fn id_view(block_id: i64, msg_type: Seq<char>, peer_id: Seq<char>) -> Seq<
    (Seq<char>, Seq<char>),
> {
    seq![
        ("block_id"@, decimal(block_id as int)),
        ("type"@, msg_type),
        ("peer_id"@, peer_id),
    ]
}

/// The components fixed by a scan for one block and type.
pub open spec fn block_type_view(block_id: i64, msg_type: Seq<char>) -> Seq<(Seq<char>, Seq<char>)> {
    seq![("block_id"@, decimal(block_id as int)), ("type"@, msg_type)]
}

/// The literal and placeholder segments of the message's key, as `(is a
/// placeholder, text)`.
pub open spec fn segment_view(s: Segment) -> (bool, Seq<char>) {
    match s {
        Segment::Literal(t) => (false, t@),
        Segment::Field(n) => (true, n@),
    }
}

pub open spec fn block_template_view() -> Seq<(bool, Seq<char>)> {
    seq![
        (false, "block_message"@),
        (true, "block_id"@),
        (false, "type"@),
        (true, "type"@),
        (false, "peer"@),
        (true, "peer_id"@),
    ]
}

/// The stored messages that a lookup returned, rebuilt in order; `None` where
/// one of the payloads is not a JSON object.
pub open spec fn all_stored(payloads: Seq<Option<Seq<u8>>>) -> Option<Seq<Seq<(Seq<char>, serde_json::Value)>>>
    decreases payloads.len(),
{
    if payloads.len() == 0 {
        Some(Seq::empty())
    } else {
        match all_stored(payloads.drop_last()) {
            None => None,
            Some(prev) => match payloads.last() {
                None => Some(prev),
                Some(p) => match json_members(p) {
                    None => None,
                    Some(m) => Some(prev.push(m)),
                },
            },
        }
    }
}

/// The scan prefix of one block and type: the message key up to the peer id.
pub open spec fn block_prefix_view(block_id: i64, msg_type: Seq<char>) -> Seq<char> {
    "/block_message/"@ + decimal(block_id as int) + "/type/"@ + msg_type + "/peer/"@
}

/// What a segment contributes, read off its `(is a placeholder, text)` view.
proof fn lemma_segment_view(s: Segment, c: Seq<(Seq<char>, Seq<char>)>)
    ensures
        segment_view(s).0 ==> field_name(s) == Some(segment_view(s).1) && segment_text(s, c)
            == text_or_empty(lookup(c, segment_view(s).1)),
        !segment_view(s).0 ==> field_name(s) is None && segment_text(s, c) == segment_view(s).1,
{
}

/// The segments of the message's key, one by one.
proof fn lemma_block_segments(segs: Seq<Segment>, c: Seq<(Seq<char>, Seq<char>)>)
    requires
        segs.map_values(|s: Segment| segment_view(s)) == block_template_view(),
    ensures
        segs.len() == 6,
        forall|i: int|
            0 <= i < 6 ==> segment_view(#[trigger] segs[i]) == block_template_view()[i],
        field_name(segs[0]) is None && segment_text(segs[0], c) == "block_message"@,
        field_name(segs[1]) == Some("block_id"@) && segment_text(segs[1], c) == text_or_empty(
            lookup(c, "block_id"@),
        ),
        field_name(segs[2]) is None && segment_text(segs[2], c) == "type"@,
        field_name(segs[3]) == Some("type"@) && segment_text(segs[3], c) == text_or_empty(
            lookup(c, "type"@),
        ),
        field_name(segs[4]) is None && segment_text(segs[4], c) == "peer"@,
        field_name(segs[5]) == Some("peer_id"@) && segment_text(segs[5], c) == text_or_empty(
            lookup(c, "peer_id"@),
        ),
{
    assert(segs.len() == segs.map_values(|s: Segment| segment_view(s)).len());
    assert forall|i: int| 0 <= i < 6 implies segment_view(#[trigger] segs[i])
        == block_template_view()[i] by {
        assert(segs.map_values(|s: Segment| segment_view(s))[i] == segment_view(segs[i]));
    }
    lemma_segment_view(segs[0], c);
    lemma_segment_view(segs[1], c);
    lemma_segment_view(segs[2], c);
    lemma_segment_view(segs[3], c);
    lemma_segment_view(segs[4], c);
    lemma_segment_view(segs[5], c);
}

/// A message's components bind its block id, type and peer id.
proof fn lemma_id_lookups(block_id: i64, msg_type: Seq<char>, peer_id: Seq<char>)
    ensures
        lookup(id_view(block_id, msg_type, peer_id), "block_id"@) == Some(decimal(block_id as int)),
        lookup(id_view(block_id, msg_type, peer_id), "type"@) == Some(msg_type),
        lookup(id_view(block_id, msg_type, peer_id), "peer_id"@) == Some(peer_id),
{
    reveal_strlit("block_id");
    reveal_strlit("type");
    reveal_strlit("peer_id");
    let c = id_view(block_id, msg_type, peer_id);
    assert(c.drop_last() =~= seq![("block_id"@, decimal(block_id as int)), ("type"@, msg_type)]);
    assert(c.drop_last().drop_last() =~= seq![("block_id"@, decimal(block_id as int))]);
    assert(c.drop_last().drop_last().drop_last() =~= Seq::<(Seq<char>, Seq<char>)>::empty());
    assert("type"@ != "block_id"@) by {
        assert("type"@.len() != "block_id"@.len());
    }
    assert("peer_id"@ != "block_id"@) by {
        assert("peer_id"@[0] != "block_id"@[0]);
    }
    assert("peer_id"@ != "type"@) by {
        assert("peer_id"@.len() != "type"@.len());
    }
    reveal_with_fuel(lookup, 4);
}

/// The fixed components of a scan bind the block id and the type.
proof fn lemma_block_lookups(block_id: i64, msg_type: Seq<char>)
    ensures
        lookup(block_type_view(block_id, msg_type), "block_id"@) == Some(decimal(block_id as int)),
        lookup(block_type_view(block_id, msg_type), "type"@) == Some(msg_type),
{
    reveal_strlit("block_id");
    reveal_strlit("type");
    let c = block_type_view(block_id, msg_type);
    assert(c.drop_last() =~= seq![("block_id"@, decimal(block_id as int))]);
    assert(c.drop_last().drop_last() =~= Seq::<(Seq<char>, Seq<char>)>::empty());
    assert("type"@ != "block_id"@) by {
        assert("type"@.len() != "block_id"@.len());
    }
    reveal_with_fuel(lookup, 3);
}

/// The full key of a message.
pub open spec fn block_key_view(block_id: i64, msg_type: Seq<char>, peer_id: Seq<char>) -> Seq<char> {
    block_prefix_view(block_id, msg_type) + peer_id
}

fn text(s: &str) -> (r: String)
    ensures
        r@ == s@,
{
    String::from_str(s)
}

impl BlockMessage {
    /// A message with every field at its zero value and null content.
    pub fn blank() -> (r: BlockMessage)
        ensures
            is_blank(r@),
    {
        BlockMessage {
            block_id: 0,
            peer_id: String::new(),
            msg_type: String::new(),
            seen_at_block_id: None,
            content: null_value(),
        }
    }

    /// The key template of messages.
    pub fn key_template() -> (r: KeyTemplate)
        ensures
            r.wf(),
            r.segments@.map_values(|s: Segment| segment_view(s)) == block_template_view(),
    {
        let mut segments: Vec<Segment> = Vec::new();
        segments.push(Segment::Literal(text("block_message")));
        segments.push(Segment::Field(text("block_id")));
        segments.push(Segment::Literal(text("type")));
        segments.push(Segment::Field(text("type")));
        segments.push(Segment::Literal(text("peer")));
        segments.push(Segment::Field(text("peer_id")));
        let r = KeyTemplate { segments };
        assert(r.segments@.map_values(|s: Segment| segment_view(s)) =~= block_template_view());
        r
    }

    /// The key components of this message: its block id in decimal, its type
    /// and its peer id.
    pub fn id_components(&self) -> (r: Vec<(String, String)>)
        ensures
            r.deep_view() == id_view(self.block_id, self.msg_type@, self.peer_id@),
    {
        let mut r: Vec<(String, String)> = Vec::new();
        r.push((text("block_id"), decimal_text(self.block_id)));
        r.push((text("type"), self.msg_type.clone()));
        r.push((text("peer_id"), self.peer_id.clone()));
        assert(r.deep_view() =~= id_view(self.block_id, self.msg_type@, self.peer_id@));
        r
    }

    /// The key under which this message is stored.
    pub fn key(&self) -> (r: String)
        ensures
            r@ == block_key_view(self.block_id, self.msg_type@, self.peer_id@),
    {
        let template = BlockMessage::key_template();
        let comps = self.id_components();
        let ghost segs = template.segments@;
        let ghost cv = comps.deep_view();
        proof {
            reveal_strlit("block_message");
            reveal_strlit("block_id");
            reveal_strlit("type");
            reveal_strlit("peer");
            reveal_strlit("peer_id");
            reveal_strlit("/block_message/");
            reveal_strlit("/type/");
            reveal_strlit("/peer/");
            lemma_block_segments(segs, cv);
            lemma_id_lookups(self.block_id, self.msg_type@, self.peer_id@);
            assert(fields_present(segs, cv)) by {
                assert forall|i: int|
                    0 <= i < segs.len() && (#[trigger] field_name(segs[i])) is Some implies lookup(
                        cv,
                        field_name(segs[i])->0,
                    ) is Some by {}
            }
            reveal_with_fuel(rendered, 7);
            assert(segs.drop_last() =~= segs.subrange(0, 5));
            assert(segs.subrange(0, 5).drop_last() =~= segs.subrange(0, 4));
            assert(segs.subrange(0, 4).drop_last() =~= segs.subrange(0, 3));
            assert(segs.subrange(0, 3).drop_last() =~= segs.subrange(0, 2));
            assert(segs.subrange(0, 2).drop_last() =~= segs.subrange(0, 1));
            assert(segs.subrange(0, 1).drop_last() =~= Seq::<Segment>::empty());
            assert(rendered(segs, cv) =~= block_key_view(
                self.block_id,
                self.msg_type@,
                self.peer_id@,
            ));
        }
        match render(&template, &comps) {
            Ok(k) => k,
            Err(_) => {
                assert(false);
                String::new()
            },
        }
    }

    /// The components that a scan for one block and type fixes.
    pub fn block_type_components(block_id: i64, msg_type: &str) -> (r: Vec<(String, String)>)
        ensures
            r.deep_view() == block_type_view(block_id, msg_type@),
    {
        let mut r: Vec<(String, String)> = Vec::new();
        r.push((text("block_id"), decimal_text(block_id)));
        r.push((text("type"), text(msg_type)));
        assert(r.deep_view() =~= block_type_view(block_id, msg_type@));
        r
    }

    /// The key prefix under which the messages of one block and type lie.
    pub fn block_prefix(block_id: i64, msg_type: &str) -> (r: String)
        ensures
            r@ == block_prefix_view(block_id, msg_type@),
    {
        let template = BlockMessage::key_template();
        let partial = BlockMessage::block_type_components(block_id, msg_type);
        let ghost segs = template.segments@;
        let ghost pv = partial.deep_view();
        proof {
            reveal_strlit("block_message");
            reveal_strlit("block_id");
            reveal_strlit("type");
            reveal_strlit("peer");
            reveal_strlit("peer_id");
            reveal_strlit("/block_message/");
            reveal_strlit("/type/");
            reveal_strlit("/peer/");
            lemma_block_segments(segs, pv);
            lemma_block_lookups(block_id, msg_type@);
            assert(fields_present(segs.drop_last(), pv)) by {
                assert forall|i: int|
                    0 <= i < segs.drop_last().len() && (#[trigger] field_name(
                        segs.drop_last()[i],
                    )) is Some implies lookup(pv, field_name(segs.drop_last()[i])->0) is Some by {
                    assert(segs.drop_last()[i] == segs[i]);
                }
            }
            reveal_with_fuel(rendered, 6);
            assert(segs.drop_last().drop_last() =~= segs.subrange(0, 4));
            assert(segs.subrange(0, 4).drop_last() =~= segs.subrange(0, 3));
            assert(segs.subrange(0, 3).drop_last() =~= segs.subrange(0, 2));
            assert(segs.subrange(0, 2).drop_last() =~= segs.subrange(0, 1));
            assert(segs.subrange(0, 1).drop_last() =~= Seq::<Segment>::empty());
            assert(prefix_of(segs, pv) =~= block_prefix_view(block_id, msg_type@));
        }
        match render_prefix(&template, &partial) {
            Ok(p) => p,
            Err(_) => {
                assert(false);
                String::new()
            },
        }
    }

    /// Every field that a message carries, in declaration order.
    pub fn fields() -> (r: Vec<String>)
        ensures
            r.deep_view() == seq![
                "block_id"@,
                "peer_id"@,
                "type"@,
                "seen_at_block_id"@,
                "content"@,
            ],
    {
        let mut r: Vec<String> = Vec::new();
        r.push(text("block_id"));
        r.push(text("peer_id"));
        r.push(text("type"));
        r.push(text("seen_at_block_id"));
        r.push(text("content"));
        assert(r.deep_view() =~= seq![
            "block_id"@,
            "peer_id"@,
            "type"@,
            "seen_at_block_id"@,
            "content"@,
        ]);
        r
    }

    /// The values assigned to fields that a stored payload leaves out: none
    /// are declared, so such fields keep their zero values.
    pub fn field_defaults() -> (r: Vec<(String, serde_json::Value)>)
        ensures
            r@.len() == 0,
    {
        Vec::new()
    }

    /// Assigns one stored field, as `with_field` says.
    pub fn set_field(&mut self, field: &str, value: serde_json::Value)
        ensures
            final(self)@ == with_field(old(self)@, field@, value),
    {
        proof {
            reveal_strlit("block_id");
            reveal_strlit("peer_id");
            reveal_strlit("type");
            reveal_strlit("seen_at_block_id");
            reveal_strlit("content");
        }
        if same_text(field, "block_id") {
            self.block_id = match as_int(&value) {
                Some(n) => n,
                None => 0,
            };
        } else if same_text(field, "peer_id") {
            self.peer_id = match as_text(&value) {
                Some(t) => t,
                None => String::new(),
            };
        } else if same_text(field, "type") {
            self.msg_type = match as_text(&value) {
                Some(t) => t,
                None => String::new(),
            };
        } else if same_text(field, "seen_at_block_id") {
            self.seen_at_block_id = as_int(&value);
        } else if same_text(field, "content") {
            self.content = value;
        }
    }

    /// Assigns each of `members` in turn.
    pub fn set_fields(&mut self, members: &Vec<(String, serde_json::Value)>)
        ensures
            final(self)@ == applied(old(self)@, members_view(members@)),
    {
        let ghost start = self@;
        let mut i: usize = 0;
        while i < members.len()
            invariant
                i <= members.len(),
                self@ == applied(start, members_view(members@).subrange(0, i as int)),
            decreases members.len() - i,
        {
            let v = copy_value(&members[i].1);
            self.set_field(members[i].0.as_str(), v);
            assert(members_view(members@).subrange(0, i + 1).drop_last()
                =~= members_view(members@).subrange(0, i as int));
            i = i + 1;
        }
        assert(members_view(members@).subrange(0, members.len() as int)
            =~= members_view(members@));
    }

    /// Rebuilds a message from the members of a stored object: the declared
    /// defaults first, then every stored member, over a blank message.
    pub fn from_members(members: &Vec<(String, serde_json::Value)>) -> (r: BlockMessage)
        ensures
            stored_as(r@, members_view(members@)),
    {
        let mut e = BlockMessage::blank();
        let ghost b = e@;
        e.set_fields(&BlockMessage::field_defaults());
        assert(e@ == b);
        e.set_fields(members);
        e
    }
}

/// The payload of each scanned entry, as bytes.
pub open spec fn payloads_view(scanned: Seq<(Vec<u8>, Option<Vec<u8>>)>) -> Seq<Option<Seq<u8>>> {
    scanned.map_values(
        |e: (Vec<u8>, Option<Vec<u8>>)|
            match e.1 {
                Some(p) => Some(p@),
                None => None,
            },
    )
}

impl BlockMessage {
    /// Rebuilds the message that a point lookup returned: nothing where the
    /// key held nothing, a `LookupFailure` where the payload is not a JSON
    /// object.
    pub fn from_payload(payload: &Option<Vec<u8>>) -> (r: Result<Option<BlockMessage>, KeyError>)
        ensures
            match payload {
                None => r matches Ok(None),
                Some(p) => match json_members(p@) {
                    None => r matches Err(KeyError::LookupFailure),
                    Some(m) => r matches Ok(Some(e)) && stored_as(e@, m),
                },
            },
    {
        match payload {
            None => Ok(None),
            Some(p) => match object_members(p.as_slice()) {
                None => Err(KeyError::LookupFailure),
                Some(m) => Ok(Some(BlockMessage::from_members(&m))),
            },
        }
    }

    /// The messages of one block and type, from the entries of a scan under
    /// `block_prefix(block_id, msg_type)`: each entry holds a scanned key and
    /// what the point lookup of that message returned.
    ///
    /// Every key must read back under the prefix, else the first that does not
    /// aborts the query; then every payload must decode, else the query fails
    /// with `LookupFailure`. Entries whose lookup found nothing are left out;
    /// the others give the messages in scan order.
    pub fn find_all_in_block_of_type(
        block_id: i64,
        msg_type: &str,
        scanned: &Vec<(Vec<u8>, Option<Vec<u8>>)>,
    ) -> (r: Result<Vec<BlockMessage>, KeyError>)
        ensures
            ({
                let prefix = block_prefix_view(block_id, msg_type@);
                let all_decode = forall|i: int|
                    0 <= i < scanned@.len() ==> key_decodes(prefix, #[trigger] scanned@[i].0@);
                match r {
                    Ok(v) => all_decode && (all_stored(payloads_view(scanned@)) matches Some(ms)
                        && v.len() == ms.len() && forall|i: int|
                        0 <= i < v.len() ==> stored_as(#[trigger] v@[i]@, ms[i])),
                    Err(KeyError::MalformedKey { observed, expected_prefix }) => expected_prefix@
                        == prefix && exists|i: int|
                        0 <= i < scanned@.len() && scanned@[i].0@ == observed@ && !key_decodes(
                            prefix,
                            #[trigger] scanned@[i].0@,
                        ) && forall|j: int|
                            0 <= j < i ==> key_decodes(prefix, #[trigger] scanned@[j].0@),
                    Err(KeyError::LookupFailure) => all_decode && all_stored(
                        payloads_view(scanned@),
                    ) is None,
                    Err(KeyError::MissingComponent(_)) => false,
                }
            }),
    {
        let prefix = BlockMessage::block_prefix(block_id, msg_type);
        let ghost pv = block_prefix_view(block_id, msg_type@);
        let mut i: usize = 0;
        while i < scanned.len()
            invariant
                i <= scanned.len(),
                prefix@ == pv,
                pv == block_prefix_view(block_id, msg_type@),
                forall|j: int| 0 <= j < i ==> key_decodes(pv, #[trigger] scanned@[j].0@),
            decreases scanned.len() - i,
        {
            match extract_suffix(&prefix, scanned[i].0.as_slice()) {
                Ok(_) => {},
                Err(e) => {
                    assert(!key_decodes(pv, scanned@[i as int].0@));
                    return Err(e);
                },
            }
            i = i + 1;
        }
        let ghost pays = payloads_view(scanned@);
        let mut out: Vec<BlockMessage> = Vec::new();
        let mut k: usize = 0;
        while k < scanned.len()
            invariant
                k <= scanned.len(),
                pays == payloads_view(scanned@),
                pv == block_prefix_view(block_id, msg_type@),
                forall|j: int| 0 <= j < scanned.len() ==> key_decodes(pv, #[trigger] scanned@[j].0@),
                all_stored(pays.subrange(0, k as int)) matches Some(ms) && out.len() == ms.len()
                    && forall|m: int| 0 <= m < out.len() ==> stored_as(#[trigger] out@[m]@, ms[m]),
            decreases scanned.len() - k,
        {
            let ghost before = pays.subrange(0, k as int);
            assert(pays.subrange(0, k + 1).drop_last() =~= before);
            assert(pays.subrange(0, k + 1).last() == pays[k as int]);
            match BlockMessage::from_payload(&scanned[k].1) {
                Err(e) => {
                    proof {
                        assert(pays[k as int] == Some(scanned@[k as int].1->0@));
                        lemma_all_stored_fails(pays, k as int);
                    }
                    return Err(e);
                },
                Ok(None) => {},
                Ok(Some(e)) => {
                    out.push(e);
                },
            }
            k = k + 1;
        }
        assert(pays.subrange(0, scanned.len() as int) =~= pays);
        Ok(out)
    }
}

/// Once a payload fails to decode, so does every longer run of payloads.
proof fn lemma_all_stored_fails(pays: Seq<Option<Seq<u8>>>, k: int)
    requires
        0 <= k < pays.len(),
        all_stored(pays.subrange(0, k + 1)) is None,
    ensures
        all_stored(pays) is None,
    decreases pays.len() - k,
{
    if k + 1 < pays.len() {
        assert(pays.subrange(0, k + 2).drop_last() =~= pays.subrange(0, k + 1));
        lemma_all_stored_fails(pays, k + 1);
    } else {
        assert(pays.subrange(0, k + 1) =~= pays);
    }
}

} // verus!

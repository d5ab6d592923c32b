//! The non-streaming response translator (dialect C to dialect M).
use vstd::prelude::*;
use crate::events::{map_stop_reason, stop_reason_for};
use crate::ids::{all_lower_hex, fresh_id};
use crate::json::{
    bool_of, copy_string, field_str, is_json_text, items_of, parses_as_json, str_eq, text_of,
    u64_of, Json, JsonV, Number,
};
use crate::sanitize::{sanitized, strip_hallucinated_tags};
use crate::stream::{member_or_null, or_empty};

verus! {

pub open spec fn members_view(ms: Seq<(String, Json)>) -> Seq<(Seq<char>, JsonV)> {
    ms.map_values(|m: (String, Json)| (m.0@, m.1@))
}

pub open spec fn items_view(items: Seq<Json>) -> Seq<JsonV> {
    items.map_values(|j: Json| j@)
}

/// Appends member `key` to an object under construction.
pub fn push_member(members: &mut Vec<(String, Json)>, key: &str, value: Json)
    ensures
        members_view(final(members)@) == members_view(old(members)@).push((key@, value@)),
{
    members.push((copy_string(key), value));
    assert(members_view(members@) =~= members_view(old(members)@).push((key@, value@)));
}

pub fn object_of(members: Vec<(String, Json)>) -> (r: Json)
    ensures
        r@ == JsonV::Object(members_view(members@)),
{
    let r = Json::Object(members);
    assert(r@->Object_0 =~= members_view(members@));
    r
}

pub fn array_of(items: Vec<Json>) -> (r: Json)
    ensures
        r@ == JsonV::Array(items_view(items@)),
{
    let r = Json::Array(items);
    assert(r@->Array_0 =~= items_view(items@));
    r
}

pub fn push_item(items: &mut Vec<Json>, item: Json)
    ensures
        items_view(final(items)@) == items_view(old(items)@).push(item@),
{
    items.push(item);
    assert(items_view(items@) =~= items_view(old(items)@).push(item@));
}

pub fn str_json(s: &str) -> (r: Json)
    ensures
        r@ == JsonV::Str(s@),
{
    Json::Str(copy_string(s))
}

/// The texts of the `text` blocks among `blocks`, in order.
pub open spec fn block_texts(blocks: Seq<JsonV>) -> Seq<Seq<char>>
    decreases blocks.len(),
{
    if blocks.len() == 0 {
        Seq::empty()
    } else {
        let prev = block_texts(blocks.drop_last());
        let b = blocks.last();
        if text_of(b.field("type"@)) == Some("text"@) && text_of(b.field("text"@)) is Some {
            prev.push(text_of(b.field("text"@)).unwrap())
        } else {
            prev
        }
    }
}

/// Texts joined with `\n` between each two.
pub open spec fn join_lines(parts: Seq<Seq<char>>) -> Seq<char>
    decreases parts.len(),
{
    if parts.len() == 0 {
        Seq::empty()
    } else if parts.len() == 1 {
        parts[0]
    } else {
        join_lines(parts.drop_last()) + seq!['\n'] + parts.last()
    }
}

/// The texts of the `text` blocks among `blocks`, joined with `\n`.
pub fn extract_text_from_blocks(blocks: &Vec<Json>) -> (r: String)
    ensures
        r@ == join_lines(block_texts(items_view(blocks@))),
{
    proof {
        reveal_strlit("\n");
    }
    let ghost bv = items_view(blocks@);
    let mut out = String::new();
    let mut any = false;
    let mut i: usize = 0;
    assert(bv.take(0) =~= Seq::<JsonV>::empty());
    while i < blocks.len()
        invariant
            i <= blocks@.len(),
            bv == items_view(blocks@),
            any == (block_texts(bv.take(i as int)).len() > 0),
            out@ == join_lines(block_texts(bv.take(i as int))),
        decreases blocks@.len() - i,
    {
        let b = &blocks[i];
        assert(bv.take(i as int + 1).drop_last() =~= bv.take(i as int));
        assert(bv.take(i as int + 1).last() == b@);
        let is_text = match field_str(b, "type") {
            Some(t) => str_eq(t, "text"),
            None => false,
        };
        if is_text {
            match field_str(b, "text") {
                Some(t) => {
                    proof {
                        reveal_strlit("\n");
                    }
                    let ghost prev = block_texts(bv.take(i as int));
                    assert(block_texts(bv.take(i as int + 1)) == prev.push(t@));
                    assert(prev.push(t@).drop_last() =~= prev);
                    if any {
                        out = out.concat("\n");
                    } else {
                        assert(prev.push(t@) =~= seq![t@]);
                    }
                    out = out.concat(t);
                    any = true;
                    assert(out@ =~= join_lines(prev.push(t@)));
                },
                None => {
                    assert(block_texts(bv.take(i as int + 1)) == block_texts(bv.take(i as int)));
                },
            }
        } else {
            assert(block_texts(bv.take(i as int + 1)) == block_texts(bv.take(i as int)));
        }
        i = i + 1;
    }
    assert(bv.take(blocks@.len() as int) =~= bv);
    out
}

pub open spec fn obj(members: Seq<(Seq<char>, JsonV)>) -> JsonV {
    JsonV::Object(members)
}

pub open spec fn jstr(s: Seq<char>) -> JsonV {
    JsonV::Str(s)
}

/// The `input` of a tool-use block: the arguments where they read as JSON, else `{}`.
pub open spec fn tool_input(arguments: Option<Seq<char>>) -> JsonV {
    let text = match arguments {
        Some(a) => a,
        None => "{}"@,
    };
    if is_json_text(text) {
        JsonV::Raw(text)
    } else {
        obj(Seq::empty())
    }
}

/// The tool-use block for one element of `message.tool_calls`; `fallback_id`
/// stands in for a missing or empty id.
pub open spec fn tool_use_block(call: JsonV, fallback_id: Seq<char>) -> JsonV {
    let func = member_or_null(call, "function"@);
    let id = or_empty(text_of(call.field("id"@)));
    obj(
        seq![
            ("type"@, jstr("tool_use"@)),
            ("id"@, jstr(if id.len() == 0 { fallback_id } else { id })),
            ("name"@, jstr(or_empty(text_of(func.field("name"@))))),
            ("input"@, tool_input(text_of(func.field("arguments"@)))),
        ],
    )
}

pub open spec fn tool_use_blocks(calls: Seq<JsonV>, fallback_ids: Seq<Seq<char>>) -> Seq<JsonV>
    decreases calls.len(),
{
    if calls.len() == 0 {
        Seq::empty()
    } else {
        tool_use_blocks(calls.drop_last(), fallback_ids).push(
            tool_use_block(calls.last(), fallback_ids[calls.len() - 1]),
        )
    }
}

/// The content of a tool result: a string as it is, or the joined text blocks.
pub open spec fn result_text(content: Option<JsonV>) -> Seq<char> {
    match content {
        Some(JsonV::Str(s)) => s,
        Some(JsonV::Array(items)) => join_lines(block_texts(items)),
        _ => Seq::empty(),
    }
}

pub open spec fn is_tool_message(msg: JsonV) -> bool {
    text_of(msg.field("role"@)) == Some("tool"@) || msg.field("tool_call_id"@) is Some
}

/// The content blocks for the message of the first choice.
pub open spec fn response_blocks(msg: JsonV, fallback_ids: Seq<Seq<char>>) -> Seq<JsonV> {
    let reasoning = or_empty(text_of(msg.field("reasoning_content"@)));
    let thinking: Seq<JsonV> = if reasoning.len() > 0 {
        seq![obj(seq![("type"@, jstr("thinking"@)), ("thinking"@, jstr(reasoning))])]
    } else {
        Seq::empty()
    };
    let rest: Seq<JsonV> = match items_of(msg.field("tool_calls"@)) {
        Some(calls) => {
            let text = sanitized(or_empty(text_of(msg.field("content"@))));
            let lead: Seq<JsonV> = if text.len() > 0 {
                seq![obj(seq![("type"@, jstr("text"@)), ("text"@, jstr(text))])]
            } else {
                Seq::empty()
            };
            lead + tool_use_blocks(calls, fallback_ids)
        },
        None => if is_tool_message(msg) {
            seq![
                obj(
                    seq![
                        ("type"@, jstr("tool_result"@)),
                        ("tool_use_id"@, jstr(or_empty(text_of(msg.field("tool_call_id"@))))),
                        ("content"@, jstr(result_text(msg.field("content"@)))),
                        (
                            "is_error"@,
                            JsonV::Bool(
                                match bool_of(msg.field("is_error"@)) {
                                    Some(b) => b,
                                    None => false,
                                },
                            ),
                        ),
                    ],
                ),
            ]
        } else {
            seq![
                obj(
                    seq![
                        ("type"@, jstr("text"@)),
                        ("text"@, jstr(sanitized(or_empty(text_of(msg.field("content"@)))))),
                    ],
                ),
            ]
        },
    };
    thinking + rest
}

/// The first element of `choices`, or `null`.
pub open spec fn first_choice(response: JsonV) -> JsonV {
    match items_of(response.field("choices"@)) {
        Some(cs) => if cs.len() > 0 {
            cs[0]
        } else {
            JsonV::Null
        },
        None => JsonV::Null,
    }
}

pub open spec fn count_or_zero(n: Option<u64>) -> u64 {
    match n {
        Some(v) => v,
        None => 0,
    }
}

/// How many tool calls the first choice's message holds.
pub open spec fn tool_call_total(response: JsonV) -> nat {
    match items_of(member_or_null(first_choice(response), "message"@).field("tool_calls"@)) {
        Some(calls) => calls.len(),
        None => 0,
    }
}

/// The dialect-M response document for a dialect-C response.
pub open spec fn response_document(
    response: JsonV,
    model: Seq<char>,
    msg_id: Seq<char>,
    fallback_ids: Seq<Seq<char>>,
) -> JsonV {
    let choice = first_choice(response);
    let msg = member_or_null(choice, "message"@);
    let usage = member_or_null(response, "usage"@);
    let stop = match text_of(choice.field("finish_reason"@)) {
        Some(f) => stop_reason_for(f),
        None => "end_turn"@,
    };
    obj(
        seq![
            ("id"@, jstr(msg_id)),
            ("type"@, jstr("message"@)),
            ("role"@, jstr("assistant"@)),
            ("model"@, jstr(model)),
            ("content"@, JsonV::Array(response_blocks(msg, fallback_ids))),
            ("stop_reason"@, jstr(stop)),
            ("stop_sequence"@, JsonV::Null),
            (
                "usage"@,
                obj(
                    seq![
                        ("input_tokens"@, JsonV::Num(crate::json::NumV::PosInt(count_or_zero(u64_of(usage.field("prompt_tokens"@)))))),
                        ("output_tokens"@, JsonV::Num(crate::json::NumV::PosInt(count_or_zero(u64_of(usage.field("completion_tokens"@)))))),
                    ],
                ),
            ),
        ],
    )
}

pub open spec fn ids_view(ids: Seq<String>) -> Seq<Seq<char>> {
    ids.map_values(|s: String| s@)
}

fn tool_use_json(call: &Json, fallback_id: &str) -> (r: Json)
    ensures
        r@ == tool_use_block(call@, fallback_id@),
{
    proof {
        reveal_strlit("");
    }
    let null = Json::Null;
    let func: &Json = match call.get("function") {
        Some(f) => f,
        None => &null,
    };
    let id = match field_str(call, "id") {
        Some(t) => t,
        None => "",
    };
    let name = match field_str(func, "name") {
        Some(t) => t,
        None => "",
    };
    let args = match field_str(func, "arguments") {
        Some(a) => a,
        None => "{}",
    };
    let input = if parses_as_json(args) {
        Json::Raw(copy_string(args))
    } else {
        object_of(Vec::new())
    };
    proof {
        assert(members_view(Seq::<(String, Json)>::empty()) =~= Seq::empty());
    }
    let mut ms: Vec<(String, Json)> = Vec::new();
    push_member(&mut ms, "type", str_json("tool_use"));
    push_member(&mut ms, "id", str_json(if id.unicode_len() == 0 { fallback_id } else { id }));
    push_member(&mut ms, "name", str_json(name));
    push_member(&mut ms, "input", input);
    let ghost func_v = member_or_null(call@, "function"@);
    assert(func@ == func_v);
    assert(input@ == tool_input(text_of(func_v.field("arguments"@))));
    assert(id@ == or_empty(text_of(call@.field("id"@))));
    assert(name@ == or_empty(text_of(func_v.field("name"@))));
    assert(members_view(ms@) =~= tool_use_block(call@, fallback_id@)->Object_0);
    object_of(ms)
}

pub(crate) fn result_text_of(msg: &Json) -> (r: String)
    ensures
        r@ == result_text(msg@.field("content"@)),
{
    match msg.get("content") {
        Some(Json::Str(s)) => copy_string(s.as_str()),
        Some(Json::Array(items)) => {
            let ghost v = JsonV::Array(items_view(items@));
            assert(Json::Array(*items)@ == v) by {
                assert(Json::Array(*items)@->Array_0 =~= items_view(items@));
            }
            extract_text_from_blocks(items)
        },
        _ => String::new(),
    }
}

fn text_block(text: &str) -> (r: Json)
    ensures
        r@ == obj(seq![("type"@, jstr("text"@)), ("text"@, jstr(text@))]),
{
    let mut ms: Vec<(String, Json)> = Vec::new();
    assert(members_view(ms@) =~= Seq::empty());
    push_member(&mut ms, "type", str_json("text"));
    push_member(&mut ms, "text", str_json(text));
    assert(members_view(ms@) =~= seq![("type"@, jstr("text"@)), ("text"@, jstr(text@))]);
    object_of(ms)
}

fn blocks_for(msg: &Json, fallback_ids: &Vec<String>) -> (r: Vec<Json>)
    requires
        match items_of(msg@.field("tool_calls"@)) {
            Some(calls) => calls.len() <= fallback_ids@.len(),
            None => true,
        },
    ensures
        items_view(r@) == response_blocks(msg@, ids_view(fallback_ids@)),
{
    proof {
        reveal_strlit("");
    }
    let ghost m = msg@;
    let ghost fids = ids_view(fallback_ids@);
    let mut blocks: Vec<Json> = Vec::new();
    assert(items_view(blocks@) =~= Seq::empty());
    let reasoning = match field_str(msg, "reasoning_content") {
        Some(t) => t,
        None => "",
    };
    if reasoning.unicode_len() > 0 {
        let mut ms: Vec<(String, Json)> = Vec::new();
        assert(members_view(ms@) =~= Seq::empty());
        push_member(&mut ms, "type", str_json("thinking"));
        push_member(&mut ms, "thinking", str_json(reasoning));
        assert(members_view(ms@) =~= seq![("type"@, jstr("thinking"@)), ("thinking"@, jstr(reasoning@))]);
        push_item(&mut blocks, object_of(ms));
    }
    let ghost thinking = items_view(blocks@);
    let ghost rtext = or_empty(text_of(m.field("reasoning_content"@)));
    assert(reasoning@ == rtext);
    assert(thinking =~= (if rtext.len() > 0 {
        seq![obj(seq![("type"@, jstr("thinking"@)), ("thinking"@, jstr(rtext))])]
    } else {
        Seq::<JsonV>::empty()
    }));
    let calls = match msg.get("tool_calls") {
        Some(tc) => tc.as_array(),
        None => None,
    };
    match calls {
        Some(calls) => {
            let ghost cv = items_view(calls@);
            let content = match field_str(msg, "content") {
                Some(t) => t,
                None => "",
            };
            let text = strip_hallucinated_tags(content);
            if text.as_str().unicode_len() > 0 {
                push_item(&mut blocks, text_block(text.as_str()));
            }
            let ghost lead = items_view(blocks@);
            let mut k: usize = 0;
            assert(cv.take(0) =~= Seq::<JsonV>::empty());
            assert(lead + tool_use_blocks(cv.take(0), fids) =~= lead);
            while k < calls.len()
                invariant
                    k <= calls@.len(),
                    cv == items_view(calls@),
                    cv.len() <= fallback_ids@.len(),
                    fids == ids_view(fallback_ids@),
                    items_view(blocks@) == lead + tool_use_blocks(cv.take(k as int), fids),
                decreases calls@.len() - k,
            {
                let b = tool_use_json(&calls[k], fallback_ids[k].as_str());
                push_item(&mut blocks, b);
                assert(cv.take(k as int + 1).drop_last() =~= cv.take(k as int));
                assert(cv.take(k as int + 1).last() == calls@[k as int]@);
                k = k + 1;
                assert(items_view(blocks@) =~= lead + tool_use_blocks(cv.take(k as int), fids));
            }
            assert(cv.take(calls@.len() as int) =~= cv);
            assert(items_of(m.field("tool_calls"@)) == Some(cv));
            assert(content@ == or_empty(text_of(m.field("content"@))));
            assert(items_view(blocks@) =~= response_blocks(m, fids));
        },
        None => {
            let is_tool_role = match field_str(msg, "role") {
                Some(r) => str_eq(r, "tool"),
                None => false,
            };
            proof {
                reveal_strlit("tool");
            }
            if is_tool_role || msg.get("tool_call_id").is_some() {
                let id = match field_str(msg, "tool_call_id") {
                    Some(t) => t,
                    None => "",
                };
                let is_error = match msg.get("is_error") {
                    Some(v) => match v.as_bool() {
                        Some(b) => b,
                        None => false,
                    },
                    None => false,
                };
                let content = result_text_of(msg);
                let mut ms: Vec<(String, Json)> = Vec::new();
                assert(members_view(ms@) =~= Seq::empty());
                push_member(&mut ms, "type", str_json("tool_result"));
                push_member(&mut ms, "tool_use_id", str_json(id));
                push_member(&mut ms, "content", str_json(content.as_str()));
                push_member(&mut ms, "is_error", Json::Bool(is_error));
                assert(is_tool_message(m));
                assert(id@ == or_empty(text_of(m.field("tool_call_id"@))));
                assert(is_error == match bool_of(m.field("is_error"@)) {
                    Some(b) => b,
                    None => false,
                });
                assert(members_view(ms@) =~= seq![
                    ("type"@, jstr("tool_result"@)),
                    ("tool_use_id"@, jstr(or_empty(text_of(m.field("tool_call_id"@))))),
                    ("content"@, jstr(result_text(m.field("content"@)))),
                    (
                        "is_error"@,
                        JsonV::Bool(
                            match bool_of(m.field("is_error"@)) {
                                Some(b) => b,
                                None => false,
                            },
                        ),
                    ),
                ]);
                push_item(&mut blocks, object_of(ms));
                assert(items_view(blocks@) =~= response_blocks(m, fids));
            } else {
                let content = match field_str(msg, "content") {
                    Some(t) => t,
                    None => "",
                };
                let text = strip_hallucinated_tags(content);
                assert(content@ == or_empty(text_of(m.field("content"@))));
                push_item(&mut blocks, text_block(text.as_str()));
                assert(!is_tool_message(m));
                assert(items_view(blocks@) =~= response_blocks(m, fids));
            }
        },
    }
    blocks
}

/// The number of tool calls in the first choice's message.
pub fn tool_call_count(response: &Json) -> (r: usize)
    ensures
        r == tool_call_total(response@),
{
    let null = Json::Null;
    let choice: &Json = match response.get("choices") {
        Some(c) => match c.as_array() {
            Some(cs) => if cs.len() > 0 {
                &cs[0]
            } else {
                &null
            },
            None => &null,
        },
        None => &null,
    };
    let msg: &Json = match choice.get("message") {
        Some(m) => m,
        None => &null,
    };
    match msg.get("tool_calls") {
        Some(tc) => match tc.as_array() {
            Some(calls) => calls.len(),
            None => 0,
        },
        None => 0,
    }
}

/// Builds the dialect-M response for a dialect-C response document: message id
/// `msg_id`, and `fallback_ids[k]` as the id of the k-th tool call where that
/// call has none.
pub fn build_response(response: &Json, model: &str, msg_id: &str, fallback_ids: &Vec<String>) -> (r: Json)
    requires
        tool_call_total(response@) <= fallback_ids@.len(),
    ensures
        r@ == response_document(response@, model@, msg_id@, ids_view(fallback_ids@)),
{
    proof {
        reveal_strlit("end_turn");
    }
    let null = Json::Null;
    let choice: &Json = match response.get("choices") {
        Some(c) => match c.as_array() {
            Some(cs) => if cs.len() > 0 {
                &cs[0]
            } else {
                &null
            },
            None => &null,
        },
        None => &null,
    };
    assert(choice@ == first_choice(response@));
    let msg: &Json = match choice.get("message") {
        Some(m) => m,
        None => &null,
    };
    let usage: &Json = match response.get("usage") {
        Some(u) => u,
        None => &null,
    };
    let input_tokens = match usage.get("prompt_tokens") {
        Some(v) => match v.as_u64() {
            Some(n) => n,
            None => 0,
        },
        None => 0,
    };
    let output_tokens = match usage.get("completion_tokens") {
        Some(v) => match v.as_u64() {
            Some(n) => n,
            None => 0,
        },
        None => 0,
    };
    let stop: &str = match field_str(choice, "finish_reason") {
        Some(f) => map_stop_reason(f),
        None => "end_turn",
    };
    let blocks = blocks_for(msg, fallback_ids);
    let mut tokens: Vec<(String, Json)> = Vec::new();
    assert(members_view(tokens@) =~= Seq::empty());
    push_member(&mut tokens, "input_tokens", Json::Num(Number::PosInt(input_tokens)));
    push_member(&mut tokens, "output_tokens", Json::Num(Number::PosInt(output_tokens)));
    let ghost want = response_document(response@, model@, msg_id@, ids_view(fallback_ids@));
    assert(members_view(tokens@) =~= want->Object_0[7].1->Object_0);
    let mut ms: Vec<(String, Json)> = Vec::new();
    assert(members_view(ms@) =~= Seq::empty());
    push_member(&mut ms, "id", str_json(msg_id));
    push_member(&mut ms, "type", str_json("message"));
    push_member(&mut ms, "role", str_json("assistant"));
    push_member(&mut ms, "model", str_json(model));
    push_member(&mut ms, "content", array_of(blocks));
    push_member(&mut ms, "stop_reason", str_json(stop));
    push_member(&mut ms, "stop_sequence", Json::Null);
    push_member(&mut ms, "usage", object_of(tokens));
    assert(stop@ == want->Object_0[5].1->Str_0);
    assert(members_view(ms@) =~= want->Object_0);
    object_of(ms)
}

/// An identifier of the form `prefix` and 24 lowercase hex digits.
pub open spec fn is_fresh_id(id: Seq<char>, prefix: Seq<char>) -> bool {
    &&& id.len() == prefix.len() + 24
    &&& id.subrange(0, prefix.len() as int) == prefix
    &&& all_lower_hex(id.subrange(prefix.len() as int, id.len() as int))
}

/// Translates a dialect-C response document into dialect M, with a fresh
/// `msg_…` id and a fresh `toolu_…` id for each tool call that has none.
pub fn transform_response(openai_response: &Json, model: &str) -> (r: Json)
    ensures
        exists|msg_id: Seq<char>, fallback_ids: Seq<Seq<char>>|
            {
                &&& is_fresh_id(msg_id, "msg_"@)
                &&& fallback_ids.len() == tool_call_total(openai_response@)
                &&& forall|k: int|
                    0 <= k < fallback_ids.len() ==> #[trigger] is_fresh_id(fallback_ids[k], "toolu_"@)
                &&& r@ == response_document(openai_response@, model@, msg_id, fallback_ids)
            },
{
    let msg_id = fresh_id("msg_");
    let n = tool_call_count(openai_response);
    let mut ids: Vec<String> = Vec::new();
    while ids.len() < n
        invariant
            ids@.len() <= n,
            forall|k: int| 0 <= k < ids@.len() ==> #[trigger] is_fresh_id(ids@[k]@, "toolu_"@),
        decreases n - ids@.len(),
    {
        ids.push(fresh_id("toolu_"));
    }
    let r = build_response(openai_response, model, msg_id.as_str(), &ids);
    assert(is_fresh_id(msg_id@, "msg_"@));
    assert(forall|k: int| 0 <= k < ids_view(ids@).len() ==> #[trigger] is_fresh_id(ids_view(ids@)[k], "toolu_"@));
    r
}

} // verus!

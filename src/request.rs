//! The request translator (dialect M to dialect C).
use vstd::prelude::*;
use crate::json::{
    bool_of, field_str, items_of, json_text, str_eq, text_of, view_opt, Json, JsonV, Number, NumV,
};
use crate::response::{
    array_of, block_texts, extract_text_from_blocks, items_view, join_lines, jstr, members_view, obj,
    object_of, push_item, push_member, result_text, result_text_of, str_json,
};
use crate::stream::or_empty;

verus! {

pub open spec fn or_value(v: Option<JsonV>, default: JsonV) -> JsonV {
    match v {
        Some(x) => x,
        None => default,
    }
}

pub open spec fn or_text(t: Option<Seq<char>>, default: Seq<char>) -> Seq<char> {
    match t {
        Some(x) => x,
        None => default,
    }
}

pub open spec fn message(role: Seq<char>, content: JsonV) -> JsonV {
    obj(seq![("role"@, jstr(role)), ("content"@, content)])
}

/// The type of a content block; a block without one is text.
pub open spec fn block_type(b: JsonV) -> Seq<char> {
    or_text(text_of(b.field("type"@)), "text"@)
}

/// The system messages for the `system` field.
pub open spec fn system_messages(system: Option<JsonV>) -> Seq<JsonV> {
    match system {
        Some(JsonV::Str(s)) => seq![message("system"@, jstr(s))],
        Some(JsonV::Array(blocks)) => {
            let text = join_lines(block_texts(blocks));
            if text.len() > 0 {
                seq![message("system"@, jstr(text))]
            } else {
                Seq::empty()
            }
        },
        _ => Seq::empty(),
    }
}

/// The part of a user message that a text or image block becomes, if any.
pub open spec fn user_part(b: JsonV) -> Option<JsonV> {
    let t = block_type(b);
    if t == "text"@ {
        Some(obj(seq![("type"@, jstr("text"@)), ("text"@, or_value(b.field("text"@), jstr(Seq::empty())))]))
    } else if t == "image"@ {
        match b.field("source"@) {
            Some(src) => Some(
                obj(
                    seq![
                        ("type"@, jstr("image_url"@)),
                        (
                            "image_url"@,
                            obj(
                                seq![
                                    (
                                        "url"@,
                                        jstr(
                                            "data:"@ + or_text(text_of(src.field("media_type"@)), "image/png"@)
                                                + ";base64,"@ + or_empty(text_of(src.field("data"@))),
                                        ),
                                    ),
                                ],
                            ),
                        ),
                    ],
                ),
            ),
            None => None,
        }
    } else {
        None
    }
}

/// The tool message that a `tool_result` block becomes.
pub open spec fn tool_message(b: JsonV) -> JsonV {
    obj(
        seq![
            ("role"@, jstr("tool"@)),
            ("tool_call_id"@, jstr(or_empty(text_of(b.field("tool_use_id"@))))),
            ("content"@, jstr(result_text(b.field("content"@)))),
        ],
    )
}

/// The parts gathered so far and the messages emitted so far, after the blocks
/// of a user message: a tool result first flushes the gathered parts.
pub open spec fn user_fold(blocks: Seq<JsonV>) -> (Seq<JsonV>, Seq<JsonV>)
    decreases blocks.len(),
{
    if blocks.len() == 0 {
        (Seq::empty(), Seq::empty())
    } else {
        let prev = user_fold(blocks.drop_last());
        let b = blocks.last();
        if block_type(b) == "tool_result"@ {
            let flushed = if prev.0.len() > 0 {
                prev.1.push(message("user"@, JsonV::Array(prev.0)))
            } else {
                prev.1
            };
            (Seq::empty(), flushed.push(tool_message(b)))
        } else {
            match user_part(b) {
                Some(p) => (prev.0.push(p), prev.1),
                None => prev,
            }
        }
    }
}

pub open spec fn user_messages(blocks: Seq<JsonV>) -> Seq<JsonV> {
    let f = user_fold(blocks);
    if f.0.len() > 0 {
        f.1.push(message("user"@, JsonV::Array(f.0)))
    } else {
        f.1
    }
}

/// The text blocks of an assistant message, concatenated.
pub open spec fn assistant_text(blocks: Seq<JsonV>) -> Seq<char>
    decreases blocks.len(),
{
    if blocks.len() == 0 {
        Seq::empty()
    } else {
        let b = blocks.last();
        if block_type(b) == "text"@ {
            assistant_text(blocks.drop_last()) + or_empty(text_of(b.field("text"@)))
        } else {
            assistant_text(blocks.drop_last())
        }
    }
}

/// The tool call that a `tool_use` block becomes; its input is sent as JSON text.
pub open spec fn tool_call(b: JsonV) -> JsonV {
    obj(
        seq![
            ("id"@, jstr(or_empty(text_of(b.field("id"@))))),
            ("type"@, jstr("function"@)),
            (
                "function"@,
                obj(
                    seq![
                        ("name"@, jstr(or_empty(text_of(b.field("name"@))))),
                        ("arguments"@, jstr(json_text(or_value(b.field("input"@), obj(Seq::empty()))))),
                    ],
                ),
            ),
        ],
    )
}

pub open spec fn assistant_calls(blocks: Seq<JsonV>) -> Seq<JsonV>
    decreases blocks.len(),
{
    if blocks.len() == 0 {
        Seq::empty()
    } else {
        let b = blocks.last();
        if block_type(b) == "tool_use"@ {
            assistant_calls(blocks.drop_last()).push(tool_call(b))
        } else {
            assistant_calls(blocks.drop_last())
        }
    }
}

/// The assistant message: text if any, tool calls if any. Thinking blocks are dropped.
pub open spec fn assistant_message(blocks: Seq<JsonV>) -> JsonV {
    let text = assistant_text(blocks);
    let calls = assistant_calls(blocks);
    let a: Seq<(Seq<char>, JsonV)> = seq![("role"@, jstr("assistant"@))];
    let b = if text.len() > 0 {
        a.push(("content"@, jstr(text)))
    } else {
        a
    };
    obj(
        if calls.len() > 0 {
            b.push(("tool_calls"@, JsonV::Array(calls)))
        } else {
            b
        },
    )
}

/// The texts of all blocks that carry one, whatever their type.
pub open spec fn any_texts(blocks: Seq<JsonV>) -> Seq<Seq<char>>
    decreases blocks.len(),
{
    if blocks.len() == 0 {
        Seq::empty()
    } else {
        match text_of(blocks.last().field("text"@)) {
            Some(t) => any_texts(blocks.drop_last()).push(t),
            None => any_texts(blocks.drop_last()),
        }
    }
}

/// The messages that a message with block content becomes.
pub open spec fn block_messages(role: Seq<char>, blocks: Seq<JsonV>) -> Seq<JsonV> {
    if role == "user"@ {
        user_messages(blocks)
    } else if role == "assistant"@ {
        seq![assistant_message(blocks)]
    } else {
        seq![message(role, jstr(join_lines(any_texts(blocks))))]
    }
}

/// The messages that one incoming message becomes.
pub open spec fn converted_message(m: JsonV) -> Seq<JsonV> {
    let role = or_text(text_of(m.field("role"@)), "user"@);
    match m.field("content"@) {
        Some(JsonV::Str(t)) => seq![message(role, jstr(t))],
        Some(JsonV::Array(blocks)) => block_messages(role, blocks),
        _ => Seq::empty(),
    }
}

pub open spec fn converted_messages(ms: Seq<JsonV>) -> Seq<JsonV>
    decreases ms.len(),
{
    if ms.len() == 0 {
        Seq::empty()
    } else {
        converted_messages(ms.drop_last()) + converted_message(ms.last())
    }
}

/// A tool definition, wrapped as a function.
pub open spec fn tool_definition(t: JsonV) -> JsonV {
    obj(
        seq![
            ("type"@, jstr("function"@)),
            (
                "function"@,
                obj(
                    seq![
                        ("name"@, or_value(t.field("name"@), jstr(Seq::empty()))),
                        ("description"@, or_value(t.field("description"@), jstr(Seq::empty()))),
                        ("parameters"@, or_value(t.field("input_schema"@), obj(Seq::empty()))),
                    ],
                ),
            ),
        ],
    )
}

pub open spec fn tool_definitions(tools: Seq<JsonV>) -> Seq<JsonV> {
    Seq::new(tools.len(), |i: int| tool_definition(tools[i]))
}

/// The `tool_choice` member for a `tool_choice` field, if any.
pub open spec fn tool_choice_members(tc: Option<JsonV>) -> Seq<(Seq<char>, JsonV)> {
    match tc {
        Some(c) => {
            let t = or_text(text_of(c.field("type"@)), "auto"@);
            if t == "auto"@ {
                seq![("tool_choice"@, jstr("auto"@))]
            } else if t == "any"@ {
                seq![("tool_choice"@, jstr("required"@))]
            } else if t == "tool"@ {
                match text_of(c.field("name"@)) {
                    Some(name) => seq![
                        (
                            "tool_choice"@,
                            obj(
                                seq![
                                    ("type"@, jstr("function"@)),
                                    ("function"@, obj(seq![("name"@, jstr(name))])),
                                ],
                            ),
                        ),
                    ],
                    None => Seq::empty(),
                }
            } else {
                Seq::empty()
            }
        },
        None => Seq::empty(),
    }
}

pub open spec fn optional_member(key: Seq<char>, v: Option<JsonV>) -> Seq<(Seq<char>, JsonV)> {
    match v {
        Some(x) => seq![(key, x)],
        None => Seq::empty(),
    }
}

/// The members for `thinking`: enabled thinking sets `reasoning.max_tokens` from
/// its budget and is passed on as it is.
pub open spec fn thinking_members(thinking: Option<JsonV>) -> Seq<(Seq<char>, JsonV)> {
    match thinking {
        Some(t) => if bool_of(t.field("enabled"@)) == Some(true) {
            let budget: Seq<(Seq<char>, JsonV)> = match t.field("budget_tokens"@) {
                Some(b) => seq![("reasoning"@, obj(seq![("max_tokens"@, b)]))],
                None => Seq::empty(),
            };
            budget.push(("thinking"@, t))
        } else {
            Seq::empty()
        },
        None => Seq::empty(),
    }
}

pub open spec fn stop_members(stop: Option<JsonV>) -> Seq<(Seq<char>, JsonV)> {
    match items_of(stop) {
        Some(s) => seq![("stop"@, JsonV::Array(s))],
        None => Seq::empty(),
    }
}

pub open spec fn tools_members(tools: Option<JsonV>, choice: Option<JsonV>) -> Seq<(Seq<char>, JsonV)> {
    match items_of(tools) {
        Some(ts) => seq![("tools"@, JsonV::Array(tool_definitions(ts)))] + tool_choice_members(choice),
        None => Seq::empty(),
    }
}

/// The dialect-C request for a dialect-M request.
pub open spec fn request_document(body: JsonV) -> JsonV {
    let stream = or_value(body.field("stream"@), JsonV::Bool(false));
    let msgs = system_messages(body.field("system"@)) + match items_of(body.field("messages"@)) {
        Some(ms) => converted_messages(ms),
        None => Seq::empty(),
    };
    let head: Seq<(Seq<char>, JsonV)> = seq![
        ("model"@, or_value(body.field("model"@), jstr(Seq::empty()))),
        ("messages"@, JsonV::Array(msgs)),
        ("max_tokens"@, or_value(body.field("max_tokens"@), JsonV::Num(NumV::PosInt(1024)))),
        ("stream"@, stream),
    ];
    let sampling = optional_member("temperature"@, body.field("temperature"@)) + optional_member(
        "top_p"@,
        body.field("top_p"@),
    );
    let stop = stop_members(body.field("stop_sequences"@));
    let tools = tools_members(body.field("tools"@), body.field("tool_choice"@));
    let options: Seq<(Seq<char>, JsonV)> = if bool_of(Some(stream)) == Some(true) {
        seq![("stream_options"@, obj(seq![("include_usage"@, JsonV::Bool(true))]))]
    } else {
        Seq::empty()
    };
    obj(head + sampling + stop + tools + thinking_members(body.field("thinking"@)) + options)
}

fn field_or(j: &Json, key: &str, default: Json) -> (r: Json)
    ensures
        r@ == or_value(j@.field(key@), default@),
{
    match j.get(key) {
        Some(v) => v.deep_clone(),
        None => default,
    }
}

fn text_or<'a>(j: &'a Json, key: &str, default: &'a str) -> (r: &'a str)
    ensures
        r@ == or_text(text_of(j@.field(key@)), default@),
{
    match field_str(j, key) {
        Some(t) => t,
        None => default,
    }
}

fn empty_object() -> (r: Json)
    ensures
        r@ == obj(Seq::empty()),
{
    let ms: Vec<(String, Json)> = Vec::new();
    assert(members_view(ms@) =~= Seq::empty());
    object_of(ms)
}

fn message_json(role: &str, content: Json) -> (r: Json)
    ensures
        r@ == message(role@, content@),
{
    let mut ms: Vec<(String, Json)> = Vec::new();
    assert(members_view(ms@) =~= Seq::empty());
    push_member(&mut ms, "role", str_json(role));
    push_member(&mut ms, "content", content);
    assert(members_view(ms@) =~= seq![("role"@, jstr(role@)), ("content"@, content@)]);
    object_of(ms)
}

fn push_json(out: &mut Vec<Json>, j: Json)
    ensures
        items_view(final(out)@) == items_view(old(out)@) + seq![j@],
{
    push_item(out, j);
    assert(items_view(old(out)@).push(j@) =~= items_view(old(out)@) + seq![j@]);
}

proof fn lemma_array_view(items: Vec<Json>)
    ensures
        Json::Array(items)@ == JsonV::Array(items_view(items@)),
{
    assert(Json::Array(items)@->Array_0 =~= items_view(items@));
}

fn system_messages_into(body: &Json, out: &mut Vec<Json>)
    ensures
        items_view(final(out)@) == items_view(old(out)@) + system_messages(body@.field("system"@)),
{
    match body.get("system") {
        Some(Json::Str(s)) => {
            push_json(out, message_json("system", str_json(s.as_str())));
        },
        Some(Json::Array(blocks)) => {
            proof {
                lemma_array_view(*blocks);
            }
            let text = extract_text_from_blocks(blocks);
            if text.as_str().unicode_len() > 0 {
                push_json(out, message_json("system", str_json(text.as_str())));
            } else {
                assert(items_view(out@) =~= items_view(old(out)@) + Seq::empty());
            }
        },
        _ => {
            assert(items_view(out@) =~= items_view(old(out)@) + Seq::empty());
        },
    }
}

fn user_part_of(b: &Json) -> (r: Option<Json>)
    ensures
        match r {
            Some(p) => user_part(b@) == Some(p@),
            None => user_part(b@) is None,
        },
{
    proof {
        reveal_strlit("");
        assert(""@ =~= Seq::<char>::empty());
    }
    let t = text_or(b, "type", "text");
    if str_eq(t, "text") {
        let mut ms: Vec<(String, Json)> = Vec::new();
        assert(members_view(ms@) =~= Seq::empty());
        push_member(&mut ms, "type", str_json("text"));
        push_member(&mut ms, "text", field_or(b, "text", str_json("")));
        assert(members_view(ms@) =~= user_part(b@)->0->Object_0);
        Some(object_of(ms))
    } else if str_eq(t, "image") {
        match b.get("source") {
            Some(src) => {
                let media = text_or(src, "media_type", "image/png");
                let data = text_or(src, "data", "");
                let url = String::from_str("data:").concat(media).concat(";base64,").concat(data);
                let mut inner: Vec<(String, Json)> = Vec::new();
                assert(members_view(inner@) =~= Seq::empty());
                push_member(&mut inner, "url", str_json(url.as_str()));
                let mut ms: Vec<(String, Json)> = Vec::new();
                assert(members_view(ms@) =~= Seq::empty());
                push_member(&mut ms, "type", str_json("image_url"));
                push_member(&mut ms, "image_url", object_of(inner));
                assert(members_view(ms@) =~= user_part(b@)->0->Object_0);
                Some(object_of(ms))
            },
            None => None,
        }
    } else {
        None
    }
}

fn tool_message_json(b: &Json) -> (r: Json)
    ensures
        r@ == tool_message(b@),
{
    proof {
        reveal_strlit("");
        assert(""@ =~= Seq::<char>::empty());
    }
    let id = text_or(b, "tool_use_id", "");
    let content = result_text_of(b);
    let mut ms: Vec<(String, Json)> = Vec::new();
    assert(members_view(ms@) =~= Seq::empty());
    push_member(&mut ms, "role", str_json("tool"));
    push_member(&mut ms, "tool_call_id", str_json(id));
    push_member(&mut ms, "content", str_json(content.as_str()));
    assert(members_view(ms@) =~= tool_message(b@)->Object_0);
    object_of(ms)
}

fn user_messages_into(blocks: &Vec<Json>, out: &mut Vec<Json>)
    ensures
        items_view(final(out)@) == items_view(old(out)@) + user_messages(items_view(blocks@)),
{
    let ghost bv = items_view(blocks@);
    let ghost o0 = items_view(out@);
    let mut parts: Vec<Json> = Vec::new();
    let mut i: usize = 0;
    assert(bv.take(0) =~= Seq::<JsonV>::empty());
    assert(items_view(parts@) =~= Seq::empty());
    assert(items_view(out@) =~= o0 + Seq::empty());
    while i < blocks.len()
        invariant
            i <= blocks@.len(),
            bv == items_view(blocks@),
            items_view(parts@) == user_fold(bv.take(i as int)).0,
            items_view(out@) == o0 + user_fold(bv.take(i as int)).1,
        decreases blocks@.len() - i,
    {
        let b = &blocks[i];
        assert(bv.take(i as int + 1).drop_last() =~= bv.take(i as int));
        assert(bv.take(i as int + 1).last() == b@);
        let ghost prev = user_fold(bv.take(i as int));
        if str_eq(text_or(b, "type", "text"), "tool_result") {
            if parts.len() > 0 {
                proof {
                    lemma_array_view(parts);
                }
                push_json(out, message_json("user", Json::Array(parts)));
                parts = Vec::new();
            }
            push_json(out, tool_message_json(b));
            assert(items_view(parts@) =~= Seq::empty());
            assert(items_view(out@) =~= o0 + user_fold(bv.take(i as int + 1)).1);
        } else {
            match user_part_of(b) {
                Some(p) => {
                    push_item(&mut parts, p);
                },
                None => {},
            }
        }
        i = i + 1;
    }
    assert(bv.take(blocks@.len() as int) =~= bv);
    if parts.len() > 0 {
        proof {
            lemma_array_view(parts);
        }
        push_json(out, message_json("user", Json::Array(parts)));
        assert(items_view(out@) =~= o0 + user_messages(bv));
    } else {
        assert(items_view(out@) =~= o0 + user_messages(bv));
    }
}

fn tool_call_json(b: &Json) -> (r: Json)
    ensures
        r@ == tool_call(b@),
{
    proof {
        reveal_strlit("");
        assert(""@ =~= Seq::<char>::empty());
    }
    let input = field_or(b, "input", empty_object());
    let args = input.to_text();
    let mut func: Vec<(String, Json)> = Vec::new();
    assert(members_view(func@) =~= Seq::empty());
    push_member(&mut func, "name", str_json(text_or(b, "name", "")));
    push_member(&mut func, "arguments", str_json(args.as_str()));
    let mut ms: Vec<(String, Json)> = Vec::new();
    assert(members_view(ms@) =~= Seq::empty());
    push_member(&mut ms, "id", str_json(text_or(b, "id", "")));
    push_member(&mut ms, "type", str_json("function"));
    assert(members_view(func@) =~= tool_call(b@)->Object_0[2].1->Object_0);
    push_member(&mut ms, "function", object_of(func));
    assert(members_view(ms@) =~= tool_call(b@)->Object_0);
    object_of(ms)
}

fn assistant_message_json(blocks: &Vec<Json>) -> (r: Json)
    ensures
        r@ == assistant_message(items_view(blocks@)),
{
    proof {
        reveal_strlit("");
        assert(""@ =~= Seq::<char>::empty());
    }
    let ghost bv = items_view(blocks@);
    let mut text = String::new();
    let mut calls: Vec<Json> = Vec::new();
    let mut i: usize = 0;
    assert(bv.take(0) =~= Seq::<JsonV>::empty());
    assert(items_view(calls@) =~= Seq::empty());
    while i < blocks.len()
        invariant
            i <= blocks@.len(),
            bv == items_view(blocks@),
            text@ == assistant_text(bv.take(i as int)),
            items_view(calls@) == assistant_calls(bv.take(i as int)),
        decreases blocks@.len() - i,
    {
        proof {
            reveal_strlit("");
            assert(""@ =~= Seq::<char>::empty());
        }
        let b = &blocks[i];
        assert(bv.take(i as int + 1).drop_last() =~= bv.take(i as int));
        assert(bv.take(i as int + 1).last() == b@);
        let t = text_or(b, "type", "text");
        proof {
            reveal_strlit("text");
            reveal_strlit("tool_use");
        }
        if str_eq(t, "text") {
            assert(t@ == "text"@);
            assert("text"@.len() != "tool_use"@.len());
            text = text.concat(text_or(b, "text", ""));
        } else if str_eq(t, "tool_use") {
            push_item(&mut calls, tool_call_json(b));
        }
        i = i + 1;
    }
    assert(bv.take(blocks@.len() as int) =~= bv);
    let mut ms: Vec<(String, Json)> = Vec::new();
    assert(members_view(ms@) =~= Seq::empty());
    push_member(&mut ms, "role", str_json("assistant"));
    if text.as_str().unicode_len() > 0 {
        push_member(&mut ms, "content", str_json(text.as_str()));
    }
    if calls.len() > 0 {
        proof {
            lemma_array_view(calls);
        }
        push_member(&mut ms, "tool_calls", Json::Array(calls));
    }
    assert(members_view(ms@) =~= assistant_message(bv)->Object_0);
    object_of(ms)
}

fn other_text(blocks: &Vec<Json>) -> (r: String)
    ensures
        r@ == join_lines(any_texts(items_view(blocks@))),
{
    let ghost bv = items_view(blocks@);
    let mut out = String::new();
    let mut any = false;
    let mut i: usize = 0;
    assert(bv.take(0) =~= Seq::<JsonV>::empty());
    while i < blocks.len()
        invariant
            i <= blocks@.len(),
            bv == items_view(blocks@),
            any == (any_texts(bv.take(i as int)).len() > 0),
            out@ == join_lines(any_texts(bv.take(i as int))),
        decreases blocks@.len() - i,
    {
        let b = &blocks[i];
        assert(bv.take(i as int + 1).drop_last() =~= bv.take(i as int));
        assert(bv.take(i as int + 1).last() == b@);
        match field_str(b, "text") {
            Some(t) => {
                proof {
                    reveal_strlit("\n");
                }
                let ghost prev = any_texts(bv.take(i as int));
                assert(prev.push(t@).drop_last() =~= prev);
                if any {
                    out = out.concat("\n");
                } else {
                    assert(prev.push(t@) =~= seq![t@]);
                }
                out = out.concat(t);
                any = true;
                assert(out@ =~= join_lines(prev.push(t@)));
            },
            None => {},
        }
        i = i + 1;
    }
    assert(bv.take(blocks@.len() as int) =~= bv);
    out
}

fn convert_message_into(m: &Json, out: &mut Vec<Json>)
    ensures
        items_view(final(out)@) == items_view(old(out)@) + converted_message(m@),
{
    let role = text_or(m, "role", "user");
    match m.get("content") {
        Some(Json::Str(t)) => {
            push_json(out, message_json(role, str_json(t.as_str())));
        },
        Some(Json::Array(blocks)) => {
            proof {
                lemma_array_view(*blocks);
            }
            convert_content_blocks(role, blocks, out);
        },
        _ => {
            assert(items_view(out@) =~= items_view(old(out)@) + Seq::empty());
        },
    }
}

/// Appends the messages of dialect C that a message of `role` with content
/// `blocks` becomes: for `user`, text and image parts, each tool result as a
/// `tool` message after the parts gathered before it; for `assistant`, one
/// message with the concatenated text and the tool calls; for any other role,
/// the texts joined with `\n`.
pub fn convert_content_blocks(role: &str, blocks: &Vec<Json>, messages: &mut Vec<Json>)
    ensures
        items_view(final(messages)@) == items_view(old(messages)@) + block_messages(
            role@,
            items_view(blocks@),
        ),
{
    if str_eq(role, "user") {
        user_messages_into(blocks, messages);
    } else if str_eq(role, "assistant") {
        push_json(messages, assistant_message_json(blocks));
    } else {
        let text = other_text(blocks);
        push_json(messages, message_json(role, str_json(text.as_str())));
    }
}

fn tool_definition_json(t: &Json) -> (r: Json)
    ensures
        r@ == tool_definition(t@),
{
    proof {
        reveal_strlit("");
        assert(""@ =~= Seq::<char>::empty());
    }
    let mut func: Vec<(String, Json)> = Vec::new();
    assert(members_view(func@) =~= Seq::empty());
    push_member(&mut func, "name", field_or(t, "name", str_json("")));
    push_member(&mut func, "description", field_or(t, "description", str_json("")));
    push_member(&mut func, "parameters", field_or(t, "input_schema", empty_object()));
    let mut ms: Vec<(String, Json)> = Vec::new();
    assert(members_view(ms@) =~= Seq::empty());
    push_member(&mut ms, "type", str_json("function"));
    assert(members_view(func@) =~= tool_definition(t@)->Object_0[1].1->Object_0);
    push_member(&mut ms, "function", object_of(func));
    assert(members_view(ms@) =~= tool_definition(t@)->Object_0);
    object_of(ms)
}

fn push_members(out: &mut Vec<(String, Json)>, key: &str, value: Json)
    ensures
        members_view(final(out)@) == members_view(old(out)@) + seq![(key@, value@)],
{
    push_member(out, key, value);
    assert(members_view(old(out)@).push((key@, value@)) =~= members_view(old(out)@) + seq![(key@, value@)]);
}

fn optional_into(body: &Json, key: &str, out: &mut Vec<(String, Json)>)
    ensures
        members_view(final(out)@) == members_view(old(out)@) + optional_member(key@, body@.field(key@)),
{
    match body.get(key) {
        Some(v) => push_members(out, key, v.deep_clone()),
        None => {
            assert(members_view(out@) =~= members_view(old(out)@) + Seq::empty());
        },
    }
}

fn tool_choice_into(tc: Option<&Json>, out: &mut Vec<(String, Json)>)
    ensures
        members_view(final(out)@) == members_view(old(out)@) + tool_choice_members(view_opt(tc)),
{
    match tc {
        Some(c) => {
            let t = text_or(c, "type", "auto");
            if str_eq(t, "auto") {
                push_members(out, "tool_choice", str_json("auto"));
            } else if str_eq(t, "any") {
                push_members(out, "tool_choice", str_json("required"));
            } else if str_eq(t, "tool") {
                match field_str(c, "name") {
                    Some(name) => {
                        let mut inner: Vec<(String, Json)> = Vec::new();
                        assert(members_view(inner@) =~= Seq::empty());
                        push_member(&mut inner, "name", str_json(name));
                        let mut choice: Vec<(String, Json)> = Vec::new();
                        assert(members_view(choice@) =~= Seq::empty());
                        push_member(&mut choice, "type", str_json("function"));
                        push_member(&mut choice, "function", object_of(inner));
                        let ghost want = tool_choice_members(view_opt(tc));
                        assert(members_view(choice@) =~= want[0].1->Object_0);
                        push_members(out, "tool_choice", object_of(choice));
                    },
                    None => {
                        assert(members_view(out@) =~= members_view(old(out)@) + Seq::empty());
                    },
                }
            } else {
                assert(members_view(out@) =~= members_view(old(out)@) + Seq::empty());
            }
        },
        None => {
            assert(members_view(out@) =~= members_view(old(out)@) + Seq::empty());
        },
    }
}

fn thinking_into(body: &Json, out: &mut Vec<(String, Json)>)
    ensures
        members_view(final(out)@) == members_view(old(out)@) + thinking_members(body@.field("thinking"@)),
{
    match body.get("thinking") {
        Some(t) => {
            let enabled = match t.get("enabled") {
                Some(e) => match e.as_bool() {
                    Some(b) => b,
                    None => false,
                },
                None => false,
            };
            if enabled {
                let ghost o0 = members_view(out@);
                match t.get("budget_tokens") {
                    Some(b) => {
                        let mut inner: Vec<(String, Json)> = Vec::new();
                        assert(members_view(inner@) =~= Seq::empty());
                        push_member(&mut inner, "max_tokens", b.deep_clone());
                        assert(members_view(inner@) =~= seq![("max_tokens"@, b@)]);
                        push_members(out, "reasoning", object_of(inner));
                    },
                    None => {},
                }
                push_members(out, "thinking", t.deep_clone());
                assert(members_view(out@) =~= o0 + thinking_members(body@.field("thinking"@)));
            } else {
                assert(members_view(out@) =~= members_view(old(out)@) + Seq::empty());
            }
        },
        None => {
            assert(members_view(out@) =~= members_view(old(out)@) + Seq::empty());
        },
    }
}

fn stop_into(body: &Json, out: &mut Vec<(String, Json)>)
    ensures
        members_view(final(out)@) == members_view(old(out)@) + stop_members(body@.field("stop_sequences"@)),
{
    let stop = match body.get("stop_sequences") {
        Some(v) => match v.as_array() {
            Some(_) => Some(v),
            None => None,
        },
        None => None,
    };
    match stop {
        Some(v) => push_members(out, "stop", v.deep_clone()),
        None => {
            assert(members_view(out@) =~= members_view(old(out)@) + Seq::empty());
        },
    }
}

fn tools_into(body: &Json, out: &mut Vec<(String, Json)>)
    ensures
        members_view(final(out)@) == members_view(old(out)@) + tools_members(
            body@.field("tools"@),
            body@.field("tool_choice"@),
        ),
{
    let ghost o0 = members_view(out@);
    let tools = match body.get("tools") {
        Some(v) => v.as_array(),
        None => None,
    };
    match tools {
        Some(ts) => {
            let ghost tv = items_view(ts@);
            let mut defs: Vec<Json> = Vec::new();
            let mut i: usize = 0;
            while i < ts.len()
                invariant
                    i <= ts@.len(),
                    tv == items_view(ts@),
                    defs@.len() == i,
                    forall|k: int| 0 <= k < i ==> #[trigger] defs@[k]@ == tool_definition(tv[k]),
                decreases ts@.len() - i,
            {
                defs.push(tool_definition_json(&ts[i]));
                i = i + 1;
            }
            let arr = array_of(defs);
            assert(arr@ == JsonV::Array(tool_definitions(tv))) by {
                assert(items_view(defs@) =~= tool_definitions(tv));
            }
            push_members(out, "tools", arr);
            tool_choice_into(body.get("tool_choice"), out);
            assert(members_view(out@) =~= o0 + tools_members(body@.field("tools"@), body@.field("tool_choice"@)));
        },
        None => {
            assert(members_view(out@) =~= o0 + Seq::empty());
        },
    }
}

/// Translates a dialect-M request into the dialect-C request for the upstream:
/// system text first, each message converted in order, sampling options and
/// stop sequences passed on, tools wrapped as functions with their choice
/// mapped, thinking budgets as `reasoning.max_tokens`, and usage requested on
/// streams.
pub fn transform_request(anthropic_body: &Json) -> (r: Json)
    ensures
        r@ == request_document(anthropic_body@),
{
    proof {
        reveal_strlit("");
        assert(""@ =~= Seq::<char>::empty());
    }
    let body = anthropic_body;
    let ghost bv = body@;
    let mut msgs: Vec<Json> = Vec::new();
    assert(items_view(msgs@) =~= Seq::empty());
    system_messages_into(body, &mut msgs);
    let ghost sys = items_view(msgs@);
    let list = match body.get("messages") {
        Some(v) => v.as_array(),
        None => None,
    };
    match list {
        Some(ms) => {
            let ghost mv = items_view(ms@);
            let mut i: usize = 0;
            assert(mv.take(0) =~= Seq::<JsonV>::empty());
            assert(items_view(msgs@) =~= sys + converted_messages(mv.take(0)));
            while i < ms.len()
                invariant
                    i <= ms@.len(),
                    mv == items_view(ms@),
                    items_view(msgs@) == sys + converted_messages(mv.take(i as int)),
                decreases ms@.len() - i,
            {
                convert_message_into(&ms[i], &mut msgs);
                assert(mv.take(i as int + 1).drop_last() =~= mv.take(i as int));
                assert(mv.take(i as int + 1).last() == ms@[i as int]@);
                i = i + 1;
                assert(items_view(msgs@) =~= sys + converted_messages(mv.take(i as int)));
            }
            assert(mv.take(ms@.len() as int) =~= mv);
        },
        None => {
            assert(items_view(msgs@) =~= sys + Seq::empty());
        },
    }
    let stream = field_or(body, "stream", Json::Bool(false));
    let stream_on = match stream.as_bool() {
        Some(b) => b,
        None => false,
    };
    let mut out: Vec<(String, Json)> = Vec::new();
    assert(members_view(out@) =~= Seq::empty());
    push_member(&mut out, "model", field_or(body, "model", str_json("")));
    push_member(&mut out, "messages", array_of(msgs));
    push_member(&mut out, "max_tokens", field_or(body, "max_tokens", Json::Num(Number::PosInt(1024))));
    push_member(&mut out, "stream", stream);
    let ghost want = request_document(bv)->Object_0;
    let ghost head = members_view(out@);
    assert(head =~= want.subrange(0, 4));
    optional_into(body, "temperature", &mut out);
    optional_into(body, "top_p", &mut out);
    stop_into(body, &mut out);
    tools_into(body, &mut out);
    thinking_into(body, &mut out);
    let ghost with_thinking = members_view(out@);
    if stream_on {
        let mut opts: Vec<(String, Json)> = Vec::new();
        assert(members_view(opts@) =~= Seq::empty());
        push_member(&mut opts, "include_usage", Json::Bool(true));
        assert(members_view(opts@) =~= seq![("include_usage"@, JsonV::Bool(true))]);
        push_members(&mut out, "stream_options", object_of(opts));
    } else {
        assert(members_view(out@) =~= with_thinking + Seq::empty());
    }
    assert(members_view(out@) =~= want);
    object_of(out)
}

} // verus!

//! The JSON documents that the translators read and build.
use vstd::prelude::*;

verus! {

/// A JSON number, kept in the three shapes that a JSON reader produces:
/// a non-negative integer, a negative integer, or any other number by its text.
#[derive(Debug, PartialEq)]
pub enum Number {
    PosInt(u64),
    NegInt(i64),
    Float(String),
}

/// A JSON value. Object members keep their order; a well-formed object holds
/// each key once.
#[derive(Debug, PartialEq)]
pub enum Json {
    Null,
    Bool(bool),
    Num(Number),
    Str(String),
    Array(Vec<Json>),
    Object(Vec<(String, Json)>),
    /// JSON text that a reader has accepted, kept as it was written.
    Raw(String),
}

/// What a number denotes.
pub enum NumV {
    PosInt(u64),
    NegInt(i64),
    Float(Seq<char>),
}

/// What a JSON value denotes: strings as character sequences.
pub enum JsonV {
    Null,
    Bool(bool),
    Num(NumV),
    Str(Seq<char>),
    Array(Seq<JsonV>),
    Object(Seq<(Seq<char>, JsonV)>),
    Raw(Seq<char>),
}

pub open spec fn num_view(n: Number) -> NumV {
    match n {
        Number::PosInt(v) => NumV::PosInt(v),
        Number::NegInt(v) => NumV::NegInt(v),
        Number::Float(t) => NumV::Float(t@),
    }
}

pub open spec fn json_view(j: Json) -> JsonV
    decreases j,
{
    match j {
        Json::Null => JsonV::Null,
        Json::Bool(b) => JsonV::Bool(b),
        Json::Num(n) => JsonV::Num(num_view(n)),
        Json::Str(s) => JsonV::Str(s@),
        Json::Raw(t) => JsonV::Raw(t@),
        Json::Array(a) => JsonV::Array(
            Seq::new(
                a@.len(),
                |i: int|
                    if 0 <= i < a@.len() {
                        json_view(a@[i])
                    } else {
                        JsonV::Null
                    },
            ),
        ),
        Json::Object(m) => JsonV::Object(
            Seq::new(
                m@.len(),
                |i: int|
                    if 0 <= i < m@.len() {
                        (m@[i].0@, json_view(m@[i].1))
                    } else {
                        (Seq::empty(), JsonV::Null)
                    },
            ),
        ),
    }
}

impl View for Json {
    type V = JsonV;

    open spec fn view(&self) -> JsonV {
        json_view(*self)
    }
}

pub open spec fn same_member(a: (String, Json), b: (String, Json)) -> bool {
    a.0@ == b.0@ && json_view(a.1) == json_view(b.1)
}

/// The value of the first member named `key`.
pub open spec fn lookup(members: Seq<(Seq<char>, JsonV)>, key: Seq<char>) -> Option<JsonV>
    decreases members.len(),
{
    if members.len() == 0 {
        None
    } else if members[0].0 == key {
        Some(members[0].1)
    } else {
        lookup(members.drop_first(), key)
    }
}

impl JsonV {
    /// The member `key` of an object; `None` for any other value.
    pub open spec fn field(self, key: Seq<char>) -> Option<JsonV> {
        match self {
            JsonV::Object(members) => lookup(members, key),
            _ => None,
        }
    }
}

pub open spec fn view_opt(o: Option<&Json>) -> Option<JsonV> {
    match o {
        Some(v) => Some(v@),
        None => None,
    }
}

/// The text of a string value.
pub open spec fn text_of(j: Option<JsonV>) -> Option<Seq<char>> {
    match j {
        Some(JsonV::Str(s)) => Some(s),
        _ => None,
    }
}

/// The items of an array value.
pub open spec fn items_of(j: Option<JsonV>) -> Option<Seq<JsonV>> {
    match j {
        Some(JsonV::Array(a)) => Some(a),
        _ => None,
    }
}

/// The value of a non-negative integer that fits in 64 bits.
pub open spec fn u64_of(j: Option<JsonV>) -> Option<u64> {
    match j {
        Some(JsonV::Num(NumV::PosInt(n))) => Some(n),
        _ => None,
    }
}

pub open spec fn bool_of(j: Option<JsonV>) -> Option<bool> {
    match j {
        Some(JsonV::Bool(b)) => Some(b),
        _ => None,
    }
}

pub open spec fn str_opt(o: Option<&str>) -> Option<Seq<char>> {
    match o {
        Some(s) => Some(s@),
        None => None,
    }
}

impl Json {
    #[verifier::loop_isolation(false)]
    pub fn get(&self, key: &str) -> (r: Option<&Json>)
        ensures
            view_opt(r) == self@.field(key@),
    {
        match self {
            Json::Object(members) => {
                let ghost mv = self@->Object_0;
                assert(mv.subrange(0, mv.len() as int) =~= mv);
                let mut i: usize = 0;
                while i < members.len()
                    invariant
                        i <= members@.len(),
                        mv.len() == members@.len(),
                        forall|k: int| 0 <= k < mv.len() ==> #[trigger] mv[k] == (members@[k].0@, json_view(members@[k].1)),
                        lookup(mv, key@) == lookup(mv.subrange(i as int, mv.len() as int), key@),
                    decreases members@.len() - i,
                {
                    assert(mv.subrange(i as int, mv.len() as int).drop_first()
                        =~= mv.subrange(i as int + 1, mv.len() as int));
                    assert(mv[i as int] == (members@[i as int].0@, json_view(members@[i as int].1)));
                    assert(mv.subrange(i as int, mv.len() as int)[0] == mv[i as int]);
                    if str_eq(members[i].0.as_str(), key) {
                        assert(lookup(mv.subrange(i as int, mv.len() as int), key@) == Some(mv[i as int].1));
                        assert(self@.field(key@) == lookup(mv, key@));
                        assert(members[i as int].1@ == mv[i as int].1);
                        return Some(&members[i].1);
                    }
                    i = i + 1;
                }
                None
            },
            _ => None,
        }
    }

    pub fn as_str(&self) -> (r: Option<&str>)
        ensures
            str_opt(r) == text_of(Some(self@)),
    {
        match self {
            Json::Str(s) => Some(s.as_str()),
            _ => None,
        }
    }

    pub fn as_array(&self) -> (r: Option<&Vec<Json>>)
        ensures
            match r {
                Some(a) => items_of(Some(self@)) == Some(a@.map_values(|x: Json| x@)),
                None => items_of(Some(self@)) is None,
            },
    {
        match self {
            Json::Array(a) => {
                assert(self@->Array_0 =~= a@.map_values(|x: Json| x@));
                Some(a)
            },
            _ => None,
        }
    }

    pub fn as_u64(&self) -> (r: Option<u64>)
        ensures
            r == u64_of(Some(self@)),
    {
        match self {
            Json::Num(Number::PosInt(n)) => Some(*n),
            _ => None,
        }
    }

    pub fn as_bool(&self) -> (r: Option<bool>)
        ensures
            r == bool_of(Some(self@)),
    {
        match self {
            Json::Bool(b) => Some(*b),
            _ => None,
        }
    }

    /// A copy of the whole value.
    #[verifier::loop_isolation(false)]
    pub fn deep_clone(&self) -> (r: Json)
        ensures
            r@ == self@,
        decreases self,
    {
        match self {
            Json::Null => Json::Null,
            Json::Bool(b) => Json::Bool(*b),
            Json::Num(Number::PosInt(n)) => Json::Num(Number::PosInt(*n)),
            Json::Num(Number::NegInt(n)) => Json::Num(Number::NegInt(*n)),
            Json::Num(Number::Float(t)) => Json::Num(Number::Float(copy_string(t.as_str()))),
            Json::Str(s) => Json::Str(copy_string(s.as_str())),
            Json::Raw(t) => Json::Raw(copy_string(t.as_str())),
            Json::Array(a) => {
                let mut out: Vec<Json> = Vec::new();
                let mut i: usize = 0;
                while i < a.len()
                    invariant
                        i <= a@.len(),
                        out@.len() == i,
                        forall|k: int| 0 <= k < i ==> #[trigger] json_view(out@[k]) == json_view(a@[k]),
                    decreases a@.len() - i,
                {
                    proof {
                        vstd::std_specs::vec::axiom_vec_index_decreases(*a, i as int);
                                                assert(decreases_to!(*self => *a));
                        assert(decreases_to!(*self => a[i as int]));
                    }
                    let c = a[i].deep_clone();
                    out.push(c);
                    i = i + 1;
                }
                let ghost oseq = out@;
                let r = Json::Array(out);
                assert(r@->Array_0 =~= self@->Array_0) by {
                    assert(r@ == json_view(Json::Array(out)));
                    assert forall|k: int| 0 <= k < oseq.len() implies r@->Array_0[k] == self@->Array_0[k] by {
                        assert(json_view(oseq[k]) == json_view(a@[k]));
                    }
                }
                r
            },
            Json::Object(m) => {
                let mut out: Vec<(String, Json)> = Vec::new();
                let mut i: usize = 0;
                while i < m.len()
                    invariant
                        i <= m@.len(),
                        out@.len() == i,
                        forall|j: int| 0 <= j < i ==> same_member(#[trigger] out@[j], m@[j]),
                    decreases m@.len() - i,
                {
                    proof {
                        vstd::std_specs::vec::axiom_vec_index_decreases(*m, i as int);
                        assert(decreases_to!(*self => *m));
                        assert(decreases_to!(*self => m[i as int].1));
                    }
                    let key = copy_string(m[i].0.as_str());
                    let value = m[i].1.deep_clone();
                    let ghost before = out@;
                    out.push((key, value));
                    assert forall|j: int| 0 <= j < i + 1 implies same_member(#[trigger] out@[j], m@[j]) by {
                        if j < i {
                            assert(out@[j] == before[j]);
                        }
                    }
                    i = i + 1;
                }
                let r = Json::Object(out);
                assert(r@->Object_0 =~= self@->Object_0);
                r
            },
        }
    }
}

/// The text of a string as a JSON string literal.
pub uninterp spec fn json_quoted(s: Seq<char>) -> Seq<char>;

/// Relies on serde_json::to_string applied to a `str`: the string written as a
/// JSON string literal, quoted and escaped. Writing into memory cannot fail.
#[verifier::external_body]
pub(crate) fn quote(s: &str) -> (r: String)
    ensures
        r@ == json_quoted(s@),
{
    serde_json::to_string(s).unwrap_or_default()
}

/// Whether a text is one JSON value.
pub uninterp spec fn is_json_text(s: Seq<char>) -> bool;

/// Relies on serde_json::from_str into a `serde_json::Value`: whether the text
/// reads as one JSON value.
#[verifier::external_body]
pub(crate) fn parses_as_json(s: &str) -> (r: bool)
    ensures
        r == is_json_text(s@),
{
    serde_json::from_str::<serde_json::Value>(s).is_ok()
}

/// The decimal digits of `n`.
pub open spec fn decimal(n: nat) -> Seq<char>
    decreases n,
{
    if n < 10 {
        seq![digit(n)]
    } else {
        decimal(n / 10).push(digit(n % 10))
    }
}

pub open spec fn digit(d: nat) -> char {
    if d == 0 { '0' } else if d == 1 { '1' } else if d == 2 { '2' } else if d == 3 { '3' }
    else if d == 4 { '4' } else if d == 5 { '5' } else if d == 6 { '6' } else if d == 7 { '7' }
    else if d == 8 { '8' } else { '9' }
}

/// Relies on the `Display` impl of `u64` (through `to_string`), which writes the
/// number in decimal.
#[verifier::external_body]
pub(crate) fn decimal_text(n: u64) -> (r: String)
    ensures
        r@ == decimal(n as nat),
{
    n.to_string()
}

/// Relies on the `Display` impl of `i64` (through `to_string`), which writes a
/// negative number as `-` and the decimal digits of its magnitude.
#[verifier::external_body]
fn negative_text(n: i64) -> (r: String)
    requires
        n < 0,
    ensures
        r@ == seq!['-'] + decimal((-n) as nat),
{
    n.to_string()
}

pub open spec fn number_text(n: NumV) -> Seq<char> {
    match n {
        NumV::PosInt(v) => decimal(v as nat),
        NumV::NegInt(v) => if v < 0 {
            seq!['-'] + decimal((-v) as nat)
        } else {
            decimal(v as nat)
        },
        NumV::Float(t) => t,
    }
}

/// The compact JSON text of a value: no whitespace, members in their order.
pub open spec fn json_text(v: JsonV) -> Seq<char>
    decreases v,
{
    match v {
        JsonV::Null => "null"@,
        JsonV::Bool(b) => if b {
            "true"@
        } else {
            "false"@
        },
        JsonV::Num(n) => number_text(n),
        JsonV::Str(s) => json_quoted(s),
        JsonV::Raw(t) => t,
        JsonV::Array(items) => seq!['['] + items_text(items) + seq![']'],
        JsonV::Object(members) => seq!['{'] + members_text(members) + seq!['}'],
    }
}

/// Array items, separated by commas.
pub open spec fn items_text(items: Seq<JsonV>) -> Seq<char>
    decreases items,
{
    if items.len() == 0 {
        Seq::empty()
    } else if items.len() == 1 {
        json_text(items[0])
    } else {
        items_text(items.drop_last()) + seq![','] + json_text(items.last())
    }
}

/// Object members as `"key":value`, separated by commas.
pub open spec fn members_text(members: Seq<(Seq<char>, JsonV)>) -> Seq<char>
    decreases members,
{
    if members.len() == 0 {
        Seq::empty()
    } else if members.len() == 1 {
        json_quoted(members[0].0) + seq![':'] + json_text(members[0].1)
    } else {
        members_text(members.drop_last()) + seq![','] + json_quoted(members.last().0) + seq![':']
            + json_text(members.last().1)
    }
}

/// The text of member `key` of `j`, where that member is a string.
pub fn field_str<'a>(j: &'a Json, key: &str) -> (r: Option<&'a str>)
    ensures
        str_opt(r) == text_of(j@.field(key@)),
{
    match j.get(key) {
        Some(v) => v.as_str(),
        None => None,
    }
}

fn cat(a: String, b: &str) -> (r: String)
    ensures
        r@ == a@ + b@,
{
    a.concat(b)
}

impl Json {
    /// The compact JSON text of the value.
    #[verifier::loop_isolation(false)]
    pub fn to_text(&self) -> (r: String)
        ensures
            r@ == json_text(self@),
        decreases self,
    {
        proof {
            reveal_strlit("[");
            reveal_strlit("]");
            reveal_strlit("{");
            reveal_strlit("}");
            reveal_strlit(",");
            reveal_strlit(":");
        }
        match self {
            Json::Null => copy_string("null"),
            Json::Bool(b) => if *b {
                copy_string("true")
            } else {
                copy_string("false")
            },
            Json::Num(Number::PosInt(n)) => decimal_text(*n),
            Json::Num(Number::NegInt(n)) => if *n < 0 {
                negative_text(*n)
            } else {
                decimal_text(*n as u64)
            },
            Json::Num(Number::Float(t)) => copy_string(t.as_str()),
            Json::Str(s) => quote(s.as_str()),
            Json::Raw(t) => copy_string(t.as_str()),
            Json::Array(a) => {
                let ghost av = self@->Array_0;
                let mut out = copy_string("[");
                let mut i: usize = 0;
                assert(av.take(0) =~= Seq::<JsonV>::empty());
                while i < a.len()
                    invariant
                        i <= a@.len(),
                        av.len() == a@.len(),
                        out@ == seq!['['] + items_text(av.take(i as int)),
                    decreases a@.len() - i,
                {
                    proof {
                        vstd::std_specs::vec::axiom_vec_index_decreases(*a, i as int);
                        assert(decreases_to!(*self => *a));
                    }
                    let item = a[i].to_text();
                    assert(av[i as int] == a@[i as int]@);
                    assert(av.take(i as int + 1).drop_last() =~= av.take(i as int));
                    assert(av.take(i as int + 1).last() == av[i as int]);
                    if i > 0 {
                        out = cat(out, ",");
                        out = cat(out, item.as_str());
                        assert(out@ =~= seq!['['] + items_text(av.take(i as int + 1)));
                    } else {
                        out = cat(out, item.as_str());
                        assert(av.take(1)[0] == av[0]);
                        assert(out@ =~= seq!['['] + items_text(av.take(i as int + 1)));
                    }
                    i = i + 1;
                }
                assert(av.take(a@.len() as int) =~= av);
                cat(out, "]")
            },
            Json::Object(m) => {
                let ghost mv = self@->Object_0;
                let mut out = copy_string("{");
                let mut i: usize = 0;
                assert(mv.take(0) =~= Seq::<(Seq<char>, JsonV)>::empty());
                while i < m.len()
                    invariant
                        i <= m@.len(),
                        mv.len() == m@.len(),
                        out@ == seq!['{'] + members_text(mv.take(i as int)),
                    decreases m@.len() - i,
                {
                    proof {
                        vstd::std_specs::vec::axiom_vec_index_decreases(*m, i as int);
                        assert(decreases_to!(*self => *m));
                        assert(decreases_to!(*self => m[i as int].1));
                    }
                    let key = quote(m[i].0.as_str());
                    let value = m[i].1.to_text();
                    assert(mv[i as int] == (m@[i as int].0@, m@[i as int].1@));
                    assert(mv.take(i as int + 1).drop_last() =~= mv.take(i as int));
                    assert(mv.take(i as int + 1).last() == mv[i as int]);
                    if i > 0 {
                        out = cat(out, ",");
                    }
                    out = cat(out, key.as_str());
                    out = cat(out, ":");
                    out = cat(out, value.as_str());
                    if i == 0 {
                        assert(mv.take(1)[0] == mv[0]);
                    }
                    assert(out@ =~= seq!['{'] + members_text(mv.take(i as int + 1)));
                    i = i + 1;
                }
                assert(mv.take(m@.len() as int) =~= mv);
                cat(out, "}")
            },
        }
    }
}

/// A new `String` holding the characters of `s`.
pub fn copy_string(s: &str) -> (r: String)
    ensures
        r@ == s@,
{
    s.to_owned()
}

/// Whether two strings hold the same characters.
pub fn str_eq(a: &str, b: &str) -> (r: bool)
    ensures
        r == (a@ == b@),
{
    let n = a.unicode_len();
    if n != b.unicode_len() {
        return false;
    }
    let mut i: usize = 0;
    while i < n
        invariant
            n == a@.len(),
            n == b@.len(),
            i <= n,
            forall|k: int| 0 <= k < i ==> a@[k] == b@[k],
        decreases n - i,
    {
        if a.get_char(i) != b.get_char(i) {
            return false;
        }
        i = i + 1;
    }
    assert(a@ =~= b@);
    true
}

} // verus!

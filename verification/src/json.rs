//! JSON documents.
use vstd::prelude::*;

use serde_json::Value;

verus! {

/// A JSON value as the library reads it.
pub enum Json {
    Null,
    Bool(bool),
    Number(String),
    Str(String),
    Array(Vec<Json>),
    Object(Vec<(String, Json)>),
}

/// The mathematical JSON value.
pub enum JsonView {
    Null,
    Bool(bool),
    Number(Seq<char>),
    Str(Seq<char>),
    Array(Seq<JsonView>),
    Object(Seq<(Seq<char>, JsonView)>),
}

pub open spec fn json_view(j: Json) -> JsonView
    decreases j,
{
    match j {
        Json::Null => JsonView::Null,
        Json::Bool(b) => JsonView::Bool(b),
        Json::Number(n) => JsonView::Number(n@),
        Json::Str(s) => JsonView::Str(s@),
        Json::Array(v) => JsonView::Array(json_views(v@)),
        Json::Object(v) => JsonView::Object(member_views(v@)),
    }
}

pub open spec fn json_views(s: Seq<Json>) -> Seq<JsonView>
    decreases s,
{
    if s.len() == 0 {
        Seq::empty()
    } else {
        json_views(s.drop_last()).push(json_view(s.last()))
    }
}

pub open spec fn member_views(s: Seq<(String, Json)>) -> Seq<(Seq<char>, JsonView)>
    decreases s,
{
    if s.len() == 0 {
        Seq::empty()
    } else {
        member_views(s.drop_last()).push((s.last().0@, json_view(s.last().1)))
    }
}

/// One token of a JSON document read in preorder: a scalar, or the start
/// of an array or object with its number of entries (each object member
/// is its key, as a string token, then its value).
pub enum JsonToken {
    Null,
    Bool(bool),
    Number(String),
    Str(String),
    Array(usize),
    Object(usize),
}

/// The mathematical token.
pub enum TokenView {
    Null,
    Bool(bool),
    Number(Seq<char>),
    Str(Seq<char>),
    Array(nat),
    Object(nat),
}

pub open spec fn token_view(t: JsonToken) -> TokenView {
    match t {
        JsonToken::Null => TokenView::Null,
        JsonToken::Bool(b) => TokenView::Bool(b),
        JsonToken::Number(n) => TokenView::Number(n@),
        JsonToken::Str(s) => TokenView::Str(s@),
        JsonToken::Array(n) => TokenView::Array(n as nat),
        JsonToken::Object(n) => TokenView::Object(n as nat),
    }
}

pub open spec fn token_views(ts: Seq<JsonToken>) -> Seq<TokenView> {
    ts.map_values(|t: JsonToken| token_view(t))
}

/// One value read from the front of the tokens (within `fuel` nested
/// steps): the value and the tokens after it.
pub open spec fn read_value(ts: Seq<TokenView>, fuel: nat) -> Option<(JsonView, Seq<TokenView>)>
    decreases fuel, 0nat,
{
    if fuel == 0 || ts.len() == 0 {
        None
    } else {
        let rest = ts.drop_first();
        match ts[0] {
            TokenView::Null => Some((JsonView::Null, rest)),
            TokenView::Bool(b) => Some((JsonView::Bool(b), rest)),
            TokenView::Number(n) => Some((JsonView::Number(n), rest)),
            TokenView::Str(x) => Some((JsonView::Str(x), rest)),
            TokenView::Array(n) => match read_elements(rest, n, (fuel - 1) as nat) {
                Some((items, r)) => Some((JsonView::Array(items), r)),
                None => None,
            },
            TokenView::Object(n) => match read_members(rest, n, (fuel - 1) as nat) {
                Some((items, r)) => Some((JsonView::Object(items), r)),
                None => None,
            },
        }
    }
}

/// `n` array elements read from the front of the tokens.
pub open spec fn read_elements(ts: Seq<TokenView>, n: nat, fuel: nat) -> Option<(Seq<JsonView>, Seq<TokenView>)>
    decreases fuel, 1nat,
{
    if n == 0 {
        Some((Seq::empty(), ts))
    } else if fuel == 0 {
        None
    } else {
        match read_value(ts, (fuel - 1) as nat) {
            None => None,
            Some((v, r)) => match read_elements(r, (n - 1) as nat, (fuel - 1) as nat) {
                None => None,
                Some((vs, r2)) => Some((seq![v] + vs, r2)),
            },
        }
    }
}

/// `n` object members (a string token for the key, then the value) read from the front
/// of the tokens.
pub open spec fn read_members(ts: Seq<TokenView>, n: nat, fuel: nat) -> Option<(Seq<(Seq<char>, JsonView)>, Seq<TokenView>)>
    decreases fuel, 1nat,
{
    if n == 0 {
        Some((Seq::empty(), ts))
    } else if fuel == 0 || ts.len() == 0 {
        None
    } else {
        match ts[0] {
            TokenView::Str(k) => match read_value(ts.drop_first(), (fuel - 1) as nat) {
                None => None,
                Some((v, r)) => match read_members(r, (n - 1) as nat, (fuel - 1) as nat) {
                    None => None,
                    Some((ms, r2)) => Some((seq![(k, v)] + ms, r2)),
                },
            },
            _ => None,
        }
    }
}

/// The document the tokens spell: one value that uses them all.
pub open spec fn document_of(ts: Seq<TokenView>) -> Option<JsonView> {
    match read_value(ts, 2 * ts.len() + 2) {
        Some((v, r)) => if r.len() == 0 {
            Some(v)
        } else {
            None
        },
        None => None,
    }
}

proof fn lemma_json_views_concat(a: Seq<Json>, b: Seq<Json>)
    ensures
        json_views(a + b) == json_views(a) + json_views(b),
    decreases b.len(),
{
    if b.len() == 0 {
        assert(a + b =~= a);
        assert(json_views(a) + json_views(b) =~= json_views(a));
    } else {
        lemma_json_views_concat(a, b.drop_last());
        assert((a + b).drop_last() =~= a + b.drop_last());
        assert(json_views(a + b) =~= json_views(a) + json_views(b));
    }
}

proof fn lemma_member_views_concat(a: Seq<(String, Json)>, b: Seq<(String, Json)>)
    ensures
        member_views(a + b) == member_views(a) + member_views(b),
    decreases b.len(),
{
    if b.len() == 0 {
        assert(a + b =~= a);
        assert(member_views(a) + member_views(b) =~= member_views(a));
    } else {
        lemma_member_views_concat(a, b.drop_last());
        assert((a + b).drop_last() =~= a + b.drop_last());
        assert(member_views(a + b) =~= member_views(a) + member_views(b));
    }
}

fn read_value_exec(tokens: &[JsonToken], pos: usize, fuel: u128) -> (r: Option<(Json, usize)>)
    requires
        pos <= tokens@.len(),
    ensures
        ({
            let tv = token_views(tokens@);
            match read_value(tv.subrange(pos as int, tv.len() as int), fuel as nat) {
                None => r is None,
                Some((v, rest)) => r matches Some((j, p)) && pos <= p <= tokens@.len() && json_view(j) == v
                    && rest == tv.subrange(p as int, tv.len() as int),
            }
        }),
    decreases fuel, 0nat,
{
    let ghost tv = token_views(tokens@);
    let ghost ts = tv.subrange(pos as int, tv.len() as int);
    if fuel == 0 || pos == tokens.len() {
        return None;
    }
    proof {
        assert(ts[0] == token_view(tokens@[pos as int]));
        assert(ts.drop_first() =~= tv.subrange(pos + 1, tv.len() as int));
    }
    match &tokens[pos] {
        JsonToken::Null => Some((Json::Null, pos + 1)),
        JsonToken::Bool(b) => Some((Json::Bool(*b), pos + 1)),
        JsonToken::Number(n) => Some((Json::Number(n.clone()), pos + 1)),
        JsonToken::Str(x) => Some((Json::Str(x.clone()), pos + 1)),
        JsonToken::Array(n) => match read_elements_exec(tokens, pos + 1, *n, fuel - 1) {
            Some((items, p)) => Some((Json::Array(items), p)),
            None => None,
        },
        JsonToken::Object(n) => match read_members_exec(tokens, pos + 1, *n, fuel - 1) {
            Some((items, p)) => Some((Json::Object(items), p)),
            None => None,
        },
    }
}

fn read_elements_exec(tokens: &[JsonToken], pos: usize, n: usize, fuel: u128) -> (r: Option<(Vec<Json>, usize)>)
    requires
        pos <= tokens@.len(),
    ensures
        ({
            let tv = token_views(tokens@);
            match read_elements(tv.subrange(pos as int, tv.len() as int), n as nat, fuel as nat) {
                None => r is None,
                Some((vs, rest)) => r matches Some((items, p)) && pos <= p <= tokens@.len() && json_views(items@)
                    == vs && rest == tv.subrange(p as int, tv.len() as int),
            }
        }),
    decreases fuel, 1nat,
{
    let ghost tv = token_views(tokens@);
    if n == 0 {
        proof {
            assert(json_views(Seq::<Json>::empty()) =~= Seq::<JsonView>::empty());
        }
        return Some((Vec::new(), pos));
    }
    if fuel == 0 {
        return None;
    }
    match read_value_exec(tokens, pos, fuel - 1) {
        None => None,
        Some((j, p)) => match read_elements_exec(tokens, p, n - 1, fuel - 1) {
            None => None,
            Some((mut rest, p2)) => {
                let ghost rv = rest@;
                let mut out: Vec<Json> = Vec::new();
                out.push(j);
                out.append(&mut rest);
                proof {
                    lemma_json_views_concat(seq![j], rv);
                    assert(out@ =~= seq![j] + rv);
                    assert(json_views(seq![j]) =~= seq![json_view(j)]) by {
                        assert(seq![j].drop_last() =~= Seq::<Json>::empty());
                        assert(json_views(Seq::<Json>::empty()) =~= Seq::<JsonView>::empty());
                        assert(seq![j].last() == j);
                    }
                }
                Some((out, p2))
            },
        },
    }
}

fn read_members_exec(tokens: &[JsonToken], pos: usize, n: usize, fuel: u128) -> (r: Option<(Vec<(String, Json)>, usize)>)
    requires
        pos <= tokens@.len(),
    ensures
        ({
            let tv = token_views(tokens@);
            match read_members(tv.subrange(pos as int, tv.len() as int), n as nat, fuel as nat) {
                None => r is None,
                Some((ms, rest)) => r matches Some((items, p)) && pos <= p <= tokens@.len() && member_views(items@)
                    == ms && rest == tv.subrange(p as int, tv.len() as int),
            }
        }),
    decreases fuel, 1nat,
{
    let ghost tv = token_views(tokens@);
    let ghost ts = tv.subrange(pos as int, tv.len() as int);
    if n == 0 {
        proof {
            assert(member_views(Seq::<(String, Json)>::empty()) =~= Seq::<(Seq<char>, JsonView)>::empty());
        }
        return Some((Vec::new(), pos));
    }
    if fuel == 0 || pos == tokens.len() {
        return None;
    }
    proof {
        assert(ts[0] == token_view(tokens@[pos as int]));
        assert(ts.drop_first() =~= tv.subrange(pos + 1, tv.len() as int));
    }
    let key = match &tokens[pos] {
        JsonToken::Str(k) => k.clone(),
        _ => return None,
    };
    match read_value_exec(tokens, pos + 1, fuel - 1) {
        None => None,
        Some((j, p)) => match read_members_exec(tokens, p, n - 1, fuel - 1) {
            None => None,
            Some((mut rest, p2)) => {
                let ghost rv = rest@;
                let ghost kv = key@;
                let mut out: Vec<(String, Json)> = Vec::new();
                out.push((key, j));
                out.append(&mut rest);
                proof {
                    let first = seq![out@[0]];
                    lemma_member_views_concat(first, rv);
                    assert(out@ =~= first + rv);
                    assert(member_views(first) =~= seq![(kv, json_view(j))]) by {
                        assert(first.drop_last() =~= Seq::<(String, Json)>::empty());
                        assert(member_views(Seq::<(String, Json)>::empty()) =~= Seq::<(Seq<char>, JsonView)>::empty());
                        assert(first.last() == out@[0]);
                        assert(out@[0].0@ == kv);
                    }
                }
                Some((out, p2))
            },
        },
    }
}

/// The document a token sequence spells, when it spells exactly one.
pub fn document_from_tokens(tokens: &[JsonToken]) -> (r: Option<Json>)
    ensures
        match document_of(token_views(tokens@)) {
            None => r is None,
            Some(v) => r matches Some(j) && json_view(j) == v,
        },
{
    let ghost tv = token_views(tokens@);
    let fuel: u128 = 2 * (tokens.len() as u128) + 2;
    proof {
        assert(tv.subrange(0, tv.len() as int) =~= tv);
    }
    match read_value_exec(tokens, 0, fuel) {
        Some((j, p)) => {
            if p == tokens.len() {
                Some(j)
            } else {
                None
            }
        },
        None => None,
    }
}

/// The views of array elements, element by element.
pub proof fn lemma_json_views_index(s: Seq<Json>)
    ensures
        json_views(s).len() == s.len(),
        forall|i: int| 0 <= i < s.len() ==> #[trigger] json_views(s)[i] == json_view(s[i]),
    decreases s.len(),
{
    if s.len() > 0 {
        lemma_json_views_index(s.drop_last());
        assert forall|i: int| 0 <= i < s.len() implies #[trigger] json_views(s)[i] == json_view(s[i]) by {
            if i < s.len() - 1 {
                assert(s.drop_last()[i] == s[i]);
            }
        }
    }
}

/// The views of object members, member by member.
pub proof fn lemma_member_views_index(s: Seq<(String, Json)>)
    ensures
        member_views(s).len() == s.len(),
        forall|i: int| 0 <= i < s.len() ==> #[trigger] member_views(s)[i] == (s[i].0@, json_view(s[i].1)),
    decreases s.len(),
{
    if s.len() > 0 {
        lemma_member_views_index(s.drop_last());
        assert forall|i: int| 0 <= i < s.len() implies #[trigger] member_views(s)[i] == (s[i].0@, json_view(s[i].1)) by {
            if i < s.len() - 1 {
                assert(s.drop_last()[i] == s[i]);
            }
        }
    }
}

/// The first member with the key.
pub open spec fn member_of(ms: Seq<(Seq<char>, JsonView)>, key: Seq<char>) -> Option<JsonView>
    decreases ms.len(),
{
    if ms.len() == 0 {
        None
    } else if ms[0].0 == key {
        Some(ms[0].1)
    } else {
        member_of(ms.drop_first(), key)
    }
}

/// `doc[key]`: the member of an object, `null` otherwise.
pub open spec fn get_key(doc: JsonView, key: Seq<char>) -> JsonView {
    match doc {
        JsonView::Object(ms) => match member_of(ms, key) {
            Some(v) => v,
            None => JsonView::Null,
        },
        _ => JsonView::Null,
    }
}

/// `doc[i]`: the element of an array, `null` otherwise.
pub open spec fn get_index(doc: JsonView, i: int) -> JsonView {
    match doc {
        JsonView::Array(vs) => if 0 <= i < vs.len() {
            vs[i]
        } else {
            JsonView::Null
        },
        _ => JsonView::Null,
    }
}

/// The text of a string value.
pub open spec fn as_text(doc: JsonView) -> Option<Seq<char>> {
    match doc {
        JsonView::Str(s) => Some(s),
        _ => None,
    }
}

/// `doc[key]`, or nothing for `null`.
pub fn json_get<'a>(doc: &'a Json, key: &str) -> (r: Option<&'a Json>)
    ensures
        match r {
            Some(x) => json_view(*x) == get_key(json_view(*doc), key@),
            None => get_key(json_view(*doc), key@) == JsonView::Null,
        },
{
    match doc {
        Json::Object(ms) => {
            let ghost mv = member_views(ms@);
            proof {
                lemma_member_views_index(ms@);
                assert(mv.subrange(0, mv.len() as int) =~= mv);
                assert(json_view(*doc) == JsonView::Object(mv));
            }
            let mut i: usize = 0;
            while i < ms.len()
                invariant
                    i <= ms@.len(),
                    mv == member_views(ms@),
                    json_view(*doc) == JsonView::Object(mv),
                    mv.len() == ms@.len(),
                    forall|t: int| 0 <= t < ms@.len() ==> #[trigger] mv[t] == (ms@[t].0@, json_view(ms@[t].1)),
                    member_of(mv, key@) == member_of(mv.subrange(i as int, mv.len() as int), key@),
                decreases ms.len() - i,
            {
                let ghost rest = mv.subrange(i as int, mv.len() as int);
                proof {
                    assert(rest[0] == mv[i as int]);
                    assert(rest.drop_first() =~= mv.subrange(i + 1, mv.len() as int));
                }
                if crate::text::str_eq(ms[i].0.as_str(), key) {
                    proof {
                        assert(rest[0].0 == key@);
                        assert(member_of(rest, key@) == Some(json_view(ms@[i as int].1)));
                    }
                    return Some(&ms[i].1);
                }
                i = i + 1;
            }
            proof {
                assert(mv.subrange(i as int, mv.len() as int).len() == 0);
            }
            None
        },
        _ => None,
    }
}

/// `doc[i]`, or nothing for `null`.
pub fn json_at(doc: &Json, i: usize) -> (r: Option<&Json>)
    ensures
        match r {
            Some(x) => json_view(*x) == get_index(json_view(*doc), i as int),
            None => get_index(json_view(*doc), i as int) == JsonView::Null,
        },
{
    match doc {
        Json::Array(vs) => {
            proof {
                lemma_json_views_index(vs@);
            }
            if i < vs.len() {
                Some(&vs[i])
            } else {
                None
            }
        },
        _ => None,
    }
}

/// The text of a string value.
pub fn json_text(doc: Option<&Json>) -> (r: Option<&str>)
    ensures
        match doc {
            Some(x) => match as_text(json_view(*x)) {
                Some(t) => r matches Some(s) && s@ == t,
                None => r is None,
            },
            None => r is None,
        },
{
    match doc {
        Some(Json::Str(s)) => Some(s.as_str()),
        _ => None,
    }
}

/// The tokens a JSON text reads to, or the message it is refused with.
pub uninterp spec fn json_tokens(bytes: Seq<u8>) -> Result<Seq<TokenView>, Seq<char>>;

/// The `serde_json` value type.
#[verifier::external_type_specification]
#[verifier::external_body]
pub struct ExJsonValue(Value);

/// The tokens of a `serde_json::Value` read out in preorder.
pub uninterp spec fn value_tokens(v: Value) -> Seq<TokenView>;

/// Calls `serde_json::from_slice` into a `serde_json::Value`; a refused
/// text gives the error's message. The contract names the tokens of the
/// value as a function of the bytes alone.
#[verifier::external_body]
fn parse_value(bytes: &[u8]) -> (r: Result<Value, String>)
    ensures
        match r {
            Ok(v) => json_tokens(bytes@) == Ok::<Seq<TokenView>, Seq<char>>(value_tokens(v)),
            Err(e) => json_tokens(bytes@) == Err::<Seq<TokenView>, Seq<char>>(e@),
        },
{
    serde_json::from_slice(bytes).map_err(|e| e.to_string())
}

/// Reads a `serde_json::Value` out in preorder: one token per scalar and
/// per array or object start (with its entry count), each object member as
/// its key (a string token) then its value, in the value's own order.
#[verifier::external_body]
fn tokens_of_value(v: Value) -> (r: Vec<JsonToken>)
    ensures
        token_views(r@) == value_tokens(v),
{
    let mut out = Vec::new();
    let mut stack = vec![v];
    while let Some(v) = stack.pop() {
        out.push(match v {
            Value::Null => JsonToken::Null,
            Value::Bool(b) => JsonToken::Bool(b),
            Value::Number(n) => JsonToken::Number(n.to_string()),
            Value::String(s) => JsonToken::Str(s),
            Value::Array(a) => { let n = a.len(); stack.extend(a.into_iter().rev()); JsonToken::Array(n) }
            Value::Object(m) => { let n = m.len(); stack.extend(m.into_iter().rev().flat_map(|(k, x)| [x, Value::String(k)])); JsonToken::Object(n) }
        });
    }
    out
}

/// The document a JSON text holds: the refusal's message, or the value
/// its tokens spell (nothing when they spell none).
pub open spec fn json_document(bytes: Seq<u8>) -> Result<Option<JsonView>, Seq<char>> {
    match json_tokens(bytes) {
        Err(e) => Err(e),
        Ok(ts) => Ok(document_of(ts)),
    }
}

/// Parse a JSON text.
///
/// # Errors
/// The parser's message for a text it refuses.
pub fn parse_json(bytes: &[u8]) -> (r: Result<Option<Json>, String>)
    ensures
        match json_document(bytes@) {
            Err(e) => r matches Err(m) && m@ == e,
            Ok(None) => r matches Ok(None),
            Ok(Some(v)) => r matches Ok(Some(j)) && json_view(j) == v,
        },
{
    match parse_value(bytes) {
        Err(e) => Err(e),
        Ok(v) => {
            let tokens = tokens_of_value(v);
            Ok(document_from_tokens(tokens.as_slice()))
        },
    }
}

} // verus!

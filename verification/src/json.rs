//! The JSON subset that registry index documents use: objects, arrays,
//! strings and `null`.
//!
//! The grammar is stated as spec functions over the characters of the
//! document: each takes a position and yields what it read there with the
//! position after it, or the error message the reader reports. A backslash in
//! a string keeps the character after it as it is. Where a production repeats,
//! the definition tests that the value before consumed input; the reader's
//! proofs show that every value does, so that test never fails.

use vstd::prelude::*;
use crate::text::{chars_of, is_ascii_space, push_char};

verus! {

/// A JSON value as the specifications see it.
pub enum JsonModel {
    Object(Seq<(Seq<char>, JsonModel)>),
    Array(Seq<JsonModel>),
    Str(Seq<char>),
    Null,
}

/// A JSON value.
pub enum Json {
    Object(Vec<(String, Json)>),
    Array(Vec<Json>),
    Str(String),
    Null,
}

pub open spec fn json_model(j: Json) -> JsonModel
    decreases j,
{
    match j {
        Json::Object(m) => JsonModel::Object(members_model(m@)),
        Json::Array(v) => JsonModel::Array(items_model(v@)),
        Json::Str(s) => JsonModel::Str(s@),
        Json::Null => JsonModel::Null,
    }
}

pub open spec fn members_model(s: Seq<(String, Json)>) -> Seq<(Seq<char>, JsonModel)>
    decreases s,
{
    if s.len() == 0 {
        seq![]
    } else {
        proof {
            assert(decreases_to!(s => s.last()));
        }
        members_model(s.drop_last()).push((s.last().0@, json_model(s.last().1)))
    }
}

pub open spec fn items_model(s: Seq<Json>) -> Seq<JsonModel>
    decreases s,
{
    if s.len() == 0 {
        seq![]
    } else {
        items_model(s.drop_last()).push(json_model(s.last()))
    }
}

impl View for Json {
    type V = JsonModel;

    open spec fn view(&self) -> JsonModel {
        json_model(*self)
    }
}

pub proof fn lemma_members_model(s: Seq<(String, Json)>)
    ensures
        members_model(s).len() == s.len(),
        forall|k: int| 0 <= k < s.len() ==> #[trigger] members_model(s)[k] == (s[k].0@, json_model(s[k].1)),
    decreases s.len(),
{
    if s.len() > 0 {
        lemma_members_model(s.drop_last());
    }
}

pub proof fn lemma_items_model(s: Seq<Json>)
    ensures
        items_model(s).len() == s.len(),
        forall|k: int| 0 <= k < s.len() ==> #[trigger] items_model(s)[k] == json_model(s[k]),
    decreases s.len(),
{
    if s.len() > 0 {
        lemma_items_model(s.drop_last());
    }
}

/// What a production read and the position after it, or an error message.
pub type Read<T> = Result<(T, int), Seq<char>>;

/// The first position at or after `p` that holds no ASCII whitespace.
pub open spec fn skip_ws(cs: Seq<char>, p: int) -> int
    decreases cs.len() - p,
{
    if 0 <= p < cs.len() && is_ascii_space(cs[p]) {
        skip_ws(cs, p + 1)
    } else {
        p
    }
}

pub proof fn lemma_skip_ws(cs: Seq<char>, p: int)
    requires
        0 <= p <= cs.len(),
    ensures
        p <= skip_ws(cs, p) <= cs.len(),
        skip_ws(cs, p) < cs.len() ==> !is_ascii_space(cs[skip_ws(cs, p)]),
    decreases cs.len() - p,
{
    if p < cs.len() && is_ascii_space(cs[p]) {
        lemma_skip_ws(cs, p + 1);
    }
}

/// The rest of a string after its opening quote, `acc` holding what was read so far.
pub open spec fn string_body(cs: Seq<char>, p: int, acc: Seq<char>) -> Read<Seq<char>>
    decreases cs.len() - p,
{
    if !(0 <= p < cs.len()) {
        Err("unterminated string"@)
    } else if cs[p] == '"' {
        Ok((acc, p + 1))
    } else if cs[p] == '\\' {
        if p + 1 < cs.len() {
            string_body(cs, p + 2, acc.push(cs[p + 1]))
        } else {
            Err("unfinished escape"@)
        }
    } else {
        string_body(cs, p + 1, acc.push(cs[p]))
    }
}

/// A string at `p`.
pub open spec fn string_at(cs: Seq<char>, p: int) -> Read<Seq<char>> {
    if 0 <= p < cs.len() && cs[p] == '"' {
        string_body(cs, p + 1, seq![])
    } else {
        Err("expected string"@)
    }
}

pub proof fn lemma_string_body(cs: Seq<char>, p: int, acc: Seq<char>)
    requires
        0 <= p,
    ensures
        string_body(cs, p, acc) matches Ok((s, q)) ==> p < q <= cs.len(),
    decreases cs.len() - p,
{
    if 0 <= p < cs.len() && cs[p] != '"' {
        if cs[p] == '\\' {
            if p + 1 < cs.len() {
                lemma_string_body(cs, p + 2, acc.push(cs[p + 1]));
            }
        } else {
            lemma_string_body(cs, p + 1, acc.push(cs[p]));
        }
    }
}

pub proof fn lemma_string_at(cs: Seq<char>, p: int)
    requires
        0 <= p,
    ensures
        string_at(cs, p) matches Ok((s, q)) ==> p < q <= cs.len(),
{
    if 0 <= p < cs.len() && cs[p] == '"' {
        lemma_string_body(cs, p + 1, seq![]);
    }
}

/// A value at `p`, after optional whitespace.
pub open spec fn value_at(cs: Seq<char>, p: int) -> Read<JsonModel>
    decreases cs.len() - p, 0int,
{
    if !(0 <= p <= cs.len()) {
        Err(seq![])
    } else {
        proof {
            lemma_skip_ws(cs, p);
        }
        let q = skip_ws(cs, p);
        if q == cs.len() {
            Err("expected JSON value"@)
        } else if cs[q] == '{' {
            object_at(cs, q + 1)
        } else if cs[q] == '[' {
            array_at(cs, q + 1)
        } else if cs[q] == '"' {
            match string_at(cs, q) {
                Ok((s, r)) => Ok((JsonModel::Str(s), r)),
                Err(e) => Err(e),
            }
        } else if cs[q] == 'n' {
            if q + 4 <= cs.len() && cs.subrange(q, q + 4) == "null"@ {
                Ok((JsonModel::Null, q + 4))
            } else {
                Err("invalid null"@)
            }
        } else {
            Err("expected JSON value"@)
        }
    }
}

/// An object after its `{`.
pub open spec fn object_at(cs: Seq<char>, p: int) -> Read<JsonModel>
    decreases cs.len() - p, 2int,
{
    if !(0 <= p <= cs.len()) {
        Err(seq![])
    } else {
        let q = skip_ws(cs, p);
        if q < cs.len() && cs[q] == '}' {
            Ok((JsonModel::Object(seq![]), q + 1))
        } else {
            members_at(cs, p, seq![])
        }
    }
}

/// The members of an object from `p` on, `acc` holding those read so far.
pub open spec fn members_at(cs: Seq<char>, p: int, acc: Seq<(Seq<char>, JsonModel)>) -> Read<JsonModel>
    decreases cs.len() - p, 1int,
{
    if !(0 <= p <= cs.len()) {
        Err(seq![])
    } else {
        proof {
            lemma_skip_ws(cs, p);
        }
        let q = skip_ws(cs, p);
        match string_at(cs, q) {
            Err(e) => Err(e),
            Ok((k, r)) => {
                proof {
                    lemma_string_at(cs, q);
                    lemma_skip_ws(cs, r);
                }
                let c = skip_ws(cs, r);
                if c == cs.len() || cs[c] != ':' {
                    Err("expected object colon"@)
                } else {
                    match value_at(cs, c + 1) {
                        Err(e) => Err(e),
                        Ok((v, s)) => if !(p < s <= cs.len()) {
                            Err(seq![])
                        } else {
                            proof {
                                lemma_skip_ws(cs, s);
                            }
                            let t = skip_ws(cs, s);
                            if t < cs.len() && cs[t] == '}' {
                                Ok((JsonModel::Object(acc.push((k, v))), t + 1))
                            } else if t < cs.len() && cs[t] == ',' {
                                members_at(cs, t + 1, acc.push((k, v)))
                            } else {
                                Err("expected object separator"@)
                            }
                        },
                    }
                }
            },
        }
    }
}

/// An array after its `[`.
pub open spec fn array_at(cs: Seq<char>, p: int) -> Read<JsonModel>
    decreases cs.len() - p, 2int,
{
    if !(0 <= p <= cs.len()) {
        Err(seq![])
    } else {
        let q = skip_ws(cs, p);
        if q < cs.len() && cs[q] == ']' {
            Ok((JsonModel::Array(seq![]), q + 1))
        } else {
            elements_at(cs, p, seq![])
        }
    }
}

/// The elements of an array from `p` on, `acc` holding those read so far.
pub open spec fn elements_at(cs: Seq<char>, p: int, acc: Seq<JsonModel>) -> Read<JsonModel>
    decreases cs.len() - p, 1int,
{
    if !(0 <= p <= cs.len()) {
        Err(seq![])
    } else {
        match value_at(cs, p) {
            Err(e) => Err(e),
            Ok((v, s)) => if !(p < s <= cs.len()) {
                Err(seq![])
            } else {
                proof {
                    lemma_skip_ws(cs, s);
                }
                let t = skip_ws(cs, s);
                if t < cs.len() && cs[t] == ']' {
                    Ok((JsonModel::Array(acc.push(v)), t + 1))
                } else if t < cs.len() && cs[t] == ',' {
                    elements_at(cs, t + 1, acc.push(v))
                } else {
                    Err("expected array separator"@)
                }
            },
        }
    }
}

/// The value a whole document denotes: one value, with only whitespace after it.
pub open spec fn json_of(cs: Seq<char>) -> Result<JsonModel, Seq<char>> {
    match value_at(cs, 0) {
        Err(e) => Err(e),
        Ok((v, p)) => if skip_ws(cs, p) < cs.len() {
            Err("trailing JSON data"@)
        } else {
            Ok(v)
        },
    }
}

/// Where an element list reads successfully, it ends after its start and
/// within the document.
pub proof fn lemma_elements_progress(cs: Seq<char>, p: int, acc: Seq<JsonModel>)
    ensures
        elements_at(cs, p, acc) matches Ok((_, r)) ==> p < r <= cs.len(),
    decreases cs.len() - p,
{
    if 0 <= p <= cs.len() {
        if let Ok((v, s)) = value_at(cs, p) {
            if p < s <= cs.len() {
                lemma_skip_ws(cs, s);
                let t = skip_ws(cs, s);
                if t < cs.len() && cs[t] == ',' {
                    lemma_elements_progress(cs, t + 1, acc.push(v));
                }
            }
        }
    }
}

/// Where a member list reads successfully, it ends after its start and
/// within the document.
pub proof fn lemma_members_progress(cs: Seq<char>, p: int, acc: Seq<(Seq<char>, JsonModel)>)
    ensures
        members_at(cs, p, acc) matches Ok((_, r)) ==> p < r <= cs.len(),
    decreases cs.len() - p,
{
    if 0 <= p <= cs.len() {
        lemma_skip_ws(cs, p);
        let q = skip_ws(cs, p);
        if let Ok((k, r)) = string_at(cs, q) {
            lemma_string_at(cs, q);
            lemma_skip_ws(cs, r);
            let c = skip_ws(cs, r);
            if c < cs.len() && cs[c] == ':' {
                if let Ok((v, s)) = value_at(cs, c + 1) {
                    if p < s <= cs.len() {
                        lemma_skip_ws(cs, s);
                        let t = skip_ws(cs, s);
                        if t < cs.len() && cs[t] == ',' {
                            lemma_members_progress(cs, t + 1, acc.push((k, v)));
                        }
                    }
                }
            }
        }
    }
}

/// A value that reads successfully ends after where reading started and
/// within the document.
pub proof fn lemma_value_progress(cs: Seq<char>, p: int)
    ensures
        value_at(cs, p) matches Ok((_, r)) ==> p < r <= cs.len(),
{
    if 0 <= p <= cs.len() {
        lemma_skip_ws(cs, p);
        let q = skip_ws(cs, p);
        if q < cs.len() {
            if cs[q] == '{' {
                lemma_skip_ws(cs, q + 1);
                lemma_members_progress(cs, q + 1, seq![]);
            } else if cs[q] == '[' {
                lemma_skip_ws(cs, q + 1);
                lemma_elements_progress(cs, q + 1, seq![]);
            } else if cs[q] == '"' {
                lemma_string_at(cs, q);
            }
        }
    }
}

/// Reading elements with some already in hand gives those followed by what
/// reading from the same place with none in hand gives; the errors are the same.
pub proof fn lemma_elements_accumulate(cs: Seq<char>, p: int, acc: Seq<JsonModel>)
    ensures
        elements_at(cs, p, seq![]) is Err ==> elements_at(cs, p, acc) == elements_at(cs, p, seq![]),
        elements_at(cs, p, seq![]) is Ok ==> elements_at(cs, p, seq![])->Ok_0.0 is Array,
        elements_at(cs, p, seq![]) matches Ok((JsonModel::Array(items), q))
            ==> elements_at(cs, p, acc) == Ok::<(JsonModel, int), Seq<char>>((JsonModel::Array(acc + items), q)),
    decreases cs.len() - p,
{
    if 0 <= p <= cs.len() {
        if let Ok((v, s)) = value_at(cs, p) {
            if p < s <= cs.len() {
                lemma_skip_ws(cs, s);
                let t = skip_ws(cs, s);
                if t < cs.len() && cs[t] == ']' {
                    assert(acc.push(v) =~= acc + seq![v]);
                } else if t < cs.len() && cs[t] == ',' {
                    lemma_elements_accumulate(cs, t + 1, acc.push(v));
                    lemma_elements_accumulate(cs, t + 1, seq![v]);
                    assert(seq![].push(v) =~= seq![v]);
                    if let Ok((JsonModel::Array(rest), q)) = elements_at(cs, t + 1, seq![]) {
                        assert(acc.push(v) + rest =~= acc + (seq![v] + rest));
                    }
                }
            }
        }
    }
}

/// Reading members with some already in hand gives those followed by what
/// reading from the same place with none in hand gives; the errors are the same.
pub proof fn lemma_members_accumulate(cs: Seq<char>, p: int, acc: Seq<(Seq<char>, JsonModel)>)
    ensures
        members_at(cs, p, seq![]) is Err ==> members_at(cs, p, acc) == members_at(cs, p, seq![]),
        members_at(cs, p, seq![]) is Ok ==> members_at(cs, p, seq![])->Ok_0.0 is Object,
        members_at(cs, p, seq![]) matches Ok((JsonModel::Object(ms), q))
            ==> members_at(cs, p, acc) == Ok::<(JsonModel, int), Seq<char>>((JsonModel::Object(acc + ms), q)),
    decreases cs.len() - p,
{
    if 0 <= p <= cs.len() {
        lemma_skip_ws(cs, p);
        let q = skip_ws(cs, p);
        if let Ok((k, r)) = string_at(cs, q) {
            lemma_string_at(cs, q);
            lemma_skip_ws(cs, r);
            let c = skip_ws(cs, r);
            if c < cs.len() && cs[c] == ':' {
                if let Ok((v, s)) = value_at(cs, c + 1) {
                    if p < s <= cs.len() {
                        lemma_skip_ws(cs, s);
                        let t = skip_ws(cs, s);
                        if t < cs.len() && cs[t] == '}' {
                            assert(acc.push((k, v)) =~= acc + seq![(k, v)]);
                        } else if t < cs.len() && cs[t] == ',' {
                            lemma_members_accumulate(cs, t + 1, acc.push((k, v)));
                            lemma_members_accumulate(cs, t + 1, seq![(k, v)]);
                            assert(seq![].push((k, v)) =~= seq![(k, v)]);
                            if let Ok((JsonModel::Object(rest), e)) = members_at(cs, t + 1, seq![]) {
                                assert(acc.push((k, v)) + rest =~= acc + (seq![(k, v)] + rest));
                            }
                        }
                    }
                }
            }
        }
    }
}

/// An array's last element: where the value read at `p` is followed, after
/// whitespace, by `]`, the elements from `p` are exactly that one value.
pub proof fn law_last_array_element(cs: Seq<char>, p: int, v: JsonModel, s: int)
    requires
        value_at(cs, p) == Ok::<(JsonModel, int), Seq<char>>((v, s)),
        skip_ws(cs, s) < cs.len(),
        cs[skip_ws(cs, s)] == ']',
    ensures
        elements_at(cs, p, seq![]) == Ok::<(JsonModel, int), Seq<char>>((JsonModel::Array(seq![v]), skip_ws(cs, s) + 1)),
{
    lemma_value_progress(cs, p);
    assert(seq![].push(v) =~= seq![v]);
}

/// Every element an array holds is kept, in order: where the value read at
/// `p` is followed, after whitespace, by a `,`, the elements from `p` are that
/// value followed by the elements read after the comma, and reading fails
/// there exactly as it fails after the comma.
pub proof fn law_array_element_then_rest(cs: Seq<char>, p: int, v: JsonModel, s: int)
    requires
        value_at(cs, p) == Ok::<(JsonModel, int), Seq<char>>((v, s)),
        skip_ws(cs, s) < cs.len(),
        cs[skip_ws(cs, s)] == ',',
    ensures
        elements_at(cs, skip_ws(cs, s) + 1, seq![]) is Err
            ==> elements_at(cs, p, seq![]) == elements_at(cs, skip_ws(cs, s) + 1, seq![]),
        elements_at(cs, skip_ws(cs, s) + 1, seq![]) matches Ok((JsonModel::Array(rest), q))
            ==> elements_at(cs, p, seq![]) == Ok::<(JsonModel, int), Seq<char>>((JsonModel::Array(seq![v] + rest), q)),
        elements_at(cs, p, seq![]) is Ok ==> (elements_at(cs, p, seq![])->Ok_0.0 matches JsonModel::Array(items)
            && items.len() > 0 && items[0] == v),
{
    lemma_value_progress(cs, p);
    let t = skip_ws(cs, s);
    assert(seq![].push(v) =~= seq![v]);
    lemma_elements_accumulate(cs, t + 1, seq![v]);
}

/// A two-element array `[a, b]` reads as exactly the two values, first `a`
/// then `b`, where `p` is just after its `[`.
pub proof fn law_two_element_array(cs: Seq<char>, p: int, a: JsonModel, s: int, b: JsonModel, u: int)
    requires
        skip_ws(cs, p) < cs.len(),
        cs[skip_ws(cs, p)] != ']',
        value_at(cs, p) == Ok::<(JsonModel, int), Seq<char>>((a, s)),
        skip_ws(cs, s) < cs.len(),
        cs[skip_ws(cs, s)] == ',',
        value_at(cs, skip_ws(cs, s) + 1) == Ok::<(JsonModel, int), Seq<char>>((b, u)),
        skip_ws(cs, u) < cs.len(),
        cs[skip_ws(cs, u)] == ']',
    ensures
        array_at(cs, p) == Ok::<(JsonModel, int), Seq<char>>((JsonModel::Array(seq![a, b]), skip_ws(cs, u) + 1)),
{
    law_array_element_then_rest(cs, p, a, s);
    law_last_array_element(cs, skip_ws(cs, s) + 1, b, u);
    assert(seq![a] + seq![b] =~= seq![a, b]);
}

/// Every member an object holds is kept, in order: where the key and value
/// read at `p` are followed, after whitespace, by a `,`, the members from `p`
/// are that pair followed by the members read after the comma.
pub proof fn law_object_member_then_rest(cs: Seq<char>, p: int, k: Seq<char>, r: int, v: JsonModel, s: int)
    requires
        0 <= p <= cs.len(),
        string_at(cs, skip_ws(cs, p)) == Ok::<(Seq<char>, int), Seq<char>>((k, r)),
        skip_ws(cs, r) < cs.len(),
        cs[skip_ws(cs, r)] == ':',
        value_at(cs, skip_ws(cs, r) + 1) == Ok::<(JsonModel, int), Seq<char>>((v, s)),
        skip_ws(cs, s) < cs.len(),
        cs[skip_ws(cs, s)] == ',',
    ensures
        members_at(cs, skip_ws(cs, s) + 1, seq![]) is Err
            ==> members_at(cs, p, seq![]) == members_at(cs, skip_ws(cs, s) + 1, seq![]),
        members_at(cs, skip_ws(cs, s) + 1, seq![]) matches Ok((JsonModel::Object(rest), q))
            ==> members_at(cs, p, seq![]) == Ok::<(JsonModel, int), Seq<char>>((JsonModel::Object(seq![(k, v)] + rest), q)),
{
    lemma_skip_ws(cs, p);
    lemma_string_at(cs, skip_ws(cs, p));
    lemma_skip_ws(cs, r);
    lemma_value_progress(cs, skip_ws(cs, r) + 1);
    assert(seq![].push((k, v)) =~= seq![(k, v)]);
    lemma_members_accumulate(cs, skip_ws(cs, s) + 1, seq![(k, v)]);
}

fn is_ascii_space_char(c: char) -> (r: bool)
    ensures
        r == is_ascii_space(c),
{
    c == ' ' || c == '\t' || c == '\n' || c == '\u{c}' || c == '\r'
}

/// A reader over the characters of a document.
struct JsonReader {
    cs: Vec<char>,
    pos: usize,
}

impl JsonReader {
    fn ws(&mut self)
        requires
            old(self).pos <= old(self).cs.len(),
        ensures
            final(self).cs == old(self).cs,
            final(self).pos == skip_ws(old(self).cs@, old(self).pos as int),
            old(self).pos <= final(self).pos <= final(self).cs.len(),
    {
        proof {
            lemma_skip_ws(self.cs@, self.pos as int);
        }
        while self.pos < self.cs.len() && is_ascii_space_char(self.cs[self.pos])
            invariant
                self.cs == old(self).cs,
                self.pos <= self.cs.len(),
                skip_ws(self.cs@, self.pos as int) == skip_ws(old(self).cs@, old(self).pos as int),
            decreases self.cs.len() - self.pos,
        {
            self.pos += 1;
        }
    }

    fn string(&mut self) -> (res: Result<String, String>)
        requires
            old(self).pos <= old(self).cs.len(),
        ensures
            final(self).cs == old(self).cs,
            old(self).pos <= final(self).pos <= final(self).cs.len(),
            match string_at(old(self).cs@, old(self).pos as int) {
                Ok((s, q)) => res is Ok && res->Ok_0@ == s && final(self).pos == q,
                Err(m) => res is Err && res->Err_0@ == m,
            },
    {
        let ghost cs = self.cs@;
        let ghost p0 = self.pos as int;
        if self.pos == self.cs.len() || self.cs[self.pos] != '"' {
            return Err(String::from_str("expected string"));
        }
        self.pos += 1;
        let mut out = String::new();
        assert(out@ =~= seq![]);
        while self.pos < self.cs.len()
            invariant
                self.cs@ == cs,
                self.cs == old(self).cs,
                self.pos <= cs.len(),
                p0 == old(self).pos,
                p0 < self.pos,
                string_body(cs, self.pos as int, out@) == string_at(cs, p0),
            decreases self.cs.len() - self.pos,
        {
            let ghost p = self.pos as int;
            let c = self.cs[self.pos];
            assert(string_body(cs, p, out@) == if c == '"' {
                Ok((out@, p + 1))
            } else if c == '\\' {
                if p + 1 < cs.len() {
                    string_body(cs, p + 2, out@.push(cs[p + 1]))
                } else {
                    Err("unfinished escape"@)
                }
            } else {
                string_body(cs, p + 1, out@.push(c))
            });
            self.pos += 1;
            if c == '"' {
                return Ok(out);
            } else if c == '\\' {
                if self.pos == self.cs.len() {
                    return Err(String::from_str("unfinished escape"));
                }
                push_char(&mut out, self.cs[self.pos]);
                self.pos += 1;
            } else {
                push_char(&mut out, c);
            }
        }
        Err(String::from_str("unterminated string"))
    }

    fn value(&mut self) -> (res: Result<Json, String>)
        requires
            old(self).pos <= old(self).cs.len(),
        ensures
            final(self).cs == old(self).cs,
            final(self).pos <= final(self).cs.len(),
            match value_at(old(self).cs@, old(self).pos as int) {
                Ok((v, q)) => res is Ok && res->Ok_0@ == v && final(self).pos == q,
                Err(m) => res is Err && res->Err_0@ == m,
            },
            res is Ok ==> final(self).pos > old(self).pos,
        decreases old(self).cs.len() - old(self).pos, 0int,
    {
        self.ws();
        if self.pos == self.cs.len() {
            return Err(String::from_str("expected JSON value"));
        }
        let c = self.cs[self.pos];
        if c == '{' {
            self.pos += 1;
            self.object()
        } else if c == '[' {
            self.pos += 1;
            self.array()
        } else if c == '"' {
            proof {
                lemma_string_at(self.cs@, self.pos as int);
            }
            let s = self.string()?;
            Ok(Json::Str(s))
        } else if c == 'n' {
            proof {
                reveal_strlit("null");
            }
            if self.cs.len() - self.pos >= 4 && self.cs[self.pos + 1] == 'u' && self.cs[self.pos + 2] == 'l'
                && self.cs[self.pos + 3] == 'l' {
                assert(self.cs@.subrange(self.pos as int, self.pos + 4) =~= "null"@);
                self.pos += 4;
                Ok(Json::Null)
            } else {
                proof {
                    if self.cs.len() - self.pos >= 4 {
                        let w = self.cs@.subrange(self.pos as int, self.pos + 4);
                        if w == "null"@ {
                            assert(w[1] == 'u' && w[2] == 'l' && w[3] == 'l');
                        }
                    }
                }
                Err(String::from_str("invalid null"))
            }
        } else {
            Err(String::from_str("expected JSON value"))
        }
    }

    /// An object, after its `{`.
    fn object(&mut self) -> (res: Result<Json, String>)
        requires
            old(self).pos <= old(self).cs.len(),
        ensures
            final(self).cs == old(self).cs,
            final(self).pos <= final(self).cs.len(),
            match object_at(old(self).cs@, old(self).pos as int) {
                Ok((v, q)) => res is Ok && res->Ok_0@ == v && final(self).pos == q,
                Err(m) => res is Err && res->Err_0@ == m,
            },
            res is Ok ==> final(self).pos > old(self).pos,
        decreases old(self).cs.len() - old(self).pos, 2int,
    {
        let ghost cs = self.cs@;
        let ghost p0 = self.pos as int;
        let start = self.pos;
        self.ws();
        if self.pos < self.cs.len() && self.cs[self.pos] == '}' {
            self.pos += 1;
            let out: Vec<(String, Json)> = Vec::new();
            assert(members_model(out@) =~= seq![]);
            return Ok(Json::Object(out));
        }
        self.pos = start;
        let mut out: Vec<(String, Json)> = Vec::new();
        assert(members_model(out@) =~= seq![]);
        loop
            invariant
                self.cs@ == cs,
                self.cs == old(self).cs,
                p0 == old(self).pos,
                p0 <= self.pos <= cs.len(),
                members_at(cs, self.pos as int, members_model(out@)) == object_at(cs, p0),
            decreases cs.len() - self.pos,
        {
            let ghost p = self.pos as int;
            proof {
                lemma_skip_ws(cs, p);
            }
            self.ws();
            proof {
                lemma_string_at(cs, self.pos as int);
            }
            let key = self.string()?;
            self.ws();
            if self.pos == self.cs.len() || self.cs[self.pos] != ':' {
                return Err(String::from_str("expected object colon"));
            }
            self.pos += 1;
            let v = self.value()?;
            let ghost before = out@;
            out.push((key, v));
            assert(members_model(out@) =~= members_model(before).push((key@, v@))) by {
                assert(out@.drop_last() =~= before);
            }
            proof {
                lemma_skip_ws(cs, self.pos as int);
            }
            self.ws();
            if self.pos < self.cs.len() && self.cs[self.pos] == '}' {
                self.pos += 1;
                return Ok(Json::Object(out));
            }
            if self.pos < self.cs.len() && self.cs[self.pos] == ',' {
                self.pos += 1;
            } else {
                return Err(String::from_str("expected object separator"));
            }
        }
    }

    /// An array, after its `[`.
    fn array(&mut self) -> (res: Result<Json, String>)
        requires
            old(self).pos <= old(self).cs.len(),
        ensures
            final(self).cs == old(self).cs,
            final(self).pos <= final(self).cs.len(),
            match array_at(old(self).cs@, old(self).pos as int) {
                Ok((v, q)) => res is Ok && res->Ok_0@ == v && final(self).pos == q,
                Err(m) => res is Err && res->Err_0@ == m,
            },
            res is Ok ==> final(self).pos > old(self).pos,
        decreases old(self).cs.len() - old(self).pos, 2int,
    {
        let ghost cs = self.cs@;
        let ghost p0 = self.pos as int;
        let start = self.pos;
        self.ws();
        if self.pos < self.cs.len() && self.cs[self.pos] == ']' {
            self.pos += 1;
            let out: Vec<Json> = Vec::new();
            assert(items_model(out@) =~= seq![]);
            return Ok(Json::Array(out));
        }
        self.pos = start;
        let mut out: Vec<Json> = Vec::new();
        assert(items_model(out@) =~= seq![]);
        loop
            invariant
                self.cs@ == cs,
                self.cs == old(self).cs,
                p0 == old(self).pos,
                p0 <= self.pos <= cs.len(),
                elements_at(cs, self.pos as int, items_model(out@)) == array_at(cs, p0),
            decreases cs.len() - self.pos,
        {
            let v = self.value()?;
            let ghost before = out@;
            out.push(v);
            assert(items_model(out@) =~= items_model(before).push(v@)) by {
                assert(out@.drop_last() =~= before);
            }
            proof {
                lemma_skip_ws(cs, self.pos as int);
            }
            self.ws();
            if self.pos < self.cs.len() && self.cs[self.pos] == ']' {
                self.pos += 1;
                return Ok(Json::Array(out));
            }
            if self.pos < self.cs.len() && self.cs[self.pos] == ',' {
                self.pos += 1;
            } else {
                return Err(String::from_str("expected array separator"));
            }
        }
    }
}

/// Reads a whole document.
pub fn parse_json(text: &str) -> (res: Result<Json, String>)
    ensures
        match json_of(text@) {
            Ok(v) => res is Ok && res->Ok_0@ == v,
            Err(m) => res is Err && res->Err_0@ == m,
        },
{
    let mut reader = JsonReader { cs: chars_of(text), pos: 0 };
    let value = reader.value()?;
    reader.ws();
    if reader.pos < reader.cs.len() {
        return Err(String::from_str("trailing JSON data"));
    }
    Ok(value)
}

} // verus!

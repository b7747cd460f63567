//! The JSON-compatible value type carried in job arguments, and its
//! canonical encoding: minimal JSON with no whitespace, object keys in the
//! order given, strings escaped as below, and integers in decimal.

use vstd::prelude::*;
use vstd::string::{StrSliceExecFns, StringExecFns};

use crate::digits::{dec_int, digit_char, i64_to_dec};

verus! {

broadcast use vstd::seq::group_seq_axioms, vstd::std_specs::vec::group_vec_axioms;

/// The mathematical shape of a JSON value: the view of [`JsonValue`].
pub ghost enum JsonVal {
    Null,
    Bool(bool),
    Int(int),
    Str(Seq<char>),
    Arr(Seq<JsonVal>),
    Obj(Seq<(Seq<char>, JsonVal)>),
}

/// One JSON-compatible value: null, a boolean, an integer, a string, an
/// array, or an object with ordered keys.
pub enum JsonValue {
    Null,
    Bool(bool),
    Int(i64),
    Str(String),
    Arr(Vec<JsonValue>),
    Obj(Vec<(String, JsonValue)>),
}

/// The views of the elements of `vs`, in order.
pub open spec fn view_arr(vs: Seq<JsonValue>) -> Seq<JsonVal>
    decreases vs,
{
    if vs.len() == 0 {
        Seq::empty()
    } else {
        proof {
            assert(decreases_to!(vs => vs.drop_last()));
            assert(decreases_to!(vs => vs[vs.len() - 1]));
        }
        view_arr(vs.drop_last()).push(vs.last()@)
    }
}

/// The views of the members of `ms`, each key paired with the view of its
/// value, in order.
pub open spec fn view_obj(ms: Seq<(String, JsonValue)>) -> Seq<(Seq<char>, JsonVal)>
    decreases ms,
{
    if ms.len() == 0 {
        Seq::empty()
    } else {
        proof {
            assert(decreases_to!(ms => ms.drop_last()));
            assert(decreases_to!(ms => ms[ms.len() - 1]));
        }
        view_obj(ms.drop_last()).push((ms.last().0@, ms.last().1@))
    }
}

/// The hexadecimal digit character for `d`, lower case.
pub open spec fn hex_char(d: int) -> char
    recommends
        0 <= d < 16,
{
    if d < 10 {
        digit_char(d)
    } else if d == 10 {
        'a'
    } else if d == 11 {
        'b'
    } else if d == 12 {
        'c'
    } else if d == 13 {
        'd'
    } else if d == 14 {
        'e'
    } else {
        'f'
    }
}

/// How one character appears inside a JSON string literal: quote and
/// backslash get a backslash escape, as do the common control characters;
/// any other control character becomes a `\u00XX` escape; everything else
/// stands for itself.
pub open spec fn escape_char(c: char) -> Seq<char> {
    if c == '"' {
        seq!['\\', '"']
    } else if c == '\\' {
        seq!['\\', '\\']
    } else if c == '\n' {
        seq!['\\', 'n']
    } else if c == '\r' {
        seq!['\\', 'r']
    } else if c == '\t' {
        seq!['\\', 't']
    } else if (c as u32) < 0x20 {
        seq!['\\', 'u', '0', '0', hex_char(c as u32 as int / 16), hex_char(c as u32 as int % 16)]
    } else {
        seq![c]
    }
}

/// The body of a JSON string literal for the character sequence `s`.
pub open spec fn escape_str(s: Seq<char>) -> Seq<char>
    decreases s.len(),
{
    if s.len() == 0 {
        Seq::empty()
    } else {
        escape_str(s.drop_last()) + escape_char(s.last())
    }
}

/// A JSON string literal: the escaped body between double quotes.
pub open spec fn enc_str(s: Seq<char>) -> Seq<char> {
    seq!['"'] + escape_str(s) + seq!['"']
}

/// The canonical encoding of a JSON value: minimal JSON, no whitespace,
/// members in the order given.
pub open spec fn enc_val(v: JsonVal) -> Seq<char>
    decreases v,
{
    match v {
        JsonVal::Null => seq!['n', 'u', 'l', 'l'],
        JsonVal::Bool(b) => if b {
            seq!['t', 'r', 'u', 'e']
        } else {
            seq!['f', 'a', 'l', 's', 'e']
        },
        JsonVal::Int(i) => dec_int(i),
        JsonVal::Str(s) => enc_str(s),
        JsonVal::Arr(vs) => seq!['['] + enc_items(vs) + seq![']'],
        JsonVal::Obj(ms) => seq!['{'] + enc_members(ms) + seq!['}'],
    }
}

/// Array items in order, separated by commas.
pub open spec fn enc_items(vs: Seq<JsonVal>) -> Seq<char>
    decreases vs,
{
    if vs.len() == 0 {
        Seq::empty()
    } else if vs.len() == 1 {
        enc_val(vs[0])
    } else {
        proof {
            assert(decreases_to!(vs => vs.drop_last()));
            assert(decreases_to!(vs => vs[vs.len() - 1]));
        }
        enc_items(vs.drop_last()) + seq![','] + enc_val(vs.last())
    }
}

/// Object members in order, separated by commas, each a string literal
/// key, a colon, and the encoded value.
pub open spec fn enc_member(m: (Seq<char>, JsonVal)) -> Seq<char>
    decreases m,
{
    enc_str(m.0) + seq![':'] + enc_val(m.1)
}

/// All object members, comma separated.
pub open spec fn enc_members(ms: Seq<(Seq<char>, JsonVal)>) -> Seq<char>
    decreases ms,
{
    if ms.len() == 0 {
        Seq::empty()
    } else if ms.len() == 1 {
        enc_member(ms[0])
    } else {
        proof {
            assert(decreases_to!(ms => ms.drop_last()));
            assert(decreases_to!(ms => ms[ms.len() - 1]));
        }
        enc_members(ms.drop_last()) + seq![','] + enc_member(ms.last())
    }
}

impl View for JsonValue {
    type V = JsonVal;

    open spec fn view(&self) -> JsonVal
        decreases self,
    {
        match self {
            JsonValue::Null => JsonVal::Null,
            JsonValue::Bool(b) => JsonVal::Bool(*b),
            JsonValue::Int(i) => JsonVal::Int(*i as int),
            JsonValue::Str(s) => JsonVal::Str(s@),
            JsonValue::Arr(vs) => {
                proof {
                    assert(decreases_to!(vs => vs@));
                }
                JsonVal::Arr(view_arr(vs@))
            },
            JsonValue::Obj(ms) => {
                proof {
                    assert(decreases_to!(ms => ms@));
                }
                JsonVal::Obj(view_obj(ms@))
            },
        }
    }
}

/// `view_arr` maps element by element.
pub proof fn lemma_view_arr(vs: Seq<JsonValue>)
    ensures
        view_arr(vs).len() == vs.len(),
        forall|i: int| 0 <= i < vs.len() ==> view_arr(vs)[i] == #[trigger] vs[i]@,
    decreases vs.len(),
{
    if vs.len() > 0 {
        lemma_view_arr(vs.drop_last());
        assert(view_arr(vs) == view_arr(vs.drop_last()).push(vs.last()@));
        assert forall|i: int| 0 <= i < vs.len() implies view_arr(vs)[i] == #[trigger] vs[i]@ by {
            if i < vs.len() - 1 {
                assert(view_arr(vs)[i] == view_arr(vs.drop_last())[i]);
                assert(vs.drop_last()[i] == vs[i]);
            } else {
                assert(vs.last() == vs[i]);
            }
        }
    }
}

/// `view_obj` maps member by member.
pub proof fn lemma_view_obj(ms: Seq<(String, JsonValue)>)
    ensures
        view_obj(ms).len() == ms.len(),
        forall|i: int| 0 <= i < ms.len() ==> view_obj(ms)[i] == (#[trigger] ms[i].0@, ms[i].1@),
    decreases ms.len(),
{
    if ms.len() > 0 {
        lemma_view_obj(ms.drop_last());
        assert(view_obj(ms) == view_obj(ms.drop_last()).push((ms.last().0@, ms.last().1@)));
        assert forall|i: int| 0 <= i < ms.len() implies view_obj(ms)[i] == (
        #[trigger] ms[i].0@,
        ms[i].1@,
        ) by {
            if i < ms.len() - 1 {
                assert(view_obj(ms)[i] == view_obj(ms.drop_last())[i]);
                assert(ms.drop_last()[i] == ms[i]);
            } else {
                assert(ms.last() == ms[i]);
            }
        }
    }
}

/// Extending the escaped prefix by one source character.
proof fn lemma_escape_str_snoc(s: Seq<char>, i: int)
    requires
        0 <= i < s.len(),
    ensures
        escape_str(s.take(i + 1)) == escape_str(s.take(i)) + escape_char(s[i]),
{
    let t = s.take(i + 1);
    assert(t.drop_last() =~= s.take(i));
    assert(t.last() == s[i]);
}

/// Extending an encoded item list by one item.
proof fn lemma_enc_items_snoc(vs: Seq<JsonVal>, j: int)
    requires
        0 <= j < vs.len(),
    ensures
        enc_items(vs.take(j + 1)) == if j == 0 {
            enc_val(vs[0])
        } else {
            enc_items(vs.take(j)) + seq![','] + enc_val(vs[j])
        },
{
    let t = vs.take(j + 1);
    assert(t.drop_last() =~= vs.take(j));
    assert(t.last() == vs[j]);
    if j == 0 {
        assert(t.len() == 1);
        assert(t[0] == vs[0]);
    }
}

/// Extending an encoded member list by one member.
pub proof fn lemma_enc_members_snoc(ms: Seq<(Seq<char>, JsonVal)>, j: int)
    requires
        0 <= j < ms.len(),
    ensures
        enc_members(ms.take(j + 1)) == if j == 0 {
            enc_member(ms[0])
        } else {
            enc_members(ms.take(j)) + seq![','] + enc_member(ms[j])
        },
{
    let t = ms.take(j + 1);
    assert(t.drop_last() =~= ms.take(j));
    assert(t.last() == ms[j]);
    if j == 0 {
        assert(t.len() == 1);
        assert(t[0] == ms[0]);
    }
}

/// The one-character string for a hexadecimal digit, lower case.
fn hex_str(d: u32) -> (s: &'static str)
    requires
        d < 16,
    ensures
        s@ == seq![hex_char(d as int)],
{
    proof {
        reveal_strlit("a");
        reveal_strlit("b");
        reveal_strlit("c");
        reveal_strlit("d");
        reveal_strlit("e");
        reveal_strlit("f");
    }
    if d < 10 {
        crate::digits::digit_str(d as u64)
    } else {
        match d {
            10 => "a",
            11 => "b",
            12 => "c",
            13 => "d",
            14 => "e",
            _ => "f",
        }
    }
}

/// Builds the body of a JSON string literal for `s`, escaping as
/// [`escape_char`] says.
pub fn escape_json(s: &str) -> (out: String)
    ensures
        out@ == escape_str(s@),
{
    let n = s.unicode_len();
    let mut out = String::new();
    let mut i: usize = 0;
    while i < n
        invariant
            n == s@.len(),
            i <= n,
            out@ == escape_str(s@.take(i as int)),
        decreases n - i,
    {
        let c = s.get_char(i);
        proof {
            lemma_escape_str_snoc(s@, i as int);
        }
        if c == '"' {
            out.append("\\\"");
            proof {
                reveal_strlit("\\\"");
                assert(out@ =~= escape_str(s@.take(i as int + 1)));
            }
        } else if c == '\\' {
            out.append("\\\\");
            proof {
                reveal_strlit("\\\\");
                assert(out@ =~= escape_str(s@.take(i as int + 1)));
            }
        } else if c == '\n' {
            out.append("\\n");
            proof {
                reveal_strlit("\\n");
                assert(out@ =~= escape_str(s@.take(i as int + 1)));
            }
        } else if c == '\r' {
            out.append("\\r");
            proof {
                reveal_strlit("\\r");
                assert(out@ =~= escape_str(s@.take(i as int + 1)));
            }
        } else if c == '\t' {
            out.append("\\t");
            proof {
                reveal_strlit("\\t");
                assert(out@ =~= escape_str(s@.take(i as int + 1)));
            }
        } else if (c as u32) < 0x20 {
            let code = c as u32;
            out.append("\\u00");
            out.append(hex_str(code / 16));
            out.append(hex_str(code % 16));
            proof {
                reveal_strlit("\\u00");
                assert(out@ =~= escape_str(s@.take(i as int + 1)));
            }
        } else {
            let piece = s.substring_char(i, i + 1);
            out.append(piece);
            proof {
                assert(piece@ =~= seq![s@[i as int]]);
                assert(out@ =~= escape_str(s@.take(i as int + 1)));
            }
        }
        i = i + 1;
    }
    proof {
        assert(s@.take(n as int) =~= s@);
    }
    out
}

/// Builds the JSON string literal for `s`: quotes around the escaped body.
pub fn encode_json_str(s: &str) -> (out: String)
    ensures
        out@ == enc_str(s@),
{
    let mut out = String::from_str("\"");
    let body = escape_json(s);
    out.append(body.as_str());
    out.append("\"");
    proof {
        reveal_strlit("\"");
        assert(out@ =~= enc_str(s@));
    }
    out
}

/// Renders a JSON value in the canonical encoding.
#[verifier::loop_isolation(false)]
pub fn encode_json(v: &JsonValue) -> (out: String)
    ensures
        out@ == enc_val(v@),
    decreases *v,
{
    match v {
        JsonValue::Null => {
            let out = String::from_str("null");
            proof {
                reveal_strlit("null");
                assert(out@ =~= enc_val(v@));
            }
            out
        },
        JsonValue::Bool(b) => {
            if *b {
                let out = String::from_str("true");
                proof {
                    reveal_strlit("true");
                    assert(out@ =~= enc_val(v@));
                }
                out
            } else {
                let out = String::from_str("false");
                proof {
                    reveal_strlit("false");
                    assert(out@ =~= enc_val(v@));
                }
                out
            }
        },
        JsonValue::Int(i) => i64_to_dec(*i),
        JsonValue::Str(s) => encode_json_str(s.as_str()),
        JsonValue::Arr(vs) => encode_json_arr(vs),
        JsonValue::Obj(ms) => {
            let ghost gm = view_obj(ms@);
            proof {
                lemma_view_obj(ms@);
            }
            let mut out = String::from_str("{");
            proof {
                reveal_strlit("{");
            }
            let mut j: usize = 0;
            while j < ms.len()
                invariant
                    j <= ms.len(),
                    gm == view_obj(ms@),
                    gm.len() == ms@.len(),
                    forall|k: int| 0 <= k < ms@.len() ==> gm[k] == (#[trigger] ms@[k].0@, ms@[k].1@),
                    out@ == seq!['{'] + enc_members(gm.take(j as int)),
                    v == JsonValue::Obj(*ms),
                decreases ms.len() - j,
            {
                if j > 0 {
                    out.append(",");
                    proof {
                        reveal_strlit(",");
                    }
                }
                let key = encode_json_str(ms[j].0.as_str());
                out.append(key.as_str());
                out.append(":");
                let piece = encode_json(&ms[j].1);
                out.append(piece.as_str());
                proof {
                    reveal_strlit(":");
                    lemma_enc_members_snoc(gm, j as int);
                    assert(out@ =~= seq!['{'] + enc_members(gm.take(j as int + 1)));
                }
                j = j + 1;
            }
            out.append("}");
            proof {
                reveal_strlit("}");
                assert(gm.take(gm.len() as int) =~= gm);
                assert(out@ =~= enc_val(v@));
            }
            out
        },
    }
}

/// Renders a JSON array of the given elements in the canonical encoding.
#[verifier::loop_isolation(false)]
pub fn encode_json_arr(vs: &Vec<JsonValue>) -> (out: String)
    ensures
        out@ == seq!['['] + enc_items(view_arr(vs@)) + seq![']'],
    decreases *vs,
{
    let ghost gs = view_arr(vs@);
    proof {
        lemma_view_arr(vs@);
    }
    let mut out = String::from_str("[");
    proof {
        reveal_strlit("[");
    }
    let mut j: usize = 0;
    while j < vs.len()
        invariant
            j <= vs.len(),
            out@ == seq!['['] + enc_items(gs.take(j as int)),
        decreases vs.len() - j,
    {
        if j > 0 {
            out.append(",");
            proof {
                reveal_strlit(",");
            }
        }
        let piece = encode_json(&vs[j]);
        out.append(piece.as_str());
        proof {
            lemma_enc_items_snoc(gs, j as int);
            assert(out@ =~= seq!['['] + enc_items(gs.take(j as int + 1)));
        }
        j = j + 1;
    }
    out.append("]");
    proof {
        reveal_strlit("]");
        assert(gs.take(gs.len() as int) =~= gs);
        assert(out@ =~= seq!['['] + enc_items(view_arr(vs@)) + seq![']']);
    }
    out
}

} // verus!

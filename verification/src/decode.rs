//! A decoder for the canonical encoding, and the round-trip laws: parsing
//! an encoded value yields exactly the value that was encoded, so the wire
//! form of a job loses nothing.

use vstd::prelude::*;

use crate::digits::{dec_chars, digit_char};
use crate::job::{wire_val, JobView};
use crate::json::{
    enc_items, enc_member, enc_members, enc_str, enc_val, escape_char, escape_str, hex_char,
    JsonVal,
};

verus! {

broadcast use vstd::seq::group_seq_axioms;

/// A decimal digit character.
pub open spec fn is_digit(c: char) -> bool {
    '0' <= c && c <= '9'
}

/// The value of a decimal digit character.
pub open spec fn digit_val(c: char) -> int
    recommends
        is_digit(c),
{
    if c == '0' {
        0
    } else if c == '1' {
        1
    } else if c == '2' {
        2
    } else if c == '3' {
        3
    } else if c == '4' {
        4
    } else if c == '5' {
        5
    } else if c == '6' {
        6
    } else if c == '7' {
        7
    } else if c == '8' {
        8
    } else {
        9
    }
}

/// A lower-case hexadecimal digit character.
pub open spec fn is_hex(c: char) -> bool {
    is_digit(c) || ('a' <= c && c <= 'f')
}

/// The value of a hexadecimal digit character.
pub open spec fn hex_val(c: char) -> int
    recommends
        is_hex(c),
{
    if is_digit(c) {
        digit_val(c)
    } else if c == 'a' {
        10
    } else if c == 'b' {
        11
    } else if c == 'c' {
        12
    } else if c == 'd' {
        13
    } else if c == 'e' {
        14
    } else {
        15
    }
}

/// The value of a digit string, most significant digit first.
pub open spec fn digits_val(ds: Seq<char>) -> int
    decreases ds.len(),
{
    if ds.len() == 0 {
        0
    } else {
        digits_val(ds.drop_last()) * 10 + digit_val(ds.last())
    }
}

/// How many decimal digits the input starts with.
pub open spec fn digit_run(s: Seq<char>) -> int
    decreases s.len(),
{
    if s.len() == 0 || !is_digit(s[0]) {
        0
    } else {
        1 + digit_run(s.skip(1))
    }
}

/// The character a single-letter backslash escape stands for.
pub open spec fn unescape(c: char) -> Option<char> {
    if c == '"' {
        Option::Some('"')
    } else if c == '\\' {
        Option::Some('\\')
    } else if c == 'n' {
        Option::Some('\n')
    } else if c == 'r' {
        Option::Some('\r')
    } else if c == 't' {
        Option::Some('\t')
    } else {
        Option::None
    }
}

/// Parses the body of a string literal up to its closing quote, which is
/// not consumed: the unescaped characters and how many input characters
/// the body occupies.
pub open spec fn parse_str_body(s: Seq<char>) -> Option<(Seq<char>, int)>
    decreases s.len(),
{
    if s.len() == 0 {
        Option::None
    } else if s[0] == '"' {
        Option::Some((Seq::empty(), 0))
    } else if s[0] == '\\' {
        if s.len() >= 6 && s[1] == 'u' {
            if s[2] == '0' && s[3] == '0' && is_hex(s[4]) && is_hex(s[5]) {
                match parse_str_body(s.skip(6)) {
                    Option::None => Option::None,
                    Option::Some((t, n)) => Option::Some(
                        (seq![((hex_val(s[4]) * 16 + hex_val(s[5])) as u32) as char] + t, n + 6),
                    ),
                }
            } else {
                Option::None
            }
        } else if s.len() >= 2 {
            match unescape(s[1]) {
                Option::None => Option::None,
                Option::Some(c) => match parse_str_body(s.skip(2)) {
                    Option::None => Option::None,
                    Option::Some((t, n)) => Option::Some((seq![c] + t, n + 2)),
                },
            }
        } else {
            Option::None
        }
    } else {
        match parse_str_body(s.skip(1)) {
            Option::None => Option::None,
            Option::Some((t, n)) => Option::Some((seq![s[0]] + t, n + 1)),
        }
    }
}

/// Parses one canonical JSON value at the head of the input: the value and
/// how many characters it occupies.
pub open spec fn parse_val(s: Seq<char>) -> Option<(JsonVal, int)>
    decreases s.len(), 0int,
{
    if s.len() == 0 {
        Option::None
    } else if s[0] == 'n' {
        if s.len() >= 4 && s.subrange(0, 4) == seq!['n', 'u', 'l', 'l'] {
            Option::Some((JsonVal::Null, 4))
        } else {
            Option::None
        }
    } else if s[0] == 't' {
        if s.len() >= 4 && s.subrange(0, 4) == seq!['t', 'r', 'u', 'e'] {
            Option::Some((JsonVal::Bool(true), 4))
        } else {
            Option::None
        }
    } else if s[0] == 'f' {
        if s.len() >= 5 && s.subrange(0, 5) == seq!['f', 'a', 'l', 's', 'e'] {
            Option::Some((JsonVal::Bool(false), 5))
        } else {
            Option::None
        }
    } else if s[0] == '"' {
        match parse_str_body(s.skip(1)) {
            Option::None => Option::None,
            Option::Some((body, n)) => Option::Some((JsonVal::Str(body), n + 2)),
        }
    } else if s[0] == '-' {
        let run = digit_run(s.skip(1));
        if run == 0 {
            Option::None
        } else {
            Option::Some((JsonVal::Int(0 - digits_val(s.skip(1).take(run))), 1 + run))
        }
    } else if is_digit(s[0]) {
        let run = digit_run(s);
        Option::Some((JsonVal::Int(digits_val(s.take(run))), run))
    } else if s[0] == '[' {
        if s.len() >= 2 && s[1] == ']' {
            Option::Some((JsonVal::Arr(Seq::empty()), 2))
        } else {
            match parse_items(s.skip(1)) {
                Option::None => Option::None,
                Option::Some((vs, n)) => Option::Some((JsonVal::Arr(vs), 1 + n)),
            }
        }
    } else if s[0] == '{' {
        if s.len() >= 2 && s[1] == '}' {
            Option::Some((JsonVal::Obj(Seq::empty()), 2))
        } else {
            match parse_members(s.skip(1)) {
                Option::None => Option::None,
                Option::Some((ms, n)) => Option::Some((JsonVal::Obj(ms), 1 + n)),
            }
        }
    } else {
        Option::None
    }
}

/// Parses one or more comma-separated items and the closing bracket, which
/// is consumed.
pub open spec fn parse_items(s: Seq<char>) -> Option<(Seq<JsonVal>, int)>
    decreases s.len(), 1int,
{
    match parse_val(s) {
        Option::None => Option::None,
        Option::Some((v, n)) => {
            if 0 <= n && n < s.len() && s[n] == ',' {
                match parse_items(s.skip(n + 1)) {
                    Option::None => Option::None,
                    Option::Some((vs, m)) => Option::Some((seq![v] + vs, n + 1 + m)),
                }
            } else if 0 <= n && n < s.len() && s[n] == ']' {
                Option::Some((seq![v], n + 1))
            } else {
                Option::None
            }
        },
    }
}

/// Parses one or more comma-separated `"key":value` members and the
/// closing brace, which is consumed.
pub open spec fn parse_members(s: Seq<char>) -> Option<(Seq<(Seq<char>, JsonVal)>, int)>
    decreases s.len(), 1int,
{
    if s.len() == 0 || s[0] != '"' {
        Option::None
    } else {
        match parse_str_body(s.skip(1)) {
            Option::None => Option::None,
            Option::Some((key, n)) => {
                let colon = 2 + n;
                if 0 <= n && colon < s.len() && s[colon] == ':' {
                    match parse_val(s.skip(colon + 1)) {
                        Option::None => Option::None,
                        Option::Some((v, m)) => {
                            let end = colon + 1 + m;
                            if 0 <= m && end < s.len() && s[end] == ',' {
                                match parse_members(s.skip(end + 1)) {
                                    Option::None => Option::None,
                                    Option::Some((ms, r)) => Option::Some(
                                        (seq![(key, v)] + ms, end + 1 + r),
                                    ),
                                }
                            } else if 0 <= m && end < s.len() && s[end] == '}' {
                                Option::Some((seq![(key, v)], end + 1))
                            } else {
                                Option::None
                            }
                        },
                    }
                } else {
                    Option::None
                }
            },
        }
    }
}

/// Parses a complete canonical document: one value covering the whole
/// input, nothing left over.
pub open spec fn parse_json(s: Seq<char>) -> Option<JsonVal> {
    match parse_val(s) {
        Option::None => Option::None,
        Option::Some((v, n)) => if n == s.len() {
            Option::Some(v)
        } else {
            Option::None
        },
    }
}

/// The decimal rendering of `n` is all digits and evaluates back to `n`.
proof fn lemma_dec_chars_digits(n: nat)
    ensures
        dec_chars(n).len() >= 1,
        forall|i: int| 0 <= i < dec_chars(n).len() ==> is_digit(#[trigger] dec_chars(n)[i]),
        digits_val(dec_chars(n)) == n,
    decreases n,
{
    if n < 10 {
        let ds = dec_chars(n);
        assert(is_digit(digit_char(n as int)));
        assert(digit_val(digit_char(n as int)) == n);
        assert(ds.last() == digit_char(n as int));
        assert(ds.drop_last() =~= Seq::<char>::empty());
        assert(digits_val(Seq::<char>::empty()) == 0);
        assert(digits_val(ds) == digits_val(ds.drop_last()) * 10 + digit_val(ds.last()));
    } else {
        lemma_dec_chars_digits(n / 10);
        let ds = dec_chars(n);
        assert(ds == dec_chars(n / 10).push(digit_char((n % 10) as int)));
        assert(ds.drop_last() =~= dec_chars(n / 10));
        assert(ds.last() == digit_char((n % 10) as int));
        assert(is_digit(ds.last()));
        assert(digit_val(digit_char((n % 10) as int)) == n % 10);
        assert(digits_val(ds) == (n / 10) * 10 + n % 10);
    }
}

/// A run of digits followed by a non-digit parses as exactly that run.
proof fn lemma_digit_run_exact(ds: Seq<char>, rest: Seq<char>)
    requires
        forall|i: int| 0 <= i < ds.len() ==> is_digit(#[trigger] ds[i]),
        rest.len() == 0 || !is_digit(rest[0]),
    ensures
        digit_run(ds + rest) == ds.len(),
    decreases ds.len(),
{
    if ds.len() == 0 {
        assert(ds + rest =~= rest);
    } else {
        assert((ds + rest)[0] == ds[0]);
        assert((ds + rest).skip(1) =~= ds.skip(1) + rest);
        lemma_digit_run_exact(ds.skip(1), rest);
    }
}

/// The escaped body of a string, taken from the front: the first
/// character's escape, then the rest.
proof fn lemma_escape_str_head(sv: Seq<char>)
    requires
        sv.len() >= 1,
    ensures
        escape_str(sv) == escape_char(sv[0]) + escape_str(sv.skip(1)),
    decreases sv.len(),
{
    if sv.len() == 1 {
        assert(sv.drop_last() =~= Seq::<char>::empty());
        assert(sv.skip(1) =~= Seq::<char>::empty());
        assert(escape_str(sv) =~= escape_char(sv[0]) + escape_str(sv.skip(1)));
    } else {
        let dl = sv.drop_last();
        lemma_escape_str_head(dl);
        assert(dl[0] == sv[0]);
        assert(sv.skip(1).drop_last() =~= dl.skip(1));
        assert(sv.skip(1).last() == sv.last());
        assert(escape_str(sv.skip(1)) == escape_str(dl.skip(1)) + escape_char(sv.last()));
        assert(escape_str(sv) =~= escape_char(sv[0]) + escape_str(sv.skip(1)));
    }
}

/// The parser recovers a string body from its escaped form: the body of
/// `"<escaped sv>"<rest>` parses back to `sv`, consuming the escaped part.
proof fn lemma_parse_str_body(sv: Seq<char>, rest: Seq<char>)
    ensures
        parse_str_body(escape_str(sv) + seq!['"'] + rest) == Option::Some(
            (sv, escape_str(sv).len() as int),
        ),
    decreases sv.len(),
{
    let s = escape_str(sv) + seq!['"'] + rest;
    if sv.len() == 0 {
        assert(escape_str(sv) =~= Seq::<char>::empty());
        assert(s[0] == '"');
        assert(sv =~= Seq::<char>::empty());
    } else {
        lemma_escape_str_head(sv);
        let c = sv[0];
        let e = escape_char(c);
        let s2 = escape_str(sv.skip(1)) + seq!['"'] + rest;
        assert(s =~= e + s2);
        lemma_parse_str_body(sv.skip(1), rest);
        assert(seq![c] + sv.skip(1) =~= sv);
        if c == '"' || c == '\\' || c == '\n' || c == '\r' || c == '\t' {
            assert(s[0] == '\\');
            assert(s[1] == e[1]);
            assert(unescape(s[1]) == Option::Some(c));
            assert(s.skip(2) =~= s2);
        } else if (c as u32) < 0x20 {
            let code = c as u32;
            assert(s[0] == '\\' && s[1] == 'u' && s[2] == '0' && s[3] == '0');
            assert(s[4] == hex_char(code as int / 16));
            assert(s[5] == hex_char(code as int % 16));
            assert(is_hex(s[4]) && is_hex(s[5]));
            assert(hex_val(s[4]) == code as int / 16);
            assert(hex_val(s[5]) == code as int % 16);
            assert(hex_val(s[4]) * 16 + hex_val(s[5]) == code);
            vstd::utf8::char_u32_cast(c, code);
            assert(((hex_val(s[4]) * 16 + hex_val(s[5])) as u32) as char == c);
            assert(s.len() >= 7);
            assert(s.skip(6) =~= s2);
        } else {
            assert(e =~= seq![c]);
            assert(s[0] == c);
            assert(s.skip(1) =~= s2);
        }
    }
}

/// An encoded item list, taken from the front: the first item, then a
/// comma and the rest.
proof fn lemma_enc_items_head(vs: Seq<JsonVal>)
    requires
        vs.len() >= 1,
    ensures
        enc_items(vs) == if vs.len() == 1 {
            enc_val(vs[0])
        } else {
            enc_val(vs[0]) + seq![','] + enc_items(vs.skip(1))
        },
    decreases vs.len(),
{
    if vs.len() > 1 {
        let dl = vs.drop_last();
        lemma_enc_items_head(dl);
        assert(dl[0] == vs[0]);
        assert(vs.skip(1).drop_last() =~= dl.skip(1));
        assert(vs.skip(1).last() == vs.last());
        if dl.len() == 1 {
            assert(vs.skip(1).len() == 1);
            assert(vs.skip(1)[0] == vs.last());
            assert(enc_items(vs.skip(1)) == enc_val(vs.last()));
            assert(enc_items(vs) =~= enc_val(vs[0]) + seq![','] + enc_items(vs.skip(1)));
        } else {
            assert(vs.skip(1).len() >= 2);
            assert(enc_items(vs.skip(1)) == enc_items(vs.skip(1).drop_last()) + seq![','] + enc_val(
                vs.skip(1).last(),
            ));
            assert(enc_items(vs) =~= enc_val(vs[0]) + seq![','] + enc_items(vs.skip(1)));
        }
    }
}

/// An encoded member list, taken from the front: the first member, then a
/// comma and the rest.
proof fn lemma_enc_members_head(ms: Seq<(Seq<char>, JsonVal)>)
    requires
        ms.len() >= 1,
    ensures
        enc_members(ms) == if ms.len() == 1 {
            enc_member(ms[0])
        } else {
            enc_member(ms[0]) + seq![','] + enc_members(ms.skip(1))
        },
    decreases ms.len(),
{
    if ms.len() > 1 {
        let dl = ms.drop_last();
        lemma_enc_members_head(dl);
        assert(dl[0] == ms[0]);
        assert(ms.skip(1).drop_last() =~= dl.skip(1));
        assert(ms.skip(1).last() == ms.last());
        if dl.len() == 1 {
            assert(ms.skip(1).len() == 1);
            assert(ms.skip(1)[0] == ms.last());
            assert(enc_members(ms.skip(1)) == enc_member(ms.last()));
            assert(enc_members(ms) =~= enc_member(ms[0]) + seq![','] + enc_members(ms.skip(1)));
        } else {
            assert(ms.skip(1).len() >= 2);
            assert(enc_members(ms.skip(1)) == enc_members(ms.skip(1).drop_last()) + seq![',']
                + enc_member(ms.skip(1).last()));
            assert(enc_members(ms) =~= enc_member(ms[0]) + seq![','] + enc_members(ms.skip(1)));
        }
    }
}

/// A character that can start an encoded value.
spec fn starts_value(c: char) -> bool {
    c == 'n' || c == 't' || c == 'f' || c == '"' || c == '-' || is_digit(c) || c == '[' || c
        == '{'
}

/// Every encoded value is nonempty and starts with a dispatch character —
/// never with a separator or a closing bracket.
proof fn lemma_enc_val_first(v: JsonVal)
    ensures
        enc_val(v).len() >= 1,
        starts_value(enc_val(v)[0]),
{
    match v {
        JsonVal::Null => {},
        JsonVal::Bool(b) => {},
        JsonVal::Int(i) => {
            if i >= 0 {
                lemma_dec_chars_digits(i as nat);
                assert(enc_val(v)[0] == dec_chars(i as nat)[0]);
            } else {
                lemma_dec_chars_digits((-i) as nat);
                assert(enc_val(v)[0] == '-');
            }
        },
        JsonVal::Str(sv) => {
            assert(enc_val(v)[0] == '"');
        },
        JsonVal::Arr(vs) => {
            assert(enc_val(v)[0] == '[');
        },
        JsonVal::Obj(ms) => {
            assert(enc_val(v)[0] == '{');
        },
    }
}

/// The parser recovers an encoded value from the head of the input,
/// consuming exactly the encoding. When the value is an integer, whatever
/// follows must not begin with a digit (inside arrays and objects a comma
/// or a closing bracket follows, so the condition holds there).
proof fn lemma_parse_enc(v: JsonVal, rest: Seq<char>)
    requires
        v is Int ==> rest.len() == 0 || !is_digit(rest[0]),
    ensures
        parse_val(enc_val(v) + rest) == Option::Some((v, enc_val(v).len() as int)),
    decreases v, 0int,
{
    let s = enc_val(v) + rest;
    let goal = Option::Some((v, enc_val(v).len() as int));
    match v {
        JsonVal::Null => {
            assert(s[0] == 'n');
            assert(s.subrange(0, 4) =~= seq!['n', 'u', 'l', 'l']);
            assert(parse_val(s) == goal);
        },
        JsonVal::Bool(b) => {
            if b {
                assert(s[0] == 't');
                assert(s.subrange(0, 4) =~= seq!['t', 'r', 'u', 'e']);
                assert(parse_val(s) == goal);
            } else {
                assert(s[0] == 'f');
                assert(s.subrange(0, 5) =~= seq!['f', 'a', 'l', 's', 'e']);
                assert(parse_val(s) == goal);
            }
        },
        JsonVal::Int(i) => {
            if i >= 0 {
                let ds = dec_chars(i as nat);
                lemma_dec_chars_digits(i as nat);
                assert(enc_val(v) == ds);
                assert(s[0] == ds[0]);
                assert(is_digit(s[0]));
                lemma_digit_run_exact(ds, rest);
                assert(digit_run(s) == ds.len());
                assert(s.take(ds.len() as int) =~= ds);
                assert(parse_val(s) == goal);
            } else {
                let m = (-i) as nat;
                let ds = dec_chars(m);
                lemma_dec_chars_digits(m);
                assert(enc_val(v) == seq!['-'] + ds);
                assert(s[0] == '-');
                assert(s.skip(1) =~= ds + rest);
                lemma_digit_run_exact(ds, rest);
                assert(digit_run(s.skip(1)) == ds.len());
                assert(ds.len() >= 1);
                assert(s.skip(1).take(ds.len() as int) =~= ds);
                assert(0 - digits_val(ds) == i);
                assert(enc_val(v).len() == 1 + ds.len());
                assert(parse_val(s) == goal);
            }
        },
        JsonVal::Str(sv) => {
            assert(enc_val(v) == enc_str(sv));
            assert(s[0] == '"');
            assert(s.skip(1) =~= escape_str(sv) + seq!['"'] + rest);
            lemma_parse_str_body(sv, rest);
            assert(enc_val(v).len() == escape_str(sv).len() + 2);
            assert(parse_val(s) == goal);
        },
        JsonVal::Arr(vs) => {
            assert(s[0] == '[');
            if vs.len() == 0 {
                assert(enc_items(vs) =~= Seq::<char>::empty());
                assert(enc_val(v) =~= seq!['[', ']']);
                assert(s.len() >= 2 && s[1] == ']');
                assert(vs =~= Seq::<JsonVal>::empty());
                assert(parse_val(s) == goal);
            } else {
                lemma_enc_items_head(vs);
                lemma_enc_val_first(vs[0]);
                assert(enc_items(vs)[0] == enc_val(vs[0])[0]);
                assert(s[1] == enc_items(vs)[0]);
                assert(s[1] != ']');
                assert(s.skip(1) =~= enc_items(vs) + seq![']'] + rest);
                assert(decreases_to!(v => vs));
                lemma_parse_items(vs, rest);
                assert(enc_val(v).len() == 1 + enc_items(vs).len() + 1);
                assert(parse_val(s) == goal);
            }
        },
        JsonVal::Obj(ms) => {
            assert(s[0] == '{');
            if ms.len() == 0 {
                assert(enc_members(ms) =~= Seq::<char>::empty());
                assert(enc_val(v) =~= seq!['{', '}']);
                assert(s.len() >= 2 && s[1] == '}');
                assert(ms =~= Seq::<(Seq<char>, JsonVal)>::empty());
                assert(parse_val(s) == goal);
            } else {
                lemma_enc_members_head(ms);
                assert(enc_member(ms[0])[0] == '"');
                assert(enc_members(ms)[0] == '"');
                assert(s[1] == '"');
                assert(s[1] != '}');
                assert(s.skip(1) =~= enc_members(ms) + seq!['}'] + rest);
                assert(decreases_to!(v => ms));
                lemma_parse_members(ms, rest);
                assert(enc_val(v).len() == 1 + enc_members(ms).len() + 1);
                assert(parse_val(s) == goal);
            }
        },
    }
}

/// The item parser recovers an encoded item list followed by its closing
/// bracket, consuming both.
proof fn lemma_parse_items(vs: Seq<JsonVal>, rest: Seq<char>)
    requires
        vs.len() >= 1,
    ensures
        parse_items(enc_items(vs) + seq![']'] + rest) == Option::Some(
            (vs, enc_items(vs).len() + 1 as int),
        ),
    decreases vs, 1int,
{
    let s = enc_items(vs) + seq![']'] + rest;
    lemma_enc_items_head(vs);
    let e0 = enc_val(vs[0]);
    let n = e0.len() as int;
    assert(decreases_to!(vs => vs[0]));
    if vs.len() == 1 {
        assert(s =~= e0 + (seq![']'] + rest));
        lemma_parse_enc(vs[0], seq![']'] + rest);
        assert(parse_val(s) == Option::Some((vs[0], n)));
        assert(s[n] == ']');
        assert(seq![vs[0]] =~= vs);
    } else {
        let tail = seq![','] + enc_items(vs.skip(1)) + seq![']'] + rest;
        assert(s =~= e0 + tail);
        lemma_parse_enc(vs[0], tail);
        assert(parse_val(s) == Option::Some((vs[0], n)));
        assert(s[n] == ',');
        assert(s.skip(n + 1) =~= enc_items(vs.skip(1)) + seq![']'] + rest);
        lemma_parse_items(vs.skip(1), rest);
        assert(seq![vs[0]] + vs.skip(1) =~= vs);
        assert(enc_items(vs).len() == n + 1 + enc_items(vs.skip(1)).len());
    }
}

/// The member parser recovers an encoded member list followed by its
/// closing brace, consuming both.
proof fn lemma_parse_members(ms: Seq<(Seq<char>, JsonVal)>, rest: Seq<char>)
    requires
        ms.len() >= 1,
    ensures
        parse_members(enc_members(ms) + seq!['}'] + rest) == Option::Some(
            (ms, enc_members(ms).len() + 1 as int),
        ),
    decreases ms, 1int,
{
    let s = enc_members(ms) + seq!['}'] + rest;
    lemma_enc_members_head(ms);
    let m0 = ms[0];
    let tail: Seq<char> = if ms.len() == 1 {
        seq!['}'] + rest
    } else {
        seq![','] + enc_members(ms.skip(1)) + seq!['}'] + rest
    };
    assert(s =~= enc_member(m0) + tail);
    assert(s[0] == '"');
    let krest = seq![':'] + enc_val(m0.1) + tail;
    assert(s.skip(1) =~= escape_str(m0.0) + seq!['"'] + krest);
    lemma_parse_str_body(m0.0, krest);
    let n = escape_str(m0.0).len() as int;
    assert(parse_str_body(s.skip(1)) == Option::Some((m0.0, n)));
    let colon = 2 + n;
    assert(s[colon] == ':');
    assert(s.skip(colon + 1) =~= enc_val(m0.1) + tail);
    assert(decreases_to!(ms => ms[0]));
    assert(decreases_to!(ms[0] => ms[0].1));
    lemma_parse_enc(m0.1, tail);
    let mlen = enc_val(m0.1).len() as int;
    let end = colon + 1 + mlen;
    assert(enc_member(m0).len() == end);
    assert(m0 == (m0.0, m0.1));
    if ms.len() == 1 {
        assert(s[end] == '}');
        assert(seq![(m0.0, m0.1)] =~= ms);
    } else {
        assert(s[end] == ',');
        assert(s.skip(end + 1) =~= enc_members(ms.skip(1)) + seq!['}'] + rest);
        lemma_parse_members(ms.skip(1), rest);
        assert(seq![(m0.0, m0.1)] + ms.skip(1) =~= ms);
        assert(enc_members(ms).len() == end + 1 + enc_members(ms.skip(1)).len());
    }
}

/// Law: the canonical encoding loses nothing — parsing the encoding of any
/// value yields exactly that value, covering the whole input.
pub proof fn lemma_round_trip(v: JsonVal)
    ensures
        parse_json(enc_val(v)) == Option::Some(v),
{
    lemma_parse_enc(v, Seq::empty());
    assert(enc_val(v) + Seq::<char>::empty() =~= enc_val(v));
}

/// Law: serializing a job and decoding the result yields an object with
/// the same seven fields and values.
pub proof fn lemma_job_round_trip(j: JobView)
    ensures
        parse_json(enc_val(wire_val(j))) == Option::Some(wire_val(j)),
{
    lemma_round_trip(wire_val(j));
}

} // verus!

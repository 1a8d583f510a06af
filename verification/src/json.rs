//! Tolerant reader for the wire protocol's JSON payloads: whitespace
//! anywhere between tokens, object fields in any order, standard string
//! escapes, and unknown fields left for the caller to ignore. Numbers
//! keep their raw text; callers read them as the type they expect.

use vstd::prelude::*;
use crate::codec::{expect_lit, has_at};
use crate::text::{chars_to_string, is_digit, str_to_chars};

verus! {

/// Nesting allowed in a wire payload before the reader gives up.
pub const MAX_JSON_DEPTH: u32 = 32;

/// A decoded wire value.
#[derive(Debug)]
pub enum Json {
    Null,
    Bool(bool),
    /// A number, kept as its raw text.
    Num(String),
    Str(String),
    Arr(Vec<Json>),
    Obj(Vec<(String, Json)>),
}

/// Mathematical model of a wire value.
pub ghost enum JsonV {
    Null,
    Bool(bool),
    Num(Seq<char>),
    Str(Seq<char>),
    Arr(Seq<JsonV>),
    Obj(Seq<(Seq<char>, JsonV)>),
}

/// The model of a value.
pub open spec fn json_view(j: Json) -> JsonV
    decreases j,
{
    match j {
        Json::Null => JsonV::Null,
        Json::Bool(b) => JsonV::Bool(b),
        Json::Num(s) => JsonV::Num(s@),
        Json::Str(s) => JsonV::Str(s@),
        Json::Arr(v) => JsonV::Arr(json_view_seq(v@)),
        Json::Obj(v) => JsonV::Obj(json_view_entries(v@)),
    }
}

/// The models of a sequence of values.
pub open spec fn json_view_seq(s: Seq<Json>) -> Seq<JsonV>
    decreases s,
{
    if s.len() == 0 {
        Seq::empty()
    } else {
        json_view_seq(s.drop_last()).push(json_view(s.last()))
    }
}

/// The models of a sequence of object entries.
pub open spec fn json_view_entries(s: Seq<(String, Json)>) -> Seq<(Seq<char>, JsonV)>
    decreases s,
{
    if s.len() == 0 {
        Seq::empty()
    } else {
        json_view_entries(s.drop_last()).push((s.last().0@, json_view(s.last().1)))
    }
}

/// Element views are the views of the elements.
pub proof fn lemma_json_view_seq_index(s: Seq<Json>)
    ensures
        json_view_seq(s).len() == s.len(),
        forall|k: int| 0 <= k < s.len() ==> json_view_seq(s)[k] == json_view(#[trigger] s[k]),
    decreases s.len(),
{
    if s.len() > 0 {
        lemma_json_view_seq_index(s.drop_last());
        assert forall|k: int| 0 <= k < s.len() implies json_view_seq(s)[k] == json_view(
            #[trigger] s[k],
        ) by {
            if k < s.len() - 1 {
                assert(json_view_seq(s)[k] == json_view_seq(s.drop_last())[k]);
                assert(s.drop_last()[k] == s[k]);
            } else {
                assert(json_view_seq(s)[k] == json_view(s.last()));
            }
        }
    }
}

/// Entry views are the views of the entries.
pub proof fn lemma_json_view_entries_index(s: Seq<(String, Json)>)
    ensures
        json_view_entries(s).len() == s.len(),
        forall|k: int|
            0 <= k < s.len() ==> json_view_entries(s)[k] == ((#[trigger] s[k]).0@, json_view(
                s[k].1,
            )),
    decreases s.len(),
{
    if s.len() > 0 {
        lemma_json_view_entries_index(s.drop_last());
        assert forall|k: int| 0 <= k < s.len() implies json_view_entries(s)[k] == ((
        #[trigger] s[k]).0@, json_view(s[k].1)) by {
            if k < s.len() - 1 {
                assert(json_view_entries(s)[k] == json_view_entries(s.drop_last())[k]);
                assert(s.drop_last()[k] == s[k]);
            } else {
                assert(json_view_entries(s)[k] == (s.last().0@, json_view(s.last().1)));
            }
        }
    }
}

impl View for Json {
    type V = JsonV;

    open spec fn view(&self) -> JsonV {
        json_view(*self)
    }
}

/// JSON whitespace.
pub open spec fn is_ws(c: char) -> bool {
    c == ' ' || c == '\t' || c == '\n' || c == '\r'
}

/// The first non-whitespace position at or after `i`.
pub open spec fn ws_end(s: Seq<char>, i: int) -> int
    decreases s.len() - i,
{
    if 0 <= i && i < s.len() && is_ws(s[i]) {
        ws_end(s, i + 1)
    } else {
        i
    }
}

/// Skips whitespace.
fn skip_ws(s: &Vec<char>, i: usize) -> (j: usize)
    requires
        i <= s@.len(),
    ensures
        j as int == ws_end(s@, i as int),
        i <= j <= s@.len(),
{
    let mut j = i;
    while j < s.len() && (s[j] == ' ' || s[j] == '\t' || s[j] == '\n' || s[j] == '\r')
        invariant
            i <= j <= s@.len(),
            ws_end(s@, i as int) == ws_end(s@, j as int),
        decreases s@.len() - j,
    {
        j += 1;
    }
    j
}

/// A character of a number token, scanned liberally.
pub open spec fn is_num_char(c: char) -> bool {
    is_digit(c) || c == '-' || c == '+' || c == '.' || c == 'e' || c == 'E'
}

/// The first position at or after `i` that is no number character.
pub open spec fn num_end(s: Seq<char>, i: int) -> int
    decreases s.len() - i,
{
    if 0 <= i && i < s.len() && is_num_char(s[i]) {
        num_end(s, i + 1)
    } else {
        i
    }
}

/// Scans a number token.
fn scan_num(s: &Vec<char>, i: usize) -> (j: usize)
    requires
        i <= s@.len(),
    ensures
        j as int == num_end(s@, i as int),
        i <= j <= s@.len(),
{
    let mut j = i;
    while j < s.len() && (('0' <= s[j] && s[j] <= '9') || s[j] == '-' || s[j] == '+' || s[j] == '.'
        || s[j] == 'e' || s[j] == 'E')
        invariant
            i <= j <= s@.len(),
            num_end(s@, i as int) == num_end(s@, j as int),
        decreases s@.len() - j,
    {
        j += 1;
    }
    j
}

/// A hexadecimal digit.
pub open spec fn is_hex(c: char) -> bool {
    is_digit(c) || ('a' <= c && c <= 'f') || ('A' <= c && c <= 'F')
}

/// The value of a hexadecimal digit.
pub open spec fn hex_digit_val(c: char) -> nat
    recommends
        is_hex(c),
{
    if is_digit(c) {
        (c as nat - '0' as nat) as nat
    } else if 'a' <= c && c <= 'f' {
        (c as nat - 'a' as nat + 10) as nat
    } else {
        (c as nat - 'A' as nat + 10) as nat
    }
}

/// The value of four hexadecimal digits at `i`.
pub open spec fn hex4_val(s: Seq<char>, i: int) -> nat
    recommends
        0 <= i && i + 4 <= s.len(),
{
    hex_digit_val(s[i]) * 0x1000 + hex_digit_val(s[i + 1]) * 0x100 + hex_digit_val(s[i + 2]) * 0x10
        + hex_digit_val(s[i + 3])
}

/// Evaluates one hexadecimal digit.
fn hex_val(c: char) -> (r: u32)
    requires
        is_hex(c),
    ensures
        r == hex_digit_val(c),
        r < 16,
{
    if '0' <= c && c <= '9' {
        (c as u32) - 0x30
    } else if 'a' <= c && c <= 'f' {
        (c as u32) - 0x61 + 10
    } else {
        (c as u32) - 0x41 + 10
    }
}

/// The character a single-letter escape stands for.
pub open spec fn esc_code(e: char) -> Option<char> {
    if e == '"' {
        Some('"')
    } else if e == '\\' {
        Some('\\')
    } else if e == '/' {
        Some('/')
    } else if e == 'n' {
        Some('\n')
    } else if e == 't' {
        Some('\t')
    } else if e == 'r' {
        Some('\r')
    } else if e == 'b' {
        Some('\u{0008}')
    } else if e == 'f' {
        Some('\u{000C}')
    } else {
        None
    }
}

/// Parses the body of a wire string starting just after the opening
/// quote: standard escapes, `\uXXXX` for scalar values outside the
/// surrogate range, and any other character standing for itself.
pub open spec fn parse_jstr_body(s: Seq<char>, i: int) -> Option<(Seq<char>, int)>
    decreases s.len() - i,
{
    if i < 0 || i >= s.len() {
        None
    } else if s[i] == '"' {
        Some((Seq::empty(), i + 1))
    } else if s[i] == '\\' {
        if i + 1 >= s.len() {
            None
        } else if s[i + 1] == 'u' {
            if i + 6 <= s.len() && is_hex(s[i + 2]) && is_hex(s[i + 3]) && is_hex(s[i + 4])
                && is_hex(s[i + 5]) {
                let code = hex4_val(s, i + 2);
                if 0xD800 <= code && code <= 0xDFFF {
                    None
                } else {
                    match parse_jstr_body(s, i + 6) {
                        Some((t, j)) => Some((seq![((code as u32) as char)] + t, j)),
                        None => None,
                    }
                }
            } else {
                None
            }
        } else {
            match esc_code(s[i + 1]) {
                Some(c) => match parse_jstr_body(s, i + 2) {
                    Some((t, j)) => Some((seq![c] + t, j)),
                    None => None,
                },
                None => None,
            }
        }
    } else {
        match parse_jstr_body(s, i + 1) {
            Some((t, j)) => Some((seq![s[i]] + t, j)),
            None => None,
        }
    }
}

/// Decodes an escape character.
fn esc_code_exec(e: char) -> (r: Option<char>)
    ensures
        r == esc_code(e),
{
    if e == '"' {
        Some('"')
    } else if e == '\\' {
        Some('\\')
    } else if e == '/' {
        Some('/')
    } else if e == 'n' {
        Some('\n')
    } else if e == 't' {
        Some('\t')
    } else if e == 'r' {
        Some('\r')
    } else if e == 'b' {
        Some('\u{0008}')
    } else if e == 'f' {
        Some('\u{000C}')
    } else {
        None
    }
}

/// Turns a scalar value into the character with that code.
///
/// Relies on `char::from_u32`: it returns `Some` exactly for valid
/// Unicode scalar values (neither surrogates nor beyond the maximum),
/// and the returned character has the given code.
#[verifier::external_body]
fn char_from_u32(v: u32) -> (r: Option<char>)
    ensures
        r matches Some(c) ==> c as u32 == v,
        (r is Some) <==> (v < 0xD800 || (0xE000 <= v && v <= 0x10FFFF)),
{
    char::from_u32(v)
}

/// Exec mirror of [`parse_jstr_body`].
#[verifier::rlimit(100)]
fn parse_jstr_body_chars(s: &Vec<char>, i: usize) -> (r: Option<(Vec<char>, usize)>)
    ensures
        match parse_jstr_body(s@, i as int) {
            Some(t) => r matches Some(p) && p.0@ == t.0 && p.1 as int == t.1 && p.1 <= s@.len(),
            None => r is None,
        },
    decreases s@.len() - i,
{
    if i >= s.len() {
        return None;
    }
    let c = s[i];
    if c == '"' {
        let v: Vec<char> = Vec::new();
        return Some((v, i + 1));
    }
    if c == '\\' {
        if i + 1 >= s.len() {
            return None;
        }
        let e = s[i + 1];
        if e == 'u' {
            if s.len() - i >= 6 && is_hex_exec(s[i + 2]) && is_hex_exec(s[i + 3]) && is_hex_exec(
                s[i + 4],
            ) && is_hex_exec(s[i + 5]) {
                let code: u32 = hex_val(s[i + 2]) * 0x1000 + hex_val(s[i + 3]) * 0x100 + hex_val(
                    s[i + 4],
                ) * 0x10 + hex_val(s[i + 5]);
                proof {
                    assert(code == hex4_val(s@, i + 2));
                }
                if 0xD800 <= code && code <= 0xDFFF {
                    return None;
                }
                let ch = match char_from_u32(code) {
                    Some(ch) => ch,
                    None => {
                        proof {
                            assert(false);
                        }
                        return None;
                    },
                };
                proof {
                    vstd::utf8::char_u32_cast(ch, code);
                }
                match parse_jstr_body_chars(s, i + 6) {
                    Some((mut v, j)) => {
                        v.insert(0, ch);
                        proof {
                            assert(v@ =~= seq![((hex4_val(s@, i + 2) as u32) as char)]
                                + parse_jstr_body(s@, i + 6)->Some_0.0);
                        }
                        Some((v, j))
                    },
                    None => None,
                }
            } else {
                None
            }
        } else {
            match esc_code_exec(e) {
                Some(d) => match parse_jstr_body_chars(s, i + 2) {
                    Some((mut v, j)) => {
                        v.insert(0, d);
                        proof {
                            assert(v@ =~= seq![esc_code(s@[i + 1])->Some_0] + parse_jstr_body(
                                s@,
                                i + 2,
                            )->Some_0.0);
                        }
                        Some((v, j))
                    },
                    None => None,
                },
                None => None,
            }
        }
    } else {
        match parse_jstr_body_chars(s, i + 1) {
            Some((mut v, j)) => {
                v.insert(0, c);
                proof {
                    assert(v@ =~= seq![s@[i as int]] + parse_jstr_body(s@, i + 1)->Some_0.0);
                }
                Some((v, j))
            },
            None => None,
        }
    }
}

/// Checks a hexadecimal digit.
fn is_hex_exec(c: char) -> (b: bool)
    ensures
        b == is_hex(c),
{
    ('0' <= c && c <= '9') || ('a' <= c && c <= 'f') || ('A' <= c && c <= 'F')
}

/// Parses one wire value at `i`, leading whitespace allowed. `depth`
/// bounds the nesting of arrays and objects.
pub open spec fn spec_parse_value(s: Seq<char>, i: int, depth: nat) -> Option<(JsonV, int)>
    decreases depth, 0nat, 0nat,
{
    let j = ws_end(s, i);
    if j < 0 || j >= s.len() {
        None
    } else if s[j] == '{' {
        if depth == 0 {
            None
        } else {
            let k = ws_end(s, j + 1);
            if k < s.len() && s[k] == '}' {
                Some((JsonV::Obj(Seq::empty()), k + 1))
            } else {
                match spec_parse_entries(s, j + 1, (depth - 1) as nat, s.len() as nat) {
                    Some((es, m)) => Some((JsonV::Obj(es), m)),
                    None => None,
                }
            }
        }
    } else if s[j] == '[' {
        if depth == 0 {
            None
        } else {
            let k = ws_end(s, j + 1);
            if k < s.len() && s[k] == ']' {
                Some((JsonV::Arr(Seq::empty()), k + 1))
            } else {
                match spec_parse_elems(s, j + 1, (depth - 1) as nat, s.len() as nat) {
                    Some((vs, m)) => Some((JsonV::Arr(vs), m)),
                    None => None,
                }
            }
        }
    } else if s[j] == '"' {
        match parse_jstr_body(s, j + 1) {
            Some((t, m)) => Some((JsonV::Str(t), m)),
            None => None,
        }
    } else if has_at(s, j, "true"@) {
        Some((JsonV::Bool(true), j + "true"@.len()))
    } else if has_at(s, j, "false"@) {
        Some((JsonV::Bool(false), j + "false"@.len()))
    } else if has_at(s, j, "null"@) {
        Some((JsonV::Null, j + "null"@.len()))
    } else if s[j] == '-' || is_digit(s[j]) {
        let m = num_end(s, j);
        Some((JsonV::Num(s.subrange(j, m)), m))
    } else {
        None
    }
}

/// Parses the elements of an array, starting after the opening bracket
/// (the empty array is handled by the caller); ends at the closing
/// bracket. The fuel only bounds recursion; one unit buys one element.
pub open spec fn spec_parse_elems(s: Seq<char>, i: int, depth: nat, fuel: nat) -> Option<
    (Seq<JsonV>, int),
>
    decreases depth, fuel, 1nat,
{
    if fuel == 0 {
        None
    } else {
        match spec_parse_value(s, i, depth) {
            None => None,
            Some((v, j)) => {
                let k = ws_end(s, j);
                if k < s.len() && s[k] == ',' {
                    match spec_parse_elems(s, k + 1, depth, (fuel - 1) as nat) {
                        Some((vs, m)) => Some((seq![v] + vs, m)),
                        None => None,
                    }
                } else if k < s.len() && s[k] == ']' {
                    Some((seq![v], k + 1))
                } else {
                    None
                }
            },
        }
    }
}

/// Parses the entries of an object, starting after the opening brace
/// (the empty object is handled by the caller); ends at the closing
/// brace. The fuel only bounds recursion; one unit buys one entry.
pub open spec fn spec_parse_entries(s: Seq<char>, i: int, depth: nat, fuel: nat) -> Option<
    (Seq<(Seq<char>, JsonV)>, int),
>
    decreases depth, fuel, 1nat,
{
    if fuel == 0 {
        None
    } else {
        let j = ws_end(s, i);
        if j < 0 || j >= s.len() || s[j] != '"' {
            None
        } else {
            match parse_jstr_body(s, j + 1) {
                None => None,
                Some((key, j2)) => {
                    let j3 = ws_end(s, j2);
                    if j3 >= s.len() || s[j3] != ':' {
                        None
                    } else {
                        match spec_parse_value(s, j3 + 1, depth) {
                            None => None,
                            Some((v, j4)) => {
                                let j5 = ws_end(s, j4);
                                if j5 < s.len() && s[j5] == ',' {
                                    match spec_parse_entries(s, j5 + 1, depth, (fuel - 1) as nat) {
                                        Some((es, m)) => Some((seq![(key, v)] + es, m)),
                                        None => None,
                                    }
                                } else if j5 < s.len() && s[j5] == '}' {
                                    Some((seq![(key, v)], j5 + 1))
                                } else {
                                    None
                                }
                            },
                        }
                    }
                },
            }
        }
    }
}

/// Copies a range of characters.
fn copy_range(s: &Vec<char>, from: usize, to: usize) -> (r: Vec<char>)
    requires
        from <= to <= s@.len(),
    ensures
        r@ == s@.subrange(from as int, to as int),
{
    let mut r: Vec<char> = Vec::new();
    let mut k = from;
    proof {
        assert(r@ =~= s@.subrange(from as int, from as int));
    }
    while k < to
        invariant
            from <= k <= to <= s@.len(),
            r@ == s@.subrange(from as int, k as int),
        decreases to - k,
    {
        r.push(s[k]);
        proof {
            assert(r@ =~= s@.subrange(from as int, k + 1));
        }
        k += 1;
    }
    r
}

/// Exec mirror of [`spec_parse_value`].
#[verifier::rlimit(100)]
pub fn parse_value(s: &Vec<char>, i: usize, depth: u32) -> (r: Option<(Json, usize)>)
    requires
        i <= s@.len(),
    ensures
        match spec_parse_value(s@, i as int, depth as nat) {
            Some(t) => r matches Some(p) && json_view(p.0) == t.0 && p.1 as int == t.1 && p.1
                <= s@.len(),
            None => r is None,
        },
    decreases depth, 0int, 0int,
{
    let j = skip_ws(s, i);
    if j >= s.len() {
        return None;
    }
    let c = s[j];
    if c == '{' {
        if depth == 0 {
            return None;
        }
        let k = skip_ws(s, j + 1);
        if k < s.len() && s[k] == '}' {
            let es: Vec<(String, Json)> = Vec::new();
            proof {
                assert(json_view_entries(es@) =~= Seq::<(Seq<char>, JsonV)>::empty());
            }
            return Some((Json::Obj(es), k + 1));
        }
        match parse_entries(s, j + 1, depth - 1, s.len()) {
            Some((es, m)) => Some((Json::Obj(es), m)),
            None => None,
        }
    } else if c == '[' {
        if depth == 0 {
            return None;
        }
        let k = skip_ws(s, j + 1);
        if k < s.len() && s[k] == ']' {
            let vs: Vec<Json> = Vec::new();
            proof {
                assert(json_view_seq(vs@) =~= Seq::<JsonV>::empty());
            }
            return Some((Json::Arr(vs), k + 1));
        }
        match parse_elems(s, j + 1, depth - 1, s.len()) {
            Some((vs, m)) => Some((Json::Arr(vs), m)),
            None => None,
        }
    } else if c == '"' {
        match parse_jstr_body_chars(s, j + 1) {
            Some((t, m)) => Some((Json::Str(chars_to_string(&t)), m)),
            None => None,
        }
    } else {
        match expect_lit(s, j, "true") {
            Some(m) => {
                return Some((Json::Bool(true), m));
            },
            None => {},
        }
        match expect_lit(s, j, "false") {
            Some(m) => {
                return Some((Json::Bool(false), m));
            },
            None => {},
        }
        match expect_lit(s, j, "null") {
            Some(m) => {
                return Some((Json::Null, m));
            },
            None => {},
        }
        if c == '-' || ('0' <= c && c <= '9') {
            let m = scan_num(s, j);
            let raw = copy_range(s, j, m);
            Some((Json::Num(chars_to_string(&raw)), m))
        } else {
            None
        }
    }
}

/// Exec mirror of [`spec_parse_elems`].
#[verifier::rlimit(100)]
fn parse_elems(s: &Vec<char>, i: usize, depth: u32, fuel: usize) -> (r: Option<(Vec<Json>, usize)>)
    requires
        i <= s@.len(),
    ensures
        match spec_parse_elems(s@, i as int, depth as nat, fuel as nat) {
            Some(t) => r matches Some(p) && json_view_seq(p.0@) == t.0 && p.1 as int == t.1 && p.1
                <= s@.len(),
            None => r is None,
        },
    decreases depth, fuel, 1int,
{
    if fuel == 0 {
        return None;
    }
    match parse_value(s, i, depth) {
        None => None,
        Some((v, j)) => {
            let k = skip_ws(s, j);
            if k < s.len() && s[k] == ',' {
                match parse_elems(s, k + 1, depth, fuel - 1) {
                    Some((mut vs, m)) => {
                        let ghost bv = vs@;
                        vs.insert(0, v);
                        proof {
                            lemma_json_view_seq_index(bv);
                            lemma_json_view_seq_index(vs@);
                            assert(vs@.len() == bv.len() + 1);
                            assert forall|k: int| 0 <= k < vs@.len() implies json_view_seq(
                                vs@,
                            )[k] == (seq![json_view(v)] + json_view_seq(bv))[k] by {
                                assert(json_view_seq(vs@)[k] == json_view(vs@[k]));
                                if k == 0 {
                                    assert(vs@[0] == v);
                                } else {
                                    assert(vs@[k] == bv[k - 1]);
                                    assert(json_view_seq(bv)[k - 1] == json_view(bv[k - 1]));
                                }
                            }
                            assert(json_view_seq(vs@) =~= seq![json_view(v)] + json_view_seq(bv));
                        }
                        Some((vs, m))
                    },
                    None => None,
                }
            } else if k < s.len() && s[k] == ']' {
                let mut vs: Vec<Json> = Vec::new();
                vs.push(v);
                proof {
                    lemma_json_view_seq_index(vs@);
                    assert(json_view_seq(vs@) =~= seq![json_view(v)]);
                }
                Some((vs, k + 1))
            } else {
                None
            }
        },
    }
}

/// Exec mirror of [`spec_parse_entries`].
#[verifier::rlimit(100)]
fn parse_entries(s: &Vec<char>, i: usize, depth: u32, fuel: usize) -> (r: Option<
    (Vec<(String, Json)>, usize),
>)
    requires
        i <= s@.len(),
    ensures
        match spec_parse_entries(s@, i as int, depth as nat, fuel as nat) {
            Some(t) => r matches Some(p) && json_view_entries(p.0@) == t.0 && p.1 as int == t.1
                && p.1 <= s@.len(),
            None => r is None,
        },
    decreases depth, fuel, 1int,
{
    if fuel == 0 {
        return None;
    }
    let j = skip_ws(s, i);
    if j >= s.len() {
        return None;
    }
    if s[j] != '"' {
        return None;
    }
    match parse_jstr_body_chars(s, j + 1) {
        None => None,
        Some((kv, j2)) => {
            let j3 = skip_ws(s, j2);
            if j3 >= s.len() {
                return None;
            }
            if s[j3] != ':' {
                return None;
            }
            match parse_value(s, j3 + 1, depth) {
                None => None,
                Some((v, j4)) => {
                    let j5 = skip_ws(s, j4);
                    if j5 < s.len() && s[j5] == ',' {
                        match parse_entries(s, j5 + 1, depth, fuel - 1) {
                            Some((mut es, m)) => {
                                let key = chars_to_string(&kv);
                                let ghost bv = es@;
                                es.insert(0, (key, v));
                                proof {
                                    lemma_json_view_entries_index(bv);
                                    lemma_json_view_entries_index(es@);
                                    assert(es@.len() == bv.len() + 1);
                                    assert forall|k: int|
                                        0 <= k < es@.len() implies json_view_entries(es@)[k] == (
                                    seq![(kv@, json_view(v))] + json_view_entries(bv))[k] by {
                                        assert(json_view_entries(es@)[k] == (
                                            es@[k].0@,
                                            json_view(es@[k].1),
                                        ));
                                        if k == 0 {
                                            assert(es@[0].0@ == kv@ && es@[0].1 == v);
                                        } else {
                                            assert(es@[k] == bv[k - 1]);
                                            assert(json_view_entries(bv)[k - 1] == (
                                                bv[k - 1].0@,
                                                json_view(bv[k - 1].1),
                                            ));
                                        }
                                    }
                                    assert(json_view_entries(es@) =~= seq![
                                        (kv@, json_view(v)),
                                    ] + json_view_entries(bv));
                                }
                                Some((es, m))
                            },
                            None => None,
                        }
                    } else if j5 < s.len() && s[j5] == '}' {
                        let key = chars_to_string(&kv);
                        let mut es: Vec<(String, Json)> = Vec::new();
                        es.push((key, v));
                        proof {
                            lemma_json_view_entries_index(es@);
                            assert(json_view_entries(es@) =~= seq![(kv@, json_view(v))]);
                        }
                        Some((es, j5 + 1))
                    } else {
                        None
                    }
                },
            }
        },
    }
}

/// Parses one whole wire payload: a single value with nothing but
/// whitespace around it.
pub open spec fn spec_parse_document(t: Seq<char>) -> Option<JsonV> {
    match spec_parse_value(t, 0, MAX_JSON_DEPTH as nat) {
        Some((v, j)) => if ws_end(t, j) == t.len() {
            Some(v)
        } else {
            None
        },
        None => None,
    }
}

/// Reads one whole wire payload.
pub fn parse_json_document(text: &str) -> (r: Option<Json>)
    ensures
        match spec_parse_document(text@) {
            Some(v) => r matches Some(p) && json_view(p) == v,
            None => r is None,
        },
{
    let chars = str_to_chars(text);
    match parse_value(&chars, 0, MAX_JSON_DEPTH) {
        Some((v, j)) => {
            let k = skip_ws(&chars, j);
            if k == chars.len() {
                Some(v)
            } else {
                None
            }
        },
        None => None,
    }
}

/// The value of the first entry under `key`, if any.
pub open spec fn obj_get(es: Seq<(Seq<char>, JsonV)>, key: Seq<char>) -> Option<JsonV>
    decreases es.len(),
{
    if es.len() == 0 {
        None
    } else if es.first().0 == key {
        Some(es.first().1)
    } else {
        obj_get(es.drop_first(), key)
    }
}

/// A scan that skipped mismatching keys finds what the lookup finds.
proof fn lemma_obj_get_skip(es: Seq<(Seq<char>, JsonV)>, key: Seq<char>, idx: int)
    requires
        0 <= idx <= es.len(),
        forall|k: int| 0 <= k < idx ==> (#[trigger] es[k]).0 != key,
    ensures
        obj_get(es, key) == obj_get(es.subrange(idx, es.len() as int), key),
    decreases idx,
{
    if idx > 0 {
        assert(es.first().0 != key);
        lemma_obj_get_skip(es.drop_first(), key, idx - 1);
        assert(es.drop_first().subrange(idx - 1, es.drop_first().len() as int) =~= es.subrange(
            idx,
            es.len() as int,
        ));
    } else {
        assert(es.subrange(0, es.len() as int) =~= es);
    }
}

/// Looks up a field of an object by key; the first entry wins.
pub fn get_field<'a>(es: &'a Vec<(String, Json)>, key: &str) -> (r: Option<&'a Json>)
    ensures
        match obj_get(json_view_entries(es@), key@) {
            Some(v) => r matches Some(p) && json_view(*p) == v,
            None => r is None,
        },
{
    let ghost evs = json_view_entries(es@);
    proof {
        lemma_json_view_entries_index(es@);
    }
    let mut idx: usize = 0;
    while idx < es.len()
        invariant
            idx <= es@.len(),
            evs == json_view_entries(es@),
            evs.len() == es@.len(),
            forall|k: int| 0 <= k < es@.len() ==> evs[k] == ((#[trigger] es@[k]).0@, json_view(
                es@[k].1,
            )),
            forall|k: int| 0 <= k < idx ==> (#[trigger] evs[k]).0 != key@,
        decreases es@.len() - idx,
    {
        if crate::text::str_eq(es[idx].0.as_str(), key) {
            proof {
                lemma_obj_get_skip(evs, key@, idx as int);
                let rest = evs.subrange(idx as int, evs.len() as int);
                assert(rest.first() == evs[idx as int]);
            }
            return Some(&es[idx].1);
        }
        idx += 1;
    }
    proof {
        lemma_obj_get_skip(evs, key@, evs.len() as int);
        assert(evs.subrange(evs.len() as int, evs.len() as int) =~= Seq::<
            (Seq<char>, JsonV),
        >::empty());
    }
    None
}

/// A hexadecimal digit character, lower case.
pub open spec fn hex_char(n: nat) -> char
    recommends
        n < 16,
{
    if n < 10 {
        ((0x30 + n) as u8) as char
    } else {
        ((0x61 + (n - 10)) as u8) as char
    }
}

/// How one character is written inside an emitted wire string: the
/// named escapes for quote, backslash and common control characters,
/// `\u00XX` for the other control characters, everything else itself.
pub open spec fn jesc_char(c: char) -> Seq<char> {
    if c == '"' {
        seq!['\\', '"']
    } else if c == '\\' {
        seq!['\\', '\\']
    } else if c == '\n' {
        seq!['\\', 'n']
    } else if c == '\t' {
        seq!['\\', 't']
    } else if c == '\r' {
        seq!['\\', 'r']
    } else if (c as nat) < 0x20 {
        seq!['\\', 'u', '0', '0', hex_char(c as nat / 16), hex_char(c as nat % 16)]
    } else {
        seq![c]
    }
}

/// The escaped form of an emitted wire string body.
pub open spec fn jesc(s: Seq<char>) -> Seq<char>
    decreases s.len(),
{
    if s.len() == 0 {
        Seq::empty()
    } else {
        jesc_char(s.first()) + jesc(s.drop_first())
    }
}

/// Escaping distributes over appending one character at the back.
pub proof fn lemma_jesc_snoc(s: Seq<char>, c: char)
    ensures
        jesc(s.push(c)) == jesc(s) + jesc_char(c),
    decreases s.len(),
{
    if s.len() == 0 {
        assert(s.push(c).first() == c);
        assert(s.push(c).drop_first() =~= Seq::<char>::empty());
        assert(jesc(s.push(c)) == jesc_char(c) + jesc(Seq::<char>::empty()));
        assert(jesc(s.push(c)) =~= jesc(s) + jesc_char(c));
    } else {
        assert(s.push(c).first() == s.first());
        assert(s.push(c).drop_first() =~= s.drop_first().push(c));
        lemma_jesc_snoc(s.drop_first(), c);
        assert(jesc(s.push(c)) =~= jesc(s) + jesc_char(c));
    }
}

/// A quoted, escaped wire string.
pub open spec fn emit_jstr(s: Seq<char>) -> Seq<char> {
    seq!['"'] + jesc(s) + seq!['"']
}

/// Appends the quoted, escaped wire form of `s` to `out`.
pub fn emit_jstr_chars(s: &str, out: &mut Vec<char>)
    ensures
        final(out)@ == old(out)@ + emit_jstr(s@),
{
    out.push('"');
    let n = s.unicode_len();
    let mut i: usize = 0;
    proof {
        assert(s@.subrange(0, 0) =~= Seq::<char>::empty());
        assert(out@ =~= old(out)@ + seq!['"'] + jesc(s@.subrange(0, 0)));
    }
    while i < n
        invariant
            i <= n,
            n == s@.len(),
            out@ == old(out)@ + seq!['"'] + jesc(s@.subrange(0, i as int)),
        decreases n - i,
    {
        let c = s.get_char(i);
        if c == '"' {
            out.push('\\');
            out.push('"');
        } else if c == '\\' {
            out.push('\\');
            out.push('\\');
        } else if c == '\n' {
            out.push('\\');
            out.push('n');
        } else if c == '\t' {
            out.push('\\');
            out.push('t');
        } else if c == '\r' {
            out.push('\\');
            out.push('r');
        } else if (c as u32) < 0x20 {
            out.push('\\');
            out.push('u');
            out.push('0');
            out.push('0');
            let hi = (c as u32) / 16;
            let lo = (c as u32) % 16;
            out.push(
                if hi < 10 {
                    ((0x30 + hi) as u8) as char
                } else {
                    ((0x61 + (hi - 10)) as u8) as char
                },
            );
            out.push(
                if lo < 10 {
                    ((0x30 + lo) as u8) as char
                } else {
                    ((0x61 + (lo - 10)) as u8) as char
                },
            );
        } else {
            out.push(c);
        }
        proof {
            lemma_jesc_snoc(s@.subrange(0, i as int), s@[i as int]);
            assert(s@.subrange(0, i + 1) =~= s@.subrange(0, i as int).push(s@[i as int]));
            assert(out@ =~= old(out)@ + seq!['"'] + jesc(s@.subrange(0, i + 1)));
        }
        i += 1;
    }
    out.push('"');
    proof {
        assert(s@.subrange(0, n as int) =~= s@);
        assert(out@ =~= old(out)@ + emit_jstr(s@));
    }
}

} // verus!

//! Primitives of the textual codecs: string escaping and unescaping,
//! decimal number fields, and literal matching, each with an exec
//! implementation proved against a definitional spec, and the inversion
//! lemmas used for the storage round trip.

use vstd::prelude::*;
use crate::text::{digits_to_u64, digits_value, is_digit, lemma_digits_value_of_u64_digits,
    lemma_u64_digits_are_digits, u64_digits};

verus! {

/// How one character is written inside a quoted string: backslash and
/// quote get a backslash prefix, everything else stands for itself.
pub open spec fn esc_char(c: char) -> Seq<char> {
    if c == '\\' {
        seq!['\\', '\\']
    } else if c == '"' {
        seq!['\\', '"']
    } else {
        seq![c]
    }
}

/// The escaped form of a character sequence.
pub open spec fn esc(s: Seq<char>) -> Seq<char>
    decreases s.len(),
{
    if s.len() == 0 {
        Seq::empty()
    } else {
        esc_char(s.first()) + esc(s.drop_first())
    }
}

/// Escaping distributes over appending one character at the back.
pub proof fn lemma_esc_snoc(s: Seq<char>, c: char)
    ensures
        esc(s.push(c)) == esc(s) + esc_char(c),
    decreases s.len(),
{
    if s.len() == 0 {
        assert(s.push(c).first() == c);
        assert(s.push(c).drop_first() =~= Seq::<char>::empty());
        assert(esc(s.push(c)) == esc_char(c) + esc(Seq::<char>::empty()));
        assert(esc(s.push(c)) =~= esc(s) + esc_char(c));
    } else {
        assert(s.push(c).first() == s.first());
        assert(s.push(c).drop_first() =~= s.drop_first().push(c));
        lemma_esc_snoc(s.drop_first(), c);
        assert(esc(s.push(c)) =~= esc(s) + esc_char(c));
    }
}

/// A quoted, escaped string field.
pub open spec fn emit_string(s: Seq<char>) -> Seq<char> {
    seq!['"'] + esc(s) + seq!['"']
}

/// Appends the quoted, escaped form of `s` to `out`.
pub fn emit_string_chars(s: &str, out: &mut Vec<char>)
    ensures
        final(out)@ == old(out)@ + emit_string(s@),
{
    out.push('"');
    let n = s.unicode_len();
    let mut i: usize = 0;
    proof {
        assert(s@.subrange(0, 0) =~= Seq::<char>::empty());
        assert(out@ =~= old(out)@ + seq!['"'] + esc(s@.subrange(0, 0)));
    }
    while i < n
        invariant
            i <= n,
            n == s@.len(),
            out@ == old(out)@ + seq!['"'] + esc(s@.subrange(0, i as int)),
        decreases n - i,
    {
        let c = s.get_char(i);
        if c == '\\' {
            out.push('\\');
            out.push('\\');
        } else if c == '"' {
            out.push('\\');
            out.push('"');
        } else {
            out.push(c);
        }
        proof {
            lemma_esc_snoc(s@.subrange(0, i as int), s@[i as int]);
            assert(s@.subrange(0, i + 1) =~= s@.subrange(0, i as int).push(s@[i as int]));
            assert(out@ =~= old(out)@ + seq!['"'] + esc(s@.subrange(0, i + 1)));
        }
        i += 1;
    }
    out.push('"');
    proof {
        assert(s@.subrange(0, n as int) =~= s@);
        assert(out@ =~= old(out)@ + emit_string(s@));
    }
}

/// Parses the body of a quoted string starting just after the opening
/// quote; yields the unescaped content and the position just after the
/// closing quote.
pub open spec fn parse_str_body(s: Seq<char>, i: int) -> Option<(Seq<char>, int)>
    decreases s.len() - i,
{
    if i < 0 || i >= s.len() {
        None
    } else if s[i] == '"' {
        Some((Seq::empty(), i + 1))
    } else if s[i] == '\\' {
        if i + 1 < s.len() && (s[i + 1] == '\\' || s[i + 1] == '"') {
            match parse_str_body(s, i + 2) {
                Some((t, j)) => Some((seq![s[i + 1]] + t, j)),
                None => None,
            }
        } else {
            None
        }
    } else {
        match parse_str_body(s, i + 1) {
            Some((t, j)) => Some((seq![s[i]] + t, j)),
            None => None,
        }
    }
}

/// A successful string-body parse always advances within bounds.
pub proof fn lemma_parse_str_body_advances(s: Seq<char>, i: int)
    ensures
        parse_str_body(s, i) matches Some(r) ==> i < r.1 <= s.len(),
    decreases s.len() - i,
{
    if 0 <= i < s.len() {
        if s[i] == '\\' {
            if i + 1 < s.len() {
                lemma_parse_str_body_advances(s, i + 2);
            }
        } else {
            lemma_parse_str_body_advances(s, i + 1);
        }
    }
}

/// Exec mirror of [`parse_str_body`].
pub fn parse_str_body_chars(s: &Vec<char>, i: usize) -> (r: Option<(Vec<char>, usize)>)
    ensures
        match parse_str_body(s@, i as int) {
            Some(t) => r matches Some(p) && p.0@ == t.0 && p.1 as int == t.1,
            None => r is None,
        },
    decreases s@.len() - i,
{
    if i >= s.len() {
        return None;
    }
    let c = s[i];
    if c == '"' {
        let v: Vec<char> = Vec::new();
        return Some((v, i + 1));
    }
    if c == '\\' {
        if i + 1 < s.len() && (s[i + 1] == '\\' || s[i + 1] == '"') {
            let c2 = s[i + 1];
            match parse_str_body_chars(s, i + 2) {
                Some((mut v, j)) => {
                    v.insert(0, c2);
                    proof {
                        assert(v@ =~= seq![s@[i + 1]] + parse_str_body(s@, i + 2)->Some_0.0);
                    }
                    Some((v, j))
                },
                None => None,
            }
        } else {
            None
        }
    } else {
        match parse_str_body_chars(s, i + 1) {
            Some((mut v, j)) => {
                v.insert(0, c);
                proof {
                    assert(v@ =~= seq![s@[i as int]] + parse_str_body(s@, i + 1)->Some_0.0);
                }
                Some((v, j))
            },
            None => None,
        }
    }
}

/// Parses a quoted string field at `i` (opening quote included).
pub open spec fn parse_string(s: Seq<char>, i: int) -> Option<(Seq<char>, int)> {
    if 0 <= i < s.len() && s[i] == '"' {
        parse_str_body(s, i + 1)
    } else {
        None
    }
}

/// Exec mirror of [`parse_string`].
pub fn parse_string_chars(s: &Vec<char>, i: usize) -> (r: Option<(Vec<char>, usize)>)
    ensures
        match parse_string(s@, i as int) {
            Some(t) => r matches Some(p) && p.0@ == t.0 && p.1 as int == t.1,
            None => r is None,
        },
{
    if i < s.len() && s[i] == '"' {
        parse_str_body_chars(s, i + 1)
    } else {
        None
    }
}

/// A successful string parse always advances within bounds.
pub proof fn lemma_parse_string_advances(s: Seq<char>, i: int)
    ensures
        parse_string(s, i) matches Some(r) ==> i < r.1 <= s.len(),
{
    lemma_parse_str_body_advances(s, i + 1);
}

/// Parsing inverts escaping: an escaped body followed by a closing quote
/// parses back to the original content.
pub proof fn lemma_parse_str_body_of_esc(t: Seq<char>, s: Seq<char>, i: int)
    requires
        0 <= i,
        i + esc(t).len() + 1 <= s.len(),
        s.subrange(i, i + esc(t).len()) == esc(t),
        s[i + esc(t).len()] == '"',
    ensures
        parse_str_body(s, i) == Some((t, i + esc(t).len() + 1)),
    decreases t.len(),
{
    if t.len() == 0 {
        assert(s[i] == '"');
    } else {
        let c = t.first();
        let rest = t.drop_first();
        let ec = esc_char(c);
        let el = esc(t).len() as int;
        assert(esc(t) == ec + esc(rest));
        assert forall|k: int| 0 <= k < el implies s[i + k] == esc(t)[k] by {
            assert(s.subrange(i, i + el)[k] == s[i + k]);
        }
        let i2 = i + ec.len();
        assert(s.subrange(i2, i2 + esc(rest).len()) =~= esc(rest)) by {
            assert forall|k: int| 0 <= k < esc(rest).len() implies s.subrange(
                i2,
                i2 + esc(rest).len(),
            )[k] == esc(rest)[k] by {
                assert(s.subrange(i2, i2 + esc(rest).len())[k] == s[i2 + k]);
                assert(esc(t)[ec.len() + k] == esc(rest)[k]);
            }
        }
        lemma_parse_str_body_of_esc(rest, s, i2);
        assert(t =~= seq![c] + rest);
        assert(s[i + 0] == esc(t)[0]);
        assert(esc(t)[0] == ec[0]);
        if c == '\\' {
            assert(ec == seq!['\\', '\\']);
            assert(s[i] == '\\');
            assert(s[i + 1] == esc(t)[1]);
            assert(esc(t)[1] == ec[1]);
            assert(s[i + 1] == '\\');
        } else if c == '"' {
            assert(ec == seq!['\\', '"']);
            assert(s[i] == '\\');
            assert(s[i + 1] == esc(t)[1]);
            assert(esc(t)[1] == ec[1]);
            assert(s[i + 1] == '"');
        } else {
            assert(ec == seq![c]);
            assert(s[i] == c);
        }
    }
}

/// Parsing inverts emission for whole quoted strings.
pub proof fn lemma_parse_string_of_emit(t: Seq<char>, s: Seq<char>, i: int)
    requires
        0 <= i,
        i + emit_string(t).len() <= s.len(),
        s.subrange(i, i + emit_string(t).len()) == emit_string(t),
    ensures
        parse_string(s, i) == Some((t, i + emit_string(t).len())),
{
    let el = emit_string(t).len() as int;
    assert forall|k: int| 0 <= k < el implies s[i + k] == emit_string(t)[k] by {
        assert(s.subrange(i, i + el)[k] == s[i + k]);
    }
    assert(s[i + 0] == emit_string(t)[0]);
    assert(emit_string(t)[0] == '"');
    assert(s[i] == '"');
    assert(s.subrange(i + 1, i + 1 + esc(t).len()) =~= esc(t)) by {
        assert forall|k: int| 0 <= k < esc(t).len() implies s.subrange(
            i + 1,
            i + 1 + esc(t).len(),
        )[k] == esc(t)[k] by {
            assert(s.subrange(i + 1, i + 1 + esc(t).len())[k] == s[i + 1 + k]);
            assert(emit_string(t)[1 + k] == esc(t)[k]);
        }
    }
    assert(s[i + 1 + esc(t).len()] == '"') by {
        assert(emit_string(t)[1 + esc(t).len() as int] == '"');
    }
    lemma_parse_str_body_of_esc(t, s, i + 1);
}

/// The position of the first non-digit at or after `i`.
pub open spec fn digits_end(s: Seq<char>, i: int) -> int
    decreases s.len() - i,
{
    if 0 <= i && i < s.len() && is_digit(s[i]) {
        digits_end(s, i + 1)
    } else {
        i
    }
}

/// Basic facts about [`digits_end`].
pub proof fn lemma_digits_end_bounds(s: Seq<char>, i: int)
    requires
        0 <= i <= s.len(),
    ensures
        i <= digits_end(s, i) <= s.len(),
        forall|k: int| i <= k < digits_end(s, i) ==> is_digit(#[trigger] s[k]),
        digits_end(s, i) == s.len() || !is_digit(s[digits_end(s, i)]),
    decreases s.len() - i,
{
    if i < s.len() && is_digit(s[i]) {
        lemma_digits_end_bounds(s, i + 1);
    }
}

/// If the characters from `i` to `m` are digits and `m` sits at the end or
/// before a non-digit, then `m` is where the digits end.
pub proof fn lemma_digits_end_at(s: Seq<char>, i: int, m: int)
    requires
        0 <= i <= m <= s.len(),
        forall|k: int| i <= k < m ==> is_digit(#[trigger] s[k]),
        m == s.len() || !is_digit(s[m]),
    ensures
        digits_end(s, i) == m,
    decreases m - i,
{
    if i < m {
        lemma_digits_end_at(s, i + 1, m);
    }
}

/// Parses an unsigned decimal number field at `i`; fails on an absent
/// digit run or on a value that does not fit in a `u64`.
pub open spec fn parse_number(s: Seq<char>, i: int) -> Option<(u64, int)> {
    let j = digits_end(s, i);
    if j == i {
        None
    } else if digits_value(s.subrange(i, j)) > u64::MAX {
        None
    } else {
        Some((digits_value(s.subrange(i, j)) as u64, j))
    }
}

/// Exec mirror of [`parse_number`].
pub fn parse_number_chars(s: &Vec<char>, i: usize) -> (r: Option<(u64, usize)>)
    requires
        i <= s@.len(),
    ensures
        match parse_number(s@, i as int) {
            Some(t) => r matches Some(p) && p.0 == t.0 && p.1 as int == t.1,
            None => r is None,
        },
{
    let mut j = i;
    while j < s.len() && '0' <= s[j] && s[j] <= '9'
        invariant
            i <= j <= s@.len(),
            forall|k: int| i <= k < j ==> is_digit(#[trigger] s@[k]),
            digits_end(s@, i as int) == digits_end(s@, j as int),
        decreases s@.len() - j,
    {
        j += 1;
    }
    proof {
        lemma_digits_end_at(s@, j as int, j as int);
    }
    if j == i {
        return None;
    }
    match digits_to_u64(s, i, j) {
        Some(v) => Some((v, j)),
        None => None,
    }
}

/// Parsing inverts emission for decimal number fields.
pub proof fn lemma_parse_number_of_digits(n: u64, s: Seq<char>, i: int)
    requires
        0 <= i,
        i + u64_digits(n as nat).len() <= s.len(),
        s.subrange(i, i + u64_digits(n as nat).len()) == u64_digits(n as nat),
        i + u64_digits(n as nat).len() == s.len() || !is_digit(
            s[i + u64_digits(n as nat).len()],
        ),
    ensures
        parse_number(s, i) == Some((n, i + u64_digits(n as nat).len())),
{
    let d = u64_digits(n as nat);
    let m = i + d.len();
    lemma_u64_digits_are_digits(n as nat);
    assert forall|k: int| i <= k < m implies is_digit(#[trigger] s[k]) by {
        assert(s.subrange(i, m)[k - i] == s[k]);
        assert(d[k - i] == s.subrange(i, m)[k - i]);
    }
    lemma_digits_end_at(s, i, m);
    lemma_digits_value_of_u64_digits(n as nat);
}

/// Whether the characters of `x` stand at position `i` of `s`.
pub open spec fn has_at(s: Seq<char>, i: int, x: Seq<char>) -> bool {
    0 <= i && i + x.len() <= s.len() && s.subrange(i, i + x.len()) == x
}

/// Splitting a match: if a concatenation stands at `i`, its parts stand
/// at `i` and just after the first part.
pub proof fn lemma_has_at_split(s: Seq<char>, i: int, a: Seq<char>, b: Seq<char>)
    requires
        has_at(s, i, a + b),
    ensures
        has_at(s, i, a),
        has_at(s, i + a.len(), b),
{
    let ab = a + b;
    assert forall|k: int| 0 <= k < ab.len() implies s[i + k] == ab[k] by {
        assert(s.subrange(i, i + ab.len())[k] == s[i + k]);
    }
    assert(s.subrange(i, i + a.len()) =~= a) by {
        assert forall|k: int| 0 <= k < a.len() implies s.subrange(i, i + a.len())[k] == a[k] by {
            assert(s.subrange(i, i + a.len())[k] == s[i + k]);
            assert(ab[k] == a[k]);
        }
    }
    assert(s.subrange(i + a.len(), i + a.len() + b.len()) =~= b) by {
        assert forall|k: int| 0 <= k < b.len() implies s.subrange(
            i + a.len(),
            i + a.len() + b.len(),
        )[k] == b[k] by {
            assert(s.subrange(i + a.len(), i + a.len() + b.len())[k] == s[i + a.len() + k]);
            assert(ab[a.len() + k] == b[k]);
        }
    }
}

/// The first character of a match.
pub proof fn lemma_has_at_first(s: Seq<char>, i: int, x: Seq<char>)
    requires
        has_at(s, i, x),
        x.len() > 0,
    ensures
        s[i] == x[0],
        i < s.len(),
{
    assert(s.subrange(i, i + x.len())[0] == s[i]);
}

/// Consumes the exact literal `lit` at position `i`, if present.
pub fn expect_lit(s: &Vec<char>, i: usize, lit: &str) -> (r: Option<usize>)
    requires
        i <= s@.len(),
    ensures
        match r {
            Some(j) => has_at(s@, i as int, lit@) && j as int == i + lit@.len(),
            None => !has_at(s@, i as int, lit@),
        },
{
    let n = lit.unicode_len();
    let slen = s.len();
    if n > slen - i {
        return None;
    }
    let mut k: usize = 0;
    while k < n
        invariant
            k <= n,
            n == lit@.len(),
            slen == s@.len(),
            i + n <= slen,
            forall|q: int| 0 <= q < k ==> s@[i + q] == lit@[q],
        decreases n - k,
    {
        if s[i + k] != lit.get_char(k) {
            proof {
                assert(s@.subrange(i as int, i + n) != lit@) by {
                    assert(s@.subrange(i as int, i + n)[k as int] == s@[i + k]);
                }
            }
            return None;
        }
        k += 1;
    }
    proof {
        assert(s@.subrange(i as int, i + n) =~= lit@);
    }
    Some(i + n)
}

/// Appends the characters of `lit` to `out`.
pub fn push_lit(out: &mut Vec<char>, lit: &str)
    ensures
        final(out)@ == old(out)@ + lit@,
{
    let n = lit.unicode_len();
    let mut k: usize = 0;
    proof {
        assert(out@ =~= old(out)@ + lit@.subrange(0, 0));
    }
    while k < n
        invariant
            k <= n,
            n == lit@.len(),
            out@ == old(out)@ + lit@.subrange(0, k as int),
        decreases n - k,
    {
        out.push(lit.get_char(k));
        proof {
            assert(out@ =~= old(out)@ + lit@.subrange(0, k + 1));
        }
        k += 1;
    }
    proof {
        assert(lit@.subrange(0, n as int) =~= lit@);
    }
}

/// Whether the whole of `v` equals the literal `lit`.
pub fn chars_eq_lit(v: &Vec<char>, lit: &str) -> (b: bool)
    ensures
        b == (v@ == lit@),
{
    let n = lit.unicode_len();
    if v.len() != n {
        return false;
    }
    let mut k: usize = 0;
    while k < n
        invariant
            k <= n,
            n == lit@.len() == v@.len(),
            forall|q: int| 0 <= q < k ==> v@[q] == lit@[q],
        decreases n - k,
    {
        if v[k] != lit.get_char(k) {
            return false;
        }
        k += 1;
    }
    proof {
        assert(v@ =~= lit@);
    }
    true
}

} // verus!

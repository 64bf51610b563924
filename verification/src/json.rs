//! The JSON wire grammar used by every schema in this crate.
//!
//! Encoding is specified character by character over `Seq<char>`; parsing is
//! specified as suffix-consuming functions that invert the encoders. The
//! lemmas here state those inversions once, so that each schema's round-trip
//! proof is a chain of lemma applications.
use vstd::prelude::*;

verus! {

// ---------------------------------------------------------------------------
// character classes
// ---------------------------------------------------------------------------

pub open spec fn is_digit_char(c: char) -> bool {
    48 <= (c as u32) <= 57
}

pub open spec fn digit_val(c: char) -> nat {
    (((c as u32) - 48) as nat)
}

pub open spec fn digit_char(d: nat) -> char {
    if d == 0 { '0' }
    else if d == 1 { '1' }
    else if d == 2 { '2' }
    else if d == 3 { '3' }
    else if d == 4 { '4' }
    else if d == 5 { '5' }
    else if d == 6 { '6' }
    else if d == 7 { '7' }
    else if d == 8 { '8' }
    else { '9' }
}

/// Characters that may occur in a JSON number token.
pub open spec fn is_number_char(c: char) -> bool {
    is_digit_char(c) || c == '-' || c == '+' || c == '.' || c == 'e' || c == 'E'
}

/// Shape required of the stored text of a JSON number: non-empty, made of
/// number characters only, and opening like a number rather than an exponent.
pub open spec fn number_token_wf(s: Seq<char>) -> bool {
    &&& s.len() > 0
    &&& forall|i: int| 0 <= i < s.len() ==> is_number_char(#[trigger] s[i])
    &&& (is_digit_char(s[0]) || s[0] == '-')
}

pub open spec fn hex_char(d: nat) -> char {
    if d < 10 { digit_char(d) }
    else if d == 10 { 'a' }
    else if d == 11 { 'b' }
    else if d == 12 { 'c' }
    else if d == 13 { 'd' }
    else if d == 14 { 'e' }
    else { 'f' }
}

pub open spec fn is_hex_lower(c: char) -> bool {
    is_digit_char(c) || ('a' <= c && c <= 'f')
}

pub open spec fn hex_val(c: char) -> nat {
    if is_digit_char(c) { digit_val(c) } else { (((c as u32) - 87) as nat) }
}

/// The control character with the given code, for codes below 32.
pub open spec fn char_of_code(n: nat) -> char {
    if n == 0 { '\u{0}' }
    else if n == 1 { '\u{1}' }
    else if n == 2 { '\u{2}' }
    else if n == 3 { '\u{3}' }
    else if n == 4 { '\u{4}' }
    else if n == 5 { '\u{5}' }
    else if n == 6 { '\u{6}' }
    else if n == 7 { '\u{7}' }
    else if n == 8 { '\u{8}' }
    else if n == 9 { '\u{9}' }
    else if n == 10 { '\u{a}' }
    else if n == 11 { '\u{b}' }
    else if n == 12 { '\u{c}' }
    else if n == 13 { '\u{d}' }
    else if n == 14 { '\u{e}' }
    else if n == 15 { '\u{f}' }
    else if n == 16 { '\u{10}' }
    else if n == 17 { '\u{11}' }
    else if n == 18 { '\u{12}' }
    else if n == 19 { '\u{13}' }
    else if n == 20 { '\u{14}' }
    else if n == 21 { '\u{15}' }
    else if n == 22 { '\u{16}' }
    else if n == 23 { '\u{17}' }
    else if n == 24 { '\u{18}' }
    else if n == 25 { '\u{19}' }
    else if n == 26 { '\u{1a}' }
    else if n == 27 { '\u{1b}' }
    else if n == 28 { '\u{1c}' }
    else if n == 29 { '\u{1d}' }
    else if n == 30 { '\u{1e}' }
    else { '\u{1f}' }
}

// ---------------------------------------------------------------------------
// encoders
// ---------------------------------------------------------------------------

/// How one character appears inside a JSON string literal: quote, backslash
/// and the named control characters get two-character escapes, the remaining
/// control characters a `\u00XX` escape, and every other character stands as
/// itself.
pub open spec fn esc_char(c: char) -> Seq<char> {
    if c == '"' { seq!['\\', '"'] }
    else if c == '\\' { seq!['\\', '\\'] }
    else if c == '\u{8}' { seq!['\\', 'b'] }
    else if c == '\u{9}' { seq!['\\', 't'] }
    else if c == '\u{a}' { seq!['\\', 'n'] }
    else if c == '\u{c}' { seq!['\\', 'f'] }
    else if c == '\u{d}' { seq!['\\', 'r'] }
    else if (c as u32) < 32 {
        seq!['\\', 'u', '0', '0', hex_char((c as u32) as nat / 16), hex_char((c as u32) as nat % 16)]
    } else {
        seq![c]
    }
}

pub open spec fn enc_str_body(s: Seq<char>) -> Seq<char>
    decreases s.len(),
{
    if s.len() == 0 { Seq::empty() } else { esc_char(s[0]) + enc_str_body(s.drop_first()) }
}

/// A JSON string literal: quoted, escaped body.
pub open spec fn enc_string(s: Seq<char>) -> Seq<char> {
    seq!['"'] + enc_str_body(s) + seq!['"']
}

/// An object key: a string literal followed by a colon.
pub open spec fn enc_key(k: Seq<char>) -> Seq<char> {
    enc_string(k) + seq![':']
}

pub open spec fn dec_digits(n: nat) -> Seq<char>
    decreases n,
{
    if n < 10 { seq![digit_char(n)] } else { dec_digits(n / 10) + seq![digit_char(n % 10)] }
}

pub open spec fn enc_u64(n: u64) -> Seq<char> {
    dec_digits(n as nat)
}

pub open spec fn enc_bool(b: bool) -> Seq<char> {
    if b { seq!['t', 'r', 'u', 'e'] } else { seq!['f', 'a', 'l', 's', 'e'] }
}

pub open spec fn null_text() -> Seq<char> {
    seq!['n', 'u', 'l', 'l']
}

// ---------------------------------------------------------------------------
// parsers (each consumes a prefix of its input and returns the rest)
// ---------------------------------------------------------------------------

/// Interprets a two-character escape.
pub open spec fn unesc_short(e: char) -> Option<char> {
    if e == '"' { Some('"') }
    else if e == '\\' { Some('\\') }
    else if e == 'b' { Some('\u{8}') }
    else if e == 't' { Some('\u{9}') }
    else if e == 'n' { Some('\u{a}') }
    else if e == 'f' { Some('\u{c}') }
    else if e == 'r' { Some('\u{d}') }
    else { None }
}

/// Parses the body of a string literal up to and including the closing quote.
pub open spec fn p_str_body(t: Seq<char>) -> Option<(Seq<char>, Seq<char>)>
    decreases t.len(),
{
    if t.len() == 0 {
        None
    } else if t[0] == '"' {
        Some((Seq::empty(), t.drop_first()))
    } else if t[0] == '\\' {
        if t.len() < 2 {
            None
        } else if t[1] == 'u' {
            if t.len() >= 6 && t[2] == '0' && t[3] == '0' && is_hex_lower(t[4]) && is_hex_lower(t[5])
                && 16 * hex_val(t[4]) + hex_val(t[5]) < 32 {
                match p_str_body(t.skip(6)) {
                    Some((v, rest)) => Some((seq![char_of_code(16 * hex_val(t[4]) + hex_val(t[5]))] + v, rest)),
                    None => None,
                }
            } else {
                None
            }
        } else {
            match unesc_short(t[1]) {
                Some(c) => match p_str_body(t.skip(2)) {
                    Some((v, rest)) => Some((seq![c] + v, rest)),
                    None => None,
                },
                None => None,
            }
        }
    } else if (t[0] as u32) < 32 {
        None
    } else {
        match p_str_body(t.drop_first()) {
            Some((v, rest)) => Some((seq![t[0]] + v, rest)),
            None => None,
        }
    }
}

/// Parses a quoted string literal.
pub open spec fn p_string(t: Seq<char>) -> Option<(Seq<char>, Seq<char>)> {
    if t.len() > 0 && t[0] == '"' { p_str_body(t.drop_first()) } else { None }
}

pub open spec fn p_digits(t: Seq<char>, acc: nat) -> (nat, Seq<char>)
    decreases t.len(),
{
    if t.len() > 0 && is_digit_char(t[0]) {
        p_digits(t.drop_first(), acc * 10 + digit_val(t[0]))
    } else {
        (acc, t)
    }
}

/// Parses an unsigned decimal integer; in particular a leading minus sign is
/// rejected here, so negative counters fail to decode.
pub open spec fn p_u64(t: Seq<char>) -> Option<(u64, Seq<char>)> {
    if t.len() > 0 && is_digit_char(t[0]) {
        let (v, rest) = p_digits(t, 0);
        if v <= u64::MAX as nat { Some((v as u64, rest)) } else { None }
    } else {
        None
    }
}

/// Parses an unsigned decimal integer that must fit the platform's size type.
pub open spec fn p_usize(t: Seq<char>) -> Option<(usize, Seq<char>)> {
    match p_u64(t) {
        Some((v, r)) => if v <= usize::MAX as u64 {
            Some((v as usize, r))
        } else {
            None
        },
        None => None,
    }
}

pub open spec fn p_scan_num(t: Seq<char>) -> (Seq<char>, Seq<char>)
    decreases t.len(),
{
    if t.len() > 0 && is_number_char(t[0]) {
        let (v, rest) = p_scan_num(t.drop_first());
        (seq![t[0]] + v, rest)
    } else {
        (Seq::empty(), t)
    }
}

/// Parses a number token, keeping its exact text.
pub open spec fn p_number(t: Seq<char>) -> Option<(Seq<char>, Seq<char>)> {
    let (v, rest) = p_scan_num(t);
    if number_token_wf(v) { Some((v, rest)) } else { None }
}

/// Succeeds when `lit` is a prefix of `t`.
pub open spec fn p_lit(t: Seq<char>, lit: Seq<char>) -> Option<Seq<char>> {
    if lit.len() <= t.len() && t.take(lit.len() as int) == lit {
        Some(t.skip(lit.len() as int))
    } else {
        None
    }
}

pub open spec fn p_bool(t: Seq<char>) -> Option<(bool, Seq<char>)> {
    if t.len() > 0 && t[0] == 't' {
        match p_lit(t, enc_bool(true)) {
            Some(rest) => Some((true, rest)),
            None => None,
        }
    } else if t.len() > 0 && t[0] == 'f' {
        match p_lit(t, enc_bool(false)) {
            Some(rest) => Some((false, rest)),
            None => None,
        }
    } else {
        None
    }
}

/// Parses an object key: a string literal followed by a colon.
pub open spec fn p_key(t: Seq<char>) -> Option<(Seq<char>, Seq<char>)> {
    match p_string(t) {
        Some((k, rest)) => if rest.len() > 0 && rest[0] == ':' {
            Some((k, rest.drop_first()))
        } else {
            None
        },
        None => None,
    }
}

/// After a member's value: either a comma and the next key, or the closing
/// brace. `None` in the first component means the object ended.
pub open spec fn p_sep_key(t: Seq<char>) -> Option<(Option<Seq<char>>, Seq<char>)> {
    if t.len() == 0 {
        None
    } else if t[0] == '}' {
        Some((None, t.drop_first()))
    } else if t[0] == ',' {
        match p_key(t.drop_first()) {
            Some((k, rest)) => Some((Some(k), rest)),
            None => None,
        }
    } else {
        None
    }
}

/// An optional string member: absent fields contribute nothing, present ones
/// a comma, their key and their value.
pub open spec fn opt_str_field(k: Seq<char>, v: Option<Seq<char>>) -> Seq<char> {
    match v {
        Some(s) => seq![','] + enc_key(k) + enc_string(s),
        None => Seq::empty(),
    }
}

// ---------------------------------------------------------------------------
// arrays of strings
// ---------------------------------------------------------------------------

pub open spec fn enc_str_items(l: Seq<Seq<char>>) -> Seq<char>
    decreases l.len(),
{
    if l.len() == 0 {
        Seq::empty()
    } else if l.len() == 1 {
        enc_string(l[0])
    } else {
        enc_string(l[0]) + seq![','] + enc_str_items(l.drop_first())
    }
}

/// A JSON array of string literals.
pub open spec fn enc_str_array(l: Seq<Seq<char>>) -> Seq<char> {
    seq!['['] + enc_str_items(l) + seq![']']
}

/// Parses the comma-separated items of a non-empty string array, up to and
/// including the closing bracket.
pub open spec fn p_str_items(t: Seq<char>) -> Option<(Seq<Seq<char>>, Seq<char>)>
    decreases t.len(),
{
    match p_string(t) {
        Some((s, r)) => {
            if r.len() == 0 {
                None
            } else if r[0] == ']' {
                Some((seq![s], r.drop_first()))
            } else if r[0] == ',' && r.len() < t.len() {
                match p_str_items(r.drop_first()) {
                    Some((l, r2)) => Some((seq![s] + l, r2)),
                    None => None,
                }
            } else {
                None
            }
        },
        None => None,
    }
}

pub open spec fn p_str_array(t: Seq<char>) -> Option<(Seq<Seq<char>>, Seq<char>)> {
    if t.len() > 0 && t[0] == '[' {
        let t1 = t.drop_first();
        if t1.len() > 0 && t1[0] == ']' {
            Some((Seq::empty(), t1.drop_first()))
        } else {
            p_str_items(t1)
        }
    } else {
        None
    }
}

// ---------------------------------------------------------------------------
// inversion lemmas
// ---------------------------------------------------------------------------

pub proof fn lemma_p_lit(lit: Seq<char>, r: Seq<char>)
    ensures
        p_lit(lit + r, lit) == Some::<Seq<char>>(r),
{
    assert((lit + r).take(lit.len() as int) =~= lit);
    assert((lit + r).skip(lit.len() as int) =~= r);
}

proof fn lemma_char_of_code_inv(c: char)
    requires
        (c as u32) < 32,
        c != '\u{8}',
        c != '\u{9}',
        c != '\u{a}',
        c != '\u{c}',
        c != '\u{d}',
    ensures
        char_of_code((c as u32) as nat) == c,
{
}

pub proof fn lemma_p_str_body(s: Seq<char>, r: Seq<char>)
    ensures
        p_str_body(enc_str_body(s) + (seq!['"'] + r)) == Some((s, r)),
    decreases s.len(),
{
    if s.len() == 0 {
        assert(enc_str_body(s) + (seq!['"'] + r) =~= seq!['"'] + r);
        assert((seq!['"'] + r)[0] == '"');
        assert((seq!['"'] + r).drop_first() =~= r);
    } else {
        let c = s[0];
        let e = esc_char(c);
        let tail = enc_str_body(s.drop_first()) + (seq!['"'] + r);
        let t = enc_str_body(s) + (seq!['"'] + r);
        assert(t =~= e + tail);
        lemma_p_str_body(s.drop_first(), r);
        if c == '"' || c == '\\' || (c as u32) < 32 {
            if c == '"' || c == '\\' || c == '\u{8}' || c == '\u{9}' || c == '\u{a}' || c == '\u{c}'
                || c == '\u{d}' {
                // a two-character escape
                assert(t[0] == '\\');
                assert(unesc_short(t[1]) == Some(c));
                assert(t.skip(2) =~= tail);
                assert(p_str_body(t) == Some((seq![c] + s.drop_first(), r)));
            } else {
                // a \u00XX escape
                let n = (c as u32) as nat;
                assert(e == seq!['\\', 'u', '0', '0', hex_char(n / 16), hex_char(n % 16)]);
                assert(t.len() >= 6);
                assert(t[0] == '\\' && t[1] == 'u' && t[2] == '0' && t[3] == '0');
                assert(t[4] == hex_char(n / 16) && t[5] == hex_char(n % 16));
                assert(is_hex_lower(hex_char(n / 16)) && hex_val(hex_char(n / 16)) == n / 16);
                assert(is_hex_lower(hex_char(n % 16)) && hex_val(hex_char(n % 16)) == n % 16);
                assert(16 * (n / 16) + n % 16 == n);
                lemma_char_of_code_inv(c);
                assert(t.skip(6) =~= tail);
                assert(p_str_body(t) == Some((seq![c] + s.drop_first(), r)));
            }
        } else {
            assert(e == seq![c]);
            assert(t[0] == c);
            assert(t.drop_first() =~= tail);
            assert(p_str_body(t) == Some((seq![c] + s.drop_first(), r)));
        }
        assert(seq![c] + s.drop_first() =~= s);
    }
}

pub proof fn lemma_p_string(s: Seq<char>, r: Seq<char>)
    ensures
        p_string(enc_string(s) + r) == Some((s, r)),
{
    let t = enc_string(s) + r;
    assert(t[0] == '"');
    assert(t.drop_first() =~= enc_str_body(s) + (seq!['"'] + r));
    lemma_p_str_body(s, r);
}

pub proof fn lemma_p_key(k: Seq<char>, r: Seq<char>)
    ensures
        p_key(enc_key(k) + r) == Some((k, r)),
{
    let t = enc_key(k) + r;
    assert(t =~= enc_string(k) + (seq![':'] + r));
    lemma_p_string(k, seq![':'] + r);
    assert((seq![':'] + r)[0] == ':');
    assert((seq![':'] + r).drop_first() =~= r);
}

pub proof fn lemma_p_sep_key(k: Seq<char>, v: Seq<char>, r: Seq<char>)
    ensures
        p_sep_key((seq![','] + enc_key(k) + v) + r) == Some((Some(k), v + r)),
{
    let t = (seq![','] + enc_key(k) + v) + r;
    assert(t[0] == ',');
    assert(t.drop_first() =~= enc_key(k) + (v + r));
    lemma_p_key(k, v + r);
}

pub proof fn lemma_p_sep_end(r: Seq<char>)
    ensures
        p_sep_key(seq!['}'] + r) == Some((None::<Seq<char>>, r)),
{
    let t = seq!['}'] + r;
    assert(t[0] == '}');
    assert(t.drop_first() =~= r);
}

pub open spec fn pow10(k: nat) -> nat
    decreases k,
{
    if k == 0 { 1 } else { 10 * pow10((k - 1) as nat) }
}

pub proof fn lemma_dec_digits_shape(n: nat)
    ensures
        dec_digits(n).len() >= 1,
        forall|i: int| 0 <= i < dec_digits(n).len() ==> is_digit_char(#[trigger] dec_digits(n)[i]),
    decreases n,
{
    if n >= 10 {
        lemma_dec_digits_shape(n / 10);
    }
}

proof fn lemma_p_digits_chain(n: nat, acc: nat, r: Seq<char>)
    ensures
        p_digits(dec_digits(n) + r, acc) == p_digits(r, acc * pow10(dec_digits(n).len()) + n),
    decreases n,
{
    if n < 10 {
        let t = dec_digits(n) + r;
        assert(t[0] == digit_char(n));
        assert(is_digit_char(digit_char(n)) && digit_val(digit_char(n)) == n);
        assert(t.drop_first() =~= r);
        assert(pow10(0) == 1);
        assert(pow10(1) == 10);
    } else {
        let d = digit_char(n % 10);
        let hd = dec_digits(n / 10);
        let t = dec_digits(n) + r;
        assert(t =~= hd + (seq![d] + r));
        lemma_p_digits_chain(n / 10, acc, seq![d] + r);
        let l1 = hd.len();
        assert(p_digits(t, acc) == p_digits(seq![d] + r, acc * pow10(l1) + n / 10));
        assert((seq![d] + r)[0] == d);
        assert(is_digit_char(d) && digit_val(d) == n % 10);
        assert((seq![d] + r).drop_first() =~= r);
        assert(p_digits(seq![d] + r, acc * pow10(l1) + n / 10)
            == p_digits(r, (acc * pow10(l1) + n / 10) * 10 + n % 10));
        assert(dec_digits(n).len() == l1 + 1);
        assert(pow10(l1 + 1) == 10 * pow10(l1));
        assert((acc * pow10(l1) + n / 10) * 10 + n % 10 == acc * (10 * pow10(l1)) + n) by (nonlinear_arith)
            requires n / 10 * 10 + n % 10 == n
        ;
    }
}

pub proof fn lemma_p_u64(n: u64, r: Seq<char>)
    requires
        r.len() == 0 || !is_digit_char(r[0]),
    ensures
        p_u64(enc_u64(n) + r) == Some((n, r)),
{
    let t = enc_u64(n) + r;
    lemma_dec_digits_shape(n as nat);
    assert(t[0] == dec_digits(n as nat)[0]);
    lemma_p_digits_chain(n as nat, 0, r);
    assert(0 * pow10(dec_digits(n as nat).len()) == 0) by (nonlinear_arith);
    assert(p_digits(t, 0) == p_digits(r, n as nat));
    assert(p_digits(r, n as nat) == (n as nat, r));
}

pub proof fn lemma_p_scan_num(s: Seq<char>, r: Seq<char>)
    requires
        forall|i: int| 0 <= i < s.len() ==> is_number_char(#[trigger] s[i]),
        r.len() == 0 || !is_number_char(r[0]),
    ensures
        p_scan_num(s + r) == (s, r),
    decreases s.len(),
{
    if s.len() == 0 {
        assert(s + r =~= r);
        if r.len() > 0 {
            assert(p_scan_num(r) == (Seq::<char>::empty(), r));
        }
        assert(s =~= Seq::<char>::empty());
    } else {
        let t = s + r;
        assert(t[0] == s[0]);
        assert(t.drop_first() =~= s.drop_first() + r);
        lemma_p_scan_num(s.drop_first(), r);
        assert(seq![s[0]] + s.drop_first() =~= s);
    }
}

pub proof fn lemma_p_number(s: Seq<char>, r: Seq<char>)
    requires
        number_token_wf(s),
        r.len() == 0 || !is_number_char(r[0]),
    ensures
        p_number(s + r) == Some((s, r)),
{
    lemma_p_scan_num(s, r);
}

pub proof fn lemma_p_bool(b: bool, r: Seq<char>)
    ensures
        p_bool(enc_bool(b) + r) == Some((b, r)),
{
    lemma_p_lit(enc_bool(b), r);
    assert((enc_bool(b) + r)[0] == enc_bool(b)[0]);
}

// ---------------------------------------------------------------------------
// small sequence facts used when running the parsers over a position
// ---------------------------------------------------------------------------

pub proof fn lemma_skip_skip(s: Seq<char>, i: int, k: int)
    requires
        0 <= i,
        0 <= k,
        i + k <= s.len(),
    ensures
        s.skip(i).skip(k) == s.skip(i + k),
{
    assert(s.skip(i).skip(k) =~= s.skip(i + k));
}

pub proof fn lemma_skip_drop(s: Seq<char>, i: int)
    requires
        0 <= i < s.len(),
    ensures
        s.skip(i).drop_first() == s.skip(i + 1),
{
    assert(s.skip(i).drop_first() =~= s.skip(i + 1));
}

pub proof fn lemma_enc_str_body_append(a: Seq<char>, b: Seq<char>)
    ensures
        enc_str_body(a + b) == enc_str_body(a) + enc_str_body(b),
    decreases a.len(),
{
    if a.len() == 0 {
        assert(a + b =~= b);
        assert(enc_str_body(a) + enc_str_body(b) =~= enc_str_body(b));
    } else {
        assert((a + b).drop_first() =~= a.drop_first() + b);
        lemma_enc_str_body_append(a.drop_first(), b);
        assert(esc_char(a[0]) + (enc_str_body(a.drop_first()) + enc_str_body(b))
            =~= (esc_char(a[0]) + enc_str_body(a.drop_first())) + enc_str_body(b));
    }
}

proof fn lemma_p_digits_ge(t: Seq<char>, acc: nat)
    ensures
        p_digits(t, acc).0 >= acc,
    decreases t.len(),
{
    if t.len() > 0 && is_digit_char(t[0]) {
        lemma_p_digits_ge(t.drop_first(), acc * 10 + digit_val(t[0]));
    }
}

// ---------------------------------------------------------------------------
// executable encoders
// ---------------------------------------------------------------------------

/// Relies on String's collection of an iterator of characters: the collected
/// string holds exactly the characters handed to it, in order.
#[verifier::external_body]
pub fn string_from_chars(v: &Vec<char>) -> (r: String)
    ensures
        r@ == v@,
{
    v.iter().collect()
}

fn digit_char_exec(d: u32) -> (c: char)
    requires
        d < 10,
    ensures
        c == digit_char(d as nat),
{
    if d == 0 { '0' }
    else if d == 1 { '1' }
    else if d == 2 { '2' }
    else if d == 3 { '3' }
    else if d == 4 { '4' }
    else if d == 5 { '5' }
    else if d == 6 { '6' }
    else if d == 7 { '7' }
    else if d == 8 { '8' }
    else { '9' }
}

fn hex_char_exec(d: u32) -> (c: char)
    requires
        d < 16,
    ensures
        c == hex_char(d as nat),
{
    if d < 10 { digit_char_exec(d) }
    else if d == 10 { 'a' }
    else if d == 11 { 'b' }
    else if d == 12 { 'c' }
    else if d == 13 { 'd' }
    else if d == 14 { 'e' }
    else { 'f' }
}

fn char_of_code_exec(n: u32) -> (c: char)
    requires
        n < 32,
    ensures
        c == char_of_code(n as nat),
{
    if n == 0 { '\u{0}' }
    else if n == 1 { '\u{1}' }
    else if n == 2 { '\u{2}' }
    else if n == 3 { '\u{3}' }
    else if n == 4 { '\u{4}' }
    else if n == 5 { '\u{5}' }
    else if n == 6 { '\u{6}' }
    else if n == 7 { '\u{7}' }
    else if n == 8 { '\u{8}' }
    else if n == 9 { '\u{9}' }
    else if n == 10 { '\u{a}' }
    else if n == 11 { '\u{b}' }
    else if n == 12 { '\u{c}' }
    else if n == 13 { '\u{d}' }
    else if n == 14 { '\u{e}' }
    else if n == 15 { '\u{f}' }
    else if n == 16 { '\u{10}' }
    else if n == 17 { '\u{11}' }
    else if n == 18 { '\u{12}' }
    else if n == 19 { '\u{13}' }
    else if n == 20 { '\u{14}' }
    else if n == 21 { '\u{15}' }
    else if n == 22 { '\u{16}' }
    else if n == 23 { '\u{17}' }
    else if n == 24 { '\u{18}' }
    else if n == 25 { '\u{19}' }
    else if n == 26 { '\u{1a}' }
    else if n == 27 { '\u{1b}' }
    else if n == 28 { '\u{1c}' }
    else if n == 29 { '\u{1d}' }
    else if n == 30 { '\u{1e}' }
    else { '\u{1f}' }
}

fn unesc_short_exec(e: char) -> (r: Option<char>)
    ensures
        r == unesc_short(e),
{
    if e == '"' { Some('"') }
    else if e == '\\' { Some('\\') }
    else if e == 'b' { Some('\u{8}') }
    else if e == 't' { Some('\u{9}') }
    else if e == 'n' { Some('\u{a}') }
    else if e == 'f' { Some('\u{c}') }
    else if e == 'r' { Some('\u{d}') }
    else { None }
}

fn is_number_char_exec(c: char) -> (r: bool)
    ensures
        r == is_number_char(c),
{
    let n = c as u32;
    (48 <= n && n <= 57) || c == '-' || c == '+' || c == '.' || c == 'e' || c == 'E'
}

fn esc_char_exec(out: &mut Vec<char>, c: char)
    ensures
        final(out)@ == old(out)@ + esc_char(c),
{
    let n = c as u32;
    if c == '"' {
        out.push('\\');
        out.push('"');
        assert(out@ =~= old(out)@ + esc_char(c));
    } else if c == '\\' {
        out.push('\\');
        out.push('\\');
        assert(out@ =~= old(out)@ + esc_char(c));
    } else if n == 8 {
        out.push('\\');
        out.push('b');
        assert(out@ =~= old(out)@ + esc_char(c));
    } else if n == 9 {
        out.push('\\');
        out.push('t');
        assert(out@ =~= old(out)@ + esc_char(c));
    } else if n == 10 {
        out.push('\\');
        out.push('n');
        assert(out@ =~= old(out)@ + esc_char(c));
    } else if n == 12 {
        out.push('\\');
        out.push('f');
        assert(out@ =~= old(out)@ + esc_char(c));
    } else if n == 13 {
        out.push('\\');
        out.push('r');
        assert(out@ =~= old(out)@ + esc_char(c));
    } else if n < 32 {
        out.push('\\');
        out.push('u');
        out.push('0');
        out.push('0');
        out.push(hex_char_exec(n / 16));
        out.push(hex_char_exec(n % 16));
        assert(out@ =~= old(out)@ + esc_char(c));
    } else {
        out.push(c);
        assert(out@ =~= old(out)@ + esc_char(c));
    }
}

/// Appends the JSON string literal that encodes `s`.
pub fn enc_string_exec(out: &mut Vec<char>, s: &str)
    ensures
        final(out)@ == old(out)@ + enc_string(s@),
{
    out.push('"');
    let n = s.unicode_len();
    let mut i: usize = 0;
    while i < n
        invariant
            i <= n,
            n == s@.len(),
            out@ == old(out)@ + seq!['"'] + enc_str_body(s@.take(i as int)),
        decreases n - i,
    {
        let c = s.get_char(i);
        esc_char_exec(out, c);
        proof {
            assert(s@.take(i + 1) =~= s@.take(i as int) + seq![c]);
            lemma_enc_str_body_append(s@.take(i as int), seq![c]);
            assert(seq![c].drop_first() =~= Seq::<char>::empty());
            assert(enc_str_body(Seq::<char>::empty()) == Seq::<char>::empty());
            assert(enc_str_body(seq![c]) =~= esc_char(c));
            assert((old(out)@ + seq!['"'] + enc_str_body(s@.take(i as int))) + esc_char(c)
                =~= old(out)@ + seq!['"'] + enc_str_body(s@.take(i + 1)));
        }
        i = i + 1;
    }
    out.push('"');
    proof {
        assert(s@.take(n as int) =~= s@);
        assert((old(out)@ + seq!['"'] + enc_str_body(s@)) + seq!['"']
            =~= old(out)@ + enc_string(s@));
    }
}

/// Appends the key form `"k":`.
pub fn enc_key_exec(out: &mut Vec<char>, k: &str)
    ensures
        final(out)@ == old(out)@ + enc_key(k@),
{
    enc_string_exec(out, k);
    out.push(':');
    assert(out@ =~= old(out)@ + enc_key(k@));
}

/// Appends the decimal digits of `n`.
pub fn enc_u64_exec(out: &mut Vec<char>, n: u64)
    ensures
        final(out)@ == old(out)@ + enc_u64(n),
    decreases n,
{
    if n < 10 {
        out.push(digit_char_exec(n as u32));
        assert(out@ =~= old(out)@ + dec_digits(n as nat));
    } else {
        enc_u64_exec(out, n / 10);
        out.push(digit_char_exec((n % 10) as u32));
        assert(out@ =~= old(out)@ + dec_digits(n as nat));
    }
}

pub fn enc_bool_exec(out: &mut Vec<char>, b: bool)
    ensures
        final(out)@ == old(out)@ + enc_bool(b),
{
    if b {
        out.push('t');
        out.push('r');
        out.push('u');
        out.push('e');
        assert(out@ =~= old(out)@ + enc_bool(b));
    } else {
        out.push('f');
        out.push('a');
        out.push('l');
        out.push('s');
        out.push('e');
        assert(out@ =~= old(out)@ + enc_bool(b));
    }
}

pub fn enc_null_exec(out: &mut Vec<char>)
    ensures
        final(out)@ == old(out)@ + null_text(),
{
    out.push('n');
    out.push('u');
    out.push('l');
    out.push('l');
    assert(out@ =~= old(out)@ + null_text());
}

// ---------------------------------------------------------------------------
// executable parsers
// ---------------------------------------------------------------------------

/// Parses a string literal at position `i`, returning its decoded characters
/// and the position after the closing quote.
pub fn p_string_exec(t: &str, i: usize) -> (r: Option<(Vec<char>, usize)>)
    requires
        i <= t@.len(),
    ensures
        match r {
            Some((v, j)) => i < j <= t@.len() && p_string(t@.skip(i as int)) == Some(
                (v@, t@.skip(j as int)),
            ),
            None => p_string(t@.skip(i as int)) is None,
        },
{
    let len = t.unicode_len();
    if i >= len || t.get_char(i) != '"' {
        return None;
    }
    proof {
        lemma_skip_drop(t@, i as int);
    }
    let mut j: usize = i + 1;
    let mut out: Vec<char> = Vec::new();
    loop
        invariant
            i + 1 <= j <= len,
            len == t@.len(),
            p_string(t@.skip(i as int)) == p_str_body(t@.skip(i + 1)),
            match p_str_body(t@.skip(j as int)) {
                Some((v, rest)) => p_str_body(t@.skip(i + 1)) == Some((out@ + v, rest)),
                None => p_str_body(t@.skip(i + 1)) is None,
            },
        decreases len - j,
    {
        if j >= len {
            return None;
        }
        let c = t.get_char(j);
        let ghost tj = t@.skip(j as int);
        assert(tj[0] == c);
        if c == '"' {
            proof {
                lemma_skip_drop(t@, j as int);
                assert(out@ + Seq::<char>::empty() =~= out@);
            }
            return Some((out, j + 1));
        } else if c == '\\' {
            if len - j < 2 {
                return None;
            }
            let e = t.get_char(j + 1);
            assert(tj[1] == e);
            if e == 'u' {
                if len - j < 6 {
                    return None;
                }
                let h4 = t.get_char(j + 2);
                let h5 = t.get_char(j + 3);
                let c4 = t.get_char(j + 4);
                let c5 = t.get_char(j + 5);
                assert(tj[2] == h4 && tj[3] == h5 && tj[4] == c4 && tj[5] == c5);
                let n4 = c4 as u32;
                let n5 = c5 as u32;
                let hex4 = (48 <= n4 && n4 <= 57) || ('a' <= c4 && c4 <= 'f');
                let hex5 = (48 <= n5 && n5 <= 57) || ('a' <= c5 && c5 <= 'f');
                assert(hex4 == is_hex_lower(c4) && hex5 == is_hex_lower(c5));
                if h4 == '0' && h5 == '0' && hex4 && hex5 {
                    let v4 = if n4 <= 57 { n4 - 48 } else { n4 - 87 };
                    let v5 = if n5 <= 57 { n5 - 48 } else { n5 - 87 };
                    assert(v4 as nat == hex_val(c4) && v5 as nat == hex_val(c5));
                    let code = 16 * v4 + v5;
                    if code < 32 {
                        out.push(char_of_code_exec(code));
                        let ghost oldout = out@.drop_last();
                        proof {
                            lemma_skip_skip(t@, j as int, 6);
                            match p_str_body(t@.skip(j + 6)) {
                                Some((v, rest)) => {
                                    assert(p_str_body(tj) == Some(
                                        (seq![char_of_code(code as nat)] + v, rest),
                                    ));
                                    assert(out@ + v =~= oldout + (seq![char_of_code(code as nat)] + v));
                                },
                                None => {},
                            }
                        }
                        j = j + 6;
                    } else {
                        return None;
                    }
                } else {
                    return None;
                }
            } else {
                match unesc_short_exec(e) {
                    Some(u) => {
                        out.push(u);
                        let ghost oldout = out@.drop_last();
                        proof {
                            lemma_skip_skip(t@, j as int, 2);
                            match p_str_body(t@.skip(j + 2)) {
                                Some((v, rest)) => {
                                    assert(p_str_body(tj) == Some((seq![u] + v, rest)));
                                    assert(out@ + v =~= oldout + (seq![u] + v));
                                },
                                None => {},
                            }
                        }
                        j = j + 2;
                    },
                    None => {
                        return None;
                    },
                }
            }
        } else if (c as u32) < 32 {
            return None;
        } else {
            out.push(c);
            let ghost oldout = out@.drop_last();
            proof {
                lemma_skip_drop(t@, j as int);
                match p_str_body(t@.skip(j + 1)) {
                    Some((v, rest)) => {
                        assert(p_str_body(tj) == Some((seq![c] + v, rest)));
                        assert(out@ + v =~= oldout + (seq![c] + v));
                    },
                    None => {},
                }
            }
            j = j + 1;
        }
    }
}

/// Parses an unsigned decimal integer at position `i`.
pub fn p_u64_exec(t: &str, i: usize) -> (r: Option<(u64, usize)>)
    requires
        i <= t@.len(),
    ensures
        match r {
            Some((v, j)) => i < j <= t@.len() && p_u64(t@.skip(i as int)) == Some(
                (v, t@.skip(j as int)),
            ),
            None => p_u64(t@.skip(i as int)) is None,
        },
{
    let len = t.unicode_len();
    if i >= len {
        return None;
    }
    let c0 = t.get_char(i);
    assert(t@.skip(i as int)[0] == c0);
    let n0 = c0 as u32;
    if !(48 <= n0 && n0 <= 57) {
        return None;
    }
    let mut acc: u64 = (n0 - 48) as u64;
    let mut j: usize = i + 1;
    proof {
        lemma_skip_drop(t@, i as int);
        assert(p_digits(t@.skip(i as int), 0) == p_digits(t@.skip(i + 1), acc as nat));
    }
    let mut done = false;
    let mut ok = true;
    while !done
        invariant
            i + 1 <= j <= len,
            len == t@.len(),
            ok ==> p_digits(t@.skip(i as int), 0) == p_digits(t@.skip(j as int), acc as nat),
            !ok ==> p_digits(t@.skip(i as int), 0).0 > u64::MAX as nat,
            !ok ==> done,
            done ==> (ok ==> (j == len || !is_digit_char(t@[j as int]))),
        decreases len - j + (if done { 0int } else { 1int }),
    {
        if j >= len {
            done = true;
        } else {
            let c = t.get_char(j);
            assert(t@.skip(j as int)[0] == c);
            let n = c as u32;
            if !(48 <= n && n <= 57) {
                done = true;
            } else {
                let d = (n - 48) as u64;
                let wide: u128 = (acc as u128) * 10 + (d as u128);
                proof {
                    lemma_skip_drop(t@, j as int);
                }
                if wide > u64::MAX as u128 {
                    proof {
                        assert(p_digits(t@.skip(j as int), acc as nat) == p_digits(
                            t@.skip(j + 1),
                            acc as nat * 10 + d as nat,
                        ));
                        lemma_p_digits_ge(t@.skip(j + 1), acc as nat * 10 + d as nat);
                    }
                    ok = false;
                    done = true;
                } else {
                    acc = wide as u64;
                    j = j + 1;
                }
            }
        }
    }
    if !ok {
        return None;
    }
    assert(p_digits(t@.skip(j as int), acc as nat) == (acc as nat, t@.skip(j as int)));
    Some((acc, j))
}

/// Parses a size-bounded unsigned decimal integer at position `i`.
pub fn p_usize_exec(t: &str, i: usize) -> (r: Option<(usize, usize)>)
    requires
        i <= t@.len(),
    ensures
        match r {
            Some((v, j)) => i < j <= t@.len() && p_usize(t@.skip(i as int)) == Some(
                (v, t@.skip(j as int)),
            ),
            None => p_usize(t@.skip(i as int)) is None,
        },
{
    match p_u64_exec(t, i) {
        Some((v, j)) => {
            if v <= usize::MAX as u64 {
                Some((v as usize, j))
            } else {
                None
            }
        },
        None => None,
    }
}

/// The decimal digits of a size value parse back to it.
pub proof fn lemma_p_usize(n: usize, r: Seq<char>)
    requires
        r.len() == 0 || !is_digit_char(r[0]),
    ensures
        p_usize(dec_digits(n as nat) + r) == Some((n, r)),
{
    lemma_p_u64(n as u64, r);
    assert(enc_u64(n as u64) == dec_digits(n as nat));
}

/// Parses a number token at position `i`, keeping its text.
pub fn p_number_exec(t: &str, i: usize) -> (r: Option<(Vec<char>, usize)>)
    requires
        i <= t@.len(),
    ensures
        match r {
            Some((v, j)) => i < j <= t@.len() && p_number(t@.skip(i as int)) == Some(
                (v@, t@.skip(j as int)),
            ),
            None => p_number(t@.skip(i as int)) is None,
        },
{
    let len = t.unicode_len();
    let mut j: usize = i;
    let mut out: Vec<char> = Vec::new();
    let mut done = false;
    while !done
        invariant
            i <= j <= len,
            len == t@.len(),
            out@.len() == j - i,
            p_scan_num(t@.skip(i as int)) == (
                out@ + p_scan_num(t@.skip(j as int)).0,
                p_scan_num(t@.skip(j as int)).1,
            ),
            done ==> (j == len || !is_number_char(t@[j as int])),
        decreases len - j + (if done { 0int } else { 1int }),
    {
        if j >= len {
            done = true;
        } else {
            let c = t.get_char(j);
            assert(t@.skip(j as int)[0] == c);
            if is_number_char_exec(c) {
                out.push(c);
                let ghost oldout = out@.drop_last();
                proof {
                    lemma_skip_drop(t@, j as int);
                    let (v1, r1) = p_scan_num(t@.skip(j + 1));
                    assert(p_scan_num(t@.skip(j as int)) == (seq![c] + v1, r1));
                    assert(out@ + v1 =~= oldout + (seq![c] + v1));
                }
                j = j + 1;
            } else {
                done = true;
            }
        }
    }
    assert(p_scan_num(t@.skip(j as int)) == (Seq::<char>::empty(), t@.skip(j as int)));
    assert(out@ + Seq::<char>::empty() =~= out@);
    if out.len() == 0 {
        return None;
    }
    let c0 = out[0];
    let n0 = c0 as u32;
    if (48 <= n0 && n0 <= 57) || c0 == '-' {
        assert(number_token_wf(out@)) by {
            assert(forall|k: int| 0 <= k < out@.len() ==> is_number_char(#[trigger] out@[k]))
                by {
                assert(forall|k: int|
                    0 <= k < out@.len() ==> out@[k] == p_scan_num(t@.skip(i as int)).0[k]);
                lemma_p_scan_all_num(t@.skip(i as int));
            }
        }
        Some((out, j))
    } else {
        None
    }
}

/// Matches `lit` at position `i`.
pub fn p_lit_exec(t: &str, i: usize, lit: &str) -> (r: Option<usize>)
    requires
        i <= t@.len(),
    ensures
        match r {
            Some(j) => i <= j <= t@.len() && p_lit(t@.skip(i as int), lit@) == Some(
                t@.skip(j as int),
            ) && j - i == lit@.len(),
            None => p_lit(t@.skip(i as int), lit@) is None,
        },
{
    let len = t.unicode_len();
    let ll = lit.unicode_len();
    if ll > len - i {
        return None;
    }
    let mut k: usize = 0;
    while k < ll
        invariant
            0 <= k <= ll,
            ll <= len - i,
            i <= len,
            len == t@.len(),
            ll == lit@.len(),
            forall|m: int| 0 <= m < k ==> t@[i + m] == lit@[m],
        decreases ll - k,
    {
        let a = t.get_char(i + k);
        let b = lit.get_char(k);
        if a != b {
            assert(t@.skip(i as int).take(ll as int)[k as int] != lit@[k as int]);
            return None;
        }
        k = k + 1;
    }
    assert(t@.skip(i as int).take(ll as int) =~= lit@);
    proof {
        lemma_skip_skip(t@, i as int, ll as int);
    }
    Some(i + ll)
}

/// Parses `true` or `false` at position `i`.
pub fn p_bool_exec(t: &str, i: usize) -> (r: Option<(bool, usize)>)
    requires
        i <= t@.len(),
    ensures
        match r {
            Some((v, j)) => i < j <= t@.len() && p_bool(t@.skip(i as int)) == Some(
                (v, t@.skip(j as int)),
            ),
            None => p_bool(t@.skip(i as int)) is None,
        },
{
    proof {
        reveal_strlit("true");
        reveal_strlit("false");
        assert("true"@ =~= enc_bool(true));
        assert("false"@ =~= enc_bool(false));
    }
    let len = t.unicode_len();
    if i >= len {
        return None;
    }
    let c = t.get_char(i);
    assert(t@.skip(i as int)[0] == c);
    if c == 't' {
        match p_lit_exec(t, i, "true") {
            Some(j) => Some((true, j)),
            None => None,
        }
    } else if c == 'f' {
        match p_lit_exec(t, i, "false") {
            Some(j) => Some((false, j)),
            None => None,
        }
    } else {
        None
    }
}

/// Parses an object key (string plus colon) at position `i`.
pub fn p_key_exec(t: &str, i: usize) -> (r: Option<(Vec<char>, usize)>)
    requires
        i <= t@.len(),
    ensures
        match r {
            Some((k, j)) => i < j <= t@.len() && p_key(t@.skip(i as int)) == Some(
                (k@, t@.skip(j as int)),
            ),
            None => p_key(t@.skip(i as int)) is None,
        },
{
    let len = t.unicode_len();
    match p_string_exec(t, i) {
        Some((k, j)) => {
            if j < len && t.get_char(j) == ':' {
                proof {
                    assert(t@.skip(j as int)[0] == ':');
                    lemma_skip_drop(t@, j as int);
                }
                Some((k, j + 1))
            } else {
                None
            }
        },
        None => None,
    }
}

/// Parses either `,"key":` or the closing brace at position `i`.
pub fn p_sep_key_exec(t: &str, i: usize) -> (r: Option<(Option<Vec<char>>, usize)>)
    requires
        i <= t@.len(),
    ensures
        match r {
            Some((k, j)) => i < j <= t@.len() && match k {
                Some(kv) => p_sep_key(t@.skip(i as int)) == Some(
                    (Some(kv@), t@.skip(j as int)),
                ),
                None => p_sep_key(t@.skip(i as int)) == Some(
                    (None::<Seq<char>>, t@.skip(j as int)),
                ),
            },
            None => p_sep_key(t@.skip(i as int)) is None,
        },
{
    let len = t.unicode_len();
    if i >= len {
        return None;
    }
    let c = t.get_char(i);
    assert(t@.skip(i as int)[0] == c);
    if c == '}' {
        proof {
            lemma_skip_drop(t@, i as int);
        }
        Some((None, i + 1))
    } else if c == ',' {
        proof {
            lemma_skip_drop(t@, i as int);
        }
        match p_key_exec(t, i + 1) {
            Some((k, j)) => Some((Some(k), j)),
            None => None,
        }
    } else {
        None
    }
}

/// Compares collected characters with a string.
pub fn chars_eq_str(v: &Vec<char>, s: &str) -> (r: bool)
    ensures
        r == (v@ == s@),
{
    let n = s.unicode_len();
    if v.len() != n {
        assert(v@ != s@);
        return false;
    }
    let mut k: usize = 0;
    while k < n
        invariant
            0 <= k <= n,
            n == s@.len(),
            v@.len() == n,
            forall|m: int| 0 <= m < k ==> v@[m] == s@[m],
        decreases n - k,
    {
        if v[k] != s.get_char(k) {
            return false;
        }
        k = k + 1;
    }
    assert(v@ =~= s@);
    true
}

proof fn lemma_p_str_items(l: Seq<Seq<char>>, r: Seq<char>)
    requires
        l.len() >= 1,
    ensures
        p_str_items(enc_str_items(l) + (seq![']'] + r)) == Some((l, r)),
    decreases l.len(),
{
    if l.len() == 1 {
        let t = enc_str_items(l) + (seq![']'] + r);
        assert(t =~= enc_string(l[0]) + (seq![']'] + r));
        lemma_p_string(l[0], seq![']'] + r);
        assert((seq![']'] + r)[0] == ']');
        assert((seq![']'] + r).drop_first() =~= r);
        assert(seq![l[0]] =~= l);
    } else {
        let t = enc_str_items(l) + (seq![']'] + r);
        let tail = enc_str_items(l.drop_first()) + (seq![']'] + r);
        assert(t =~= enc_string(l[0]) + (seq![','] + tail));
        lemma_p_string(l[0], seq![','] + tail);
        let r1 = seq![','] + tail;
        assert(r1[0] == ',');
        assert(r1.drop_first() =~= tail);
        lemma_p_str_items(l.drop_first(), r);
        assert(seq![l[0]] + l.drop_first() =~= l);
    }
}

pub proof fn lemma_p_str_array(l: Seq<Seq<char>>, r: Seq<char>)
    ensures
        p_str_array(enc_str_array(l) + r) == Some((l, r)),
{
    let t = enc_str_array(l) + r;
    assert(t[0] == '[');
    if l.len() == 0 {
        assert(t.drop_first() =~= seq![']'] + r);
        assert((seq![']'] + r)[0] == ']');
        assert((seq![']'] + r).drop_first() =~= r);
        assert(Seq::<Seq<char>>::empty() =~= l);
    } else {
        assert(t.drop_first() =~= enc_str_items(l) + (seq![']'] + r));
        lemma_p_str_items(l, r);
        if l.len() == 1 {
            assert(enc_str_items(l) == enc_string(l[0]));
        }
        assert(enc_str_items(l)[0] == '"');
        assert(t.drop_first()[0] == '"');
    }
}

proof fn lemma_enc_str_items_snoc(l: Seq<Seq<char>>, k: int)
    requires
        1 <= k < l.len(),
    ensures
        enc_str_items(l.take(k + 1)) == enc_str_items(l.take(k)) + seq![','] + enc_string(l[k]),
    decreases k,
{
    if k == 1 {
        let a = l.take(2);
        assert(a.len() == 2);
        assert(a.drop_first() =~= seq![l[1]]);
        assert(enc_str_items(seq![l[1]]) == enc_string(l[1]));
        assert(l.take(1) =~= seq![l[0]]);
        assert(enc_str_items(l.take(1)) == enc_string(l[0]));
        assert(a[0] == l[0]);
        assert(enc_str_items(a) == enc_string(l[0]) + seq![','] + enc_string(l[1]));
    } else {
        let a = l.take(k + 1);
        assert(a.len() == k + 1 >= 3);
        assert(a.drop_first() =~= l.drop_first().take(k));
        lemma_enc_str_items_snoc(l.drop_first(), k - 1);
        assert(l.drop_first()[k - 1] == l[k]);
        assert(l.drop_first().take(k - 1) =~= l.take(k).drop_first());
        assert(enc_str_items(a) == enc_string(a[0]) + seq![','] + enc_str_items(a.drop_first()));
        assert(enc_str_items(l.take(k)) == enc_string(l[0]) + seq![','] + enc_str_items(
            l.take(k).drop_first(),
        ));
        assert(enc_string(l[0]) + seq![','] + (enc_str_items(l.take(k).drop_first()) + seq![',']
            + enc_string(l[k])) =~= (enc_string(l[0]) + seq![','] + enc_str_items(
            l.take(k).drop_first(),
        )) + seq![','] + enc_string(l[k]));
    }
}

/// Appends the JSON array that encodes the given strings.
pub fn enc_str_array_exec(out: &mut Vec<char>, l: &Vec<String>)
    ensures
        final(out)@ == old(out)@ + enc_str_array(l.deep_view()),
{
    out.push('[');
    let n = l.len();
    let mut k: usize = 0;
    while k < n
        invariant
            0 <= k <= n,
            n == l.deep_view().len(),
            l@.len() == n,
            out@ == old(out)@ + seq!['['] + enc_str_items(l.deep_view().take(k as int)),
        decreases n - k,
    {
        let ghost dv = l.deep_view();
        if k == 0 {
            enc_string_exec(out, l[0].as_str());
            proof {
                assert(dv.take(0int) =~= Seq::<Seq<char>>::empty());
                assert(enc_str_items(dv.take(0int)) == Seq::<char>::empty());
                assert(dv.take(1int) =~= seq![dv[0int]]);
                assert(enc_str_items(dv.take(1int)) == enc_string(dv[0int]));
                assert(dv[0int] == l@[0int]@);
                assert(out@ =~= old(out)@ + seq!['['] + enc_str_items(dv.take(1int)));
            }
        } else {
            out.push(',');
            enc_string_exec(out, l[k].as_str());
            proof {
                lemma_enc_str_items_snoc(dv, k as int);
                assert(dv[k as int] == l@[k as int]@);
                assert(out@ =~= old(out)@ + seq!['['] + enc_str_items(dv.take(k + 1)));
            }
        }
        k = k + 1;
    }
    out.push(']');
    proof {
        assert(l.deep_view().take(n as int) =~= l.deep_view());
        assert(out@ =~= old(out)@ + enc_str_array(l.deep_view()));
    }
}

/// Parses a string array at position `i`.
pub fn p_str_array_exec(t: &str, i: usize) -> (r: Option<(Vec<String>, usize)>)
    requires
        i <= t@.len(),
    ensures
        match r {
            Some((v, j)) => i < j <= t@.len() && p_str_array(t@.skip(i as int)) == Some(
                (v.deep_view(), t@.skip(j as int)),
            ),
            None => p_str_array(t@.skip(i as int)) is None,
        },
{
    let len = t.unicode_len();
    if i >= len {
        return None;
    }
    if t.get_char(i) != '[' {
        assert(t@.skip(i as int)[0] != '[');
        return None;
    }
    assert(t@.skip(i as int)[0] == '[');
    proof {
        lemma_skip_drop(t@, i as int);
    }
    if i + 1 < len && t.get_char(i + 1) == ']' {
        proof {
            lemma_skip_drop(t@, i + 1);
        }
        let out: Vec<String> = Vec::new();
        assert(out.deep_view() =~= Seq::<Seq<char>>::empty());
        return Some((out, i + 2));
    }
    assert(t@.skip(i + 1).len() > 0 ==> t@.skip(i + 1)[0] != ']');
    let mut acc: Vec<String> = Vec::new();
    let mut j: usize = i + 1;
    assert(acc.deep_view() =~= Seq::<Seq<char>>::empty());
    loop
        invariant
            i + 1 <= j <= len,
            len == t@.len(),
            match p_str_items(t@.skip(j as int)) {
                Some((l, rest)) => p_str_array(t@.skip(i as int)) == Some(
                    (acc.deep_view() + l, rest),
                ),
                None => p_str_array(t@.skip(i as int)) is None,
            },
        decreases len - j,
    {
        let ghost tj = t@.skip(j as int);
        match p_string_exec(t, j) {
            None => {
                return None;
            },
            Some((sv, j2)) => {
                let s = string_from_chars(&sv);
                if j2 >= len {
                    return None;
                }
                let c = t.get_char(j2);
                assert(t@.skip(j2 as int)[0] == c);
                if c == ']' {
                    let ghost olddv = acc.deep_view();
                    acc.push(s);
                    proof {
                        lemma_skip_drop(t@, j2 as int);
                        assert(p_str_items(tj) == Some(
                            (seq![sv@], t@.skip(j2 + 1)),
                        ));
                        assert(acc.deep_view() =~= olddv + seq![sv@]);
                    }
                    return Some((acc, j2 + 1));
                } else if c == ',' {
                    let ghost olddv = acc.deep_view();
                    acc.push(s);
                    proof {
                        lemma_skip_drop(t@, j2 as int);
                        assert(t@.skip(j2 as int).len() < tj.len());
                        match p_str_items(t@.skip(j2 + 1)) {
                            Some((l, rest)) => {
                                assert(p_str_items(tj) == Some((seq![sv@] + l, rest)));
                                assert(acc.deep_view() =~= olddv + seq![sv@]);
                                assert((olddv + seq![sv@]) + l =~= olddv + (seq![sv@] + l));
                            },
                            None => {},
                        }
                    }
                    j = j2 + 1;
                } else {
                    return None;
                }
            },
        }
    }
}

proof fn lemma_p_scan_all_num(t: Seq<char>)
    ensures
        forall|k: int|
            0 <= k < p_scan_num(t).0.len() ==> is_number_char(#[trigger] p_scan_num(t).0[k]),
    decreases t.len(),
{
    if t.len() > 0 && is_number_char(t[0]) {
        lemma_p_scan_all_num(t.drop_first());
        let (v1, r1) = p_scan_num(t.drop_first());
        assert(p_scan_num(t).0 == seq![t[0]] + v1);
        assert forall|k: int| 0 <= k < p_scan_num(t).0.len() implies is_number_char(
            p_scan_num(t).0[k],
        ) by {
            if k > 0 {
                assert(p_scan_num(t).0[k] == v1[k - 1]);
            }
        }
    }
}

} // verus!

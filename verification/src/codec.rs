//! The on-disk cache metadata format: a JSON encoder and decoder for
//! `CachedPushMetadata`, written as plain functions on character
//! sequences, with a proved round trip. The encoder emits pretty JSON
//! with a fixed field order; the decoder reads the fields positionally
//! in that order, skipping whitespace between tokens.

use vstd::prelude::*;

use crate::models::{CachedPushMetadata, CachedPushMetadataView, Job, JobView};
use crate::text::{chars_to_string, dec_digits, digit_char, push_dec_digits};

verus! {

/// The whitespace the decoder skips between tokens.
pub open spec fn is_ws(c: char) -> bool {
    c == ' ' || c == '\n' || c == '\t' || c == '\r'
}

/// A decimal digit.
pub open spec fn is_digit(c: char) -> bool {
    c == '0' || c == '1' || c == '2' || c == '3' || c == '4' || c == '5' || c == '6' || c == '7'
        || c == '8' || c == '9'
}

/// The numeric value of a digit character.
pub open spec fn digit_val(c: char) -> int {
    if c == '0' {
        0
    } else if c == '1' {
        1
    } else if c == '2' {
        2
    } else if c == '3' {
        3
    } else if c == '4' {
        4
    } else if c == '5' {
        5
    } else if c == '6' {
        6
    } else if c == '7' {
        7
    } else if c == '8' {
        8
    } else {
        9
    }
}

/// The value of a digit run, most significant first.
pub open spec fn dec_val(s: Seq<char>) -> int
    decreases s.len(),
{
    if s.len() == 0 {
        0
    } else {
        dec_val(s.drop_last()) * 10 + digit_val(s.last())
    }
}

/// A digit run evaluates to a non-negative number.
pub proof fn lemma_dec_val_nonneg(s: Seq<char>)
    ensures
        dec_val(s) >= 0,
    decreases s.len(),
{
    if s.len() > 0 {
        lemma_dec_val_nonneg(s.drop_last());
    }
}

/// The digits of `n` hold only digits and evaluate back to `n`.
pub proof fn lemma_dec_digits_val(n: nat)
    ensures
        dec_digits(n).len() >= 1,
        forall|i: int| 0 <= i < dec_digits(n).len() ==> is_digit(#[trigger] dec_digits(n)[i]),
        dec_val(dec_digits(n)) == n,
    decreases n,
{
    if n < 10 {
        assert(digit_val(digit_char(n)) == n);
        assert(dec_digits(n) =~= seq![digit_char(n)]);
        assert(dec_digits(n).drop_last() =~= Seq::<char>::empty());
        assert(dec_digits(n).last() == digit_char(n));
        assert(dec_val(dec_digits(n)) == dec_val(dec_digits(n).drop_last()) * 10 + digit_val(
            digit_char(n),
        ));
        assert(dec_val(dec_digits(n).drop_last()) == 0);
    } else {
        lemma_dec_digits_val(n / 10);
        let head = dec_digits(n / 10);
        let out = dec_digits(n);
        assert(out =~= head.push(digit_char(n % 10)));
        assert(out.drop_last() =~= head);
        assert(out.last() == digit_char(n % 10));
        assert(digit_val(digit_char(n % 10)) == n % 10);
        assert(dec_val(out) == dec_val(head) * 10 + (n % 10));
        assert((n / 10) * 10 + (n % 10) == n) by (nonlinear_arith);
        assert(dec_val(out) == (n / 10) * 10 + (n % 10));
        assert forall|i: int| 0 <= i < out.len() implies is_digit(#[trigger] out[i]) by {
            if i < head.len() {
                assert(out[i] == head[i]);
            }
        }
    }
}

/// A longer digit run never evaluates below a prefix of it.
pub proof fn lemma_dec_val_prefix_le(s: Seq<char>, k: int)
    requires
        0 <= k <= s.len(),
    ensures
        dec_val(s.take(k)) <= dec_val(s),
    decreases s.len() - k,
{
    if k < s.len() {
        lemma_dec_val_prefix_le(s, k + 1);
        lemma_dec_val_nonneg(s.take(k));
        assert(s.take(k + 1).drop_last() =~= s.take(k));
        assert(dec_val(s.take(k + 1)) == dec_val(s.take(k)) * 10 + digit_val(s.take(k + 1).last()));
        assert(dec_val(s.take(k)) * 10 >= dec_val(s.take(k))) by (nonlinear_arith)
            requires
                dec_val(s.take(k)) >= 0,
        ;
    } else {
        assert(s.take(k) =~= s);
    }
}

/// Drops leading whitespace.
pub open spec fn dec_ws(s: Seq<char>) -> Seq<char>
    decreases s.len(),
{
    if s.len() > 0 && is_ws(s[0]) {
        dec_ws(s.drop_first())
    } else {
        s
    }
}

/// Skipping whitespace passes over any all-whitespace prefix.
pub proof fn lemma_dec_ws_all(w: Seq<char>, s: Seq<char>)
    requires
        forall|i: int| 0 <= i < w.len() ==> is_ws(#[trigger] w[i]),
    ensures
        dec_ws(w + s) == dec_ws(s),
    decreases w.len(),
{
    if w.len() == 0 {
        assert(w + s =~= s);
    } else {
        assert((w + s)[0] == w[0]);
        assert((w + s).drop_first() =~= w.drop_first() + s);
        assert forall|i: int| 0 <= i < w.drop_first().len() implies is_ws(
            #[trigger] w.drop_first()[i],
        ) by {
            assert(w.drop_first()[i] == w[i + 1]);
        }
        lemma_dec_ws_all(w.drop_first(), s);
    }
}

/// Skipping whitespace does nothing before a non-whitespace character.
pub proof fn lemma_dec_ws_nonws(s: Seq<char>)
    requires
        s.len() > 0,
        !is_ws(s[0]),
    ensures
        dec_ws(s) == s,
{
}

/// The rest after one expected character, skipping leading whitespace.
pub open spec fn dec_char(s: Seq<char>, c: char) -> Option<Seq<char>> {
    let r = dec_ws(s);
    if r.len() > 0 && r[0] == c {
        Some(r.drop_first())
    } else {
        None
    }
}

/// Reading an expected non-whitespace character consumes exactly it.
pub proof fn lemma_dec_char(c: char, rest: Seq<char>)
    requires
        !is_ws(c),
    ensures
        dec_char(seq![c] + rest, c) == Some(rest),
{
    let s = seq![c] + rest;
    assert(s[0] == c);
    lemma_dec_ws_nonws(s);
    assert(s.drop_first() =~= rest);
}

/// The escape of one character inside an encoded string.
pub open spec fn esc_char(c: char) -> Seq<char> {
    if c == '"' {
        seq!['\\', '"']
    } else if c == '\\' {
        seq!['\\', '\\']
    } else if c == '\n' {
        seq!['\\', 'n']
    } else if c == '\r' {
        seq!['\\', 'r']
    } else if c == '\t' {
        seq!['\\', 't']
    } else {
        seq![c]
    }
}

/// The character an escape letter stands for.
pub open spec fn unesc_char(c: char) -> Option<char> {
    if c == '"' {
        Some('"')
    } else if c == '\\' {
        Some('\\')
    } else if c == 'n' {
        Some('\n')
    } else if c == 'r' {
        Some('\r')
    } else if c == 't' {
        Some('\t')
    } else {
        None
    }
}

/// The body of an encoded string: each character escaped, in order.
pub open spec fn enc_str_body(s: Seq<char>) -> Seq<char>
    decreases s.len(),
{
    if s.len() == 0 {
        Seq::empty()
    } else {
        esc_char(s[0]) + enc_str_body(s.drop_first())
    }
}

/// Encoding a string body distributes over concatenation.
pub proof fn lemma_enc_str_body_concat(a: Seq<char>, b: Seq<char>)
    ensures
        enc_str_body(a + b) == enc_str_body(a) + enc_str_body(b),
    decreases a.len(),
{
    if a.len() == 0 {
        assert(a + b =~= b);
        assert(enc_str_body(a) + enc_str_body(b) =~= enc_str_body(b));
    } else {
        assert((a + b)[0] == a[0]);
        assert((a + b).drop_first() =~= a.drop_first() + b);
        lemma_enc_str_body_concat(a.drop_first(), b);
        assert(esc_char(a[0]) + (enc_str_body(a.drop_first()) + enc_str_body(b)) =~= (esc_char(
            a[0],
        ) + enc_str_body(a.drop_first())) + enc_str_body(b));
    }
}

/// An encoded string: the escaped body between quotes.
pub open spec fn enc_string(s: Seq<char>) -> Seq<char> {
    seq!['"'] + enc_str_body(s) + seq!['"']
}

/// The decoded body of a string, up to its closing quote, and the rest.
pub open spec fn dec_str_body(s: Seq<char>) -> Option<(Seq<char>, Seq<char>)>
    decreases s.len(),
{
    if s.len() == 0 {
        None
    } else if s[0] == '"' {
        Some((Seq::empty(), s.drop_first()))
    } else if s[0] == '\\' {
        if s.len() < 2 {
            None
        } else {
            match unesc_char(s[1]) {
                None => None,
                Some(c) => match dec_str_body(s.skip(2)) {
                    None => None,
                    Some((body, rest)) => Some((seq![c] + body, rest)),
                },
            }
        }
    } else {
        match dec_str_body(s.drop_first()) {
            None => None,
            Some((body, rest)) => Some((seq![s[0]] + body, rest)),
        }
    }
}

/// A decoded string: leading whitespace, a quote, the body, the closing
/// quote.
pub open spec fn dec_string(s: Seq<char>) -> Option<(Seq<char>, Seq<char>)> {
    match dec_char(s, '"') {
        None => None,
        Some(r) => dec_str_body(r),
    }
}

/// Decoding an encoded body recovers the string and leaves the rest
/// after the closing quote.
pub proof fn lemma_dec_str_body(v: Seq<char>, rest: Seq<char>)
    ensures
        dec_str_body(enc_str_body(v) + seq!['"'] + rest) == Some((v, rest)),
    decreases v.len(),
{
    if v.len() == 0 {
        let s = enc_str_body(v) + seq!['"'] + rest;
        assert(s =~= seq!['"'] + rest);
        assert(s[0] == '"');
        assert(s.drop_first() =~= rest);
    } else {
        lemma_dec_str_body(v.drop_first(), rest);
        let s = enc_str_body(v) + seq!['"'] + rest;
        let tail = enc_str_body(v.drop_first()) + seq!['"'] + rest;
        let e = esc_char(v[0]);
        assert(enc_str_body(v) == e + enc_str_body(v.drop_first()));
        assert(s =~= e + tail);
        if v[0] == '"' || v[0] == '\\' || v[0] == '\n' || v[0] == '\r' || v[0] == '\t' {
            assert(e.len() == 2);
            assert(s[0] == e[0]);
            assert(s[1] == e[1]);
            assert(s[0] == '\\');
            assert(unesc_char(s[1]) == Some(v[0]));
            assert(s.skip(2) =~= tail);
            assert(seq![v[0]] + v.drop_first() =~= v);
        } else {
            assert(e.len() == 1);
            assert(s[0] == v[0]);
            assert(s[0] != '"' && s[0] != '\\');
            assert(s.drop_first() =~= tail);
            assert(seq![v[0]] + v.drop_first() =~= v);
        }
    }
}

/// Decoding an encoded string recovers it exactly.
pub proof fn lemma_dec_string(v: Seq<char>, rest: Seq<char>)
    ensures
        dec_string(enc_string(v) + rest) == Some((v, rest)),
{
    let s = enc_string(v) + rest;
    let body_on = enc_str_body(v) + seq!['"'] + rest;
    assert(s =~= seq!['"'] + body_on);
    lemma_dec_char('"', body_on);
    lemma_dec_str_body(v, rest);
}

/// The length of the leading digit run.
pub open spec fn digit_run(s: Seq<char>) -> int
    decreases s.len(),
{
    if s.len() > 0 && is_digit(s[0]) {
        1 + digit_run(s.drop_first())
    } else {
        0
    }
}

/// The digit run of an all-digit prefix followed by a non-digit is the
/// prefix itself.
pub proof fn lemma_digit_run_exact(a: Seq<char>, b: Seq<char>)
    requires
        forall|i: int| 0 <= i < a.len() ==> is_digit(#[trigger] a[i]),
        b.len() > 0 ==> !is_digit(b[0]),
    ensures
        digit_run(a + b) == a.len(),
    decreases a.len(),
{
    if a.len() == 0 {
        assert(a + b =~= b);
    } else {
        assert((a + b)[0] == a[0]);
        assert((a + b).drop_first() =~= a.drop_first() + b);
        assert forall|i: int| 0 <= i < a.drop_first().len() implies is_digit(
            #[trigger] a.drop_first()[i],
        ) by {
            assert(a.drop_first()[i] == a[i + 1]);
        }
        lemma_digit_run_exact(a.drop_first(), b);
    }
}

/// The digit run never runs past the sequence.
pub proof fn lemma_digit_run_bounds(s: Seq<char>)
    ensures
        0 <= digit_run(s) <= s.len(),
        forall|i: int| 0 <= i < digit_run(s) ==> is_digit(#[trigger] s[i]),
        digit_run(s) < s.len() ==> !is_digit(s[digit_run(s)]),
    decreases s.len(),
{
    if s.len() > 0 && is_digit(s[0]) {
        lemma_digit_run_bounds(s.drop_first());
        assert forall|i: int| 0 <= i < digit_run(s) implies is_digit(#[trigger] s[i]) by {
            if i > 0 {
                assert(s[i] == s.drop_first()[i - 1]);
            }
        }
        if digit_run(s) < s.len() {
            assert(s[digit_run(s)] == s.drop_first()[digit_run(s) - 1]);
        }
    }
}

/// A decoded unsigned number: leading whitespace, then the maximal digit
/// run, which must be non-empty and fit in 64 bits.
pub open spec fn dec_u64(s: Seq<char>) -> Option<(u64, Seq<char>)> {
    let r = dec_ws(s);
    let k = digit_run(r);
    if k == 0 {
        None
    } else if dec_val(r.take(k)) <= u64::MAX {
        Some((dec_val(r.take(k)) as u64, r.skip(k)))
    } else {
        None
    }
}

/// Decoding an encoded number recovers it, provided what follows does
/// not begin with a digit.
pub proof fn lemma_dec_u64(n: u64, rest: Seq<char>)
    requires
        rest.len() > 0 ==> !is_digit(rest[0]),
    ensures
        dec_u64(dec_digits(n as nat) + rest) == Some((n, rest)),
{
    let d = dec_digits(n as nat);
    let s = d + rest;
    lemma_dec_digits_val(n as nat);
    assert(!is_ws(s[0]));
    lemma_dec_ws_nonws(s);
    lemma_digit_run_exact(d, rest);
    assert(s.take(d.len() as int) =~= d);
    assert(s.skip(d.len() as int) =~= rest);
}

/// An encoded optional number: the digits, or the word `null`.
pub open spec fn enc_opt_u64(o: Option<u64>) -> Seq<char> {
    match o {
        Some(n) => dec_digits(n as nat),
        None => seq!['n', 'u', 'l', 'l'],
    }
}

/// A decoded optional number: `null`, or an unsigned number.
pub open spec fn dec_opt_u64(s: Seq<char>) -> Option<(Option<u64>, Seq<char>)> {
    let r = dec_ws(s);
    if r.len() >= 4 && r[0] == 'n' && r[1] == 'u' && r[2] == 'l' && r[3] == 'l' {
        Some((None, r.skip(4)))
    } else {
        match dec_u64(r) {
            Some((n, rest)) => Some((Some(n), rest)),
            None => None,
        }
    }
}

/// Decoding an encoded optional number recovers it, provided what
/// follows does not begin with a digit.
pub proof fn lemma_dec_opt_u64(o: Option<u64>, rest: Seq<char>)
    requires
        rest.len() > 0 ==> !is_digit(rest[0]),
    ensures
        dec_opt_u64(enc_opt_u64(o) + rest) == Some((o, rest)),
{
    match o {
        None => {
            let s = enc_opt_u64(o) + rest;
            assert(s[0] == 'n');
            lemma_dec_ws_nonws(s);
            assert(s.skip(4) =~= rest);
        },
        Some(n) => {
            let d = dec_digits(n as nat);
            let s = d + rest;
            lemma_dec_digits_val(n as nat);
            assert(s[0] == d[0]);
            assert(is_digit(s[0]));
            assert(!is_ws(s[0]));
            lemma_dec_ws_nonws(s);
            assert(s[0] != 'n');
            lemma_dec_u64(n, rest);
            assert(dec_ws(s) == s);
        },
    }
}

/// True of an all-whitespace sequence.
pub open spec fn all_ws(w: Seq<char>) -> bool {
    forall|i: int| 0 <= i < w.len() ==> is_ws(#[trigger] w[i])
}

/// One string-valued field: the quoted key, a colon, the quoted value.
pub open spec fn enc_str_field(key: Seq<char>, v: Seq<char>) -> Seq<char> {
    enc_string(key) + seq![':', ' '] + enc_string(v)
}

/// One number-valued field.
pub open spec fn enc_u64_field(key: Seq<char>, n: u64) -> Seq<char> {
    enc_string(key) + seq![':', ' '] + dec_digits(n as nat)
}

/// One optional-number field.
pub open spec fn enc_opt_field(key: Seq<char>, o: Option<u64>) -> Seq<char> {
    enc_string(key) + seq![':', ' '] + enc_opt_u64(o)
}

/// The value of a string field: the key is parsed but read
/// positionally, not checked.
pub open spec fn dec_field_str(s: Seq<char>) -> Option<(Seq<char>, Seq<char>)> {
    match dec_string(s) {
        None => None,
        Some((_k, r)) => match dec_char(r, ':') {
            None => None,
            Some(r2) => dec_string(r2),
        },
    }
}

/// The value of a number field.
pub open spec fn dec_field_u64(s: Seq<char>) -> Option<(u64, Seq<char>)> {
    match dec_string(s) {
        None => None,
        Some((_k, r)) => match dec_char(r, ':') {
            None => None,
            Some(r2) => dec_u64(r2),
        },
    }
}

/// The value of an optional-number field.
pub open spec fn dec_field_opt_u64(s: Seq<char>) -> Option<(Option<u64>, Seq<char>)> {
    match dec_string(s) {
        None => None,
        Some((_k, r)) => match dec_char(r, ':') {
            None => None,
            Some(r2) => dec_opt_u64(r2),
        },
    }
}

/// Reading an expected character after an all-whitespace prefix.
pub proof fn lemma_dec_char_ws(w: Seq<char>, c: char, rest: Seq<char>)
    requires
        all_ws(w),
        !is_ws(c),
    ensures
        dec_char(w + (seq![c] + rest), c) == Some(rest),
{
    lemma_dec_ws_all(w, seq![c] + rest);
    lemma_dec_ws_nonws(seq![c] + rest);
    assert((seq![c] + rest)[0] == c);
    assert((seq![c] + rest).drop_first() =~= rest);
}

/// Decoding an encoded string after an all-whitespace prefix.
pub proof fn lemma_dec_string_ws(w: Seq<char>, v: Seq<char>, rest: Seq<char>)
    requires
        all_ws(w),
    ensures
        dec_string(w + (enc_string(v) + rest)) == Some((v, rest)),
{
    let body_on = enc_str_body(v) + seq!['"'] + rest;
    assert(enc_string(v) + rest =~= seq!['"'] + body_on);
    lemma_dec_char_ws(w, '"', body_on);
    lemma_dec_str_body(v, rest);
}

/// Decoding an encoded number after an all-whitespace prefix.
pub proof fn lemma_dec_u64_ws(w: Seq<char>, n: u64, rest: Seq<char>)
    requires
        all_ws(w),
        rest.len() > 0 ==> !is_digit(rest[0]),
    ensures
        dec_u64(w + (dec_digits(n as nat) + rest)) == Some((n, rest)),
{
    lemma_dec_ws_all(w, dec_digits(n as nat) + rest);
    lemma_dec_u64(n, rest);
    lemma_dec_digits_val(n as nat);
    lemma_dec_ws_nonws(dec_digits(n as nat) + rest);
    assert((dec_digits(n as nat) + rest)[0] == dec_digits(n as nat)[0]);
}

/// Decoding an encoded optional number after an all-whitespace prefix.
pub proof fn lemma_dec_opt_u64_ws(w: Seq<char>, o: Option<u64>, rest: Seq<char>)
    requires
        all_ws(w),
        rest.len() > 0 ==> !is_digit(rest[0]),
    ensures
        dec_opt_u64(w + (enc_opt_u64(o) + rest)) == Some((o, rest)),
{
    lemma_dec_ws_all(w, enc_opt_u64(o) + rest);
    lemma_dec_opt_u64(o, rest);
    match o {
        None => {
            assert((enc_opt_u64(o) + rest)[0] == 'n');
            lemma_dec_ws_nonws(enc_opt_u64(o) + rest);
        },
        Some(n) => {
            lemma_dec_digits_val(n as nat);
            assert((enc_opt_u64(o) + rest)[0] == dec_digits(n as nat)[0]);
            lemma_dec_ws_nonws(enc_opt_u64(o) + rest);
        },
    }
}

/// Decoding an encoded string field after an all-whitespace prefix.
pub proof fn lemma_dec_field_str(w: Seq<char>, key: Seq<char>, v: Seq<char>, rest: Seq<char>)
    requires
        all_ws(w),
    ensures
        dec_field_str(w + (enc_str_field(key, v) + rest)) == Some((v, rest)),
{
    let after_key = seq![':', ' '] + enc_string(v) + rest;
    assert(w + (enc_str_field(key, v) + rest) =~= w + (enc_string(key) + after_key));
    lemma_dec_string_ws(w, key, after_key);
    let after_colon = seq![' '] + (enc_string(v) + rest);
    assert(after_key =~= Seq::<char>::empty() + (seq![':'] + after_colon));
    lemma_dec_char_ws(Seq::empty(), ':', after_colon);
    assert(after_colon =~= seq![' '] + (enc_string(v) + rest));
    lemma_dec_string_ws(seq![' '], v, rest);
}

/// Decoding an encoded number field after an all-whitespace prefix.
pub proof fn lemma_dec_field_u64(w: Seq<char>, key: Seq<char>, n: u64, rest: Seq<char>)
    requires
        all_ws(w),
        rest.len() > 0 ==> !is_digit(rest[0]),
    ensures
        dec_field_u64(w + (enc_u64_field(key, n) + rest)) == Some((n, rest)),
{
    let after_key = seq![':', ' '] + dec_digits(n as nat) + rest;
    assert(w + (enc_u64_field(key, n) + rest) =~= w + (enc_string(key) + after_key));
    lemma_dec_string_ws(w, key, after_key);
    let after_colon = seq![' '] + (dec_digits(n as nat) + rest);
    assert(after_key =~= Seq::<char>::empty() + (seq![':'] + after_colon));
    lemma_dec_char_ws(Seq::empty(), ':', after_colon);
    lemma_dec_u64_ws(seq![' '], n, rest);
    assert(after_colon =~= seq![' '] + (dec_digits(n as nat) + rest));
}

/// Decoding an encoded optional-number field after an all-whitespace
/// prefix.
pub proof fn lemma_dec_field_opt_u64(w: Seq<char>, key: Seq<char>, o: Option<u64>, rest: Seq<char>)
    requires
        all_ws(w),
        rest.len() > 0 ==> !is_digit(rest[0]),
    ensures
        dec_field_opt_u64(w + (enc_opt_field(key, o) + rest)) == Some((o, rest)),
{
    let after_key = seq![':', ' '] + enc_opt_u64(o) + rest;
    assert(w + (enc_opt_field(key, o) + rest) =~= w + (enc_string(key) + after_key));
    lemma_dec_string_ws(w, key, after_key);
    let after_colon = seq![' '] + (enc_opt_u64(o) + rest);
    assert(after_key =~= Seq::<char>::empty() + (seq![':'] + after_colon));
    lemma_dec_char_ws(Seq::empty(), ':', after_colon);
    lemma_dec_opt_u64_ws(seq![' '], o, rest);
    assert(after_colon =~= seq![' '] + (enc_opt_u64(o) + rest));
}

/// One encoded job object, fields in the fixed order.
pub open spec fn enc_job(j: JobView) -> Seq<char> {
    seq!['{'] + enc_job_fields(j, Seq::empty())
}

/// One decoded job object: a brace, the nine fields in the fixed order,
/// a closing brace.
#[verifier::opaque]
pub open spec fn dec_job(s: Seq<char>) -> Option<(JobView, Seq<char>)> {
    match dec_char(s, '{') {
        None => None,
        Some(r0) => match dec_field_u64(r0) {
            None => None,
            Some((id, r1)) => match dec_char(r1, ',') {
                None => None,
                Some(r1b) => match dec_field_str(r1b) {
                    None => None,
                    Some((job_type_name, r2)) => match dec_char(r2, ',') {
                        None => None,
                        Some(r2b) => match dec_field_str(r2b) {
                            None => None,
                            Some((job_type_symbol, r3)) => match dec_char(r3, ',') {
                                None => None,
                                Some(r3b) => match dec_field_str(r3b) {
                                    None => None,
                                    Some((platform, r4)) => match dec_char(r4, ',') {
                                        None => None,
                                        Some(r4b) => match dec_field_str(r4b) {
                                            None => None,
                                            Some((platform_option, r5)) => match dec_char(
                                                r5,
                                                ',',
                                            ) {
                                                None => None,
                                                Some(r5b) => match dec_field_str(r5b) {
                                                    None => None,
                                                    Some((result, r6)) => match dec_char(r6, ',') {
                                                        None => None,
                                                        Some(r6b) => match dec_field_str(r6b) {
                                                            None => None,
                                                            Some((state, r7)) => match dec_char(
                                                                r7,
                                                                ',',
                                                            ) {
                                                                None => None,
                                                                Some(r7b) => match dec_field_opt_u64(
                                                                    r7b,
                                                                ) {
                                                                    None => None,
                                                                    Some((fci, r8)) => match dec_char(
                                                                        r8,
                                                                        ',',
                                                                    ) {
                                                                        None => None,
                                                                        Some(r8b) => match dec_field_opt_u64(
                                                                            r8b,
                                                                        ) {
                                                                            None => None,
                                                                            Some((duration, r9)) => match dec_char(
                                                                                r9,
                                                                                '}',
                                                                            ) {
                                                                                None => None,
                                                                                Some(r10) => Some(
                                                                                    (
                                                                                        JobView {
                                                                                            id,
                                                                                            job_type_name,
                                                                                            job_type_symbol,
                                                                                            platform,
                                                                                            platform_option,
                                                                                            result,
                                                                                            state,
                                                                                            failure_classification_id:
                                                                                                fci,
                                                                                            duration,
                                                                                        },
                                                                                        r10,
                                                                                    ),
                                                                                ),
                                                                            },
                                                                        },
                                                                    },
                                                                },
                                                            },
                                                        },
                                                    },
                                                },
                                            },
                                        },
                                    },
                                },
                            },
                        },
                    },
                },
            },
        },
    }
}

/// The remainder of an encoded job after its opening brace, with what
/// follows the job appended: the nine fields in parse order,
/// right-nested so that each decoding step peels one piece.
#[verifier::opaque]
pub open spec fn enc_job_fields(j: JobView, rest: Seq<char>) -> Seq<char> {
    enc_u64_field("id"@, j.id) + (seq![',', ' '] + (enc_str_field("job_type_name"@, j.job_type_name)
        + (seq![',', ' '] + (enc_str_field("job_type_symbol"@, j.job_type_symbol) + (seq![',', ' ']
        + (enc_str_field("platform"@, j.platform) + (seq![',', ' '] + (enc_str_field(
        "platform_option"@,
        j.platform_option,
    ) + (seq![',', ' '] + (enc_str_field("result"@, j.result) + (seq![',', ' '] + (enc_str_field(
        "state"@,
        j.state,
    ) + (seq![',', ' '] + (enc_opt_field(
        "failure_classification_id"@,
        j.failure_classification_id,
    ) + (seq![',', ' '] + (enc_opt_field("duration"@, j.duration) + (seq!['}'] + rest)))))))))))))))))
}

/// Concatenation of sequences is associative.
pub proof fn lemma_seq_assoc(a: Seq<char>, b: Seq<char>, c: Seq<char>)
    ensures
        (a + b) + c == a + (b + c),
{
    assert((a + b) + c =~= a + (b + c));
}

/// An encoded job followed by `rest` splits into the opening brace and
/// the right-nested field chain.
pub proof fn lemma_enc_job_decompose(j: JobView, rest: Seq<char>)
    ensures
        enc_job(j) + rest == seq!['{'] + enc_job_fields(j, rest),
{
    let e = Seq::<char>::empty();
    let sep = seq![',', ' '];
    let f1 = enc_u64_field("id"@, j.id);
    let f2 = enc_str_field("job_type_name"@, j.job_type_name);
    let f3 = enc_str_field("job_type_symbol"@, j.job_type_symbol);
    let f4 = enc_str_field("platform"@, j.platform);
    let f5 = enc_str_field("platform_option"@, j.platform_option);
    let f6 = enc_str_field("result"@, j.result);
    let f7 = enc_str_field("state"@, j.state);
    let f8 = enc_opt_field("failure_classification_id"@, j.failure_classification_id);
    let f9 = enc_opt_field("duration"@, j.duration);
    let u9e = seq!['}'] + e;
    let u9r = seq!['}'] + rest;
    assert(u9e + rest =~= u9r);
    let v9e = f9 + u9e;
    let v9r = f9 + u9r;
    lemma_seq_assoc(f9, u9e, rest);
    assert(v9e + rest == v9r);
    let u8e = sep + v9e;
    let u8r = sep + v9r;
    lemma_seq_assoc(sep, v9e, rest);
    assert(u8e + rest == u8r);
    let v8e = f8 + u8e;
    let v8r = f8 + u8r;
    lemma_seq_assoc(f8, u8e, rest);
    assert(v8e + rest == v8r);
    let u7e = sep + v8e;
    let u7r = sep + v8r;
    lemma_seq_assoc(sep, v8e, rest);
    let v7e = f7 + u7e;
    let v7r = f7 + u7r;
    lemma_seq_assoc(f7, u7e, rest);
    let u6e = sep + v7e;
    let u6r = sep + v7r;
    lemma_seq_assoc(sep, v7e, rest);
    let v6e = f6 + u6e;
    let v6r = f6 + u6r;
    lemma_seq_assoc(f6, u6e, rest);
    let u5e = sep + v6e;
    let u5r = sep + v6r;
    lemma_seq_assoc(sep, v6e, rest);
    let v5e = f5 + u5e;
    let v5r = f5 + u5r;
    lemma_seq_assoc(f5, u5e, rest);
    let u4e = sep + v5e;
    let u4r = sep + v5r;
    lemma_seq_assoc(sep, v5e, rest);
    let v4e = f4 + u4e;
    let v4r = f4 + u4r;
    lemma_seq_assoc(f4, u4e, rest);
    let u3e = sep + v4e;
    let u3r = sep + v4r;
    lemma_seq_assoc(sep, v4e, rest);
    let v3e = f3 + u3e;
    let v3r = f3 + u3r;
    lemma_seq_assoc(f3, u3e, rest);
    let u2e = sep + v3e;
    let u2r = sep + v3r;
    lemma_seq_assoc(sep, v3e, rest);
    let v2e = f2 + u2e;
    let v2r = f2 + u2r;
    lemma_seq_assoc(f2, u2e, rest);
    let u1e = sep + v2e;
    let u1r = sep + v2r;
    lemma_seq_assoc(sep, v2e, rest);
    let v1e = f1 + u1e;
    let v1r = f1 + u1r;
    lemma_seq_assoc(f1, u1e, rest);
    reveal(enc_job_fields);
    assert(enc_job_fields(j, e) == v1e);
    assert(enc_job_fields(j, rest) == v1r);
    assert(enc_job(j) == seq!['{'] + v1e);
    lemma_seq_assoc(seq!['{'], v1e, rest);
    assert(enc_job(j) + rest == seq!['{'] + (v1e + rest));
}

/// Decoding an encoded job after an all-whitespace prefix recovers it.
#[verifier::rlimit(60)]
pub proof fn lemma_dec_job(w: Seq<char>, j: JobView, rest: Seq<char>)
    requires
        all_ws(w),
        rest.len() > 0 ==> !is_digit(rest[0]),
    ensures
        dec_job(w + (enc_job(j) + rest)) == Some((j, rest)),
{
    let sep = seq![',', ' '];
    let t9: Seq<char> = seq!['}'] + rest;
    let t8 = enc_opt_field("duration"@, j.duration) + t9;
    let t8b = sep + t8;
    let t7 = enc_opt_field("failure_classification_id"@, j.failure_classification_id) + t8b;
    let t7b = sep + t7;
    let t6 = enc_str_field("state"@, j.state) + t7b;
    let t6b = sep + t6;
    let t5 = enc_str_field("result"@, j.result) + t6b;
    let t5b = sep + t5;
    let t4 = enc_str_field("platform_option"@, j.platform_option) + t5b;
    let t4b = sep + t4;
    let t3 = enc_str_field("platform"@, j.platform) + t4b;
    let t3b = sep + t3;
    let t2 = enc_str_field("job_type_symbol"@, j.job_type_symbol) + t3b;
    let t2b = sep + t2;
    let t1 = enc_str_field("job_type_name"@, j.job_type_name) + t2b;
    let t1b = sep + t1;
    let t0 = enc_u64_field("id"@, j.id) + t1b;
    lemma_enc_job_decompose(j, rest);
    reveal(enc_job_fields);
    reveal(dec_job);
    assert(enc_job_fields(j, rest) =~= t0);
    assert(w + (enc_job(j) + rest) =~= w + (seq!['{'] + t0));
    lemma_dec_char_ws(w, '{', t0);
    assert(t0 =~= Seq::<char>::empty() + (enc_u64_field("id"@, j.id) + t1b));
    lemma_dec_field_u64(Seq::empty(), "id"@, j.id, t1b);
    assert(t1b.len() > 0 && !is_digit(t1b[0]));
    assert(t1b =~= Seq::<char>::empty() + (seq![','] + (seq![' '] + t1)));
    lemma_dec_char_ws(Seq::empty(), ',', seq![' '] + t1);
    assert(seq![' '] + t1 =~= seq![' '] + (enc_str_field("job_type_name"@, j.job_type_name)
        + t2b));
    lemma_dec_field_str(seq![' '], "job_type_name"@, j.job_type_name, t2b);
    assert(t2b =~= Seq::<char>::empty() + (seq![','] + (seq![' '] + t2)));
    lemma_dec_char_ws(Seq::empty(), ',', seq![' '] + t2);
    assert(seq![' '] + t2 =~= seq![' '] + (enc_str_field("job_type_symbol"@, j.job_type_symbol)
        + t3b));
    lemma_dec_field_str(seq![' '], "job_type_symbol"@, j.job_type_symbol, t3b);
    assert(t3b =~= Seq::<char>::empty() + (seq![','] + (seq![' '] + t3)));
    lemma_dec_char_ws(Seq::empty(), ',', seq![' '] + t3);
    assert(seq![' '] + t3 =~= seq![' '] + (enc_str_field("platform"@, j.platform) + t4b));
    lemma_dec_field_str(seq![' '], "platform"@, j.platform, t4b);
    assert(t4b =~= Seq::<char>::empty() + (seq![','] + (seq![' '] + t4)));
    lemma_dec_char_ws(Seq::empty(), ',', seq![' '] + t4);
    assert(seq![' '] + t4 =~= seq![' '] + (enc_str_field("platform_option"@, j.platform_option)
        + t5b));
    lemma_dec_field_str(seq![' '], "platform_option"@, j.platform_option, t5b);
    assert(t5b =~= Seq::<char>::empty() + (seq![','] + (seq![' '] + t5)));
    lemma_dec_char_ws(Seq::empty(), ',', seq![' '] + t5);
    assert(seq![' '] + t5 =~= seq![' '] + (enc_str_field("result"@, j.result) + t6b));
    lemma_dec_field_str(seq![' '], "result"@, j.result, t6b);
    assert(t6b =~= Seq::<char>::empty() + (seq![','] + (seq![' '] + t6)));
    lemma_dec_char_ws(Seq::empty(), ',', seq![' '] + t6);
    assert(seq![' '] + t6 =~= seq![' '] + (enc_str_field("state"@, j.state) + t7b));
    lemma_dec_field_str(seq![' '], "state"@, j.state, t7b);
    assert(t7b =~= Seq::<char>::empty() + (seq![','] + (seq![' '] + t7)));
    lemma_dec_char_ws(Seq::empty(), ',', seq![' '] + t7);
    assert(seq![' '] + t7 =~= seq![' '] + (enc_opt_field(
        "failure_classification_id"@,
        j.failure_classification_id,
    ) + t8b));
    assert(t8b.len() > 0 && !is_digit(t8b[0]));
    lemma_dec_field_opt_u64(
        seq![' '],
        "failure_classification_id"@,
        j.failure_classification_id,
        t8b,
    );
    assert(t8b =~= Seq::<char>::empty() + (seq![','] + (seq![' '] + t8)));
    lemma_dec_char_ws(Seq::empty(), ',', seq![' '] + t8);
    assert(seq![' '] + t8 =~= seq![' '] + (enc_opt_field("duration"@, j.duration) + t9));
    assert(t9.len() > 0 && !is_digit(t9[0]));
    lemma_dec_field_opt_u64(seq![' '], "duration"@, j.duration, t9);
    assert(t9 =~= Seq::<char>::empty() + (seq!['}'] + rest));
    lemma_dec_char_ws(Seq::empty(), '}', rest);
}

/// Skipping whitespace never lengthens the text.
pub proof fn lemma_dec_ws_len(s: Seq<char>)
    ensures
        dec_ws(s).len() <= s.len(),
    decreases s.len(),
{
    if s.len() > 0 && is_ws(s[0]) {
        lemma_dec_ws_len(s.drop_first());
    }
}

/// An encoded job is never empty.
pub proof fn lemma_enc_job_len(j: JobView)
    ensures
        enc_job(j).len() >= 1,
        enc_job(j)[0] == '{',
{
    assert(enc_job(j)[0] == seq!['{'][0]);
}

/// The separator between encoded jobs in the array.
pub open spec fn job_sep() -> Seq<char> {
    seq![',', '\n', ' ', ' ', ' ', ' ']
}

/// The encoded elements of a non-empty job array, separated.
pub open spec fn enc_jobs_items(jobs: Seq<JobView>) -> Seq<char>
    decreases jobs.len(),
{
    if jobs.len() == 0 {
        Seq::empty()
    } else if jobs.len() == 1 {
        enc_job(jobs[0])
    } else {
        enc_job(jobs[0]) + (job_sep() + enc_jobs_items(jobs.drop_first()))
    }
}

/// The encoded job array.
pub open spec fn enc_jobs(jobs: Seq<JobView>) -> Seq<char> {
    if jobs.len() == 0 {
        seq!['[', ']']
    } else {
        seq!['[', '\n', ' ', ' ', ' ', ' '] + (enc_jobs_items(jobs) + seq!['\n', ' ', ' ', ']'])
    }
}

/// The decoded elements of a non-empty job array: one job, then either
/// the closing bracket or a comma and more elements.
pub open spec fn dec_jobs_items(s: Seq<char>) -> Option<(Seq<JobView>, Seq<char>)>
    decreases s.len(),
{
    match dec_job(s) {
        None => None,
        Some((j, r1)) => {
            let r2 = dec_ws(r1);
            if r2.len() == 0 {
                None
            } else if r2[0] == ']' {
                Some((seq![j], r2.drop_first()))
            } else if r2[0] == ',' && r2.drop_first().len() < s.len() {
                match dec_jobs_items(r2.drop_first()) {
                    None => None,
                    Some((rest_jobs, r3)) => Some((seq![j] + rest_jobs, r3)),
                }
            } else {
                None
            }
        },
    }
}

/// The decoded job array.
pub open spec fn dec_jobs(s: Seq<char>) -> Option<(Seq<JobView>, Seq<char>)> {
    match dec_char(s, '[') {
        None => None,
        Some(r0) => {
            let r1 = dec_ws(r0);
            if r1.len() > 0 && r1[0] == ']' {
                Some((Seq::empty(), r1.drop_first()))
            } else {
                dec_jobs_items(r0)
            }
        },
    }
}

/// Decoding encoded array elements recovers them: the elements follow an
/// all-whitespace prefix and are closed by a bracket after another
/// all-whitespace stretch.
pub proof fn lemma_dec_jobs_items(w0: Seq<char>, jobs: Seq<JobView>, w1: Seq<char>, after: Seq<
    char,
>)
    requires
        all_ws(w0),
        all_ws(w1),
        jobs.len() >= 1,
    ensures
        dec_jobs_items(w0 + (enc_jobs_items(jobs) + (w1 + (seq![']'] + after)))) == Some(
            (jobs, after),
        ),
    decreases jobs.len(),
{
    let close = w1 + (seq![']'] + after);
    if close.len() > 0 && is_digit(close[0]) {
        if w1.len() > 0 {
            assert(close[0] == w1[0]);
        } else {
            assert(close =~= seq![']'] + after);
            assert(close[0] == ']');
        }
        assert(false);
    }
    if jobs.len() == 1 {
        let s = w0 + (enc_jobs_items(jobs) + close);
        assert(enc_jobs_items(jobs) == enc_job(jobs[0]));
        lemma_dec_job(w0, jobs[0], close);
        lemma_dec_ws_all(w1, seq![']'] + after);
        lemma_dec_ws_nonws(seq![']'] + after);
        assert((seq![']'] + after)[0] == ']');
        assert((seq![']'] + after).drop_first() =~= after);
        assert(seq![jobs[0]] =~= jobs);
    } else {
        let tail_items = enc_jobs_items(jobs.drop_first());
        let inner = job_sep() + (tail_items + close);
        assert(enc_jobs_items(jobs) == enc_job(jobs[0]) + (job_sep() + tail_items));
        lemma_seq_assoc(enc_job(jobs[0]), job_sep() + tail_items, close);
        lemma_seq_assoc(job_sep(), tail_items, close);
        assert(enc_jobs_items(jobs) + close == enc_job(jobs[0]) + inner);
        assert(inner[0] == job_sep()[0]);
        assert(!is_digit(inner[0]));
        lemma_dec_job(w0, jobs[0], inner);
        let s = w0 + (enc_jobs_items(jobs) + close);
        lemma_dec_ws_nonws(inner);
        let w0n = seq!['\n', ' ', ' ', ' ', ' '];
        assert(inner.drop_first() =~= w0n + (tail_items + close));
        lemma_dec_jobs_items(w0n, jobs.drop_first(), w1, after);
        lemma_enc_job_len(jobs[0]);
        assert(s.len() >= enc_job(jobs[0]).len() + inner.len());
        assert(inner.drop_first().len() < s.len());
        assert(seq![jobs[0]] + jobs.drop_first() =~= jobs);
    }
}

/// Decoding an encoded job array after an all-whitespace prefix recovers
/// it.
pub proof fn lemma_dec_jobs(w: Seq<char>, jobs: Seq<JobView>, after: Seq<char>)
    requires
        all_ws(w),
    ensures
        dec_jobs(w + (enc_jobs(jobs) + after)) == Some((jobs, after)),
{
    if jobs.len() == 0 {
        let t = seq![']'] + after;
        assert(enc_jobs(jobs) + after =~= seq!['['] + t);
        lemma_dec_char_ws(w, '[', t);
        lemma_dec_ws_nonws(t);
        assert(t[0] == ']');
        assert(t.drop_first() =~= after);
    } else {
        let w0 = seq!['\n', ' ', ' ', ' ', ' '];
        let w1 = seq!['\n', ' ', ' '];
        let items = enc_jobs_items(jobs);
        let r0 = w0 + (items + (w1 + (seq![']'] + after)));
        assert(enc_jobs(jobs) + after =~= seq!['['] + r0);
        lemma_dec_char_ws(w, '[', r0);
        lemma_dec_jobs_items(w0, jobs, w1, after);
        let body = items + (w1 + (seq![']'] + after));
        lemma_dec_ws_all(w0, body);
        lemma_enc_job_len(jobs[0]);
        assert(items[0] == '{') by {
            if jobs.len() == 1 {
                assert(items == enc_job(jobs[0]));
            } else {
                assert(items[0] == enc_job(jobs[0])[0]);
            }
        }
        assert(body[0] == '{');
        lemma_dec_ws_nonws(body);
        assert(dec_ws(r0) == body);
        assert(body[0] != ']');
    }
}

/// The encoded cache metadata: pretty JSON with the fixed field order.
pub open spec fn enc_metadata(m: CachedPushMetadataView) -> Seq<char> {
    seq!['{', '\n', ' ', ' '] + (enc_str_field("revision"@, m.revision) + (seq![',', '\n', ' ', ' ']
        + (enc_u64_field("push_id"@, m.push_id) + (seq![',', '\n', ' ', ' '] + (enc_str_field(
        "repo"@,
        m.repo,
    ) + (seq![',', '\n', ' ', ' '] + (enc_string("jobs"@) + (seq![':', ' '] + (enc_jobs(m.jobs)
        + seq!['\n', '}'])))))))))
}

/// The decoded cache metadata: the four fields in the fixed order, with
/// nothing but whitespace allowed after the closing brace.
pub open spec fn dec_metadata(s: Seq<char>) -> Option<CachedPushMetadataView> {
    match dec_char(s, '{') {
        None => None,
        Some(r0) => match dec_field_str(r0) {
            None => None,
            Some((revision, r1)) => match dec_char(r1, ',') {
                None => None,
                Some(r1b) => match dec_field_u64(r1b) {
                    None => None,
                    Some((push_id, r2)) => match dec_char(r2, ',') {
                        None => None,
                        Some(r2b) => match dec_field_str(r2b) {
                            None => None,
                            Some((repo, r3)) => match dec_char(r3, ',') {
                                None => None,
                                Some(r3b) => match dec_string(r3b) {
                                    None => None,
                                    Some((_jobs_key, r4)) => match dec_char(r4, ':') {
                                        None => None,
                                        Some(r4b) => match dec_jobs(r4b) {
                                            None => None,
                                            Some((jobs, r5)) => match dec_char(r5, '}') {
                                                None => None,
                                                Some(r6) => if dec_ws(r6).len() == 0 {
                                                    Some(
                                                        CachedPushMetadataView {
                                                            revision,
                                                            push_id,
                                                            repo,
                                                            jobs,
                                                        },
                                                    )
                                                } else {
                                                    None
                                                },
                                            },
                                        },
                                    },
                                },
                            },
                        },
                    },
                },
            },
        },
    }
}

/// Saving and loading round-trip: decoding an encoded metadata value
/// yields it back, job list, revision, and push id alike.
pub proof fn lemma_metadata_round_trip(m: CachedPushMetadataView)
    ensures
        dec_metadata(enc_metadata(m)) == Some(
            CachedPushMetadataView {
                revision: m.revision,
                push_id: m.push_id,
                repo: m.repo,
                jobs: m.jobs,
            },
        ),
{
    let wnl = seq!['\n', ' ', ' '];
    let sepc = seq![',', '\n', ' ', ' '];
    let t5: Seq<char> = seq!['\n', '}'];
    let t4 = enc_jobs(m.jobs) + t5;
    let t4b = seq![':', ' '] + t4;
    let t3 = enc_string("jobs"@) + t4b;
    let t3b = sepc + t3;
    let t2 = enc_str_field("repo"@, m.repo) + t3b;
    let t2b = sepc + t2;
    let t1 = enc_u64_field("push_id"@, m.push_id) + t2b;
    let t1b = sepc + t1;
    let t0 = enc_str_field("revision"@, m.revision) + t1b;
    assert(enc_metadata(m) =~= seq!['{'] + (wnl + t0));
    lemma_dec_char_ws(Seq::empty(), '{', wnl + t0);
    assert(enc_metadata(m) =~= Seq::<char>::empty() + (seq!['{'] + (wnl + t0)));
    assert(wnl + t0 =~= wnl + (enc_str_field("revision"@, m.revision) + t1b));
    lemma_dec_field_str(wnl, "revision"@, m.revision, t1b);
    assert(t1b =~= Seq::<char>::empty() + (seq![','] + (wnl + t1)));
    lemma_dec_char_ws(Seq::empty(), ',', wnl + t1);
    assert(wnl + t1 =~= wnl + (enc_u64_field("push_id"@, m.push_id) + t2b));
    assert(t2b[0] == ',');
    lemma_dec_field_u64(wnl, "push_id"@, m.push_id, t2b);
    assert(t2b =~= Seq::<char>::empty() + (seq![','] + (wnl + t2)));
    lemma_dec_char_ws(Seq::empty(), ',', wnl + t2);
    assert(wnl + t2 =~= wnl + (enc_str_field("repo"@, m.repo) + t3b));
    lemma_dec_field_str(wnl, "repo"@, m.repo, t3b);
    assert(t3b =~= Seq::<char>::empty() + (seq![','] + (wnl + t3)));
    lemma_dec_char_ws(Seq::empty(), ',', wnl + t3);
    assert(wnl + t3 =~= wnl + (enc_string("jobs"@) + t4b));
    lemma_dec_string_ws(wnl, "jobs"@, t4b);
    assert(t4b =~= Seq::<char>::empty() + (seq![':'] + (seq![' '] + t4)));
    lemma_dec_char_ws(Seq::empty(), ':', seq![' '] + t4);
    assert(seq![' '] + t4 =~= seq![' '] + (enc_jobs(m.jobs) + t5));
    lemma_dec_jobs(seq![' '], m.jobs, t5);
    assert(t5 =~= seq!['\n'] + (seq!['}'] + Seq::<char>::empty()));
    lemma_dec_char_ws(seq!['\n'], '}', Seq::empty());
    assert(dec_ws(Seq::<char>::empty()).len() == 0);
}

/// Appends an encoded string token.
fn push_str_token(out: &mut Vec<char>, s: &str)
    ensures
        final(out)@ == old(out)@ + enc_string(s@),
{
    let ghost base = out@;
    out.push('"');
    let n = s.unicode_len();
    let mut i: usize = 0;
    proof {
        assert(enc_str_body(s@.take(0)) =~= Seq::<char>::empty());
        assert(out@ =~= base + seq!['"'] + enc_str_body(s@.take(0)));
    }
    while i < n
        invariant
            0 <= i <= n,
            n == s@.len(),
            out@ == base + seq!['"'] + enc_str_body(s@.take(i as int)),
        decreases n - i,
    {
        let c = s.get_char(i);
        let ghost prev = out@;
        if c == '"' {
            out.push('\\');
            out.push('"');
        } else if c == '\\' {
            out.push('\\');
            out.push('\\');
        } else if c == '\n' {
            out.push('\\');
            out.push('n');
        } else if c == '\r' {
            out.push('\\');
            out.push('r');
        } else if c == '\t' {
            out.push('\\');
            out.push('t');
        } else {
            out.push(c);
        }
        proof {
            assert(out@ =~= prev + esc_char(s@[i as int]));
            assert(s@.take(i + 1) =~= s@.take(i as int) + seq![s@[i as int]]);
            lemma_enc_str_body_concat(s@.take(i as int), seq![s@[i as int]]);
            assert(seq![s@[i as int]].drop_first() =~= Seq::<char>::empty());
            assert(enc_str_body(seq![s@[i as int]].drop_first()) =~= Seq::<char>::empty());
            assert(enc_str_body(seq![s@[i as int]]) =~= esc_char(s@[i as int]));
            assert(out@ =~= base + seq!['"'] + enc_str_body(s@.take(i + 1)));
        }
        i += 1;
    }
    out.push('"');
    proof {
        assert(s@.take(n as int) =~= s@);
        assert(out@ =~= base + enc_string(s@));
    }
}

/// Appends an encoded optional number.
fn push_opt_token(out: &mut Vec<char>, o: &Option<u64>)
    ensures
        final(out)@ == old(out)@ + enc_opt_u64(*o),
{
    match o {
        Some(n) => {
            crate::text::push_dec_digits(*n, out);
        },
        None => {
            let ghost base = out@;
            out.push('n');
            out.push('u');
            out.push('l');
            out.push('l');
            proof {
                assert(out@ =~= base + seq!['n', 'u', 'l', 'l']);
            }
        },
    }
}

/// Appends one string field.
fn push_str_field(out: &mut Vec<char>, key: &str, v: &str)
    ensures
        final(out)@ == old(out)@ + enc_str_field(key@, v@),
{
    let ghost base = out@;
    push_str_token(out, key);
    out.push(':');
    out.push(' ');
    push_str_token(out, v);
    proof {
        assert(out@ =~= base + enc_str_field(key@, v@));
    }
}

/// Appends one number field.
fn push_u64_field(out: &mut Vec<char>, key: &str, n: u64)
    ensures
        final(out)@ == old(out)@ + enc_u64_field(key@, n),
{
    let ghost base = out@;
    push_str_token(out, key);
    out.push(':');
    out.push(' ');
    crate::text::push_dec_digits(n, out);
    proof {
        assert(out@ =~= base + enc_u64_field(key@, n));
    }
}

/// Appends one optional-number field.
fn push_opt_field(out: &mut Vec<char>, key: &str, o: &Option<u64>)
    ensures
        final(out)@ == old(out)@ + enc_opt_field(key@, *o),
{
    let ghost base = out@;
    push_str_token(out, key);
    out.push(':');
    out.push(' ');
    push_opt_token(out, o);
    proof {
        assert(out@ =~= base + enc_opt_field(key@, *o));
    }
}

/// Appends one encoded job object. The proof names each emitted piece
/// and re-associates the appended prefix into the encoder's right-nested
/// shape, one piece at a time.
#[verifier::rlimit(100)]
fn push_job(out: &mut Vec<char>, j: &Job)
    ensures
        final(out)@ == old(out)@ + enc_job(j@),
{
    let ghost base = out@;
    let ghost sep: Seq<char> = seq![',', ' '];
    let ghost piece0: Seq<char> = seq!['{'];
    let ghost piece1: Seq<char> = enc_u64_field("id"@, j@.id);
    let ghost piece2: Seq<char> = sep;
    let ghost piece3: Seq<char> = enc_str_field("job_type_name"@, j@.job_type_name);
    let ghost piece4: Seq<char> = sep;
    let ghost piece5: Seq<char> = enc_str_field("job_type_symbol"@, j@.job_type_symbol);
    let ghost piece6: Seq<char> = sep;
    let ghost piece7: Seq<char> = enc_str_field("platform"@, j@.platform);
    let ghost piece8: Seq<char> = sep;
    let ghost piece9: Seq<char> = enc_str_field("platform_option"@, j@.platform_option);
    let ghost piece10: Seq<char> = sep;
    let ghost piece11: Seq<char> = enc_str_field("result"@, j@.result);
    let ghost piece12: Seq<char> = sep;
    let ghost piece13: Seq<char> = enc_str_field("state"@, j@.state);
    let ghost piece14: Seq<char> = sep;
    let ghost piece15: Seq<char> = enc_opt_field("failure_classification_id"@, j@.failure_classification_id);
    let ghost piece16: Seq<char> = sep;
    let ghost piece17: Seq<char> = enc_opt_field("duration"@, j@.duration);
    let ghost piece18: Seq<char> = seq!['}'];
    out.push('{');
    let ghost seen0 = out@;
    proof {
        assert(seen0 =~= base + piece0);
    }
    push_u64_field(out, "id", j.id);
    let ghost seen1 = out@;
    proof {
        assert(seen1 =~= seen0 + piece1);
    }
    out.push(',');
    out.push(' ');
    let ghost seen2 = out@;
    proof {
        assert(seen2 =~= seen1 + piece2);
    }
    push_str_field(out, "job_type_name", j.job_type_name.as_str());
    let ghost seen3 = out@;
    proof {
        assert(seen3 =~= seen2 + piece3);
    }
    out.push(',');
    out.push(' ');
    let ghost seen4 = out@;
    proof {
        assert(seen4 =~= seen3 + piece4);
    }
    push_str_field(out, "job_type_symbol", j.job_type_symbol.as_str());
    let ghost seen5 = out@;
    proof {
        assert(seen5 =~= seen4 + piece5);
    }
    out.push(',');
    out.push(' ');
    let ghost seen6 = out@;
    proof {
        assert(seen6 =~= seen5 + piece6);
    }
    push_str_field(out, "platform", j.platform.as_str());
    let ghost seen7 = out@;
    proof {
        assert(seen7 =~= seen6 + piece7);
    }
    out.push(',');
    out.push(' ');
    let ghost seen8 = out@;
    proof {
        assert(seen8 =~= seen7 + piece8);
    }
    push_str_field(out, "platform_option", j.platform_option.as_str());
    let ghost seen9 = out@;
    proof {
        assert(seen9 =~= seen8 + piece9);
    }
    out.push(',');
    out.push(' ');
    let ghost seen10 = out@;
    proof {
        assert(seen10 =~= seen9 + piece10);
    }
    push_str_field(out, "result", j.result.as_str());
    let ghost seen11 = out@;
    proof {
        assert(seen11 =~= seen10 + piece11);
    }
    out.push(',');
    out.push(' ');
    let ghost seen12 = out@;
    proof {
        assert(seen12 =~= seen11 + piece12);
    }
    push_str_field(out, "state", j.state.as_str());
    let ghost seen13 = out@;
    proof {
        assert(seen13 =~= seen12 + piece13);
    }
    out.push(',');
    out.push(' ');
    let ghost seen14 = out@;
    proof {
        assert(seen14 =~= seen13 + piece14);
    }
    push_opt_field(out, "failure_classification_id", &j.failure_classification_id);
    let ghost seen15 = out@;
    proof {
        assert(seen15 =~= seen14 + piece15);
    }
    out.push(',');
    out.push(' ');
    let ghost seen16 = out@;
    proof {
        assert(seen16 =~= seen15 + piece16);
    }
    push_opt_field(out, "duration", &j.duration);
    let ghost seen17 = out@;
    proof {
        assert(seen17 =~= seen16 + piece17);
    }
    out.push('}');
    let ghost seen18 = out@;
    proof {
        assert(seen18 =~= seen17 + piece18);
    }
    proof {
        let suffix18 = piece18;
        let suffix17 = piece17 + suffix18;
        let suffix16 = piece16 + suffix17;
        let suffix15 = piece15 + suffix16;
        let suffix14 = piece14 + suffix15;
        let suffix13 = piece13 + suffix14;
        let suffix12 = piece12 + suffix13;
        let suffix11 = piece11 + suffix12;
        let suffix10 = piece10 + suffix11;
        let suffix9 = piece9 + suffix10;
        let suffix8 = piece8 + suffix9;
        let suffix7 = piece7 + suffix8;
        let suffix6 = piece6 + suffix7;
        let suffix5 = piece5 + suffix6;
        let suffix4 = piece4 + suffix5;
        let suffix3 = piece3 + suffix4;
        let suffix2 = piece2 + suffix3;
        let suffix1 = piece1 + suffix2;
        let suffix0 = piece0 + suffix1;
        assert(out@ == seen17 + suffix18);
        lemma_seq_assoc(seen16, piece17, suffix18);
        lemma_seq_assoc(seen15, piece16, suffix17);
        lemma_seq_assoc(seen14, piece15, suffix16);
        lemma_seq_assoc(seen13, piece14, suffix15);
        lemma_seq_assoc(seen12, piece13, suffix14);
        lemma_seq_assoc(seen11, piece12, suffix13);
        lemma_seq_assoc(seen10, piece11, suffix12);
        lemma_seq_assoc(seen9, piece10, suffix11);
        lemma_seq_assoc(seen8, piece9, suffix10);
        lemma_seq_assoc(seen7, piece8, suffix9);
        lemma_seq_assoc(seen6, piece7, suffix8);
        lemma_seq_assoc(seen5, piece6, suffix7);
        lemma_seq_assoc(seen4, piece5, suffix6);
        lemma_seq_assoc(seen3, piece4, suffix5);
        lemma_seq_assoc(seen2, piece3, suffix4);
        lemma_seq_assoc(seen1, piece2, suffix3);
        lemma_seq_assoc(seen0, piece1, suffix2);
        lemma_seq_assoc(base, piece0, suffix1);
        assert(out@ == base + suffix0);
        reveal(enc_job_fields);
        assert(suffix18 =~= seq!['}'] + Seq::<char>::empty());
        assert(suffix1 == enc_job_fields(j@, Seq::<char>::empty()));
        assert(suffix0 == enc_job(j@));
    }
}

/// Appends an encoded job array.
fn push_jobs(out: &mut Vec<char>, jobs: &Vec<Job>)
    ensures
        final(out)@ == old(out)@ + enc_jobs(jobs.deep_view()),
{
    let ghost base = out@;
    let ghost jv = jobs.deep_view();
    if jobs.len() == 0 {
        out.push('[');
        out.push(']');
        proof {
            assert(out@ =~= base + enc_jobs(jv));
        }
        return ;
    }
    out.push('[');
    out.push('\n');
    out.push(' ');
    out.push(' ');
    out.push(' ');
    out.push(' ');
    let mut i: usize = 0;
    while i < jobs.len()
        invariant
            0 <= i < jobs@.len() || (i == jobs@.len() && jobs@.len() > 0),
            jv == jobs.deep_view(),
            jv.len() == jobs@.len(),
            jv.len() > 0,
            out@ == base + seq!['[', '\n', ' ', ' ', ' ', ' '] + enc_items_prefix(jv, i as int),
        decreases jobs@.len() - i,
    {
        let ghost prev = out@;
        if i > 0 {
            out.push(',');
            out.push('\n');
            out.push(' ');
            out.push(' ');
            out.push(' ');
            out.push(' ');
        }
        push_job(out, &jobs[i]);
        proof {
            assert(jv[i as int] == jobs@[i as int].deep_view());
            if i == 0 {
                assert(out@ =~= prev + enc_job(jv[0]));
            } else {
                assert(out@ =~= prev + (job_sep() + enc_job(jv[i as int])));
            }
            lemma_enc_items_prefix_step(jv, i as int);
        }
        i += 1;
    }
    out.push('\n');
    out.push(' ');
    out.push(' ');
    out.push(']');
    proof {
        lemma_enc_items_prefix_full(jv);
        assert(out@ =~= base + enc_jobs(jv));
    }
}

/// The encoding of the first `k` array elements, with separators.
pub open spec fn enc_items_prefix(jobs: Seq<JobView>, k: int) -> Seq<char>
    decreases k,
{
    if k <= 0 {
        Seq::empty()
    } else if k == 1 {
        enc_job(jobs[0])
    } else {
        enc_items_prefix(jobs, k - 1) + (job_sep() + enc_job(jobs[k - 1]))
    }
}

/// Extending the encoded prefix by one element.
pub proof fn lemma_enc_items_prefix_step(jobs: Seq<JobView>, i: int)
    requires
        0 <= i < jobs.len(),
    ensures
        enc_items_prefix(jobs, i + 1) == if i == 0 {
            enc_items_prefix(jobs, 0) + enc_job(jobs[0])
        } else {
            enc_items_prefix(jobs, i) + (job_sep() + enc_job(jobs[i]))
        },
{
    if i == 0 {
        assert(enc_items_prefix(jobs, 0) + enc_job(jobs[0]) =~= enc_job(jobs[0]));
    }
}

/// The full encoded prefix is the encoded element list.
pub proof fn lemma_enc_items_prefix_full(jobs: Seq<JobView>)
    requires
        jobs.len() >= 1,
    ensures
        enc_items_prefix(jobs, jobs.len() as int) == enc_jobs_items(jobs),
    decreases jobs.len(),
{
    lemma_items_prefix_shift(jobs, jobs.len() as int);
    assert(jobs.take(jobs.len() as int) =~= jobs);
}

/// The encoded prefix of `jobs` equals the encoded element list of the
/// first `k` elements.
proof fn lemma_items_prefix_shift(jobs: Seq<JobView>, k: int)
    requires
        1 <= k <= jobs.len(),
    ensures
        enc_items_prefix(jobs, k) == enc_jobs_items(jobs.take(k)),
    decreases k,
{
    if k == 1 {
        assert(jobs.take(1).len() == 1);
        assert(jobs.take(1)[0] == jobs[0]);
    } else {
        lemma_items_prefix_shift(jobs, k - 1);
        lemma_enc_jobs_items_snoc(jobs.take(k));
        assert(jobs.take(k).drop_last() =~= jobs.take(k - 1));
        assert(jobs.take(k).last() == jobs[k - 1]);
    }
}

/// The encoded element list of a sequence of two or more elements splits
/// at its last element.
proof fn lemma_enc_jobs_items_snoc(jobs: Seq<JobView>)
    requires
        jobs.len() >= 2,
    ensures
        enc_jobs_items(jobs) == enc_jobs_items(jobs.drop_last()) + (job_sep() + enc_job(
            jobs.last(),
        )),
    decreases jobs.len(),
{
    if jobs.len() == 2 {
        assert(jobs.drop_first().len() == 1);
        assert(jobs.drop_first()[0] == jobs[1]);
        assert(jobs.drop_last().len() == 1);
        assert(jobs.drop_last()[0] == jobs[0]);
        assert(enc_jobs_items(jobs.drop_first()) == enc_job(jobs[1]));
        assert(enc_jobs_items(jobs.drop_last()) == enc_job(jobs[0]));
    } else {
        lemma_enc_jobs_items_snoc(jobs.drop_first());
        assert(jobs.drop_first().drop_last() =~= jobs.drop_last().drop_first());
        assert(jobs.drop_first().last() == jobs.last());
        assert(jobs.drop_last().len() >= 2);
        let a = enc_job(jobs[0]);
        let sep = job_sep();
        let mid = enc_jobs_items(jobs.drop_last().drop_first());
        let lastpart = sep + enc_job(jobs.last());
        assert(enc_jobs_items(jobs) == a + (sep + enc_jobs_items(jobs.drop_first())));
        assert(enc_jobs_items(jobs.drop_first()) == mid + lastpart);
        assert(jobs.drop_last()[0] == jobs[0]);
        assert(enc_jobs_items(jobs.drop_last()) == a + (sep + mid));
        assert(a + (sep + (mid + lastpart)) =~= (a + (sep + mid)) + lastpart);
    }
}

/// Encodes the cache metadata as pretty JSON with the fixed field order.
#[verifier::rlimit(100)]
pub fn encode_metadata(m: &CachedPushMetadata) -> (r: String)
    ensures
        r@ == enc_metadata(m@),
{
    let mut out: Vec<char> = Vec::new();
    out.push('{');
    out.push('\n');
    out.push(' ');
    out.push(' ');
    push_str_field(&mut out, "revision", m.revision.as_str());
    out.push(',');
    out.push('\n');
    out.push(' ');
    out.push(' ');
    push_u64_field(&mut out, "push_id", m.push_id);
    out.push(',');
    out.push('\n');
    out.push(' ');
    out.push(' ');
    push_str_field(&mut out, "repo", m.repo.as_str());
    out.push(',');
    out.push('\n');
    out.push(' ');
    out.push(' ');
    push_str_token(&mut out, "jobs");
    out.push(':');
    out.push(' ');
    push_jobs(&mut out, &m.jobs);
    out.push('\n');
    out.push('}');
    proof {
        assert(out@ =~= enc_metadata(m@));
    }
    crate::text::chars_to_string(&out)
}

/// Whether a character is decoder whitespace.
fn is_ws_exec(c: char) -> (r: bool)
    ensures
        r == is_ws(c),
{
    c == ' ' || c == '\n' || c == '\t' || c == '\r'
}

/// Whether a character is a decimal digit.
fn is_digit_exec(c: char) -> (r: bool)
    ensures
        r == is_digit(c),
{
    c == '0' || c == '1' || c == '2' || c == '3' || c == '4' || c == '5' || c == '6' || c == '7'
        || c == '8' || c == '9'
}

/// The value of a digit character.
fn digit_val_exec(c: char) -> (r: u64)
    requires
        is_digit(c),
    ensures
        r == digit_val(c),
        r <= 9,
{
    if c == '0' {
        0
    } else if c == '1' {
        1
    } else if c == '2' {
        2
    } else if c == '3' {
        3
    } else if c == '4' {
        4
    } else if c == '5' {
        5
    } else if c == '6' {
        6
    } else if c == '7' {
        7
    } else if c == '8' {
        8
    } else {
        9
    }
}

/// Advances past decoder whitespace.
fn skip_ws_exec(v: &Vec<char>, pos: usize) -> (r: usize)
    requires
        pos <= v@.len(),
    ensures
        pos <= r <= v@.len(),
        v@.skip(r as int) == dec_ws(v@.skip(pos as int)),
        r < v@.len() ==> !is_ws(v@[r as int]),
{
    let mut cur = pos;
    while cur < v.len() && is_ws_exec(v[cur])
        invariant
            pos <= cur <= v@.len(),
            dec_ws(v@.skip(pos as int)) == dec_ws(v@.skip(cur as int)),
        decreases v@.len() - cur,
    {
        proof {
            assert(v@.skip(cur as int)[0] == v@[cur as int]);
            assert(v@.skip(cur as int).drop_first() =~= v@.skip(cur + 1));
        }
        cur += 1;
    }
    proof {
        if cur < v.len() {
            assert(v@.skip(cur as int)[0] == v@[cur as int]);
        }
        assert(dec_ws(v@.skip(cur as int)) == v@.skip(cur as int));
    }
    cur
}

/// Reads one expected character, skipping leading whitespace.
fn parse_char(v: &Vec<char>, pos: usize, c: char) -> (r: Option<usize>)
    requires
        pos <= v@.len(),
    ensures
        match r {
            Some(p) => pos < p <= v@.len() && dec_char(v@.skip(pos as int), c) == Some(
                v@.skip(p as int),
            ),
            None => dec_char(v@.skip(pos as int), c) is None,
        },
{
    let q = skip_ws_exec(v, pos);
    if q < v.len() && v[q] == c {
        proof {
            assert(v@.skip(q as int)[0] == v@[q as int]);
            assert(v@.skip(q as int).drop_first() =~= v@.skip(q + 1));
        }
        Some(q + 1)
    } else {
        proof {
            if q < v.len() {
                assert(v@.skip(q as int)[0] == v@[q as int]);
            }
        }
        None
    }
}

/// Reads one string token, skipping leading whitespace.
fn parse_string(v: &Vec<char>, pos: usize) -> (r: Option<(String, usize)>)
    requires
        pos <= v@.len(),
    ensures
        match r {
            Some(sp) => pos < sp.1 <= v@.len() && dec_string(v@.skip(pos as int)) == Some(
                (sp.0@, v@.skip(sp.1 as int)),
            ),
            None => dec_string(v@.skip(pos as int)) is None,
        },
{
    let start = match parse_char(v, pos, '"') {
        Some(p) => p,
        None => {
            return None;
        },
    };
    let mut cur = start;
    let mut acc: Vec<char> = Vec::new();
    proof {
        assert(acc@ =~= Seq::<char>::empty());
    }
    while cur < v.len()
        invariant
            start <= cur <= v@.len(),
            pos < start,
            dec_string(v@.skip(pos as int)) == (match dec_str_body(v@.skip(cur as int)) {
                Some(br) => Some::<(Seq<char>, Seq<char>)>((acc@ + br.0, br.1)),
                None => None::<(Seq<char>, Seq<char>)>,
            }),
        decreases v@.len() - cur,
    {
        let c = v[cur];
        proof {
            assert(v@.skip(cur as int)[0] == c);
        }
        if c == '"' {
            proof {
                assert(v@.skip(cur as int).drop_first() =~= v@.skip(cur + 1));
                assert(acc@ + Seq::<char>::empty() =~= acc@);
            }
            let out = crate::text::chars_to_string(&acc);
            return Some((out, cur + 1));
        } else if c == '\\' {
            if cur + 1 >= v.len() {
                proof {
                    assert(v@.skip(cur as int).len() < 2);
                }
                return None;
            }
            let e = v[cur + 1];
            proof {
                assert(v@.skip(cur as int)[1] == e);
            }
            let u: char = if e == '"' {
                '"'
            } else if e == '\\' {
                '\\'
            } else if e == 'n' {
                '\n'
            } else if e == 'r' {
                '\r'
            } else if e == 't' {
                '\t'
            } else {
                proof {
                    assert(unesc_char(e) is None);
                }
                return None;
            };
            proof {
                assert(unesc_char(e) == Some(u));
            }
            let ghost prev = acc@;
            acc.push(u);
            proof {
                assert(acc@ =~= prev.push(u));
                assert(v@.skip(cur as int).skip(2) =~= v@.skip(cur + 2));
                assert forall|b: Seq<char>| prev + (seq![u] + b) =~= acc@ + b by {}
            }
            cur += 2;
        } else {
            let ghost prev = acc@;
            acc.push(c);
            proof {
                assert(acc@ =~= prev.push(c));
                assert(v@.skip(cur as int).drop_first() =~= v@.skip(cur + 1));
                assert forall|b: Seq<char>| prev + (seq![c] + b) =~= acc@ + b by {}
            }
            cur += 1;
        }
    }
    proof {
        assert(v@.skip(cur as int).len() == 0);
    }
    None
}

/// Reads one unsigned number, skipping leading whitespace.
fn parse_u64(v: &Vec<char>, pos: usize) -> (r: Option<(u64, usize)>)
    requires
        pos <= v@.len(),
    ensures
        match r {
            Some(np) => pos < np.1 <= v@.len() && dec_u64(v@.skip(pos as int)) == Some(
                (np.0, v@.skip(np.1 as int)),
            ),
            None => dec_u64(v@.skip(pos as int)) is None,
        },
{
    let q = skip_ws_exec(v, pos);
    let ghost rseq = v@.skip(q as int);
    let mut e = q;
    while e < v.len() && is_digit_exec(v[e])
        invariant
            q <= e <= v@.len(),
            forall|i: int| q <= i < e ==> is_digit(#[trigger] v@[i]),
        decreases v@.len() - e,
    {
        e += 1;
    }
    proof {
        let run = rseq.take((e - q) as int);
        assert forall|i: int| 0 <= i < run.len() implies is_digit(#[trigger] run[i]) by {
            assert(run[i] == v@[q + i]);
        }
        assert(rseq =~= run + v@.skip(e as int));
        if e < v.len() {
            assert(v@.skip(e as int)[0] == v@[e as int]);
        }
        lemma_digit_run_exact(run, v@.skip(e as int));
        assert(digit_run(rseq) == e - q);
    }
    if e == q {
        return None;
    }
    let ghost run = rseq.take((e - q) as int);
    let mut val: u64 = 0;
    let mut m = q;
    proof {
        assert(run.take(0) =~= Seq::<char>::empty());
    }
    while m < e
        invariant
            pos <= q < e <= v@.len(),
            q <= m <= e,
            rseq == v@.skip(q as int),
            rseq == dec_ws(v@.skip(pos as int)),
            digit_run(rseq) == e - q,
            run == rseq.take((e - q) as int),
            forall|i: int| 0 <= i < run.len() ==> is_digit(#[trigger] run[i]),
            run.len() == e - q,
            val == dec_val(run.take((m - q) as int)),
        decreases e - m,
    {
        proof {
            assert(run[(m - q) as int] == v@[m as int]);
        }
        let d = digit_val_exec(v[m]);
        if val > (u64::MAX - d) / 10 {
            proof {
                let k = (u64::MAX - d) as int / 10;
                vstd::arithmetic::div_mod::lemma_fundamental_div_mod((u64::MAX - d) as int, 10);
                assert(val * 10 >= (k + 1) * 10) by (nonlinear_arith)
                    requires
                        val >= k + 1,
                ;
                assert(val * 10 + d > u64::MAX);
                assert(run.take((m - q) as int + 1).drop_last() =~= run.take((m - q) as int));
                assert(run.take((m - q) as int + 1).last() == run[(m - q) as int]);
                assert(dec_val(run.take((m - q) as int + 1)) > u64::MAX);
                lemma_dec_val_prefix_le(run, (m - q) as int + 1);
                assert(dec_val(run) > u64::MAX);
            }
            return None;
        }
        proof {
            let k = (u64::MAX - d) as int / 10;
            vstd::arithmetic::div_mod::lemma_fundamental_div_mod((u64::MAX - d) as int, 10);
            assert(val * 10 <= k * 10) by (nonlinear_arith)
                requires
                    0 <= val <= k,
            ;
            assert(val * 10 + d <= u64::MAX);
            assert(run.take((m - q) as int + 1).drop_last() =~= run.take((m - q) as int));
            assert(run.take((m - q) as int + 1).last() == run[(m - q) as int]);
        }
        val = val * 10 + d;
        m += 1;
    }
    proof {
        assert(run.take((e - q) as int) =~= run);
        assert(dec_val(run) == val);
        assert(rseq.skip((e - q) as int) =~= v@.skip(e as int));
    }
    Some((val, e))
}

/// Reads `null` or an unsigned number, skipping leading whitespace.
fn parse_opt_u64(v: &Vec<char>, pos: usize) -> (r: Option<(Option<u64>, usize)>)
    requires
        pos <= v@.len(),
    ensures
        match r {
            Some(np) => pos < np.1 <= v@.len() && dec_opt_u64(v@.skip(pos as int)) == Some(
                (np.0, v@.skip(np.1 as int)),
            ),
            None => dec_opt_u64(v@.skip(pos as int)) is None,
        },
{
    let q = skip_ws_exec(v, pos);
    let ghost rseq = v@.skip(q as int);
    if v.len() - q >= 4 && v[q] == 'n' && v[q + 1] == 'u' && v[q + 2] == 'l' && v[q + 3] == 'l' {
        proof {
            assert(rseq[0] == v@[q as int]);
            assert(rseq[1] == v@[q + 1]);
            assert(rseq[2] == v@[q + 2]);
            assert(rseq[3] == v@[q + 3]);
            assert(rseq.skip(4) =~= v@.skip(q + 4));
        }
        return Some((None, q + 4));
    }
    proof {
        if rseq.len() >= 4 && rseq[0] == 'n' && rseq[1] == 'u' && rseq[2] == 'l' && rseq[3]
            == 'l' {
            assert(v@[q as int] == rseq[0]);
            assert(v@[q + 1] == rseq[1]);
            assert(v@[q + 2] == rseq[2]);
            assert(v@[q + 3] == rseq[3]);
            assert(false);
        }
        assert(dec_ws(rseq) == rseq);
    }
    match parse_u64(v, q) {
        Some((n, p)) => {
            proof {
                assert(dec_u64(rseq) == Some((n, v@.skip(p as int))));
            }
            Some((Some(n), p))
        },
        None => None,
    }
}

/// Reads one string field: a key (read positionally), a colon, a string
/// value.
fn parse_str_field(v: &Vec<char>, pos: usize) -> (r: Option<(String, usize)>)
    requires
        pos <= v@.len(),
    ensures
        match r {
            Some(sp) => pos < sp.1 <= v@.len() && dec_field_str(v@.skip(pos as int)) == Some(
                (sp.0@, v@.skip(sp.1 as int)),
            ),
            None => dec_field_str(v@.skip(pos as int)) is None,
        },
{
    let p1 = match parse_string(v, pos) {
        Some((_k, p)) => p,
        None => {
            return None;
        },
    };
    let p2 = match parse_char(v, p1, ':') {
        Some(p) => p,
        None => {
            return None;
        },
    };
    parse_string(v, p2)
}

/// Reads one number field.
fn parse_u64_field(v: &Vec<char>, pos: usize) -> (r: Option<(u64, usize)>)
    requires
        pos <= v@.len(),
    ensures
        match r {
            Some(np) => pos < np.1 <= v@.len() && dec_field_u64(v@.skip(pos as int)) == Some(
                (np.0, v@.skip(np.1 as int)),
            ),
            None => dec_field_u64(v@.skip(pos as int)) is None,
        },
{
    let p1 = match parse_string(v, pos) {
        Some((_k, p)) => p,
        None => {
            return None;
        },
    };
    let p2 = match parse_char(v, p1, ':') {
        Some(p) => p,
        None => {
            return None;
        },
    };
    parse_u64(v, p2)
}

/// Reads one optional-number field.
fn parse_opt_field(v: &Vec<char>, pos: usize) -> (r: Option<(Option<u64>, usize)>)
    requires
        pos <= v@.len(),
    ensures
        match r {
            Some(np) => pos < np.1 <= v@.len() && dec_field_opt_u64(v@.skip(pos as int)) == Some(
                (np.0, v@.skip(np.1 as int)),
            ),
            None => dec_field_opt_u64(v@.skip(pos as int)) is None,
        },
{
    let p1 = match parse_string(v, pos) {
        Some((_k, p)) => p,
        None => {
            return None;
        },
    };
    let p2 = match parse_char(v, p1, ':') {
        Some(p) => p,
        None => {
            return None;
        },
    };
    parse_opt_u64(v, p2)
}

/// Reads one job object.
fn parse_job(v: &Vec<char>, pos: usize) -> (r: Option<(Job, usize)>)
    requires
        pos <= v@.len(),
    ensures
        match r {
            Some(jp) => pos < jp.1 <= v@.len() && dec_job(v@.skip(pos as int)) == Some(
                (jp.0@, v@.skip(jp.1 as int)),
            ),
            None => dec_job(v@.skip(pos as int)) is None,
        },
{
    proof {
        reveal(dec_job);
    }
    let p0 = match parse_char(v, pos, '{') {
        Some(p) => p,
        None => {
            return None;
        },
    };
    let (id, p1) = match parse_u64_field(v, p0) {
        Some(x) => x,
        None => {
            return None;
        },
    };
    let p1b = match parse_char(v, p1, ',') {
        Some(p) => p,
        None => {
            return None;
        },
    };
    let (job_type_name, p2) = match parse_str_field(v, p1b) {
        Some(x) => x,
        None => {
            return None;
        },
    };
    let p2b = match parse_char(v, p2, ',') {
        Some(p) => p,
        None => {
            return None;
        },
    };
    let (job_type_symbol, p3) = match parse_str_field(v, p2b) {
        Some(x) => x,
        None => {
            return None;
        },
    };
    let p3b = match parse_char(v, p3, ',') {
        Some(p) => p,
        None => {
            return None;
        },
    };
    let (platform, p4) = match parse_str_field(v, p3b) {
        Some(x) => x,
        None => {
            return None;
        },
    };
    let p4b = match parse_char(v, p4, ',') {
        Some(p) => p,
        None => {
            return None;
        },
    };
    let (platform_option, p5) = match parse_str_field(v, p4b) {
        Some(x) => x,
        None => {
            return None;
        },
    };
    let p5b = match parse_char(v, p5, ',') {
        Some(p) => p,
        None => {
            return None;
        },
    };
    let (result, p6) = match parse_str_field(v, p5b) {
        Some(x) => x,
        None => {
            return None;
        },
    };
    let p6b = match parse_char(v, p6, ',') {
        Some(p) => p,
        None => {
            return None;
        },
    };
    let (state, p7) = match parse_str_field(v, p6b) {
        Some(x) => x,
        None => {
            return None;
        },
    };
    let p7b = match parse_char(v, p7, ',') {
        Some(p) => p,
        None => {
            return None;
        },
    };
    let (fci, p8) = match parse_opt_field(v, p7b) {
        Some(x) => x,
        None => {
            return None;
        },
    };
    let p8b = match parse_char(v, p8, ',') {
        Some(p) => p,
        None => {
            return None;
        },
    };
    let (duration, p9) = match parse_opt_field(v, p8b) {
        Some(x) => x,
        None => {
            return None;
        },
    };
    let p10 = match parse_char(v, p9, '}') {
        Some(p) => p,
        None => {
            return None;
        },
    };
    let job = Job {
        id,
        job_type_name,
        job_type_symbol,
        platform,
        platform_option,
        result,
        state,
        failure_classification_id: fci,
        duration,
    };
    proof {
        assert(job@ =~= dec_job(v@.skip(pos as int)).unwrap().0);
    }
    Some((job, p10))
}

/// Reads a job array.
fn parse_jobs(v: &Vec<char>, pos: usize) -> (r: Option<(Vec<Job>, usize)>)
    requires
        pos <= v@.len(),
    ensures
        match r {
            Some(jp) => pos < jp.1 <= v@.len() && dec_jobs(v@.skip(pos as int)) == Some(
                (jp.0.deep_view(), v@.skip(jp.1 as int)),
            ),
            None => dec_jobs(v@.skip(pos as int)) is None,
        },
{
    let p0 = match parse_char(v, pos, '[') {
        Some(p) => p,
        None => {
            return None;
        },
    };
    let q = skip_ws_exec(v, p0);
    if q < v.len() && v[q] == ']' {
        proof {
            assert(v@.skip(q as int)[0] == v@[q as int]);
            assert(v@.skip(q as int).drop_first() =~= v@.skip(q + 1));
        }
        let out: Vec<Job> = Vec::new();
        proof {
            assert(out.deep_view() =~= Seq::<JobView>::empty());
        }
        return Some((out, q + 1));
    }
    proof {
        if q < v.len() {
            assert(v@.skip(q as int)[0] == v@[q as int]);
        }
    }
    let mut acc: Vec<Job> = Vec::new();
    let mut cur = p0;
    let ghost items_start = p0;
    proof {
        assert(acc.deep_view() =~= Seq::<JobView>::empty());
    }
    proof {
        assert(dec_jobs(v@.skip(pos as int)) == dec_jobs_items(v@.skip(items_start as int)));
    }
    loop
        invariant
            pos < cur <= v@.len(),
            dec_jobs(v@.skip(pos as int)) == dec_jobs_items(v@.skip(items_start as int)),
            dec_jobs_items(v@.skip(items_start as int)) == (match dec_jobs_items(
                v@.skip(cur as int),
            ) {
                Some(jr) => Some::<(Seq<JobView>, Seq<char>)>((acc.deep_view() + jr.0, jr.1)),
                None => None::<(Seq<JobView>, Seq<char>)>,
            }),
        decreases v@.len() - cur,
    {
        let (job, p1) = match parse_job(v, cur) {
            Some(x) => x,
            None => {
                return None;
            },
        };
        let q2 = skip_ws_exec(v, p1);
        if q2 >= v.len() {
            proof {
                assert(dec_ws(v@.skip(p1 as int)).len() == 0);
            }
            return None;
        }
        let c = v[q2];
        proof {
            assert(v@.skip(q2 as int)[0] == c);
        }
        if c == ']' {
            let ghost prev = acc.deep_view();
            acc.push(job);
            proof {
                assert(v@.skip(q2 as int).drop_first() =~= v@.skip(q2 + 1));
                assert(acc.deep_view() =~= prev + seq![job@]);
            }
            return Some((acc, q2 + 1));
        } else if c == ',' {
            let ghost prev = acc.deep_view();
            acc.push(job);
            proof {
                assert(v@.skip(q2 as int).drop_first() =~= v@.skip(q2 + 1));
                assert(v@.skip(q2 + 1).len() < v@.skip(cur as int).len());
                assert(acc.deep_view() =~= prev + seq![job@]);
                assert forall|js: Seq<JobView>| prev + (seq![job@] + js) =~= acc.deep_view()
                    + js by {}
            }
            cur = q2 + 1;
        } else {
            return None;
        }
    }
}

/// Decodes a metadata text, as `dec_metadata` describes.
pub fn parse_metadata(text: &str) -> (r: Option<CachedPushMetadata>)
    ensures
        r.deep_view() == dec_metadata(text@),
{
    let v = crate::text::str_to_chars(text);
    proof {
        assert(v@.skip(0) =~= v@);
    }
    let p0 = match parse_char(&v, 0, '{') {
        Some(p) => p,
        None => {
            return None;
        },
    };
    let (revision, p1) = match parse_str_field(&v, p0) {
        Some(x) => x,
        None => {
            return None;
        },
    };
    let p1b = match parse_char(&v, p1, ',') {
        Some(p) => p,
        None => {
            return None;
        },
    };
    let (push_id, p2) = match parse_u64_field(&v, p1b) {
        Some(x) => x,
        None => {
            return None;
        },
    };
    let p2b = match parse_char(&v, p2, ',') {
        Some(p) => p,
        None => {
            return None;
        },
    };
    let (repo, p3) = match parse_str_field(&v, p2b) {
        Some(x) => x,
        None => {
            return None;
        },
    };
    let p3b = match parse_char(&v, p3, ',') {
        Some(p) => p,
        None => {
            return None;
        },
    };
    let (_jobs_key, p4) = match parse_string(&v, p3b) {
        Some(x) => x,
        None => {
            return None;
        },
    };
    let p4b = match parse_char(&v, p4, ':') {
        Some(p) => p,
        None => {
            return None;
        },
    };
    let (jobs, p5) = match parse_jobs(&v, p4b) {
        Some(x) => x,
        None => {
            return None;
        },
    };
    let p6 = match parse_char(&v, p5, '}') {
        Some(p) => p,
        None => {
            return None;
        },
    };
    let p7 = skip_ws_exec(&v, p6);
    if p7 != v.len() {
        proof {
            assert(dec_ws(v@.skip(p6 as int)).len() > 0);
        }
        return None;
    }
    let m = CachedPushMetadata { revision, push_id, repo, jobs };
    proof {
        assert(dec_ws(v@.skip(p6 as int)).len() == 0);
        assert(m@ =~= dec_metadata(text@).unwrap());
    }
    Some(m)
}

} // verus!

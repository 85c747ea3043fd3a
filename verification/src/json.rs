//! The JSON wire format the provider speaks, restricted to what its API
//! exchanges: objects whose values are strings, integers, or arrays of
//! objects with scalar values. Encoding and parsing are both defined here,
//! first as specification functions over character sequences and then as
//! executable functions proved against them.

use vstd::prelude::*;

verus! {

// ----- characters ---------------------------------------------------------

/// A decimal digit.
pub open spec fn is_digit_char(c: char) -> bool {
    48 <= c as u32 && c as u32 <= 57
}

/// The numeric value of a decimal digit.
pub open spec fn digit_val(c: char) -> int {
    c as u32 - 48
}

/// How a single character appears inside an encoded JSON string: the
/// quote, the backslash and the three common control characters take a
/// two-character escape; everything else stands for itself.
pub open spec fn escape_char(c: char) -> Seq<char> {
    if c == '"' {
        seq!['\\', '"']
    } else if c == '\\' {
        seq!['\\', '\\']
    } else if c == '\n' {
        seq!['\\', 'n']
    } else if c == '\r' {
        seq!['\\', 'r']
    } else if c == '\t' {
        seq!['\\', 't']
    } else {
        seq![c]
    }
}

/// A whole character sequence, escaped.
pub open spec fn escape_seq(s: Seq<char>) -> Seq<char>
    decreases s.len(),
{
    if s.len() == 0 {
        Seq::empty()
    } else {
        escape_char(s[0]) + escape_seq(s.drop_first())
    }
}

/// The character a two-character escape stands for, given the character
/// after the backslash; `None` where the escape is not one this format
/// produces.
pub open spec fn unescape_char(c: char) -> Option<char> {
    if c == '"' {
        Some('"')
    } else if c == '\\' {
        Some('\\')
    } else if c == 'n' {
        Some('\n')
    } else if c == 'r' {
        Some('\r')
    } else if c == 't' {
        Some('\t')
    } else {
        None
    }
}

/// An encoded JSON string: the content escaped, between double quotes.
pub open spec fn enc_string(s: Seq<char>) -> Seq<char> {
    seq!['"'] + escape_seq(s) + seq!['"']
}

// ----- parsing strings -----------------------------------------------------

/// Parses the remainder of a JSON string, the opening quote already
/// consumed: the decoded content and what follows the closing quote.
pub open spec fn take_string(s: Seq<char>) -> Option<(Seq<char>, Seq<char>)>
    decreases s.len(),
{
    if s.len() == 0 {
        None
    } else if s[0] == '"' {
        Some((Seq::empty(), s.drop_first()))
    } else if s[0] == '\\' {
        if s.len() >= 2 {
            match unescape_char(s[1]) {
                Some(u) => match take_string(s.skip(2)) {
                    Some((t, r)) => Some((seq![u] + t, r)),
                    None => None,
                },
                None => None,
            }
        } else {
            None
        }
    } else {
        match take_string(s.drop_first()) {
            Some((t, r)) => Some((seq![s[0]] + t, r)),
            None => None,
        }
    }
}

/// A successful string parse consumes at least the closing quote.
pub proof fn lemma_take_string_consumes(s: Seq<char>)
    ensures
        take_string(s) is Some ==> (take_string(s)->0).1.len() < s.len(),
    decreases s.len(),
{
    if s.len() == 0 {
    } else if s[0] == '"' {
    } else if s[0] == '\\' {
        if s.len() >= 2 && unescape_char(s[1]) is Some {
            lemma_take_string_consumes(s.skip(2));
        }
    } else {
        lemma_take_string_consumes(s.drop_first());
    }
}

/// Parsing an escaped content followed by the closing quote gives the
/// content back and leaves exactly what followed.
pub proof fn lemma_take_string_escape(t: Seq<char>, rest: Seq<char>)
    ensures
        take_string(escape_seq(t) + seq!['"'] + rest) == Some((t, rest)),
    decreases t.len(),
{
    let s = escape_seq(t) + seq!['"'] + rest;
    if t.len() == 0 {
        assert(escape_seq(t) =~= Seq::<char>::empty());
        assert(s[0] == '"');
        assert(s.drop_first() =~= rest);
    } else {
        let c = t[0];
        let tl = t.drop_first();
        lemma_take_string_escape(tl, rest);
        let s2 = escape_seq(tl) + seq!['"'] + rest;
        if c == '"' || c == '\\' || c == '\n' || c == '\r' || c == '\t' {
            assert(escape_char(c).len() == 2);
            assert(s[0] == '\\');
            assert(s[1] == escape_char(c)[1]);
            assert(unescape_char(escape_char(c)[1]) == Some(c));
            assert(s.skip(2) =~= s2);
            assert(take_string(s) == Some((seq![c] + tl, rest)));
        } else {
            assert(escape_char(c) =~= seq![c]);
            assert(s[0] == c);
            assert(s[0] != '"' && s[0] != '\\');
            assert(s.drop_first() =~= s2);
            assert(take_string(s) == Some((seq![c] + tl, rest)));
        }
        assert(seq![c] + tl =~= t);
    }
}

// ----- integers ------------------------------------------------------------

/// How many leading characters of `s` are decimal digits.
pub open spec fn digit_run_len(s: Seq<char>) -> int
    decreases s.len(),
{
    if s.len() == 0 || !is_digit_char(s[0]) {
        0
    } else {
        1 + digit_run_len(s.drop_first())
    }
}

/// The value of a sequence of decimal digits, most significant first.
pub open spec fn digits_val(ds: Seq<char>) -> int
    decreases ds.len(),
{
    if ds.len() == 0 {
        0
    } else {
        digits_val(ds.drop_last()) * 10 + digit_val(ds.last())
    }
}

/// Parses a non-negative integer: the value of the maximal leading digit
/// run and what follows it. Fails on an empty run and on values beyond
/// what an `i64` holds.
pub open spec fn take_uint(s: Seq<char>) -> Option<(int, Seq<char>)> {
    let n = digit_run_len(s);
    if n == 0 {
        None
    } else if digits_val(s.take(n)) > i64::MAX {
        None
    } else {
        Some((digits_val(s.take(n)), s.skip(n)))
    }
}

/// Parses an optionally negated integer.
pub open spec fn take_int(s: Seq<char>) -> Option<(int, Seq<char>)> {
    if s.len() > 0 && s[0] == '-' {
        match take_uint(s.drop_first()) {
            Some((v, r)) => Some((-v, r)),
            None => None,
        }
    } else {
        take_uint(s)
    }
}

/// The digit character for a value below ten.
pub open spec fn digit_char(d: int) -> char {
    if d == 0 {
        '0'
    } else if d == 1 {
        '1'
    } else if d == 2 {
        '2'
    } else if d == 3 {
        '3'
    } else if d == 4 {
        '4'
    } else if d == 5 {
        '5'
    } else if d == 6 {
        '6'
    } else if d == 7 {
        '7'
    } else if d == 8 {
        '8'
    } else {
        '9'
    }
}

/// The decimal encoding of a non-negative integer, most significant
/// digit first.
pub open spec fn dec_u(n: int) -> Seq<char>
    recommends
        n >= 0,
    decreases n,
{
    if n < 10 {
        seq![digit_char(n)]
    } else {
        dec_u(n / 10).push(digit_char(n % 10))
    }
}

/// The decimal encoding of an integer, with a leading minus sign where
/// it is negative.
pub open spec fn dec_int(n: int) -> Seq<char> {
    if n < 0 {
        seq!['-'] + dec_u(-n)
    } else {
        dec_u(n)
    }
}

/// The digit run never reaches past the end of the sequence.
pub proof fn lemma_digit_run_len_le(s: Seq<char>)
    ensures
        0 <= digit_run_len(s) <= s.len(),
    decreases s.len(),
{
    if s.len() != 0 && is_digit_char(s[0]) {
        lemma_digit_run_len_le(s.drop_first());
    }
}

/// Every character inside the digit run is a digit.
pub proof fn lemma_digit_run_digits(s: Seq<char>)
    ensures
        forall|i: int| 0 <= i < digit_run_len(s) ==> is_digit_char(s[i]),
    decreases s.len(),
{
    if s.len() != 0 && is_digit_char(s[0]) {
        lemma_digit_run_len_le(s.drop_first());
        lemma_digit_run_digits(s.drop_first());
        assert forall|i: int| 0 <= i < digit_run_len(s) implies is_digit_char(s[i]) by {
            if i > 0 {
                assert(s.drop_first()[i - 1] == s[i]);
            }
        }
    }
}

/// The value of an all-digit sequence is non-negative.
pub proof fn lemma_digits_val_nonneg(ds: Seq<char>)
    requires
        forall|i: int| 0 <= i < ds.len() ==> is_digit_char(ds[i]),
    ensures
        digits_val(ds) >= 0,
    decreases ds.len(),
{
    if ds.len() != 0 {
        assert(forall|i: int|
            0 <= i < ds.drop_last().len() ==> is_digit_char(#[trigger] ds.drop_last()[i]));
        lemma_digits_val_nonneg(ds.drop_last());
        assert(digit_val(ds.last()) >= 0);
    }
}

/// Extending an all-digit sequence never shrinks its value.
pub proof fn lemma_digits_val_prefix(ds: Seq<char>, k: int)
    requires
        0 <= k <= ds.len(),
        forall|i: int| 0 <= i < ds.len() ==> is_digit_char(ds[i]),
    ensures
        digits_val(ds.take(k)) <= digits_val(ds),
    decreases ds.len(),
{
    if k == ds.len() {
        assert(ds.take(k) =~= ds);
    } else {
        assert(forall|i: int|
            0 <= i < ds.drop_last().len() ==> is_digit_char(#[trigger] ds.drop_last()[i]));
        assert(ds.drop_last().take(k) =~= ds.take(k));
        lemma_digits_val_prefix(ds.drop_last(), k);
        lemma_digits_val_nonneg(ds.drop_last());
        assert(digit_val(ds.last()) >= 0);
        assert(digits_val(ds.drop_last()) * 10 >= digits_val(ds.drop_last()));
    }
}

/// The decimal encoding of `n` is all digits and decodes back to `n`.
pub proof fn lemma_dec_u_correct(n: int)
    requires
        n >= 0,
    ensures
        dec_u(n).len() >= 1,
        forall|i: int| 0 <= i < dec_u(n).len() ==> is_digit_char(dec_u(n)[i]),
        digits_val(dec_u(n)) == n,
    decreases n,
{
    if n < 10 {
        let ds = dec_u(n);
        assert(ds =~= seq![digit_char(n)]);
        assert(is_digit_char(digit_char(n)));
        assert(digit_val(digit_char(n)) == n);
        assert(ds.drop_last() =~= Seq::<char>::empty());
        assert(digits_val(ds) == digits_val(Seq::<char>::empty()) * 10 + digit_val(ds.last()));
    } else {
        lemma_dec_u_correct(n / 10);
        let hd = dec_u(n / 10);
        let ds = hd.push(digit_char(n % 10));
        assert(dec_u(n) == ds);
        assert(ds.drop_last() =~= hd);
        assert(ds.last() == digit_char(n % 10));
        assert(is_digit_char(digit_char(n % 10)));
        assert(digit_val(digit_char(n % 10)) == n % 10);
        assert forall|i: int| 0 <= i < ds.len() implies is_digit_char(ds[i]) by {
            if i < hd.len() {
                assert(ds[i] == hd[i]);
            }
        }
        assert(digits_val(ds) == (n / 10) * 10 + n % 10);
        assert((n / 10) * 10 + n % 10 == n) by (nonlinear_arith);
    }
}

/// The digit run of an all-digit sequence followed by a non-digit is
/// exactly that sequence.
pub proof fn lemma_digit_run_of_concat(ds: Seq<char>, rest: Seq<char>)
    requires
        forall|i: int| 0 <= i < ds.len() ==> is_digit_char(ds[i]),
        rest.len() == 0 || !is_digit_char(rest[0]),
    ensures
        digit_run_len(ds + rest) == ds.len(),
    decreases ds.len(),
{
    if ds.len() == 0 {
        assert(ds + rest =~= rest);
    } else {
        assert((ds + rest)[0] == ds[0]);
        assert((ds + rest).drop_first() =~= ds.drop_first() + rest);
        assert(forall|i: int|
            0 <= i < ds.drop_first().len() ==> is_digit_char(#[trigger] ds.drop_first()[i]));
        lemma_digit_run_of_concat(ds.drop_first(), rest);
    }
}

/// Parsing the decimal encoding of `n` followed by anything that does not
/// begin with a digit gives `n` back and leaves exactly what followed.
pub proof fn lemma_take_uint_dec(n: int, rest: Seq<char>)
    requires
        0 <= n <= i64::MAX,
        rest.len() == 0 || !is_digit_char(rest[0]),
    ensures
        take_uint(dec_u(n) + rest) == Some((n, rest)),
{
    lemma_dec_u_correct(n);
    let ds = dec_u(n);
    let s = ds + rest;
    lemma_digit_run_of_concat(ds, rest);
    assert(s.take(ds.len() as int) =~= ds);
    assert(s.skip(ds.len() as int) =~= rest);
}

/// The signed counterpart of `lemma_take_uint_dec`.
pub proof fn lemma_take_int_dec(n: int, rest: Seq<char>)
    requires
        -i64::MAX <= n <= i64::MAX,
        rest.len() == 0 || !is_digit_char(rest[0]),
    ensures
        take_int(dec_int(n) + rest) == Some((n, rest)),
{
    if n < 0 {
        let s = dec_int(n) + rest;
        lemma_take_uint_dec(-n, rest);
        assert(s[0] == '-');
        assert(s.drop_first() =~= dec_u(-n) + rest);
    } else {
        lemma_take_uint_dec(n, rest);
        lemma_dec_u_correct(n);
        let s = dec_int(n) + rest;
        assert(s[0] == dec_u(n)[0]);
        assert(is_digit_char(s[0]));
        assert(s[0] != '-');
    }
}

// ----- values, objects and arrays ------------------------------------------

/// A scalar JSON value at the specification level.
pub enum SpecScalar {
    Str(Seq<char>),
    Int(int),
}

/// A JSON value as the provider's API uses them: a scalar, or an array of
/// objects whose values are scalars.
pub enum SpecValue {
    Str(Seq<char>),
    Int(int),
    Arr(Seq<Seq<(Seq<char>, SpecScalar)>>),
}

/// A scalar whose integer, if any, round-trips through an `i64`.
pub open spec fn wf_scalar(v: SpecScalar) -> bool {
    match v {
        SpecScalar::Str(_) => true,
        SpecScalar::Int(n) => -i64::MAX <= n <= i64::MAX,
    }
}

/// All scalar fields of an object are well formed.
pub open spec fn wf_scalar_fields(fs: Seq<(Seq<char>, SpecScalar)>) -> bool {
    forall|i: int| 0 <= i < fs.len() ==> wf_scalar(#[trigger] fs[i].1)
}

/// A value whose integers all round-trip through an `i64`.
pub open spec fn wf_value(v: SpecValue) -> bool {
    match v {
        SpecValue::Str(_) => true,
        SpecValue::Int(n) => -i64::MAX <= n <= i64::MAX,
        SpecValue::Arr(es) => forall|i: int| 0 <= i < es.len() ==> wf_scalar_fields(#[trigger] es[i]),
    }
}

/// All fields of an object are well formed.
pub open spec fn wf_fields(fs: Seq<(Seq<char>, SpecValue)>) -> bool {
    forall|i: int| 0 <= i < fs.len() ==> wf_value(#[trigger] fs[i].1)
}

// ----- encoding ------------------------------------------------------------

/// The encoding of a scalar value.
pub open spec fn enc_scalar(v: SpecScalar) -> Seq<char> {
    match v {
        SpecScalar::Str(s) => enc_string(s),
        SpecScalar::Int(n) => dec_int(n),
    }
}

/// The encoding of an object's members: `"key":value` pairs joined by
/// commas, without the surrounding braces.
pub open spec fn enc_scalar_members(fs: Seq<(Seq<char>, SpecScalar)>) -> Seq<char>
    decreases fs.len(),
{
    if fs.len() == 0 {
        Seq::empty()
    } else if fs.len() == 1 {
        enc_string(fs[0].0) + seq![':'] + enc_scalar(fs[0].1)
    } else {
        enc_string(fs[0].0) + seq![':'] + enc_scalar(fs[0].1) + seq![','] + enc_scalar_members(
            fs.drop_first(),
        )
    }
}

/// The encoding of an object with scalar values.
pub open spec fn enc_scalar_object(fs: Seq<(Seq<char>, SpecScalar)>) -> Seq<char> {
    seq!['{'] + enc_scalar_members(fs) + seq!['}']
}

/// The encoding of an array's elements, joined by commas, without the
/// surrounding brackets.
pub open spec fn enc_array_items(es: Seq<Seq<(Seq<char>, SpecScalar)>>) -> Seq<char>
    decreases es.len(),
{
    if es.len() == 0 {
        Seq::empty()
    } else if es.len() == 1 {
        enc_scalar_object(es[0])
    } else {
        enc_scalar_object(es[0]) + seq![','] + enc_array_items(es.drop_first())
    }
}

/// The encoding of an array of objects.
pub open spec fn enc_array(es: Seq<Seq<(Seq<char>, SpecScalar)>>) -> Seq<char> {
    seq!['['] + enc_array_items(es) + seq![']']
}

/// The encoding of a value.
pub open spec fn enc_value(v: SpecValue) -> Seq<char> {
    match v {
        SpecValue::Str(s) => enc_string(s),
        SpecValue::Int(n) => dec_int(n),
        SpecValue::Arr(es) => enc_array(es),
    }
}

/// The encoding of an object's members at the value level.
pub open spec fn enc_members(fs: Seq<(Seq<char>, SpecValue)>) -> Seq<char>
    decreases fs.len(),
{
    if fs.len() == 0 {
        Seq::empty()
    } else if fs.len() == 1 {
        enc_string(fs[0].0) + seq![':'] + enc_value(fs[0].1)
    } else {
        enc_string(fs[0].0) + seq![':'] + enc_value(fs[0].1) + seq![','] + enc_members(
            fs.drop_first(),
        )
    }
}

/// The encoding of an object.
pub open spec fn enc_object(fs: Seq<(Seq<char>, SpecValue)>) -> Seq<char> {
    seq!['{'] + enc_members(fs) + seq!['}']
}

// ----- parsing values, objects and arrays -----------------------------------

/// A successful integer parse consumes at least one character.
pub proof fn lemma_take_int_consumes(s: Seq<char>)
    ensures
        take_int(s) is Some ==> (take_int(s)->0).1.len() < s.len(),
{
    if s.len() > 0 && s[0] == '-' {
        lemma_digit_run_len_le(s.drop_first());
    } else {
        lemma_digit_run_len_le(s);
    }
}

/// Parses a scalar value: a string or an integer.
pub open spec fn take_scalar(s: Seq<char>) -> Option<(SpecScalar, Seq<char>)> {
    if s.len() == 0 {
        None
    } else if s[0] == '"' {
        match take_string(s.drop_first()) {
            Some((t, r)) => Some((SpecScalar::Str(t), r)),
            None => None,
        }
    } else if s[0] == '-' || is_digit_char(s[0]) {
        match take_int(s) {
            Some((v, r)) => Some((SpecScalar::Int(v), r)),
            None => None,
        }
    } else {
        None
    }
}

/// A successful scalar parse consumes at least one character.
pub proof fn lemma_take_scalar_consumes(s: Seq<char>)
    ensures
        take_scalar(s) is Some ==> (take_scalar(s)->0).1.len() < s.len(),
{
    if s.len() > 0 && s[0] == '"' {
        lemma_take_string_consumes(s.drop_first());
    } else {
        lemma_take_int_consumes(s);
    }
}

/// Parses the members of an object with scalar values, the opening brace
/// already consumed; consumes the closing brace.
pub open spec fn take_scalar_members(s: Seq<char>) -> Option<
    (Seq<(Seq<char>, SpecScalar)>, Seq<char>),
>
    decreases s.len(),
{
    if s.len() == 0 || s[0] != '"' {
        None
    } else {
        match take_string(s.drop_first()) {
            None => None,
            Some((k, r1)) => if r1.len() == 0 || r1[0] != ':' {
                None
            } else {
                match take_scalar(r1.drop_first()) {
                    None => None,
                    Some((v, r2)) => if r2.len() == 0 {
                        None
                    } else if r2[0] == ',' {
                        proof {
                            lemma_take_string_consumes(s.drop_first());
                            lemma_take_scalar_consumes(r1.drop_first());
                        }
                        match take_scalar_members(r2.drop_first()) {
                            Some((fs, r3)) => Some((seq![(k, v)] + fs, r3)),
                            None => None,
                        }
                    } else if r2[0] == '}' {
                        Some((seq![(k, v)], r2.drop_first()))
                    } else {
                        None
                    },
                }
            },
        }
    }
}

/// A successful member parse consumes at least one character.
pub proof fn lemma_take_scalar_members_consumes(s: Seq<char>)
    ensures
        take_scalar_members(s) is Some ==> (take_scalar_members(s)->0).1.len() < s.len(),
    decreases s.len(),
{
    if s.len() != 0 && s[0] == '"' && take_string(s.drop_first()) is Some {
        lemma_take_string_consumes(s.drop_first());
        let (k, r1) = take_string(s.drop_first())->0;
        if r1.len() != 0 && r1[0] == ':' && take_scalar(r1.drop_first()) is Some {
            lemma_take_scalar_consumes(r1.drop_first());
            let (v, r2) = take_scalar(r1.drop_first())->0;
            if r2.len() != 0 && r2[0] == ',' {
                lemma_take_scalar_members_consumes(r2.drop_first());
            }
        }
    }
}

/// Parses an object with scalar values, braces included.
pub open spec fn take_scalar_object(s: Seq<char>) -> Option<
    (Seq<(Seq<char>, SpecScalar)>, Seq<char>),
> {
    if s.len() >= 1 && s[0] == '{' {
        if s.len() >= 2 && s[1] == '}' {
            Some((Seq::empty(), s.skip(2)))
        } else {
            take_scalar_members(s.drop_first())
        }
    } else {
        None
    }
}

/// A successful object parse consumes at least one character.
pub proof fn lemma_take_scalar_object_consumes(s: Seq<char>)
    ensures
        take_scalar_object(s) is Some ==> (take_scalar_object(s)->0).1.len() < s.len(),
{
    if s.len() >= 1 && s[0] == '{' && !(s.len() >= 2 && s[1] == '}') {
        lemma_take_scalar_members_consumes(s.drop_first());
    }
}

/// Parses the elements of a non-empty array of objects, the opening
/// bracket already consumed; consumes the closing bracket.
pub open spec fn take_array_items(s: Seq<char>) -> Option<
    (Seq<Seq<(Seq<char>, SpecScalar)>>, Seq<char>),
>
    decreases s.len(),
{
    match take_scalar_object(s) {
        None => None,
        Some((ob, r1)) => if r1.len() == 0 {
            None
        } else if r1[0] == ',' {
            proof {
                lemma_take_scalar_object_consumes(s);
            }
            match take_array_items(r1.drop_first()) {
                Some((es, r2)) => Some((seq![ob] + es, r2)),
                None => None,
            }
        } else if r1[0] == ']' {
            Some((seq![ob], r1.drop_first()))
        } else {
            None
        },
    }
}

/// Parses an array of objects, brackets included.
pub open spec fn take_array(s: Seq<char>) -> Option<
    (Seq<Seq<(Seq<char>, SpecScalar)>>, Seq<char>),
> {
    if s.len() >= 1 && s[0] == '[' {
        if s.len() >= 2 && s[1] == ']' {
            Some((Seq::empty(), s.skip(2)))
        } else {
            take_array_items(s.drop_first())
        }
    } else {
        None
    }
}

/// A successful array-items parse consumes at least one character.
pub proof fn lemma_take_array_items_consumes(s: Seq<char>)
    ensures
        take_array_items(s) is Some ==> (take_array_items(s)->0).1.len() < s.len(),
    decreases s.len(),
{
    if take_scalar_object(s) is Some {
        lemma_take_scalar_object_consumes(s);
        let (ob, r1) = take_scalar_object(s)->0;
        if r1.len() != 0 && r1[0] == ',' {
            lemma_take_array_items_consumes(r1.drop_first());
        }
    }
}

/// Parses a value: a string, an integer, or an array of objects.
pub open spec fn take_value(s: Seq<char>) -> Option<(SpecValue, Seq<char>)> {
    if s.len() == 0 {
        None
    } else if s[0] == '"' {
        match take_string(s.drop_first()) {
            Some((t, r)) => Some((SpecValue::Str(t), r)),
            None => None,
        }
    } else if s[0] == '-' || is_digit_char(s[0]) {
        match take_int(s) {
            Some((v, r)) => Some((SpecValue::Int(v), r)),
            None => None,
        }
    } else if s[0] == '[' {
        match take_array(s) {
            Some((es, r)) => Some((SpecValue::Arr(es), r)),
            None => None,
        }
    } else {
        None
    }
}

/// A successful value parse consumes at least one character.
pub proof fn lemma_take_value_consumes(s: Seq<char>)
    ensures
        take_value(s) is Some ==> (take_value(s)->0).1.len() < s.len(),
{
    if s.len() > 0 && s[0] == '"' {
        lemma_take_string_consumes(s.drop_first());
    } else if s.len() > 0 && s[0] == '[' {
        if s.len() >= 2 && s[1] == ']' {
        } else {
            lemma_take_array_items_consumes(s.drop_first());
        }
    } else {
        lemma_take_int_consumes(s);
    }
}

/// Parses the members of an object, the opening brace already consumed;
/// consumes the closing brace.
pub open spec fn take_members(s: Seq<char>) -> Option<(Seq<(Seq<char>, SpecValue)>, Seq<char>)>
    decreases s.len(),
{
    if s.len() == 0 || s[0] != '"' {
        None
    } else {
        match take_string(s.drop_first()) {
            None => None,
            Some((k, r1)) => if r1.len() == 0 || r1[0] != ':' {
                None
            } else {
                match take_value(r1.drop_first()) {
                    None => None,
                    Some((v, r2)) => if r2.len() == 0 {
                        None
                    } else if r2[0] == ',' {
                        proof {
                            lemma_take_string_consumes(s.drop_first());
                            lemma_take_value_consumes(r1.drop_first());
                        }
                        match take_members(r2.drop_first()) {
                            Some((fs, r3)) => Some((seq![(k, v)] + fs, r3)),
                            None => None,
                        }
                    } else if r2[0] == '}' {
                        Some((seq![(k, v)], r2.drop_first()))
                    } else {
                        None
                    },
                }
            },
        }
    }
}

/// Parses a complete JSON document holding one object, with nothing but
/// the object in it.
pub open spec fn spec_parse_object(s: Seq<char>) -> Option<Seq<(Seq<char>, SpecValue)>> {
    if s.len() >= 1 && s[0] == '{' {
        if s.len() >= 2 && s[1] == '}' {
            if s.len() == 2 {
                Some(Seq::empty())
            } else {
                None
            }
        } else {
            match take_members(s.drop_first()) {
                Some((fs, r)) => if r.len() == 0 {
                    Some(fs)
                } else {
                    None
                },
                None => None,
            }
        }
    } else {
        None
    }
}

// ----- the round trip -------------------------------------------------------

/// Parsing an encoded scalar gives it back, provided what follows does
/// not begin with a digit.
pub proof fn lemma_take_scalar_enc(v: SpecScalar, rest: Seq<char>)
    requires
        wf_scalar(v),
        rest.len() > 0,
        !is_digit_char(rest[0]),
    ensures
        take_scalar(enc_scalar(v) + rest) == Some((v, rest)),
{
    let s = enc_scalar(v) + rest;
    match v {
        SpecScalar::Str(t) => {
            assert(s[0] == '"');
            assert(s.drop_first() =~= escape_seq(t) + seq!['"'] + rest);
            lemma_take_string_escape(t, rest);
        },
        SpecScalar::Int(n) => {
            lemma_take_int_dec(n, rest);
            assert(s =~= dec_int(n) + rest);
            if n < 0 {
                assert(s[0] == '-');
            } else {
                lemma_dec_u_correct(n);
                assert(s[0] == dec_u(n)[0]);
                assert(is_digit_char(s[0]));
            }
            assert(s[0] != '"');
        },
    }
}

/// Parsing encoded members followed by the closing brace gives them back.
pub proof fn lemma_take_scalar_members_enc(fs: Seq<(Seq<char>, SpecScalar)>, rest: Seq<char>)
    requires
        fs.len() >= 1,
        wf_scalar_fields(fs),
    ensures
        take_scalar_members(enc_scalar_members(fs) + seq!['}'] + rest) == Some((fs, rest)),
    decreases fs.len(),
{
    let s = enc_scalar_members(fs) + seq!['}'] + rest;
    let k = fs[0].0;
    let v = fs[0].1;
    assert(s[0] == '"');
    if fs.len() == 1 {
        let after_key = seq![':'] + enc_scalar(v) + seq!['}'] + rest;
        assert(s.drop_first() =~= escape_seq(k) + seq!['"'] + after_key);
        lemma_take_string_escape(k, after_key);
        assert(after_key[0] == ':');
        let vrest = seq!['}'] + rest;
        assert(after_key.drop_first() =~= enc_scalar(v) + vrest);
        lemma_take_scalar_enc(v, vrest);
        assert(vrest[0] == '}');
        assert(vrest.drop_first() =~= rest);
        assert(seq![(k, v)] =~= fs);
    } else {
        let tail = fs.drop_first();
        let after_key = seq![':'] + enc_scalar(v) + seq![','] + enc_scalar_members(tail)
            + seq!['}'] + rest;
        assert(s.drop_first() =~= escape_seq(k) + seq!['"'] + after_key);
        lemma_take_string_escape(k, after_key);
        assert(after_key[0] == ':');
        let vrest = seq![','] + enc_scalar_members(tail) + seq!['}'] + rest;
        assert(after_key.drop_first() =~= enc_scalar(v) + vrest);
        lemma_take_scalar_enc(v, vrest);
        assert(vrest[0] == ',');
        assert(vrest.drop_first() =~= enc_scalar_members(tail) + seq!['}'] + rest);
        assert(forall|i: int| 0 <= i < tail.len() ==> wf_scalar(#[trigger] tail[i].1));
        lemma_take_scalar_members_enc(tail, rest);
        assert(seq![(k, v)] + tail =~= fs);
    }
}

/// Parsing an encoded object with scalar values gives its members back.
pub proof fn lemma_take_scalar_object_enc(fs: Seq<(Seq<char>, SpecScalar)>, rest: Seq<char>)
    requires
        wf_scalar_fields(fs),
    ensures
        take_scalar_object(enc_scalar_object(fs) + rest) == Some((fs, rest)),
{
    let s = enc_scalar_object(fs) + rest;
    assert(s[0] == '{');
    if fs.len() == 0 {
        assert(enc_scalar_members(fs) =~= Seq::<char>::empty());
        assert(s =~= seq!['{', '}'] + rest);
        assert(s[1] == '}');
        assert(s.skip(2) =~= rest);
        assert(fs =~= Seq::<(Seq<char>, SpecScalar)>::empty());
    } else {
        assert(enc_scalar_members(fs)[0] == '"');
        assert(s[1] == '"');
        assert(s.drop_first() =~= enc_scalar_members(fs) + seq!['}'] + rest);
        lemma_take_scalar_members_enc(fs, rest);
    }
}

/// Parsing encoded array elements followed by the closing bracket gives
/// them back.
pub proof fn lemma_take_array_items_enc(es: Seq<Seq<(Seq<char>, SpecScalar)>>, rest: Seq<char>)
    requires
        es.len() >= 1,
        forall|i: int| 0 <= i < es.len() ==> wf_scalar_fields(#[trigger] es[i]),
    ensures
        take_array_items(enc_array_items(es) + seq![']'] + rest) == Some((es, rest)),
    decreases es.len(),
{
    let s = enc_array_items(es) + seq![']'] + rest;
    if es.len() == 1 {
        let orest = seq![']'] + rest;
        assert(s =~= enc_scalar_object(es[0]) + orest);
        lemma_take_scalar_object_enc(es[0], orest);
        assert(orest[0] == ']');
        assert(orest.drop_first() =~= rest);
        assert(seq![es[0]] =~= es);
    } else {
        let tail = es.drop_first();
        let orest = seq![','] + enc_array_items(tail) + seq![']'] + rest;
        assert(s =~= enc_scalar_object(es[0]) + orest);
        lemma_take_scalar_object_enc(es[0], orest);
        assert(orest[0] == ',');
        assert(orest.drop_first() =~= enc_array_items(tail) + seq![']'] + rest);
        assert(forall|i: int| 0 <= i < tail.len() ==> wf_scalar_fields(#[trigger] tail[i]));
        lemma_take_array_items_enc(tail, rest);
        assert(seq![es[0]] + tail =~= es);
    }
}

/// Parsing an encoded array gives its elements back.
pub proof fn lemma_take_array_enc(es: Seq<Seq<(Seq<char>, SpecScalar)>>, rest: Seq<char>)
    requires
        forall|i: int| 0 <= i < es.len() ==> wf_scalar_fields(#[trigger] es[i]),
    ensures
        take_array(enc_array(es) + rest) == Some((es, rest)),
{
    let s = enc_array(es) + rest;
    assert(s[0] == '[');
    if es.len() == 0 {
        assert(enc_array_items(es) =~= Seq::<char>::empty());
        assert(s =~= seq!['[', ']'] + rest);
        assert(s[1] == ']');
        assert(s.skip(2) =~= rest);
        assert(es =~= Seq::<Seq<(Seq<char>, SpecScalar)>>::empty());
    } else {
        assert(enc_array_items(es)[0] == enc_scalar_object(es[0])[0]);
        assert(s[1] == '{');
        assert(s.drop_first() =~= enc_array_items(es) + seq![']'] + rest);
        lemma_take_array_items_enc(es, rest);
    }
}

/// Parsing an encoded value gives it back, provided what follows does not
/// begin with a digit.
pub proof fn lemma_take_value_enc(v: SpecValue, rest: Seq<char>)
    requires
        wf_value(v),
        rest.len() > 0,
        !is_digit_char(rest[0]),
    ensures
        take_value(enc_value(v) + rest) == Some((v, rest)),
{
    let s = enc_value(v) + rest;
    match v {
        SpecValue::Str(t) => {
            assert(s[0] == '"');
            assert(s.drop_first() =~= escape_seq(t) + seq!['"'] + rest);
            lemma_take_string_escape(t, rest);
        },
        SpecValue::Int(n) => {
            lemma_take_int_dec(n, rest);
            assert(s =~= dec_int(n) + rest);
            if n < 0 {
                assert(s[0] == '-');
            } else {
                lemma_dec_u_correct(n);
                assert(s[0] == dec_u(n)[0]);
                assert(is_digit_char(s[0]));
            }
            assert(s[0] != '"');
        },
        SpecValue::Arr(es) => {
            assert(s[0] == '[');
            assert(s[0] != '"' && s[0] != '-' && !is_digit_char(s[0]));
            assert(s =~= enc_array(es) + rest);
            lemma_take_array_enc(es, rest);
        },
    }
}

/// Parsing encoded members followed by the closing brace gives them back,
/// at the value level.
#[verifier::rlimit(60)]
pub proof fn lemma_take_members_enc(fs: Seq<(Seq<char>, SpecValue)>, rest: Seq<char>)
    requires
        fs.len() >= 1,
        wf_fields(fs),
    ensures
        take_members(enc_members(fs) + seq!['}'] + rest) == Some((fs, rest)),
    decreases fs.len(),
{
    let s = enc_members(fs) + seq!['}'] + rest;
    let k = fs[0].0;
    let v = fs[0].1;
    assert(s[0] == '"');
    if fs.len() == 1 {
        let after_key = seq![':'] + enc_value(v) + seq!['}'] + rest;
        assert(s.drop_first() =~= escape_seq(k) + seq!['"'] + after_key);
        lemma_take_string_escape(k, after_key);
        assert(after_key[0] == ':');
        let vrest = seq!['}'] + rest;
        assert(after_key.drop_first() =~= enc_value(v) + vrest);
        lemma_take_value_enc(v, vrest);
        assert(vrest[0] == '}');
        assert(vrest.drop_first() =~= rest);
        assert(seq![(k, v)] =~= fs);
    } else {
        let tail = fs.drop_first();
        let after_key = seq![':'] + enc_value(v) + seq![','] + enc_members(tail) + seq!['}']
            + rest;
        assert(s.drop_first() =~= escape_seq(k) + seq!['"'] + after_key);
        lemma_take_string_escape(k, after_key);
        assert(after_key[0] == ':');
        let vrest = seq![','] + enc_members(tail) + seq!['}'] + rest;
        assert(after_key.drop_first() =~= enc_value(v) + vrest);
        lemma_take_value_enc(v, vrest);
        assert(vrest[0] == ',');
        assert(vrest.drop_first() =~= enc_members(tail) + seq!['}'] + rest);
        assert(forall|i: int| 0 <= i < tail.len() ==> wf_value(#[trigger] tail[i].1));
        lemma_take_members_enc(tail, rest);
        assert(seq![(k, v)] + tail =~= fs);
    }
}

/// The round trip: parsing an encoded object gives exactly its members
/// back.
pub proof fn lemma_parse_object_enc(fs: Seq<(Seq<char>, SpecValue)>)
    requires
        wf_fields(fs),
    ensures
        spec_parse_object(enc_object(fs)) == Some(fs),
{
    let s = enc_object(fs);
    assert(s[0] == '{');
    if fs.len() == 0 {
        assert(enc_members(fs) =~= Seq::<char>::empty());
        assert(s =~= seq!['{', '}']);
        assert(s[1] == '}');
        assert(fs =~= Seq::<(Seq<char>, SpecValue)>::empty());
    } else {
        assert(enc_members(fs)[0] == '"');
        assert(s[1] == '"');
        assert(s.drop_first() =~= enc_members(fs) + seq!['}'] + Seq::<char>::empty());
        lemma_take_members_enc(fs, Seq::empty());
    }
}

// ----- executable values ----------------------------------------------------

/// A scalar JSON value.
pub enum JsonScalar {
    Str(String),
    Int(i64),
}

impl View for JsonScalar {
    type V = SpecScalar;

    open spec fn view(&self) -> SpecScalar {
        match self {
            JsonScalar::Str(s) => SpecScalar::Str(s@),
            JsonScalar::Int(n) => SpecScalar::Int(*n as int),
        }
    }
}

/// The specification-level contents of an object with scalar values.
pub open spec fn scalar_fields_view(fs: Seq<(String, JsonScalar)>) -> Seq<
    (Seq<char>, SpecScalar),
> {
    Seq::new(fs.len(), |i: int| (fs[i].0@, fs[i].1@))
}

/// The specification-level contents of an array of objects.
pub open spec fn elems_view(es: Seq<Vec<(String, JsonScalar)>>) -> Seq<
    Seq<(Seq<char>, SpecScalar)>,
> {
    Seq::new(es.len(), |i: int| scalar_fields_view(es[i]@))
}

/// A JSON value as the provider's API uses them.
pub enum JsonValue {
    Str(String),
    Int(i64),
    Arr(Vec<Vec<(String, JsonScalar)>>),
}

impl View for JsonValue {
    type V = SpecValue;

    open spec fn view(&self) -> SpecValue {
        match self {
            JsonValue::Str(s) => SpecValue::Str(s@),
            JsonValue::Int(n) => SpecValue::Int(*n as int),
            JsonValue::Arr(es) => SpecValue::Arr(elems_view(es@)),
        }
    }
}

/// The specification-level contents of an object.
pub open spec fn fields_view(fs: Seq<(String, JsonValue)>) -> Seq<(Seq<char>, SpecValue)> {
    Seq::new(fs.len(), |i: int| (fs[i].0@, fs[i].1@))
}

// ----- executable helpers --------------------------------------------------

/// Relies on String::push: appends exactly one character.
#[verifier::external_body]
pub(crate) fn push_char(s: &mut String, c: char)
    ensures
        final(s)@ == old(s)@ + seq![c],
{
    s.push(c);
}

/// Escapes one character onto the end of `out`.
fn push_escaped(out: &mut String, c: char)
    ensures
        final(out)@ == old(out)@ + escape_char(c),
{
    if c == '"' {
        push_char(out, '\\');
        push_char(out, '"');
        assert(final(out)@ =~= old(out)@ + escape_char(c));
    } else if c == '\\' {
        push_char(out, '\\');
        push_char(out, '\\');
        assert(final(out)@ =~= old(out)@ + escape_char(c));
    } else if c == '\n' {
        push_char(out, '\\');
        push_char(out, 'n');
        assert(final(out)@ =~= old(out)@ + escape_char(c));
    } else if c == '\r' {
        push_char(out, '\\');
        push_char(out, 'r');
        assert(final(out)@ =~= old(out)@ + escape_char(c));
    } else if c == '\t' {
        push_char(out, '\\');
        push_char(out, 't');
        assert(final(out)@ =~= old(out)@ + escape_char(c));
    } else {
        push_char(out, c);
    }
}

/// Escaping distributes over appending one character at the end.
proof fn lemma_escape_seq_push(a: Seq<char>, c: char)
    ensures
        escape_seq(a.push(c)) =~= escape_seq(a) + escape_char(c),
    decreases a.len(),
{
    if a.len() == 0 {
        assert(a.push(c)[0] == c);
        assert(a.push(c).drop_first() =~= Seq::<char>::empty());
        assert(escape_seq(a.push(c)) == escape_char(c) + escape_seq(Seq::<char>::empty()));
        assert(escape_char(c) + Seq::<char>::empty() =~= escape_char(c));
        assert(escape_seq(a) + escape_char(c) =~= escape_char(c));
    } else {
        assert(a.push(c)[0] == a[0]);
        assert(a.push(c).drop_first() =~= a.drop_first().push(c));
        lemma_escape_seq_push(a.drop_first(), c);
        assert(escape_seq(a.push(c)) == escape_char(a[0]) + escape_seq(a.drop_first().push(c)));
        assert(escape_char(a[0]) + (escape_seq(a.drop_first()) + escape_char(c)) =~= (escape_char(
            a[0],
        ) + escape_seq(a.drop_first())) + escape_char(c));
    }
}

/// Appends the encoded form of `s` (quotes and escapes) onto `out`.
pub fn push_json_string(out: &mut String, s: &str)
    ensures
        final(out)@ == old(out)@ + enc_string(s@),
{
    let len = s.unicode_len();
    push_char(out, '"');
    let mut i: usize = 0;
    while i < len
        invariant
            len == s@.len(),
            i <= len,
            out@ == old(out)@ + seq!['"'] + escape_seq(s@.take(i as int)),
        decreases len - i,
    {
        let c = s.get_char(i);
        push_escaped(out, c);
        proof {
            assert(s@.take(i + 1).drop_last() =~= s@.take(i as int));
            assert(s@.take(i + 1) =~= s@.take(i as int).push(s@[i as int]));
            lemma_escape_seq_push(s@.take(i as int), s@[i as int]);
            assert(old(out)@ + seq!['"'] + escape_seq(s@.take(i as int)) + escape_char(s@[i as int])
                =~= old(out)@ + seq!['"'] + escape_seq(s@.take(i + 1)));
        }
        i += 1;
    }
    push_char(out, '"');
    proof {
        assert(s@.take(len as int) =~= s@);
        assert(old(out)@ + seq!['"'] + escape_seq(s@) + seq!['"'] =~= old(out)@ + enc_string(s@));
    }
}

/// The digit character for a value below ten, as executable code.
fn digit_char_exec(d: u64) -> (c: char)
    requires
        d < 10,
    ensures
        c == digit_char(d as int),
{
    if d == 0 {
        '0'
    } else if d == 1 {
        '1'
    } else if d == 2 {
        '2'
    } else if d == 3 {
        '3'
    } else if d == 4 {
        '4'
    } else if d == 5 {
        '5'
    } else if d == 6 {
        '6'
    } else if d == 7 {
        '7'
    } else if d == 8 {
        '8'
    } else {
        '9'
    }
}

/// Appends the decimal encoding of `n` onto `out`.
fn push_uint(out: &mut String, n: u64)
    ensures
        final(out)@ == old(out)@ + dec_u(n as int),
    decreases n,
{
    if n < 10 {
        push_char(out, digit_char_exec(n));
    } else {
        push_uint(out, n / 10);
        push_char(out, digit_char_exec(n % 10));
        proof {
            assert(dec_u(n as int) == dec_u(n as int / 10).push(digit_char(n as int % 10)));
            assert(old(out)@ + dec_u(n as int / 10) + seq![digit_char(n as int % 10)] =~= old(
                out,
            )@ + dec_u(n as int));
        }
    }
}

/// Appends the decimal encoding of `n`, sign included, onto `out`.
pub fn push_int(out: &mut String, n: i64)
    requires
        n > i64::MIN,
    ensures
        final(out)@ == old(out)@ + dec_int(n as int),
{
    if n < 0 {
        push_char(out, '-');
        push_uint(out, (-n) as u64);
        proof {
            assert(old(out)@ + seq!['-'] + dec_u(-(n as int)) =~= old(out)@ + dec_int(n as int));
        }
    } else {
        push_uint(out, n as u64);
    }
}

/// Parses a non-negative integer at `from`: its value and the index just
/// past its digits.
pub fn scan_uint(s: &str, from: usize) -> (r: Option<(i64, usize)>)
    requires
        from <= s@.len(),
    ensures
        match r {
            Some((v, j)) => {
                &&& from < j <= s@.len()
                &&& v >= 0
                &&& take_uint(s@.skip(from as int)) == Some((v as int, s@.skip(j as int)))
            },
            None => take_uint(s@.skip(from as int)) is None,
        },
{
    let len = s.unicode_len();
    let ghost tail = s@.skip(from as int);
    proof {
        lemma_digit_run_len_le(tail);
        lemma_digit_run_digits(tail);
    }
    let mut j: usize = from;
    let mut acc: i64 = 0;
    loop
        invariant
            len == s@.len(),
            from <= j <= len,
            tail == s@.skip(from as int),
            digit_run_len(tail) == (j - from) + digit_run_len(s@.skip(j as int)),
            forall|i: int| from <= i < j ==> is_digit_char(s@[i]),
            0 <= acc,
            acc as int == digits_val(s@.subrange(from as int, j as int)),
        decreases len - j,
    {
        let is_run_digit: bool;
        let mut d: u32 = 0;
        if j < len {
            let c = s.get_char(j);
            let u = c as u32;
            assert(s@.skip(j as int)[0] == s@[j as int]);
            if 48 <= u && u <= 57 {
                is_run_digit = true;
                d = u - 48;
                assert(is_digit_char(s@[j as int]));
                assert(digit_val(s@[j as int]) == d);
            } else {
                assert(!is_digit_char(s@[j as int]));
                is_run_digit = false;
            }
        } else {
            is_run_digit = false;
        }
        if !is_run_digit {
            proof {
                if j < len {
                    assert(digit_run_len(s@.skip(j as int)) == 0);
                } else {
                    assert(s@.skip(j as int).len() == 0);
                }
                assert(digit_run_len(tail) == j - from);
            }
            if j == from {
                return None;
            }
            proof {
                let n = digit_run_len(tail);
                assert(tail.take(n) =~= s@.subrange(from as int, j as int));
                assert(tail.skip(n) =~= s@.skip(j as int));
            }
            return Some((acc, j));
        }
        // `j` holds a digit: the run extends past it.
        proof {
            assert(j < len);
            assert(is_digit_char(s@[j as int]));
            assert(s@.skip(j as int)[0] == s@[j as int]);
            assert(s@.skip(j as int).drop_first() =~= s@.skip(j + 1));
            assert(digit_run_len(s@.skip(j as int)) == 1 + digit_run_len(s@.skip(j + 1)));
        }
        let step = match acc.checked_mul(10) {
            Some(m) => m.checked_add(d as i64),
            None => None,
        };
        match step {
            Some(acc2) => {
                proof {
                    let pre = s@.subrange(from as int, j + 1);
                    assert(pre.drop_last() =~= s@.subrange(from as int, j as int));
                    assert(pre.last() == s@[j as int]);
                }
                acc = acc2;
                j += 1;
            },
            None => {
                proof {
                    lemma_digit_run_len_le(tail);
                    lemma_digit_run_digits(tail);
                    let n = digit_run_len(tail);
                    let pre = s@.subrange(from as int, j + 1);
                    assert(pre.drop_last() =~= s@.subrange(from as int, j as int));
                    assert(pre.last() == s@[j as int]);
                    assert(digits_val(pre) == acc as int * 10 + d);
                    assert(digits_val(pre) > i64::MAX);
                    assert(pre =~= tail.take(j + 1 - from));
                    lemma_digit_run_len_le(s@.skip(j + 1));
                    assert(n >= j + 1 - from);
                    assert forall|i: int|
                        0 <= i < tail.take(n).len() implies is_digit_char(
                        #[trigger] tail.take(n)[i],
                    ) by {
                        assert(tail.take(n)[i] == tail[i]);
                    }
                    lemma_digits_val_prefix(tail.take(n), j + 1 - from);
                    assert(tail.take(n).take(j + 1 - from) =~= tail.take(j + 1 - from));
                    assert(digits_val(tail.take(n)) > i64::MAX);
                }
                return None;
            },
        }
    }
}

/// Parses an optionally negated integer at `from`.
pub fn scan_int(s: &str, from: usize) -> (r: Option<(i64, usize)>)
    requires
        from <= s@.len(),
    ensures
        match r {
            Some((v, j)) => {
                &&& from < j <= s@.len()
                &&& v > i64::MIN
                &&& take_int(s@.skip(from as int)) == Some((v as int, s@.skip(j as int)))
            },
            None => take_int(s@.skip(from as int)) is None,
        },
{
    if from < s.unicode_len() && s.get_char(from) == '-' {
        assert(s@.skip(from as int)[0] == s@[from as int]);
        assert(s@.skip(from as int).drop_first() =~= s@.skip(from + 1));
        match scan_uint(s, from + 1) {
            Some((v, j)) => Some((-v, j)),
            None => None,
        }
    } else {
        proof {
            if from < s@.len() {
                assert(s@.skip(from as int)[0] == s@[from as int]);
            } else {
                assert(s@.skip(from as int).len() == 0);
            }
        }
        scan_uint(s, from)
    }
}

/// Parses a JSON string starting after its opening quote at `from`:
/// the decoded content and the index just past the closing quote.
pub fn scan_string(s: &str, from: usize) -> (r: Option<(String, usize)>)
    requires
        from <= s@.len(),
    ensures
        match r {
            Some((t, j)) => {
                &&& from < j <= s@.len()
                &&& take_string(s@.skip(from as int)) == Some((t@, s@.skip(j as int)))
            },
            None => take_string(s@.skip(from as int)) is None,
        },
{
    let len = s.unicode_len();
    let mut acc = String::new();
    let mut i: usize = from;
    loop
        invariant
            len == s@.len(),
            from <= i <= len,
            take_string(s@.skip(from as int)) == match take_string(s@.skip(i as int)) {
                Some((t, r)) => Some((acc@ + t, r)),
                None => None::<(Seq<char>, Seq<char>)>,
            },
        decreases len - i,
    {
        if i >= len {
            assert(s@.skip(i as int).len() == 0);
            return None;
        }
        let c = s.get_char(i);
        assert(s@.skip(i as int)[0] == s@[i as int]);
        if c == '"' {
            proof {
                assert(s@.skip(i as int).drop_first() =~= s@.skip(i + 1));
                assert(take_string(s@.skip(i as int)) == Some(
                    (Seq::<char>::empty(), s@.skip(i + 1)),
                ));
                assert(acc@ + Seq::<char>::empty() =~= acc@);
            }
            return Some((acc, i + 1));
        } else if c == '\\' {
            if i + 1 >= len {
                assert(s@.skip(i as int).len() < 2);
                return None;
            }
            let c2 = s.get_char(i + 1);
            assert(s@.skip(i as int)[1] == s@[i + 1]);
            let u: char;
            if c2 == '"' {
                u = '"';
            } else if c2 == '\\' {
                u = '\\';
            } else if c2 == 'n' {
                u = '\n';
            } else if c2 == 'r' {
                u = '\r';
            } else if c2 == 't' {
                u = '\t';
            } else {
                assert(unescape_char(s@[i + 1]) is None);
                return None;
            }
            assert(unescape_char(s@[i + 1]) == Some(u));
            let ghost acc_old = acc@;
            push_char(&mut acc, u);
            proof {
                assert(s@.skip(i as int).skip(2) =~= s@.skip(i + 2));
                let o = take_string(s@.skip(i + 2));
                if o is Some {
                    let (t, r) = o->0;
                    assert(take_string(s@.skip(i as int)) == Some((seq![u] + t, r)));
                    assert(acc_old + (seq![u] + t) =~= (acc_old + seq![u]) + t);
                }
            }
            i += 2;
        } else {
            let ghost acc_old = acc@;
            push_char(&mut acc, c);
            proof {
                assert(s@.skip(i as int).drop_first() =~= s@.skip(i + 1));
                let o = take_string(s@.skip(i + 1));
                if o is Some {
                    let (t, r) = o->0;
                    assert(take_string(s@.skip(i as int)) == Some((seq![s@[i as int]] + t, r)));
                    assert(acc_old + (seq![s@[i as int]] + t) =~= (acc_old + seq![s@[i as int]]) + t);
                }
            }
            i += 1;
        }
    }
}

// ----- executable parsing of values, objects and arrays ---------------------

/// Parses a scalar value at `from`.
pub fn scan_scalar(s: &str, from: usize) -> (r: Option<(JsonScalar, usize)>)
    requires
        from <= s@.len(),
    ensures
        match r {
            Some((v, j)) => {
                &&& from < j <= s@.len()
                &&& take_scalar(s@.skip(from as int)) == Some((v@, s@.skip(j as int)))
            },
            None => take_scalar(s@.skip(from as int)) is None,
        },
{
    let len = s.unicode_len();
    if from >= len {
        assert(s@.skip(from as int).len() == 0);
        return None;
    }
    let c = s.get_char(from);
    assert(s@.skip(from as int)[0] == s@[from as int]);
    if c == '"' {
        assert(s@.skip(from as int).drop_first() =~= s@.skip(from + 1));
        match scan_string(s, from + 1) {
            Some((t, j)) => Some((JsonScalar::Str(t), j)),
            None => None,
        }
    } else if c == '-' || (48 <= c as u32 && c as u32 <= 57) {
        match scan_int(s, from) {
            Some((v, j)) => Some((JsonScalar::Int(v), j)),
            None => None,
        }
    } else {
        None
    }
}

/// Parses the members of an object with scalar values, the opening brace
/// already consumed; consumes the closing brace.
pub fn scan_scalar_members(s: &str, from: usize) -> (r: Option<(Vec<(String, JsonScalar)>, usize)>)
    requires
        from <= s@.len(),
    ensures
        match r {
            Some((fs, j)) => {
                &&& from < j <= s@.len()
                &&& take_scalar_members(s@.skip(from as int)) == Some(
                    (scalar_fields_view(fs@), s@.skip(j as int)),
                )
            },
            None => take_scalar_members(s@.skip(from as int)) is None,
        },
{
    let len = s.unicode_len();
    let mut acc: Vec<(String, JsonScalar)> = Vec::new();
    let mut i: usize = from;
    proof {
        assert(scalar_fields_view(acc@) =~= Seq::<(Seq<char>, SpecScalar)>::empty());
    }
    loop
        invariant
            len == s@.len(),
            from <= i <= len,
            take_scalar_members(s@.skip(from as int)) == match take_scalar_members(
                s@.skip(i as int),
            ) {
                Some((fs, r)) => Some((scalar_fields_view(acc@) + fs, r)),
                None => None::<(Seq<(Seq<char>, SpecScalar)>, Seq<char>)>,
            },
        decreases len - i,
    {
        if i >= len {
            assert(s@.skip(i as int).len() == 0);
            return None;
        }
        let c = s.get_char(i);
        assert(s@.skip(i as int)[0] == s@[i as int]);
        if c != '"' {
            return None;
        }
        assert(s@.skip(i as int).drop_first() =~= s@.skip(i + 1));
        let (k, j1) = match scan_string(s, i + 1) {
            Some(p) => p,
            None => {
                return None;
            },
        };
        if j1 >= len {
            assert(s@.skip(j1 as int).len() == 0);
            return None;
        }
        let c1 = s.get_char(j1);
        assert(s@.skip(j1 as int)[0] == s@[j1 as int]);
        if c1 != ':' {
            return None;
        }
        assert(s@.skip(j1 as int).drop_first() =~= s@.skip(j1 + 1));
        let (v, j2) = match scan_scalar(s, j1 + 1) {
            Some(p) => p,
            None => {
                return None;
            },
        };
        if j2 >= len {
            assert(s@.skip(j2 as int).len() == 0);
            return None;
        }
        let c2 = s.get_char(j2);
        assert(s@.skip(j2 as int)[0] == s@[j2 as int]);
        let ghost acc_old = acc@;
        let ghost kv = (k@, v@);
        acc.push((k, v));
        proof {
            assert(scalar_fields_view(acc@) =~= scalar_fields_view(acc_old) + seq![kv]);
        }
        if c2 == ',' {
            proof {
                assert(s@.skip(j2 as int).drop_first() =~= s@.skip(j2 + 1));
                let o = take_scalar_members(s@.skip(j2 + 1));
                if o is Some {
                    let (fs, r) = o->0;
                    assert(take_scalar_members(s@.skip(i as int)) == Some((seq![kv] + fs, r)));
                    assert(scalar_fields_view(acc_old) + (seq![kv] + fs) =~= (scalar_fields_view(
                        acc_old,
                    ) + seq![kv]) + fs);
                } else {
                    assert(take_scalar_members(s@.skip(i as int)) is None);
                }
            }
            i = j2 + 1;
        } else if c2 == '}' {
            proof {
                assert(s@.skip(j2 as int).drop_first() =~= s@.skip(j2 + 1));
                assert(take_scalar_members(s@.skip(i as int)) == Some((seq![kv], s@.skip(j2 + 1))));
                assert(scalar_fields_view(acc_old) + seq![kv] =~= scalar_fields_view(acc@));
            }
            return Some((acc, j2 + 1));
        } else {
            return None;
        }
    }
}

/// Parses an object with scalar values, braces included.
pub fn scan_scalar_object(s: &str, from: usize) -> (r: Option<(Vec<(String, JsonScalar)>, usize)>)
    requires
        from <= s@.len(),
    ensures
        match r {
            Some((fs, j)) => {
                &&& from < j <= s@.len()
                &&& take_scalar_object(s@.skip(from as int)) == Some(
                    (scalar_fields_view(fs@), s@.skip(j as int)),
                )
            },
            None => take_scalar_object(s@.skip(from as int)) is None,
        },
{
    let len = s.unicode_len();
    if from >= len {
        assert(s@.skip(from as int).len() == 0);
        return None;
    }
    let c = s.get_char(from);
    assert(s@.skip(from as int)[0] == s@[from as int]);
    if c != '{' {
        return None;
    }
    if from + 1 < len && s.get_char(from + 1) == '}' {
        assert(s@.skip(from as int)[1] == s@[from + 1]);
        proof {
            assert(s@.skip(from as int).skip(2) =~= s@.skip(from + 2));
            assert(scalar_fields_view(Seq::<(String, JsonScalar)>::empty()) =~= Seq::<
                (Seq<char>, SpecScalar),
            >::empty());
        }
        return Some((Vec::new(), from + 2));
    }
    proof {
        if from + 1 < len {
            assert(s@.skip(from as int)[1] == s@[from + 1]);
        }
        assert(!(s@.skip(from as int).len() >= 2 && s@.skip(from as int)[1] == '}'));
        assert(s@.skip(from as int).drop_first() =~= s@.skip(from + 1));
    }
    scan_scalar_members(s, from + 1)
}

/// Parses an array of objects, brackets included.
pub fn scan_array(s: &str, from: usize) -> (r: Option<(Vec<Vec<(String, JsonScalar)>>, usize)>)
    requires
        from <= s@.len(),
    ensures
        match r {
            Some((es, j)) => {
                &&& from < j <= s@.len()
                &&& take_array(s@.skip(from as int)) == Some((elems_view(es@), s@.skip(j as int)))
            },
            None => take_array(s@.skip(from as int)) is None,
        },
{
    let len = s.unicode_len();
    if from >= len {
        assert(s@.skip(from as int).len() == 0);
        return None;
    }
    let c = s.get_char(from);
    assert(s@.skip(from as int)[0] == s@[from as int]);
    if c != '[' {
        return None;
    }
    if from + 1 < len && s.get_char(from + 1) == ']' {
        assert(s@.skip(from as int)[1] == s@[from + 1]);
        proof {
            assert(s@.skip(from as int).skip(2) =~= s@.skip(from + 2));
            assert(elems_view(Seq::<Vec<(String, JsonScalar)>>::empty()) =~= Seq::<
                Seq<(Seq<char>, SpecScalar)>,
            >::empty());
        }
        return Some((Vec::new(), from + 2));
    }
    proof {
        if from + 1 < len {
            assert(s@.skip(from as int)[1] == s@[from + 1]);
        }
        assert(!(s@.skip(from as int).len() >= 2 && s@.skip(from as int)[1] == ']'));
        assert(s@.skip(from as int).drop_first() =~= s@.skip(from + 1));
    }
    let ghost start = from + 1;
    let mut acc: Vec<Vec<(String, JsonScalar)>> = Vec::new();
    let mut i: usize = from + 1;
    proof {
        assert(elems_view(acc@) =~= Seq::<Seq<(Seq<char>, SpecScalar)>>::empty());
    }
    loop
        invariant
            len == s@.len(),
            start <= i <= len,
            start == from + 1,
            from < len,
            take_array(s@.skip(from as int)) == take_array_items(s@.skip(start)),
            take_array_items(s@.skip(start)) == match take_array_items(s@.skip(i as int)) {
                Some((es, r)) => Some((elems_view(acc@) + es, r)),
                None => None::<(Seq<Seq<(Seq<char>, SpecScalar)>>, Seq<char>)>,
            },
        decreases len - i,
    {
        let (ob, j1) = match scan_scalar_object(s, i) {
            Some(p) => p,
            None => {
                return None;
            },
        };
        if j1 >= len {
            assert(s@.skip(j1 as int).len() == 0);
            return None;
        }
        let c1 = s.get_char(j1);
        assert(s@.skip(j1 as int)[0] == s@[j1 as int]);
        let ghost acc_old = acc@;
        let ghost obv = scalar_fields_view(ob@);
        acc.push(ob);
        proof {
            assert(elems_view(acc@) =~= elems_view(acc_old) + seq![obv]);
        }
        if c1 == ',' {
            proof {
                assert(s@.skip(j1 as int).drop_first() =~= s@.skip(j1 + 1));
                let o = take_array_items(s@.skip(j1 + 1));
                if o is Some {
                    let (es, r) = o->0;
                    assert(take_array_items(s@.skip(i as int)) == Some((seq![obv] + es, r)));
                    assert(elems_view(acc_old) + (seq![obv] + es) =~= (elems_view(acc_old)
                        + seq![obv]) + es);
                } else {
                    assert(take_array_items(s@.skip(i as int)) is None);
                }
            }
            i = j1 + 1;
        } else if c1 == ']' {
            proof {
                assert(s@.skip(j1 as int).drop_first() =~= s@.skip(j1 + 1));
                assert(take_array_items(s@.skip(i as int)) == Some((seq![obv], s@.skip(j1 + 1))));
                assert(elems_view(acc_old) + seq![obv] =~= elems_view(acc@));
            }
            return Some((acc, j1 + 1));
        } else {
            return None;
        }
    }
}

/// Parses a value at `from`.
pub fn scan_value(s: &str, from: usize) -> (r: Option<(JsonValue, usize)>)
    requires
        from <= s@.len(),
    ensures
        match r {
            Some((v, j)) => {
                &&& from < j <= s@.len()
                &&& take_value(s@.skip(from as int)) == Some((v@, s@.skip(j as int)))
            },
            None => take_value(s@.skip(from as int)) is None,
        },
{
    let len = s.unicode_len();
    if from >= len {
        assert(s@.skip(from as int).len() == 0);
        return None;
    }
    let c = s.get_char(from);
    assert(s@.skip(from as int)[0] == s@[from as int]);
    if c == '"' {
        assert(s@.skip(from as int).drop_first() =~= s@.skip(from + 1));
        match scan_string(s, from + 1) {
            Some((t, j)) => Some((JsonValue::Str(t), j)),
            None => None,
        }
    } else if c == '-' || (48 <= c as u32 && c as u32 <= 57) {
        match scan_int(s, from) {
            Some((v, j)) => Some((JsonValue::Int(v), j)),
            None => None,
        }
    } else if c == '[' {
        match scan_array(s, from) {
            Some((es, j)) => Some((JsonValue::Arr(es), j)),
            None => None,
        }
    } else {
        None
    }
}

/// Parses the members of an object, the opening brace already consumed;
/// consumes the closing brace.
pub fn scan_members(s: &str, from: usize) -> (r: Option<(Vec<(String, JsonValue)>, usize)>)
    requires
        from <= s@.len(),
    ensures
        match r {
            Some((fs, j)) => {
                &&& from < j <= s@.len()
                &&& take_members(s@.skip(from as int)) == Some(
                    (fields_view(fs@), s@.skip(j as int)),
                )
            },
            None => take_members(s@.skip(from as int)) is None,
        },
{
    let len = s.unicode_len();
    let mut acc: Vec<(String, JsonValue)> = Vec::new();
    let mut i: usize = from;
    proof {
        assert(fields_view(acc@) =~= Seq::<(Seq<char>, SpecValue)>::empty());
    }
    loop
        invariant
            len == s@.len(),
            from <= i <= len,
            take_members(s@.skip(from as int)) == match take_members(s@.skip(i as int)) {
                Some((fs, r)) => Some((fields_view(acc@) + fs, r)),
                None => None::<(Seq<(Seq<char>, SpecValue)>, Seq<char>)>,
            },
        decreases len - i,
    {
        if i >= len {
            assert(s@.skip(i as int).len() == 0);
            return None;
        }
        let c = s.get_char(i);
        assert(s@.skip(i as int)[0] == s@[i as int]);
        if c != '"' {
            return None;
        }
        assert(s@.skip(i as int).drop_first() =~= s@.skip(i + 1));
        let (k, j1) = match scan_string(s, i + 1) {
            Some(p) => p,
            None => {
                return None;
            },
        };
        if j1 >= len {
            assert(s@.skip(j1 as int).len() == 0);
            return None;
        }
        let c1 = s.get_char(j1);
        assert(s@.skip(j1 as int)[0] == s@[j1 as int]);
        if c1 != ':' {
            return None;
        }
        assert(s@.skip(j1 as int).drop_first() =~= s@.skip(j1 + 1));
        let (v, j2) = match scan_value(s, j1 + 1) {
            Some(p) => p,
            None => {
                return None;
            },
        };
        if j2 >= len {
            assert(s@.skip(j2 as int).len() == 0);
            return None;
        }
        let c2 = s.get_char(j2);
        assert(s@.skip(j2 as int)[0] == s@[j2 as int]);
        let ghost acc_old = acc@;
        let ghost kv = (k@, v@);
        acc.push((k, v));
        proof {
            assert(fields_view(acc@) =~= fields_view(acc_old) + seq![kv]);
        }
        if c2 == ',' {
            proof {
                assert(s@.skip(j2 as int).drop_first() =~= s@.skip(j2 + 1));
                let o = take_members(s@.skip(j2 + 1));
                if o is Some {
                    let (fs, r) = o->0;
                    assert(take_members(s@.skip(i as int)) == Some((seq![kv] + fs, r)));
                    assert(fields_view(acc_old) + (seq![kv] + fs) =~= (fields_view(acc_old)
                        + seq![kv]) + fs);
                } else {
                    assert(take_members(s@.skip(i as int)) is None);
                }
            }
            i = j2 + 1;
        } else if c2 == '}' {
            proof {
                assert(s@.skip(j2 as int).drop_first() =~= s@.skip(j2 + 1));
                assert(take_members(s@.skip(i as int)) == Some((seq![kv], s@.skip(j2 + 1))));
                assert(fields_view(acc_old) + seq![kv] =~= fields_view(acc@));
            }
            return Some((acc, j2 + 1));
        } else {
            return None;
        }
    }
}

/// Parses a complete JSON document holding one object, with nothing but
/// the object in it.
pub fn parse_json_object(s: &str) -> (r: Option<Vec<(String, JsonValue)>>)
    ensures
        match r {
            Some(fs) => spec_parse_object(s@) == Some(fields_view(fs@)),
            None => spec_parse_object(s@) is None,
        },
{
    let len = s.unicode_len();
    if len == 0 {
        return None;
    }
    if s.get_char(0) != '{' {
        return None;
    }
    if 1 < len && s.get_char(1) == '}' {
        if len == 2 {
            proof {
                assert(fields_view(Seq::<(String, JsonValue)>::empty()) =~= Seq::<
                    (Seq<char>, SpecValue),
                >::empty());
            }
            return Some(Vec::new());
        } else {
            return None;
        }
    }
    assert(s@.drop_first() =~= s@.skip(1));
    match scan_members(s, 1) {
        Some((fs, j)) => {
            if j == len {
                assert(s@.skip(j as int).len() == 0);
                Some(fs)
            } else {
                assert(s@.skip(j as int).len() != 0);
                None
            }
        },
        None => None,
    }
}

/// The value of a whole string as a decimal integer, if it is one an
/// `i32` can hold.
pub open spec fn spec_parse_i32(s: Seq<char>) -> Option<int> {
    match take_int(s) {
        Some((v, r)) => if r.len() == 0 && i32::MIN <= v <= i32::MAX {
            Some(v)
        } else {
            None
        },
        None => None,
    }
}

/// Parses a whole string as an `i32`.
pub fn parse_i32(s: &str) -> (r: Option<i32>)
    ensures
        match r {
            Some(v) => spec_parse_i32(s@) == Some(v as int),
            None => spec_parse_i32(s@) is None,
        },
{
    proof {
        assert(s@.skip(0) =~= s@);
    }
    match scan_int(s, 0) {
        Some((v, j)) => {
            if j == s.unicode_len() && i32::MIN as i64 <= v && v <= i32::MAX as i64 {
                assert(s@.skip(j as int).len() == 0);
                Some(v as i32)
            } else {
                proof {
                    if j < s@.len() {
                        assert(s@.skip(j as int).len() != 0);
                    }
                }
                None
            }
        },
        None => None,
    }
}

// ----- field lookup ---------------------------------------------------------

/// The first value under a key in an object's members, if any.
pub open spec fn spec_lookup(fs: Seq<(Seq<char>, SpecValue)>, k: Seq<char>) -> Option<SpecValue>
    decreases fs.len(),
{
    if fs.len() == 0 {
        None
    } else if fs[0].0 == k {
        Some(fs[0].1)
    } else {
        spec_lookup(fs.drop_first(), k)
    }
}

/// The first scalar under a key in a scalar object's members, if any.
pub open spec fn spec_scalar_lookup(fs: Seq<(Seq<char>, SpecScalar)>, k: Seq<char>) -> Option<
    SpecScalar,
>
    decreases fs.len(),
{
    if fs.len() == 0 {
        None
    } else if fs[0].0 == k {
        Some(fs[0].1)
    } else {
        spec_scalar_lookup(fs.drop_first(), k)
    }
}

/// Looks a key up among an object's fields.
pub fn lookup_field<'a>(fs: &'a Vec<(String, JsonValue)>, k: &str) -> (r: Option<&'a JsonValue>)
    ensures
        match r {
            Some(v) => spec_lookup(fields_view(fs@), k@) == Some(v@),
            None => spec_lookup(fields_view(fs@), k@) is None,
        },
{
    let ghost full = fields_view(fs@);
    let mut i: usize = 0;
    proof {
        assert(full.skip(0) =~= full);
    }
    while i < fs.len()
        invariant
            i <= fs@.len(),
            full == fields_view(fs@),
            spec_lookup(full, k@) == spec_lookup(full.skip(i as int), k@),
        decreases fs@.len() - i,
    {
        proof {
            assert(full.skip(i as int)[0] == (fs@[i as int].0@, fs@[i as int].1@));
            assert(full.skip(i as int).drop_first() =~= full.skip(i + 1));
        }
        if crate::str_eq(fs[i].0.as_str(), k) {
            return Some(&fs[i].1);
        }
        i += 1;
    }
    assert(full.skip(i as int).len() == 0);
    None
}

/// Looks a key up among a scalar object's fields.
pub fn lookup_scalar_field<'a>(fs: &'a Vec<(String, JsonScalar)>, k: &str) -> (r: Option<
    &'a JsonScalar,
>)
    ensures
        match r {
            Some(v) => spec_scalar_lookup(scalar_fields_view(fs@), k@) == Some(v@),
            None => spec_scalar_lookup(scalar_fields_view(fs@), k@) is None,
        },
{
    let ghost full = scalar_fields_view(fs@);
    let mut i: usize = 0;
    proof {
        assert(full.skip(0) =~= full);
    }
    while i < fs.len()
        invariant
            i <= fs@.len(),
            full == scalar_fields_view(fs@),
            spec_scalar_lookup(full, k@) == spec_scalar_lookup(full.skip(i as int), k@),
        decreases fs@.len() - i,
    {
        proof {
            assert(full.skip(i as int)[0] == (fs@[i as int].0@, fs@[i as int].1@));
            assert(full.skip(i as int).drop_first() =~= full.skip(i + 1));
        }
        if crate::str_eq(fs[i].0.as_str(), k) {
            return Some(&fs[i].1);
        }
        i += 1;
    }
    assert(full.skip(i as int).len() == 0);
    None
}

/// The string under a key among an object's fields, if it is a string.
pub open spec fn spec_str_field(fs: Seq<(Seq<char>, SpecValue)>, k: Seq<char>) -> Option<
    Seq<char>,
> {
    match spec_lookup(fs, k) {
        Some(SpecValue::Str(t)) => Some(t),
        _ => None,
    }
}

/// Fetches a string field of a parsed object, if it is a string.
pub fn get_str_field(fs: &Vec<(String, JsonValue)>, k: &str) -> (r: Option<String>)
    ensures
        match r {
            Some(t) => spec_str_field(fields_view(fs@), k@) == Some(t@),
            None => spec_str_field(fields_view(fs@), k@) is None,
        },
{
    match lookup_field(fs, k) {
        Some(v) => match v {
            JsonValue::Str(t) => Some(t.clone()),
            _ => None,
        },
        None => None,
    }
}

} // verus!

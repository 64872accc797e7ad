//! Positional parsing of an ordered token stream into typed values.
//!
//! A parser consumes a prefix of the stream and hands back the parsed value
//! together with the position where the unconsumed remainder starts, so that
//! parsers compose over one shared stream without copying it.  The entry
//! point [`parse`] additionally demands that nothing be left over.

use vstd::prelude::*;

verus! {

/// Why a parse attempt failed.  The set is closed and flat: the first error
/// anywhere aborts the whole parse and is surfaced verbatim.
#[derive(Clone, Copy, Debug, PartialEq, Eq, Structural)]
pub enum ParsingError {
    /// A value needed one more token and the stream had none left.
    TooFewArguments,
    /// A token was present but did not convert to the expected type.
    BadType,
    /// A discriminant token matched no variant name, case-insensitively.
    VariantNotFound,
    /// Tokens remained after a structurally complete top-level parse.
    TooManyArguments,
}

/// A parsed value together with the position in the token stream where the
/// unconsumed remainder starts.
#[derive(Debug, PartialEq)]
pub struct Parsed<T>(pub T, pub usize);

/// Simple and safe conversion of a token stream prefix into a value.
///
/// What parsing means for the type is pinned by `spec_try_parse`, a function
/// of the stream and the starting position alone; `try_parse` must return
/// exactly that value — compared through its deep view — and that remainder
/// position, or exactly that error.
pub trait TryParse: Sized + DeepView {
    /// The value parsed from `tokens` at `pos` with the position of the
    /// remainder, or the error.  An implementation that leaves this at its
    /// default promises nothing of the value it parses.
    open spec fn spec_try_parse(tokens: Seq<Seq<char>>, pos: int) -> Result<
        (Self::V, int),
        ParsingError,
    > {
        arbitrary()
    }

    fn try_parse(tokens: &Vec<String>, pos: usize) -> (r: Result<Parsed<Self>, ParsingError>)
        requires
            pos <= tokens@.len(),
        ensures
            (match Self::spec_try_parse(tokens.deep_view(), pos as int) {
                Ok(res) => r matches Ok(p) && p.0.deep_view() == res.0 && p.1 as int == res.1
                    && pos <= p.1 <= tokens@.len(),
                Err(e) => r matches Err(e2) && e2 == e,
            }),
    ;
}

/// Parses a whole token stream: hands the value to `callback` when the
/// parse consumed every token, and fails with `TooManyArguments` when a
/// structurally complete parse left tokens over.
pub fn parse<T: TryParse, R, F: FnOnce(T) -> R>(tokens: &Vec<String>, callback: F) -> (r: Result<
    R,
    ParsingError,
>)
    requires
        (match T::spec_try_parse(tokens.deep_view(), 0) {
            Ok(res) => res.1 == tokens@.len() ==> forall|v: T|
                v.deep_view() == res.0 ==> call_requires(callback, (v,)),
            Err(_) => true,
        }),
    ensures
        (match T::spec_try_parse(tokens.deep_view(), 0) {
            Ok(res) => if res.1 < tokens@.len() {
                r matches Err(e) && e == ParsingError::TooManyArguments
            } else {
                r matches Ok(out) && exists|v: T|
                    v.deep_view() == res.0 && call_ensures(callback, (v,), out)
            },
            Err(e) => r matches Err(e2) && e2 == e,
        }),
{
    match T::try_parse(tokens, 0) {
        Ok(p) => {
            let Parsed(parsed, rest) = p;
            if rest < tokens.len() {
                Err(ParsingError::TooManyArguments)
            } else {
                Ok(callback(parsed))
            }
        },
        Err(err) => Err(err),
    }
}

// ---------------------------------------------------------------------------
// Tokens as unsigned decimal numbers.
// ---------------------------------------------------------------------------
pub open spec fn is_ascii_digit(c: char) -> bool {
    '0' <= c && c <= '9'
}

pub open spec fn digit_value(c: char) -> nat {
    (c as int - 48) as nat
}

pub open spec fn all_digits(s: Seq<char>) -> bool {
    forall|i: int| 0 <= i < s.len() ==> is_ascii_digit(#[trigger] s[i])
}

/// The number the digit run `s` writes in decimal.
pub open spec fn digits_value(s: Seq<char>) -> nat
    decreases s.len(),
{
    if s.len() == 0 {
        0
    } else {
        digits_value(s.drop_last()) * 10 + digit_value(s.last())
    }
}

/// What an unsigned decimal token means: an optional leading `+`, then one
/// digit or more, nothing else; its value otherwise `None`.
pub open spec fn spec_parse_uint(s: Seq<char>) -> Option<nat> {
    let body = if s.len() > 0 && s[0] == '+' {
        s.skip(1)
    } else {
        s
    };
    if body.len() == 0 || !all_digits(body) {
        None
    } else {
        Some(digits_value(body))
    }
}

/// An unsigned decimal token confined to a byte.
pub open spec fn spec_parse_u8(s: Seq<char>) -> Option<u8> {
    match spec_parse_uint(s) {
        Some(v) => if v <= u8::MAX {
            Some(v as u8)
        } else {
            None
        },
        None => None,
    }
}

proof fn lemma_digits_value_prefix(s: Seq<char>, k: int)
    requires
        0 <= k <= s.len(),
    ensures
        digits_value(s.take(k)) <= digits_value(s),
    decreases s.len(),
{
    if k < s.len() {
        lemma_digits_value_prefix(s.drop_last(), k);
        assert(s.drop_last().take(k) =~= s.take(k));
    } else {
        assert(s.take(k) =~= s);
    }
}

/// Reads a token as an unsigned decimal byte, exactly as `spec_parse_u8`
/// has it; everything else is a `BadType` error.
pub fn parse_u8(s: &str) -> (r: Result<u8, ParsingError>)
    ensures
        (match spec_parse_u8(s@) {
            Some(v) => r == Ok::<u8, ParsingError>(v),
            None => r == Err::<u8, ParsingError>(ParsingError::BadType),
        }),
{
    let n = s.unicode_len();
    let mut start: usize = 0;
    if n > 0 && s.get_char(0) == '+' {
        start = 1;
    }
    let ghost body = if s@.len() > 0 && s@[0] == '+' {
        s@.skip(1)
    } else {
        s@
    };
    proof {
        assert(body =~= s@.skip(start as int));
    }
    if start >= n {
        return Err(ParsingError::BadType);
    }
    let mut acc: u32 = 0;
    let mut i: usize = start;
    while i < n
        invariant
            start <= i <= n,
            start < n,
            n == s@.len(),
            start <= 1,
            body == s@.skip(start as int),
            body == (if s@.len() > 0 && s@[0] == '+' {
                s@.skip(1)
            } else {
                s@
            }),
            acc <= 255,
            acc == digits_value(body.take(i - start)),
            forall|m: int| start <= m < i ==> is_ascii_digit(#[trigger] s@[m]),
        decreases n - i,
    {
        let c = s.get_char(i);
        let v = c as u32;
        proof {
            assert(body[i - start] == s@[i as int]);
            assert(body.take(i + 1 - start).drop_last() =~= body.take(i - start));
            assert(body.take(i + 1 - start).last() == s@[i as int]);
            assert(v as int == c as int);
            assert(('0' <= c && c <= '9') == (48 <= v && v <= 57));
        }
        if v < 48 || v > 57 {
            proof {
                assert(!is_ascii_digit(body[i - start]));
                assert(!all_digits(body));
                assert(spec_parse_uint(s@) == None::<nat>);
            }
            return Err(ParsingError::BadType);
        }
        let next: u32 = acc * 10 + (v - 48);
        proof {
            assert(digit_value(s@[i as int]) == v - 48);
            assert(digits_value(body.take(i + 1 - start)) == acc * 10 + (v - 48));
        }
        if next > 255 {
            proof {
                if all_digits(body) {
                    lemma_digits_value_prefix(body, i + 1 - start);
                    assert(digits_value(body) > 255);
                    assert(spec_parse_uint(s@) == Some(digits_value(body)));
                    assert(spec_parse_u8(s@) == None::<u8>);
                } else {
                    assert(spec_parse_uint(s@) == None::<nat>);
                }
            }
            return Err(ParsingError::BadType);
        }
        acc = next;
        i += 1;
    }
    proof {
        assert(body.take(n - start) =~= body);
        assert forall|m: int| 0 <= m < body.len() implies is_ascii_digit(#[trigger] body[m]) by {
            assert(body[m] == s@[start + m]);
        }
    }
    Ok(acc as u8)
}

// ---------------------------------------------------------------------------
// Tokens as variant names, compared without regard to ASCII case.
// ---------------------------------------------------------------------------
/// The code point of `c` with an ASCII capital folded to its small form.
pub open spec fn lower_code(c: char) -> int {
    if 'A' <= c && c <= 'Z' {
        c as int + 32
    } else {
        c as int
    }
}

/// Whether two texts are equal once ASCII case is folded away.
pub open spec fn ci_equal(a: Seq<char>, b: Seq<char>) -> bool {
    a.len() == b.len() && forall|i: int|
        0 <= i < a.len() ==> lower_code(#[trigger] a[i]) == lower_code(#[trigger] b[i])
}

/// Compares two texts without regard to ASCII case.
pub fn eq_ignore_case(a: &str, b: &str) -> (r: bool)
    ensures
        r == ci_equal(a@, b@),
{
    let na = a.unicode_len();
    let nb = b.unicode_len();
    if na != nb {
        return false;
    }
    let mut i: usize = 0;
    while i < na
        invariant
            i <= na,
            na == a@.len(),
            na == b@.len(),
            forall|m: int| 0 <= m < i ==> lower_code(#[trigger] a@[m]) == lower_code(#[trigger] b@[m]),
        decreases na - i,
    {
        let ca = a.get_char(i) as u32;
        let cb = b.get_char(i) as u32;
        let la = if 65 <= ca && ca <= 90 {
            ca + 32
        } else {
            ca
        };
        let lb = if 65 <= cb && cb <= 90 {
            cb + 32
        } else {
            cb
        };
        proof {
            assert(('A' <= a@[i as int] && a@[i as int] <= 'Z') == (65 <= ca && ca <= 90));
            assert(('A' <= b@[i as int] && b@[i as int] <= 'Z') == (65 <= cb && cb <= 90));
        }
        if la != lb {
            return false;
        }
        i += 1;
    }
    true
}

/// The first position in `names` whose entry matches `token` without regard
/// to ASCII case, if any.
pub open spec fn variant_index(names: Seq<Seq<char>>, token: Seq<char>) -> Option<int>
    decreases names.len(),
{
    if names.len() == 0 {
        None
    } else if ci_equal(names[0], token) {
        Some(0int)
    } else {
        match variant_index(names.skip(1), token) {
            Some(i) => Some(i + 1),
            None => None,
        }
    }
}

proof fn lemma_variant_index_found(names: Seq<Seq<char>>, token: Seq<char>, i: int)
    requires
        0 <= i < names.len(),
        ci_equal(names[i], token),
        forall|k: int| 0 <= k < i ==> !ci_equal(#[trigger] names[k], token),
    ensures
        variant_index(names, token) == Some(i),
    decreases names.len(),
{
    if i == 0 {
    } else {
        assert(!ci_equal(names[0], token));
        assert forall|k: int| 0 <= k < i - 1 implies !ci_equal(#[trigger] names.skip(1)[k], token) by {
            assert(names.skip(1)[k] == names[k + 1]);
        }
        assert(names.skip(1)[i - 1] == names[i]);
        lemma_variant_index_found(names.skip(1), token, i - 1);
    }
}

proof fn lemma_variant_index_none(names: Seq<Seq<char>>, token: Seq<char>)
    requires
        forall|k: int| 0 <= k < names.len() ==> !ci_equal(#[trigger] names[k], token),
    ensures
        variant_index(names, token) is None,
    decreases names.len(),
{
    if names.len() > 0 {
        assert forall|k: int|
            0 <= k < names.skip(1).len() implies !ci_equal(#[trigger] names.skip(1)[k], token) by {
            assert(names.skip(1)[k] == names[k + 1]);
        }
        lemma_variant_index_none(names.skip(1), token);
    }
}

/// The views of a list of variant names.
pub open spec fn name_views(names: Seq<&str>) -> Seq<Seq<char>> {
    names.map_values(|n: &str| n@)
}

/// What consuming a discriminant token at `pos` against `names` yields: the
/// position of the first matching name and the remainder position, or
/// `TooFewArguments` when the stream is exhausted, or `VariantNotFound`
/// when no name matches.
pub open spec fn spec_parse_variant(tokens: Seq<Seq<char>>, pos: int, names: Seq<Seq<char>>) -> Result<
    (int, int),
    ParsingError,
> {
    if pos >= tokens.len() {
        Err(ParsingError::TooFewArguments)
    } else {
        match variant_index(names, tokens[pos]) {
            Some(i) => Ok((i, pos + 1)),
            None => Err(ParsingError::VariantNotFound),
        }
    }
}

/// Consumes one token as a discriminant and finds which of `names` it
/// matches, without regard to ASCII case.
pub fn parse_variant(tokens: &Vec<String>, pos: usize, names: &Vec<&str>) -> (r: Result<
    Parsed<usize>,
    ParsingError,
>)
    requires
        pos <= tokens@.len(),
    ensures
        (match spec_parse_variant(tokens.deep_view(), pos as int, name_views(names@)) {
            Ok(res) => r matches Ok(p) && p.0 as int == res.0 && p.1 as int == res.1 && p.0
                < names@.len(),
            Err(e) => r matches Err(e2) && e2 == e,
        }),
{
    proof {
        assert(tokens.deep_view().len() == tokens@.len());
    }
    if pos >= tokens.len() {
        return Err(ParsingError::TooFewArguments);
    }
    let next_pos = pos + 1;
    let token = &tokens[pos];
    proof {
        assert(tokens.deep_view()[pos as int] == tokens@[pos as int]@);
    }
    let ghost views = name_views(names@);
    let mut i: usize = 0;
    while i < names.len()
        invariant
            i <= names@.len(),
            views == name_views(names@),
            pos < tokens@.len(),
            next_pos == pos + 1,
            tokens.deep_view().len() == tokens@.len(),
            token@ == tokens.deep_view()[pos as int],
            forall|k: int| 0 <= k < i ==> !ci_equal(#[trigger] views[k], token@),
        decreases names@.len() - i,
    {
        if eq_ignore_case(names[i], token.as_str()) {
            proof {
                assert(views[i as int] == names@[i as int]@);
                lemma_variant_index_found(views, token@, i as int);
            }
            return Ok(Parsed(i, next_pos));
        }
        i += 1;
    }
    proof {
        lemma_variant_index_none(views, token@);
    }
    Err(ParsingError::VariantNotFound)
}

/// Finds which of `names` the whole of `value` matches, without regard to
/// ASCII case; otherwise reports the unknown variant by name.
pub fn from_str_variant(names: &Vec<&str>, value: &str) -> (r: Result<usize, String>)
    ensures
        (match variant_index(name_views(names@), value@) {
            Some(i) => r matches Ok(idx) && idx as int == i && idx < names@.len(),
            None => r matches Err(m) && m@ == ("Unexistant variant ")@ + value@,
        }),
{
    let ghost views = name_views(names@);
    let mut i: usize = 0;
    while i < names.len()
        invariant
            i <= names@.len(),
            views == name_views(names@),
            forall|k: int| 0 <= k < i ==> !ci_equal(#[trigger] views[k], value@),
        decreases names@.len() - i,
    {
        if eq_ignore_case(names[i], value) {
            proof {
                lemma_variant_index_found(views, value@, i as int);
            }
            return Ok(i);
        }
        i += 1;
    }
    proof {
        lemma_variant_index_none(views, value@);
    }
    let mut m = String::from_str("Unexistant variant ");
    m.append(value);
    Err(m)
}

// ---------------------------------------------------------------------------
// The primitive parsers.
// ---------------------------------------------------------------------------
impl TryParse for u8 {
    open spec fn spec_try_parse(tokens: Seq<Seq<char>>, pos: int) -> Result<(u8, int), ParsingError> {
        if pos >= tokens.len() {
            Err(ParsingError::TooFewArguments)
        } else {
            match spec_parse_u8(tokens[pos]) {
                Some(v) => Ok((v, pos + 1)),
                None => Err(ParsingError::BadType),
            }
        }
    }

    fn try_parse(tokens: &Vec<String>, pos: usize) -> (r: Result<Parsed<u8>, ParsingError>) {
        proof {
            assert(tokens.deep_view().len() == tokens@.len());
        }
        if pos >= tokens.len() {
            return Err(ParsingError::TooFewArguments);
        }
        proof {
            assert(tokens.deep_view()[pos as int] == tokens@[pos as int]@);
        }
        match parse_u8(tokens[pos].as_str()) {
            Ok(v) => Ok(Parsed(v, pos + 1)),
            Err(e) => Err(e),
        }
    }
}

impl TryParse for String {
    open spec fn spec_try_parse(tokens: Seq<Seq<char>>, pos: int) -> Result<
        (Seq<char>, int),
        ParsingError,
    > {
        if pos >= tokens.len() {
            Err(ParsingError::TooFewArguments)
        } else {
            Ok((tokens[pos], pos + 1))
        }
    }

    fn try_parse(tokens: &Vec<String>, pos: usize) -> (r: Result<Parsed<String>, ParsingError>) {
        proof {
            assert(tokens.deep_view().len() == tokens@.len());
        }
        if pos >= tokens.len() {
            return Err(ParsingError::TooFewArguments);
        }
        proof {
            assert(tokens.deep_view()[pos as int] == tokens@[pos as int]@);
        }
        Ok(Parsed(tokens[pos].clone(), pos + 1))
    }
}

// ---------------------------------------------------------------------------
// Round trip: the decimal rendering of a byte parses back to it.
// ---------------------------------------------------------------------------
/// The decimal digit characters.
pub open spec fn digit_char(d: nat) -> char {
    if d == 0 {
        '0'
    } else if d == 1 {
        '1'
    } else if d == 2 {
        '2'
    } else if d == 3 {
        '3'
    } else if d == 4 {
        '4'
    } else if d == 5 {
        '5'
    } else if d == 6 {
        '6'
    } else if d == 7 {
        '7'
    } else if d == 8 {
        '8'
    } else {
        '9'
    }
}

/// The canonical decimal rendering of a number: no sign, no leading zero
/// except for zero itself.
pub open spec fn dec_str(n: nat) -> Seq<char>
    decreases n,
{
    if n < 10 {
        seq![digit_char(n)]
    } else {
        dec_str(n / 10) + seq![digit_char(n % 10)]
    }
}

proof fn lemma_dec_str_digits(n: nat)
    ensures
        dec_str(n).len() > 0,
        all_digits(dec_str(n)),
        digits_value(dec_str(n)) == n,
        dec_str(n)[0] != '+',
    decreases n,
{
    if n < 10 {
        assert(dec_str(n) =~= seq![digit_char(n)]);
        assert(dec_str(n).drop_last() =~= Seq::<char>::empty());
        assert(digits_value(Seq::<char>::empty()) == 0);
        assert(dec_str(n).last() == digit_char(n));
        assert(digit_value(digit_char(n)) == n);
        assert(digits_value(dec_str(n)) == 10 * digits_value(dec_str(n).drop_last()) + digit_value(
            digit_char(n),
        ));
    } else {
        lemma_dec_str_digits(n / 10);
        let whole = dec_str(n);
        assert(whole =~= dec_str(n / 10) + seq![digit_char(n % 10)]);
        assert(whole.drop_last() =~= dec_str(n / 10));
        assert(whole.last() == digit_char(n % 10));
        assert(digit_value(digit_char(n % 10)) == n % 10);
        assert forall|i: int| 0 <= i < whole.len() implies is_ascii_digit(#[trigger] whole[i]) by {
            if i < whole.len() - 1 {
                assert(whole[i] == dec_str(n / 10)[i]);
            }
        }
        assert(digits_value(whole) == (n / 10) * 10 + n % 10);
        assert((n / 10) * 10 + n % 10 == n) by (nonlinear_arith);
    }
}

/// Round trip: a byte's canonical decimal rendering, standing as the token
/// at `pos`, parses back to exactly that byte and consumes exactly that
/// token.
pub proof fn lemma_u8_round_trip(v: u8, tokens: Seq<Seq<char>>, pos: int)
    requires
        0 <= pos < tokens.len(),
        tokens[pos] == dec_str(v as nat),
    ensures
        u8::spec_try_parse(tokens, pos) == Ok::<(u8, int), ParsingError>((v, pos + 1)),
{
    lemma_dec_str_digits(v as nat);
    let s = tokens[pos];
    assert(s[0] != '+');
    assert(spec_parse_uint(s) == Some(digits_value(s)));
    assert(spec_parse_u8(s) == Some(v));
}

/// Round trip for a text field: any token is handed through whole, and the
/// parse consumes exactly that token.
pub proof fn lemma_string_round_trip(tokens: Seq<Seq<char>>, pos: int)
    requires
        0 <= pos < tokens.len(),
    ensures
        String::spec_try_parse(tokens, pos) == Ok::<(Seq<char>, int), ParsingError>(
            (tokens[pos], pos + 1),
        ),
{
}

/// Round trip for a record of primitive-token fields, consumed in
/// declaration order: a byte field rendered in decimal followed by a text
/// field parse back to exactly those values, each consuming exactly its own
/// token.
pub proof fn lemma_record_round_trip(v: u8, tokens: Seq<Seq<char>>, pos: int)
    requires
        0 <= pos,
        pos + 2 <= tokens.len(),
        tokens[pos] == dec_str(v as nat),
    ensures
        u8::spec_try_parse(tokens, pos) == Ok::<(u8, int), ParsingError>((v, pos + 1)),
        String::spec_try_parse(tokens, pos + 1) == Ok::<(Seq<char>, int), ParsingError>(
            (tokens[pos + 1], pos + 2),
        ),
{
    lemma_u8_round_trip(v, tokens, pos);
}

} // verus!

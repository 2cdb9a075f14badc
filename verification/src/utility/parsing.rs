//! The tokens of the source text: identifiers and integer literals.
//!
//! The grammar is this module's own and is stated here in full. The runs
//! of characters of one class are recognized by `nom`.
use vstd::prelude::*;
use vstd::std_specs::convert::TryFromSpec;
use vstd::string::*;

verus! {

/// `nom::Err`, the failure of a parser of `nom`. Nothing is read from it:
/// the recognizers below say when they fail, and the parsers of this
/// module make their own failure from that.
#[verifier::external_type_specification]
#[verifier::external_body]
#[verifier::reject_recursive_types(E)]
pub struct ExNomErr<E>(nom::Err<E>);

/// `nom::error::Error`, the place and the code of a failure of `nom`.
/// Nothing is read from it.
#[verifier::external_type_specification]
#[verifier::external_body]
#[verifier::reject_recursive_types(I)]
pub struct ExNomError<I>(nom::error::Error<I>);

/// The classes of characters that the grammar speaks of.
#[derive(Clone, Copy, Debug, PartialEq, Eq, Structural)]
pub enum CharClass {
    /// `a` to `z` and `A` to `Z`.
    Alphabetic,
    /// The alphabetic characters and the decimal digits.
    Alphanumeric,
    /// `0` to `9`.
    Digit,
    /// The decimal digits, `a` to `f` and `A` to `F`.
    HexDigit,
    /// Space, tab, carriage return and line feed.
    Space,
    /// What an identifier can go on with: the alphanumeric characters
    /// and `_`.
    IdentifierPart,
}

/// Whether `c` is an ASCII letter.
pub open spec fn is_letter(c: char) -> bool {
    ('a' <= c && c <= 'z') || ('A' <= c && c <= 'Z')
}

/// Whether `c` is a decimal digit.
pub open spec fn is_decimal_digit(c: char) -> bool {
    '0' <= c && c <= '9'
}

impl CharClass {
    /// Whether `c` belongs to the class.
    pub open spec fn holds(self, c: char) -> bool {
        match self {
            CharClass::Alphabetic => is_letter(c),
            CharClass::Alphanumeric => is_letter(c) || is_decimal_digit(c),
            CharClass::Digit => is_decimal_digit(c),
            CharClass::HexDigit => is_decimal_digit(c) || ('a' <= c && c <= 'f') || ('A' <= c && c
                <= 'F'),
            CharClass::Space => c == ' ' || c == '\t' || c == '\r' || c == '\n',
            CharClass::IdentifierPart => is_letter(c) || is_decimal_digit(c) || c == '_',
        }
    }
}

/// The length of the longest prefix of `s` whose characters all belong to
/// `class`.
pub open spec fn run_length(s: Seq<char>, class: CharClass) -> nat
    decreases s.len(),
{
    if s.len() > 0 && class.holds(s[0]) {
        1 + run_length(s.skip(1), class)
    } else {
        0
    }
}

/// The run at the head of `s` lies within `s`, holds only characters of
/// the class, and ends at the end of `s` or before a character that is
/// not of the class.
pub proof fn lemma_run_length(s: Seq<char>, class: CharClass)
    ensures
        run_length(s, class) <= s.len(),
        forall|i: int| 0 <= i < run_length(s, class) ==> class.holds(#[trigger] s[i]),
        run_length(s, class) < s.len() ==> !class.holds(s[run_length(s, class) as int]),
    decreases s.len(),
{
    if s.len() > 0 && class.holds(s[0]) {
        let tail = s.skip(1);
        lemma_run_length(tail, class);
        assert forall|i: int| 0 <= i < run_length(s, class) implies class.holds(#[trigger] s[i]) by {
            if i > 0 {
                assert(tail[i - 1] == s[i]);
            }
        }
        if run_length(s, class) < s.len() {
            assert(tail[run_length(tail, class) as int] == s[run_length(s, class) as int]);
        }
    }
}

/// A prefix of characters of the class that ends at the end of `s`, or
/// before a character that is not of the class, is the run at the head of
/// `s`.
pub proof fn lemma_run_length_is(s: Seq<char>, class: CharClass, n: nat)
    requires
        n <= s.len(),
        forall|i: int| 0 <= i < n ==> class.holds(#[trigger] s[i]),
        n < s.len() ==> !class.holds(s[n as int]),
    ensures
        run_length(s, class) == n,
    decreases n,
{
    if n > 0 {
        let tail = s.skip(1);
        assert forall|i: int| 0 <= i < n - 1 implies class.holds(#[trigger] tail[i]) by {
            assert(tail[i] == s[i + 1]);
        }
        if n - 1 < tail.len() {
            assert(tail[n - 1] == s[n as int]);
        }
        lemma_run_length_is(tail, class, (n - 1) as nat);
    }
}

/// What a parser was looking for where it failed.
#[derive(Clone, Copy, Debug, PartialEq, Eq, Structural)]
pub enum Expected {
    Identifier,
    Integer,
}

/// A failure to parse, tagged with its position: `input` is what was left
/// of the text at the place where `expected` was not found.
#[derive(Clone, Copy, Debug, PartialEq, Eq)]
pub struct ParseError<'a> {
    pub input: &'a str,
    pub expected: Expected,
}

/// What a parser of `&str` gives: what is left of the text and the value,
/// or the failure.
pub type Parsed<'a, O> = Result<(&'a str, O), ParseError<'a>>;

/// What a recognizer of `nom` gives: what is left of the text and what
/// was recognized, or the failure as `nom` tells it.
type Recognized<'a> = Result<(&'a str, &'a str), nom::Err<nom::error::Error<&'a str>>>;

/// `nom::bytes::complete::tag`, with the pattern `pattern`, on `input`:
/// succeeds exactly if the text begins with the pattern, and then splits
/// the text behind it.
#[verifier::external_body]
fn tag<'a>(pattern: &str, input: &'a str) -> (r: Recognized<'a>)
    ensures
        r is Ok <==> (pattern@.len() <= input@.len() && input@.take(pattern@.len() as int)
            == pattern@),
        r matches Ok((rest, found)) ==> found@ == pattern@ && rest@ == input@.skip(
            pattern@.len() as int,
        ),
{
    nom::bytes::complete::tag(pattern)(input)
}

/// `nom::character::complete::alpha1`: splits the text behind its run of
/// ASCII letters, and fails exactly if that run is empty.
#[verifier::external_body]
fn alpha1<'a>(input: &'a str) -> (r: Recognized<'a>)
    ensures
        r is Ok <==> run_length(input@, CharClass::Alphabetic) > 0,
        r matches Ok((rest, found)) ==> found@ == input@.take(
            run_length(input@, CharClass::Alphabetic) as int,
        ) && rest@ == input@.skip(run_length(input@, CharClass::Alphabetic) as int),
{
    nom::character::complete::alpha1(input)
}

/// `nom::character::complete::alphanumeric1`: splits the text behind its
/// run of ASCII letters and decimal digits, and fails exactly if that run
/// is empty.
#[verifier::external_body]
fn alphanumeric1<'a>(input: &'a str) -> (r: Recognized<'a>)
    ensures
        r is Ok <==> run_length(input@, CharClass::Alphanumeric) > 0,
        r matches Ok((rest, found)) ==> found@ == input@.take(
            run_length(input@, CharClass::Alphanumeric) as int,
        ) && rest@ == input@.skip(run_length(input@, CharClass::Alphanumeric) as int),
{
    nom::character::complete::alphanumeric1(input)
}

/// `nom::character::complete::digit1`: splits the text behind its run of
/// decimal digits, and fails exactly if that run is empty.
#[verifier::external_body]
fn digit1<'a>(input: &'a str) -> (r: Recognized<'a>)
    ensures
        r is Ok <==> run_length(input@, CharClass::Digit) > 0,
        r matches Ok((rest, found)) ==> found@ == input@.take(
            run_length(input@, CharClass::Digit) as int,
        ) && rest@ == input@.skip(run_length(input@, CharClass::Digit) as int),
{
    nom::character::complete::digit1(input)
}

/// `nom::character::complete::hex_digit1`: splits the text behind its run
/// of hexadecimal digits, and fails exactly if that run is empty.
#[verifier::external_body]
fn hex_digit1<'a>(input: &'a str) -> (r: Recognized<'a>)
    ensures
        r is Ok <==> run_length(input@, CharClass::HexDigit) > 0,
        r matches Ok((rest, found)) ==> found@ == input@.take(
            run_length(input@, CharClass::HexDigit) as int,
        ) && rest@ == input@.skip(run_length(input@, CharClass::HexDigit) as int),
{
    nom::character::complete::hex_digit1(input)
}

/// `nom::character::complete::multispace0`: splits the text behind its
/// run of spaces, tabs, carriage returns and line feeds, which may be
/// empty. It never fails.
#[verifier::external_body]
fn multispace0<'a>(input: &'a str) -> (r: Recognized<'a>)
    ensures
        r is Ok,
        r matches Ok((rest, found)) ==> found@ == input@.take(
            run_length(input@, CharClass::Space) as int,
        ) && rest@ == input@.skip(run_length(input@, CharClass::Space) as int),
{
    nom::character::complete::multispace0(input)
}

/// Whether an identifier can begin with `c`: a letter or `_`.
pub open spec fn is_identifier_start(c: char) -> bool {
    is_letter(c) || c == '_'
}

/// The length of the identifier at the head of `s`: a letter or `_`, and
/// then letters, digits and `_` as far as they go. It is 0 if `s` does not
/// begin with an identifier.
pub open spec fn identifier_length(s: Seq<char>) -> nat {
    if s.len() > 0 && is_identifier_start(s[0]) {
        run_length(s, CharClass::IdentifierPart)
    } else {
        0
    }
}

/// Parses the identifier at the head of `code`: `[A-Za-z_][A-Za-z0-9_]*`,
/// as long as it goes. Gives the identifier and the text behind it, or
/// fails, at the head of `code`, if `code` does not begin with one.
pub fn ident<'a>(code: &'a str) -> (r: Parsed<'a, String>)
    ensures
        r is Ok <==> identifier_length(code@) > 0,
        r matches Ok((rest, name)) ==> name@ == code@.take(identifier_length(code@) as int)
            && rest@ == code@.skip(identifier_length(code@) as int),
        r matches Err(e) ==> e.input@ == code@ && e.expected == Expected::Identifier,
{
    proof {
        reveal_strlit("_");
        assert("_"@ =~= seq!['_']);
        lemma_run_length(code@, CharClass::Alphabetic);
        if code@.len() > 0 {
            assert(code@.take(1)[0] == code@[0]);
            if code@[0] == '_' {
                assert(code@.take(1) =~= seq!['_']);
            }
        }
    }
    let start = match alpha1(code) {
        Ok((rest, _)) => rest,
        Err(_) => match tag("_", code) {
            Ok((rest, _)) => rest,
            Err(_) => {
                return Err(ParseError { input: code, expected: Expected::Identifier });
            },
        },
    };
    let mut rest = start;
    let ghost mut n: int = code@.len() - start@.len();
    let mut more = true;
    while more
        invariant
            0 < n <= code@.len(),
            rest@ == code@.skip(n),
            is_identifier_start(code@[0]),
            forall|i: int| 0 <= i < n ==> CharClass::IdentifierPart.holds(#[trigger] code@[i]),
            !more ==> (n < code@.len() ==> !CharClass::IdentifierPart.holds(code@[n])),
            "_"@ == seq!['_'],
        decreases rest@.len() + (if more { 1int } else { 0int }),
    {
        proof {
            lemma_run_length(rest@, CharClass::Alphanumeric);
        }
        let ghost before = rest@;
        match alphanumeric1(rest) {
            Ok((after, _)) => {
                proof {
                    let m = run_length(before, CharClass::Alphanumeric) as int;
                    assert forall|i: int| 0 <= i < n + m implies CharClass::IdentifierPart.holds(
                        #[trigger] code@[i],
                    ) by {
                        if i >= n {
                            assert(before[i - n] == code@[i]);
                        }
                    }
                    assert(after@ =~= code@.skip(n + m));
                    n = n + m;
                }
                rest = after;
            },
            Err(_) => match tag("_", rest) {
                Ok((after, _)) => {
                    proof {
                        assert(before.take(1)[0] == '_');
                        assert(before[0] == code@[n]);
                        assert(after@ =~= code@.skip(n + 1));
                        n = n + 1;
                    }
                    rest = after;
                },
                Err(_) => {
                    proof {
                        if n < code@.len() {
                            assert(before[0] == code@[n]);
                            if before[0] == '_' {
                                assert(before.take(1) =~= seq!['_']);
                            }
                        }
                    }
                    more = false;
                },
            },
        }
    }
    proof {
        lemma_run_length_is(code@, CharClass::IdentifierPart, n as nat);
    }
    let total = code.unicode_len();
    let left = rest.unicode_len();
    let name = code.substring_char(0, total - left);
    Ok((rest, name.to_owned()))
}

/// Runs the parser `f` on `code` without the whitespace at its head, and
/// drops the whitespace at the head of what `f` leaves. A failure of `f`
/// is handed on as it is.
pub fn in_multispace<'a, O, F: Fn(&'a str) -> Parsed<'a, O>>(f: F, code: &'a str) -> (r: Parsed<
    'a,
    O,
>)
    requires
        forall|inner: &'a str|
            inner@ == code@.skip(run_length(code@, CharClass::Space) as int) ==> f.requires(
                (inner,),
            ),
    ensures
        exists|inner: &'a str, found: Parsed<'a, O>|
            inner@ == code@.skip(run_length(code@, CharClass::Space) as int) && f.ensures(
                (inner,),
                found,
            ) && match found {
                Ok((left, value)) => r matches Ok((rest, v)) && v == value && rest@ == left@.skip(
                    run_length(left@, CharClass::Space) as int,
                ),
                Err(e) => r == Err::<(&'a str, O), ParseError<'a>>(e),
            },
{
    let inner = match multispace0(code) {
        Ok((rest, _)) => rest,
        Err(_) => code,
    };
    let found = f(inner);
    match found {
        Ok((left, value)) => {
            let rest = match multispace0(left) {
                Ok((rest, _)) => rest,
                Err(_) => left,
            };
            Ok((rest, value))
        },
        Err(e) => Err(e),
    }
}

/// The value of the digit `c`, decimal or hexadecimal.
pub open spec fn digit_value(c: char) -> nat {
    if '0' <= c && c <= '9' {
        (c as u32 - 48) as nat
    } else if 'A' <= c && c <= 'F' {
        (c as u32 - 55) as nat
    } else if 'a' <= c && c <= 'f' {
        (c as u32 - 87) as nat
    } else {
        0
    }
}

/// The number that `digits` spell in the base `radix`.
pub open spec fn digits_value(digits: Seq<char>, radix: nat) -> nat
    decreases digits.len(),
{
    if digits.len() == 0 {
        0
    } else {
        digits_value(digits.drop_last(), radix) * radix + digit_value(digits.last())
    }
}

/// An integer literal as it stands at the head of a text.
pub struct Literal {
    /// Whether a `-` stands before the digits.
    pub negative: bool,
    /// The number that the digits spell.
    pub magnitude: nat,
    /// The number of characters of the literal, sign and `0x` included.
    pub length: nat,
}

impl Literal {
    /// The number that the literal denotes.
    pub open spec fn value(self) -> int {
        if self.negative {
            -(self.magnitude as int)
        } else {
            self.magnitude as int
        }
    }
}

/// What is left of `s` behind a `-` at its head, if there is one.
pub open spec fn unsigned_part(s: Seq<char>) -> Seq<char> {
    if s.len() > 0 && s[0] == '-' {
        s.skip(1)
    } else {
        s
    }
}

/// The integer literal at the head of `s`: an optional `-`, and then
/// either `0x` and hexadecimal digits, or decimal digits, each as far as
/// they go. Where `0x` is followed by no hexadecimal digit, the literal is
/// the `0` alone.
pub open spec fn literal(s: Seq<char>) -> Option<Literal> {
    let negative = s.len() > 0 && s[0] == '-';
    let sign: nat = if negative {
        1
    } else {
        0
    };
    let body = unsigned_part(s);
    let hex = run_length(body.skip(2), CharClass::HexDigit);
    let dec = run_length(body, CharClass::Digit);
    if body.len() >= 2 && body[0] == '0' && body[1] == 'x' && hex > 0 {
        Some(
            Literal {
                negative,
                magnitude: digits_value(body.subrange(2, 2 + hex as int), 16),
                length: sign + 2 + hex,
            },
        )
    } else if dec > 0 {
        Some(Literal { negative, magnitude: digits_value(body.take(dec as int), 10), length: sign + dec })
    } else {
        None
    }
}

/// The digits of a number spell no less than any prefix of them does.
proof fn lemma_digits_value_grows(digits: Seq<char>, radix: nat, n: int)
    requires
        radix == 10 || radix == 16,
        0 <= n <= digits.len(),
    ensures
        digits_value(digits.take(n), radix) <= digits_value(digits, radix),
    decreases digits.len() - n,
{
    if n == digits.len() {
        assert(digits.take(n) =~= digits);
    } else {
        lemma_digits_value_grows(digits, radix, n + 1);
        let longer = digits.take(n + 1);
        assert(longer.drop_last() =~= digits.take(n));
    }
}

/// The value of the digit `c`.
fn digit_of(c: char) -> (d: i64)
    requires
        CharClass::HexDigit.holds(c),
    ensures
        d == digit_value(c),
        0 <= d < 16,
        CharClass::Digit.holds(c) ==> d < 10,
{
    let code = c as u32;
    if code <= 57 {
        (code - 48) as i64
    } else if code <= 70 {
        (code - 55) as i64
    } else {
        (code - 87) as i64
    }
}

/// The number that `digits` spell in base 10 or 16, or `None` if it does
/// not fit in 64 bits.
fn number(digits: &str, hexadecimal: bool) -> (r: Option<i64>)
    requires
        forall|i: int| 0 <= i < digits@.len() ==> CharClass::HexDigit.holds(#[trigger] digits@[i]),
    ensures
        r is Some <==> digits_value(digits@, if hexadecimal { 16nat } else { 10nat }) <= i64::MAX,
        r matches Some(v) ==> v == digits_value(digits@, if hexadecimal { 16nat } else { 10nat }),
{
    let ghost radix = if hexadecimal { 16nat } else { 10nat };
    let count = digits.unicode_len();
    let mut value: i64 = 0;
    let mut i: usize = 0;
    assert(digits@.take(0) =~= Seq::<char>::empty());
    while i < count
        invariant
            i <= count,
            count == digits@.len(),
            radix == (if hexadecimal { 16nat } else { 10nat }),
            forall|k: int|
                0 <= k < digits@.len() ==> CharClass::HexDigit.holds(#[trigger] digits@[k]),
            value == digits_value(digits@.take(i as int), radix),
            value >= 0,
        decreases count - i,
    {
        let d = digit_of(digits.get_char(i));
        proof {
            let longer = digits@.take(i + 1);
            assert(longer.drop_last() =~= digits@.take(i as int));
            assert(longer.last() == digits@[i as int]);
            lemma_digits_value_grows(digits@, radix, i + 1);
        }
        let scaled = if hexadecimal {
            value.checked_mul(16)
        } else {
            value.checked_mul(10)
        };
        let next = match scaled {
            Some(product) => product.checked_add(d),
            None => None,
        };
        match next {
            Some(sum) => {
                value = sum;
            },
            None => {
                return None;
            },
        }
        i += 1;
    }
    assert(digits@.take(count as int) =~= digits@);
    Some(value)
}

/// Whether the literal `l` can be read as a signed 64-bit number and then
/// narrowed to `T`, and if so, to which value.
pub open spec fn narrowed<T: TryFrom<i64>>(l: Literal) -> Option<T> {
    if l.magnitude <= i64::MAX {
        match T::try_from_spec(l.value() as i64) {
            Ok(n) => Some(n),
            Err(_) => None,
        }
    } else {
        None
    }
}

/// Parses the integer literal at the head of `code`, in hexadecimal
/// (beginning with `0x`) or in decimal, read as a signed 64-bit number and
/// narrowed to `T`. Gives the text behind the literal and the number, or
/// `None` in its place if the literal does not fit; or fails, behind the
/// sign, if `code` does not begin with a literal.
pub fn checked_integer<'a, T: TryFrom<i64>>(code: &'a str) -> (r: Parsed<'a, Option<T>>)
    ensures
        r is Ok <==> literal(code@) is Some,
        r matches Ok((rest, n)) ==> rest@ == code@.skip(literal(code@)->0.length as int) && (
        T::obeys_try_from_spec() ==> n == narrowed::<T>(literal(code@)->0)),
        r matches Err(e) ==> e.input@ == unsigned_part(code@) && e.expected == Expected::Integer,
{
    proof {
        reveal_strlit("-");
        reveal_strlit("0x");
    }
    let (negative, body) = match tag("-", code) {
        Ok((rest, _)) => (true, rest),
        Err(_) => (false, code),
    };
    proof {
        if code@.len() > 0 && code@[0] == '-' {
            assert(code@.take(1) =~= "-"@);
        } else if code@.len() > 0 {
            assert(code@.take(1)[0] == code@[0]);
        }
        assert(body@ == unsigned_part(code@));
        if body@.len() >= 2 && body@[0] == '0' && body@[1] == 'x' {
            assert(body@.take(2) =~= "0x"@);
        } else if body@.len() >= 2 {
            assert(body@.take(2)[0] == body@[0]);
            assert(body@.take(2)[1] == body@[1]);
        }
    }
    let hexadecimal = match tag("0x", body) {
        Ok((after, _)) => match hex_digit1(after) {
            Ok((rest, digits)) => Some((rest, digits)),
            Err(_) => None,
        },
        Err(_) => None,
    };
    let (rest, magnitude) = match hexadecimal {
        Some((rest, digits)) => {
            proof {
                let after = body@.skip(2);
                let hex = run_length(after, CharClass::HexDigit);
                lemma_run_length(after, CharClass::HexDigit);
                assert(digits@ =~= body@.subrange(2, 2 + hex as int));
                assert(rest@ =~= code@.skip(literal(code@)->0.length as int));
            }
            (rest, number(digits, true))
        },
        None => match digit1(body) {
            Ok((rest, digits)) => {
                proof {
                    lemma_run_length(body@, CharClass::Digit);
                    assert(rest@ =~= code@.skip(literal(code@)->0.length as int));
                }
                (rest, number(digits, false))
            },
            Err(_) => {
                return Err(ParseError { input: body, expected: Expected::Integer });
            },
        },
    };
    let narrow = match magnitude {
        Some(m) => {
            let value = if negative {
                -m
            } else {
                m
            };
            match T::try_from(value) {
                Ok(n) => Some(n),
                Err(_) => None,
            }
        },
        None => None,
    };
    Ok((rest, narrow))
}

/// Parses the integer literal at the head of `code`, in hexadecimal
/// (beginning with `0x`) or in decimal, read as a signed 64-bit number and
/// narrowed to `T`. Gives the text behind the literal and the number, or
/// fails, behind the sign, if `code` does not begin with a literal.
///
/// A literal that does not fit is not for this function: its digits must
/// spell a number that fits in 64 bits, and the number it denotes must fit
/// in `T`. Where that is not known, [`checked_integer`] tells.
pub fn integer<'a, T: TryFrom<i64>>(code: &'a str) -> (r: Parsed<'a, T>)
    requires
        T::obeys_try_from_spec(),
        literal(code@) matches Some(l) ==> narrowed::<T>(l) is Some,
    ensures
        r is Ok <==> literal(code@) is Some,
        r matches Ok((rest, n)) ==> rest@ == code@.skip(literal(code@)->0.length as int)
            && narrowed::<T>(literal(code@)->0) == Some(n),
        r matches Err(e) ==> e.input@ == unsigned_part(code@) && e.expected == Expected::Integer,
{
    match checked_integer::<T>(code) {
        Ok((rest, n)) => Ok((rest, n.unwrap())),
        Err(e) => Err(e),
    }
}

} // verus!

//! Character classes and string building blocks shared by the lexer, the
//! printer and the runtime.
use vstd::prelude::*;
use heck::ToShoutySnakeCase;

verus! {

/// Whether a character has the Unicode `White_Space` property: tab through
/// carriage return, space, next line, no-break space, ogham space mark, the
/// en quad through hair space, line and paragraph separators, narrow
/// no-break space, medium mathematical space and ideographic space.
pub open spec fn unicode_whitespace(c: char) -> bool {
    let u = c as u32;
    ||| 0x9 <= u && u <= 0xD
    ||| u == 0x20
    ||| u == 0x85
    ||| u == 0xA0
    ||| u == 0x1680
    ||| 0x2000 <= u && u <= 0x200A
    ||| u == 0x2028
    ||| u == 0x2029
    ||| u == 0x202F
    ||| u == 0x205F
    ||| u == 0x3000
}

/// What `char::is_alphabetic` answers for a character (the Unicode
/// `Alphabetic` property).
pub uninterp spec fn unicode_alphabetic(c: char) -> bool;

/// What `char::is_alphanumeric` answers for a character (`Alphabetic` or
/// `Numeric`).
pub uninterp spec fn unicode_alphanumeric(c: char) -> bool;

/// What heck's `to_shouty_snake_case` returns for a text.
pub uninterp spec fn shouty_snake_case(s: Seq<char>) -> Seq<char>;

/// Whether a character has the `White_Space` property, as
/// `char::is_whitespace` answers.
pub(crate) fn char_is_whitespace(c: char) -> (r: bool)
    ensures
        r == unicode_whitespace(c),
{
    let u = c as u32;
    (0x9 <= u && u <= 0xD) || u == 0x20 || u == 0x85 || u == 0xA0 || u == 0x1680 || (0x2000 <= u && u <= 0x200A)
        || u == 0x2028 || u == 0x2029 || u == 0x202F || u == 0x205F || u == 0x3000
}

/// Calls `char::is_alphabetic`; the contract names its answer, and gives it
/// for ASCII, where the letters are the only alphabetic characters.
#[verifier::external_body]
pub(crate) fn char_is_alphabetic(c: char) -> (r: bool)
    ensures
        r == unicode_alphabetic(c),
        (c as u32) < 128 ==> (r <==> ((65 <= (c as u32) && (c as u32) <= 90) || (97 <= (c as u32) && (c as u32)
            <= 122))),
{
    c.is_alphabetic()
}

/// Calls `char::is_alphanumeric`; the contract names its answer, and gives
/// it for ASCII, where the letters and the digits are the only alphanumeric
/// characters.
#[verifier::external_body]
pub(crate) fn char_is_alphanumeric(c: char) -> (r: bool)
    ensures
        r == unicode_alphanumeric(c),
        (c as u32) < 128 ==> (r <==> ((48 <= (c as u32) && (c as u32) <= 57) || (65 <= (c as u32) && (c as u32)
            <= 90) || (97 <= (c as u32) && (c as u32) <= 122))),
{
    c.is_alphanumeric()
}

/// Calls heck's `ToShoutySnakeCase::to_shouty_snake_case` on a text; the
/// contract names its result as a function of the text alone.
#[verifier::external_body]
pub(crate) fn to_shouty_snake(s: &str) -> (r: String)
    ensures
        r@ == shouty_snake_case(s@),
{
    s.to_shouty_snake_case()
}

/// The characters of a text, in order.
pub fn str_to_chars(s: &str) -> (r: Vec<char>)
    ensures
        r@ == s@,
{
    broadcast use vstd::string::axiom_spec_iter;
    let mut r: Vec<char> = Vec::new();
    for c in it: s.chars()
        invariant
            r@.len() == it.index(),
            forall|i: int| 0 <= i < r@.len() ==> r@[i] == it.seq()[i],
    {
        r.push(c);
    }
    assert(r@ =~= s@);
    r
}

/// Calls `String::push`: the character is appended at the end.
#[verifier::external_body]
pub(crate) fn push_char(s: &mut String, c: char)
    ensures
        final(s)@ == old(s)@.push(c),
{
    s.push(c)
}

/// A string holding the characters of `chars[from..to]`.
pub fn string_from_chars(chars: &Vec<char>, from: usize, to: usize) -> (r: String)
    requires
        from <= to <= chars@.len(),
    ensures
        r@ == chars@.subrange(from as int, to as int),
{
    let mut r = String::new();
    let mut i = from;
    while i < to
        invariant
            from <= i <= to <= chars@.len(),
            r@ == chars@.subrange(from as int, i as int),
        decreases to - i,
    {
        push_char(&mut r, chars[i]);
        i = i + 1;
        assert(r@ =~= chars@.subrange(from as int, i as int));
    }
    r
}

/// Appends a text to a string.
pub fn append_str(s: &mut String, t: &str)
    ensures
        final(s)@ == old(s)@ + t@,
{
    s.append(t);
}

/// The decimal digits of a natural number, most significant first.
pub open spec fn decimal_digits(n: nat) -> Seq<char>
    decreases n,
{
    if n < 10 {
        seq![digit_char(n)]
    } else {
        decimal_digits(n / 10).push(digit_char(n % 10))
    }
}

/// The character of a decimal digit.
pub open spec fn digit_char(d: nat) -> char {
    if d == 0 { '0' }
    else if d == 1 { '1' }
    else if d == 2 { '2' }
    else if d == 3 { '3' }
    else if d == 4 { '4' }
    else if d == 5 { '5' }
    else if d == 6 { '6' }
    else if d == 7 { '7' }
    else if d == 8 { '8' }
    else { '9' }
}

/// The decimal text of an integer, with a leading `-` when it is negative.
pub open spec fn decimal_text(n: int) -> Seq<char> {
    if n < 0 {
        seq!['-'] + decimal_digits((-n) as nat)
    } else {
        decimal_digits(n as nat)
    }
}

fn digit_to_char(d: u64) -> (c: char)
    requires
        d < 10,
    ensures
        c == digit_char(d as nat),
{
    if d == 0 { '0' }
    else if d == 1 { '1' }
    else if d == 2 { '2' }
    else if d == 3 { '3' }
    else if d == 4 { '4' }
    else if d == 5 { '5' }
    else if d == 6 { '6' }
    else if d == 7 { '7' }
    else if d == 8 { '8' }
    else { '9' }
}

/// The decimal digits of `n` (a `u128` so that every `isize` magnitude fits).
fn digits_of(n: u128) -> (r: String)
    ensures
        r@ == decimal_digits(n as nat),
    decreases n,
{
    if n < 10 {
        let mut r = String::new();
        push_char(&mut r, digit_to_char(n as u64));
        assert(r@ =~= decimal_digits(n as nat));
        r
    } else {
        let mut r = digits_of(n / 10);
        push_char(&mut r, digit_to_char((n % 10) as u64));
        r
    }
}

/// The decimal text of a `usize`.
pub fn usize_to_decimal(n: usize) -> (r: String)
    ensures
        r@ == decimal_text(n as int),
{
    digits_of(n as u128)
}

/// The decimal text of an `isize`, as `{}` formats it.
pub fn isize_to_decimal(n: isize) -> (r: String)
    ensures
        r@ == decimal_text(n as int),
{
    if n < 0 {
        let magnitude: u128 = (0i128 - (n as i128)) as u128;
        let digits = digits_of(magnitude);
        let mut r = String::new();
        push_char(&mut r, '-');
        r.append(digits.as_str());
        assert(r@ =~= decimal_text(n as int));
        r
    } else {
        digits_of(n as u128)
    }
}

} // verus!

use vstd::prelude::*;

verus! {

/// The characters of `text`, in order.
pub fn chars_of(text: &str) -> (chars: Vec<char>)
    ensures
        chars@ == text@,
{
    let mut chars: Vec<char> = Vec::new();
    for c in it: text.chars()
        invariant
            chars@ == it.seq().take(it.index() as int),
            it.seq() == text@,
    {
        chars.push(c);
        proof {
            assert(it.seq().take(it.index() + 1) =~= it.seq().take(it.index() as int).push(c));
        }
    }
    proof {
        assert(text@.take(text@.len() as int) =~= text@);
    }
    chars
}

/// Appends `c` to `text`, by [`String::push`].
#[verifier::external_body]
fn push_char(text: &mut String, c: char)
    ensures
        final(text)@ == old(text)@.push(c),
{
    text.push(c)
}

/// Whether `c` is an ASCII decimal digit.
pub open spec fn is_digit(c: char) -> bool {
    '0' <= c && c <= '9'
}

/// Whether `c` is an ASCII decimal digit.
pub fn char_is_digit(c: char) -> (r: bool)
    ensures
        r == is_digit(c),
{
    '0' <= c && c <= '9'
}

/// Whether `text` begins with `prefix`.
pub open spec fn has_prefix(text: Seq<char>, prefix: Seq<char>) -> bool {
    prefix.len() <= text.len() && text.take(prefix.len() as int) == prefix
}

/// Whether `chars` begins with `prefix`.
pub fn chars_start_with(chars: &[char], prefix: &[char]) -> (r: bool)
    ensures
        r == has_prefix(chars@, prefix@),
{
    if prefix.len() > chars.len() {
        return false;
    }
    let len = prefix.len();
    for i in 0..len
        invariant
            len == prefix@.len(),
            len <= chars@.len(),
            forall|j: int| 0 <= j < i ==> chars@[j] == prefix@[j],
    {
        if chars[i] != prefix[i] {
            proof {
                assert(chars@.take(len as int)[i as int] != prefix@[i as int]);
            }
            return false;
        }
    }
    proof {
        assert(chars@.take(len as int) =~= prefix@);
    }
    true
}

/// Whether two strings hold the same characters.
pub fn str_equal(a: &str, b: &str) -> (r: bool)
    ensures
        r == (a@ == b@),
{
    let a_chars = chars_of(a);
    let b_chars = chars_of(b);
    if a_chars.len() != b_chars.len() {
        return false;
    }
    let r = chars_start_with(a_chars.as_slice(), b_chars.as_slice());
    proof {
        assert(a@.take(b@.len() as int) =~= a@);
    }
    r
}

/// Whether `c` is white space, as `char::is_whitespace` says: whether it has
/// the Unicode `White_Space` property.
pub open spec fn is_white_space(c: char) -> bool {
    ||| '\u{9}' <= c && c <= '\u{d}'
    ||| c == ' '
    ||| c == '\u{85}'
    ||| c == '\u{a0}'
    ||| c == '\u{1680}'
    ||| '\u{2000}' <= c && c <= '\u{200a}'
    ||| c == '\u{2028}'
    ||| c == '\u{2029}'
    ||| c == '\u{202f}'
    ||| c == '\u{205f}'
    ||| c == '\u{3000}'
}

/// `text` without its leading white space.
pub open spec fn trim_start(text: Seq<char>) -> Seq<char>
    decreases text.len(),
{
    if text.len() > 0 && is_white_space(text[0]) {
        trim_start(text.drop_first())
    } else {
        text
    }
}

/// `text` without its trailing white space.
pub open spec fn trim_end(text: Seq<char>) -> Seq<char>
    decreases text.len(),
{
    if text.len() > 0 && is_white_space(text.last()) {
        trim_end(text.drop_last())
    } else {
        text
    }
}

/// `text` without its leading and trailing white space.
pub open spec fn trimmed(text: Seq<char>) -> Seq<char> {
    trim_end(trim_start(text))
}

/// `text` without its leading and trailing white space, by `str::trim`.
#[verifier::external_body]
pub(crate) fn trim(text: &str) -> (result: &str)
    ensures
        result@ == trimmed(text@),
{
    text.trim()
}

/// A text that neither starts nor ends with white space is its own trimmed
/// text.
pub proof fn lemma_trimmed_unchanged(text: Seq<char>)
    requires
        text.len() > 0,
        !is_white_space(text[0]),
        !is_white_space(text.last()),
    ensures
        trimmed(text) == text,
{
}

/// Leading white space is all gone from a text trimmed at its start.
proof fn lemma_trim_start_result(text: Seq<char>)
    ensures
        trim_start(text).len() == 0 || !is_white_space(trim_start(text)[0]),
    decreases text.len(),
{
    if text.len() > 0 && is_white_space(text[0]) {
        lemma_trim_start_result(text.drop_first());
    }
}

/// Trailing white space is all gone from a text trimmed at its end, and a
/// first character that is not white space stays first.
proof fn lemma_trim_end_result(text: Seq<char>)
    ensures
        trim_end(text).len() == 0 || !is_white_space(trim_end(text).last()),
        text.len() > 0 && !is_white_space(text[0]) ==> trim_end(text).len() > 0 && trim_end(
            text,
        )[0] == text[0],
    decreases text.len(),
{
    if text.len() > 0 && is_white_space(text.last()) {
        lemma_trim_end_result(text.drop_last());
    }
}

/// Trimming a trimmed text changes nothing.
pub proof fn lemma_trimmed_idempotent(text: Seq<char>)
    ensures
        trimmed(trimmed(text)) == trimmed(text),
{
    let start = trim_start(text);
    lemma_trim_start_result(text);
    lemma_trim_end_result(start);
    let both = trimmed(text);
    if both.len() > 0 {
        lemma_trimmed_unchanged(both);
    }
}

/// The character of a digit is an ASCII digit, of that value.
pub proof fn lemma_digit_char(digit: nat)
    requires
        digit < 10,
    ensures
        is_digit(digit_char(digit)),
        digit_char(digit) as nat - '0' as nat == digit,
{
    let digits = seq!['0', '1', '2', '3', '4', '5', '6', '7', '8', '9'];
    assert(digit_char(digit) == digits[digit as int]);
}

/// A decimal numeral is a non-empty run of ASCII digits.
pub proof fn lemma_decimal_digits(n: nat)
    ensures
        decimal(n).len() > 0,
        forall|i: int| 0 <= i < decimal(n).len() ==> is_digit(#[trigger] decimal(n)[i]),
    decreases n,
{
    lemma_digit_char(n % 10);
    if n >= 10 {
        lemma_decimal_digits(n / 10);
        let head = decimal(n / 10);
        assert forall|i: int| 0 <= i < decimal(n).len() implies is_digit(#[trigger] decimal(n)[i]) by {
            if i < head.len() {
                assert(decimal(n)[i] == head[i]);
            }
        }
    }
}

/// Appends `addition` to `text`.
pub fn push_text(text: &mut String, addition: &str)
    ensures
        final(text)@ == old(text)@ + addition@,
{
    let ghost start = text@;
    for c in it: addition.chars()
        invariant
            it.seq() == addition@,
            text@ == start + it.seq().take(it.index() as int),
    {
        push_char(text, c);
        proof {
            assert(it.seq().take(it.index() + 1) =~= it.seq().take(it.index() as int).push(c));
        }
    }
    proof {
        assert(addition@.take(addition@.len() as int) =~= addition@);
    }
}

/// The character of a decimal digit.
pub open spec fn digit_char(digit: nat) -> char {
    seq!['0', '1', '2', '3', '4', '5', '6', '7', '8', '9'][digit as int]
}

/// The decimal numeral of `n`, without leading zeros.
pub open spec fn decimal(n: nat) -> Seq<char>
    decreases n,
{
    if n < 10 {
        seq![digit_char(n)]
    } else {
        decimal(n / 10).push(digit_char(n % 10))
    }
}

/// Appends the decimal numeral of `n` to `text`.
pub fn push_decimal(text: &mut String, n: u64)
    ensures
        final(text)@ == old(text)@ + decimal(n as nat),
    decreases n,
{
    let digits: [char; 10] = ['0', '1', '2', '3', '4', '5', '6', '7', '8', '9'];
    let ghost start = text@;
    if n >= 10 {
        push_decimal(text, n / 10);
    }
    let last = (n % 10) as usize;
    push_char(text, digits[last]);
    proof {
        assert(digits@ =~= seq!['0', '1', '2', '3', '4', '5', '6', '7', '8', '9']);
        if n < 10 {
            assert(n % 10 == n);
            assert(text@ =~= start + decimal(n as nat));
        } else {
            assert(text@ =~= start + decimal(n as nat));
        }
    }
}

/// The decimal numeral of `n`.
pub fn to_decimal(n: u64) -> (numeral: String)
    ensures
        numeral@ == decimal(n as nat),
{
    let mut numeral = String::new();
    push_decimal(&mut numeral, n);
    proof {
        assert(numeral@ =~= decimal(n as nat));
    }
    numeral
}

} // verus!

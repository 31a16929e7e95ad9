//! Character-level helpers shared by the rest of the library: ASCII case
//! folding, decimal numerals and conversions between strings and character
//! vectors. Every contract is stated over `Seq<char>`, the view of a string.
use vstd::prelude::*;
use vstd::string::StringExecFns;

verus! {

/// ASCII case folding of one character: `'A'..='Z'` map to `'a'..='z'`,
/// every other character is left as it is.
pub open spec fn lower_char(c: char) -> char {
    if 'A' <= c && c <= 'Z' {
        ((c as u8) + 32) as char
    } else {
        c
    }
}

/// ASCII case folding of a whole character sequence.
pub open spec fn lower(s: Seq<char>) -> Seq<char> {
    s.map_values(|c: char| lower_char(c))
}

/// The character sequences of a list of strings.
pub open spec fn texts(list: Seq<String>) -> Seq<Seq<char>> {
    list.map_values(|s: String| s@)
}

/// What is left of a list after `f` has been applied to each item and the
/// items without a result have been dropped.
pub open spec fn filter_map<A, B>(items: Seq<A>, f: spec_fn(A) -> Option<B>) -> Seq<B>
    decreases items.len(),
{
    if items.len() == 0 {
        Seq::empty()
    } else {
        filter_map(items.drop_last(), f) + (match f(items.last()) {
            Some(b) => seq![b],
            None => Seq::empty(),
        })
    }
}

/// One more item, with a result: the result is appended.
pub proof fn lemma_filter_map_some<A, B>(
    items: Seq<A>,
    f: spec_fn(A) -> Option<B>,
    i: int,
    b: B,
)
    requires
        0 <= i < items.len(),
        f(items[i]) == Some(b),
    ensures
        filter_map(items.take(i + 1), f) == filter_map(items.take(i), f).push(b),
{
    assert(items.take(i + 1).drop_last() =~= items.take(i));
    assert(filter_map(items.take(i), f) + seq![b] =~= filter_map(items.take(i), f).push(b));
}

/// One more item, without a result: nothing changes.
pub proof fn lemma_filter_map_none<A, B>(items: Seq<A>, f: spec_fn(A) -> Option<B>, i: int)
    requires
        0 <= i < items.len(),
        f(items[i]) is None,
    ensures
        filter_map(items.take(i + 1), f) == filter_map(items.take(i), f),
{
    assert(items.take(i + 1).drop_last() =~= items.take(i));
    assert(filter_map(items.take(i), f) + Seq::<B>::empty() =~= filter_map(items.take(i), f));
}

/// The character that stands for the digit `d`, for `d < 10`.
pub open spec fn digit_char(d: nat) -> char {
    (48 + d) as u8 as char
}

/// The decimal numeral of `n`, without sign or leading zeros.
pub open spec fn decimal(n: nat) -> Seq<char>
    decreases n,
{
    if n < 10 {
        seq![digit_char(n)]
    } else {
        decimal(n / 10).push(digit_char(n % 10))
    }
}

/// Whether `c` is one of `'0'..='9'`.
pub open spec fn is_digit(c: char) -> bool {
    '0' <= c && c <= '9'
}

/// The value of the digit character `c`.
pub open spec fn digit_value(c: char) -> nat {
    (c as u8 - 48) as nat
}

/// Whether every character of `s` is a decimal digit.
pub open spec fn all_digits(s: Seq<char>) -> bool {
    forall|i: int| 0 <= i < s.len() ==> is_digit(#[trigger] s[i])
}

/// The number that a sequence of decimal digits denotes, most significant
/// digit first. The empty sequence denotes zero.
pub open spec fn digits_value(s: Seq<char>) -> nat
    decreases s.len(),
{
    if s.len() == 0 {
        0
    } else {
        digits_value(s.drop_last()) * 10 + digit_value(s.last())
    }
}

/// The digits of an unsigned numeral: the text itself, or what follows one
/// leading `'+'`.
pub open spec fn numeral_digits(s: Seq<char>) -> Seq<char> {
    if s.len() > 0 && s[0] == '+' {
        s.drop_first()
    } else {
        s
    }
}

/// Whether `s` is an unsigned decimal numeral: an optional `'+'` followed by
/// at least one digit and nothing else.
pub open spec fn is_numeral(s: Seq<char>) -> bool {
    numeral_digits(s).len() > 0 && all_digits(numeral_digits(s))
}

/// Appends one character to a string. Trusted: `String::push` of the standard
/// library, which adds `c` at the end and changes nothing else.
#[verifier::external_body]
fn string_push(s: &mut String, c: char)
    ensures
        final(s)@ == old(s)@.push(c),
{
    s.push(c)
}

pub fn to_lower(c: char) -> (r: char)
    ensures
        r == lower_char(c),
{
    if 'A' <= c && c <= 'Z' {
        let b: u8 = c as u8;
        (b + 32) as char
    } else {
        c
    }
}

/// The characters of `s`, in order.
pub fn str_chars(s: &str) -> (r: Vec<char>)
    ensures
        r@ == s@,
{
    let mut out: Vec<char> = Vec::new();
    for c in it: s.chars()
        invariant
            it.seq() == s@,
            out@ == s@.take(it.index() as int),
    {
        out.push(c);
        assert(s@.take(it.index() + 1) == s@.take(it.index() as int).push(c));
    }
    assert(s@.take(s@.len() as int) == s@);
    out
}

/// The characters of `s`, each folded to lower case.
pub fn lowercase_chars(s: &str) -> (r: Vec<char>)
    ensures
        r@ == lower(s@),
{
    let mut out: Vec<char> = Vec::new();
    for c in it: s.chars()
        invariant
            it.seq() == s@,
            out@ == lower(s@.take(it.index() as int)),
    {
        out.push(to_lower(c));
        assert(s@.take(it.index() + 1) == s@.take(it.index() as int).push(c));
    }
    assert(s@.take(s@.len() as int) == s@);
    out
}

/// The string made of the characters `chars[from..to]`.
pub fn string_from_chars(chars: &Vec<char>, from: usize, to: usize) -> (r: String)
    requires
        from <= to <= chars@.len(),
    ensures
        r@ == chars@.subrange(from as int, to as int),
{
    let mut out = String::new();
    let mut i: usize = from;
    while i < to
        invariant
            from <= i <= to <= chars@.len(),
            out@ == chars@.subrange(from as int, i as int),
        decreases to - i,
    {
        string_push(&mut out, chars[i]);
        assert(chars@.subrange(from as int, i + 1) == chars@.subrange(from as int, i as int).push(
            chars@[i as int],
        ));
        i += 1;
    }
    out
}

/// Whether `text` begins with `prefix`.
pub fn chars_start_with(text: &Vec<char>, prefix: &Vec<char>) -> (r: bool)
    ensures
        r == prefix@.is_prefix_of(text@),
{
    if prefix.len() > text.len() {
        return false;
    }
    let mut i: usize = 0;
    while i < prefix.len()
        invariant
            i <= prefix@.len() <= text@.len(),
            forall|j: int| 0 <= j < i ==> prefix@[j] == text@[j],
        decreases prefix@.len() - i,
    {
        if prefix[i] != text[i] {
            return false;
        }
        i += 1;
    }
    assert(prefix@ == text@.subrange(0, prefix@.len() as int));
    true
}

/// What an unsigned decimal numeral denotes, or `None` where the text is no
/// such numeral.
pub open spec fn numeral_value(s: Seq<char>) -> Option<nat> {
    if is_numeral(s) {
        Some(digits_value(numeral_digits(s)))
    } else {
        None
    }
}

/// A prefix of a digit sequence never denotes more than the whole.
pub proof fn lemma_digits_value_prefix(s: Seq<char>, k: int)
    requires
        0 <= k <= s.len(),
    ensures
        digits_value(s.take(k)) <= digits_value(s),
    decreases s.len(),
{
    if k == s.len() {
        assert(s.take(k) == s);
    } else {
        lemma_digits_value_prefix(s.drop_last(), k);
        assert(s.drop_last().take(k) == s.take(k));
    }
}

/// The numeral of `n` consists of digits only and denotes `n`.
pub proof fn lemma_decimal_denotes(n: nat)
    ensures
        decimal(n).len() > 0,
        all_digits(decimal(n)),
        digits_value(decimal(n)) == n,
        decimal(n)[0] != '+',
    decreases n,
{
    if n < 10 {
        let s = decimal(n);
        assert(s.drop_last() == Seq::<char>::empty());
        assert(digits_value(s.drop_last()) == 0);
    } else {
        lemma_decimal_denotes(n / 10);
        let s = decimal(n);
        assert(s.drop_last() == decimal(n / 10));
        assert(s.last() == digit_char(n % 10));
    }
}

/// Reading the numeral of `n` gives `n` back.
pub proof fn lemma_numeral_round_trip(n: nat)
    ensures
        numeral_value(decimal(n)) == Some(n),
{
    lemma_decimal_denotes(n);
}

/// Appends the decimal numeral of `n` to `out`.
pub fn push_decimal(out: &mut String, n: u64)
    ensures
        final(out)@ == old(out)@ + decimal(n as nat),
    decreases n,
{
    if n >= 10 {
        push_decimal(out, n / 10);
    }
    let d: u8 = (n % 10) as u8;
    string_push(out, (48 + d) as char);
    proof {
        if n >= 10 {
            assert(old(out)@ + decimal(n as nat) == (old(out)@ + decimal((n / 10) as nat)).push(
                digit_char((n % 10) as nat),
            ));
        } else {
            assert(old(out)@ + decimal(n as nat) == old(out)@.push(digit_char(n as nat)));
        }
    }
}

/// The decimal numeral of `n` as a string.
pub fn decimal_string(n: u64) -> (r: String)
    ensures
        r@ == decimal(n as nat),
{
    let mut out = String::new();
    push_decimal(&mut out, n);
    assert(Seq::<char>::empty() + decimal(n as nat) == decimal(n as nat));
    out
}

/// The decimal numeral of an integer: a minus sign for a negative one, then
/// the numeral of its magnitude.
pub open spec fn signed_decimal(i: int) -> Seq<char> {
    if i < 0 {
        seq!['-'] + decimal((-i) as nat)
    } else {
        decimal(i as nat)
    }
}

/// The decimal numeral of `i` as a string.
pub fn signed_decimal_string(i: i64) -> (r: String)
    ensures
        r@ == signed_decimal(i as int),
{
    if i < 0 {
        let magnitude: u64 = ((-(i + 1)) as u64) + 1;
        let mut out = String::new();
        string_push(&mut out, '-');
        push_decimal(&mut out, magnitude);
        assert(Seq::<char>::empty().push('-') =~= seq!['-']);
        out
    } else {
        decimal_string(i as u64)
    }
}

/// Reads an unsigned decimal numeral that fits in `usize`: an optional `'+'`
/// and then digits only. Anything else, and any number too large, is `None`.
pub fn parse_usize(text: &str) -> (r: Option<usize>)
    ensures
        r == match numeral_value(text@) {
            Some(v) => if v <= usize::MAX {
                Some(v as usize)
            } else {
                None
            },
            None => None,
        },
{
    let chars = str_chars(text);
    let start: usize = if chars.len() > 0 && chars[0] == '+' {
        1
    } else {
        0
    };
    let ghost digits = numeral_digits(text@);
    assert(digits == chars@.subrange(start as int, chars@.len() as int));
    if start == chars.len() {
        return None;
    }
    let mut value: usize = 0;
    let mut i: usize = start;
    while i < chars.len()
        invariant
            start <= i <= chars@.len(),
            digits == numeral_digits(text@),
            digits == chars@.subrange(start as int, chars@.len() as int),
            all_digits(digits.take(i - start)),
            value == digits_value(digits.take(i - start)),
        decreases chars@.len() - i,
    {
        let c = chars[i];
        let ghost next = digits.take(i - start + 1);
        assert(next.drop_last() == digits.take(i - start));
        assert(next.last() == c);
        if !('0' <= c && c <= '9') {
            assert(!is_digit(digits[i - start]));
            return None;
        }
        let d: usize = (c as u8 - 48) as usize;
        let scaled = match value.checked_mul(10) {
            Some(v) => v,
            None => {
                proof {
                    lemma_digits_value_prefix(digits, i - start + 1);
                }
                return None;
            },
        };
        value = match scaled.checked_add(d) {
            Some(v) => v,
            None => {
                proof {
                    lemma_digits_value_prefix(digits, i - start + 1);
                }
                return None;
            },
        };
        assert forall|j: int| 0 <= j < next.len() implies is_digit(#[trigger] next[j]) by {
            if j < next.len() - 1 {
                assert(next[j] == digits.take(i - start)[j]);
            }
        }
        i += 1;
    }
    assert(digits.take(i - start) == digits);
    Some(value)
}

} // verus!

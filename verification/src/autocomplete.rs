//! What an autocomplete field makes of the text typed so far: the part that
//! is looked up, and the choices that are offered for it.
use crate::text::{str_chars, string_from_chars, texts};
use vstd::prelude::*;
use vstd::string::StringExecFns;

verus! {

/// Whether a character counts as white space.
pub uninterp spec fn is_space(c: char) -> bool;

/// Tells white space from other characters. Trusted: `char::is_whitespace`
/// of the standard library. The contract only gives the result its name.
#[verifier::external_body]
fn char_is_whitespace(c: char) -> (r: bool)
    ensures
        r == is_space(c),
{
    c.is_whitespace()
}

/// How many characters of white space `s` begins with.
pub open spec fn leading_spaces(s: Seq<char>) -> nat
    decreases s.len(),
{
    if s.len() > 0 && is_space(s[0]) {
        1 + leading_spaces(s.skip(1))
    } else {
        0
    }
}

/// How many characters of white space `s` ends with.
pub open spec fn trailing_spaces(s: Seq<char>) -> nat
    decreases s.len(),
{
    if s.len() > 0 && is_space(s.last()) {
        1 + trailing_spaces(s.drop_last())
    } else {
        0
    }
}

/// `s` without the white space at its beginning and at its end.
pub open spec fn trimmed(s: Seq<char>) -> Seq<char> {
    let start = leading_spaces(s) as int;
    if start == s.len() {
        Seq::empty()
    } else {
        s.subrange(start, s.len() - trailing_spaces(s))
    }
}

proof fn lemma_leading(s: Seq<char>, n: int)
    requires
        0 <= n <= s.len(),
        forall|i: int| 0 <= i < n ==> is_space(#[trigger] s[i]),
        n < s.len() ==> !is_space(s[n]),
    ensures
        leading_spaces(s) == n,
    decreases n,
{
    if n > 0 {
        assert(is_space(s[0]));
        assert forall|i: int| 0 <= i < n - 1 implies is_space(#[trigger] s.skip(1)[i]) by {
            assert(s.skip(1)[i] == s[i + 1]);
        }
        lemma_leading(s.skip(1), n - 1);
    }
}

proof fn lemma_trailing(s: Seq<char>, n: int)
    requires
        0 <= n <= s.len(),
        forall|i: int| s.len() - n <= i < s.len() ==> is_space(#[trigger] s[i]),
        n < s.len() ==> !is_space(s[s.len() - n - 1]),
    ensures
        trailing_spaces(s) == n,
    decreases n,
{
    if n > 0 {
        assert(is_space(s[s.len() - 1]));
        assert forall|i: int|
            s.drop_last().len() - (n - 1) <= i < s.drop_last().len() implies is_space(
            #[trigger] s.drop_last()[i],
        ) by {
            assert(s.drop_last()[i] == s[i]);
        }
        lemma_trailing(s.drop_last(), n - 1);
    }
}

/// The characters `text[from..to]` without the white space around them.
fn trim_chars(text: &Vec<char>, from: usize, to: usize) -> (r: String)
    requires
        from <= to <= text@.len(),
    ensures
        r@ == trimmed(text@.subrange(from as int, to as int)),
{
    let ghost s = text@.subrange(from as int, to as int);
    let mut start = from;
    while start < to && char_is_whitespace(text[start])
        invariant
            from <= start <= to <= text@.len(),
            s == text@.subrange(from as int, to as int),
            forall|i: int| 0 <= i < start - from ==> is_space(#[trigger] s[i]),
        decreases to - start,
    {
        start += 1;
    }
    proof {
        lemma_leading(s, start - from);
    }
    if start == to {
        return String::new();
    }
    let mut end = to;
    while end > start && char_is_whitespace(text[end - 1])
        invariant
            from <= start < end <= to <= text@.len(),
            s == text@.subrange(from as int, to as int),
            !is_space(s[start - from]),
            forall|i: int| end - from <= i < s.len() ==> is_space(#[trigger] s[i]),
        decreases end - start,
    {
        end -= 1;
    }
    proof {
        lemma_trailing(s, to - end);
        assert(s.subrange(start - from, end - from) =~= text@.subrange(start as int, end as int));
    }
    string_from_chars(text, start, end)
}

/// `text` without the white space at its beginning and at its end.
pub fn trim(text: &str) -> (r: String)
    ensures
        r@ == trimmed(text@),
{
    let chars = str_chars(text);
    assert(chars@.subrange(0, chars@.len() as int) =~= chars@);
    trim_chars(&chars, 0, chars.len())
}

/// The parts of `s` between its commas. A text without a comma is one part,
/// and so is the empty text.
pub open spec fn comma_parts(s: Seq<char>) -> Seq<Seq<char>>
    decreases s.len(),
{
    if s.len() == 0 {
        seq![Seq::empty()]
    } else if s.last() == ',' {
        comma_parts(s.drop_last()).push(Seq::empty())
    } else {
        let parts = comma_parts(s.drop_last());
        parts.drop_last().push(parts.last().push(s.last()))
    }
}

/// `parts` with `sep` between each two of them.
pub open spec fn joined(parts: Seq<Seq<char>>, sep: Seq<char>) -> Seq<char>
    decreases parts.len(),
{
    if parts.len() == 0 {
        Seq::empty()
    } else if parts.len() == 1 {
        parts[0]
    } else {
        joined(parts.drop_last(), sep) + sep + parts.last()
    }
}

/// The parts of a text, each without the white space around it.
pub open spec fn trimmed_parts(s: Seq<char>) -> Seq<Seq<char>> {
    comma_parts(s).map_values(|p: Seq<char>| trimmed(p))
}

/// What is complete of a comma-separated text: all parts but the last,
/// joined by a comma and a space.
pub open spec fn complete_part(s: Seq<char>) -> Seq<char> {
    joined(trimmed_parts(s).drop_last(), ", "@)
}

/// What is still being typed of a comma-separated text: its last part.
pub open spec fn incomplete_part(s: Seq<char>) -> Seq<char> {
    trimmed_parts(s).last()
}

proof fn lemma_comma_parts_nonempty(s: Seq<char>)
    ensures
        comma_parts(s).len() >= 1,
    decreases s.len(),
{
    if s.len() > 0 {
        lemma_comma_parts_nonempty(s.drop_last());
    }
}

/// The parts of `s[..i]`, where `begin` is where the part that is still
/// open began: that part is the last, and the parts before it are those of
/// the text before the comma in front of `begin`.
proof fn lemma_comma_parts_tail(s: Seq<char>, begin: int, i: int)
    requires
        0 <= begin <= i <= s.len(),
        forall|j: int| begin <= j < i ==> s[j] != ',',
        begin > 0 ==> s[begin - 1] == ',',
    ensures
        comma_parts(s.take(i)).len() >= 1,
        comma_parts(s.take(i)).last() == s.subrange(begin, i),
        begin == 0 ==> comma_parts(s.take(i)).len() == 1,
        begin > 0 ==> comma_parts(s.take(i)).drop_last() == comma_parts(s.take(begin - 1)),
    decreases i - begin,
{
    let t = s.take(i);
    if i == begin {
        if begin == 0 {
            assert(t =~= Seq::<char>::empty());
            assert(s.subrange(0, 0) =~= Seq::<char>::empty());
        } else {
            assert(t.last() == ',');
            assert(t.drop_last() =~= s.take(begin - 1));
            lemma_comma_parts_nonempty(s.take(begin - 1));
            assert(s.subrange(begin, i) =~= Seq::<char>::empty());
            assert(comma_parts(t).drop_last() =~= comma_parts(s.take(begin - 1)));
        }
    } else {
        lemma_comma_parts_tail(s, begin, i - 1);
        assert(t.drop_last() =~= s.take(i - 1));
        assert(t.last() == s[i - 1]);
        let parts = comma_parts(s.take(i - 1));
        assert(s.subrange(begin, i) =~= s.subrange(begin, i - 1).push(s[i - 1]));
        assert(comma_parts(t) == parts.drop_last().push(parts.last().push(s[i - 1])));
        assert(comma_parts(t).drop_last() =~= parts.drop_last());
    }
}

/// Splits a comma-separated text into what is complete and what is still
/// being typed.
pub fn split_partial(partial: &str) -> (r: (String, String))
    ensures
        r.0@ == complete_part(partial@),
        r.1@ == incomplete_part(partial@),
{
    let chars = str_chars(partial);
    let ghost s = chars@;
    let mut complete = String::new();
    let mut begin: usize = 0;
    let mut count: usize = 0;
    let mut i: usize = 0;
    proof {
        assert(trimmed_parts(s.take(0)).drop_last() =~= Seq::<Seq<char>>::empty()) by {
            assert(s.take(0) =~= Seq::<char>::empty());
        }
    }
    while i < chars.len()
        invariant
            s == chars@,
            0 <= begin <= i <= s.len(),
            forall|j: int| begin <= j < i ==> s[j] != ',',
            begin > 0 ==> s[begin - 1] == ',',
            begin == 0 ==> count == 0,
            begin > 0 ==> count > 0 && count == trimmed_parts(s.take(begin - 1)).len(),
            count <= i,
            complete@ == if begin == 0 {
                Seq::<char>::empty()
            } else {
                joined(trimmed_parts(s.take(begin - 1)), ", "@)
            },
        decreases s.len() - i,
    {
        if chars[i] == ',' {
            let part = trim_chars(&chars, begin, i);
            proof {
                lemma_comma_parts_tail(s, begin as int, i as int);
                let done = trimmed_parts(s.take(i as int));
                assert(done.last() == part@);
                if begin == 0 {
                    assert(done =~= seq![part@]);
                    assert(Seq::<char>::empty() + part@ =~= part@);
                } else {
                    let before = trimmed_parts(s.take(begin - 1));
                    assert(done.drop_last() =~= before);
                    assert(done.len() == count + 1);
                }
            }
            if count > 0 {
                complete.append(", ");
            }
            complete.append(part.as_str());
            count += 1;
            begin = i + 1;
        }
        i += 1;
    }
    let incomplete = trim_chars(&chars, begin, i);
    proof {
        assert(s.take(i as int) =~= s);
        lemma_comma_parts_tail(s, begin as int, i as int);
        let all = trimmed_parts(s);
        assert(all.last() == incomplete@);
        if begin > 0 {
            assert(all.drop_last() =~= trimmed_parts(s.take(begin - 1)));
        } else {
            assert(all.drop_last() =~= Seq::<Seq<char>>::empty());
        }
    }
    (complete, incomplete)
}

/// A choice for a comma-separated field: the value alone where nothing is
/// complete yet, else what is complete, a comma and the value.
pub open spec fn choice_text(complete: Seq<char>, value: Seq<char>) -> Seq<char> {
    if complete.len() == 0 {
        value
    } else {
        complete + ", "@ + value
    }
}

/// The choices for a comma-separated field: each value after what is
/// complete.
pub fn prefix_choices(complete: &str, values: Vec<String>) -> (r: Vec<String>)
    ensures
        texts(r@) == texts(values@).map_values(|v: Seq<char>| choice_text(complete@, v)),
{
    let mut out: Vec<String> = Vec::new();
    let mut i: usize = 0;
    while i < values.len()
        invariant
            i <= values@.len(),
            out@.len() == i,
            forall|j: int|
                0 <= j < i ==> (#[trigger] out@[j])@ == choice_text(complete@, values@[j]@),
        decreases values@.len() - i,
    {
        let choice = if complete.is_empty() {
            values[i].clone()
        } else {
            let mut text = String::from_str(complete);
            text.append(", ");
            text.append(values[i].as_str());
            text
        };
        out.push(choice);
        i += 1;
    }
    assert(texts(out@) =~= texts(values@).map_values(|v: Seq<char>| choice_text(complete@, v)));
    out
}

/// Whether `a` comes before `b`, or is `b`, in the order of byte strings:
/// at the first place where they differ `a` has the lesser byte, or `a`
/// ends where `b` goes on.
pub open spec fn bytes_le(a: Seq<u8>, b: Seq<u8>) -> bool
    decreases a.len(),
{
    if a.len() == 0 {
        true
    } else if b.len() == 0 {
        false
    } else if a[0] != b[0] {
        a[0] < b[0]
    } else {
        bytes_le(a.skip(1), b.skip(1))
    }
}

/// The order of strings: that of their UTF-8 bytes.
pub open spec fn text_le(a: Seq<char>, b: Seq<char>) -> bool {
    bytes_le(vstd::utf8::encode_utf8(a), vstd::utf8::encode_utf8(b))
}

/// Whether a list of texts is in order.
pub open spec fn in_order(list: Seq<Seq<char>>) -> bool {
    forall|i: int, j: int| 0 <= i < j < list.len() ==> text_le(list[i], list[j])
}

/// Puts a list of strings in order. Trusted: `sort` of the standard library
/// on a slice of strings, which keeps every string, as often as it occurs,
/// and orders them as `String` is ordered: by their bytes.
#[verifier::external_body]
fn sort_strings(list: &mut Vec<String>)
    ensures
        texts(final(list)@).to_multiset() == texts(old(list)@).to_multiset(),
        in_order(texts(final(list)@)),
{
    list.sort()
}

/// The suggestions for a field whose values are all known: the values that
/// were found, in order, cut as every list of suggestions is.
pub fn ordered_suggestions(found: Vec<String>) -> (r: Vec<String>)
    ensures
        exists|sorted: Seq<Seq<char>>|
            #![trigger in_order(sorted)]
            sorted.to_multiset() == texts(found@).to_multiset() && in_order(sorted) && texts(r@)
                == crate::service::truncated(sorted),
{
    let mut list = found;
    sort_strings(&mut list);
    let ghost sorted = texts(list@);
    let r = crate::service::truncate_autocomplete_results(list);
    assert(in_order(sorted));
    r
}

} // verus!

//! Text as a sequence of characters: taking it apart, comparing it, putting it together.
use vstd::prelude::*;

verus! {

/// `String::push` appends the character to the end of the string.
pub assume_specification[ String::push ](text: &mut String, c: char)
    ensures
        final(text)@ == old(text)@.push(c),
;

/// The text that may be there, as a sequence of characters.
pub open spec fn optional_text(value: Option<String>) -> Option<Seq<char>> {
    match value {
        Some(text) => Some(text@),
        None => None,
    }
}

/// The characters of a text.
pub fn chars_of(text: &str) -> (chars: Vec<char>)
    ensures
        chars@ == text@,
{
    let mut chars: Vec<char> = Vec::new();
    for c in iter: text.chars()
        invariant
            iter.seq() == text@,
            chars@ == text@.take(iter.index() as int),
    {
        chars.push(c);
        assert(text@.take(iter.index() as int + 1) == text@.take(iter.index() as int).push(c));
    }
    assert(text@.take(text@.len() as int) == text@);
    chars
}

/// The text made of the characters from `from` up to, and without, `to`.
pub fn text_between(chars: &Vec<char>, from: usize, to: usize) -> (text: String)
    requires
        from <= to <= chars@.len(),
    ensures
        text@ == chars@.subrange(from as int, to as int),
{
    let mut text = String::new();
    let mut i: usize = from;
    while i < to
        invariant
            from <= i <= to <= chars@.len(),
            text@ == chars@.subrange(from as int, i as int),
        decreases to - i,
    {
        text.push(chars[i]);
        assert(chars@.subrange(from as int, i + 1) == chars@.subrange(from as int, i as int).push(chars@[i as int]));
        i += 1;
    }
    text
}

/// Whether two texts are the same.
pub fn same_text(a: &str, b: &str) -> (same: bool)
    ensures
        same == (a@ == b@),
{
    a.to_owned() == b.to_owned()
}

/// Whether `part` stands in `text` at position `at`.
pub open spec fn occurs_at(text: Seq<char>, part: Seq<char>, at: int) -> bool {
    &&& 0 <= at <= text.len() - part.len()
    &&& text.subrange(at, at + part.len()) == part
}

/// Whether `part` stands anywhere in `text`.
pub open spec fn occurs_in(text: Seq<char>, part: Seq<char>) -> bool {
    exists|at: int| occurs_at(text, part, at)
}

/// Whether `part` stands in `chars` at position `at`.
fn stands_at(chars: &Vec<char>, part: &Vec<char>, at: usize) -> (found: bool)
    requires
        at + part@.len() <= chars@.len(),
    ensures
        found == occurs_at(chars@, part@, at as int),
{
    let length: usize = chars.len();
    let mut i: usize = 0;
    while i < part.len()
        invariant
            at + part@.len() <= chars@.len() == length,
            i <= part@.len(),
            forall|j: int| 0 <= j < i ==> chars@[at + j] == #[trigger] part@[j],
        decreases part@.len() - i,
    {
        if chars[at + i] != part[i] {
            assert(chars@.subrange(at as int, at + part@.len())[i as int] != part@[i as int]);
            return false;
        }
        i += 1;
    }
    assert(chars@.subrange(at as int, at + part@.len()) =~= part@);
    true
}

/// Whether `part` stands anywhere in `text`.
pub fn has_part(text: &str, part: &str) -> (found: bool)
    ensures
        found == occurs_in(text@, part@),
{
    let chars = chars_of(text);
    let wanted = chars_of(part);
    if wanted.len() > chars.len() {
        return false;
    }
    let last: usize = chars.len() - wanted.len();
    let mut at: usize = 0;
    while at < last
        invariant
            chars@ == text@,
            wanted@ == part@,
            last == chars@.len() - wanted@.len(),
            at <= last,
            forall|j: int| 0 <= j < at ==> !occurs_at(chars@, wanted@, j),
        decreases last - at,
    {
        if stands_at(&chars, &wanted, at) {
            return true;
        }
        at += 1;
    }
    let found = stands_at(&chars, &wanted, last);
    assert forall|j: int| !found implies !occurs_at(chars@, wanted@, j) by {
        if 0 <= j <= last && j != last {
            assert(j < at);
        }
    }
    found
}

/// Whether `text` ends in `suffix`.
pub fn ends_in(text: &str, suffix: &str) -> (found: bool)
    ensures
        found == suffix@.is_suffix_of(text@),
{
    let chars = chars_of(text);
    let wanted = chars_of(suffix);
    if wanted.len() > chars.len() {
        return false;
    }
    stands_at(&chars, &wanted, chars.len() - wanted.len())
}

/// What follows `prefix` in `text`, where `text` starts with it.
pub fn after_prefix(text: &str, prefix: &str) -> (rest: Option<String>)
    ensures
        rest is Some <==> prefix@.is_prefix_of(text@),
        rest matches Some(r) ==> text@ == prefix@ + r@,
{
    let chars = chars_of(text);
    let wanted = chars_of(prefix);
    if wanted.len() <= chars.len() && stands_at(&chars, &wanted, 0) {
        let rest = text_between(&chars, wanted.len(), chars.len());
        assert(text@ =~= prefix@ + rest@);
        Some(rest)
    } else {
        None
    }
}

/// Whether `c` stands in `text`.
pub fn has_char(text: &str, c: char) -> (found: bool)
    ensures
        found == text@.contains(c),
{
    let chars = chars_of(text);
    let mut i: usize = 0;
    while i < chars.len()
        invariant
            chars@ == text@,
            i <= chars@.len(),
            forall|j: int| 0 <= j < i ==> chars@[j] != c,
        decreases chars@.len() - i,
    {
        if chars[i] == c {
            return true;
        }
        i += 1;
    }
    false
}

/// The text before and the text after the first `separator`, where there is one.
pub open spec fn split_at_first(text: Seq<char>, separator: char) -> Option<(Seq<char>, Seq<char>)> {
    if text.contains(separator) {
        let at = text.index_of_first(separator)->0;
        Some((text.take(at), text.skip(at + 1)))
    } else {
        None
    }
}

/// A text that is its own first part, a separator that the part does not hold, and a rest, splits
/// into the two.
pub(crate) proof fn lemma_split_at_first(before: Seq<char>, separator: char, after: Seq<char>)
    requires
        !before.contains(separator),
    ensures
        split_at_first(before.push(separator) + after, separator) == Some((before, after)),
{
    let text = before.push(separator) + after;
    let at = before.len() as int;
    assert(text[at] == separator);
    text.index_of_first_ensures(separator);
    let first = text.index_of_first(separator)->0;
    if first < at {
        assert(before[first] == separator);
    }
    assert(first == at);
    assert(text.take(at) =~= before);
    assert(text.skip(at + 1) =~= after);
}

/// Splits `text` at the first `separator`.
pub fn split_once(text: &str, separator: char) -> (parts: Option<(String, String)>)
    ensures
        parts is Some <==> split_at_first(text@, separator) is Some,
        parts matches Some(p) ==> split_at_first(text@, separator) == Some((p.0@, p.1@)),
{
    let chars = chars_of(text);
    let mut i: usize = 0;
    while i < chars.len()
        invariant
            chars@ == text@,
            i <= chars@.len(),
            forall|j: int| 0 <= j < i ==> chars@[j] != separator,
        decreases chars@.len() - i,
    {
        if chars[i] == separator {
            let before = text_between(&chars, 0, i);
            let after = text_between(&chars, i + 1, chars.len());
            proof {
                assert(!before@.contains(separator));
                assert(text@ =~= before@.push(separator) + after@);
                lemma_split_at_first(before@, separator, after@);
            }
            return Some((before, after));
        }
        i += 1;
    }
    None
}

/// Whether Unicode counts `c` as white space.
pub open spec fn is_white(c: char) -> bool {
    ||| '\u{9}' <= c <= '\u{d}'
    ||| c == ' ' || c == '\u{85}' || c == '\u{a0}' || c == '\u{1680}'
    ||| '\u{2000}' <= c <= '\u{200a}'
    ||| c == '\u{2028}' || c == '\u{2029}' || c == '\u{202f}' || c == '\u{205f}' || c == '\u{3000}'
}

/// Whether Unicode counts `c` as white space.
pub fn white(c: char) -> (r: bool)
    ensures
        r == is_white(c),
{
    ('\u{9}' <= c && c <= '\u{d}') || c == ' ' || c == '\u{85}' || c == '\u{a0}' || c == '\u{1680}'
        || ('\u{2000}' <= c && c <= '\u{200a}') || c == '\u{2028}' || c == '\u{2029}' || c == '\u{202f}'
        || c == '\u{205f}' || c == '\u{3000}'
}

/// The text without the white space at its start.
pub open spec fn without_leading_white(text: Seq<char>) -> Seq<char>
    decreases text.len(),
{
    if text.len() > 0 && is_white(text[0]) {
        without_leading_white(text.skip(1))
    } else {
        text
    }
}

/// The text without the white space at its end.
pub open spec fn without_trailing_white(text: Seq<char>) -> Seq<char>
    decreases text.len(),
{
    if text.len() > 0 && is_white(text.last()) {
        without_trailing_white(text.drop_last())
    } else {
        text
    }
}

/// The text without the white space at either end.
pub open spec fn trimmed(text: Seq<char>) -> Seq<char> {
    without_trailing_white(without_leading_white(text))
}

/// Whether a text is white space all over.
pub open spec fn all_white(text: Seq<char>) -> bool {
    forall|i: int| 0 <= i < text.len() ==> is_white(#[trigger] text[i])
}

/// White space around a text that neither starts nor ends with any is taken off, and no more.
pub proof fn law_trimming_takes_the_white_space_off(before: Seq<char>, text: Seq<char>, after: Seq<char>)
    requires
        all_white(before),
        all_white(after),
        text.len() > 0,
        !is_white(text[0]),
        !is_white(text.last()),
    ensures
        trimmed(before + text + after) == text,
    decreases before.len() + after.len(),
{
    let whole = before + text + after;
    if before.len() > 0 {
        assert(is_white(before[0]));
        assert(whole[0] == before[0]);
        assert(whole.skip(1) =~= before.skip(1) + text + after);
        assert forall|i: int| 0 <= i < before.skip(1).len() implies is_white(#[trigger] before.skip(1)[i]) by {
            assert(is_white(before[i + 1]));
        }
        law_trimming_takes_the_white_space_off(before.skip(1), text, after);
    } else {
        assert(whole[0] == text[0]);
        if after.len() > 0 {
            assert(is_white(after[after.len() - 1]));
            assert(whole.drop_last() =~= before + text + after.drop_last());
            assert forall|i: int| 0 <= i < after.drop_last().len() implies is_white(
                #[trigger] after.drop_last()[i],
            ) by {
                assert(is_white(after[i]));
            }
            law_trimming_takes_the_white_space_off(before, text, after.drop_last());
            assert(whole.drop_last()[0] == text[0]);
        } else {
            assert(whole =~= text);
        }
    }
}

/// Takes the white space off both ends of `text`.
pub fn trim(text: &str) -> (r: String)
    ensures
        r@ == trimmed(text@),
{
    let chars = chars_of(text);
    let mut from: usize = 0;
    assert(chars@.skip(0) =~= text@);
    while from < chars.len() && white(chars[from])
        invariant
            from <= chars@.len(),
            without_leading_white(text@) == without_leading_white(chars@.skip(from as int)),
        decreases chars@.len() - from,
    {
        assert(chars@.skip(from as int).skip(1) =~= chars@.skip(from + 1));
        from += 1;
    }
    let mut to: usize = chars.len();
    assert(chars@.subrange(from as int, to as int) =~= chars@.skip(from as int));
    while to > from && white(chars[to - 1])
        invariant
            from <= to <= chars@.len(),
            trimmed(text@) == without_trailing_white(chars@.subrange(from as int, to as int)),
        decreases to,
    {
        assert(chars@.subrange(from as int, to as int).drop_last() =~= chars@.subrange(from as int, to - 1));
        to -= 1;
    }
    text_between(&chars, from, to)
}

/// A text that may be there is there exactly when its characters are, and they are its own.
pub proof fn law_an_optional_text_is_its_characters(value: Option<String>)
    ensures
        optional_text(value) is Some <==> value is Some,
        value matches Some(text) ==> optional_text(value) == Some(text@),
{
}

/// A part stands in a text exactly when the text is something, the part, and something more.
pub proof fn law_a_part_is_found_wherever_it_stands(text: Seq<char>, part: Seq<char>)
    ensures
        occurs_in(text, part) <==> exists|before: Seq<char>, after: Seq<char>|
            text == #[trigger] (before + part + after),
{
    if occurs_in(text, part) {
        let at = choose|at: int| occurs_at(text, part, at);
        let before = text.take(at);
        let after = text.skip(at + part.len());
        assert(text =~= text.take(at) + text.subrange(at, at + part.len()) + text.skip(at + part.len()));
        assert(text == before + part + after);
    }
    if exists|before: Seq<char>, after: Seq<char>| text == #[trigger] (before + part + after) {
        let (before, after) = choose|before: Seq<char>, after: Seq<char>|
            text == #[trigger] (before + part + after);
        let at = before.len() as int;
        assert(text.subrange(at, at + part.len()) =~= part);
        assert(occurs_at(text, part, at));
    }
}

/// A text splits exactly when the separator is in it; it is then what comes before the separator,
/// the separator, and what comes after it, and the separator is not in what comes before it.
pub proof fn law_a_text_splits_at_the_first_separator(text: Seq<char>, separator: char)
    ensures
        split_at_first(text, separator) is None <==> forall|i: int|
            0 <= i < text.len() ==> #[trigger] text[i] != separator,
        split_at_first(text, separator) matches Some(parts) ==> {
            &&& text == parts.0.push(separator) + parts.1
            &&& forall|i: int| 0 <= i < parts.0.len() ==> #[trigger] parts.0[i] != separator
        },
{
    if text.contains(separator) {
        text.index_of_first_ensures(separator);
        let at = text.index_of_first(separator)->0;
        assert(text[at] == separator);
        assert(text =~= text.take(at).push(separator) + text.skip(at + 1));
        assert forall|i: int| 0 <= i < text.take(at).len() implies #[trigger] text.take(at)[i] != separator by {
            assert(text.take(at)[i] == text[i]);
        }
    } else {
        assert forall|i: int| 0 <= i < text.len() implies #[trigger] text[i] != separator by {
            if text[i] == separator {
                assert(text.contains(separator));
            }
        }
    }
}

/// White space is these characters, by their numbers, and no others.
pub proof fn law_white_space_in_numbers(c: char)
    ensures
        is_white(c) <==> {
            let n = c as int;
            9 <= n <= 13 || n == 32 || n == 133 || n == 160 || n == 5760 || 8192 <= n <= 8202 || n == 8232 || n
                == 8233 || n == 8239 || n == 8287 || n == 12288
        },
{
}

/// Taking off white space at the start leaves the text from some place on, which is not white, and
/// all before it is.
proof fn lemma_without_leading_white(text: Seq<char>) -> (from: int)
    ensures
        0 <= from <= text.len(),
        without_leading_white(text) == text.skip(from),
        forall|i: int| 0 <= i < from ==> is_white(#[trigger] text[i]),
        from < text.len() ==> !is_white(text[from]),
    decreases text.len(),
{
    if text.len() > 0 && is_white(text[0]) {
        let rest = text.skip(1);
        let from = lemma_without_leading_white(rest);
        assert(rest.skip(from) =~= text.skip(from + 1));
        assert forall|i: int| 0 <= i < from + 1 implies is_white(#[trigger] text[i]) by {
            if i > 0 {
                assert(is_white(rest[i - 1]));
            }
        }
        from + 1
    } else {
        assert(text.skip(0) =~= text);
        0
    }
}

/// Taking off white space at the end leaves the text up to some place, before which it is not white,
/// and all from there on is.
proof fn lemma_without_trailing_white(text: Seq<char>) -> (to: int)
    ensures
        0 <= to <= text.len(),
        without_trailing_white(text) == text.take(to),
        forall|i: int| to <= i < text.len() ==> is_white(#[trigger] text[i]),
        to > 0 ==> !is_white(text[to - 1]),
    decreases text.len(),
{
    if text.len() > 0 && is_white(text.last()) {
        let rest = text.drop_last();
        let to = lemma_without_trailing_white(rest);
        assert(rest.take(to) =~= text.take(to));
        assert forall|i: int| to <= i < text.len() implies is_white(#[trigger] text[i]) by {
            if i < rest.len() {
                assert(is_white(rest[i]));
            }
        }
        to
    } else {
        assert(text.take(text.len() as int) =~= text);
        text.len() as int
    }
}

/// A trimmed text is a stretch of the text with nothing but white space around it, and neither starts
/// nor ends with white space.
pub proof fn law_a_trimmed_text_has_only_white_space_around_it(text: Seq<char>)
    ensures
        trimmed(text).len() > 0 ==> !is_white(trimmed(text)[0]) && !is_white(trimmed(text).last()),
        exists|from: int, to: int|
            0 <= from <= to <= text.len() && trimmed(text) == #[trigger] text.subrange(from, to) && (forall|i: int|
                0 <= i < from || to <= i < text.len() ==> is_white(#[trigger] text[i])),
{
    let from = lemma_without_leading_white(text);
    let rest = text.skip(from);
    let length = lemma_without_trailing_white(rest);
    let to = from + length;
    assert(rest.take(length) =~= text.subrange(from, to));
    assert forall|i: int| 0 <= i < from || to <= i < text.len() implies is_white(#[trigger] text[i]) by {
        if i >= to {
            assert(is_white(rest[i - from]));
        }
    }
    assert(trimmed(text) == text.subrange(from, to));
}

} // verus!

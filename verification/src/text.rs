//! Texts: decimal numbers, searching, trimming and splitting.
use vstd::prelude::*;
use vstd::string::*;

verus! {

/// The character of one decimal digit.
pub open spec fn digit(n: nat) -> char {
    "0123456789"@[n as int]
}

/// A number in decimal notation, without leading zeros.
pub open spec fn decimal(n: nat) -> Seq<char>
    decreases n,
{
    if n < 10 {
        seq![digit(n)]
    } else {
        decimal(n / 10).push(digit(n % 10))
    }
}

/// Appends one decimal digit.
fn push_digit(text: &mut String, n: u128)
    requires
        n < 10,
    ensures
        final(text)@ == old(text)@.push(digit(n as nat)),
{
    let digits = "0123456789";
    proof {
        reveal_strlit("0123456789");
    }
    text.append(digits.substring_char(n as usize, n as usize + 1));
    assert(digits@.subrange(n as int, n + 1) =~= seq![digit(n as nat)]);
    assert(text@ =~= old(text)@.push(digit(n as nat)));
}

/// Appends a number in decimal notation.
pub fn push_decimal(text: &mut String, n: u128)
    ensures
        final(text)@ == old(text)@ + decimal(n as nat),
    decreases n,
{
    if n >= 10 {
        push_decimal(text, n / 10);
    }
    push_digit(text, n % 10);
    assert(text@ =~= old(text)@ + decimal(n as nat));
}

/// A character, `n` times.
pub open spec fn repeated(c: char, n: nat) -> Seq<char> {
    Seq::new(n, |i: int| c)
}

/// A text behind as many spaces as it takes to fill the width.
pub open spec fn padded(text: Seq<char>, width: nat) -> Seq<char> {
    repeated(
        ' ',
        if text.len() < width {
            (width - text.len()) as nat
        } else {
            0
        },
    ) + text
}

/// Appends a character, `n` times.
pub fn push_repeated(text: &mut String, mark: &str, n: usize)
    requires
        mark@.len() == 1,
    ensures
        final(text)@ == old(text)@ + repeated(mark@[0], n as nat),
{
    let mut i: usize = 0;
    assert(text@ =~= old(text)@ + repeated(mark@[0], 0));
    while i < n
        invariant
            i <= n,
            mark@.len() == 1,
            text@ == old(text)@ + repeated(mark@[0], i as nat),
        decreases n - i,
    {
        text.append(mark);
        i = i + 1;
        assert(text@ =~= old(text)@ + repeated(mark@[0], i as nat));
    }
}

/// Appends a text, behind as many spaces as it takes to fill the width.
pub fn push_padded(text: &mut String, part: &str, width: usize)
    ensures
        final(text)@ == old(text)@ + padded(part@, width as nat),
{
    let length: usize = part.unicode_len();
    proof {
        reveal_strlit(" ");
    }
    if length < width {
        push_repeated(text, " ", width - length);
    }
    text.append(part);
    assert(text@ =~= old(text)@ + padded(part@, width as nat));
}

/// Appends a number in decimal notation, behind as many spaces as it takes to fill the width.
pub fn push_padded_decimal(text: &mut String, n: u128, width: usize)
    ensures
        final(text)@ == old(text)@ + padded(decimal(n as nat), width as nat),
{
    let mut digits = "".to_owned();
    proof {
        reveal_strlit("");
    }
    push_decimal(&mut digits, n);
    assert(digits@ =~= decimal(n as nat));
    push_padded(text, digits.as_str(), width);
}

/// Whether `part` stands in `text` from position `at` on.
pub open spec fn occurs_at(text: Seq<char>, part: Seq<char>, at: int) -> bool {
    0 <= at <= text.len() - part.len() && text.subrange(at, at + part.len()) == part
}

/// Whether `part` occurs anywhere in `text`.
pub open spec fn contains_text(text: Seq<char>, part: Seq<char>) -> bool {
    exists|at: int| occurs_at(text, part, at)
}

/// Whether `text` begins with `part`.
pub open spec fn starts_with(text: Seq<char>, part: Seq<char>) -> bool {
    occurs_at(text, part, 0)
}

/// Whether `text` ends with `part`.
pub open spec fn ends_with(text: Seq<char>, part: Seq<char>) -> bool {
    occurs_at(text, part, text.len() - part.len())
}

/// The characters of a text.
pub fn chars_of(text: &str) -> (chars: Vec<char>)
    ensures
        chars@ == text@,
{
    let length: usize = text.unicode_len();
    let mut chars: Vec<char> = Vec::new();
    let mut i: usize = 0;
    while i < length
        invariant
            i <= length,
            length == text@.len(),
            chars@ == text@.take(i as int),
        decreases length - i,
    {
        chars.push(text.get_char(i));
        assert(chars@ =~= text@.take(i + 1));
        i = i + 1;
    }
    assert(chars@ =~= text@);
    chars
}

/// Whether `part` stands in `text` from position `at` on.
pub fn text_occurs_at(text: &Vec<char>, part: &Vec<char>, at: usize) -> (found: bool)
    ensures
        found == occurs_at(text@, part@, at as int),
{
    let length: usize = text.len();
    if part.len() > length || at > length - part.len() {
        return false;
    }
    let mut i: usize = 0;
    while i < part.len()
        invariant
            i <= part@.len(),
            length == text@.len(),
            at + part@.len() <= length,
            forall|j: int| 0 <= j < i ==> text@[at + j] == part@[j],
        decreases part@.len() - i,
    {
        if text[at + i] != part[i] {
            assert(text@.subrange(at as int, at + part@.len())[i as int] != part@[i as int]);
            return false;
        }
        i = i + 1;
    }
    assert(text@.subrange(at as int, at + part@.len()) =~= part@);
    true
}

/// Whether `part` occurs anywhere in `text`.
pub fn text_contains(text: &str, part: &str) -> (found: bool)
    ensures
        found == contains_text(text@, part@),
{
    let chars = chars_of(text);
    let wanted = chars_of(part);
    let mut at: usize = 0;
    while at < chars.len()
        invariant
            at <= chars@.len(),
            chars@ == text@,
            wanted@ == part@,
            forall|j: int| 0 <= j < at ==> !occurs_at(text@, part@, j),
        decreases chars@.len() - at,
    {
        if text_occurs_at(&chars, &wanted, at) {
            return true;
        }
        at = at + 1;
    }
    text_occurs_at(&chars, &wanted, at)
}

/// Whether `text` begins with `part`.
pub fn text_starts_with(text: &str, part: &str) -> (yes: bool)
    ensures
        yes == starts_with(text@, part@),
{
    text_occurs_at(&chars_of(text), &chars_of(part), 0)
}

/// Whether `text` ends with `part`.
pub fn text_ends_with(text: &str, part: &str) -> (yes: bool)
    ensures
        yes == ends_with(text@, part@),
{
    let text = chars_of(text);
    let part = chars_of(part);
    if part.len() > text.len() {
        return false;
    }
    text_occurs_at(&text, &part, text.len() - part.len())
}

/// Whether a character counts as white space: the control characters from tab to carriage return,
/// the spaces, and the separators of lines and paragraphs.
pub open spec fn is_space(c: char) -> bool {
    ||| '\u{9}' <= c <= '\u{d}'
    ||| c == '\u{20}'
    ||| c == '\u{85}'
    ||| c == '\u{a0}'
    ||| c == '\u{1680}'
    ||| '\u{2000}' <= c <= '\u{200a}'
    ||| c == '\u{2028}'
    ||| c == '\u{2029}'
    ||| c == '\u{202f}'
    ||| c == '\u{205f}'
    ||| c == '\u{3000}'
}

/// Whether a character counts as white space.
fn char_is_space(c: char) -> (yes: bool)
    ensures
        yes == is_space(c),
{
    ('\u{9}' <= c && c <= '\u{d}') || c == '\u{20}' || c == '\u{85}' || c == '\u{a0}' || c
        == '\u{1680}' || ('\u{2000}' <= c && c <= '\u{200a}') || c == '\u{2028}' || c == '\u{2029}'
        || c == '\u{202f}' || c == '\u{205f}' || c == '\u{3000}'
}

/// A text without the white space at its front.
pub open spec fn trimmed_front(text: Seq<char>) -> Seq<char>
    decreases text.len(),
{
    if text.len() > 0 && is_space(text.first()) {
        trimmed_front(text.drop_first())
    } else {
        text
    }
}

/// A text without the white space at its back.
pub open spec fn trimmed_back(text: Seq<char>) -> Seq<char>
    decreases text.len(),
{
    if text.len() > 0 && is_space(text.last()) {
        trimmed_back(text.drop_last())
    } else {
        text
    }
}

/// A text without the white space around it.
pub open spec fn trimmed(text: Seq<char>) -> Seq<char> {
    trimmed_back(trimmed_front(text))
}

/// Removes the white space around a text.
pub fn trim(text: &str) -> (trimmed_text: String)
    ensures
        trimmed_text@ == trimmed(text@),
{
    let chars = chars_of(text);
    let mut start: usize = 0;
    assert(text@.skip(0) =~= text@);
    while start < chars.len() && char_is_space(chars[start])
        invariant
            chars@ == text@,
            start <= chars@.len(),
            trimmed_front(text@) == trimmed_front(text@.skip(start as int)),
        decreases chars@.len() - start,
    {
        assert(text@.skip(start as int).first() == chars@[start as int]);
        assert(text@.skip(start as int).drop_first() =~= text@.skip(start + 1));
        start = start + 1;
    }
    let ghost front = text@.skip(start as int);
    assert(trimmed_front(text@) == front) by {
        if start < chars@.len() {
            assert(front.first() == chars@[start as int]);
        }
    }
    let mut end: usize = chars.len();
    assert(text@.subrange(start as int, end as int) =~= front);
    while start < end && char_is_space(chars[end - 1])
        invariant
            chars@ == text@,
            start <= end <= chars@.len(),
            trimmed_back(front) == trimmed_back(text@.subrange(start as int, end as int)),
        decreases end,
    {
        let ghost rest = text@.subrange(start as int, end as int);
        assert(rest.last() == chars@[end - 1]);
        assert(rest.drop_last() =~= text@.subrange(start as int, end - 1));
        end = end - 1;
    }
    proof {
        let rest = text@.subrange(start as int, end as int);
        if start < end {
            assert(rest.last() == chars@[end - 1]);
        }
    }
    text.substring_char(start, end).to_owned()
}

/// The part of a text before the first `separator`, or all of it.
pub open spec fn before_first(text: Seq<char>, separator: char) -> Seq<char>
    decreases text.len(),
{
    if text.len() == 0 || text.first() == separator {
        Seq::empty()
    } else {
        seq![text.first()] + before_first(text.drop_first(), separator)
    }
}

/// The parts of a text between the occurrences of `separator`.
pub open spec fn split_parts(text: Seq<char>, separator: char) -> Seq<Seq<char>>
    decreases text.len(),
{
    let part = before_first(text, separator);
    if part.len() >= text.len() {
        seq![text]
    } else {
        seq![part] + split_parts(text.skip(part.len() as int + 1), separator)
    }
}

/// The part before the first separator is a run without it, up to a separator or the end.
proof fn lemma_before_first(text: Seq<char>, separator: char, n: int)
    requires
        0 <= n <= text.len(),
        forall|i: int| 0 <= i < n ==> text[i] != separator,
        n == text.len() || text[n] == separator,
    ensures
        before_first(text, separator) == text.take(n),
    decreases text.len(),
{
    if n == 0 {
        assert(text.take(n) =~= Seq::<char>::empty());
    } else {
        let rest = text.drop_first();
        assert forall|i: int| 0 <= i < n - 1 implies rest[i] != separator by {
            assert(rest[i] == text[i + 1]);
        }
        if n < text.len() {
            assert(rest[n - 1] == text[n]);
        }
        lemma_before_first(rest, separator, n - 1);
        assert(text.take(n) =~= seq![text.first()] + rest.take(n - 1));
    }
}

/// The views of a list of texts.
pub open spec fn views(texts: Seq<String>) -> Seq<Seq<char>> {
    texts.map_values(|text: String| text@)
}

/// Splits a text at every `separator`.
pub fn split(text: &str, separator: char) -> (parts: Vec<String>)
    ensures
        views(parts@) == split_parts(text@, separator),
{
    let chars = chars_of(text);
    let mut parts: Vec<String> = Vec::new();
    let mut start: usize = 0;
    let mut i: usize = 0;
    assert(text@.skip(0) =~= text@);
    assert(views(parts@) + split_parts(text@, separator) =~= split_parts(text@, separator));
    while i < chars.len()
        invariant
            chars@ == text@,
            start <= i <= chars@.len(),
            forall|j: int| start <= j < i ==> chars@[j] != separator,
            views(parts@) + split_parts(text@.skip(start as int), separator) == split_parts(
                text@,
                separator,
            ),
        decreases chars@.len() - i,
    {
        if chars[i] == separator {
            let ghost rest = text@.skip(start as int);
            let ghost before = views(parts@);
            proof {
                let n = i - start;
                assert forall|j: int| 0 <= j < n implies rest[j] != separator by {
                    assert(rest[j] == chars@[start + j]);
                }
                assert(rest[n] == chars@[i as int]);
                lemma_before_first(rest, separator, n);
                assert(rest.take(n) =~= text@.subrange(start as int, i as int));
                assert(rest.skip(n + 1) =~= text@.skip(i + 1));
            }
            parts.push(text.substring_char(start, i).to_owned());
            assert(views(parts@) =~= before.push(text@.subrange(start as int, i as int)));
            assert(views(parts@) + split_parts(text@.skip(i + 1), separator) =~= before
                + split_parts(rest, separator));
            start = i + 1;
        }
        i = i + 1;
    }
    let ghost rest = text@.skip(start as int);
    let ghost before = views(parts@);
    proof {
        assert forall|j: int| 0 <= j < rest.len() implies rest[j] != separator by {
            assert(rest[j] == chars@[start + j]);
        }
        lemma_before_first(rest, separator, rest.len() as int);
        assert(rest.take(rest.len() as int) =~= rest);
        assert(rest =~= text@.subrange(start as int, text@.len() as int));
    }
    parts.push(text.substring_char(start, chars.len()).to_owned());
    assert(views(parts@) =~= before.push(rest));
    assert(views(parts@) =~= before + split_parts(rest, separator));
    parts
}

/// Whether two texts are the same.
pub fn same_text(a: &str, b: &str) -> (same: bool)
    ensures
        same == (a@ == b@),
{
    a.to_owned() == b.to_owned()
}

/// The number that a row of decimal digits stands for.
pub open spec fn number_of(digits: Seq<char>) -> int
    decreases digits.len(),
{
    if digits.len() == 0 {
        0
    } else {
        number_of(digits.drop_last()) * 10 + (digits.last() as int - '0' as int)
    }
}

/// A number in decimal notation reads back as the number. It consists of digits, and begins with a
/// zero only where it is zero.
pub proof fn law_decimals_read_back(n: nat)
    ensures
        number_of(decimal(n)) == n,
        decimal(n).len() > 0,
        forall|i: int|
            #![trigger decimal(n)[i]]
            0 <= i < decimal(n).len() ==> '0' <= decimal(n)[i] <= '9',
        n > 0 ==> decimal(n)[0] != '0',
        n == 0 ==> decimal(n).len() == 1,
    decreases n,
{
    reveal_strlit("0123456789");
    assert forall|d: nat| d < 10 implies (#[trigger] digit(d)) as int - '0' as int == d by {}
    let text = decimal(n);
    if n < 10 {
        assert(text.drop_last() =~= Seq::<char>::empty());
        assert(text.last() == digit(n));
        assert(number_of(text.drop_last()) == 0);
    } else {
        law_decimals_read_back(n / 10);
        assert(text.drop_last() =~= decimal(n / 10));
        assert(text.last() == digit(n % 10));
        assert(text[0] == decimal(n / 10)[0]);
        assert forall|i: int| #![trigger text[i]] 0 <= i < text.len() implies '0' <= text[i]
            <= '9' by {
            if i < text.len() - 1 {
                assert(text[i] == decimal(n / 10)[i]);
            }
        }
    }
}

/// A padded text is at least as long as the width, ends with the text, and has nothing but spaces
/// before it; one that fills the width is left as it is.
pub proof fn law_padding_fills_the_width(text: Seq<char>, width: nat)
    ensures
        ({
            let after = padded(text, width);
            let spaces = after.len() - text.len();
            &&& spaces >= 0
            &&& text.len() >= width ==> after == text
            &&& text.len() <= width ==> after.len() == width
            &&& after.skip(spaces) == text
            &&& forall|i: int| #![trigger after[i]] 0 <= i < spaces ==> after[i] == ' '
        }),
{
    let after = padded(text, width);
    assert(after.skip(after.len() - text.len()) =~= text);
    if text.len() >= width {
        assert(after =~= text);
    }
}

proof fn lemma_trimmed_front(text: Seq<char>) -> (n: int)
    ensures
        0 <= n <= text.len(),
        trimmed_front(text) == text.skip(n),
        forall|i: int| #![trigger text[i]] 0 <= i < n ==> is_space(text[i]),
        n < text.len() ==> !is_space(text[n]),
    decreases text.len(),
{
    if text.len() > 0 && is_space(text.first()) {
        let rest = text.drop_first();
        let n = lemma_trimmed_front(rest);
        assert(rest.skip(n) =~= text.skip(n + 1));
        assert forall|i: int| #![trigger text[i]] 0 <= i < n + 1 implies is_space(text[i]) by {
            if i > 0 {
                assert(rest[i - 1] == text[i]);
            }
        }
        if n < rest.len() {
            assert(rest[n] == text[n + 1]);
        }
        n + 1
    } else {
        assert(text.skip(0) =~= text);
        0
    }
}

proof fn lemma_trimmed_back(text: Seq<char>) -> (n: int)
    ensures
        0 <= n <= text.len(),
        trimmed_back(text) == text.take(n),
        forall|i: int| #![trigger text[i]] n <= i < text.len() ==> is_space(text[i]),
        n > 0 ==> !is_space(text[n - 1]),
    decreases text.len(),
{
    if text.len() > 0 && is_space(text.last()) {
        let rest = text.drop_last();
        let n = lemma_trimmed_back(rest);
        assert(rest.take(n) =~= text.take(n));
        assert forall|i: int| #![trigger text[i]] n <= i < text.len() implies is_space(text[i]) by {
            if i < rest.len() {
                assert(rest[i] == text[i]);
            }
        }
        n
    } else {
        assert(text.take(text.len() as int) =~= text);
        text.len() as int
    }
}

/// Trimming takes white space off both ends of a text and nothing else: what is left is a part of
/// the text, it neither begins nor ends with white space, and there was only white space around it.
pub proof fn law_trimming_removes_only_white_space(text: Seq<char>) -> (bounds: (int, int))
    ensures
        0 <= bounds.0 <= bounds.1 <= text.len(),
        trimmed(text) == text.subrange(bounds.0, bounds.1),
        trimmed(text).len() > 0 ==> !is_space(trimmed(text).first()) && !is_space(
            trimmed(text).last(),
        ),
        forall|i: int|
            #![trigger text[i]]
            0 <= i < bounds.0 || bounds.1 <= i < text.len() ==> is_space(text[i]),
{
    let start = lemma_trimmed_front(text);
    let front = text.skip(start);
    let length = lemma_trimmed_back(front);
    assert(front.take(length) =~= text.subrange(start, start + length));
    assert forall|i: int|
        #![trigger text[i]]
        0 <= i < start || start + length <= i < text.len() implies is_space(text[i]) by {
        if i >= start {
            assert(front[i - start] == text[i]);
        }
    }
    (start, start + length)
}

/// Texts with a separator between each two of them.
pub open spec fn joined(parts: Seq<Seq<char>>, separator: char) -> Seq<char>
    decreases parts.len(),
{
    if parts.len() == 0 {
        Seq::empty()
    } else if parts.len() == 1 {
        parts[0]
    } else {
        parts[0] + seq![separator] + joined(parts.drop_first(), separator)
    }
}

proof fn lemma_first_separator(text: Seq<char>, separator: char) -> (n: int)
    ensures
        0 <= n <= text.len(),
        before_first(text, separator) == text.take(n),
        forall|i: int| #![trigger text[i]] 0 <= i < n ==> text[i] != separator,
        n < text.len() ==> text[n] == separator,
    decreases text.len(),
{
    if text.len() == 0 || text.first() == separator {
        assert(text.take(0) =~= Seq::<char>::empty());
        0
    } else {
        let rest = text.drop_first();
        let n = lemma_first_separator(rest, separator);
        assert(text.take(n + 1) =~= seq![text.first()] + rest.take(n));
        assert forall|i: int| #![trigger text[i]] 0 <= i < n + 1 implies text[i] != separator by {
            if i > 0 {
                assert(rest[i - 1] == text[i]);
            }
        }
        if n < rest.len() {
            assert(rest[n] == text[n + 1]);
        }
        n + 1
    }
}

/// Splitting is undone by joining: the parts of a text, with the separator between them, make up the
/// text, and none of them holds the separator.
pub proof fn law_split_parts_join(text: Seq<char>, separator: char)
    ensures
        split_parts(text, separator).len() > 0,
        joined(split_parts(text, separator), separator) == text,
        forall|i: int|
            #![trigger split_parts(text, separator)[i]]
            0 <= i < split_parts(text, separator).len() ==> !split_parts(
                text,
                separator,
            )[i].contains(separator),
    decreases text.len(),
{
    let n = lemma_first_separator(text, separator);
    let parts = split_parts(text, separator);
    if n < text.len() {
        let rest = text.skip(n + 1);
        law_split_parts_join(rest, separator);
        let below = split_parts(rest, separator);
        assert(parts =~= seq![text.take(n)] + below);
        assert(parts.drop_first() =~= below);
        assert(text =~= text.take(n) + seq![separator] + rest);
        assert forall|i: int| #![trigger parts[i]] 0 <= i < parts.len() implies !parts[i].contains(
            separator,
        ) by {
            if i > 0 {
                assert(parts[i] == below[i - 1]);
            } else {
                assert forall|j: int| 0 <= j < n implies text.take(n)[j] != separator by {
                    assert(text.take(n)[j] == text[j]);
                }
            }
        }
    } else {
        assert(text.take(n) =~= text);
        assert(parts =~= seq![text]);
        assert(!parts[0].contains(separator));
    }
}

/// The white space among the first characters is the space and the five control characters from tab
/// on; beyond them it is nineteen characters more.
pub proof fn law_white_space_is_what_separates_words(c: char)
    ensures
        is_space(c) <==> match c as u32 {
            0x09 | 0x0a | 0x0b | 0x0c | 0x0d | 0x20 => true,
            0x85 | 0xa0 | 0x1680 => true,
            0x2000 | 0x2001 | 0x2002 | 0x2003 | 0x2004 | 0x2005 => true,
            0x2006 | 0x2007 | 0x2008 | 0x2009 | 0x200a => true,
            0x2028 | 0x2029 | 0x202f | 0x205f | 0x3000 => true,
            _ => false,
        },
{
}

}

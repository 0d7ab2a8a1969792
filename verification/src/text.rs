//! Strings as sequences of characters.
use vstd::prelude::*;

verus! {

/// `String::push` of std. Trusted: it appends the character to the end of
/// the string.
pub assume_specification[ String::push ](text: &mut String, c: char)
    ensures
        final(text)@ == old(text)@.push(c),
;

/// `==` on `str` of std. Trusted: two string slices are equal exactly when
/// they hold the same characters.
pub assume_specification[ <str as PartialEq>::eq ](left: &str, right: &str) -> (same: bool)
    ensures
        same == (left@ == right@),
;

/// The characters of `text`, in order.
pub fn chars_of(text: &str) -> (chars: Vec<char>)
    ensures
        chars@ == text@,
{
    broadcast use vstd::string::group_string_axioms;

    let mut chars: Vec<char> = Vec::new();
    for c in walk: text.chars()
        invariant
            walk.seq() == text@,
            chars@ == walk.seq().take(walk.index()),
    {
        chars.push(c);
    }
    chars
}

/// The string made of `chars[from..to]`.
pub fn string_of(chars: &Vec<char>, from: usize, to: usize) -> (text: String)
    requires
        from <= to <= chars.len(),
    ensures
        text@ == chars@.subrange(from as int, to as int),
{
    let mut text = String::new();
    let mut i: usize = from;
    while i < to
        invariant
            from <= i <= to <= chars.len(),
            text@ == chars@.subrange(from as int, i as int),
        decreases to - i,
    {
        text.push(chars[i]);
        i += 1;
    }
    text
}

/// A copy of `strings[from..to]`.
pub fn string_list_of(strings: &Vec<String>, from: usize, to: usize) -> (copy: Vec<String>)
    requires
        from <= to <= strings.len(),
    ensures
        copy@ == strings@.subrange(from as int, to as int),
{
    let mut copy: Vec<String> = Vec::new();
    let mut i: usize = from;
    while i < to
        invariant
            from <= i <= to <= strings.len(),
            copy@ == strings@.subrange(from as int, i as int),
        decreases to - i,
    {
        copy.push(strings[i].clone());
        i += 1;
    }
    copy
}

/// Whether `c` is a decimal digit.
pub open spec fn is_digit(c: char) -> bool {
    '0' <= c && c <= '9'
}

/// The number a decimal digit stands for.
pub open spec fn digit_value(c: char) -> nat {
    (c as u32 - '0' as u32) as nat
}

/// The number written by a string of decimal digits, most significant first.
pub open spec fn decimal_value(digits: Seq<char>) -> nat
    decreases digits.len(),
{
    if digits.len() == 0 {
        0
    } else {
        10 * decimal_value(digits.drop_last()) + digit_value(digits.last())
    }
}

/// Whether every character of `text` is a decimal digit.
pub open spec fn all_digits(text: Seq<char>) -> bool {
    forall|i: int| 0 <= i < text.len() ==> is_digit(#[trigger] text[i])
}

/// `text` without one leading plus sign, if it has one.
pub open spec fn without_plus(text: Seq<char>) -> Seq<char> {
    if text.len() > 0 && text[0] == '+' {
        text.drop_first()
    } else {
        text
    }
}

/// The unsigned number that `text` writes in decimal: an optional `+`, then
/// one or more digits whose value fits in 64 bits. Anything else (an empty
/// string, a bare `+`, a minus sign, a space, a value too large) is no number.
pub open spec fn parse_u64_spec(text: Seq<char>) -> Option<u64> {
    let digits = without_plus(text);
    if digits.len() > 0 && all_digits(digits) && decimal_value(digits) <= u64::MAX {
        Some(decimal_value(digits) as u64)
    } else {
        None
    }
}

/// A number never gets smaller when more digits are written after it.
pub proof fn lemma_decimal_value_grows(digits: Seq<char>, shorter: int)
    requires
        0 <= shorter <= digits.len(),
    ensures
        decimal_value(digits.take(shorter)) <= decimal_value(digits),
    decreases digits.len() - shorter,
{
    if shorter < digits.len() {
        lemma_decimal_value_grows(digits.drop_last(), shorter);
        assert(digits.drop_last().take(shorter) =~= digits.take(shorter));
    } else {
        assert(digits.take(shorter) =~= digits);
    }
}

/// Reads `text` as an unsigned decimal number.
pub fn parse_u64(text: &str) -> (number: Option<u64>)
    ensures
        number == parse_u64_spec(text@),
{
    let chars = chars_of(text);
    let start: usize = if chars.len() > 0 && chars[0] == '+' {
        1
    } else {
        0
    };
    let ghost digits = without_plus(text@);
    if start == chars.len() {
        return None;
    }
    let mut value: u64 = 0;
    let mut i: usize = start;
    while i < chars.len()
        invariant
            start <= i <= chars.len(),
            digits == without_plus(text@),
            digits == chars@.subrange(start as int, chars.len() as int),
            all_digits(digits.take(i - start)),
            value == decimal_value(digits.take(i - start)),
        decreases chars.len() - i,
    {
        let c = chars[i];
        let ghost seen = digits.take(i - start + 1);
        assert(seen.drop_last() =~= digits.take(i - start));
        if !(c >= '0' && c <= '9') {
            assert(!is_digit(digits[i - start]));
            return None;
        }
        let digit: u64 = (c as u32 - '0' as u32) as u64;
        let next = match value.checked_mul(10) {
            Some(scaled) => scaled.checked_add(digit),
            None => None,
        };
        match next {
            Some(n) => {
                value = n;
            },
            None => {
                proof {
                    lemma_decimal_value_grows(digits, i - start + 1);
                }
                return None;
            },
        }
        i += 1;
    }
    assert(digits.take(i - start) =~= digits);
    Some(value)
}

/// The character sequences of a list of strings.
pub open spec fn texts(strings: Seq<String>) -> Seq<Seq<char>> {
    Seq::new(strings.len(), |i: int| strings[i]@)
}

/// The characters of a list of strings with one more string at its end.
pub proof fn lemma_texts_push(strings: Seq<String>, last: String)
    ensures
        texts(strings.push(last)) == texts(strings).push(last@),
{
}

/// Whether `c` has the Unicode property `White_Space`.
pub open spec fn is_whitespace(c: char) -> bool {
    ||| ('\u{9}' <= c && c <= '\u{d}')
    ||| c == ' '
    ||| c == '\u{85}'
    ||| c == '\u{a0}'
    ||| c == '\u{1680}'
    ||| ('\u{2000}' <= c && c <= '\u{200a}')
    ||| c == '\u{2028}'
    ||| c == '\u{2029}'
    ||| c == '\u{202f}'
    ||| c == '\u{205f}'
    ||| c == '\u{3000}'
}

/// `text` without its leading whitespace.
pub open spec fn trim_start_spec(text: Seq<char>) -> Seq<char>
    decreases text.len(),
{
    if text.len() > 0 && is_whitespace(text.first()) {
        trim_start_spec(text.drop_first())
    } else {
        text
    }
}

/// `text` without its trailing whitespace.
pub open spec fn trim_end_spec(text: Seq<char>) -> Seq<char>
    decreases text.len(),
{
    if text.len() > 0 && is_whitespace(text.last()) {
        trim_end_spec(text.drop_last())
    } else {
        text
    }
}

/// `text` without leading and trailing whitespace.
pub open spec fn trim_spec(text: Seq<char>) -> Seq<char> {
    trim_end_spec(trim_start_spec(text))
}

/// The pieces of `text` between occurrences of `separator`. There is always
/// one piece more than there are separators, so the empty text has one empty
/// piece.
pub open spec fn split_on(text: Seq<char>, separator: char) -> Seq<Seq<char>>
    decreases text.len(),
{
    if text.len() == 0 {
        seq![Seq::<char>::empty()]
    } else {
        let before = split_on(text.drop_last(), separator);
        if text.last() == separator {
            before.push(Seq::<char>::empty())
        } else {
            before.drop_last().push(before.last().push(text.last()))
        }
    }
}

/// Every piece of `pieces`, trimmed.
pub open spec fn trim_all(pieces: Seq<Seq<char>>) -> Seq<Seq<char>> {
    Seq::new(pieces.len(), |i: int| trim_spec(pieces[i]))
}

/// The pieces of `text` between occurrences of `separator`, each trimmed.
pub open spec fn split_trimmed_spec(text: Seq<char>, separator: char) -> Seq<Seq<char>> {
    trim_all(split_on(text, separator))
}

/// An ASCII capital letter as its small letter; any other character as
/// itself.
pub open spec fn ascii_lower(c: char) -> char {
    if 'A' <= c && c <= 'Z' {
        ((c as u32) + 32) as char
    } else {
        c
    }
}

/// Whether two texts are equal up to the case of their ASCII letters.
pub open spec fn eq_ignore_ascii_case_spec(left: Seq<char>, right: Seq<char>) -> bool {
    &&& left.len() == right.len()
    &&& forall|i: int|
        0 <= i < left.len() ==> ascii_lower(#[trigger] left[i]) == ascii_lower(right[i])
}

/// Skipping a run of whitespace at the front is what `trim_start_spec` does.
pub proof fn lemma_trim_start(text: Seq<char>, run: int)
    requires
        0 <= run <= text.len(),
        forall|i: int| 0 <= i < run ==> is_whitespace(#[trigger] text[i]),
        run < text.len() ==> !is_whitespace(text[run]),
    ensures
        trim_start_spec(text) == text.skip(run),
    decreases run,
{
    if run > 0 {
        lemma_trim_start(text.drop_first(), run - 1);
    }
}

/// Dropping a run of whitespace at the back is what `trim_end_spec` does.
pub proof fn lemma_trim_end(text: Seq<char>, kept: int)
    requires
        0 <= kept <= text.len(),
        forall|i: int| kept <= i < text.len() ==> is_whitespace(#[trigger] text[i]),
        kept > 0 ==> !is_whitespace(text[kept - 1]),
    ensures
        trim_end_spec(text) == text.take(kept),
    decreases text.len() - kept,
{
    if kept < text.len() {
        lemma_trim_end(text.drop_last(), kept);
    }
}

/// Trimming piece by piece: one more trimmed piece at the end of the strings
/// matches one more raw piece at the end of the pieces.
proof fn lemma_trimmed_piece_added(
    done: Seq<String>,
    raw: Seq<Seq<char>>,
    trimmed: String,
    piece: Seq<char>,
)
    requires
        texts(done) == trim_all(raw),
        trimmed@ == trim_spec(piece),
    ensures
        texts(done.push(trimmed)) == trim_all(raw.push(piece)),
{
    let left = texts(done.push(trimmed));
    let right = trim_all(raw.push(piece));
    assert(trim_all(raw).len() == raw.len());
    assert forall|k: int| 0 <= k < left.len() implies left[k] == right[k] by {
        if k < done.len() {
            assert(trim_all(raw)[k] == trim_spec(raw[k]));
        }
    }
}

/// Whether `c` has the Unicode property `White_Space`.
pub fn char_is_whitespace(c: char) -> (space: bool)
    ensures
        space == is_whitespace(c),
{
    (c >= '\u{9}' && c <= '\u{d}') || c == ' ' || c == '\u{85}' || c == '\u{a0}' || c
        == '\u{1680}' || (c >= '\u{2000}' && c <= '\u{200a}') || c == '\u{2028}' || c
        == '\u{2029}' || c == '\u{202f}' || c == '\u{205f}' || c == '\u{3000}'
}

/// The string made of `chars[from..to]` without leading and trailing
/// whitespace.
pub fn trimmed_string_of(chars: &Vec<char>, from: usize, to: usize) -> (text: String)
    requires
        from <= to <= chars.len(),
    ensures
        text@ == trim_spec(chars@.subrange(from as int, to as int)),
{
    let ghost piece = chars@.subrange(from as int, to as int);
    let mut start: usize = from;
    while start < to && char_is_whitespace(chars[start])
        invariant
            from <= start <= to <= chars.len(),
            piece == chars@.subrange(from as int, to as int),
            forall|i: int| 0 <= i < start - from ==> is_whitespace(#[trigger] piece[i]),
        decreases to - start,
    {
        start += 1;
    }
    proof {
        lemma_trim_start(piece, start - from);
    }
    let ghost front = piece.skip(start - from);
    let mut end: usize = to;
    while end > start && char_is_whitespace(chars[end - 1])
        invariant
            from <= start <= end <= to <= chars.len(),
            piece == chars@.subrange(from as int, to as int),
            front == piece.skip(start - from),
            forall|i: int| end - start <= i < front.len() ==> is_whitespace(#[trigger] front[i]),
        decreases end - start,
    {
        end -= 1;
    }
    proof {
        lemma_trim_end(front, end - start);
    }
    string_of(chars, start, end)
}

/// Splits `text` at every `separator` and trims each piece.
pub fn split_trimmed(text: &str, separator: char) -> (pieces: Vec<String>)
    ensures
        texts(pieces@) == split_trimmed_spec(text@, separator),
{
    let chars = chars_of(text);
    let mut pieces: Vec<String> = Vec::new();
    let mut piece_start: usize = 0;
    let mut i: usize = 0;
    let ghost mut raw: Seq<Seq<char>> = Seq::empty();
    proof {
        assert(chars@.subrange(0, 0) =~= Seq::<char>::empty());
    }
    while i < chars.len()
        invariant
            piece_start <= i <= chars.len(),
            chars@ == text@,
            split_on(chars@.take(i as int), separator) == raw.push(
                chars@.subrange(piece_start as int, i as int),
            ),
            texts(pieces@) == trim_all(raw),
        decreases chars.len() - i,
    {
        let ghost before = chars@.take(i as int);
        let ghost now = chars@.take(i + 1);
        let ghost current = chars@.subrange(piece_start as int, i as int);
        proof {
            assert(now.drop_last() =~= before);
        }
        if chars[i] == separator {
            let piece = trimmed_string_of(&chars, piece_start, i);
            let ghost done = pieces@;
            pieces.push(piece);
            proof {
                lemma_trimmed_piece_added(done, raw, piece, current);
                raw = raw.push(current);
                assert(chars@.subrange(i + 1, i + 1) =~= Seq::<char>::empty());
            }
            piece_start = i + 1;
        } else {
            proof {
                assert(current.push(chars@[i as int]) =~= chars@.subrange(
                    piece_start as int,
                    i + 1,
                ));
            }
        }
        i += 1;
    }
    let last = trimmed_string_of(&chars, piece_start, i);
    let ghost done = pieces@;
    pieces.push(last);
    proof {
        assert(chars@.take(i as int) =~= text@);
        lemma_trimmed_piece_added(done, raw, last, chars@.subrange(piece_start as int, i as int));
    }
    pieces
}

fn to_ascii_lower(c: char) -> (lower: char)
    ensures
        lower == ascii_lower(c),
{
    if c >= 'A' && c <= 'Z' {
        ((c as u32) + 32) as u8 as char
    } else {
        c
    }
}

/// Whether two strings are equal up to the case of their ASCII letters.
pub fn eq_ignore_ascii_case(left: &str, right: &str) -> (same: bool)
    ensures
        same == eq_ignore_ascii_case_spec(left@, right@),
{
    let a = chars_of(left);
    let b = chars_of(right);
    if a.len() != b.len() {
        return false;
    }
    let mut i: usize = 0;
    while i < a.len()
        invariant
            i <= a.len(),
            a.len() == b.len(),
            a@ == left@,
            b@ == right@,
            forall|k: int| 0 <= k < i ==> ascii_lower(#[trigger] a@[k]) == ascii_lower(b@[k]),
        decreases a.len() - i,
    {
        if to_ascii_lower(a[i]) != to_ascii_lower(b[i]) {
            return false;
        }
        i += 1;
    }
    true
}

} // verus!

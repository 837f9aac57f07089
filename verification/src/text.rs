use vstd::prelude::*;
use vstd::std_specs::iter::IteratorSpec;

verus! {

/// `String::push` appends one character.
pub assume_specification[ std::string::String::push ](text: &mut std::string::String, ch: char)
    ensures
        final(text)@ == old(text)@.push(ch),
;

/// The characters of a string, in order.
pub fn chars_of(text: &str) -> (chars: Vec<char>)
    ensures
        chars@ == text@,
{
    broadcast use vstd::string::group_string_axioms;

    let mut rest = text.chars();
    let mut chars: Vec<char> = Vec::new();
    loop
        invariant
            chars@ + rest.remaining() == text@,
            rest.decrease() is Some,
        ensures
            chars@ == text@,
        decreases rest.decrease()->0,
    {
        let ghost before = rest.remaining();
        match rest.next() {
            Some(c) => {
                assert(before == seq![c] + rest.remaining());
                chars.push(c);
                assert(chars@ + rest.remaining() =~= text@);
            },
            None => {
                assert(chars@ =~= chars@ + rest.remaining());
                break ;
            },
        }
    }
    chars
}

/// The string made of the characters at `from..to`.
pub fn string_of(chars: &[char], from: usize, to: usize) -> (text: String)
    requires
        from <= to <= chars.len(),
    ensures
        text@ == chars@.subrange(from as int, to as int),
{
    let mut text = String::new();
    let mut i: usize = from;
    while i < to
        invariant
            from <= i <= to <= chars.len(),
            text@ == chars@.subrange(from as int, i as int),
        decreases to - i,
    {
        text.push(chars[i]);
        assert(chars@.subrange(from as int, i as int).push(chars@[i as int]) =~= chars@.subrange(
            from as int,
            i + 1,
        ));
        i += 1;
    }
    text
}

/// A space, a tab, a line feed or a carriage return.
pub open spec fn is_blank(c: char) -> bool {
    c == ' ' || c == '\t' || c == '\n' || c == '\r'
}

/// Tests for a blank character.
pub fn blank(c: char) -> (yes: bool)
    ensures
        yes == is_blank(c),
{
    c == ' ' || c == '\t' || c == '\n' || c == '\r'
}

/// A line feed or a carriage return.
pub open spec fn is_line_break(c: char) -> bool {
    c == '\n' || c == '\r'
}

/// The first position from `i` on that holds no blank character.
pub open spec fn skip_blanks(text: Seq<char>, i: int) -> int
    decreases text.len() - i,
{
    if 0 <= i < text.len() && is_blank(text[i]) {
        skip_blanks(text, i + 1)
    } else {
        i
    }
}

/// Skipping blanks moves forward, stays within the text and stops on a
/// character that is not blank.
pub proof fn lemma_skip_blanks_bounds(text: Seq<char>, i: int)
    requires
        0 <= i <= text.len(),
    ensures
        i <= skip_blanks(text, i) <= text.len(),
        skip_blanks(text, i) < text.len() ==> !is_blank(text[skip_blanks(text, i)]),
    decreases text.len() - i,
{
    if i < text.len() && is_blank(text[i]) {
        lemma_skip_blanks_bounds(text, i + 1);
    }
}

/// Finds the first position from `i` on that holds no blank character.
pub fn skip_blank(chars: &[char], i: usize) -> (next: usize)
    requires
        i <= chars.len(),
    ensures
        next == skip_blanks(chars@, i as int),
        i <= next <= chars.len(),
{
    let mut k: usize = i;
    while k < chars.len() && blank(chars[k])
        invariant
            i <= k <= chars.len(),
            skip_blanks(chars@, i as int) == skip_blanks(chars@, k as int),
        decreases chars.len() - k,
    {
        k += 1;
    }
    k
}

/// The first position from `i` on that holds a line break, or the length
/// of the text where none follows.
pub open spec fn line_end(text: Seq<char>, i: int) -> int
    decreases text.len() - i,
{
    if 0 <= i < text.len() && !is_line_break(text[i]) {
        line_end(text, i + 1)
    } else {
        i
    }
}

/// A line ends no earlier than it starts, within the text, and after its
/// first character where that is no line break.
pub proof fn lemma_line_end_bounds(text: Seq<char>, i: int)
    requires
        0 <= i <= text.len(),
    ensures
        i <= line_end(text, i) <= text.len(),
        i < text.len() && !is_line_break(text[i]) ==> i < line_end(text, i),
    decreases text.len() - i,
{
    if i < text.len() && !is_line_break(text[i]) {
        lemma_line_end_bounds(text, i + 1);
    }
}

/// Finds the end of the line that position `i` lies in.
pub fn find_line_end(chars: &[char], i: usize) -> (end: usize)
    requires
        i <= chars.len(),
    ensures
        end == line_end(chars@, i as int),
        i <= end <= chars.len(),
{
    let mut k: usize = i;
    while k < chars.len() && !(chars[k] == '\n' || chars[k] == '\r')
        invariant
            i <= k <= chars.len(),
            line_end(chars@, i as int) == line_end(chars@, k as int),
        decreases chars.len() - k,
    {
        k += 1;
    }
    k
}

/// The text without the blanks at its end.
pub open spec fn trim_end(text: Seq<char>) -> Seq<char>
    decreases text.len(),
{
    if text.len() > 0 && is_blank(text.last()) {
        trim_end(text.drop_last())
    } else {
        text
    }
}

/// The text without the blanks at its start.
pub open spec fn trim_start(text: Seq<char>) -> Seq<char> {
    text.skip(skip_blanks(text, 0))
}

/// The text without the blanks at either end.
pub open spec fn trim(text: Seq<char>) -> Seq<char> {
    trim_end(trim_start(text))
}

/// Copies the characters at `from..to`.
pub fn copy_range(chars: &[char], from: usize, to: usize) -> (copy: Vec<char>)
    requires
        from <= to <= chars.len(),
    ensures
        copy@ == chars@.subrange(from as int, to as int),
{
    let mut copy: Vec<char> = Vec::new();
    let mut i: usize = from;
    while i < to
        invariant
            from <= i <= to <= chars.len(),
            copy@ == chars@.subrange(from as int, i as int),
        decreases to - i,
    {
        copy.push(chars[i]);
        assert(chars@.subrange(from as int, i as int).push(chars@[i as int]) =~= chars@.subrange(
            from as int,
            i + 1,
        ));
        i += 1;
    }
    copy
}

/// Copies the characters at `from..to` without the blanks at either end.
pub fn trimmed(chars: &[char], from: usize, to: usize) -> (copy: Vec<char>)
    requires
        from <= to <= chars.len(),
    ensures
        copy@ == trim(chars@.subrange(from as int, to as int)),
{
    let ghost part = chars@.subrange(from as int, to as int);
    let mut a: usize = from;
    while a < to && blank(chars[a])
        invariant
            from <= a <= to <= chars.len(),
            part == chars@.subrange(from as int, to as int),
            skip_blanks(part, 0) == skip_blanks(part, a - from),
        decreases to - a,
    {
        a += 1;
    }
    let ghost rest = chars@.subrange(a as int, to as int);
    assert(rest =~= trim_start(part));
    let mut b: usize = to;
    while b > a && blank(chars[b - 1])
        invariant
            a <= b <= to <= chars.len(),
            rest == chars@.subrange(a as int, to as int),
            trim_end(rest) == trim_end(chars@.subrange(a as int, b as int)),
        decreases b - a,
    {
        assert(chars@.subrange(a as int, b as int).drop_last() =~= chars@.subrange(
            a as int,
            b - 1,
        ));
        b -= 1;
    }
    copy_range(chars, a, b)
}

/// Whether two texts hold the same characters.
pub fn same_chars(a: &[char], b: &[char]) -> (same: bool)
    ensures
        same == (a@ == b@),
{
    if a.len() != b.len() {
        return false;
    }
    let mut i: usize = 0;
    while i < a.len()
        invariant
            a.len() == b.len(),
            i <= a.len(),
            forall|k: int| 0 <= k < i ==> a@[k] == b@[k],
        decreases a.len() - i,
    {
        if a[i] != b[i] {
            return false;
        }
        i += 1;
    }
    assert(a@ =~= b@);
    true
}

/// Whether `needle` stands in the text at position `i`.
pub open spec fn occurs_at(text: Seq<char>, needle: Seq<char>, i: int) -> bool {
    0 <= i && i + needle.len() <= text.len() && text.subrange(i, i + needle.len()) == needle
}

/// Tests whether `needle` stands in the text at position `i`.
pub fn found_at(chars: &[char], needle: &[char], i: usize) -> (yes: bool)
    requires
        i <= chars.len(),
    ensures
        yes == occurs_at(chars@, needle@, i as int),
{
    if needle.len() > chars.len() - i {
        return false;
    }
    let mut k: usize = 0;
    while k < needle.len()
        invariant
            i + needle.len() <= chars.len(),
            k <= needle.len(),
            forall|j: int| 0 <= j < k ==> chars@[i + j] == needle@[j],
        decreases needle.len() - k,
    {
        if chars[i + k] != needle[k] {
            assert(chars@.subrange(i as int, i + needle.len())[k as int] != needle@[k as int]);
            return false;
        }
        k += 1;
    }
    assert(chars@.subrange(i as int, i + needle.len()) =~= needle@);
    true
}

/// The first position from `i` on at which `needle` stands, or the length
/// of the text where it stands at none.
pub open spec fn find(text: Seq<char>, needle: Seq<char>, i: int) -> int
    decreases text.len() - i,
{
    if 0 <= i < text.len() && !occurs_at(text, needle, i) {
        find(text, needle, i + 1)
    } else {
        i
    }
}

/// Searches for `needle` from position `i` on.
pub fn search(chars: &[char], needle: &[char], i: usize) -> (at: usize)
    requires
        i <= chars.len(),
    ensures
        at == find(chars@, needle@, i as int),
        i <= at <= chars.len(),
        at < chars.len() ==> occurs_at(chars@, needle@, at as int),
{
    let mut k: usize = i;
    while k < chars.len() && !found_at(chars, needle, k)
        invariant
            i <= k <= chars.len(),
            find(chars@, needle@, i as int) == find(chars@, needle@, k as int),
        decreases chars.len() - k,
    {
        k += 1;
    }
    k
}

/// How often `needle` stands in the text from position `i` on, each
/// occurrence counted after the end of the one before.
pub open spec fn count_from(text: Seq<char>, needle: Seq<char>, i: int) -> nat
    decreases text.len() - i,
{
    if needle.len() == 0 || !(0 <= i < text.len()) {
        0
    } else if occurs_at(text, needle, i) {
        1 + count_from(text, needle, i + needle.len())
    } else {
        count_from(text, needle, i + 1)
    }
}

/// Counts the occurrences of a text. An empty text occurs nowhere.
pub fn count(chars: &[char], needle: &[char]) -> (n: usize)
    ensures
        n == count_from(chars@, needle@, 0),
{
    if needle.len() == 0 {
        return 0;
    }
    let mut n: usize = 0;
    let mut i: usize = 0;
    while i < chars.len()
        invariant
            needle.len() > 0,
            i <= chars.len(),
            n <= i,
            n + count_from(chars@, needle@, i as int) == count_from(chars@, needle@, 0),
        decreases chars.len() - i,
    {
        if found_at(chars, needle, i) {
            n += 1;
            i += needle.len();
        } else {
            i += 1;
        }
    }
    n
}

/// The text from position `i` on with every occurrence of `needle`
/// replaced, each occurrence sought after the end of the one before.
pub open spec fn replace_from(
    text: Seq<char>,
    needle: Seq<char>,
    replacement: Seq<char>,
    i: int,
) -> Seq<char>
    decreases text.len() - i,
{
    if needle.len() == 0 || !(0 <= i < text.len()) {
        text.skip(i)
    } else if occurs_at(text, needle, i) {
        replacement + replace_from(text, needle, replacement, i + needle.len())
    } else {
        seq![text[i]] + replace_from(text, needle, replacement, i + 1)
    }
}

/// The text with every occurrence of `needle` replaced.
pub open spec fn replace_all(text: Seq<char>, needle: Seq<char>, replacement: Seq<char>) -> Seq<
    char,
> {
    replace_from(text, needle, replacement, 0)
}

/// Replaces every occurrence of a text. An empty text occurs nowhere.
pub fn replaced(chars: &[char], needle: &[char], replacement: &[char]) -> (result: Vec<char>)
    ensures
        result@ == replace_all(chars@, needle@, replacement@),
{
    if needle.len() == 0 {
        let copy = copy_range(chars, 0, chars.len());
        assert(copy@ =~= chars@.skip(0));
        return copy;
    }
    let mut result: Vec<char> = Vec::new();
    let mut i: usize = 0;
    while i < chars.len()
        invariant
            needle.len() > 0,
            i <= chars.len(),
            result@ + replace_from(chars@, needle@, replacement@, i as int) == replace_all(
                chars@,
                needle@,
                replacement@,
            ),
        decreases chars.len() - i,
    {
        let ghost before = result@;
        if found_at(chars, needle, i) {
            let mut k: usize = 0;
            while k < replacement.len()
                invariant
                    k <= replacement.len(),
                    result@ == before + replacement@.subrange(0, k as int),
                decreases replacement.len() - k,
            {
                result.push(replacement[k]);
                assert(replacement@.subrange(0, k as int).push(replacement@[k as int])
                    =~= replacement@.subrange(0, k + 1));
                k += 1;
            }
            assert(replacement@.subrange(0, replacement.len() as int) =~= replacement@);
            assert(result@ + replace_from(chars@, needle@, replacement@, i + needle.len())
                =~= before + replace_from(chars@, needle@, replacement@, i as int));
            i += needle.len();
        } else {
            result.push(chars[i]);
            assert(result@ + replace_from(chars@, needle@, replacement@, i + 1) =~= before
                + replace_from(chars@, needle@, replacement@, i as int));
            i += 1;
        }
    }
    assert(replace_from(chars@, needle@, replacement@, i as int) =~= Seq::<char>::empty());
    assert(result@ + Seq::<char>::empty() =~= result@);
    result
}

/// The pieces of the text from position `i` on that lie between the
/// occurrences of a separator. A text without the separator is one piece;
/// a separator at the end leaves an empty last piece.
pub open spec fn split_from(text: Seq<char>, separator: Seq<char>, i: int) -> Seq<Seq<char>>
    decreases text.len() - i,
{
    let at = find(text, separator, i);
    if separator.len() > 0 && 0 <= i <= at < text.len() && occurs_at(text, separator, at) {
        seq![text.subrange(i, at)] + split_from(text, separator, at + separator.len())
    } else {
        seq![text.skip(i)]
    }
}

/// The pieces of a text between the occurrences of a separator.
pub open spec fn split(text: Seq<char>, separator: Seq<char>) -> Seq<Seq<char>> {
    split_from(text, separator, 0)
}

/// The character sequences of a list of texts.
pub open spec fn pieces_view(pieces: Seq<Vec<char>>) -> Seq<Seq<char>> {
    Seq::new(pieces.len(), |i: int| pieces[i]@)
}

/// Splits a text at the occurrences of a separator. An empty separator
/// occurs nowhere: the text is one piece.
pub fn split_at_separator(chars: &[char], separator: &[char]) -> (pieces: Vec<Vec<char>>)
    ensures
        pieces_view(pieces@) == split(chars@, separator@),
{
    let mut pieces: Vec<Vec<char>> = Vec::new();
    if separator.len() == 0 {
        let piece = copy_range(chars, 0, chars.len());
        assert(piece@ =~= chars@.skip(0));
        assert(pieces_view(pieces@.push(piece)) =~= seq![piece@]);
        pieces.push(piece);
        return pieces;
    }
    let mut i: usize = 0;
    assert(pieces_view(pieces@) =~= Seq::<Seq<char>>::empty());
    loop
        invariant_except_break
            separator.len() > 0,
            i <= chars.len(),
            pieces_view(pieces@) + split_from(chars@, separator@, i as int) == split(
                chars@,
                separator@,
            ),
        ensures
            pieces_view(pieces@) == split(chars@, separator@),
        decreases chars.len() - i,
    {
        let ghost before = pieces_view(pieces@);
        let at = search(chars, separator, i);
        if at < chars.len() {
            let piece = copy_range(chars, i, at);
            assert(pieces_view(pieces@.push(piece)) =~= before.push(piece@));
            pieces.push(piece);
            assert(pieces_view(pieces@) + split_from(chars@, separator@, at + separator.len())
                =~= before + split_from(chars@, separator@, i as int));
            i = at + separator.len();
        } else {
            let piece = copy_range(chars, i, chars.len());
            assert(piece@ =~= chars@.skip(i as int));
            assert(pieces_view(pieces@.push(piece)) =~= before.push(piece@));
            pieces.push(piece);
            assert(pieces_view(pieces@) =~= before + split_from(chars@, separator@, i as int));
            break ;
        }
    }
    pieces
}

/// The character for a digit's value.
pub open spec fn digit_char(d: int) -> char {
    if d == 0 {
        '0'
    } else if d == 1 {
        '1'
    } else if d == 2 {
        '2'
    } else if d == 3 {
        '3'
    } else if d == 4 {
        '4'
    } else if d == 5 {
        '5'
    } else if d == 6 {
        '6'
    } else if d == 7 {
        '7'
    } else if d == 8 {
        '8'
    } else {
        '9'
    }
}

/// The digits of a natural number in base ten, without leading zeros.
pub open spec fn decimal_digits(n: nat) -> Seq<char>
    decreases n,
{
    if n < 10 {
        seq![digit_char(n as int)]
    } else {
        decimal_digits(n / 10).push(digit_char((n % 10) as int))
    }
}

/// An integer in base ten, with a minus sign where it is negative.
pub open spec fn decimal_text(n: int) -> Seq<char> {
    if n < 0 {
        seq!['-'] + decimal_digits((-n) as nat)
    } else {
        decimal_digits(n as nat)
    }
}

/// The character for a digit's value.
fn digit_of(d: u64) -> (c: char)
    requires
        d < 10,
    ensures
        c == digit_char(d as int),
{
    if d == 0 {
        '0'
    } else if d == 1 {
        '1'
    } else if d == 2 {
        '2'
    } else if d == 3 {
        '3'
    } else if d == 4 {
        '4'
    } else if d == 5 {
        '5'
    } else if d == 6 {
        '6'
    } else if d == 7 {
        '7'
    } else if d == 8 {
        '8'
    } else {
        '9'
    }
}

/// Appends the digits of a number to a text.
pub fn push_decimal(text: &mut String, n: u64)
    ensures
        final(text)@ == old(text)@ + decimal_digits(n as nat),
    decreases n,
{
    if n >= 10 {
        push_decimal(text, n / 10);
    }
    text.push(digit_of(n % 10));
    assert(text@ =~= old(text)@ + decimal_digits(n as nat));
}

/// Appends an integer in base ten to a text.
pub fn push_integer(text: &mut String, n: i64)
    ensures
        final(text)@ == old(text)@ + decimal_text(n as int),
{
    if n < 0 {
        text.push('-');
        let magnitude: u64 = ((-(n + 1)) as u64) + 1;
        push_decimal(text, magnitude);
        assert(text@ =~= old(text)@ + decimal_text(n as int));
    } else {
        push_decimal(text, n as u64);
    }
}

/// Appends a text to a text.
pub fn push_text(text: &mut String, more: &str)
    ensures
        final(text)@ == old(text)@ + more@,
{
    let chars = chars_of(more);
    let mut i: usize = 0;
    while i < chars.len()
        invariant
            i <= chars.len(),
            chars@ == more@,
            text@ == old(text)@ + chars@.subrange(0, i as int),
        decreases chars.len() - i,
    {
        text.push(chars[i]);
        assert(text@ =~= old(text)@ + chars@.subrange(0, i + 1));
        i += 1;
    }
    assert(chars@.subrange(0, chars.len() as int) =~= chars@);
}

} // verus!

//! Character-level operations on text: splitting, trimming, joining and
//! decimal numbers. Every contract speaks of text as a sequence of characters.

use vstd::prelude::*;
use vstd::utf8::{decode_utf8, valid_utf8};

verus! {

/// `String::push` appends the character to the end of the string.
pub assume_specification[ String::push ](text: &mut String, c: char)
    ensures
        final(text)@ == old(text)@.push(c),
;

/// `String::from_utf8` reads bytes as UTF-8, and fails where they are not.
#[verifier::external_body]
pub(crate) fn utf8_text(bytes: Vec<u8>) -> (res: Option<String>)
    ensures
        match res {
            Some(text) => valid_utf8(bytes@) && text@ == decode_utf8(bytes@),
            None => !valid_utf8(bytes@),
        },
{
    String::from_utf8(bytes).ok()
}

/// The characters of `text`, in order.
pub fn chars_of(text: &str) -> (chars: Vec<char>)
    ensures
        chars@ == text@,
{
    let mut chars: Vec<char> = Vec::new();
    for c in it: text.chars()
        invariant
            it.seq() == text@,
            chars@ == it.seq().take(it.index()),
    {
        chars.push(c);
    }
    chars
}

/// The text made of `chars[from..to]`.
pub fn text_between(chars: &Vec<char>, from: usize, to: usize) -> (text: String)
    requires
        from <= to <= chars.len(),
    ensures
        text@ == chars@.subrange(from as int, to as int),
{
    let mut text: String = String::new();
    let mut i: usize = from;
    while i < to
        invariant
            from <= i <= to <= chars.len(),
            text@ == chars@.subrange(from as int, i as int),
        decreases to - i,
    {
        text.push(chars[i]);
        i += 1;
    }
    text
}

/// Whether two texts hold the same characters.
pub fn same(left: &str, right: &str) -> (res: bool)
    ensures
        res == (left@ == right@),
{
    let a = chars_of(left);
    let b = chars_of(right);
    if a.len() != b.len() {
        return false;
    }
    let mut i: usize = 0;
    while i < a.len()
        invariant
            a@ == left@,
            b@ == right@,
            a.len() == b.len(),
            0 <= i <= a.len(),
            a@.take(i as int) == b@.take(i as int),
        decreases a.len() - i,
    {
        if a[i] != b[i] {
            return false;
        }
        assert(a@.take(i + 1) =~= a@.take(i as int).push(a@[i as int]));
        assert(b@.take(i + 1) =~= b@.take(i as int).push(b@[i as int]));
        i += 1;
    }
    assert(a@.take(i as int) =~= a@);
    assert(b@.take(i as int) =~= b@);
    true
}

/// The characters of Unicode's `White_Space` property.
pub open spec fn white_space(c: char) -> bool {
    ||| '\u{9}' <= c <= '\u{d}'
    ||| c == '\u{20}'
    ||| c == '\u{85}'
    ||| c == '\u{a0}'
    ||| c == '\u{1680}'
    ||| '\u{2000}' <= c <= '\u{200a}'
    ||| c == '\u{2028}'
    ||| c == '\u{2029}'
    ||| c == '\u{202f}'
    ||| c == '\u{205f}'
    ||| c == '\u{3000}'
}

/// Whether `c` is white space.
pub fn is_white_space(c: char) -> (res: bool)
    ensures
        res == white_space(c),
{
    ('\u{9}' <= c && c <= '\u{d}') || c == '\u{20}' || c == '\u{85}' || c == '\u{a0}' || c
        == '\u{1680}' || ('\u{2000}' <= c && c <= '\u{200a}') || c == '\u{2028}' || c == '\u{2029}'
        || c == '\u{202f}' || c == '\u{205f}' || c == '\u{3000}'
}

/// `text` without the white space at its end.
pub open spec fn trim_end(text: Seq<char>) -> Seq<char>
    decreases text.len(),
{
    if text.len() > 0 && white_space(text.last()) {
        trim_end(text.drop_last())
    } else {
        text
    }
}

/// `text` without the white space at its start.
pub open spec fn trim_start(text: Seq<char>) -> Seq<char>
    decreases text.len(),
{
    if text.len() > 0 && white_space(text.first()) {
        trim_start(text.drop_first())
    } else {
        text
    }
}

/// `text` without the white space at either end.
pub open spec fn trim(text: Seq<char>) -> Seq<char> {
    trim_end(trim_start(text))
}

/// Whether `text` is empty or holds white space only.
pub open spec fn blank(text: Seq<char>) -> bool {
    forall|i: int| 0 <= i < text.len() ==> white_space(#[trigger] text[i])
}

/// Text that ends in something other than white space keeps its end.
pub proof fn trim_end_keeps(text: Seq<char>)
    requires
        text.len() == 0 || !white_space(text.last()),
    ensures
        trim_end(text) == text,
{
}

/// Trimming leaves nothing exactly where there is only white space.
pub proof fn trim_empty_iff_blank(text: Seq<char>)
    ensures
        trim(text).len() == 0 <==> blank(text),
    decreases text.len(),
{
    if text.len() > 0 && white_space(text.first()) {
        trim_empty_iff_blank(text.drop_first());
        assert(blank(text) <==> blank(text.drop_first())) by {
            if blank(text.drop_first()) {
                assert forall|i: int| 0 <= i < text.len() implies white_space(
                    #[trigger] text[i],
                ) by {
                    if i > 0 {
                        assert(text.drop_first()[i - 1] == text[i]);
                    }
                }
            }
            if blank(text) {
                assert forall|i: int| 0 <= i < text.drop_first().len() implies white_space(
                    #[trigger] text.drop_first()[i],
                ) by {
                    assert(text[i + 1] == text.drop_first()[i]);
                }
            }
        }
    } else if text.len() > 0 {
        trim_end_nonempty(text, 0);
        assert(!white_space(text[0]));
    }
}

/// White space put before a text is trimmed from its start.
pub proof fn trim_start_of_padded(left: Seq<char>, text: Seq<char>)
    requires
        blank(left),
    ensures
        trim_start(left + text) == trim_start(text),
    decreases left.len(),
{
    if left.len() == 0 {
        assert(left + text =~= text);
    } else {
        let less = left.drop_first();
        assert(white_space(left[0]));
        assert forall|i: int| 0 <= i < less.len() implies white_space(#[trigger] less[i]) by {
            assert(white_space(left[i + 1]));
        }
        trim_start_of_padded(less, text);
        assert((left + text).drop_first() =~= less + text);
    }
}

/// White space put behind a text is trimmed from its end.
pub proof fn trim_end_of_padded(text: Seq<char>, right: Seq<char>)
    requires
        blank(right),
    ensures
        trim_end(text + right) == trim_end(text),
    decreases right.len(),
{
    if right.len() == 0 {
        assert(text + right =~= text);
    } else {
        let less = right.drop_last();
        assert(white_space(right[right.len() - 1]));
        assert forall|i: int| 0 <= i < less.len() implies white_space(#[trigger] less[i]) by {
            assert(white_space(right[i]));
        }
        trim_end_of_padded(text, less);
        assert((text + right).drop_last() =~= text + less);
    }
}

/// Trimming the start of a text that holds more than white space leaves alone
/// what comes behind the text.
pub proof fn trim_start_keeps_tail(text: Seq<char>, tail: Seq<char>)
    requires
        !blank(text),
    ensures
        trim_start(text + tail) == trim_start(text) + tail,
    decreases text.len(),
{
    let at = choose|i: int| 0 <= i < text.len() && !white_space(#[trigger] text[i]);
    assert((text + tail).first() == text.first());
    if white_space(text.first()) {
        let less = text.drop_first();
        assert(less[at - 1] == text[at]);
        trim_start_keeps_tail(less, tail);
        assert((text + tail).drop_first() =~= less + tail);
    }
}

/// White space around a text is trimmed.
pub proof fn trim_of_padded(left: Seq<char>, text: Seq<char>, right: Seq<char>)
    requires
        blank(left),
        blank(right),
    ensures
        trim(left + text + right) == trim(text),
{
    let padded = left + text + right;
    assert(padded =~= left + (text + right));
    trim_start_of_padded(left, text + right);
    if blank(text) {
        assert(blank(padded)) by {
            assert forall|i: int| 0 <= i < padded.len() implies white_space(
                #[trigger] padded[i],
            ) by {
                if i < left.len() {
                    assert(white_space(left[i]));
                } else if i < left.len() + text.len() {
                    assert(white_space(text[i - left.len()]));
                } else {
                    assert(white_space(right[i - left.len() - text.len()]));
                }
            }
        }
        trim_empty_iff_blank(padded);
        trim_empty_iff_blank(text);
        assert(trim(padded) =~= trim(text));
    } else {
        trim_start_keeps_tail(text, right);
        trim_end_of_padded(trim_start(text), right);
    }
}

proof fn trim_end_nonempty(text: Seq<char>, at: int)
    requires
        0 <= at < text.len(),
        !white_space(text[at]),
    ensures
        trim_end(text).len() > at,
    decreases text.len(),
{
    if white_space(text.last()) {
        trim_end_nonempty(text.drop_last(), at);
    }
}

/// `text` without the white space at its end.
pub fn trimmed_end(text: &str) -> (res: String)
    ensures
        res@ == trim_end(text@),
{
    let chars = chars_of(text);
    let mut to: usize = chars.len();
    assert(chars@.take(to as int) =~= chars@);
    while to > 0 && is_white_space(chars[to - 1])
        invariant
            to <= chars.len(),
            trim_end(chars@) == trim_end(chars@.take(to as int)),
        decreases to,
    {
        assert(chars@.take(to as int).drop_last() =~= chars@.take(to - 1));
        to -= 1;
    }
    assert(chars@.subrange(0, to as int) =~= chars@.take(to as int));
    text_between(&chars, 0, to)
}

/// `text` without the white space at either end.
pub fn trimmed(text: &str) -> (res: String)
    ensures
        res@ == trim(text@),
{
    let chars = chars_of(text);
    let mut from: usize = 0;
    assert(chars@.skip(0) =~= chars@);
    while from < chars.len() && is_white_space(chars[from])
        invariant
            from <= chars.len(),
            trim_start(chars@) == trim_start(chars@.skip(from as int)),
        decreases chars.len() - from,
    {
        assert(chars@.skip(from as int).drop_first() =~= chars@.skip(from + 1));
        from += 1;
    }
    let ghost start = chars@.skip(from as int);
    assert(trim_start(chars@) == start);
    let mut to: usize = chars.len();
    assert(chars@.subrange(from as int, to as int) =~= start);
    while to > from && is_white_space(chars[to - 1])
        invariant
            from <= to <= chars.len(),
            trim_end(start) == trim_end(chars@.subrange(from as int, to as int)),
        decreases to,
    {
        assert(chars@.subrange(from as int, to as int).drop_last() =~= chars@.subrange(
            from as int,
            to - 1,
        ));
        to -= 1;
    }
    text_between(&chars, from, to)
}

/// The pieces of `text` between occurrences of `separator`; a text without a
/// separator is one piece.
pub open spec fn split(text: Seq<char>, separator: char) -> Seq<Seq<char>>
    decreases text.len(),
{
    if text.len() == 0 {
        seq![Seq::<char>::empty()]
    } else {
        let before = split(text.drop_last(), separator);
        if text.last() == separator {
            before.push(Seq::empty())
        } else {
            before.drop_last().push(before.last().push(text.last()))
        }
    }
}

/// Whether `c` does not occur in `text`.
pub open spec fn free_of(text: Seq<char>, c: char) -> bool {
    forall|i: int| 0 <= i < text.len() ==> #[trigger] text[i] != c
}

/// A split text has at least one piece.
pub proof fn split_nonempty(text: Seq<char>, separator: char)
    ensures
        split(text, separator).len() >= 1,
    decreases text.len(),
{
    if text.len() > 0 {
        split_nonempty(text.drop_last(), separator);
    }
}

/// Text without the separator is a single piece.
pub proof fn split_single(text: Seq<char>, separator: char)
    requires
        free_of(text, separator),
    ensures
        split(text, separator) == seq![text],
    decreases text.len(),
{
    if text.len() > 0 {
        assert forall|i: int| 0 <= i < text.drop_last().len() implies #[trigger] text.drop_last()[i]
            != separator by {
            assert(text[i] != separator);
        }
        split_single(text.drop_last(), separator);
        assert(text.last() != separator);
        assert(text.drop_last().push(text.last()) =~= text);
        assert(split(text, separator) =~= seq![text]);
    } else {
        assert(text =~= Seq::empty());
    }
}

proof fn fewer_pieces_behind_the_first(text: Seq<char>, separator: char)
    requires
        text.len() > 0,
    ensures
        split(text.drop_first(), separator).len() <= split(text, separator).len(),
    decreases text.len(),
{
    split_nonempty(text, separator);
    if text.len() == 1 {
        assert(text.drop_first() =~= Seq::empty());
    } else {
        let less = text.drop_last();
        fewer_pieces_behind_the_first(less, separator);
        split_nonempty(less, separator);
        split_nonempty(less.drop_first(), separator);
        assert(text.drop_first().drop_last() =~= less.drop_first());
        assert(text.drop_first().last() == text.last());
    }
}

/// Trimming the start of a text adds no pieces, and no character.
pub proof fn trim_start_adds_nothing(text: Seq<char>, separator: char)
    ensures
        split(trim_start(text), separator).len() <= split(text, separator).len(),
        free_of(text, separator) ==> free_of(trim_start(text), separator),
    decreases text.len(),
{
    if text.len() > 0 && white_space(text.first()) {
        let less = text.drop_first();
        fewer_pieces_behind_the_first(text, separator);
        trim_start_adds_nothing(less, separator);
        if free_of(text, separator) {
            assert forall|i: int| 0 <= i < less.len() implies #[trigger] less[i] != separator by {
                assert(text[i + 1] != separator);
            }
        }
    }
}

/// A piece added behind a separator becomes the last piece.
pub proof fn split_append(text: Seq<char>, separator: char, piece: Seq<char>)
    requires
        free_of(piece, separator),
    ensures
        split(text.push(separator) + piece, separator) == split(text, separator).push(piece),
    decreases piece.len(),
{
    let whole = text.push(separator) + piece;
    if piece.len() == 0 {
        assert(whole =~= text.push(separator));
        assert(whole.drop_last() =~= text);
        assert(piece =~= Seq::empty());
    } else {
        assert forall|i: int| 0 <= i < piece.drop_last().len() implies #[trigger] piece.drop_last()[i]
            != separator by {
            assert(piece[i] != separator);
        }
        split_append(text, separator, piece.drop_last());
        assert(whole.drop_last() =~= text.push(separator) + piece.drop_last());
        assert(whole.last() == piece.last());
        assert(piece.last() != separator);
        assert(piece.drop_last().push(piece.last()) =~= piece);
        let before = split(text, separator).push(piece.drop_last());
        assert(before.drop_last() =~= split(text, separator));
    }
}

/// The views of a list of strings.
pub open spec fn texts(parts: Seq<String>) -> Seq<Seq<char>> {
    Seq::new(parts.len(), |i: int| parts[i]@)
}

/// The pieces of `text` between occurrences of `separator`.
pub fn split_at_char(text: &str, separator: char) -> (parts: Vec<String>)
    ensures
        texts(parts@) == split(text@, separator),
{
    let chars = chars_of(text);
    let mut parts: Vec<String> = Vec::new();
    let mut piece: String = String::new();
    let mut i: usize = 0;
    assert(texts(parts@).push(piece@) =~= split(chars@.take(0), separator));
    while i < chars.len()
        invariant
            i <= chars.len(),
            texts(parts@).push(piece@) == split(chars@.take(i as int), separator),
        decreases chars.len() - i,
    {
        let ghost sofar = chars@.take(i as int);
        let ghost done = texts(parts@);
        let ghost open = piece@;
        assert(chars@.take(i + 1).drop_last() =~= sofar);
        assert(done.push(open).drop_last() =~= done);
        let c = chars[i];
        if c == separator {
            parts.push(piece);
            piece = String::new();
            assert(texts(parts@) =~= done.push(open));
        } else {
            piece.push(c);
        }
        i += 1;
    }
    assert(chars@.take(i as int) =~= chars@);
    let ghost done = texts(parts@);
    let ghost open = piece@;
    parts.push(piece);
    assert(texts(parts@) =~= done.push(open));
    parts
}

/// `line` without one carriage return at its end.
pub open spec fn strip_cr(line: Seq<char>) -> Seq<char> {
    if line.len() > 0 && line.last() == '\r' {
        line.drop_last()
    } else {
        line
    }
}

/// The lines of `text`. A line ends with a line feed, or with a carriage
/// return and a line feed; the ending of the last line may be absent.
pub open spec fn lines(text: Seq<char>) -> Seq<Seq<char>> {
    let pieces = split(text, '\n');
    let ended = pieces.drop_last().map_values(|line: Seq<char>| strip_cr(line));
    if pieces.last().len() == 0 {
        ended
    } else {
        ended.push(pieces.last())
    }
}

/// A complete line put behind a text that is empty or ends with a line feed is
/// its next line.
pub proof fn lines_append(text: Seq<char>, line: Seq<char>)
    requires
        text.len() == 0 || text.last() == '\n',
        free_of(line, '\n'),
    ensures
        lines(text + line.push('\n')) == lines(text).push(strip_cr(line)),
{
    let whole = text + line.push('\n');
    let body = text + line;
    assert(whole.drop_last() =~= body);
    assert(whole.last() == '\n');
    assert(split(whole, '\n') == split(body, '\n').push(Seq::empty()));
    let pieces = split(whole, '\n');
    assert(pieces.drop_last() =~= split(body, '\n'));
    let before = split(text, '\n');
    if text.len() == 0 {
        assert(body =~= line);
        split_single(line, '\n');
        assert(lines(text) =~= Seq::empty());
    } else {
        assert(body =~= text.drop_last().push('\n') + line);
        split_append(text.drop_last(), '\n', line);
        assert(before.drop_last() =~= split(text.drop_last(), '\n'));
        assert(before.last().len() == 0);
    }
    assert(lines(whole) =~= lines(text).push(strip_cr(line)));
}

/// The lines of `text`.
pub fn lines_of(text: &str) -> (res: Vec<String>)
    ensures
        texts(res@) == lines(text@),
{
    let mut parts = split_at_char(text, '\n');
    let ghost pieces = split(text@, '\n');
    proof {
        split_nonempty(text@, '\n');
    }
    let mut res: Vec<String> = Vec::new();
    let mut i: usize = 0;
    while i < parts.len() - 1
        invariant
            texts(parts@) == pieces,
            pieces.len() >= 1,
            i <= parts.len() - 1,
            texts(res@) == pieces.take(i as int).map_values(|line: Seq<char>| strip_cr(line)),
        decreases parts.len() - i,
    {
        let ghost before = texts(res@);
        let chars = chars_of(parts[i].as_str());
        assert(chars@ == pieces[i as int]);
        let len: usize = chars.len();
        let line = if len > 0 && chars[len - 1] == '\r' {
            text_between(&chars, 0, len - 1)
        } else {
            text_between(&chars, 0, len)
        };
        assert(line@ =~= strip_cr(chars@));
        res.push(line);
        assert(texts(res@) =~= before.push(line@));
        assert(texts(res@) =~= pieces.take(i + 1).map_values(|line: Seq<char>| strip_cr(line)));
        i += 1;
    }
    assert(pieces.take(i as int) =~= pieces.drop_last());
    let last = parts.pop();
    match last {
        Some(line) => {
            assert(line@ == pieces.last());
            if !line.as_str().is_empty() {
                let ghost before = texts(res@);
                res.push(line);
                assert(texts(res@) =~= before.push(line@));
            }
        },
        None => {},
    }
    assert(texts(res@) =~= lines(text@));
    res
}

/// `parts` in order, with `separator` between each two.
pub open spec fn join(parts: Seq<Seq<char>>, separator: Seq<char>) -> Seq<char>
    decreases parts.len(),
{
    if parts.len() == 0 {
        Seq::empty()
    } else if parts.len() == 1 {
        parts[0]
    } else {
        join(parts.drop_last(), separator) + separator + parts.last()
    }
}

/// `parts` in order, with `separator` between each two.
pub fn joined(parts: &[String], separator: &str) -> (res: String)
    ensures
        res@ == join(texts(parts@), separator@),
{
    let mut res: String = String::new();
    let mut i: usize = 0;
    while i < parts.len()
        invariant
            i <= parts.len(),
            res@ == join(texts(parts@).take(i as int), separator@),
        decreases parts.len() - i,
    {
        if i > 0 {
            res.append(separator);
        }
        res.append(parts[i].as_str());
        assert(texts(parts@).take(i + 1).drop_last() =~= texts(parts@).take(i as int));
        i += 1;
    }
    assert(texts(parts@).take(i as int) =~= texts(parts@));
    res
}

/// Pieces without the separator, joined by it, split into the same pieces.
pub proof fn split_joined(parts: Seq<Seq<char>>, separator: char)
    requires
        parts.len() > 0,
        forall|i: int| 0 <= i < parts.len() ==> free_of(#[trigger] parts[i], separator),
    ensures
        split(join(parts, seq![separator]), separator) == parts,
    decreases parts.len(),
{
    if parts.len() == 1 {
        split_single(parts[0], separator);
        assert(parts =~= seq![parts[0]]);
    } else {
        let before = parts.drop_last();
        assert forall|i: int| 0 <= i < before.len() implies free_of(
            #[trigger] before[i],
            separator,
        ) by {
            assert(before[i] == parts[i]);
        }
        split_joined(before, separator);
        assert(free_of(parts[parts.len() - 1], separator));
        split_append(join(before, seq![separator]), separator, parts.last());
        assert(join(before, seq![separator]) + seq![separator] =~= join(
            before,
            seq![separator],
        ).push(separator));
        assert(before.push(parts.last()) =~= parts);
    }
}

/// Joined pieces hold no character that neither a piece nor the separator
/// holds.
pub proof fn join_free_of(parts: Seq<Seq<char>>, separator: Seq<char>, c: char)
    requires
        free_of(separator, c),
        forall|i: int| 0 <= i < parts.len() ==> free_of(#[trigger] parts[i], c),
    ensures
        free_of(join(parts, separator), c),
    decreases parts.len(),
{
    if parts.len() == 1 {
        assert(free_of(parts[0], c));
    } else if parts.len() > 1 {
        let before = parts.drop_last();
        assert forall|i: int| 0 <= i < before.len() implies free_of(#[trigger] before[i], c) by {
            assert(before[i] == parts[i]);
        }
        join_free_of(before, separator, c);
        assert(free_of(parts[parts.len() - 1], c));
    }
}

/// The decimal digit of value `digit`.
pub open spec fn digit_char(digit: int) -> char {
    (48 + digit) as char
}

/// Whether `c` is a decimal digit.
pub open spec fn is_digit(c: char) -> bool {
    '0' <= c <= '9'
}

/// The decimal notation of `number`, without leading zeros.
pub open spec fn decimal(number: nat) -> Seq<char>
    decreases number,
{
    if number < 10 {
        seq![digit_char(number as int)]
    } else {
        decimal(number / 10).push(digit_char((number % 10) as int))
    }
}

/// The decimal notation of `number`.
pub fn decimal_text(number: u64) -> (res: String)
    ensures
        res@ == decimal(number as nat),
    decreases number,
{
    let last: u8 = (number % 10) as u8;
    let c = (48u8 + last) as char;
    assert(c == digit_char((number % 10) as int));
    if number < 10 {
        let mut res: String = String::new();
        res.push(c);
        assert(res@ =~= seq![digit_char(number as int)]);
        res
    } else {
        let mut res = decimal_text(number / 10);
        res.push(c);
        res
    }
}

/// The number that a sequence of decimal digits writes.
pub open spec fn digits_value(digits: Seq<char>) -> nat
    decreases digits.len(),
{
    if digits.len() == 0 {
        0
    } else {
        digits_value(digits.drop_last()) * 10 + (digits.last() as int - 48) as nat
    }
}

/// Whether every character is a decimal digit and there is at least one.
pub open spec fn all_digits(text: Seq<char>) -> bool {
    text.len() > 0 && forall|i: int| 0 <= i < text.len() ==> is_digit(#[trigger] text[i])
}

/// `text` without one plus sign at its start.
pub open spec fn strip_plus(text: Seq<char>) -> Seq<char> {
    if text.len() > 0 && text[0] == '+' {
        text.drop_first()
    } else {
        text
    }
}

/// The number that `text` writes in decimal, an optional plus sign before it,
/// where it is at most `max`.
pub open spec fn parse_number(text: Seq<char>, max: nat) -> Option<nat> {
    let digits = strip_plus(text);
    if all_digits(digits) && digits_value(digits) <= max {
        Some(digits_value(digits))
    } else {
        None
    }
}

proof fn digits_value_prefix(digits: Seq<char>, len: int)
    requires
        0 <= len <= digits.len(),
    ensures
        digits_value(digits.take(len)) <= digits_value(digits),
    decreases digits.len(),
{
    if len < digits.len() {
        digits_value_prefix(digits.drop_last(), len);
        assert(digits.drop_last().take(len) =~= digits.take(len));
    } else {
        assert(digits.take(len) =~= digits);
    }
}

/// A decimal notation reads back as the number.
pub proof fn decimal_reads_back(number: nat)
    ensures
        parse_number(decimal(number), number) == Some(number),
{
    decimal_digits(number);
    assert(decimal(number)[0] != '+');
}

proof fn decimal_digits(number: nat)
    ensures
        all_digits(decimal(number)),
        digits_value(decimal(number)) == number,
    decreases number,
{
    if number < 10 {
        let d = seq![digit_char(number as int)];
        assert(d.drop_last() =~= Seq::empty());
        assert(digits_value(d.drop_last()) == 0);
    } else {
        decimal_digits(number / 10);
        let d = decimal(number);
        assert(d.drop_last() =~= decimal(number / 10));
    }
}

/// The number that `text` writes in decimal, where it is at most `max`.
pub fn number_of(text: &str, max: u64) -> (res: Option<u64>)
    ensures
        match res {
            Some(number) => parse_number(text@, max as nat) == Some(number as nat),
            None => parse_number(text@, max as nat) is None,
        },
{
    let chars = chars_of(text);
    let start: usize = if chars.len() > 0 && chars[0] == '+' {
        1
    } else {
        0
    };
    let ghost digits = strip_plus(text@);
    assert(digits =~= chars@.skip(start as int));
    if start == chars.len() {
        return None;
    }
    let mut value: u128 = 0;
    let mut i: usize = start;
    assert(digits.take(0) =~= Seq::empty());
    while i < chars.len()
        invariant
            start <= i <= chars.len(),
            digits == strip_plus(text@),
            digits == chars@.skip(start as int),
            value == digits_value(digits.take(i - start)),
            value <= max,
            forall|k: int| 0 <= k < i - start ==> is_digit(#[trigger] digits[k]),
        decreases chars.len() - i,
    {
        let c = chars[i];
        assert(digits[i - start] == c);
        if c < '0' || '9' < c {
            return None;
        }
        assert(digits.take(i + 1 - start).drop_last() =~= digits.take(i - start));
        value = value * 10 + (c as u32 - 48) as u128;
        if value > max as u128 {
            proof {
                digits_value_prefix(digits, i + 1 - start);
            }
            return None;
        }
        i += 1;
    }
    assert(digits.take(i - start) =~= digits);
    Some(value as u64)
}

/// Whether `text` starts with `prefix`.
pub open spec fn starts_with(text: Seq<char>, prefix: Seq<char>) -> bool {
    prefix.len() <= text.len() && text.take(prefix.len() as int) == prefix
}

/// The rest of `text` behind `prefix`, where `text` starts with it.
pub fn strip_prefix(text: &str, prefix: &str) -> (res: Option<String>)
    ensures
        match res {
            Some(rest) => starts_with(text@, prefix@) && rest@ == text@.skip(prefix@.len() as int),
            None => !starts_with(text@, prefix@),
        },
{
    let chars = chars_of(text);
    let lead = chars_of(prefix);
    if chars.len() < lead.len() {
        return None;
    }
    let head = text_between(&chars, 0, lead.len());
    assert(head@ =~= text@.take(prefix@.len() as int));
    if same(head.as_str(), prefix) {
        let rest = text_between(&chars, lead.len(), chars.len());
        assert(rest@ =~= text@.skip(prefix@.len() as int));
        Some(rest)
    } else {
        None
    }
}

/// A line without an ending, put behind a text that is empty or ends with a line
/// feed, is its last line.
pub proof fn unended_line_counts(text: Seq<char>, line: Seq<char>)
    requires
        text.len() == 0 || text.last() == '\n',
        free_of(line, '\n'),
        line.len() > 0,
    ensures
        lines(text + line) == lines(text).push(line),
{
    let whole = text + line;
    let before = split(text, '\n');
    if text.len() == 0 {
        assert(whole =~= line);
        split_single(line, '\n');
        assert(lines(text) =~= Seq::empty());
    } else {
        assert(whole =~= text.drop_last().push('\n') + line);
        split_append(text.drop_last(), '\n', line);
        assert(before.drop_last() =~= split(text.drop_last(), '\n'));
        assert(before.last().len() == 0);
    }
    assert(split(whole, '\n').drop_last() =~= if text.len() == 0 {
        Seq::empty()
    } else {
        split(text.drop_last(), '\n')
    });
    assert(lines(whole) =~= lines(text).push(line));
}

proof fn split_behind_separator(left: Seq<char>, right: Seq<char>, separator: char)
    requires
        left.len() > 0,
        left.last() == separator,
    ensures
        split(left + right, separator) == split(left.drop_last(), separator) + split(
            right,
            separator,
        ),
    decreases right.len(),
{
    let head = split(left.drop_last(), separator);
    if right.len() == 0 {
        assert(left + right =~= left);
        assert(split(left, separator) =~= head + split(right, separator));
    } else {
        let less = right.drop_last();
        split_behind_separator(left, less, separator);
        split_nonempty(less, separator);
        let before = split(less, separator);
        assert((left + right).drop_last() =~= left + less);
        assert((left + right).last() == right.last());
        assert((head + before).drop_last() =~= head + before.drop_last());
        assert((head + before).last() == before.last());
        assert(split(left + right, separator) =~= head + split(right, separator));
    }
}

/// The lines of two texts, the first of which is empty or ends with a line feed,
/// are those of the first and then those of the second.
pub proof fn lines_go_by_part(left: Seq<char>, right: Seq<char>)
    requires
        left.len() == 0 || left.last() == '\n',
    ensures
        lines(left + right) == lines(left) + lines(right),
{
    if left.len() == 0 {
        assert(left + right =~= right);
        assert(lines(left) =~= Seq::empty());
        assert(lines(left) + lines(right) =~= lines(right));
    } else {
        split_behind_separator(left, right, '\n');
        split_nonempty(right, '\n');
        let head = split(left.drop_last(), '\n');
        let tail = split(right, '\n');
        let all = split(left + right, '\n');
        assert(all == head + tail);
        assert(all.last() == tail.last());
        assert(all.drop_last() =~= head + tail.drop_last());
        assert(split(left, '\n').drop_last() =~= head);
        assert(split(left, '\n').last().len() == 0);
        assert(lines(left + right) =~= lines(left) + lines(right));
    }
}

/// A number is read as it is written, also with one plus sign before it. One
/// that is larger than allowed is none, and neither is one with a minus sign,
/// nor the empty text.
pub proof fn number_is_read_as_written(number: nat, max: nat)
    ensures
        number <= max ==> parse_number(decimal(number), max) == Some(number),
        number <= max ==> parse_number(seq!['+'] + decimal(number), max) == Some(number),
        number > max ==> parse_number(decimal(number), max) is None,
        parse_number(Seq::empty(), max) is None,
        parse_number(seq!['-'] + decimal(number), max) is None,
{
    decimal_digits(number);
    assert((seq!['+'] + decimal(number)).drop_first() =~= decimal(number));
    assert(decimal(number)[0] != '+');
    let negative = seq!['-'] + decimal(number);
    assert(!is_digit(negative[0]));
}

/// White space is what Unicode says it is: the control characters from tab to
/// carriage return and the next line, the spaces of all widths, and the line and
/// paragraph separators.
pub proof fn white_space_is_unicode(c: char)
    ensures
        white_space(c) == {
            let n = c as int;
            ||| 9 <= n <= 13 || n == 133
            ||| n == 32 || n == 160 || n == 5760 || 8192 <= n <= 8202 || n == 8239 || n == 8287
                || n == 12288
            ||| n == 8232 || n == 8233
        },
{
}

} // verus!

//! The number lists of atlas descriptions: texts such as `{1,2}` and
//! `{{1,2},{3,4}}`.

use vstd::prelude::*;

verus! {

/// Whether a character is white space.
pub open spec fn is_space(c: char) -> bool {
    ||| '\u{9}' <= c <= '\u{d}'
    ||| c == ' '
    ||| c == '\u{85}'
    ||| c == '\u{a0}'
    ||| c == '\u{1680}'
    ||| '\u{2000}' <= c <= '\u{200a}'
    ||| c == '\u{2028}'
    ||| c == '\u{2029}'
    ||| c == '\u{202f}'
    ||| c == '\u{205f}'
    ||| c == '\u{3000}'
}

/// Whether a character is a decimal digit.
pub open spec fn is_digit(c: char) -> bool {
    '0' <= c <= '9'
}

/// The number that a decimal digit stands for.
pub open spec fn digit_value(c: char) -> int {
    c as int - '0' as int
}

/// The number that a row of decimal digits stands for.
pub open spec fn digits_value(s: Seq<char>) -> int
    decreases s.len(),
{
    if s.len() == 0 {
        0
    } else {
        digits_value(s.drop_last()) * 10 + digit_value(s.last())
    }
}

/// Whether a text holds decimal digits only.
pub open spec fn all_digits(s: Seq<char>) -> bool {
    forall|i: int| 0 <= i < s.len() ==> is_digit(#[trigger] s[i])
}

/// Whether a text begins with a sign.
pub open spec fn has_sign(s: Seq<char>) -> bool {
    s.len() > 0 && (s[0] == '+' || s[0] == '-')
}

/// The 32-bit number that a text spells, if it spells one: an optional sign
/// and at least one digit, nothing else, within the range.
pub open spec fn int_value(s: Seq<char>) -> Option<int> {
    let body = if has_sign(s) { s.subrange(1, s.len() as int) } else { s };
    let value = if has_sign(s) && s[0] == '-' { -digits_value(body) } else { digits_value(body) };
    if body.len() > 0 && all_digits(body) && i32::MIN <= value <= i32::MAX {
        Some(value)
    } else {
        None
    }
}

/// The place of the first character from `from` on that is no white space.
pub open spec fn first_kept(s: Seq<char>, from: int) -> int
    decreases s.len() - from,
{
    if 0 <= from < s.len() && is_space(s[from]) {
        first_kept(s, from + 1)
    } else {
        from
    }
}

/// The place behind the last character before `upto`, and not before `from`,
/// that is no white space.
pub open spec fn last_kept(s: Seq<char>, from: int, upto: int) -> int
    decreases upto,
{
    if 0 <= from < upto <= s.len() && is_space(s[upto - 1]) {
        last_kept(s, from, upto - 1)
    } else {
        upto
    }
}

/// A text without the white space at its ends.
pub open spec fn trimmed(s: Seq<char>) -> Seq<char> {
    let from = first_kept(s, 0);
    s.subrange(from, last_kept(s, from, s.len() as int))
}

/// The parts of a text between its commas; a text without a comma is one part.
pub open spec fn fields(s: Seq<char>) -> Seq<Seq<char>>
    decreases s.len(),
{
    if s.len() == 0 {
        seq![Seq::<char>::empty()]
    } else {
        let before = fields(s.drop_last());
        if s.last() == ',' {
            before.push(Seq::<char>::empty())
        } else {
            before.drop_last().push(before.last().push(s.last()))
        }
    }
}

/// The numbers that the parts spell once trimmed, if each of them spells one.
pub open spec fn numbers(parts: Seq<Seq<char>>) -> Option<Seq<int>>
    decreases parts.len(),
{
    if parts.len() == 0 {
        Some(Seq::<int>::empty())
    } else {
        match (numbers(parts.drop_last()), int_value(trimmed(parts.last()))) {
            (Some(before), Some(value)) => Some(before.push(value)),
            _ => None,
        }
    }
}

/// A text without its braces.
pub open spec fn without_braces(s: Seq<char>) -> Seq<char>
    decreases s.len(),
{
    if s.len() == 0 {
        Seq::<char>::empty()
    } else if s.last() == '{' || s.last() == '}' {
        without_braces(s.drop_last())
    } else {
        without_braces(s.drop_last()).push(s.last())
    }
}

/// The pair that a text such as `{1,2}` spells: the first and the last
/// character, which are single bytes, enclose numbers between commas, at
/// least two, of which the first two count.
pub open spec fn vec_value(s: Seq<char>) -> Option<(int, int)> {
    if s.len() < 2 || s[0] > '\u{7f}' || s.last() > '\u{7f}' {
        None
    } else {
        match numbers(fields(s.subrange(1, s.len() - 1))) {
            Some(values) => if values.len() >= 2 {
                Some((values[0], values[1]))
            } else {
                None
            },
            None => None,
        }
    }
}

/// The two pairs that a text such as `{{1,2},{3,4}}` spells: without its
/// braces it holds numbers between commas, at least four, of which the first
/// four count.
pub open spec fn rect_value(s: Seq<char>) -> Option<((int, int), (int, int))> {
    match numbers(fields(without_braces(s))) {
        Some(values) => if values.len() >= 4 {
            Some(((values[0], values[1]), (values[2], values[3])))
        } else {
            None
        },
        None => None,
    }
}

/// The texts of a list, each taken by its characters.
pub open spec fn texts(parts: Seq<Vec<char>>) -> Seq<Seq<char>> {
    parts.map_values(|p: Vec<char>| p@)
}

/// The numbers of a list as mathematical integers.
pub open spec fn ints(values: Seq<i32>) -> Seq<int> {
    values.map_values(|v: i32| v as int)
}

/// Whether a character is white space.
fn space(c: char) -> (r: bool)
    ensures
        r == is_space(c),
{
    ('\u{9}' <= c && c <= '\u{d}') || c == ' ' || c == '\u{85}' || c == '\u{a0}' || c == '\u{1680}'
        || ('\u{2000}' <= c && c <= '\u{200a}') || c == '\u{2028}' || c == '\u{2029}' || c
        == '\u{202f}' || c == '\u{205f}' || c == '\u{3000}'
}

/// The characters of a text.
fn characters(text: &str) -> (r: Vec<char>)
    ensures
        r@ == text@,
{
    let n = text.unicode_len();
    let mut out: Vec<char> = Vec::new();
    let mut i: usize = 0;
    while i < n
        invariant
            n == text@.len(),
            i <= n,
            out@ == text@.take(i as int),
        decreases n - i,
    {
        out.push(text.get_char(i));
        i = i + 1;
    }
    out
}

/// The characters from `from` up to `upto`.
fn slice(text: &Vec<char>, from: usize, upto: usize) -> (r: Vec<char>)
    requires
        from <= upto <= text@.len(),
    ensures
        r@ == text@.subrange(from as int, upto as int),
{
    let mut out: Vec<char> = Vec::new();
    let mut i: usize = from;
    while i < upto
        invariant
            from <= i <= upto <= text@.len(),
            out@ == text@.subrange(from as int, i as int),
        decreases upto - i,
    {
        out.push(text[i]);
        i = i + 1;
    }
    out
}

/// A text without the white space at its ends.
fn trim(text: &Vec<char>) -> (r: Vec<char>)
    ensures
        r@ == trimmed(text@),
{
    let n = text.len();
    let mut from: usize = 0;
    while from < n && space(text[from])
        invariant
            n == text@.len(),
            from <= n,
            first_kept(text@, 0) == first_kept(text@, from as int),
        decreases n - from,
    {
        from = from + 1;
    }
    let mut upto: usize = n;
    while upto > from && space(text[upto - 1])
        invariant
            n == text@.len(),
            from <= upto <= n,
            last_kept(text@, from as int, n as int) == last_kept(text@, from as int, upto as int),
        decreases upto,
    {
        upto = upto - 1;
    }
    slice(text, from, upto)
}

/// More digits do not make a number smaller.
proof fn lemma_digits_grow(s: Seq<char>, k: int)
    requires
        all_digits(s),
        0 <= k <= s.len(),
    ensures
        0 <= digits_value(s.take(k)) <= digits_value(s),
    decreases s.len() - k,
{
    if k == s.len() {
        assert(s.take(k) =~= s);
        lemma_digits_nonnegative(s);
    } else {
        lemma_digits_grow(s, k + 1);
        assert(s.take(k + 1).drop_last() =~= s.take(k));
    }
}

/// A row of digits stands for no negative number.
proof fn lemma_digits_nonnegative(s: Seq<char>)
    requires
        all_digits(s),
    ensures
        0 <= digits_value(s),
    decreases s.len(),
{
    if s.len() > 0 {
        lemma_digits_nonnegative(s.drop_last());
    }
}

/// The number that a row of digits stands for, if it is one and not above the limit.
fn digits_of(part: &Vec<char>, limit: i64) -> (r: Option<i64>)
    requires
        0 <= limit <= 0x1_0000_0000_0000,
    ensures
        match r {
            Some(v) => all_digits(part@) && v == digits_value(part@) && 0 <= v <= limit,
            None => !all_digits(part@) || digits_value(part@) > limit,
        },
{
    let n = part.len();
    let mut acc: i64 = 0;
    let mut i: usize = 0;
    while i < n
        invariant
            n == part@.len(),
            i <= n,
            0 <= limit <= 0x1_0000_0000_0000,
            all_digits(part@.take(i as int)),
            acc == digits_value(part@.take(i as int)),
            0 <= acc <= limit,
        decreases n - i,
    {
        let c = part[i];
        if !('0' <= c && c <= '9') {
            return None;
        }
        let d: i64 = (c as u32 - '0' as u32) as i64;
        let next = acc * 10 + d;
        proof {
            assert(part@.take(i + 1).drop_last() =~= part@.take(i as int));
        }
        if next > limit {
            proof {
                if all_digits(part@) {
                    lemma_digits_grow(part@, i + 1);
                }
            }
            return None;
        }
        acc = next;
        i = i + 1;
    }
    assert(part@.take(n as int) =~= part@);
    Some(acc)
}

/// The 32-bit number that a text spells, if it spells one.
fn parse_number(text: &Vec<char>) -> (r: Option<i32>)
    ensures
        match r {
            Some(v) => int_value(text@) == Some(v as int),
            None => int_value(text@).is_none(),
        },
{
    let n = text.len();
    let signed = n > 0 && (text[0] == '+' || text[0] == '-');
    let negative = signed && text[0] == '-';
    let body = slice(text, if signed { 1 } else { 0 }, n);
    proof {
        if !signed {
            assert(body@ =~= text@);
        }
    }
    if body.len() == 0 {
        return None;
    }
    match digits_of(&body, 2147483648) {
        Some(magnitude) => {
            if negative {
                Some((-magnitude) as i32)
            } else if magnitude > 2147483647 {
                None
            } else {
                Some(magnitude as i32)
            }
        },
        None => None,
    }
}

/// The parts of a text between its commas.
fn split(text: &Vec<char>) -> (r: Vec<Vec<char>>)
    ensures
        texts(r@) == fields(text@),
{
    let n = text.len();
    let mut done: Vec<Vec<char>> = Vec::new();
    let mut current: Vec<char> = Vec::new();
    let mut i: usize = 0;
    while i < n
        invariant
            n == text@.len(),
            i <= n,
            texts(done@).push(current@) == fields(text@.take(i as int)),
        decreases n - i,
    {
        let c = text[i];
        proof {
            assert(text@.take(i + 1).drop_last() =~= text@.take(i as int));
        }
        if c == ',' {
            done.push(current);
            current = Vec::new();
        } else {
            current.push(c);
        }
        i = i + 1;
    }
    assert(text@.take(n as int) =~= text@);
    done.push(current);
    done
}

/// The numbers that the parts spell once trimmed, if each of them spells one.
fn parse_numbers(parts: &Vec<Vec<char>>) -> (r: Option<Vec<i32>>)
    ensures
        match r {
            Some(values) => numbers(texts(parts@)) == Some(ints(values@)),
            None => numbers(texts(parts@)).is_none(),
        },
{
    let n = parts.len();
    let ghost all = texts(parts@);
    let mut values: Vec<i32> = Vec::new();
    let mut i: usize = 0;
    while i < n
        invariant
            n == parts@.len(),
            all == texts(parts@),
            i <= n,
            numbers(all.take(i as int)) == Some(ints(values@)),
        decreases n - i,
    {
        let text = trim(&parts[i]);
        proof {
            assert(all.take(i + 1).drop_last() =~= all.take(i as int));
        }
        match parse_number(&text) {
            Some(v) => {
                values.push(v);
            },
            None => {
                proof {
                    lemma_numbers_fail(all, i + 1);
                }
                return None;
            },
        }
        i = i + 1;
    }
    assert(all.take(n as int) =~= all);
    Some(values)
}

/// Where the first parts do not all spell numbers, the parts do not.
proof fn lemma_numbers_fail(parts: Seq<Seq<char>>, count: int)
    requires
        0 <= count <= parts.len(),
        numbers(parts.take(count)).is_none(),
    ensures
        numbers(parts).is_none(),
    decreases parts.len() - count,
{
    if count < parts.len() {
        assert(parts.take(count + 1).drop_last() =~= parts.take(count));
        lemma_numbers_fail(parts, count + 1);
    } else {
        assert(parts.take(count) =~= parts);
    }
}

/// Reads a pair of numbers: `"{1,2}"` gives `(1, 2)`. The first and the last
/// character are dropped, whatever they are; what is between them is split
/// at the commas, and each part is trimmed and read as a number. Texts that
/// do not spell a pair in this way give nothing.
pub fn parse_vec(str: &str) -> (r: Option<(i32, i32)>)
    ensures
        match r {
            Some(pair) => vec_value(str@) == Some((pair.0 as int, pair.1 as int)),
            None => vec_value(str@).is_none(),
        },
{
    let text = characters(str);
    let n = text.len();
    if n < 2 || text[0] > '\u{7f}' || text[n - 1] > '\u{7f}' {
        return None;
    }
    let inner = slice(&text, 1, n - 1);
    let parts = split(&inner);
    match parse_numbers(&parts) {
        Some(values) => {
            if values.len() >= 2 {
                Some((values[0], values[1]))
            } else {
                None
            }
        },
        None => None,
    }
}

/// A text without its braces.
fn strip_braces(text: &Vec<char>) -> (r: Vec<char>)
    ensures
        r@ == without_braces(text@),
{
    let n = text.len();
    let mut out: Vec<char> = Vec::new();
    let mut i: usize = 0;
    while i < n
        invariant
            n == text@.len(),
            i <= n,
            out@ == without_braces(text@.take(i as int)),
        decreases n - i,
    {
        let c = text[i];
        proof {
            assert(text@.take(i + 1).drop_last() =~= text@.take(i as int));
        }
        if c != '{' && c != '}' {
            out.push(c);
        }
        i = i + 1;
    }
    assert(text@.take(n as int) =~= text@);
    out
}

/// Reads two pairs of numbers: `"{{1,2},{3,4}}"` gives `((1, 2), (3, 4))`.
/// All braces are dropped, wherever they are; what is left is split at the
/// commas, and each part is trimmed and read as a number. Texts that do not
/// spell two pairs in this way give nothing.
pub fn parse_rect_vecs(str: &str) -> (r: Option<((i32, i32), (i32, i32))>)
    ensures
        match r {
            Some(rect) => rect_value(str@) == Some(
                ((rect.0.0 as int, rect.0.1 as int), (rect.1.0 as int, rect.1.1 as int)),
            ),
            None => rect_value(str@).is_none(),
        },
{
    let text = characters(str);
    let cleaned = strip_braces(&text);
    let parts = split(&cleaned);
    match parse_numbers(&parts) {
        Some(values) => {
            if values.len() >= 4 {
                assert(ints(values@)[0] == values@[0] && ints(values@)[1] == values@[1]
                    && ints(values@)[2] == values@[2] && ints(values@)[3] == values@[3]);
                Some(((values[0], values[1]), (values[2], values[3])))
            } else {
                None
            }
        },
        None => None,
    }
}

/// The place of the first point at or behind `from`, or the length if there is none.
pub open spec fn point_at(s: Seq<char>, from: int) -> int
    decreases s.len() - from,
{
    if from < 0 || from >= s.len() {
        s.len() as int
    } else if s[from] == '.' {
        from
    } else {
        point_at(s, from + 1)
    }
}

/// The thousandths that the digits behind a point stand for: the first
/// three count, further ones are dropped.
pub open spec fn fraction_thousandths(s: Seq<char>) -> int {
    let tenths = if s.len() > 0 { digit_value(s[0]) } else { 0 };
    let hundredths = if s.len() > 1 { digit_value(s[1]) } else { 0 };
    let thousandths = if s.len() > 2 { digit_value(s[2]) } else { 0 };
    tenths * 100 + hundredths * 10 + thousandths
}

/// The number that a text spells in decimal notation, in thousandths, if it
/// spells one: an optional sign, digits, and optionally a point and digits,
/// with a digit on one side of the point at least, within the range of a
/// 32-bit number of thousandths.
pub open spec fn decimal_value(s: Seq<char>) -> Option<int> {
    let body = if has_sign(s) { s.subrange(1, s.len() as int) } else { s };
    let point = point_at(body, 0);
    let whole = body.subrange(0, point);
    let fraction = if point < body.len() {
        body.subrange(point + 1, body.len() as int)
    } else {
        Seq::<char>::empty()
    };
    let magnitude = digits_value(whole) * 1000 + fraction_thousandths(fraction);
    let value = if has_sign(s) && s[0] == '-' { -magnitude } else { magnitude };
    if all_digits(whole) && all_digits(fraction) && whole.len() + fraction.len() > 0 && i32::MIN
        <= value <= i32::MAX {
        Some(value)
    } else {
        None
    }
}

/// The numbers in thousandths that the parts spell once trimmed, if each of them spells one.
pub open spec fn decimals(parts: Seq<Seq<char>>) -> Option<Seq<int>>
    decreases parts.len(),
{
    if parts.len() == 0 {
        Some(Seq::<int>::empty())
    } else {
        match (decimals(parts.drop_last()), decimal_value(trimmed(parts.last()))) {
            (Some(before), Some(value)) => Some(before.push(value)),
            _ => None,
        }
    }
}

/// The pair in thousandths that a text such as `{0.5,-2}` spells.
pub open spec fn decimal_vec_value(s: Seq<char>) -> Option<(int, int)> {
    if s.len() < 2 || s[0] > '\u{7f}' || s.last() > '\u{7f}' {
        None
    } else {
        match decimals(fields(s.subrange(1, s.len() - 1))) {
            Some(values) => if values.len() >= 2 {
                Some((values[0], values[1]))
            } else {
                None
            },
            None => None,
        }
    }
}

/// The value of a decimal digit, or zero where the text has ended.
fn digit_at(part: &Vec<char>, i: usize) -> (r: i64)
    requires
        all_digits(part@),
    ensures
        r == if i < part@.len() { digit_value(part@[i as int]) } else { 0 },
        0 <= r <= 9,
{
    if i < part.len() {
        let c = part[i];
        (c as u32 - '0' as u32) as i64
    } else {
        0
    }
}

/// The number that a text spells in decimal notation, in thousandths.
fn parse_decimal(text: &Vec<char>) -> (r: Option<i32>)
    ensures
        match r {
            Some(v) => decimal_value(text@) == Some(v as int),
            None => decimal_value(text@).is_none(),
        },
{
    let n = text.len();
    let signed = n > 0 && (text[0] == '+' || text[0] == '-');
    let negative = signed && text[0] == '-';
    let start: usize = if signed { 1 } else { 0 };
    let body = slice(text, start, n);
    proof {
        if !signed {
            assert(body@ =~= text@);
        }
    }
    let m = body.len();
    let mut point: usize = 0;
    while point < m && body[point] != '.'
        invariant
            m == body@.len(),
            point <= m,
            point_at(body@, 0) == point_at(body@, point as int),
        decreases m - point,
    {
        point = point + 1;
    }
    let whole = slice(&body, 0, point);
    let fraction = if point < m { slice(&body, point + 1, m) } else { Vec::new() };
    if whole.len() + fraction.len() == 0 {
        return None;
    }
    let units = match digits_of(&whole, 2147483) {
        Some(v) => v,
        None => { return None; },
    };
    if !fraction_is_digits(&fraction) {
        return None;
    }
    let magnitude: i64 = units * 1000 + digit_at(&fraction, 0) * 100 + digit_at(&fraction, 1) * 10
        + digit_at(&fraction, 2);
    if negative {
        if magnitude > 2147483648 {
            None
        } else {
            Some((-magnitude) as i32)
        }
    } else if magnitude > 2147483647 {
        None
    } else {
        Some(magnitude as i32)
    }
}

/// Whether a text holds decimal digits only.
fn fraction_is_digits(part: &Vec<char>) -> (r: bool)
    ensures
        r == all_digits(part@),
{
    let n = part.len();
    let mut i: usize = 0;
    while i < n
        invariant
            n == part@.len(),
            i <= n,
            forall|j: int| 0 <= j < i ==> is_digit(#[trigger] part@[j]),
        decreases n - i,
    {
        let c = part[i];
        if !('0' <= c && c <= '9') {
            return false;
        }
        i = i + 1;
    }
    true
}

/// The numbers in thousandths that the parts spell once trimmed.
fn parse_decimals(parts: &Vec<Vec<char>>) -> (r: Option<Vec<i32>>)
    ensures
        match r {
            Some(values) => decimals(texts(parts@)) == Some(ints(values@)),
            None => decimals(texts(parts@)).is_none(),
        },
{
    let n = parts.len();
    let ghost all = texts(parts@);
    let mut values: Vec<i32> = Vec::new();
    let mut i: usize = 0;
    while i < n
        invariant
            n == parts@.len(),
            all == texts(parts@),
            i <= n,
            decimals(all.take(i as int)) == Some(ints(values@)),
        decreases n - i,
    {
        let text = trim(&parts[i]);
        proof {
            assert(all.take(i + 1).drop_last() =~= all.take(i as int));
        }
        match parse_decimal(&text) {
            Some(v) => {
                values.push(v);
            },
            None => {
                proof {
                    lemma_decimals_fail(all, i + 1);
                }
                return None;
            },
        }
        i = i + 1;
    }
    assert(all.take(n as int) =~= all);
    Some(values)
}

/// Where the first parts do not all spell numbers, the parts do not.
proof fn lemma_decimals_fail(parts: Seq<Seq<char>>, count: int)
    requires
        0 <= count <= parts.len(),
        decimals(parts.take(count)).is_none(),
    ensures
        decimals(parts).is_none(),
    decreases parts.len() - count,
{
    if count < parts.len() {
        assert(parts.take(count + 1).drop_last() =~= parts.take(count));
        lemma_decimals_fail(parts, count + 1);
    } else {
        assert(parts.take(count) =~= parts);
    }
}

/// Reads a pair of decimal numbers in thousandths: `"{0.5,-2}"` gives
/// `(500, -2000)`. The text is taken apart as by `parse_vec`; each number may
/// have a point, and digits behind the third decimal place are dropped.
pub fn parse_vec_thousandths(str: &str) -> (r: Option<(i32, i32)>)
    ensures
        match r {
            Some(pair) => decimal_vec_value(str@) == Some((pair.0 as int, pair.1 as int)),
            None => decimal_vec_value(str@).is_none(),
        },
{
    let text = characters(str);
    let n = text.len();
    if n < 2 || text[0] > '\u{7f}' || text[n - 1] > '\u{7f}' {
        return None;
    }
    let inner = slice(&text, 1, n - 1);
    let parts = split(&inner);
    match parse_decimals(&parts) {
        Some(values) => {
            if values.len() >= 2 {
                Some((values[0], values[1]))
            } else {
                None
            }
        },
        None => None,
    }
}

/// Reads a decimal number in thousandths: `"-32.5"` gives `-32500`. The text
/// is not trimmed.
pub fn parse_thousandths(str: &str) -> (r: Option<i32>)
    ensures
        match r {
            Some(v) => decimal_value(str@) == Some(v as int),
            None => decimal_value(str@).is_none(),
        },
{
    let text = characters(str);
    parse_decimal(&text)
}

/// Reads a whole number: `"-7"` gives `-7`. The text is not trimmed.
pub fn parse_int(str: &str) -> (r: Option<i32>)
    ensures
        match r {
            Some(v) => int_value(str@) == Some(v as int),
            None => int_value(str@).is_none(),
        },
{
    let text = characters(str);
    parse_number(&text)
}

} // verus!

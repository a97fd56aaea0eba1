//! Words and whole numbers in a line of text.
use vstd::prelude::*;

use crate::text;
use crate::text::chars_of;

verus! {

/// Whether a character is white space, as Unicode has it.
pub open spec fn is_space(c: char) -> bool {
    let n = c as u32;
    ||| 0x09 <= n <= 0x0d
    ||| n == 0x20
    ||| n == 0x85
    ||| n == 0xa0
    ||| n == 0x1680
    ||| 0x2000 <= n <= 0x200a
    ||| n == 0x2028
    ||| n == 0x2029
    ||| n == 0x202f
    ||| n == 0x205f
    ||| n == 0x3000
}

fn space(c: char) -> (yes: bool)
    ensures
        yes == is_space(c),
{
    let n: u32 = c as u32;
    (0x09 <= n && n <= 0x0d) || n == 0x20 || n == 0x85 || n == 0xa0 || n == 0x1680 || (0x2000 <= n
        && n <= 0x200a) || n == 0x2028 || n == 0x2029 || n == 0x202f || n == 0x205f || n == 0x3000
}

/// How many characters there are before the first white space.
pub open spec fn word_len(s: Seq<char>) -> nat
    decreases s.len(),
{
    if s.len() == 0 || is_space(s[0]) {
        0
    } else {
        1 + word_len(s.skip(1))
    }
}

/// A word is part of its line, and one that starts there is not empty.
pub proof fn word_len_bound(s: Seq<char>)
    ensures
        word_len(s) <= s.len(),
        s.len() > 0 && !is_space(s[0]) ==> word_len(s) > 0,
    decreases s.len(),
{
    if s.len() > 0 && !is_space(s[0]) {
        word_len_bound(s.skip(1));
    }
}

/// The words of a line: what stands between its white space.
pub open spec fn fields_of(s: Seq<char>) -> Seq<Seq<char>>
    decreases s.len(),
{
    if s.len() == 0 {
        Seq::empty()
    } else if is_space(s[0]) {
        fields_of(s.skip(1))
    } else {
        proof {
            word_len_bound(s);
        }
        seq![s.take(word_len(s) as int)] + fields_of(s.skip(word_len(s) as int))
    }
}

/// Every word of a line has a character.
pub proof fn fields_are_not_empty(s: Seq<char>)
    ensures
        forall|i: int| 0 <= i < fields_of(s).len() ==> (#[trigger] fields_of(s)[i]).len() > 0,
    decreases s.len(),
{
    if s.len() > 0 {
        if is_space(s[0]) {
            fields_are_not_empty(s.skip(1));
            assert(fields_of(s) == fields_of(s.skip(1)));
        } else {
            word_len_bound(s);
            let n = word_len(s) as int;
            let rest = fields_of(s.skip(n));
            fields_are_not_empty(s.skip(n));
            assert(fields_of(s) =~= seq![s.take(n)] + rest);
            assert forall|i: int| 0 <= i < fields_of(s).len() implies (#[trigger] fields_of(
                s,
            )[i]).len() > 0 by {
                if i > 0 {
                    assert(fields_of(s)[i] == rest[i - 1]);
                }
            }
        }
    } else {
        assert(fields_of(s).len() == 0);
    }
}

proof fn word_ends_at_space(s: Seq<char>)
    ensures
        word_len(s) < s.len() ==> is_space(s[word_len(s) as int]),
    decreases s.len(),
{
    if s.len() > 0 && !is_space(s[0]) {
        word_ends_at_space(s.skip(1));
    }
}

/// White space stands between words, so a line has at most half as many words as
/// it has characters, rounded up.
pub proof fn fields_are_few(s: Seq<char>)
    ensures
        2 * fields_of(s).len() <= s.len() + 1,
    decreases s.len(),
{
    if s.len() > 0 {
        if is_space(s[0]) {
            fields_are_few(s.skip(1));
        } else {
            word_len_bound(s);
            word_ends_at_space(s);
            let n = word_len(s) as int;
            let rest = s.skip(n);
            if rest.len() > 0 {
                fields_are_few(rest.skip(1));
                assert(fields_of(rest) == fields_of(rest.skip(1)));
            } else {
                assert(fields_of(rest).len() == 0);
            }
        }
    }
}

/// The characters of several strings.
pub open spec fn views(strings: Seq<String>) -> Seq<Seq<char>> {
    Seq::new(strings.len(), |i: int| strings[i]@)
}

/// A string of some characters.
pub fn string_of(chars: &[char], from: usize, to: usize) -> (s: String)
    requires
        from <= to <= chars@.len(),
    ensures
        s@ == chars@.subrange(from as int, to as int),
{
    let mut s = String::new();
    let mut i: usize = from;
    assert(s@ =~= chars@.subrange(from as int, from as int));
    while i < to
        invariant
            from <= i <= to <= chars@.len(),
            s@ == chars@.subrange(from as int, i as int),
        decreases to - i,
    {
        s.push(chars[i]);
        i += 1;
        assert(s@ =~= chars@.subrange(from as int, i as int));
    }
    s
}

/// Where the word that starts at `from` ends.
fn word_end(chars: &[char], from: usize) -> (end: usize)
    requires
        from <= chars@.len(),
    ensures
        from <= end <= chars@.len(),
        end - from == word_len(chars@.skip(from as int)),
{
    let mut end: usize = from;
    while end < chars.len() && !space(chars[end])
        invariant
            from <= end <= chars@.len(),
            word_len(chars@.skip(from as int)) == end - from + word_len(chars@.skip(end as int)),
        decreases chars@.len() - end,
    {
        assert(chars@.skip(end as int).skip(1) =~= chars@.skip(end + 1));
        end += 1;
    }
    end
}

/// The words of a line.
pub fn fields(line: &str) -> (fields: Vec<String>)
    ensures
        views(fields@) == fields_of(line@),
{
    let chars = chars_of(line);
    let mut fields: Vec<String> = Vec::new();
    let mut at: usize = 0;
    assert(chars@.skip(0) =~= chars@);
    assert(views(fields@) + fields_of(chars@) =~= fields_of(chars@));
    while at < chars.len()
        invariant
            at <= chars@.len(),
            chars@ == line@,
            views(fields@) + fields_of(chars@.skip(at as int)) == fields_of(line@),
        decreases chars@.len() - at,
    {
        let ghost rest = chars@.skip(at as int);
        if space(chars[at]) {
            assert(rest.skip(1) =~= chars@.skip(at + 1));
            at += 1;
        } else {
            proof {
                word_len_bound(rest);
            }
            let end: usize = word_end(chars.as_slice(), at);
            let word = string_of(chars.as_slice(), at, end);
            let ghost before = views(fields@);
            fields.push(word);
            proof {
                let n = word_len(rest) as int;
                assert(rest.take(n) =~= chars@.subrange(at as int, end as int));
                assert(rest.skip(n) =~= chars@.skip(end as int));
                assert(views(fields@) =~= before.push(word@));
                assert(before + (seq![rest.take(n)] + fields_of(rest.skip(n))) =~= views(fields@)
                    + fields_of(chars@.skip(end as int)));
            }
            at = end;
        }
    }
    assert(views(fields@) + fields_of(chars@.skip(at as int)) =~= views(fields@));
    fields
}

/// Whether two strings are the same.
pub fn same(a: &str, b: &str) -> (yes: bool)
    ensures
        yes == (a@ == b@),
{
    let x = chars_of(a);
    let y = chars_of(b);
    if x.len() != y.len() {
        return false;
    }
    let mut i: usize = 0;
    while i < x.len()
        invariant
            i <= x@.len() == y@.len(),
            x@ == a@,
            y@ == b@,
            forall|k: int| 0 <= k < i ==> x@[k] == y@[k],
        decreases x@.len() - i,
    {
        if x[i] != y[i] {
            return false;
        }
        i += 1;
    }
    assert(a@ =~= b@);
    true
}

/// Whether a character is a decimal digit.
pub open spec fn is_digit(c: char) -> bool {
    48 <= c as u32 <= 57
}

/// Whether every character is a decimal digit.
pub open spec fn all_digits(s: Seq<char>) -> bool {
    forall|i: int| 0 <= i < s.len() ==> is_digit(#[trigger] s[i])
}

/// The number that digits stand for.
pub open spec fn value_of(s: Seq<char>) -> nat
    decreases s.len(),
{
    if s.len() == 0 {
        0
    } else {
        value_of(s.drop_last()) * 10 + (s.last() as u32 - 48) as nat
    }
}

/// The whole number a word stands for: an optional sign, a minus only where
/// `signed`, and at least one digit.
pub open spec fn int_of(s: Seq<char>, signed: bool) -> Option<int> {
    let minus = signed && s.len() > 0 && s[0] == '-';
    let plus = s.len() > 0 && s[0] == '+';
    let rest = if minus || plus {
        s.skip(1)
    } else {
        s
    };
    if rest.len() == 0 || !all_digits(rest) {
        None
    } else if minus {
        Some(-(value_of(rest) as int))
    } else {
        Some(value_of(rest) as int)
    }
}

/// A number that was written in digits reads back.
pub proof fn digits_read_back(n: nat)
    ensures
        text::digits(n).len() > 0,
        all_digits(text::digits(n)),
        value_of(text::digits(n)) == n,
        int_of(text::digits(n), false) == Some(n as int),
    decreases n,
{
    let s = text::digits(n);
    if n < 10 {
        assert(s.drop_last() =~= Seq::empty());
        assert(value_of(s.drop_last()) == 0);
    } else {
        digits_read_back(n / 10);
        assert(s.drop_last() =~= text::digits(n / 10));
        assert(s.last() == text::digit(n % 10));
        assert forall|i: int| 0 <= i < s.len() implies is_digit(#[trigger] s[i]) by {
            if i < s.len() - 1 {
                assert(s[i] == text::digits(n / 10)[i]);
            }
        }
    }
    assert(is_digit(s[0]));
}

/// The number that the digits from `from` on stand for, where it is at most
/// `u64::MAX`.
enum Magnitude {
    NotDigits,
    TooLarge,
    Is(u64),
}

fn magnitude(chars: &[char], from: usize) -> (m: Magnitude)
    requires
        from <= chars@.len(),
    ensures
        ({
            let rest = chars@.skip(from as int);
            match m {
                Magnitude::NotDigits => rest.len() == 0 || !all_digits(rest),
                Magnitude::TooLarge => rest.len() > 0 && all_digits(rest) && value_of(rest)
                    > u64::MAX,
                Magnitude::Is(n) => rest.len() > 0 && all_digits(rest) && value_of(rest) == n,
            }
        }),
{
    let ghost rest = chars@.skip(from as int);
    if from == chars.len() {
        return Magnitude::NotDigits;
    }
    let mut value: u128 = 0;
    let mut large = false;
    let mut i: usize = from;
    assert(rest.take(0) =~= Seq::empty());
    while i < chars.len()
        invariant
            from <= i <= chars@.len(),
            rest == chars@.skip(from as int),
            value <= u64::MAX,
            !large ==> value == value_of(rest.take(i - from)),
            large ==> value_of(rest.take(i - from)) > u64::MAX,
            forall|k: int| 0 <= k < i - from ==> is_digit(#[trigger] rest[k]),
        decreases chars@.len() - i,
    {
        let c = chars[i];
        let n: u32 = c as u32;
        assert(rest[i - from] == c);
        if n < 48 || n > 57 {
            assert(!is_digit(rest[i - from]));
            return Magnitude::NotDigits;
        }
        proof {
            let next = rest.take(i + 1 - from);
            assert(next.drop_last() =~= rest.take(i - from));
            assert(next.last() == c);
        }
        if !large {
            let next: u128 = value * 10 + (n - 48) as u128;
            if next > u64::MAX as u128 {
                large = true;
            } else {
                value = next;
            }
        }
        i += 1;
    }
    assert(rest.take(i - from) =~= rest);
    if large {
        Magnitude::TooLarge
    } else {
        Magnitude::Is(value as u64)
    }
}

/// The unsigned 64-bit number a word stands for.
pub fn parse_u64(word: &str) -> (n: Option<u64>)
    ensures
        match int_of(word@, false) {
            Some(v) => if v <= u64::MAX {
                n == Some(v as u64)
            } else {
                n is None
            },
            None => n is None,
        },
{
    let chars = chars_of(word);
    let from: usize = if chars.len() > 0 && chars[0] == '+' {
        1
    } else {
        0
    };
    assert(chars@.skip(0) =~= chars@);
    match magnitude(chars.as_slice(), from) {
        Magnitude::Is(n) => Some(n),
        _ => None,
    }
}

/// The unsigned 32-bit number a word stands for.
pub fn parse_u32(word: &str) -> (n: Option<u32>)
    ensures
        match int_of(word@, false) {
            Some(v) => if v <= u32::MAX {
                n == Some(v as u32)
            } else {
                n is None
            },
            None => n is None,
        },
{
    match parse_u64(word) {
        Some(n) => if n <= u32::MAX as u64 {
            Some(n as u32)
        } else {
            None
        },
        None => None,
    }
}

/// The signed 64-bit number a word stands for.
pub fn parse_i64(word: &str) -> (n: Option<i64>)
    ensures
        match int_of(word@, true) {
            Some(v) => if i64::MIN <= v <= i64::MAX {
                n == Some(v as i64)
            } else {
                n is None
            },
            None => n is None,
        },
{
    let chars = chars_of(word);
    let minus = chars.len() > 0 && chars[0] == '-';
    let from: usize = if minus || (chars.len() > 0 && chars[0] == '+') {
        1
    } else {
        0
    };
    assert(chars@.skip(0) =~= chars@);
    match magnitude(chars.as_slice(), from) {
        Magnitude::Is(n) => {
            if minus {
                if n <= 0x8000_0000_0000_0000 {
                    Some((-(n as i128)) as i64)
                } else {
                    None
                }
            } else if n <= i64::MAX as u64 {
                Some(n as i64)
            } else {
                None
            }
        },
        _ => None,
    }
}

/// How many characters at the start are white space.
pub open spec fn leading_space(s: Seq<char>) -> nat
    decreases s.len(),
{
    if s.len() == 0 || !is_space(s[0]) {
        0
    } else {
        1 + leading_space(s.skip(1))
    }
}

/// How many characters stand before the white space at the end.
pub open spec fn trailing_end(s: Seq<char>) -> nat
    decreases s.len(),
{
    if s.len() == 0 || !is_space(s.last()) {
        s.len()
    } else {
        trailing_end(s.drop_last())
    }
}

/// A line without white space around it.
pub open spec fn trimmed(s: Seq<char>) -> Seq<char> {
    let rest = s.skip(leading_space(s) as int);
    rest.take(trailing_end(rest) as int)
}

/// A letter of the Latin alphabet in lower case, any other character as it is.
pub open spec fn lower(c: char) -> char {
    if 65 <= c as u32 <= 90 {
        (c as u32 + 32) as char
    } else {
        c
    }
}

/// A line without white space around it.
pub fn trim(line: &str) -> (t: String)
    ensures
        t@ == trimmed(line@),
{
    let chars = chars_of(line);
    let mut from: usize = 0;
    assert(chars@.skip(0) =~= chars@);
    while from < chars.len() && space(chars[from])
        invariant
            from <= chars@.len(),
            leading_space(chars@) == from + leading_space(chars@.skip(from as int)),
        decreases chars@.len() - from,
    {
        assert(chars@.skip(from as int).skip(1) =~= chars@.skip(from + 1));
        from += 1;
    }
    let ghost rest = chars@.skip(from as int);
    let mut to: usize = chars.len();
    assert(rest.take(to - from) =~= rest);
    while to > from && space(chars[to - 1])
        invariant
            from <= to <= chars@.len(),
            rest == chars@.skip(from as int),
            trailing_end(rest) == trailing_end(rest.take(to - from)),
        decreases to,
    {
        assert(rest.take(to - from).drop_last() =~= rest.take(to - 1 - from));
        assert(rest.take(to - from).last() == chars@[to - 1]);
        to -= 1;
    }
    proof {
        if to > from {
            assert(rest.take(to - from).last() == chars@[to - 1]);
        }
        assert(rest.take(to - from) =~= chars@.subrange(from as int, to as int));
    }
    string_of(chars.as_slice(), from, to)
}

/// A string with its Latin letters in lower case.
pub fn lower_case(s: &str) -> (t: String)
    ensures
        t@.len() == s@.len(),
        forall|i: int| 0 <= i < s@.len() ==> #[trigger] t@[i] == lower(s@[i]),
{
    let chars = chars_of(s);
    let mut t = String::new();
    let mut i: usize = 0;
    while i < chars.len()
        invariant
            i <= chars@.len(),
            chars@ == s@,
            t@.len() == i,
            forall|k: int| 0 <= k < i ==> #[trigger] t@[k] == lower(s@[k]),
        decreases chars@.len() - i,
    {
        let c = chars[i];
        let n: u32 = c as u32;
        if 65 <= n && n <= 90 {
            t.push((n as u8 + 32) as char);
        } else {
            t.push(c);
        }
        i += 1;
    }
    t
}

/// How many characters stand before the first `mark`.
pub open spec fn before(s: Seq<char>, mark: char) -> nat
    decreases s.len(),
{
    if s.len() == 0 || s[0] == mark {
        0
    } else {
        1 + before(s.skip(1), mark)
    }
}

/// Where the first `mark` from `from` on stands, or the end.
pub fn end_of(chars: &[char], from: usize, mark: char) -> (end: usize)
    requires
        from <= chars@.len(),
    ensures
        from <= end <= chars@.len(),
        end - from == before(chars@.skip(from as int), mark),
{
    let mut end: usize = from;
    while end < chars.len() && chars[end] != mark
        invariant
            from <= end <= chars@.len(),
            before(chars@.skip(from as int), mark) == end - from + before(
                chars@.skip(end as int),
                mark,
            ),
        decreases chars@.len() - end,
    {
        assert(chars@.skip(end as int).skip(1) =~= chars@.skip(end + 1));
        end += 1;
    }
    end
}

/// What stands between marks.
pub open spec fn pieces_of(s: Seq<char>, mark: char) -> Seq<Seq<char>>
    decreases s.len(),
{
    let n = before(s, mark) as int;
    if n < s.len() {
        seq![s.take(n)] + pieces_of(s.skip(n + 1), mark)
    } else {
        seq![s]
    }
}

/// What stands between marks.
pub fn pieces(s: &str, mark: char) -> (pieces: Vec<String>)
    ensures
        views(pieces@) == pieces_of(s@, mark),
{
    let chars = chars_of(s);
    let mut pieces: Vec<String> = Vec::new();
    let mut at: usize = 0;
    assert(chars@.skip(0) =~= chars@);
    assert(views(pieces@) + pieces_of(chars@, mark) =~= pieces_of(chars@, mark));
    loop
        invariant
            at <= chars@.len(),
            chars@ == s@,
            views(pieces@) + pieces_of(chars@.skip(at as int), mark) == pieces_of(s@, mark),
        decreases chars@.len() + 1 - at,
    {
        let ghost rest = chars@.skip(at as int);
        let ghost held = views(pieces@);
        let end: usize = end_of(chars.as_slice(), at, mark);
        let piece = string_of(chars.as_slice(), at, end);
        pieces.push(piece);
        assert(views(pieces@) =~= held.push(piece@));
        assert(rest.take(end - at) =~= chars@.subrange(at as int, end as int));
        if end < chars.len() {
            assert(rest.skip(end - at + 1) =~= chars@.skip(end + 1));
            assert(held + (seq![piece@] + pieces_of(chars@.skip(end + 1), mark)) =~= views(pieces@)
                + pieces_of(chars@.skip(end + 1), mark));
            at = end + 1;
        } else {
            assert(rest.take(end - at) =~= rest);
            assert(held + seq![piece@] =~= views(pieces@));
            return pieces;
        }
    }
}

// ---- what words are --------------------------------------------------------
/// Whether characters are a word: there are some, and none is white space.
pub open spec fn is_word(s: Seq<char>) -> bool {
    &&& s.len() > 0
    &&& forall|i: int| 0 <= i < s.len() ==> !is_space(#[trigger] s[i])
}

/// Whether characters are white space only.
pub open spec fn is_blank(s: Seq<char>) -> bool {
    forall|i: int| 0 <= i < s.len() ==> is_space(#[trigger] s[i])
}

/// Words with a gap before each, and one behind the last.
pub open spec fn spread(words: Seq<Seq<char>>, gaps: Seq<Seq<char>>) -> Seq<char>
    decreases words.len(),
{
    if words.len() == 0 {
        gaps[0]
    } else {
        gaps[0] + words[0] + spread(words.skip(1), gaps.skip(1))
    }
}

/// Whether gaps keep so many words apart: they are white space, and between two
/// words there is some.
pub open spec fn keep_apart(gaps: Seq<Seq<char>>, count: int) -> bool {
    &&& gaps.len() == count + 1
    &&& forall|i: int| 0 <= i < gaps.len() ==> is_blank(#[trigger] gaps[i])
    &&& forall|i: int| 0 < i < count ==> (#[trigger] gaps[i]).len() > 0
}

proof fn blank_start_says_nothing(gap: Seq<char>, s: Seq<char>)
    requires
        is_blank(gap),
    ensures
        fields_of(gap + s) == fields_of(s),
    decreases gap.len(),
{
    if gap.len() > 0 {
        let rest = gap.skip(1);
        assert forall|i: int| 0 <= i < rest.len() implies is_space(#[trigger] rest[i]) by {
            assert(rest[i] == gap[i + 1]);
        }
        blank_start_says_nothing(rest, s);
        assert((gap + s)[0] == gap[0]);
        assert((gap + s).skip(1) =~= rest + s);
    } else {
        assert(gap + s =~= s);
    }
}

proof fn word_ends(word: Seq<char>, s: Seq<char>)
    requires
        forall|i: int| 0 <= i < word.len() ==> !is_space(#[trigger] word[i]),
        s.len() > 0 ==> is_space(s[0]),
    ensures
        word_len(word + s) == word.len(),
    decreases word.len(),
{
    if word.len() > 0 {
        let rest = word.skip(1);
        assert forall|i: int| 0 <= i < rest.len() implies !is_space(#[trigger] rest[i]) by {
            assert(rest[i] == word[i + 1]);
        }
        word_ends(rest, s);
        assert((word + s)[0] == word[0]);
        assert((word + s).skip(1) =~= rest + s);
    } else {
        assert(word + s =~= s);
    }
}

/// The words of a line are what stands between its white space, whatever white space
/// that is and however much: words that were set apart are read back, in order.
pub proof fn words_read_back(words: Seq<Seq<char>>, gaps: Seq<Seq<char>>)
    requires
        forall|i: int| 0 <= i < words.len() ==> is_word(#[trigger] words[i]),
        keep_apart(gaps, words.len() as int),
    ensures
        fields_of(spread(words, gaps)) == words,
    decreases words.len(),
{
    if words.len() == 0 {
        assert(is_blank(gaps[0]));
        blank_start_says_nothing(gaps[0], Seq::empty());
        assert(gaps[0] + Seq::<char>::empty() =~= gaps[0]);
        assert(fields_of(Seq::empty()) =~= words);
    } else {
        let more = words.skip(1);
        let apart = gaps.skip(1);
        assert forall|i: int| 0 <= i < more.len() implies is_word(#[trigger] more[i]) by {
            assert(more[i] == words[i + 1]);
        }
        assert forall|i: int| 0 <= i < apart.len() implies is_blank(#[trigger] apart[i]) by {
            assert(apart[i] == gaps[i + 1]);
        }
        assert forall|i: int| 0 < i < more.len() implies (#[trigger] apart[i]).len() > 0 by {
            assert(apart[i] == gaps[i + 1]);
        }
        words_read_back(more, apart);
        let rest = spread(more, apart);
        if rest.len() > 0 {
            assert(apart[0] == gaps[1]);
            assert(is_blank(gaps[1]));
            assert(rest[0] == apart[0][0]);
        }
        assert(is_word(words[0]));
        word_ends(words[0], rest);
        assert(is_blank(gaps[0]));
        blank_start_says_nothing(gaps[0], words[0] + rest);
        assert(gaps[0] + (words[0] + rest) =~= gaps[0] + words[0] + rest);
        let line = words[0] + rest;
        assert(line[0] == words[0][0]);
        assert(line.take(words[0].len() as int) =~= words[0]);
        assert(line.skip(words[0].len() as int) =~= rest);
        assert(fields_of(line) =~= words);
    }
}

proof fn word_has_no_space(s: Seq<char>)
    ensures
        forall|i: int| 0 <= i < word_len(s) && i < s.len() ==> !is_space(#[trigger] s[i]),
    decreases s.len(),
{
    if s.len() > 0 && !is_space(s[0]) {
        word_has_no_space(s.skip(1));
        assert forall|i: int| 0 <= i < word_len(s) && i < s.len() implies !is_space(
            #[trigger] s[i],
        ) by {
            if i > 0 {
                assert(s.skip(1)[i - 1] == s[i]);
            }
        }
    }
}

/// Every field of a line is a word.
pub proof fn fields_are_words(s: Seq<char>)
    ensures
        forall|i: int| 0 <= i < fields_of(s).len() ==> is_word(#[trigger] fields_of(s)[i]),
    decreases s.len(),
{
    if s.len() > 0 {
        if is_space(s[0]) {
            fields_are_words(s.skip(1));
            assert(fields_of(s) == fields_of(s.skip(1)));
        } else {
            word_len_bound(s);
            word_has_no_space(s);
            let n = word_len(s) as int;
            let rest = fields_of(s.skip(n));
            fields_are_words(s.skip(n));
            let all = fields_of(s);
            assert(all =~= seq![s.take(n)] + rest);
            assert forall|i: int| 0 <= i < all.len() implies is_word(#[trigger] all[i]) by {
                if i > 0 {
                    assert(all[i] == rest[i - 1]);
                } else {
                    assert forall|k: int| 0 <= k < n implies !is_space(
                        #[trigger] s.take(n)[k],
                    ) by {
                        assert(s.take(n)[k] == s[k]);
                    }
                }
            }
        }
    } else {
        assert(fields_of(s).len() == 0);
    }
}

/// Which of the characters up to the tilde are white space: the blank, the tabs and
/// the breaks, and nothing that is printed.
pub proof fn plain_white_space(c: char)
    requires
        (c as u32) < 0x7f,
    ensures
        is_space(c) <==> c == ' ' || c == '\t' || c == '\n' || c == '\r' || c as u32 == 0x0b
            || c as u32 == 0x0c,
{
}

// ---- what whole numbers are ------------------------------------------------
proof fn zero_in_front(s: Seq<char>)
    ensures
        value_of(seq!['0'] + s) == value_of(s),
    decreases s.len(),
{
    let t = seq!['0'] + s;
    if s.len() > 0 {
        zero_in_front(s.drop_last());
        assert(t.drop_last() =~= seq!['0'] + s.drop_last());
    } else {
        assert(t.drop_last() =~= Seq::empty());
        assert(value_of(t.drop_last()) == 0);
        assert(value_of(s) == 0);
    }
}

/// Whole numbers are read as they are written: digits in decimal, with or without
/// zeros in front or a plus sign, and with a minus sign where the number may have
/// one. Every number that can be written so is read back.
pub proof fn whole_numbers_read_back(n: nat, signed: bool)
    ensures
        ({
            let s = text::digits(n);
            &&& int_of(s, signed) == Some(n as int)
            &&& int_of(seq!['+'] + s, signed) == Some(n as int)
            &&& int_of(seq!['0'] + s, signed) == Some(n as int)
            &&& int_of(seq!['-'] + s, true) == Some(-(n as int))
            &&& int_of(seq!['-'] + s, false) is None
        }),
{
    digits_read_back(n);
    let s = text::digits(n);
    assert(is_digit(s[0]));
    let plus = seq!['+'] + s;
    let minus = seq!['-'] + s;
    let zero = seq!['0'] + s;
    assert(plus.skip(1) =~= s);
    assert(minus.skip(1) =~= s);
    assert(!is_digit(minus[0]));
    zero_in_front(s);
    assert forall|i: int| 0 <= i < zero.len() implies is_digit(#[trigger] zero[i]) by {
        if i > 0 {
            assert(zero[i] == s[i - 1]);
        }
    }
}

/// A number with its sign is read back.
pub proof fn decimals_read_back(i: int)
    ensures
        int_of(text::decimal(i), true) == Some(i),
        is_word(text::decimal(i)),
{
    let n = if i < 0 {
        (-i) as nat
    } else {
        i as nat
    };
    whole_numbers_read_back(n, true);
    digits_read_back(n);
    let s = text::decimal(i);
    let d = text::digits(n);
    assert forall|k: int| 0 <= k < s.len() implies !is_space(#[trigger] s[k]) by {
        if i < 0 {
            if k > 0 {
                assert(s[k] == d[k - 1]);
                assert(is_digit(d[k - 1]));
            }
        } else {
            assert(s[k] == d[k]);
            assert(is_digit(d[k]));
        }
    }
}

/// Nothing but a sign in front and digits is a number: a word with any other
/// character in it, or with no digit, is none.
pub proof fn nothing_else_is_a_number(s: Seq<char>, signed: bool, at: int)
    requires
        s.len() == 0 || {
            &&& 0 <= at < s.len()
            &&& !('0' as u32 <= s[at] as u32 <= '9' as u32)
            &&& at > 0 || !(s[0] == '+' || (signed && s[0] == '-')) || s.len() == 1
        },
    ensures
        int_of(s, signed) is None,
{
    if s.len() > 0 {
        let rest = s.skip(1);
        if at > 0 {
            assert(rest[at - 1] == s[at]);
            assert(!is_digit(rest[at - 1]));
        }
        assert(!is_digit(s[at]));
    }
}

/// How many numbers can be written in so many digits.
pub open spec fn ten_to(width: nat) -> nat
    decreases width,
{
    if width == 0 {
        1
    } else {
        10 * ten_to((width - 1) as nat)
    }
}

/// A number that is written in so many digits, with zeros in front, has that many and
/// reads back.
pub proof fn padded_numbers_read_back(n: nat, width: nat)
    requires
        n < ten_to(width),
    ensures
        text::base_padded(n, 10, width).len() == width,
        all_digits(text::base_padded(n, 10, width)),
        value_of(text::base_padded(n, 10, width)) == n,
    decreases width,
{
    if width > 0 {
        let shorter = (width - 1) as nat;
        padded_numbers_read_back(n / 10, shorter);
        let s = text::base_padded(n, 10, width);
        let before = text::base_padded(n / 10, 10, shorter);
        assert(s.drop_last() =~= before);
        assert(s.last() == text::hex_digit(n % 10));
        assert(is_digit(s.last()));
        assert forall|i: int| 0 <= i < s.len() implies is_digit(#[trigger] s[i]) by {
            if i < before.len() {
                assert(s[i] == before[i]);
            }
        }
    }
}

/// What stands in a column keeps its characters, at the left or at the right of it,
/// with blanks beside it as far as it is narrower.
pub proof fn columns_keep_what_they_hold(s: Seq<char>, width: nat)
    ensures
        ({
            let wide = if s.len() < width {
                width
            } else {
                s.len()
            };
            let left = text::at_left(s, width);
            let right = text::at_right(s, width);
            &&& left.len() == wide
            &&& right.len() == wide
            &&& left.take(s.len() as int) == s
            &&& right.skip(wide - s.len()) == s
            &&& forall|i: int| s.len() <= i < wide ==> #[trigger] left[i] == ' '
            &&& forall|i: int| 0 <= i < wide - s.len() ==> #[trigger] right[i] == ' '
        }),
{
    blanks_are_blank(width - s.len());
    let left = text::at_left(s, width);
    let right = text::at_right(s, width);
    assert(left.take(s.len() as int) =~= s);
    assert(right.skip(right.len() - s.len()) =~= s);
}

proof fn blanks_are_blank(n: int)
    ensures
        text::blanks(n).len() == if n > 0 {
            n
        } else {
            0
        },
        forall|i: int| 0 <= i < text::blanks(n).len() ==> #[trigger] text::blanks(n)[i] == ' ',
    decreases n,
{
    if n > 0 {
        blanks_are_blank(n - 1);
    }
}

// ---- what is around words, and between marks -------------------------------
proof fn leading_is_blank(s: Seq<char>)
    ensures
        leading_space(s) <= s.len(),
        forall|i: int| 0 <= i < leading_space(s) ==> is_space(#[trigger] s[i]),
        leading_space(s) < s.len() ==> !is_space(s[leading_space(s) as int]),
    decreases s.len(),
{
    if s.len() > 0 && is_space(s[0]) {
        leading_is_blank(s.skip(1));
        assert forall|i: int| 0 <= i < leading_space(s) implies is_space(#[trigger] s[i]) by {
            if i > 0 {
                assert(s.skip(1)[i - 1] == s[i]);
            }
        }
    }
}

proof fn trailing_is_blank(s: Seq<char>)
    ensures
        trailing_end(s) <= s.len(),
        forall|i: int| trailing_end(s) <= i < s.len() ==> is_space(#[trigger] s[i]),
        trailing_end(s) > 0 ==> !is_space(s[trailing_end(s) - 1]),
    decreases s.len(),
{
    if s.len() > 0 && is_space(s.last()) {
        trailing_is_blank(s.drop_last());
        assert forall|i: int| trailing_end(s) <= i < s.len() implies is_space(#[trigger] s[i]) by {
            if i < s.len() - 1 {
                assert(s.drop_last()[i] == s[i]);
            }
        }
    }
}

/// Trimming takes away the white space around a text and nothing else: the text is
/// what is left with white space before and behind it, and what is left neither
/// starts nor ends with any.
pub proof fn trimming_takes_what_is_around(s: Seq<char>)
    ensures
        exists|before: Seq<char>, behind: Seq<char>|
            is_blank(before) && is_blank(behind) && s == #[trigger] (before + trimmed(s) + behind),
        trimmed(s).len() > 0 ==> !is_space(trimmed(s)[0]) && !is_space(trimmed(s).last()),
{
    leading_is_blank(s);
    let n = leading_space(s) as int;
    let rest = s.skip(n);
    trailing_is_blank(rest);
    let m = trailing_end(rest) as int;
    let before = s.take(n);
    let behind = rest.skip(m);
    assert forall|i: int| 0 <= i < behind.len() implies is_space(#[trigger] behind[i]) by {
        assert(behind[i] == rest[m + i]);
    }
    assert forall|i: int| 0 <= i < before.len() implies is_space(#[trigger] before[i]) by {
        assert(before[i] == s[i]);
    }
    assert(s =~= before + trimmed(s) + behind);
    if m > 0 {
        assert(trimmed(s)[0] == s[n]);
        assert(trimmed(s).last() == rest[m - 1]);
    }
}

proof fn leading_gap(gap: Seq<char>, s: Seq<char>)
    requires
        is_blank(gap),
    ensures
        leading_space(gap + s) == gap.len() + leading_space(s),
    decreases gap.len(),
{
    if gap.len() > 0 {
        let rest = gap.skip(1);
        assert forall|i: int| 0 <= i < rest.len() implies is_space(#[trigger] rest[i]) by {
            assert(rest[i] == gap[i + 1]);
        }
        leading_gap(rest, s);
        assert((gap + s)[0] == gap[0]);
        assert((gap + s).skip(1) =~= rest + s);
    } else {
        assert(gap + s =~= s);
    }
}

proof fn trailing_gap(s: Seq<char>, gap: Seq<char>)
    requires
        is_blank(gap),
    ensures
        trailing_end(s + gap) == trailing_end(s),
    decreases gap.len(),
{
    if gap.len() > 0 {
        let rest = gap.drop_last();
        assert forall|i: int| 0 <= i < rest.len() implies is_space(#[trigger] rest[i]) by {
            assert(rest[i] == gap[i]);
        }
        trailing_gap(s, rest);
        assert((s + gap).last() == gap[gap.len() - 1]);
        assert((s + gap).drop_last() =~= s + rest);
    } else {
        assert(s + gap =~= s);
    }
}

/// A text that neither starts nor ends with white space is what trimming leaves of
/// it, whatever white space is put around it.
pub proof fn trimming_finds_what_is_inside(before: Seq<char>, inside: Seq<char>, behind: Seq<char>)
    requires
        is_blank(before),
        is_blank(behind),
        inside.len() > 0,
        !is_space(inside[0]),
        !is_space(inside.last()),
    ensures
        trimmed(before + inside + behind) == inside,
{
    let s = before + inside + behind;
    assert(s =~= before + (inside + behind));
    leading_gap(before, inside + behind);
    assert((inside + behind)[0] == inside[0]);
    assert(leading_space(inside + behind) == 0);
    let rest = s.skip(before.len() as int);
    assert(rest =~= inside + behind);
    trailing_gap(inside, behind);
    assert(rest.take(inside.len() as int) =~= inside);
}

/// Where the first mark stands: no character before it is one.
pub proof fn before_is_the_first(s: Seq<char>, mark: char)
    ensures
        before(s, mark) <= s.len(),
        forall|i: int| 0 <= i < before(s, mark) ==> #[trigger] s[i] != mark,
        before(s, mark) < s.len() ==> s[before(s, mark) as int] == mark,
    decreases s.len(),
{
    if s.len() > 0 && s[0] != mark {
        before_is_the_first(s.skip(1), mark);
        assert forall|i: int| 0 <= i < before(s, mark) implies #[trigger] s[i] != mark by {
            if i > 0 {
                assert(s.skip(1)[i - 1] == s[i]);
            }
        }
    }
}

/// Several texts with a mark between each two.
pub open spec fn marked(pieces: Seq<Seq<char>>, mark: char) -> Seq<char>
    decreases pieces.len(),
{
    if pieces.len() == 0 {
        Seq::empty()
    } else if pieces.len() == 1 {
        pieces[0]
    } else {
        pieces[0] + seq![mark] + marked(pieces.skip(1), mark)
    }
}

/// Cutting a text at its marks loses nothing and leaves no mark: the pieces with a
/// mark between each two are the text again, and none has a mark in it.
pub proof fn pieces_make_the_text(s: Seq<char>, mark: char)
    ensures
        pieces_of(s, mark).len() > 0,
        marked(pieces_of(s, mark), mark) == s,
        forall|i: int|
            0 <= i < pieces_of(s, mark).len() ==> !(#[trigger] pieces_of(s, mark)[i]).contains(mark),
    decreases s.len(),
{
    before_is_the_first(s, mark);
    let n = before(s, mark) as int;
    let all = pieces_of(s, mark);
    if n < s.len() {
        let rest = s.skip(n + 1);
        pieces_make_the_text(rest, mark);
        let more = pieces_of(rest, mark);
        assert(all.skip(1) =~= more);
        assert(s =~= s.take(n) + seq![mark] + rest);
        assert forall|i: int| 0 <= i < all.len() implies !(#[trigger] all[i]).contains(mark) by {
            if i > 0 {
                assert(all[i] == more[i - 1]);
            } else if s.take(n).contains(mark) {
                let k = s.take(n).index_of(mark);
                assert(s[k] == mark);
            }
        }
    } else if s.contains(mark) {
        let k = s.index_of(mark);
        assert(s[k] == mark);
    }
}

/// Several texts that have no mark in them, with a mark between each two, are cut
/// into those texts.
pub proof fn marked_texts_are_cut_apart(pieces: Seq<Seq<char>>, mark: char)
    requires
        pieces.len() > 0,
        forall|i: int| 0 <= i < pieces.len() ==> !(#[trigger] pieces[i]).contains(mark),
    ensures
        pieces_of(marked(pieces, mark), mark) == pieces,
    decreases pieces.len(),
{
    let s = marked(pieces, mark);
    let first = pieces[0];
    let n = first.len() as int;
    if pieces.len() == 1 {
        assert forall|i: int| 0 <= i < n implies #[trigger] s[i] != mark by {
            assert(first.contains(first[i]));
        }
        first_mark_is_at(s, mark, n);
        assert(pieces_of(s, mark) =~= pieces);
    } else {
        let more = pieces.skip(1);
        assert forall|i: int| 0 <= i < more.len() implies !(#[trigger] more[i]).contains(mark) by {
            assert(more[i] == pieces[i + 1]);
        }
        marked_texts_are_cut_apart(more, mark);
        assert forall|i: int| 0 <= i < n implies #[trigger] s[i] != mark by {
            assert(first.contains(first[i]));
        }
        assert(s[n] == mark);
        first_mark_is_at(s, mark, n);
        assert(s.take(n) =~= first);
        assert(s.skip(n + 1) =~= marked(more, mark));
        assert(pieces_of(s, mark) =~= pieces);
    }
}

/// Where the first mark is.
pub proof fn first_mark_is_at(s: Seq<char>, mark: char, n: int)
    requires
        0 <= n <= s.len(),
        forall|i: int| 0 <= i < n ==> #[trigger] s[i] != mark,
        n < s.len() ==> s[n] == mark,
    ensures
        before(s, mark) == n,
    decreases s.len(),
{
    before_is_the_first(s, mark);
    let b = before(s, mark) as int;
    if b < n {
        assert(s[b] == mark);
        assert(s.contains(s[b]));
    }
}

/// Lower case: the Latin capitals become the letters of the same place in the small
/// alphabet, and nothing else changes.
pub proof fn lower_case_is_the_same_letter(c: char)
    ensures
        'A' as u32 <= c as u32 <= 'Z' as u32 ==> 'a' as u32 <= lower(c) as u32 <= 'z' as u32 && lower(c) as u32 - 'a' as u32 == c as u32
            - 'A' as u32,
        !('A' as u32 <= c as u32 <= 'Z' as u32) ==> lower(c) == c,
        lower(lower(c)) == lower(c),
{
}

} // verus!

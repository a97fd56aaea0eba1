//! How a report is laid out as JSON.
//!
//! Money and quantities stand in strings, never in JSON numbers: those are
//! doubles, and a fixed-point value that goes through one is not the value any
//! more.
use vstd::prelude::*;

use crate::text;
use crate::text::{chars_of, glue, padded_string, said, Glyph, Text};

verus! {

/// What stands for a character in a JSON string.
pub open spec fn escaped(c: char) -> Seq<char> {
    if c == '"' {
        "\\\""@
    } else if c == '\\' {
        "\\\\"@
    } else if c == '\n' {
        "\\n"@
    } else if c == '\r' {
        "\\r"@
    } else if c == '\t' {
        "\\t"@
    } else if (c as u32) < 0x20 {
        "\\u"@ + text::base_padded(c as nat, 16, 4)
    } else {
        seq![c]
    }
}

/// What stands for characters in a JSON string.
pub open spec fn body_of(s: Seq<char>) -> Seq<char>
    decreases s.len(),
{
    if s.len() == 0 {
        Seq::empty()
    } else {
        body_of(s.drop_last()) + escaped(s.last())
    }
}

/// Characters as a JSON string.
pub open spec fn quoted_of(s: Seq<char>) -> Seq<char> {
    "\""@ + body_of(s) + "\""@
}

fn escape(c: char) -> (s: String)
    ensures
        s@ == escaped(c),
{
    if c == '"' {
        said("\\\"")
    } else if c == '\\' {
        said("\\\\")
    } else if c == '\n' {
        said("\\n")
    } else if c == '\r' {
        said("\\r")
    } else if c == '\t' {
        said("\\t")
    } else if (c as u32) < 0x20 {
        let code = padded_string(c as u128, 16, 4);
        glue("\\u", code.as_str())
    } else {
        let mut s = String::new();
        s.push(c);
        assert(s@ =~= seq![c]);
        s
    }
}

/// Quotes a string for JSON. Symbols come from a recording's header, which is
/// bytes a venue chose, so nothing is taken to be tame.
pub fn quoted(s: &str) -> (q: String)
    ensures
        q@ == quoted_of(s@),
{
    let chars = chars_of(s);
    let mut body = String::new();
    let mut i: usize = 0;
    assert(s@.take(0) =~= Seq::empty());
    assert(body@ =~= body_of(s@.take(0)));
    while i < chars.len()
        invariant
            i <= chars@.len(),
            chars@ == s@,
            body@ == body_of(s@.take(i as int)),
        decreases chars@.len() - i,
    {
        let e = escape(chars[i]);
        body.append(e.as_str());
        assert(s@.take(i + 1).drop_last() =~= s@.take(i as int));
        i += 1;
    }
    assert(s@.take(i as int) =~= s@);
    let opened = glue("\"", body.as_str());
    glue(opened.as_str(), "\"")
}

proof fn escaped_is_tame(c: char)
    ensures
        escaped(c).len() > 0,
        escaped(c)[0] != '"',
        forall|i: int| 0 <= i < escaped(c).len() ==> (#[trigger] escaped(c)[i]) as u32 >= 0x20,
        forall|i: int|
            0 < i < escaped(c).len() && #[trigger] escaped(c)[i] == '"' ==> escaped(c)[i - 1]
                == '\\',
{
    reveal_strlit("\\\"");
    reveal_strlit("\\\\");
    reveal_strlit("\\n");
    reveal_strlit("\\r");
    reveal_strlit("\\t");
    reveal_strlit("\\u");
    if (c as u32) < 0x20 {
        let n = c as nat;
        reveal_with_fuel(text::base_padded, 5);
        assert(text::base_padded(n, 16, 4).len() == 4);
    }
}

/// A quoted string holds no control character, and no quote mark within it
/// without a backslash before it.
pub proof fn quoted_is_tame(s: Seq<char>)
    ensures
        forall|i: int| 0 <= i < body_of(s).len() ==> (#[trigger] body_of(s)[i]) as u32 >= 0x20,
        forall|i: int|
            0 <= i < body_of(s).len() && #[trigger] body_of(s)[i] == '"' ==> i > 0 && body_of(
                s,
            )[i - 1] == '\\',
    decreases s.len(),
{
    if s.len() > 0 {
        quoted_is_tame(s.drop_last());
        escaped_is_tame(s.last());
        let before = body_of(s.drop_last());
        let last = escaped(s.last());
        assert forall|i: int| 0 <= i < body_of(s).len() implies (#[trigger] body_of(s)[i]) as u32
            >= 0x20 by {
            if i < before.len() {
                assert(body_of(s)[i] == before[i]);
            } else {
                assert(body_of(s)[i] == last[i - before.len()]);
            }
        }
        assert forall|i: int|
            0 <= i < body_of(s).len() && #[trigger] body_of(s)[i] == '"' implies i > 0 && body_of(
            s,
        )[i - 1] == '\\' by {
            if i < before.len() {
                assert(body_of(s)[i] == before[i]);
                assert(body_of(s)[i - 1] == before[i - 1]);
            } else {
                let k = i - before.len();
                assert(body_of(s)[i] == last[k]);
                assert(k > 0);
                assert(body_of(s)[i - 1] == last[k - 1]);
            }
        }
    }
}

/// What a hexadecimal digit counts for.
pub open spec fn hex_value(c: char) -> Option<nat> {
    if '0' <= c <= '9' {
        Some((c as nat - 48) as nat)
    } else if 'a' <= c <= 'f' {
        Some((c as nat - 87) as nat)
    } else if 'A' <= c <= 'F' {
        Some((c as nat - 55) as nat)
    } else {
        None
    }
}

/// The character that four hexadecimal digits name, where they name one.
pub open spec fn hex_char(a: char, b: char, c: char, d: char) -> Option<char> {
    match (hex_value(a), hex_value(b), hex_value(c), hex_value(d)) {
        (Some(a), Some(b), Some(c), Some(d)) => {
            let code = ((a * 16 + b) * 16 + c) * 16 + d;
            if code < 0xd800 || 0xe000 <= code {
                Some(code as char)
            } else {
                None
            }
        },
        _ => None,
    }
}

/// The character that an escape stands for, and how long the escape is.
pub open spec fn unescaped(s: Seq<char>) -> Option<(char, int)> {
    if s.len() < 2 {
        None
    } else if s[1] == '"' || s[1] == '\\' || s[1] == '/' {
        Some((s[1], 2))
    } else if s[1] == 'b' {
        Some(('\u{8}', 2))
    } else if s[1] == 'f' {
        Some(('\u{c}', 2))
    } else if s[1] == 'n' {
        Some(('\n', 2))
    } else if s[1] == 'r' {
        Some(('\r', 2))
    } else if s[1] == 't' {
        Some(('\t', 2))
    } else if s[1] == 'u' && s.len() >= 6 {
        match hex_char(s[2], s[3], s[4], s[5]) {
            Some(c) => Some((c, 6)),
            None => None,
        }
    } else {
        None
    }
}

/// The text that stands between the marks of a JSON string, read as JSON reads
/// it. Halves of a surrogate pair name no character and are not read.
pub open spec fn read_body(s: Seq<char>) -> Option<Seq<char>>
    decreases s.len(),
{
    if s.len() == 0 {
        Some(Seq::empty())
    } else if s[0] == '"' || (s[0] as u32) < 0x20 {
        None
    } else {
        let (c, len) = if s[0] != '\\' {
            (s[0], 1)
        } else {
            match unescaped(s) {
                Some(pair) => pair,
                None => (s[0], 0),
            }
        };
        if len <= 0 {
            None
        } else {
            match read_body(s.skip(len)) {
                Some(rest) => Some(seq![c] + rest),
                None => None,
            }
        }
    }
}

/// The text of a JSON string.
pub open spec fn read_quoted(s: Seq<char>) -> Option<Seq<char>> {
    if s.len() >= 2 && s[0] == '"' && s.last() == '"' {
        read_body(s.subrange(1, s.len() - 1))
    } else {
        None
    }
}

proof fn escape_reads_back(c: char, rest: Seq<char>)
    ensures
        read_body(escaped(c) + rest) == match read_body(rest) {
            Some(text) => Some(seq![c] + text),
            None => None,
        },
{
    reveal_strlit("\\\"");
    reveal_strlit("\\\\");
    reveal_strlit("\\n");
    reveal_strlit("\\r");
    reveal_strlit("\\t");
    reveal_strlit("\\u");
    let s = escaped(c) + rest;
    let len = escaped(c).len() as int;
    if (c as u32) < 0x20 && c != '\n' && c != '\r' && c != '\t' {
        let n = c as nat;
        reveal_with_fuel(text::base_padded, 5);
        assert(text::base_padded(n, 16, 4) =~= seq![
            '0',
            '0',
            text::hex_digit(n / 16),
            text::hex_digit(n % 16),
        ]);
        assert(s[0] == '\\' && s[1] == 'u' && s[2] == '0' && s[3] == '0');
        assert(s[4] == text::hex_digit(n / 16) && s[5] == text::hex_digit(n % 16));
        assert(hex_value(s[4]) == Some(n / 16));
        assert(hex_value(s[5]) == Some(n % 16));
        assert(unescaped(s) == Some((c, 6int)));
    }
    assert(s.skip(len) =~= rest);
}

proof fn body_from_the_front(s: Seq<char>)
    requires
        s.len() > 0,
    ensures
        body_of(s) == escaped(s[0]) + body_of(s.drop_first()),
    decreases s.len(),
{
    if s.len() == 1 {
        assert(s.drop_last() =~= Seq::empty());
        assert(s.drop_first() =~= Seq::empty());
        assert(body_of(s) =~= escaped(s[0]) + body_of(s.drop_first()));
    } else {
        body_from_the_front(s.drop_last());
        assert(s.drop_last().drop_first() =~= s.drop_first().drop_last());
        assert(body_of(s) =~= escaped(s[0]) + body_of(s.drop_first()));
    }
}

proof fn body_reads_back(s: Seq<char>)
    ensures
        read_body(body_of(s)) == Some(s),
    decreases s.len(),
{
    if s.len() == 0 {
        assert(s =~= Seq::empty());
    } else {
        body_from_the_front(s);
        body_reads_back(s.drop_first());
        escape_reads_back(s[0], body_of(s.drop_first()));
        assert(seq![s[0]] + s.drop_first() =~= s);
    }
}

/// A quoted string reads back as the text it was made of, whatever that holds.
pub proof fn quoted_reads_back(s: Seq<char>)
    ensures
        read_quoted(quoted_of(s)) == Some(s),
{
    reveal_strlit("\"");
    body_reads_back(s);
    assert(quoted_of(s).subrange(1, quoted_of(s).len() - 1) =~= body_of(s));
}

/// A named value.
#[derive(Debug)]
pub struct Member {
    pub key: &'static str,
    pub value: Text,
}

/// A [`Member`] with its name as characters and its value as glyphs.
pub struct MemberView {
    pub key: Seq<char>,
    pub value: Seq<Glyph>,
}

impl View for Member {
    type V = MemberView;

    open spec fn view(&self) -> MemberView {
        MemberView { key: self.key@, value: self.value@ }
    }
}

/// Several named values.
pub open spec fn members_of(members: Seq<Member>) -> Seq<MemberView> {
    Seq::new(members.len(), |i: int| members[i]@)
}

/// A named value as it is written.
pub open spec fn named(member: MemberView) -> Seq<Glyph> {
    text::glyphs_of("\""@) + text::glyphs_of(member.key) + text::glyphs_of("\": "@) + member.value
}

/// What separates the `i`th of `n` lines from the next.
pub open spec fn comma(i: int, n: int) -> Seq<Glyph> {
    if i + 1 < n {
        text::glyphs_of(","@)
    } else {
        Seq::empty()
    }
}

/// The first `n` named values in one line.
pub open spec fn in_line(members: Seq<MemberView>, n: int) -> Seq<Glyph>
    decreases n,
{
    if n <= 0 {
        Seq::empty()
    } else if n == 1 {
        named(members[0])
    } else {
        in_line(members, n - 1) + text::glyphs_of(", "@) + named(members[n - 1])
    }
}

/// An object in one line.
pub open spec fn row_of(members: Seq<MemberView>) -> Seq<Glyph> {
    text::glyphs_of("{"@) + in_line(members, members.len() as int) + text::glyphs_of("}"@)
}

/// The line that opens a part of the document.
pub open spec fn head_of(name: Seq<char>, open: Seq<char>) -> Seq<Glyph> {
    text::glyphs_of("  \""@) + text::glyphs_of(name) + text::glyphs_of("\": "@) + text::glyphs_of(
        open,
    )
}

/// Lines set in, with a comma behind each but the last.
pub open spec fn set_in(lines: Seq<Seq<Glyph>>) -> Seq<Seq<Glyph>> {
    Seq::new(
        lines.len(),
        |i: int| text::glyphs_of("    "@) + lines[i] + comma(i, lines.len() as int),
    )
}

/// Named values as lines.
pub open spec fn fields_of(members: Seq<MemberView>) -> Seq<Seq<Glyph>> {
    Seq::new(members.len(), |i: int| named(members[i]))
}

/// A part that holds an object, a line to each member.
pub open spec fn block_of(name: Seq<char>, members: Seq<MemberView>) -> Seq<Seq<Glyph>> {
    seq![head_of(name, "{"@)] + set_in(fields_of(members)) + seq![text::glyphs_of("  }"@)]
}

/// A part that holds an array, a line to each element.
pub open spec fn table_of(name: Seq<char>, rows: Seq<Seq<Glyph>>) -> Seq<Seq<Glyph>> {
    seq![head_of(name, "["@)] + set_in(rows) + seq![text::glyphs_of("  ]"@)]
}

/// A part that holds an array, with a blank line where it has no element.
pub open spec fn listing_of(name: Seq<char>, rows: Seq<Seq<Glyph>>) -> Seq<Seq<Glyph>> {
    if rows.len() == 0 {
        seq![head_of(name, "["@), Seq::empty(), text::glyphs_of("  ]"@)]
    } else {
        table_of(name, rows)
    }
}

/// Lines with a comma behind the last.
pub open spec fn going_on(part: Seq<Seq<Glyph>>) -> Seq<Seq<Glyph>> {
    part.drop_last().push(part.last() + text::glyphs_of(","@))
}

/// The first `n` parts, each but the last of all with a comma behind it.
pub open spec fn parts_of(parts: Seq<Seq<Seq<Glyph>>>, n: int) -> Seq<Seq<Glyph>>
    decreases n,
{
    if n <= 0 {
        Seq::empty()
    } else {
        parts_of(parts, n - 1) + if n < parts.len() {
            going_on(parts[n - 1])
        } else {
            parts[n - 1]
        }
    }
}

/// The document that parts make.
pub open spec fn document_of(parts: Seq<Seq<Seq<Glyph>>>) -> Seq<Seq<Glyph>> {
    seq![text::glyphs_of("{"@)] + parts_of(parts, parts.len() as int) + seq![
        text::glyphs_of("}"@),
    ]
}

impl Member {
    /// A named value.
    pub fn new(key: &'static str, value: Text) -> (member: Member)
        ensures
            member@ == (MemberView { key: key@, value: value@ }),
    {
        Member { key, value }
    }

    fn write_to(&self, t: &mut Text)
        ensures
            final(t)@ == old(t)@ + named(self@),
    {
        t.lit("\"");
        t.lit(self.key);
        t.lit("\": ");
        t.join(&self.value);
        assert(t@ =~= old(t)@ + named(self@));
    }
}

/// An object in one line.
pub fn row(members: &[Member]) -> (row: Text)
    ensures
        row@ == row_of(members_of(members@)),
{
    let ghost m = members_of(members@);
    let mut t = Text::new();
    t.lit("{");
    let mut i: usize = 0;
    assert(t@ =~= text::glyphs_of("{"@) + in_line(m, 0));
    while i < members.len()
        invariant
            i <= members@.len(),
            m == members_of(members@),
            t@ == text::glyphs_of("{"@) + in_line(m, i as int),
        decreases members@.len() - i,
    {
        if i > 0 {
            t.lit(", ");
        }
        assert(m[i as int] == members@[i as int]@);
        members[i].write_to(&mut t);
        i += 1;
        assert(t@ =~= text::glyphs_of("{"@) + in_line(m, i as int));
    }
    t.lit("}");
    t
}

/// The line that opens a part of the document.
pub fn head(name: &str, open: &str) -> (head: Text)
    ensures
        head@ == head_of(name@, open@),
{
    let mut t = Text::new();
    t.lit("  \"");
    t.lit(name);
    t.lit("\": ");
    t.lit(open);
    assert(t@ =~= head_of(name@, open@));
    t
}

fn line(s: &str) -> (line: Text)
    ensures
        line@ == text::glyphs_of(s@),
{
    let mut t = Text::new();
    t.lit(s);
    assert(t@ =~= text::glyphs_of(s@));
    t
}

/// Appends lines set in.
fn put_in(lines: &mut Vec<Text>, rows: &[Text])
    ensures
        text::lines_of(final(lines)@) == text::lines_of(old(lines)@) + set_in(text::lines_of(rows@)),
{
    let ghost r = text::lines_of(rows@);
    let ghost had = text::lines_of(lines@);
    let mut i: usize = 0;
    assert(set_in(r).take(0) =~= Seq::empty());
    assert(had + set_in(r).take(0) =~= had);
    while i < rows.len()
        invariant
            i <= rows@.len(),
            r == text::lines_of(rows@),
            text::lines_of(lines@) == had + set_in(r).take(i as int),
        decreases rows@.len() - i,
    {
        let mut t = Text::new();
        t.lit("    ");
        t.join(&rows[i]);
        if i + 1 < rows.len() {
            t.lit(",");
        }
        let ghost before = text::lines_of(lines@);
        assert(t@ =~= set_in(r)[i as int]);
        lines.push(t);
        assert(text::lines_of(lines@) =~= before.push(t@));
        i += 1;
        assert(set_in(r).take(i as int) =~= set_in(r).take(i - 1).push(t@));
        assert(text::lines_of(lines@) =~= had + set_in(r).take(i as int));
    }
    assert(set_in(r).take(i as int) =~= set_in(r));
}

/// A part that holds an object, a line to each member.
pub fn block(name: &str, members: &[Member]) -> (part: Vec<Text>)
    ensures
        text::lines_of(part@) == block_of(name@, members_of(members@)),
        part@.len() > 0,
{
    let ghost m = members_of(members@);
    let mut fields: Vec<Text> = Vec::new();
    let mut i: usize = 0;
    assert(text::lines_of(fields@) =~= fields_of(m).take(0));
    while i < members.len()
        invariant
            i <= members@.len(),
            m == members_of(members@),
            text::lines_of(fields@) == fields_of(m).take(i as int),
        decreases members@.len() - i,
    {
        let mut t = Text::new();
        members[i].write_to(&mut t);
        assert(m[i as int] == members@[i as int]@);
        assert(t@ =~= fields_of(m)[i as int]);
        let ghost before = text::lines_of(fields@);
        fields.push(t);
        assert(text::lines_of(fields@) =~= before.push(t@));
        i += 1;
        assert(fields_of(m).take(i as int) =~= fields_of(m).take(i - 1).push(t@));
    }
    assert(fields_of(m).take(i as int) =~= fields_of(m));
    let mut part: Vec<Text> = Vec::new();
    part.push(head(name, "{"));
    assert(text::lines_of(part@) =~= seq![head_of(name@, "{"@)]);
    put_in(&mut part, fields.as_slice());
    let ghost before = text::lines_of(part@);
    part.push(line("  }"));
    assert(text::lines_of(part@) =~= before.push(text::glyphs_of("  }"@)));
    assert(text::lines_of(part@) =~= block_of(name@, m));
    part
}

/// A part that holds an array, a line to each element.
pub fn table(name: &str, rows: &[Text]) -> (part: Vec<Text>)
    ensures
        text::lines_of(part@) == table_of(name@, text::lines_of(rows@)),
        part@.len() > 0,
{
    let mut part: Vec<Text> = Vec::new();
    part.push(head(name, "["));
    assert(text::lines_of(part@) =~= seq![head_of(name@, "["@)]);
    put_in(&mut part, rows);
    let ghost before = text::lines_of(part@);
    part.push(line("  ]"));
    assert(text::lines_of(part@) =~= before.push(text::glyphs_of("  ]"@)));
    assert(text::lines_of(part@) =~= table_of(name@, text::lines_of(rows@)));
    part
}

/// A part that holds an array, with a blank line where it has no element.
pub fn listing(name: &str, rows: &[Text]) -> (part: Vec<Text>)
    ensures
        text::lines_of(part@) == listing_of(name@, text::lines_of(rows@)),
        part@.len() > 0,
{
    if rows.len() == 0 {
        let mut part: Vec<Text> = Vec::new();
        part.push(head(name, "["));
        part.push(Text::new());
        part.push(line("  ]"));
        assert(text::lines_of(part@) =~= listing_of(name@, text::lines_of(rows@)));
        part
    } else {
        table(name, rows)
    }
}

/// The lines of several parts.
pub open spec fn parts_view(parts: Seq<Vec<Text>>) -> Seq<Seq<Seq<Glyph>>> {
    Seq::new(parts.len(), |i: int| text::lines_of(parts[i]@))
}

/// The document that parts make. No part is empty.
pub fn document(parts: Vec<Vec<Text>>) -> (lines: Vec<Text>)
    requires
        forall|i: int| 0 <= i < parts@.len() ==> (#[trigger] parts@[i])@.len() > 0,
    ensures
        text::lines_of(lines@) == document_of(parts_view(parts@)),
{
    let ghost p = parts_view(parts@);
    let mut lines: Vec<Text> = Vec::new();
    lines.push(line("{"));
    let ghost first = text::lines_of(lines@);
    assert(first =~= seq![text::glyphs_of("{"@)]);
    let mut i: usize = 0;
    assert(text::lines_of(lines@) =~= first + parts_of(p, 0));
    while i < parts.len()
        invariant
            i <= parts@.len(),
            p == parts_view(parts@),
            forall|i: int| 0 <= i < parts@.len() ==> (#[trigger] parts@[i])@.len() > 0,
            text::lines_of(lines@) == first + parts_of(p, i as int),
        decreases parts@.len() - i,
    {
        put_part(&mut lines, parts[i].as_slice(), i + 1 < parts.len());
        assert(p[i as int] == text::lines_of(parts@[i as int]@));
        i += 1;
        assert(text::lines_of(lines@) =~= first + parts_of(p, i as int));
    }
    let ghost before = text::lines_of(lines@);
    lines.push(line("}"));
    assert(text::lines_of(lines@) =~= before.push(text::glyphs_of("}"@)));
    assert(text::lines_of(lines@) =~= document_of(p));
    lines
}

/// Appends the lines of a part, with a comma behind the last where others follow.
fn put_part(lines: &mut Vec<Text>, part: &[Text], more: bool)
    requires
        part@.len() > 0,
    ensures
        text::lines_of(final(lines)@) == text::lines_of(old(lines)@) + if more {
            going_on(text::lines_of(part@))
        } else {
            text::lines_of(part@)
        },
{
    let ghost had = text::lines_of(lines@);
    let ghost out = if more {
        going_on(text::lines_of(part@))
    } else {
        text::lines_of(part@)
    };
    let mut i: usize = 0;
    assert(had + out.take(0) =~= had);
    while i < part.len()
        invariant
            i <= part@.len(),
            part@.len() > 0,
            out == if more {
                going_on(text::lines_of(part@))
            } else {
                text::lines_of(part@)
            },
            text::lines_of(lines@) == had + out.take(i as int),
        decreases part@.len() - i,
    {
        let mut t = Text::new();
        t.join(&part[i]);
        if more && i + 1 == part.len() {
            t.lit(",");
        }
        assert(t@ =~= out[i as int]);
        let ghost before = text::lines_of(lines@);
        lines.push(t);
        assert(text::lines_of(lines@) =~= before.push(t@));
        i += 1;
        assert(out.take(i as int) =~= out.take(i - 1).push(t@));
        assert(text::lines_of(lines@) =~= had + out.take(i as int));
    }
    assert(out.take(i as int) =~= out);
}

/// The first `n` elements in one line.
pub open spec fn joined(rows: Seq<Seq<Glyph>>, n: int) -> Seq<Glyph>
    decreases n,
{
    if n <= 0 {
        Seq::empty()
    } else if n == 1 {
        rows[0]
    } else {
        joined(rows, n - 1) + text::glyphs_of(", "@) + rows[n - 1]
    }
}

/// An array in one line.
pub open spec fn array_of(rows: Seq<Seq<Glyph>>) -> Seq<Glyph> {
    text::glyphs_of("["@) + joined(rows, rows.len() as int) + text::glyphs_of("]"@)
}

/// An array in one line.
pub fn array(rows: &[Text]) -> (array: Text)
    ensures
        array@ == array_of(text::lines_of(rows@)),
{
    let ghost r = text::lines_of(rows@);
    let mut t = Text::new();
    t.lit("[");
    let mut i: usize = 0;
    assert(t@ =~= text::glyphs_of("["@) + joined(r, 0));
    while i < rows.len()
        invariant
            i <= rows@.len(),
            r == text::lines_of(rows@),
            t@ == text::glyphs_of("["@) + joined(r, i as int),
        decreases rows@.len() - i,
    {
        if i > 0 {
            t.lit(", ");
        }
        assert(r[i as int] == rows@[i as int]@);
        t.join(&rows[i]);
        i += 1;
        assert(t@ =~= text::glyphs_of("["@) + joined(r, i as int));
    }
    t.lit("]");
    t
}

/// A number as a value.
pub open spec fn number_of(n: int) -> Seq<Glyph> {
    text::glyphs_of(text::decimal(n))
}

/// Characters as a value.
pub open spec fn string_of(s: Seq<char>) -> Seq<Glyph> {
    text::glyphs_of(quoted_of(s))
}

/// A fixed-point amount as a value: a string, for its printer to render.
pub open spec fn exact_of(glyph: Glyph) -> Seq<Glyph> {
    text::glyphs_of("\""@) + seq![glyph] + text::glyphs_of("\""@)
}

/// Whether something holds, as a value.
pub open spec fn truth_of(b: bool) -> Seq<Glyph> {
    text::glyphs_of(
        if b {
            "true"@
        } else {
            "false"@
        },
    )
}

/// A number as a value.
pub fn number(n: i128) -> (value: Text)
    ensures
        value@ == number_of(n as int),
{
    let mut t = Text::new();
    t.signed(n);
    assert(t@ =~= number_of(n as int));
    t
}

/// Characters as a value.
pub fn string(s: &str) -> (value: Text)
    ensures
        value@ == string_of(s@),
{
    line(quoted(s).as_str())
}

/// A fixed-point amount as a value.
pub fn exact(glyph: Glyph) -> (value: Text)
    ensures
        value@ == exact_of(glyph),
{
    let mut t = Text::new();
    t.lit("\"");
    t.glyphs.push(glyph);
    t.lit("\"");
    assert(t@ =~= exact_of(glyph));
    t
}

/// Whether something holds, as a value.
pub fn truth(b: bool) -> (value: Text)
    ensures
        value@ == truth_of(b),
{
    line(
        if b {
            "true"
        } else {
            "false"
        },
    )
}

/// Nothing, as a value.
pub fn null() -> (value: Text)
    ensures
        value@ == text::glyphs_of("null"@),
{
    line("null")
}

} // verus!

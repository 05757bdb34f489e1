//! The text of diagnostics that point at a line of a source file.

use vstd::prelude::*;
use vstd::string::*;
use crate::text::{decimal, push_char, push_decimal};

verus! {

/// `n` spaces.
pub open spec fn spaces(n: nat) -> Seq<char> {
    Seq::new(n, |i: int| ' ')
}

/// The lines of a diagnostic of kind `label` (such as `warning` or `error`)
/// about line `line` (counted from 1) of `source`, the lines of
/// `source_file`:
///
/// ```text
/// label: message
///  --> source_file:line
///    |
/// line | text of that line
///    |
/// ```
pub open spec fn diagnostic(
    label: Seq<char>,
    source_file: Seq<char>,
    source: Seq<Seq<char>>,
    line: nat,
    message: Seq<char>,
) -> Seq<Seq<char>> {
    let number = decimal(line);
    let spacing = spaces(number.len());
    seq![
        label + ": "@ + message,
        " --> "@ + source_file + ":"@ + number,
        spacing + " |"@,
        number + " | "@ + source[line - 1],
        spacing + " |"@,
    ]
}

fn spacing_line(width: usize) -> (r: String)
    ensures
        r@ == spaces(width as nat) + " |"@,
{
    let mut s = String::new();
    let mut i: usize = 0;
    while i < width
        invariant
            i <= width,
            s@ == spaces(i as nat),
        decreases width - i,
    {
        push_char(&mut s, ' ');
        i = i + 1;
        proof {
            assert(s@ =~= spaces(i as nat));
        }
    }
    s.append(" |");
    s
}

/// The lines of a diagnostic, as `diagnostic` states them. The line must
/// exist.
pub fn diagnostic_lines(
    label: &str,
    source_file: &str,
    source: &Vec<String>,
    line: u32,
    message: &str,
) -> (r: Vec<String>)
    requires
        1 <= line <= source@.len(),
    ensures
        r@.map_values(|l: String| l@) == diagnostic(
            label@,
            source_file@,
            source@.map_values(|l: String| l@),
            line as nat,
            message@,
        ),
{
    let mut number = String::new();
    push_decimal(&mut number, line as u64);

    let mut first = String::from_str(label);
    first.append(": ");
    first.append(message);

    let mut second = String::from_str(" --> ");
    second.append(source_file);
    second.append(":");
    second.append(number.as_str());

    let width = number.as_str().unicode_len();
    let third = spacing_line(width);

    let mut fourth = number.clone();
    fourth.append(" | ");
    fourth.append(source[(line - 1) as usize].as_str());

    let fifth = spacing_line(width);

    let mut lines: Vec<String> = Vec::new();
    lines.push(first);
    lines.push(second);
    lines.push(third);
    lines.push(fourth);
    lines.push(fifth);
    proof {
        assert(lines@.map_values(|l: String| l@) =~= diagnostic(
            label@,
            source_file@,
            source@.map_values(|l: String| l@),
            line as nat,
            message@,
        ));
    }
    lines
}


/// A diagnostic quotes the line that it reports: its first line is the
/// label and the message; its fourth line is the line number that its
/// second line ends with, ` | `, and the text of that very line of the
/// source, between two gutter lines as wide as that number; and it depends
/// on no other line of the source.
pub proof fn lemma_diagnostic_quotes_its_line(
    label: Seq<char>,
    source_file: Seq<char>,
    source: Seq<Seq<char>>,
    other: Seq<Seq<char>>,
    line: nat,
    message: Seq<char>,
)
    requires
        1 <= line <= source.len(),
    ensures
        ({
            let d = diagnostic(label, source_file, source, line, message);
            let number = d[1].skip(source_file.len() + 6int);
            &&& d.len() == 5
            &&& d[1] == " --> "@ + source_file + ":"@ + number
            &&& d[0] == label + ": "@ + message
            &&& d[2] == d[4]
            &&& d[2] == spaces(number.len()) + " |"@
            &&& d[3] == number + " | "@ + source[line - 1]
            &&& d[3].skip(d[3].len() - source[line - 1].len()) == source[line - 1]
        }),
        1 <= line <= other.len() && other[line - 1] == source[line - 1] ==> diagnostic(
            label,
            source_file,
            other,
            line,
            message,
        ) == diagnostic(label, source_file, source, line, message),
{
    let d = diagnostic(label, source_file, source, line, message);
    let number = decimal(line);
    reveal_strlit(" --> ");
    reveal_strlit(":");
    let head = " --> "@ + source_file + ":"@;
    assert(head.len() == source_file.len() + 6);
    assert(d[1] == head + number);
    assert((head + number).skip(head.len() as int) =~= number);
    let q = d[3];
    assert(q.skip(q.len() - source[line - 1].len()) =~= source[line - 1]);
}

} // verus!

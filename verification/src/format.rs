//! Formatting: escapes, `printf`, and tab stops.

use vstd::prelude::*;
use crate::number::{spec_whole_part, Number};
use crate::numeral::{char_to_digit, digits_value, fixed_text, in_digit, integer_chars, integer_text, to_number};
use crate::text::{char_at, copy_chars, lemma_run_members, push_all, run_end, scan_run, slice_chars, texts, CharClass};

verus! {

/// What the escape `\c` stands for; an escape that is not known stands for
/// itself, backslash included.
pub open spec fn escape_text(c: char) -> Seq<char> {
    if c == 'n' {
        seq!['\n']
    } else if c == 't' {
        seq!['\t']
    } else if c == 'r' {
        seq!['\r']
    } else if c == '\\' {
        seq!['\\']
    } else if c == '"' {
        seq!['"']
    } else {
        seq!['\\', c]
    }
}

/// `done`, followed by `text` from `pos` on with its escapes expanded. A
/// backslash at the very end stands for itself.
pub open spec fn unescaped_onto(done: Seq<char>, text: Seq<char>, pos: int) -> Seq<char>
    decreases text.len() - pos,
{
    if pos < 0 || pos >= text.len() {
        done
    } else if text[pos] != '\\' {
        unescaped_onto(done.push(text[pos]), text, pos + 1)
    } else if pos + 1 >= text.len() {
        done.push('\\')
    } else {
        unescaped_onto(done + escape_text(text[pos + 1]), text, pos + 2)
    }
}

/// `text` with its escapes expanded.
pub open spec fn unescaped(text: Seq<char>) -> Seq<char> {
    unescaped_onto(Seq::empty(), text, 0)
}

/// `count` spaces.
pub open spec fn spaces(count: nat) -> Seq<char> {
    Seq::new(count, |i: int| ' ')
}

/// `done`, followed by `text` from `pos` on with each tab replaced by the
/// spaces up to the next tab stop. `column` is the column within the tab
/// stop at which the next character stands; a newline or a carriage return
/// starts a new line.
pub open spec fn tabs_expanded_onto(
    done: Seq<char>,
    text: Seq<char>,
    pos: int,
    column: int,
    tabstop: int,
) -> Seq<char>
    decreases text.len() - pos,
{
    if pos < 0 || pos >= text.len() {
        done
    } else if text[pos] == '\t' {
        tabs_expanded_onto(done + spaces((tabstop - column) as nat), text, pos + 1, 0, tabstop)
    } else {
        tabs_expanded_onto(
            done.push(text[pos]),
            text,
            pos + 1,
            if text[pos] == '\n' || text[pos] == '\r' || column + 1 >= tabstop {
                0
            } else {
                column + 1
            },
            tabstop,
        )
    }
}

/// `text` with its tabs expanded to tab stops `tabstop` columns apart.
pub open spec fn tabs_expanded(text: Seq<char>, tabstop: int) -> Seq<char> {
    tabs_expanded_onto(Seq::empty(), text, 0, 0, tabstop)
}

/// The value of the digits `s`, or the largest count that the machine holds
/// if the value is over it.
pub open spec fn capped_value(s: Seq<char>) -> nat {
    if digits_value(s) > usize::MAX {
        usize::MAX as nat
    } else if digits_value(s) < 0 {
        0
    } else {
        digits_value(s) as nat
    }
}

/// A conversion of a `printf` format, from after its `%` up to its letter.
pub struct Directive {
    /// Whether `-` asks for the text at the left of its field.
    pub left: bool,
    /// The width of the field; 0 if none is given.
    pub width: nat,
    /// The number of decimal places, if given.
    pub precision: Option<nat>,
    /// The position of the conversion letter.
    pub end: int,
}

/// The conversion that starts at `pos`, the position after the `%`.
pub open spec fn directive_at(format: Seq<char>, pos: int) -> Directive {
    let left = char_at(format, pos) == Some('-');
    let width_at = if left {
        pos + 1
    } else {
        pos
    };
    let point_at = run_end(format, width_at, CharClass::Digit);
    let width = capped_value(format.subrange(width_at, point_at));
    if char_at(format, point_at) == Some('.') {
        let letter_at = run_end(format, point_at + 1, CharClass::Digit);
        Directive {
            left,
            width,
            precision: Some(capped_value(format.subrange(point_at + 1, letter_at))),
            end: letter_at,
        }
    } else {
        Directive { left, width, precision: None, end: point_at }
    }
}

/// `text` in a field of `width` characters: with spaces after it if `left`,
/// else before it. A text that is as long as the field or longer is left as
/// it is.
pub open spec fn padded(text: Seq<char>, width: nat, left: bool) -> Seq<char> {
    if width <= text.len() {
        text
    } else if left {
        text + spaces((width - text.len()) as nat)
    } else {
        spaces((width - text.len()) as nat) + text
    }
}

/// What the conversion `d` with the letter `letter` makes of the argument
/// `arg`: `s` the text itself, `d` its number cut off to a whole number, `f`
/// its number with six decimal places or as many as the conversion gives.
/// Any other letter leaves the conversion as it is `written` in the format.
pub open spec fn converted(letter: char, arg: Seq<char>, d: Directive, written: Seq<char>) -> Seq<
    char,
> {
    if letter == 's' {
        padded(arg, d.width, d.left)
    } else if letter == 'd' {
        padded(
            integer_text(spec_whole_part(to_number(arg), i64::MIN as int, i64::MAX as int)),
            d.width,
            d.left,
        )
    } else if letter == 'f' {
        padded(
            fixed_text(
                to_number(arg),
                match d.precision {
                    Some(p) => p,
                    None => 6,
                },
            ),
            d.width,
            d.left,
        )
    } else {
        written
    }
}

/// The argument of number `k`, or the empty text if there are not so many.
pub open spec fn argument(args: Seq<Seq<char>>, k: int) -> Seq<char> {
    if 0 <= k < args.len() {
        args[k]
    } else {
        Seq::empty()
    }
}

/// `done`, followed by what `format` from `pos` on makes of the arguments
/// from number `k` on. `%%` stands for a percent sign. A conversion with a
/// letter other than `s`, `d` and `f` is copied from its `%` through its
/// letter. A conversion without a letter ends the text with a percent sign.
pub open spec fn formatted_onto(
    done: Seq<char>,
    format: Seq<char>,
    pos: int,
    args: Seq<Seq<char>>,
    k: int,
) -> Seq<char>
    decreases format.len() - pos,
{
    if pos < 0 || pos >= format.len() {
        done
    } else if format[pos] != '%' {
        formatted_onto(done.push(format[pos]), format, pos + 1, args, k)
    } else if char_at(format, pos + 1) == Some('%') {
        formatted_onto(done.push('%'), format, pos + 2, args, k)
    } else {
        let d = directive_at(format, pos + 1);
        if pos < d.end < format.len() {
            formatted_onto(
                done + converted(
                    format[d.end],
                    argument(args, k),
                    d,
                    format.subrange(pos, d.end + 1),
                ),
                format,
                d.end + 1,
                args,
                k + 1,
            )
        } else {
            done.push('%')
        }
    }
}

/// What `format` makes of the arguments `args`.
pub open spec fn formatted(format: Seq<char>, args: Seq<Seq<char>>) -> Seq<char> {
    formatted_onto(Seq::empty(), format, 0, args, 0)
}

/// `input` with its escapes expanded.
pub fn unescape_awk_string(input: &Vec<char>) -> (output: Vec<char>)
    ensures
        output@ == unescaped(input@),
{
    let mut output: Vec<char> = Vec::new();
    let mut i: usize = 0;
    while i < input.len()
        invariant
            i <= input.len(),
            unescaped(input@) == unescaped_onto(output@, input@, i as int),
        decreases input.len() - i,
    {
        let ch = input[i];
        if ch != '\\' {
            output.push(ch);
            i += 1;
        } else if i + 1 >= input.len() {
            output.push('\\');
            return output;
        } else {
            let ghost before = output@;
            let next = input[i + 1];
            if next == 'n' {
                output.push('\n');
            } else if next == 't' {
                output.push('\t');
            } else if next == 'r' {
                output.push('\r');
            } else if next == '\\' {
                output.push('\\');
            } else if next == '"' {
                output.push('"');
            } else {
                output.push('\\');
                output.push(next);
            }
            assert(output@ =~= before + escape_text(next));
            i += 2;
        }
    }
    output
}

/// Appends `count` spaces to `out`.
fn push_spaces(out: &mut Vec<char>, count: usize)
    ensures
        final(out)@ == old(out)@ + spaces(count as nat),
{
    let ghost before = out@;
    let mut i: usize = 0;
    assert(before + spaces(0) =~= before);
    while i < count
        invariant
            i <= count,
            out@ == before + spaces(i as nat),
        decreases count - i,
    {
        out.push(' ');
        assert(before + spaces((i + 1) as nat) =~= (before + spaces(i as nat)).push(' '));
        i += 1;
    }
}

/// `input` with its tabs expanded to tab stops four columns apart.
pub fn expand_tabs(input: &Vec<char>) -> (output: Vec<char>)
    ensures
        output@ == tabs_expanded(input@, 4),
{
    expand_tabs_with_tabstop(input, 4)
}

/// `input` with its tabs expanded to tab stops `tabstop` columns apart.
pub fn expand_tabs_with_tabstop(input: &Vec<char>, tabstop: usize) -> (output: Vec<char>)
    requires
        tabstop > 0,
    ensures
        output@ == tabs_expanded(input@, tabstop as int),
{
    let mut output: Vec<char> = Vec::new();
    let mut column: usize = 0;
    let mut i: usize = 0;
    while i < input.len()
        invariant
            i <= input.len(),
            column < tabstop,
            tabs_expanded(input@, tabstop as int) == tabs_expanded_onto(
                output@,
                input@,
                i as int,
                column as int,
                tabstop as int,
            ),
        decreases input.len() - i,
    {
        let ch = input[i];
        if ch == '\t' {
            push_spaces(&mut output, tabstop - column);
            column = 0;
        } else {
            output.push(ch);
            if ch == '\n' || ch == '\r' || column + 1 >= tabstop {
                column = 0;
            } else {
                column += 1;
            }
        }
        i += 1;
    }
    output
}

/// The value of the digits `text[from..to]`, capped at the largest count.
fn read_count(text: &Vec<char>, from: usize, to: usize) -> (count: usize)
    requires
        from <= to <= text.len(),
        forall|k: int| from <= k < to ==> in_digit(#[trigger] text@[k]),
    ensures
        count == capped_value(text@.subrange(from as int, to as int)),
{
    let ghost digits = text@.subrange(from as int, to as int);
    let mut count: usize = 0;
    let mut i: usize = from;
    while i < to
        invariant
            from <= i <= to <= text.len(),
            digits == text@.subrange(from as int, to as int),
            forall|k: int| 0 <= k < digits.len() ==> in_digit(#[trigger] digits[k]),
            count == capped_value(digits.take(i - from)),
            digits_value(digits.take(i - from)) >= 0,
        decreases to - i,
    {
        proof {
            let next = digits.take(i + 1 - from);
            assert(next.drop_last() =~= digits.take(i - from));
            assert(next.last() == text@[i as int]);
        }
        let d = char_to_digit(text[i]) as usize;
        count = if count > (usize::MAX - d) / 10 {
            usize::MAX
        } else {
            count * 10 + d
        };
        i += 1;
    }
    assert(digits.take(to - from) =~= digits);
    count
}

/// `text` in a field of `width` characters.
fn pad(text: Vec<char>, width: usize, left: bool) -> (out: Vec<char>)
    ensures
        out@ == padded(text@, width as nat, left),
{
    if width <= text.len() {
        text
    } else if left {
        let mut out = text;
        let missing = width - out.len();
        push_spaces(&mut out, missing);
        out
    } else {
        let mut out: Vec<char> = Vec::new();
        push_spaces(&mut out, width - text.len());
        push_all(&mut out, &text);
        assert(out@ =~= spaces((width - text@.len()) as nat) + text@);
        out
    }
}

/// What `format` makes of the arguments `args`.
pub fn format_printf(format: &Vec<char>, args: &Vec<Vec<char>>) -> (result: Vec<char>)
    ensures
        result@ == formatted(format@, texts(args@)),
{
    let n = format.len();
    let mut result: Vec<char> = Vec::new();
    let mut arg_index: usize = 0;
    let mut i: usize = 0;
    while i < n
        invariant
            i <= n,
            n == format.len(),
            arg_index <= i,
            formatted(format@, texts(args@)) == formatted_onto(
                result@,
                format@,
                i as int,
                texts(args@),
                arg_index as int,
            ),
        decreases n - i,
    {
        let ch = format[i];
        if ch != '%' {
            result.push(ch);
            i += 1;
            continue ;
        }
        if i + 1 < n && format[i + 1] == '%' {
            result.push('%');
            i += 2;
            continue ;
        }
        let left_justify = i + 1 < n && format[i + 1] == '-';
        let width_at: usize = if left_justify {
            i + 2
        } else {
            i + 1
        };
        let point_at = scan_run(format, width_at, CharClass::Digit);
        proof {
            lemma_run_members(format@, width_at as int, CharClass::Digit);
        }
        let width = read_count(format, width_at, point_at);
        let mut precision: Option<usize> = None;
        let mut end: usize = point_at;
        if point_at < n && format[point_at] == '.' {
            end = scan_run(format, point_at + 1, CharClass::Digit);
            proof {
                lemma_run_members(format@, point_at + 1, CharClass::Digit);
            }
            precision = Some(read_count(format, point_at + 1, end));
        }
        let ghost d = directive_at(format@, i + 1);
        assert(d.left == left_justify && d.width == width && d.end == end);
        assert(match d.precision {
            Some(p) => precision == Some(p as usize),
            None => precision.is_none(),
        });
        if end >= n {
            result.push('%');
            return result;
        }
        let specifier = format[end];
        let arg: Vec<char> = if arg_index < args.len() {
            copy_chars(&args[arg_index])
        } else {
            Vec::new()
        };
        assert(arg@ =~= argument(texts(args@), arg_index as int));
        let ghost before = result@;
        if specifier == 's' {
            let piece = pad(arg, width, left_justify);
            push_all(&mut result, &piece);
        } else if specifier == 'd' {
            let value = Number::from_chars(&arg).whole_part(i64::MIN, i64::MAX);
            let piece = pad(integer_chars(value), width, left_justify);
            push_all(&mut result, &piece);
        } else if specifier == 'f' {
            let places: usize = match precision {
                Some(p) => p,
                None => 6,
            };
            let piece = pad(Number::from_chars(&arg).fixed_chars(places), width, left_justify);
            push_all(&mut result, &piece);
        } else {
            let piece = slice_chars(format, i, end + 1);
            push_all(&mut result, &piece);
        }
        assert(result@ == before + converted(
            specifier,
            arg@,
            d,
            format@.subrange(i as int, end + 1),
        ));
        arg_index += 1;
        i = end + 1;
    }
    result
}

} // verus!

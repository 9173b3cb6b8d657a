//! Patterns: the reduced matcher that conditions and `gsub` share.
//!
//! A pattern is a text with an optional `^` at its start and an optional `$`
//! at its end. What stands between them is a literal text, the class
//! `[0-9]+`, or alternatives in parentheses with `|` between them. The
//! matcher finds at most one region of a text for a pattern; a text matches
//! if there is one, and `gsub` replaces it.

use vstd::prelude::*;
use crate::fields::{parts_onto, split_fields};
use crate::text::{chars_are, copy_chars, find, find_from, occurs, occurs_at, push_all, run_end, same_chars, scan_run, slice_chars, texts, CharClass};

verus! {

/// The parts of a pattern.
pub struct Shape {
    /// Whether the pattern starts with `^`.
    pub anchored_start: bool,
    /// Whether the pattern ends with `$`.
    pub anchored_end: bool,
    /// The pattern without its anchors.
    pub core: Seq<char>,
}

/// The parts of `pattern`.
pub open spec fn shape_of(pattern: Seq<char>) -> Shape {
    let anchored_start = pattern.len() > 0 && pattern[0] == '^';
    let anchored_end = pattern.len() > 0 && pattern.last() == '$';
    let rest = if anchored_start {
        pattern.drop_first()
    } else {
        pattern
    };
    Shape {
        anchored_start,
        anchored_end,
        core: if anchored_end && rest.len() > 0 {
            rest.drop_last()
        } else {
            rest
        },
    }
}

/// Whether `core` is a group of alternatives.
pub open spec fn is_alternation(core: Seq<char>) -> bool {
    core.len() >= 2 && core[0] == '(' && core.last() == ')' && core.contains('|')
}

/// The alternatives of the group `core`, in the order they are written.
pub open spec fn alternatives(core: Seq<char>) -> Seq<Seq<char>> {
    parts_onto(Seq::empty(), core.subrange(1, core.len() - 1), seq!['|'], 0)
}

/// The start of the run of characters of `class` that ends at `end`.
pub open spec fn run_start(text: Seq<char>, end: int, class: CharClass) -> int
    decreases end,
{
    if 0 < end <= text.len() && crate::text::in_class(class, text[end - 1]) {
        run_start(text, end - 1, class)
    } else {
        end
    }
}

/// The region of `text` that the literal `literal` matches: where it starts
/// and where it ends. With both anchors it is all of the text, with one it
/// is the start or the end, and with none the first occurrence.
pub open spec fn literal_region(
    text: Seq<char>,
    anchored_start: bool,
    anchored_end: bool,
    literal: Seq<char>,
) -> Option<(int, int)> {
    if anchored_start && anchored_end {
        if text == literal {
            Some((0, text.len() as int))
        } else {
            None
        }
    } else if anchored_start {
        if occurs_at(text, literal, 0) {
            Some((0, literal.len() as int))
        } else {
            None
        }
    } else if anchored_end {
        if occurs_at(text, literal, text.len() - literal.len()) {
            Some((text.len() - literal.len(), text.len() as int))
        } else {
            None
        }
    } else {
        match find_from(text, literal, 0) {
            Some(i) => Some((i, i + literal.len())),
            None => None,
        }
    }
}

/// The region of `text` that `[0-9]+` matches: with both anchors all of a
/// text of digits, with one the digits at the start or at the end, and with
/// none the first run of digits.
pub open spec fn digit_region(text: Seq<char>, anchored_start: bool, anchored_end: bool) -> Option<
    (int, int),
> {
    if anchored_start && anchored_end {
        if text.len() > 0 && run_end(text, 0, CharClass::Digit) == text.len() {
            Some((0, text.len() as int))
        } else {
            None
        }
    } else if anchored_start {
        if run_end(text, 0, CharClass::Digit) > 0 {
            Some((0, run_end(text, 0, CharClass::Digit)))
        } else {
            None
        }
    } else if anchored_end {
        if run_start(text, text.len() as int, CharClass::Digit) < text.len() {
            Some((run_start(text, text.len() as int, CharClass::Digit), text.len() as int))
        } else {
            None
        }
    } else {
        let start = run_end(text, 0, CharClass::NotDigit);
        if start < text.len() {
            Some((start, run_end(text, start, CharClass::Digit)))
        } else {
            None
        }
    }
}

/// The region of `text` that the first of the alternatives from `k` on
/// matches that matches at all.
pub open spec fn alternation_region(
    text: Seq<char>,
    anchored_start: bool,
    anchored_end: bool,
    choices: Seq<Seq<char>>,
    k: int,
) -> Option<(int, int)>
    decreases choices.len() - k,
{
    if k < 0 || k >= choices.len() {
        None
    } else {
        match literal_region(text, anchored_start, anchored_end, choices[k]) {
            Some(r) => Some(r),
            None => alternation_region(text, anchored_start, anchored_end, choices, k + 1),
        }
    }
}

/// The region of `text` that `pattern` matches, if it matches.
pub open spec fn region(text: Seq<char>, pattern: Seq<char>) -> Option<(int, int)> {
    let shape = shape_of(pattern);
    if shape.core == "[0-9]+"@ {
        digit_region(text, shape.anchored_start, shape.anchored_end)
    } else if is_alternation(shape.core) {
        alternation_region(
            text,
            shape.anchored_start,
            shape.anchored_end,
            alternatives(shape.core),
            0,
        )
    } else {
        literal_region(text, shape.anchored_start, shape.anchored_end, shape.core)
    }
}

/// Whether `text` matches `pattern`.
pub open spec fn text_matches(text: Seq<char>, pattern: Seq<char>) -> bool {
    region(text, pattern).is_some()
}

/// `text` with the region that `pattern` matches replaced by `replacement`.
/// A pattern that is empty between its anchors replaces nothing.
pub open spec fn substituted(text: Seq<char>, pattern: Seq<char>, replacement: Seq<char>) -> Seq<
    char,
> {
    if shape_of(pattern).core.len() == 0 {
        text
    } else {
        match region(text, pattern) {
            Some((a, b)) => text.subrange(0, a) + replacement + text.subrange(
                b,
                text.len() as int,
            ),
            None => text,
        }
    }
}

/// A run that ends at `end` starts at or before `end`, and not before the
/// start of the text.
pub proof fn lemma_run_start_bounds(text: Seq<char>, end: int, class: CharClass)
    requires
        0 <= end <= text.len(),
    ensures
        0 <= run_start(text, end, class) <= end,
    decreases end,
{
    if 0 < end && crate::text::in_class(class, text[end - 1]) {
        lemma_run_start_bounds(text, end - 1, class);
    }
}

/// Whether the spec region `expected` is the region `found`, inside a text
/// of `len` characters.
pub open spec fn region_is(found: Option<(usize, usize)>, expected: Option<(int, int)>, len: nat)
    -> bool {
    match expected {
        Some((a, b)) => found.is_some() && found.unwrap().0 == a && found.unwrap().1 == b && a <= b
            <= len,
        None => found.is_none(),
    }
}

/// The pattern without its anchors, and whether it has each of them.
fn split_pattern(pattern: &Vec<char>) -> (r: (bool, bool, Vec<char>))
    ensures
        r.0 == shape_of(pattern@).anchored_start,
        r.1 == shape_of(pattern@).anchored_end,
        r.2@ == shape_of(pattern@).core,
{
    let n = pattern.len();
    let anchored_start = n > 0 && pattern[0] == '^';
    let anchored_end = n > 0 && pattern[n - 1] == '$';
    let from: usize = if anchored_start {
        1
    } else {
        0
    };
    let to: usize = if anchored_end && n - from > 0 {
        n - 1
    } else {
        n
    };
    let core = slice_chars(pattern, from, to);
    proof {
        let rest = if anchored_start {
            pattern@.drop_first()
        } else {
            pattern@
        };
        assert(rest =~= pattern@.subrange(from as int, n as int));
        if anchored_end && rest.len() > 0 {
            assert(rest.drop_last() =~= pattern@.subrange(from as int, to as int));
        }
    }
    (anchored_start, anchored_end, core)
}

/// The start of the run of characters of `class` that ends at `end`.
fn scan_back(text: &Vec<char>, end: usize, class: CharClass) -> (start: usize)
    requires
        end <= text.len(),
    ensures
        start == run_start(text@, end as int, class),
        start <= end,
{
    let mut i: usize = end;
    while i > 0 && crate::text::class_has(class, text[i - 1])
        invariant
            i <= end <= text.len(),
            run_start(text@, end as int, class) == run_start(text@, i as int, class),
        decreases i,
    {
        i -= 1;
    }
    i
}

/// The region of `text` that the literal `literal` matches.
fn find_literal(text: &Vec<char>, anchored_start: bool, anchored_end: bool, literal: &Vec<char>)
    -> (r: Option<(usize, usize)>)
    ensures
        region_is(r, literal_region(text@, anchored_start, anchored_end, literal@), text@.len()),
{
    if anchored_start && anchored_end {
        if same_chars(text, literal) {
            Some((0, text.len()))
        } else {
            None
        }
    } else if anchored_start {
        if occurs(text, literal, 0) {
            Some((0, literal.len()))
        } else {
            None
        }
    } else if anchored_end {
        if literal.len() <= text.len() && occurs(text, literal, text.len() - literal.len()) {
            Some((text.len() - literal.len(), text.len()))
        } else {
            None
        }
    } else {
        let n = text.len();
        match find(text, literal, 0) {
            Some(i) => Some((i, i + literal.len())),
            None => None,
        }
    }
}

/// The region of `text` that `[0-9]+` matches.
fn find_digits(text: &Vec<char>, anchored_start: bool, anchored_end: bool) -> (r: Option<
    (usize, usize),
>)
    ensures
        region_is(r, digit_region(text@, anchored_start, anchored_end), text@.len()),
{
    let n = text.len();
    if anchored_start && anchored_end {
        if n > 0 && scan_run(text, 0, CharClass::Digit) == n {
            Some((0, n))
        } else {
            None
        }
    } else if anchored_start {
        let end = scan_run(text, 0, CharClass::Digit);
        if end > 0 {
            Some((0, end))
        } else {
            None
        }
    } else if anchored_end {
        let start = scan_back(text, n, CharClass::Digit);
        if start < n {
            Some((start, n))
        } else {
            None
        }
    } else {
        let start = scan_run(text, 0, CharClass::NotDigit);
        if start < n {
            Some((start, scan_run(text, start, CharClass::Digit)))
        } else {
            None
        }
    }
}

/// Whether `c` occurs in `text`.
fn has_char(text: &Vec<char>, c: char) -> (r: bool)
    ensures
        r == text@.contains(c),
{
    let mut i: usize = 0;
    while i < text.len()
        invariant
            i <= text.len(),
            forall|k: int| 0 <= k < i ==> text@[k] != c,
        decreases text.len() - i,
    {
        if text[i] == c {
            return true;
        }
        i += 1;
    }
    false
}

/// The region of `text` that `pattern` matches, if it matches.
pub fn find_region(text: &Vec<char>, pattern: &Vec<char>) -> (r: Option<(usize, usize)>)
    ensures
        region_is(r, region(text@, pattern@), text@.len()),
{
    let (anchored_start, anchored_end, core) = split_pattern(pattern);
    let n = core.len();
    if chars_are(&core, "[0-9]+") {
        find_digits(text, anchored_start, anchored_end)
    } else if n >= 2 && core[0] == '(' && core[n - 1] == ')' && has_char(&core, '|') {
        let inner = slice_chars(&core, 1, n - 1);
        let mut bar: Vec<char> = Vec::new();
        bar.push('|');
        assert(bar@ =~= seq!['|']);
        assert(bar@ != seq![' ']) by {
            assert(bar@[0] != seq![' '][0]);
        }
        let choices = split_fields(&inner, &bar);
        let ghost all = texts(choices@);
        let mut k: usize = 0;
        assert(core@.subrange(1, n - 1) == inner@);
        assert(region(text@, pattern@) == alternation_region(
            text@,
            anchored_start,
            anchored_end,
            all,
            0,
        ));
        while k < choices.len()
            invariant
                k <= choices.len(),
                all == texts(choices@),
                region(text@, pattern@) == alternation_region(
                    text@,
                    anchored_start,
                    anchored_end,
                    all,
                    0,
                ),
                alternation_region(text@, anchored_start, anchored_end, all, 0)
                    == alternation_region(text@, anchored_start, anchored_end, all, k as int),
            decreases choices.len() - k,
        {
            match find_literal(text, anchored_start, anchored_end, &choices[k]) {
                Some(r) => {
                    return Some(r);
                },
                None => {},
            }
            k += 1;
        }
        None
    } else {
        find_literal(text, anchored_start, anchored_end, &core)
    }
}

/// Whether `text` matches `pattern`.
pub fn awk_regex_matches(text: &Vec<char>, pattern: &Vec<char>) -> (r: bool)
    ensures
        r == text_matches(text@, pattern@),
{
    find_region(text, pattern).is_some()
}

/// `text` with the region that `pattern` matches replaced by `replacement`.
pub fn awk_gsub_replace_all(text: &Vec<char>, pattern: &Vec<char>, replacement: &Vec<char>) -> (out:
    Vec<char>)
    ensures
        out@ == substituted(text@, pattern@, replacement@),
{
    let (_, _, core) = split_pattern(pattern);
    if core.len() == 0 {
        return copy_chars(text);
    }
    match find_region(text, pattern) {
        Some((a, b)) => {
            let mut out = slice_chars(text, 0, a);
            push_all(&mut out, replacement);
            let tail = slice_chars(text, b, text.len());
            push_all(&mut out, &tail);
            out
        },
        None => copy_chars(text),
    }
}

} // verus!

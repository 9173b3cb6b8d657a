//! The fields of a record: how a record is split, and how fields are joined.

use vstd::prelude::*;
use crate::text::{chars_are, find, find_from, push_all, run_end, scan_run, slice_chars, texts, CharClass};

verus! {

/// The words of `text` from `pos` on, after the words `done`: the runs of
/// characters that are not white space.
pub open spec fn words_onto(done: Seq<Seq<char>>, text: Seq<char>, pos: int) -> Seq<Seq<char>>
    decreases text.len() - pos,
{
    let start = run_end(text, pos, CharClass::Space);
    let end = run_end(text, start, CharClass::Visible);
    if 0 <= pos <= start < end <= text.len() {
        words_onto(done.push(text.subrange(start, end)), text, end)
    } else {
        done
    }
}

/// The parts of `text` from `pos` on, after the parts `done`: what stands
/// between the occurrences of `separator`. An empty separator separates
/// nothing.
pub open spec fn parts_onto(
    done: Seq<Seq<char>>,
    text: Seq<char>,
    separator: Seq<char>,
    pos: int,
) -> Seq<Seq<char>>
    decreases text.len() - pos,
{
    match find_from(text, separator, pos) {
        Some(i) => if pos <= i && separator.len() > 0 && i + separator.len() <= text.len() {
            parts_onto(done.push(text.subrange(pos, i)), text, separator, i + separator.len())
        } else {
            done.push(text.subrange(pos, text.len() as int))
        },
        None => done.push(text.subrange(pos, text.len() as int)),
    }
}

/// The fields of the record `text`. With a single space as the separator the
/// fields are the words of the record; with any other separator they are
/// what stands between its occurrences.
pub open spec fn fields_of(text: Seq<char>, separator: Seq<char>) -> Seq<Seq<char>> {
    if separator == seq![' '] {
        words_onto(Seq::empty(), text, 0)
    } else {
        parts_onto(Seq::empty(), text, separator, 0)
    }
}

/// The texts `parts` with `separator` between each two.
pub open spec fn joined(parts: Seq<Seq<char>>, separator: Seq<char>) -> Seq<char>
    decreases parts.len(),
{
    if parts.len() == 0 {
        Seq::empty()
    } else if parts.len() == 1 {
        parts[0]
    } else {
        joined(parts.drop_last(), separator) + separator + parts.last()
    }
}

/// The fields `fields` with the field of number `index`, counted from one,
/// set to `value`; fields that are missing before it are empty.
pub open spec fn with_field(fields: Seq<Seq<char>>, index: int, value: Seq<char>) -> Seq<
    Seq<char>,
> {
    let padded = if fields.len() < index {
        fields + Seq::new((index - fields.len()) as nat, |i: int| Seq::<char>::empty())
    } else {
        fields
    };
    padded.update(index - 1, value)
}

/// The fields of the record `text`.
pub fn split_fields(text: &Vec<char>, separator: &Vec<char>) -> (fields: Vec<Vec<char>>)
    ensures
        texts(fields@) == fields_of(text@, separator@),
{
    proof {
        reveal_strlit(" ");
        assert(" "@ =~= seq![' ']);
    }
    let mut fields: Vec<Vec<char>> = Vec::new();
    assert(texts(fields@) =~= Seq::empty());
    if chars_are(separator, " ") {
        let mut pos: usize = 0;
        loop
            invariant
                pos <= text.len(),
                separator@ == seq![' '],
                words_onto(Seq::empty(), text@, 0) == words_onto(texts(fields@), text@, pos as int),
            decreases text.len() - pos,
        {
            let start = scan_run(text, pos, CharClass::Space);
            let end = scan_run(text, start, CharClass::Visible);
            if start < end {
                let ghost before = texts(fields@);
                fields.push(slice_chars(text, start, end));
                assert(texts(fields@) =~= before.push(text@.subrange(start as int, end as int)));
                pos = end;
            } else {
                return fields;
            }
        }
    } else {
        let mut pos: usize = 0;
        loop
            invariant
                pos <= text.len(),
                separator@ != seq![' '],
                parts_onto(Seq::empty(), text@, separator@, 0) == parts_onto(
                    texts(fields@),
                    text@,
                    separator@,
                    pos as int,
                ),
            decreases text.len() - pos,
        {
            let ghost before = texts(fields@);
            match find(text, separator, pos) {
                Some(i) => {
                    if separator.len() > 0 {
                        fields.push(slice_chars(text, pos, i));
                        assert(texts(fields@) =~= before.push(
                            text@.subrange(pos as int, i as int),
                        ));
                        pos = i + separator.len();
                    } else {
                        fields.push(slice_chars(text, pos, text.len()));
                        assert(texts(fields@) =~= before.push(
                            text@.subrange(pos as int, text.len() as int),
                        ));
                        return fields;
                    }
                },
                None => {
                    fields.push(slice_chars(text, pos, text.len()));
                    assert(texts(fields@) =~= before.push(
                        text@.subrange(pos as int, text.len() as int),
                    ));
                    return fields;
                },
            }
        }
    }
}

/// The texts `parts` with `separator` between each two.
pub fn join_fields(parts: &Vec<Vec<char>>, separator: &Vec<char>) -> (out: Vec<char>)
    ensures
        out@ == joined(texts(parts@), separator@),
{
    let ghost all = texts(parts@);
    let mut out: Vec<char> = Vec::new();
    let mut i: usize = 0;
    while i < parts.len()
        invariant
            i <= parts.len(),
            all == texts(parts@),
            out@ == joined(all.take(i as int), separator@),
        decreases parts.len() - i,
    {
        proof {
            assert(all.take(i + 1).drop_last() =~= all.take(i as int));
            assert(all.take(i + 1).last() == parts@[i as int]@);
        }
        if i > 0 {
            push_all(&mut out, separator);
            push_all(&mut out, &parts[i]);
        } else {
            push_all(&mut out, &parts[i]);
            assert(out@ =~= parts@[i as int]@);
            assert(all.take(1)[0] == all[0]);
        }
        i += 1;
    }
    assert(all.take(parts.len() as int) =~= all);
    out
}

/// Sets the field of number `index`, counted from one, to `value`.
pub fn set_field(fields: &mut Vec<Vec<char>>, index: usize, value: Vec<char>)
    requires
        index >= 1,
    ensures
        texts(final(fields)@) == with_field(texts(old(fields)@), index as int, value@),
{
    let ghost before = texts(fields@);
    let ghost count = fields@.len();
    while fields.len() < index
        invariant
            count == before.len(),
            fields@.len() >= count,
            fields@.len() <= index || fields@.len() == count,
            texts(fields@) == before + Seq::new(
                (fields@.len() - count) as nat,
                |i: int| Seq::<char>::empty(),
            ),
        decreases index - fields.len(),
    {
        let ghost prior = texts(fields@);
        fields.push(Vec::new());
        assert(texts(fields@) =~= prior.push(Seq::<char>::empty()));
        assert(texts(fields@) =~= before + Seq::new(
            (fields@.len() - count) as nat,
            |i: int| Seq::<char>::empty(),
        ));
    }
    let ghost padded = texts(fields@);
    assert(before + Seq::new(0nat, |i: int| Seq::<char>::empty()) =~= before);
    fields[index - 1] = value;
    assert(texts(fields@) =~= padded.update(index - 1, value@));
}

} // verus!

//! Batches of records: text of three lines per satellite.

use crate::elements::ElementsModel;
use crate::satellite::{record_satellite, Satellite};
use crate::text::{lemma_boundary_after_ascii, lemma_boundary_at_ascii, slice_str};
use vstd::prelude::*;
use vstd::string::StringSliceAdditionalSpecFns;
use vstd::utf8::{encode_utf8_valid_utf8, is_char_boundary_start_end_of_seq};

verus! {

/// Number of bytes before the first line feed of `s`, or its length if it has
/// none.
pub open spec fn line_end(s: Seq<u8>) -> nat
    decreases s.len(),
{
    if s.len() > 0 && s[0] != 10 {
        1 + line_end(s.drop_first())
    } else {
        0
    }
}

/// The first line feed of `s` is where no byte before it is one.
pub proof fn lemma_line_end_is(s: Seq<u8>, k: int)
    requires
        0 <= k <= s.len(),
        forall|i: int| 0 <= i < k ==> s[i] != 10,
        k < s.len() ==> s[k] == 10,
    ensures
        line_end(s) == k,
    decreases k,
{
    if k > 0 {
        let t = s.drop_first();
        assert(s[0] != 10);
        assert forall|i: int| 0 <= i < k - 1 implies t[i] != 10 by {
            assert(t[i] == s[i + 1]);
        }
        if k - 1 < t.len() {
            assert(t[k - 1] == s[k]);
        }
        lemma_line_end_is(t, k - 1);
    }
}

/// The lines of a text. A line ends at a line feed, or at a carriage return
/// followed by a line feed, and does not hold its ending. What follows the
/// last line feed is a line too, unless it is empty.
pub open spec fn lines_of(text: Seq<u8>) -> Seq<Seq<u8>>
    decreases text.len(),
{
    if text.len() == 0 {
        Seq::empty()
    } else {
        let k = line_end(text) as int;
        if k < text.len() {
            let line = if k > 0 && text[k - 1] == 13 {
                text.take(k - 1)
            } else {
                text.take(k)
            };
            seq![line] + lines_of(text.skip(k + 1))
        } else {
            seq![text]
        }
    }
}

/// The element sets of the satellites in a sequence of lines. The lines are
/// taken three at a time: a name and two data lines. A group that describes
/// no satellite is passed over, and so are one or two lines left at the end.
pub open spec fn batch_elements(lines: Seq<Seq<u8>>) -> Seq<ElementsModel>
    decreases lines.len(),
{
    if lines.len() < 3 {
        Seq::empty()
    } else {
        let rest = batch_elements(lines.skip(3));
        match record_satellite(lines[0], lines[1], lines[2]) {
            Some(elements) => seq![elements] + rest,
            None => rest,
        }
    }
}

/// The bytes of each line.
pub open spec fn line_bytes(lines: Seq<&str>) -> Seq<Seq<u8>> {
    Seq::new(lines.len(), |i: int| lines[i].spec_bytes())
}

/// Splits a text into its lines.
pub fn split_lines<'a>(text: &'a str) -> (lines: Vec<&'a str>)
    ensures
        line_bytes(lines@) == lines_of(text.spec_bytes()),
{
    let bytes = text.as_bytes();
    let n = bytes.len();
    let mut lines: Vec<&'a str> = Vec::new();
    let mut pos: usize = 0;
    proof {
        encode_utf8_valid_utf8(text@);
        assert(bytes@.skip(0) =~= bytes@);
        assert(line_bytes(lines@) =~= Seq::<Seq<u8>>::empty());
    }
    while pos < n
        invariant
            pos <= n,
            n == bytes@.len(),
            bytes@ == text.spec_bytes(),
            vstd::utf8::valid_utf8(bytes@),
            pos == 0 || pos == n || bytes@[pos - 1] == 10,
            lines_of(bytes@) == line_bytes(lines@) + lines_of(bytes@.skip(pos as int)),
        decreases n - pos,
    {
        let ghost tail = bytes@.skip(pos as int);
        let mut end: usize = pos;
        while end < n && bytes[end] != 10
            invariant
                pos <= end <= n,
                n == bytes@.len(),
                forall|i: int| pos <= i < end ==> bytes@[i] != 10,
            decreases n - end,
        {
            end = end + 1;
        }
        proof {
            assert forall|i: int| 0 <= i < end - pos implies tail[i] != 10 by {
                assert(tail[i] == bytes@[pos + i]);
            }
            if end < n {
                assert(tail[end - pos] == bytes@[end as int]);
            }
            lemma_line_end_is(tail, end - pos);
        }
        let stop: usize = if end < n && end > pos && bytes[end - 1] == 13 {
            end - 1
        } else {
            end
        };
        proof {
            if pos == 0 {
                is_char_boundary_start_end_of_seq(bytes@);
            } else {
                lemma_boundary_after_ascii(bytes@, pos as int);
            }
            lemma_boundary_at_ascii(bytes@, stop as int);
        }
        let line = slice_str(text, pos, stop);
        let ghost before = line_bytes(lines@);
        lines.push(line);
        proof {
            let k = end - pos;
            if end < n {
                if k > 0 {
                    assert(tail[k - 1] == bytes@[end - 1]);
                }
                assert(tail.take(stop - pos) =~= bytes@.subrange(pos as int, stop as int));
                assert(tail.skip(k + 1) =~= bytes@.skip(end + 1));
                assert(line_bytes(lines@) =~= before + seq![line.spec_bytes()]);
                assert(lines_of(tail) == seq![line.spec_bytes()] + lines_of(bytes@.skip(end + 1)));
            } else {
                assert(tail =~= bytes@.subrange(pos as int, stop as int));
                assert(bytes@.skip(n as int).len() == 0);
                assert(lines_of(bytes@.skip(n as int)) =~= Seq::<Seq<u8>>::empty());
                assert(line_bytes(lines@) =~= before + seq![line.spec_bytes()]);
                assert(lines_of(tail) =~= seq![line.spec_bytes()]);
            }
        }
        pos = if end < n {
            end + 1
        } else {
            n
        };
    }
    proof {
        assert(bytes@.skip(n as int).len() == 0);
    }
    lines
}

/// The element sets of a list of satellites.
pub open spec fn elements_of(satellites: Seq<Satellite>) -> Seq<ElementsModel> {
    Seq::new(satellites.len(), |i: int| satellites[i]@.elements)
}

/// Reads every satellite of a text of records. A record that is malformed or
/// that the propagator refuses is passed over and the rest are still read; a
/// text with no good record gives an empty list. No satellite has a path yet.
pub fn parse_batch(text: &str) -> (satellites: Vec<Satellite>)
    ensures
        elements_of(satellites@) == batch_elements(lines_of(text.spec_bytes())),
        forall|i: int|
            0 <= i < satellites@.len() ==> (#[trigger] satellites@[i])@.orbit_path is None,
{
    let lines = split_lines(text);
    let ghost all = line_bytes(lines@);
    let mut satellites: Vec<Satellite> = Vec::new();
    let mut i: usize = 0;
    proof {
        assert(all.skip(0) =~= all);
        assert(elements_of(satellites@) =~= Seq::<ElementsModel>::empty());
    }
    while lines.len() - i >= 3
        invariant
            i <= lines@.len(),
            all == line_bytes(lines@),
            batch_elements(all) == elements_of(satellites@) + batch_elements(all.skip(i as int)),
            forall|k: int|
                0 <= k < satellites@.len() ==> (#[trigger] satellites@[k])@.orbit_path is None,
        decreases lines@.len() - i,
    {
        let ghost rest = all.skip(i as int);
        let ghost before = elements_of(satellites@);
        proof {
            assert(rest[0] == lines@[i as int].spec_bytes());
            assert(rest[1] == lines@[i + 1].spec_bytes());
            assert(rest[2] == lines@[i + 2].spec_bytes());
            assert(rest.skip(3) =~= all.skip(i + 3));
        }
        match Satellite::parse(lines[i], lines[i + 1], lines[i + 2]) {
            Some(satellite) => {
                let ghost elements = satellite@.elements;
                satellites.push(satellite);
                assert(elements_of(satellites@) =~= before + seq![elements]);
            },
            None => {},
        }
        i = i + 3;
    }
    proof {
        assert(batch_elements(all.skip(i as int)) =~= Seq::<ElementsModel>::empty());
    }
    satellites
}

} // verus!

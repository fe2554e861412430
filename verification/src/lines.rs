//! Splitting a text into its lines.

use vstd::prelude::*;
use vstd::slice::slice_subrange;

verus! {

/// The line feed that ends a line.
pub const LINE_FEED: u8 = 10;

/// The carriage return that may stand before a line feed.
pub const CARRIAGE_RETURN: u8 = 13;

/// A line without the carriage return that stood before its line feed.
pub open spec fn without_carriage_return(line: Seq<u8>) -> Seq<u8> {
    if line.len() > 0 && line.last() == CARRIAGE_RETURN {
        line.drop_last()
    } else {
        line
    }
}

/// The lines that `text` has completed, and the line it has begun since.
pub open spec fn scan(text: Seq<u8>) -> (Seq<Seq<u8>>, Seq<u8>)
    decreases text.len(),
{
    if text.len() == 0 {
        (Seq::empty(), Seq::empty())
    } else {
        let (done, current) = scan(text.drop_last());
        if text.last() == LINE_FEED {
            (done.push(without_carriage_return(current)), Seq::empty())
        } else {
            (done, current.push(text.last()))
        }
    }
}

/// The lines of a text. A line ends at a line feed, or at a carriage return
/// followed by a line feed; neither belongs to the line. The last line
/// needs no line ending, and a text that ends in one has no empty line after
/// it.
pub open spec fn lines_of(text: Seq<u8>) -> Seq<Seq<u8>> {
    let (done, current) = scan(text);
    if current.len() > 0 {
        done.push(current)
    } else {
        done
    }
}

/// The bytes of each line.
pub open spec fn line_bytes(lines: Seq<&[u8]>) -> Seq<Seq<u8>> {
    lines.map_values(|line: &[u8]| line@)
}

/// Splits a text into its lines, each a part of `text`.
pub fn split_lines<'a>(text: &'a [u8]) -> (lines: Vec<&'a [u8]>)
    ensures
        line_bytes(lines@) == lines_of(text@),
{
    let mut lines: Vec<&'a [u8]> = Vec::new();
    let mut start: usize = 0;
    let mut i: usize = 0;
    assert(text@.take(0) =~= Seq::empty());
    assert(line_bytes(lines@) =~= Seq::empty());
    assert(text@.subrange(0, 0) =~= Seq::empty());
    while i < text.len()
        invariant
            start <= i <= text.len(),
            scan(text@.take(i as int)) == (line_bytes(lines@), text@.subrange(start as int, i as int)),
        decreases text.len() - i,
    {
        let ghost before = text@.take(i as int);
        let ghost current = text@.subrange(start as int, i as int);
        assert(text@.take(i + 1).drop_last() =~= before);
        if text[i] == LINE_FEED {
            let end: usize = if start < i && text[i - 1] == CARRIAGE_RETURN {
                i - 1
            } else {
                i
            };
            let line = slice_subrange(text, start, end);
            assert(line@ =~= without_carriage_return(current));
            let ghost old_lines = lines@;
            lines.push(line);
            assert(line_bytes(lines@) =~= line_bytes(old_lines).push(line@));
            start = i + 1;
            assert(text@.subrange(start as int, i + 1) =~= Seq::empty());
        } else {
            assert(text@.subrange(start as int, i + 1) =~= current.push(text@[i as int]));
        }
        i += 1;
    }
    assert(text@.take(i as int) =~= text@);
    if start < text.len() {
        let line = slice_subrange(text, start, text.len());
        let ghost old_lines = lines@;
        lines.push(line);
        assert(line_bytes(lines@) =~= line_bytes(old_lines).push(line@));
    }
    lines
}

} // verus!

//! Framing of a reply's bytes into records.
//!
//! The server writes one JSON record per line. The bytes are cut at every
//! line feed, a carriage return just before a line feed belongs to the line
//! ending, and empty lines carry no record. What follows the last line feed
//! is a record that may still grow: [`complete_part`] and [`pending_part`]
//! tell the two apart, so that the decoder of a stream can keep the second
//! until the rest of the line has arrived. Where the chunks of a reply are
//! cut is therefore of no consequence.

use vstd::prelude::*;
use vstd::slice::slice_subrange;

verus! {

pub const LINE_FEED: u8 = 10;

pub const CARRIAGE_RETURN: u8 = 13;

/// The number of bytes before the first line feed, or the length of `bytes`
/// where there is none.
pub open spec fn line_end(bytes: Seq<u8>) -> int
    decreases bytes.len(),
{
    if bytes.len() == 0 || bytes[0] == LINE_FEED {
        0
    } else {
        1 + line_end(bytes.drop_first())
    }
}

/// A line without the carriage return that ended it, if one did.
pub open spec fn without_return(line: Seq<u8>) -> Seq<u8> {
    if line.len() > 0 && line.last() == CARRIAGE_RETURN {
        line.drop_last()
    } else {
        line
    }
}

/// The records of a chunk, in the order in which they stand in it.
pub open spec fn frames(bytes: Seq<u8>) -> Seq<Seq<u8>>
    decreases bytes.len(),
{
    let end = line_end(bytes);
    if bytes.len() == 0 {
        Seq::empty()
    } else if 0 <= end < bytes.len() {
        let line = without_return(bytes.take(end));
        let rest = frames(bytes.skip(end + 1));
        if line.len() == 0 {
            rest
        } else {
            seq![line] + rest
        }
    } else {
        seq![bytes]
    }
}

/// Whether a byte string is a whole line's content: not empty, free of line
/// feeds and not ending in a carriage return.
pub open spec fn is_line(bytes: Seq<u8>) -> bool {
    &&& bytes.len() > 0
    &&& forall|i: int| 0 <= i < bytes.len() ==> bytes[i] != LINE_FEED
    &&& bytes.last() != CARRIAGE_RETURN
}

/// Whether a byte string consists of line endings alone.
pub open spec fn is_blank(bytes: Seq<u8>) -> bool {
    forall|i: int|
        0 <= i < bytes.len() ==> {
            ||| bytes[i] == LINE_FEED
            ||| (#[trigger] bytes[i] == CARRIAGE_RETURN && i + 1 < bytes.len() && bytes[i + 1]
                == LINE_FEED)
        }
}

/// The views of a vector of slices.
pub open spec fn slice_views(slices: Seq<&[u8]>) -> Seq<Seq<u8>> {
    slices.map_values(|slice: &[u8]| slice@)
}

/// `line_end` is the one position that has no line feed before it and either
/// holds a line feed or is the end.
pub proof fn lemma_line_end(bytes: Seq<u8>, end: int)
    requires
        0 <= end <= bytes.len(),
        forall|i: int| 0 <= i < end ==> bytes[i] != LINE_FEED,
        end == bytes.len() || bytes[end] == LINE_FEED,
    ensures
        line_end(bytes) == end,
    decreases bytes.len(),
{
    if end > 0 {
        assert(bytes[0] != LINE_FEED);
        lemma_line_end(bytes.drop_first(), end - 1);
    }
}

/// `line_end` lies within the bytes, no line feed stands before it, and a
/// line feed stands at it unless it is the end.
pub proof fn lemma_line_end_is_first(bytes: Seq<u8>)
    ensures
        0 <= line_end(bytes) <= bytes.len(),
        forall|i: int| 0 <= i < line_end(bytes) ==> bytes[i] != LINE_FEED,
        line_end(bytes) == bytes.len() || bytes[line_end(bytes)] == LINE_FEED,
    decreases bytes.len(),
{
    if bytes.len() == 0 || bytes[0] == LINE_FEED {
    } else {
        let tail = bytes.drop_first();
        lemma_line_end_is_first(tail);
        assert forall|i: int| 0 <= i < line_end(bytes) implies bytes[i] != LINE_FEED by {
            if i > 0 {
                assert(bytes[i] == tail[i - 1]);
            }
        }
        if line_end(bytes) < bytes.len() {
            assert(bytes[line_end(bytes)] == tail[line_end(tail)]);
        }
    }
}

/// A chunk that starts with a terminated line frames as that line, unless it
/// is empty, followed by the frames of what comes after the line feed.
pub proof fn lemma_frames_after_line(line: Seq<u8>, rest: Seq<u8>)
    requires
        forall|i: int| 0 <= i < line.len() ==> line[i] != LINE_FEED,
    ensures
        frames(line + seq![LINE_FEED] + rest) == if without_return(line).len() == 0 {
            frames(rest)
        } else {
            seq![without_return(line)] + frames(rest)
        },
{
    let bytes = line + seq![LINE_FEED] + rest;
    lemma_line_end(bytes, line.len() as int);
    assert(bytes.take(line.len() as int) =~= line);
    assert(bytes.skip(line.len() as int + 1) =~= rest);
}

/// A chunk without a line feed frames as itself, unless it is empty.
pub proof fn lemma_frames_of_last_line(line: Seq<u8>)
    requires
        forall|i: int| 0 <= i < line.len() ==> line[i] != LINE_FEED,
    ensures
        frames(line) == if line.len() == 0 {
            Seq::<Seq<u8>>::empty()
        } else {
            seq![line]
        },
{
    lemma_line_end(line, line.len() as int);
}

/// Two records on two lines of one chunk come out as two frames, in the
/// order in which they stand in the chunk, whether or not the second line is
/// terminated.
pub proof fn lemma_frames_of_two_lines(first: Seq<u8>, second: Seq<u8>)
    requires
        is_line(first),
        is_line(second),
    ensures
        frames(first + seq![LINE_FEED] + second) == seq![first, second],
        frames(first + seq![LINE_FEED] + second + seq![LINE_FEED]) == seq![first, second],
{
    lemma_frames_of_last_line(second);
    lemma_frames_after_line(first, second);
    assert(seq![first] + seq![second] =~= seq![first, second]);
    lemma_frames_of_last_line(Seq::<u8>::empty());
    lemma_frames_after_line(second, Seq::<u8>::empty());
    assert(second + seq![LINE_FEED] + Seq::<u8>::empty() =~= second + seq![LINE_FEED]);
    lemma_frames_after_line(first, second + seq![LINE_FEED]);
    assert(first + seq![LINE_FEED] + (second + seq![LINE_FEED]) =~= first + seq![LINE_FEED]
        + second + seq![LINE_FEED]);
    assert(seq![first] + (seq![second] + Seq::<Seq<u8>>::empty()) =~= seq![first, second]);
}

/// A chunk that holds line endings alone, the empty chunk among them, has
/// no frames.
pub proof fn lemma_frames_of_blank(bytes: Seq<u8>)
    requires
        is_blank(bytes),
    ensures
        frames(bytes) == Seq::<Seq<u8>>::empty(),
    decreases bytes.len(),
{
    if bytes.len() > 0 {
        lemma_line_end_is_first(bytes);
        let end = line_end(bytes);
        if end > 0 {
            assert(bytes[0] != LINE_FEED);
            assert(bytes[0] == CARRIAGE_RETURN && bytes[1] == LINE_FEED);
            if end > 1 {
                assert(bytes[1] != LINE_FEED);
            }
            assert(end == 1);
        }
        assert(end < bytes.len());
        let rest = bytes.skip(end + 1);
        assert forall|i: int| 0 <= i < rest.len() implies {
            ||| rest[i] == LINE_FEED
            ||| (#[trigger] rest[i] == CARRIAGE_RETURN && i + 1 < rest.len() && rest[i + 1]
                == LINE_FEED)
        } by {
            let k = i + end + 1;
            assert(rest[i] == bytes[k]);
            if bytes[k] != LINE_FEED {
                assert(bytes[k] == CARRIAGE_RETURN && k + 1 < bytes.len() && bytes[k + 1]
                    == LINE_FEED);
                assert(rest[i + 1] == bytes[k + 1]);
            }
        }
        lemma_frames_of_blank(rest);
        assert(without_return(bytes.take(end)).len() == 0);
    }
}

/// The length of the part of the bytes that ends with their last line feed:
/// zero where they hold none.
pub open spec fn complete_len(bytes: Seq<u8>) -> int
    decreases bytes.len(),
{
    if bytes.len() == 0 {
        0
    } else if bytes.last() == LINE_FEED {
        bytes.len() as int
    } else {
        complete_len(bytes.drop_last())
    }
}

/// The bytes up to their last line feed: whole lines.
pub open spec fn complete_part(bytes: Seq<u8>) -> Seq<u8> {
    bytes.take(complete_len(bytes))
}

/// The bytes behind their last line feed: the start of a line that has not
/// ended.
pub open spec fn pending_part(bytes: Seq<u8>) -> Seq<u8> {
    bytes.skip(complete_len(bytes))
}

/// Whether the bytes are whole lines: empty, or ending with a line feed.
pub open spec fn is_complete(bytes: Seq<u8>) -> bool {
    bytes.len() == 0 || bytes.last() == LINE_FEED
}

/// `complete_len` is the one position that is the start or stands just
/// behind a line feed and has no line feed at or behind it.
pub proof fn lemma_complete_len(bytes: Seq<u8>, at: int)
    requires
        0 <= at <= bytes.len(),
        at == 0 || bytes[at - 1] == LINE_FEED,
        forall|i: int| at <= i < bytes.len() ==> bytes[i] != LINE_FEED,
    ensures
        complete_len(bytes) == at,
    decreases bytes.len(),
{
    if bytes.len() > 0 && at < bytes.len() {
        assert(bytes.last() != LINE_FEED);
        lemma_complete_len(bytes.drop_last(), at);
    }
}

/// `complete_len` lies within the bytes, is the start or stands just behind
/// a line feed, and no line feed stands at or behind it.
pub proof fn lemma_complete_len_is_last(bytes: Seq<u8>)
    ensures
        0 <= complete_len(bytes) <= bytes.len(),
        complete_len(bytes) == 0 || bytes[complete_len(bytes) - 1] == LINE_FEED,
        forall|i: int| complete_len(bytes) <= i < bytes.len() ==> bytes[i] != LINE_FEED,
        is_complete(complete_part(bytes)),
    decreases bytes.len(),
{
    if bytes.len() > 0 && bytes.last() != LINE_FEED {
        let front = bytes.drop_last();
        lemma_complete_len_is_last(front);
        assert forall|i: int| complete_len(bytes) <= i < bytes.len() implies bytes[i]
            != LINE_FEED by {
            if i < front.len() {
                assert(bytes[i] == front[i]);
            }
        }
        if complete_len(bytes) > 0 {
            assert(bytes[complete_len(bytes) - 1] == front[complete_len(front) - 1]);
        }
    }
}

/// Bytes that come behind others make whole lines of what was pending,
/// where they hold a line feed, and are pending too, where they hold none.
pub proof fn lemma_complete_len_of_more(bytes: Seq<u8>, more: Seq<u8>)
    ensures
        complete_len(bytes + more) == if complete_len(more) > 0 {
            bytes.len() + complete_len(more)
        } else {
            complete_len(bytes)
        },
        complete_part(bytes + more) == if complete_len(more) > 0 {
            complete_part(bytes) + (pending_part(bytes) + complete_part(more))
        } else {
            complete_part(bytes)
        },
        pending_part(bytes + more) == if complete_len(more) > 0 {
            pending_part(more)
        } else {
            pending_part(bytes) + more
        },
{
    let all = bytes + more;
    lemma_complete_len_is_last(bytes);
    lemma_complete_len_is_last(more);
    if complete_len(more) > 0 {
        let at = bytes.len() + complete_len(more);
        assert(all[at - 1] == more[complete_len(more) - 1]);
        assert forall|i: int| at <= i < all.len() implies all[i] != LINE_FEED by {
            assert(all[i] == more[i - bytes.len()]);
        }
        lemma_complete_len(all, at);
        assert(all.take(at) =~= complete_part(bytes) + (pending_part(bytes) + complete_part(
            more,
        )));
        assert(all.skip(at) =~= pending_part(more));
    } else {
        let at = complete_len(bytes);
        if at > 0 {
            assert(all[at - 1] == bytes[at - 1]);
        }
        assert forall|i: int| at <= i < all.len() implies all[i] != LINE_FEED by {
            if i < bytes.len() {
                assert(all[i] == bytes[i]);
            } else {
                assert(all[i] == more[i - bytes.len()]);
            }
        }
        lemma_complete_len(all, at);
        assert(all.take(at) =~= complete_part(bytes));
        assert(all.skip(at) =~= pending_part(bytes) + more);
    }
}

/// Behind whole lines, bytes frame as they do alone.
pub proof fn lemma_frames_behind_lines(lines: Seq<u8>, more: Seq<u8>)
    requires
        is_complete(lines),
    ensures
        frames(lines + more) == frames(lines) + frames(more),
    decreases lines.len(),
{
    if lines.len() == 0 {
        assert(lines + more =~= more);
        assert(frames(lines) + frames(more) =~= frames(more));
    } else {
        let all = lines + more;
        lemma_line_end_is_first(lines);
        let end = line_end(lines);
        assert(end < lines.len()) by {
            if end == lines.len() {
                assert(lines[lines.len() - 1] != LINE_FEED);
            }
        }
        assert forall|i: int| 0 <= i < end implies all[i] != LINE_FEED by {
            assert(all[i] == lines[i]);
        }
        assert(all[end] == lines[end]);
        lemma_line_end(all, end);
        let rest = lines.skip(end + 1);
        assert(all.take(end) =~= lines.take(end));
        assert(all.skip(end + 1) =~= rest + more);
        if rest.len() > 0 {
            assert(rest.last() == lines.last());
        }
        lemma_frames_behind_lines(rest, more);
        let line = without_return(lines.take(end));
        if line.len() > 0 {
            assert(seq![line] + (frames(rest) + frames(more)) =~= (seq![line] + frames(rest))
                + frames(more));
        }
    }
}

/// The frames of bytes are the frames of their whole lines, and behind
/// them what is pending, unless that is nothing.
pub proof fn lemma_frames_of_parts(bytes: Seq<u8>)
    ensures
        frames(bytes) == frames(complete_part(bytes)) + if pending_part(bytes).len() == 0 {
            Seq::<Seq<u8>>::empty()
        } else {
            seq![pending_part(bytes)]
        },
{
    lemma_complete_len_is_last(bytes);
    let pending = pending_part(bytes);
    assert forall|i: int| 0 <= i < pending.len() implies pending[i] != LINE_FEED by {
        assert(pending[i] == bytes[i + complete_len(bytes)]);
    }
    lemma_frames_of_last_line(pending);
    lemma_frames_behind_lines(complete_part(bytes), pending);
    assert(complete_part(bytes) + pending =~= bytes);
}

/// Finds the end of the last whole line of a chunk.
pub fn complete_length(chunk: &[u8]) -> (at: usize)
    ensures
        at == complete_len(chunk@),
{
    let mut at: usize = chunk.len();
    while at > 0 && chunk[at - 1] != LINE_FEED
        invariant
            at <= chunk@.len(),
            forall|i: int| at <= i < chunk@.len() ==> chunk@[i] != LINE_FEED,
        decreases at,
    {
        at -= 1;
    }
    proof {
        lemma_complete_len(chunk@, at as int);
    }
    at
}

/// Cuts a chunk into its records.
pub fn split_frames<'a>(chunk: &'a [u8]) -> (lines: Vec<&'a [u8]>)
    ensures
        slice_views(lines@) == frames(chunk@),
{
    let mut lines: Vec<&'a [u8]> = Vec::new();
    let n: usize = chunk.len();
    let mut start: usize = 0;
    assert(chunk@.skip(0) =~= chunk@);
    assert(slice_views(lines@) =~= Seq::<Seq<u8>>::empty());
    while start < n
        invariant
            n == chunk@.len(),
            start <= n,
            frames(chunk@) == slice_views(lines@) + frames(chunk@.skip(start as int)),
        decreases n - start,
    {
        let ghost tail = chunk@.skip(start as int);
        let ghost before = slice_views(lines@);
        let mut end: usize = start;
        while end < n && chunk[end] != LINE_FEED
            invariant
                n == chunk@.len(),
                start <= end <= n,
                forall|i: int| start <= i < end ==> chunk@[i] != LINE_FEED,
            decreases n - end,
        {
            end += 1;
        }
        proof {
            lemma_line_end(tail, end - start);
        }
        if end == n {
            let line = slice_subrange(chunk, start, n);
            lines.push(line);
            proof {
                assert(line@ =~= tail);
                assert(frames(tail) == seq![tail]);
                assert(frames(chunk@.skip(n as int)) =~= Seq::<Seq<u8>>::empty());
                assert(slice_views(lines@) =~= before + seq![tail]);
            }
            start = n;
        } else {
            let mut stop: usize = end;
            if stop > start && chunk[stop - 1] == CARRIAGE_RETURN {
                stop -= 1;
            }
            proof {
                assert(tail.take(end - start) =~= chunk@.subrange(start as int, end as int));
                assert(without_return(tail.take(end - start)) =~= chunk@.subrange(
                    start as int,
                    stop as int,
                ));
                assert(tail.skip(end - start + 1) =~= chunk@.skip(end + 1));
            }
            if stop > start {
                let line = slice_subrange(chunk, start, stop);
                lines.push(line);
                proof {
                    assert(slice_views(lines@) =~= before + seq![line@]);
                    assert(frames(tail) == seq![line@] + frames(chunk@.skip(end + 1)));
                }
            }
            start = end + 1;
        }
    }
    assert(frames(chunk@.skip(start as int)) =~= Seq::<Seq<u8>>::empty());
    lines
}

} // verus!

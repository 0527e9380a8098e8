//! The decoder of a streamed reply.
//!
//! The transport hands over the reply chunk by chunk, cut wherever it
//! pleases. The decoder puts the bytes together again: it yields the records
//! of the lines that have ended, each decoded on its own, and keeps the
//! start of a line until its end arrives. A record that fails to decode is
//! an error item among the others. The stream ends with the first record
//! that is marked as the last one: what the server sends after it is not
//! passed on.

use crate::decode::{decode_line, item_view, item_views, record_of_line, DecodeError, Record};
use crate::framing::{
    complete_len, complete_length, complete_part, frames, is_blank, is_complete, is_line,
    lemma_complete_len, lemma_complete_len_is_last, lemma_complete_len_of_more,
    lemma_frames_behind_lines, lemma_frames_of_blank, lemma_frames_of_parts,
    lemma_frames_of_two_lines, pending_part, slice_views, split_frames, CARRIAGE_RETURN,
    LINE_FEED,
};
use std::marker::PhantomData;
use vstd::prelude::*;
use vstd::slice::{slice_subrange, slice_to_vec};

verus! {

/// The items of some records: each decoded on its own, in order.
pub open spec fn items_of<T: Record>(lines: Seq<Seq<u8>>) -> Seq<Result<T::V, DecodeError>> {
    lines.map_values(|line: Seq<u8>| record_of_line::<T>(line))
}

/// The items that the bytes of a reply hold so far: those of its whole
/// lines.
pub open spec fn decoded<T: Record>(bytes: Seq<u8>) -> Seq<Result<T::V, DecodeError>> {
    items_of::<T>(frames(complete_part(bytes)))
}

/// The items that the bytes of a reply hold once no more will come: those
/// of its whole lines and of what stands behind them.
pub open spec fn decoded_at_end<T: Record>(bytes: Seq<u8>) -> Seq<Result<T::V, DecodeError>> {
    items_of::<T>(frames(bytes))
}

/// Whether an item is a record that is marked as the last one.
pub open spec fn is_last<T: Record>(item: Result<T::V, DecodeError>) -> bool {
    match item {
        Ok(record) => T::terminal(record),
        Err(_) => false,
    }
}

/// Whether some item is marked as the last one.
pub open spec fn has_last<T: Record>(items: Seq<Result<T::V, DecodeError>>) -> bool {
    exists|i: int| 0 <= i < items.len() && is_last::<T>(#[trigger] items[i])
}

/// The items up to the first one that is marked as the last one, that one
/// included; all of them where none is.
pub open spec fn through_last<T: Record>(items: Seq<Result<T::V, DecodeError>>) -> Seq<
    Result<T::V, DecodeError>,
>
    decreases items.len(),
{
    if items.len() == 0 {
        items
    } else if is_last::<T>(items[0]) {
        seq![items[0]]
    } else {
        seq![items[0]] + through_last::<T>(items.drop_first())
    }
}

/// Where no item before position `n` is marked as the last one, the cut
/// keeps those `n` items and goes on behind them.
pub proof fn lemma_through_last_split<T: Record>(items: Seq<Result<T::V, DecodeError>>, n: int)
    requires
        0 <= n <= items.len(),
        forall|i: int| 0 <= i < n ==> !is_last::<T>(#[trigger] items[i]),
    ensures
        through_last::<T>(items) == items.take(n) + through_last::<T>(items.skip(n)),
    decreases n,
{
    if n == 0 {
        assert(items.skip(0) =~= items);
        assert(items.take(0) + through_last::<T>(items) =~= through_last::<T>(items));
    } else {
        assert(!is_last::<T>(items[0]));
        let tail = items.drop_first();
        assert forall|i: int| 0 <= i < n - 1 implies !is_last::<T>(#[trigger] tail[i]) by {
            assert(tail[i] == items[i + 1]);
        }
        lemma_through_last_split::<T>(tail, n - 1);
        assert(tail.skip(n - 1) =~= items.skip(n));
        assert(seq![items[0]] + (tail.take(n - 1) + through_last::<T>(items.skip(n)))
            =~= items.take(n) + through_last::<T>(items.skip(n)));
    }
}

/// The cut is a prefix of the items; no item but its last one is marked as
/// the last one; and its last item is so marked exactly when some item is.
pub proof fn lemma_through_last<T: Record>(items: Seq<Result<T::V, DecodeError>>)
    ensures
        through_last::<T>(items).len() <= items.len(),
        through_last::<T>(items) == items.take(through_last::<T>(items).len() as int),
        forall|i: int|
            0 <= i < through_last::<T>(items).len() - 1 ==> !is_last::<T>(
                #[trigger] through_last::<T>(items)[i],
            ),
        has_last::<T>(items) <==> through_last::<T>(items).len() > 0 && is_last::<T>(
            through_last::<T>(items).last(),
        ),
        !has_last::<T>(items) ==> through_last::<T>(items) == items,
    decreases items.len(),
{
    if items.len() == 0 {
    } else if is_last::<T>(items[0]) {
        assert(items.take(1) =~= seq![items[0]]);
    } else {
        let tail = items.drop_first();
        let cut = through_last::<T>(tail);
        lemma_through_last::<T>(tail);
        let whole = seq![items[0]] + cut;
        assert(whole =~= items.take(whole.len() as int)) by {
            assert(cut == tail.take(cut.len() as int));
        }
        assert forall|i: int| 0 <= i < whole.len() - 1 implies !is_last::<T>(
            #[trigger] whole[i],
        ) by {
            if i > 0 {
                assert(whole[i] == cut[i - 1]);
            }
        }
        if has_last::<T>(items) {
            let k = choose|k: int| 0 <= k < items.len() && is_last::<T>(#[trigger] items[k]);
            assert(tail[k - 1] == items[k]);
            assert(has_last::<T>(tail));
            assert(whole.last() == cut.last());
        }
        if whole.len() > 0 && is_last::<T>(whole.last()) {
            assert(cut.len() > 0);
            assert(whole.last() == cut.last());
            let k = choose|k: int| 0 <= k < tail.len() && is_last::<T>(#[trigger] tail[k]);
            assert(items[k + 1] == tail[k]);
        }
        if !has_last::<T>(items) {
            if has_last::<T>(tail) {
                let k = choose|k: int| 0 <= k < tail.len() && is_last::<T>(#[trigger] tail[k]);
                assert(items[k + 1] == tail[k]);
            }
            assert(whole =~= items);
        }
    }
}

/// Items that come behind others are cut as they are alone, unless one of
/// the others is marked as the last one.
pub proof fn lemma_through_last_of_more<T: Record>(
    items: Seq<Result<T::V, DecodeError>>,
    more: Seq<Result<T::V, DecodeError>>,
)
    ensures
        through_last::<T>(items + more) == if has_last::<T>(items) {
            through_last::<T>(items)
        } else {
            items + through_last::<T>(more)
        },
        has_last::<T>(items + more) == (has_last::<T>(items) || has_last::<T>(more)),
{
    let all = items + more;
    lemma_through_last::<T>(items);
    if has_last::<T>(items) {
        let cut = through_last::<T>(items);
        let n = cut.len() as int;
        assert(cut == items.take(n));
        assert forall|i: int| 0 <= i < n - 1 implies !is_last::<T>(#[trigger] all[i]) by {
            assert(all[i] == cut[i]);
        }
        lemma_through_last_split::<T>(all, n - 1);
        assert(all.skip(n - 1)[0] == cut.last());
        assert(all.take(n - 1) + seq![cut.last()] =~= cut);
        let k = choose|k: int| 0 <= k < items.len() && is_last::<T>(#[trigger] items[k]);
        assert(all[k] == items[k]);
    } else {
        assert forall|i: int| 0 <= i < items.len() implies !is_last::<T>(#[trigger] all[i]) by {
            assert(all[i] == items[i]);
        }
        lemma_through_last_split::<T>(all, items.len() as int);
        assert(all.take(items.len() as int) =~= items);
        assert(all.skip(items.len() as int) =~= more);
        if has_last::<T>(more) {
            let k = choose|k: int| 0 <= k < more.len() && is_last::<T>(#[trigger] more[k]);
            assert(all[items.len() + k] == more[k]);
        }
        if has_last::<T>(all) {
            let k = choose|k: int| 0 <= k < all.len() && is_last::<T>(#[trigger] all[k]);
            assert(k >= items.len());
            assert(more[k - items.len()] == all[k]);
        }
    }
}

/// Bytes that come behind others add their items behind the items of the
/// others: the records of what was pending, put together with the whole
/// lines that have come.
pub proof fn lemma_decoded_of_more<T: Record>(bytes: Seq<u8>, more: Seq<u8>)
    ensures
        decoded::<T>(bytes + more) == decoded::<T>(bytes) + if complete_len(more) > 0 {
            items_of::<T>(frames(pending_part(bytes) + complete_part(more)))
        } else {
            Seq::empty()
        },
{
    lemma_complete_len_of_more(bytes, more);
    lemma_complete_len_is_last(bytes);
    if complete_len(more) > 0 {
        let added = pending_part(bytes) + complete_part(more);
        lemma_frames_behind_lines(complete_part(bytes), added);
        assert(items_of::<T>(frames(complete_part(bytes)) + frames(added)) =~= items_of::<T>(
            frames(complete_part(bytes)),
        ) + items_of::<T>(frames(added)));
    } else {
        assert(decoded::<T>(bytes) + Seq::empty() =~= decoded::<T>(bytes));
    }
}

/// At the end of a reply, what is pending is its last record, unless it is
/// nothing.
pub proof fn lemma_decoded_at_end<T: Record>(bytes: Seq<u8>)
    ensures
        decoded_at_end::<T>(bytes) == decoded::<T>(bytes) + if pending_part(bytes).len() == 0 {
            Seq::empty()
        } else {
            seq![record_of_line::<T>(pending_part(bytes))]
        },
{
    lemma_frames_of_parts(bytes);
    let lines = frames(complete_part(bytes));
    if pending_part(bytes).len() == 0 {
        assert(lines + Seq::<Seq<u8>>::empty() =~= lines);
        assert(decoded::<T>(bytes) + Seq::empty() =~= decoded::<T>(bytes));
    } else {
        assert(items_of::<T>(lines + seq![pending_part(bytes)]) =~= items_of::<T>(lines) + seq![
            record_of_line::<T>(pending_part(bytes)),
        ]);
    }
}

/// Of the items that a stream yields, none but the final one is marked as
/// the last one, while the reply goes on as well as at its end; and where
/// the reply holds a record so marked, the stream yields exactly one, as its
/// final item.
pub proof fn lemma_one_last_item<T: Record>(bytes: Seq<u8>)
    ensures
        forall|i: int|
            0 <= i < through_last::<T>(decoded::<T>(bytes)).len() - 1 ==> !is_last::<T>(
                #[trigger] through_last::<T>(decoded::<T>(bytes))[i],
            ),
        forall|i: int|
            0 <= i < through_last::<T>(decoded_at_end::<T>(bytes)).len() - 1 ==> !is_last::<T>(
                #[trigger] through_last::<T>(decoded_at_end::<T>(bytes))[i],
            ),
        has_last::<T>(decoded::<T>(bytes)) ==> through_last::<T>(decoded::<T>(bytes)).len() > 0
            && is_last::<T>(through_last::<T>(decoded::<T>(bytes)).last()),
        has_last::<T>(decoded_at_end::<T>(bytes)) ==> through_last::<T>(
            decoded_at_end::<T>(bytes),
        ).len() > 0 && is_last::<T>(through_last::<T>(decoded_at_end::<T>(bytes)).last()),
{
    lemma_through_last::<T>(decoded::<T>(bytes));
    lemma_through_last::<T>(decoded_at_end::<T>(bytes));
}

/// Two records on two lines come out as two items, in the order of the
/// lines, wherever the reply is cut into chunks.
pub proof fn lemma_two_records_in_order<T: Record>(first: Seq<u8>, second: Seq<u8>)
    requires
        is_line(first),
        is_line(second),
    ensures
        decoded::<T>(first + seq![LINE_FEED] + second + seq![LINE_FEED]) == seq![
            record_of_line::<T>(first),
            record_of_line::<T>(second),
        ],
        decoded_at_end::<T>(first + seq![LINE_FEED] + second) == seq![
            record_of_line::<T>(first),
            record_of_line::<T>(second),
        ],
{
    lemma_frames_of_two_lines(first, second);
    let bytes = first + seq![LINE_FEED] + second + seq![LINE_FEED];
    lemma_complete_len(bytes, bytes.len() as int);
    assert(complete_part(bytes) =~= bytes);
    assert(decoded::<T>(bytes) =~= seq![record_of_line::<T>(first), record_of_line::<T>(second)]);
    assert(decoded_at_end::<T>(first + seq![LINE_FEED] + second) =~= seq![
        record_of_line::<T>(first),
        record_of_line::<T>(second),
    ]);
}

/// A chunk without a line feed, the empty chunk among them, completes no
/// record: the reply holds the items that it held before.
pub proof fn lemma_no_line_feed_no_items<T: Record>(bytes: Seq<u8>, chunk: Seq<u8>)
    requires
        forall|i: int| 0 <= i < chunk.len() ==> chunk[i] != LINE_FEED,
    ensures
        decoded::<T>(bytes + chunk) == decoded::<T>(bytes),
{
    lemma_complete_len(chunk, 0);
    lemma_complete_len_of_more(bytes, chunk);
}

/// Behind whole lines, a chunk that holds line endings alone completes no
/// record: the reply holds the items that it held before.
pub proof fn lemma_blank_lines_no_items<T: Record>(bytes: Seq<u8>, chunk: Seq<u8>)
    requires
        is_complete(bytes),
        is_blank(chunk),
    ensures
        decoded::<T>(bytes + chunk) == decoded::<T>(bytes),
{
    lemma_decoded_of_more::<T>(bytes, chunk);
    lemma_complete_len(bytes, bytes.len() as int);
    lemma_complete_len_is_last(chunk);
    if complete_len(chunk) > 0 {
        let lines = complete_part(chunk);
        assert(pending_part(bytes) + lines =~= lines);
        assert(is_blank(lines)) by {
            assert forall|i: int| 0 <= i < lines.len() implies {
                ||| lines[i] == LINE_FEED
                ||| (#[trigger] lines[i] == CARRIAGE_RETURN && i + 1 < lines.len() && lines[i + 1]
                    == LINE_FEED)
            } by {
                assert(lines[i] == chunk[i]);
                if chunk[i] != LINE_FEED {
                    assert(chunk[i] == CARRIAGE_RETURN && i + 1 < chunk.len() && chunk[i + 1]
                        == LINE_FEED);
                    assert(i + 1 < lines.len());
                    assert(lines[i + 1] == chunk[i + 1]);
                }
            }
        }
        lemma_frames_of_blank(lines);
        assert(items_of::<T>(frames(lines)) =~= Seq::<Result<T::V, DecodeError>>::empty());
    }
    assert(decoded::<T>(bytes) + Seq::empty() =~= decoded::<T>(bytes));
}

/// The decoder of one streamed reply.
pub struct ResponseStream<T: Record> {
    pending: Vec<u8>,
    done: bool,
    ended: bool,
    lines: Ghost<Seq<u8>>,
    marker: PhantomData<T>,
}

impl<T: Record> ResponseStream<T> {
    /// What has been taken is whole lines and, behind them, the start of a
    /// line; and the stream knows whether a record of the whole lines is
    /// marked as the last one.
    #[verifier::type_invariant]
    spec fn consistent(&self) -> bool {
        &&& is_complete(self.lines@)
        &&& forall|i: int| 0 <= i < self.pending@.len() ==> self.pending@[i] != LINE_FEED
        &&& self.done == has_last::<T>(items_of::<T>(frames(self.lines@)))
    }

    /// The bytes taken so far.
    pub closed spec fn received(&self) -> Seq<u8> {
        self.lines@ + self.pending@
    }

    /// Whether the end of the reply has been announced.
    pub closed spec fn ended(&self) -> bool {
        self.ended
    }

    /// Whether the stream takes no more: the end of the reply has been
    /// announced, or a record marked as the last one has been yielded.
    pub open spec fn closed(&self) -> bool {
        self.ended() || has_last::<T>(decoded::<T>(self.received()))
    }

    /// All the items yielded so far.
    pub open spec fn emitted(&self) -> Seq<Result<T::V, DecodeError>> {
        if self.ended() {
            through_last::<T>(decoded_at_end::<T>(self.received()))
        } else {
            through_last::<T>(decoded::<T>(self.received()))
        }
    }

    /// A stream that has taken nothing.
    pub fn new() -> (stream: Self)
        ensures
            stream.received() == Seq::<u8>::empty(),
            !stream.ended(),
            !stream.closed(),
            stream.emitted() == Seq::<Result<T::V, DecodeError>>::empty(),
    {
        let stream = ResponseStream {
            pending: Vec::new(),
            done: false,
            ended: false,
            lines: Ghost(Seq::empty()),
            marker: PhantomData,
        };
        proof {
            assert(stream.received() =~= Seq::<u8>::empty());
            lemma_complete_len(Seq::<u8>::empty(), 0);
            assert(decoded::<T>(Seq::<u8>::empty()) =~= Seq::<Result<T::V, DecodeError>>::empty());
        }
        stream
    }

    /// What the stream keeps, in terms of the bytes taken so far.
    proof fn lemma_state(&self)
        requires
            self.consistent(),
        ensures
            complete_part(self.received()) == self.lines@,
            pending_part(self.received()) == self.pending@,
            self.done == has_last::<T>(decoded::<T>(self.received())),
    {
        let all = self.lines@ + self.pending@;
        let at = self.lines@.len() as int;
        if at > 0 {
            assert(all[at - 1] == self.lines@[at - 1]);
        }
        assert forall|i: int| at <= i < all.len() implies all[i] != LINE_FEED by {
            assert(all[i] == self.pending@[i - at]);
        }
        lemma_complete_len(all, at);
        assert(all.take(at) =~= self.lines@);
        assert(all.skip(at) =~= self.pending@);
    }

    /// Tells whether the stream takes no more.
    pub fn is_finished(&self) -> (b: bool)
        ensures
            b == self.closed(),
    {
        proof {
            use_type_invariant(self);
            self.lemma_state();
        }
        self.done || self.ended
    }

    /// Takes the next chunk of the reply and yields the items that it
    /// completes: the records of the lines that end in the chunk, up to the
    /// first one that is marked as the last one, each decoded or reported as
    /// an error. A stream that takes no more yields nothing and stays as it
    /// is.
    pub fn feed(&mut self, chunk: &[u8]) -> (out: Vec<Result<T, DecodeError>>)
        ensures
            final(self).ended() == old(self).ended(),
            final(self).received() == if old(self).closed() {
                old(self).received()
            } else {
                old(self).received() + chunk@
            },
            final(self).emitted() == old(self).emitted() + item_views(out@),
            item_views(out@) == if old(self).closed() || complete_len(chunk@) == 0 {
                Seq::empty()
            } else {
                through_last::<T>(
                    items_of::<T>(
                        frames(pending_part(old(self).received()) + complete_part(chunk@)),
                    ),
                )
            },
    {
        let mut out: Vec<Result<T, DecodeError>> = Vec::new();
        let ghost before = self.received();
        let ghost lines = self.lines@;
        proof {
            use_type_invariant(&*self);
            self.lemma_state();
            assert(item_views(out@) =~= Seq::<Result<T::V, DecodeError>>::empty());
            assert(old(self).emitted() + item_views(out@) =~= old(self).emitted());
        }
        if self.done || self.ended {
            return out;
        }
        let at = complete_length(chunk);
        proof {
            lemma_complete_len_is_last(chunk@);
            lemma_decoded_of_more::<T>(before, chunk@);
            lemma_complete_len_of_more(before, chunk@);
        }
        if at == 0 {
            let mut pending = self.pending.clone();
            pending.extend_from_slice(chunk);
            *self = ResponseStream {
                pending,
                done: false,
                ended: false,
                lines: Ghost(lines),
                marker: PhantomData,
            };
            proof {
                assert(self.received() =~= before + chunk@);
                assert(decoded::<T>(before) + Seq::empty() =~= decoded::<T>(before));
            }
            return out;
        }
        let mut data = self.pending.clone();
        data.extend_from_slice(slice_subrange(chunk, 0, at));
        let rest = slice_to_vec(slice_subrange(chunk, at, chunk.len()));
        let ghost items = items_of::<T>(frames(data@));
        proof {
            assert(data@ =~= pending_part(before) + complete_part(chunk@));
            assert(rest@ =~= pending_part(chunk@));
            assert(data@.last() == chunk@[at - 1]);
            lemma_frames_behind_lines(lines, data@);
            assert(items_of::<T>(frames(lines) + frames(data@)) =~= items_of::<T>(frames(lines))
                + items);
            lemma_through_last_of_more::<T>(items_of::<T>(frames(lines)), items);
            assert forall|i: int| 0 <= i < rest@.len() implies rest@[i] != LINE_FEED by {
                assert(rest@[i] == chunk@[i + at]);
            }
        }
        let records = split_frames(data.as_slice());
        let mut last = false;
        let mut i: usize = 0;
        assert(items.take(0) =~= item_views(out@));
        while i < records.len() && !last
            invariant
                0 <= i <= records.len(),
                slice_views(records@) == frames(data@),
                items == items_of::<T>(frames(data@)),
                items.len() == records@.len(),
                out@.len() == i,
                item_views(out@) == items.take(i as int),
                forall|k: int| 0 <= k < i - 1 ==> !is_last::<T>(#[trigger] items[k]),
                i > 0 ==> last == is_last::<T>(items[i - 1]),
                i == 0 ==> !last,
            decreases records.len() - i,
        {
            let item = decode_line::<T>(records[i]);
            last =
            match &item {
                Ok(record) => record.is_terminal(),
                Err(_) => false,
            };
            proof {
                assert(slice_views(records@)[i as int] == records@[i as int]@);
                assert(item_view(item) == items[i as int]);
                assert(item_views(out@.push(item)) =~= items.take(i + 1));
            }
            out.push(item);
            i += 1;
        }
        proof {
            if last {
                lemma_through_last_split::<T>(items, i - 1);
                assert(items.skip(i - 1)[0] == items[i - 1]);
                assert(items.take(i - 1) + seq![items[i - 1]] =~= items.take(i as int));
                assert(has_last::<T>(items));
            } else {
                lemma_through_last_split::<T>(items, items.len() as int);
                assert(items.skip(items.len() as int) =~= Seq::<
                    Result<T::V, DecodeError>,
                >::empty());
                assert(items.take(i as int) + Seq::<Result<T::V, DecodeError>>::empty()
                    =~= items);
            }
            assert(lines + data@ + rest@ =~= before + chunk@);
            assert(is_complete(lines + data@));
        }
        *self = ResponseStream {
            pending: rest,
            done: last,
            ended: false,
            lines: Ghost(lines + data@),
            marker: PhantomData,
        };
        proof {
            self.lemma_state();
            assert(self.received() =~= before + chunk@);
            lemma_through_last::<T>(decoded::<T>(before));
            assert(decoded::<T>(before + chunk@) == decoded::<T>(before) + items);
            assert(item_views(out@) == through_last::<T>(items));
        }
        out
    }

    /// Announces the end of the reply and yields the item that it
    /// completes: the record of the line that has not ended, if there is
    /// one. A stream that takes no more yields nothing and stays as it is.
    pub fn finish(&mut self) -> (out: Vec<Result<T, DecodeError>>)
        ensures
            final(self).received() == old(self).received(),
            final(self).ended() == (old(self).ended() || !old(self).closed()),
            final(self).closed(),
            final(self).emitted() == old(self).emitted() + item_views(out@),
            item_views(out@) == if old(self).closed() || pending_part(old(self).received()).len()
                == 0 {
                Seq::empty()
            } else {
                seq![record_of_line::<T>(pending_part(old(self).received()))]
            },
    {
        let mut out: Vec<Result<T, DecodeError>> = Vec::new();
        let ghost before = self.received();
        proof {
            use_type_invariant(&*self);
            self.lemma_state();
            assert(item_views(out@) =~= Seq::<Result<T::V, DecodeError>>::empty());
            assert(old(self).emitted() + item_views(out@) =~= old(self).emitted());
        }
        if self.done || self.ended {
            return out;
        }
        proof {
            lemma_decoded_at_end::<T>(before);
            lemma_through_last::<T>(decoded::<T>(before));
        }
        if self.pending.len() > 0 {
            let item = decode_line::<T>(self.pending.as_slice());
            proof {
                let one = seq![record_of_line::<T>(self.pending@)];
                lemma_through_last_of_more::<T>(decoded::<T>(before), one);
                assert(one.drop_first() =~= Seq::<Result<T::V, DecodeError>>::empty());
                assert(through_last::<T>(one.drop_first()) =~= Seq::<
                    Result<T::V, DecodeError>,
                >::empty());
                assert(through_last::<T>(one) =~= one);
                assert(item_views(out@.push(item)) =~= one);
            }
            out.push(item);
        } else {
            proof {
                assert(decoded::<T>(before) + Seq::empty() =~= decoded::<T>(before));
            }
        }
        self.ended = true;
        out
    }
}

} // verus!

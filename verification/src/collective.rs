//! The byte framing of the collective operations.
//!
//! A collection travels between the workers as one run of bytes: the encoded
//! elements one after the other, all of the same length. The functions here
//! check that the elements have one length, join them into such a run, say
//! how many elements each worker gets, and cut a run back into its elements.
//! Encoding the elements and moving the bytes is left to the caller.

use vstd::prelude::*;

verus! {

/// Every frame is `frame_len` bytes long.
pub open spec fn is_uniform(frames: Seq<Seq<u8>>, frame_len: nat) -> bool {
    forall|i: int| 0 <= i < frames.len() ==> (#[trigger] frames[i]).len() == frame_len
}

/// The bytes of each frame.
pub open spec fn frames_view(frames: Seq<Vec<u8>>) -> Seq<Seq<u8>> {
    frames.map_values(|frame: Vec<u8>| frame@)
}

/// The run of bytes cut into frames of `frame_len` bytes, the last one
/// shorter where the run does not divide evenly.
pub open spec fn frames_of(bytes: Seq<u8>, frame_len: nat) -> Seq<Seq<u8>>
    decreases bytes.len(),
{
    if bytes.len() == 0 || frame_len == 0 {
        Seq::empty()
    } else if bytes.len() <= frame_len {
        seq![bytes]
    } else {
        seq![bytes.take(frame_len as int)] + frames_of(bytes.skip(frame_len as int), frame_len)
    }
}

/// The common length of the frames, if there is a frame and all frames have
/// the length of the first.
pub fn uniform_len(frames: &Vec<Vec<u8>>) -> (frame_len: Option<usize>)
    ensures
        frame_len.is_some() <==> frames@.len() > 0 && is_uniform(
            frames_view(frames@),
            frames@[0]@.len(),
        ),
        frame_len.is_some() ==> frame_len.unwrap() == frames@[0]@.len(),
{
    let count = frames.len();
    if count == 0 {
        return None;
    }
    let first_len = frames[0].len();
    for i in 1..count
        invariant
            count == frames@.len(),
            count > 0,
            first_len == frames@[0]@.len(),
            forall|k: int| 0 <= k < i ==> (#[trigger] frames_view(frames@)[k]).len() == first_len,
    {
        if frames[i].len() != first_len {
            assert(frames_view(frames@)[i as int].len() != first_len);
            return None;
        }
    }
    Some(first_len)
}

/// Joins frames of one length into a single run of bytes, and says what that
/// length is.
pub fn join_frames(frames: &Vec<Vec<u8>>) -> (joined: (usize, Vec<u8>))
    requires
        frames@.len() > 0,
        is_uniform(frames_view(frames@), frames@[0]@.len()),
    ensures
        joined.0 == frames@[0]@.len(),
        joined.1@ == frames_view(frames@).flatten(),
{
    let ghost views = frames_view(frames@);
    let mut bytes: Vec<u8> = Vec::new();
    let count = frames.len();
    assert(views.take(0) =~= Seq::<Seq<u8>>::empty());
    for i in 0..count
        invariant
            count == frames@.len(),
            views == frames_view(frames@),
            bytes@ == views.take(i as int).flatten(),
    {
        let frame = &frames[i];
        let ghost done = bytes@;
        let frame_len = frame.len();
        for j in 0..frame_len
            invariant
                frame_len == frame@.len(),
                bytes@ == done + frame@.take(j as int),
        {
            bytes.push(frame[j]);
            assert(bytes@ =~= done + frame@.take(j + 1));
        }
        proof {
            assert(frame@.take(frame_len as int) =~= frame@);
            assert(views.take(i + 1) =~= views.take(i as int).push(frame@));
            views.take(i as int).lemma_flatten_push(frame@);
        }
    }
    assert(views.take(count as int) =~= views);
    (frames[0].len(), bytes)
}

/// How many elements each of `workers` workers gets of `total` elements:
/// an equal share, where there is something to share and it divides evenly.
pub fn shard_size(total: usize, workers: usize) -> (share: Option<usize>)
    ensures
        share.is_some() <==> workers > 0 && total > 0 && total % workers == 0,
        share.is_some() ==> share.unwrap() * workers == total,
{
    if workers == 0 || total == 0 || total % workers != 0 {
        None
    } else {
        let share = total / workers;
        assert(share * workers == total) by (nonlinear_arith)
            requires
                workers > 0,
                total % workers == 0,
                share == total / workers,
        ;
        Some(share)
    }
}

/// How many bytes `count` frames of `frame_len` bytes take, if a `usize` can
/// say it.
pub fn buffer_len(frame_len: usize, count: usize) -> (len: Option<usize>)
    ensures
        len.is_some() <==> frame_len * count <= usize::MAX,
        len.is_some() ==> len.unwrap() == frame_len * count,
{
    frame_len.checked_mul(count)
}

/// Cuts a run of bytes into frames of `frame_len` bytes; the last frame is
/// shorter where the run does not divide evenly.
pub fn split_frames(bytes: &[u8], frame_len: usize) -> (frames: Vec<Vec<u8>>)
    requires
        frame_len > 0,
    ensures
        frames_view(frames@) == frames_of(bytes@, frame_len as nat),
{
    let mut frames: Vec<Vec<u8>> = Vec::new();
    let len = bytes.len();
    let mut start: usize = 0;
    assert(bytes@.skip(0) =~= bytes@);
    assert(frames_view(frames@) =~= Seq::<Seq<u8>>::empty());
    while start < len
        invariant
            frame_len > 0,
            len == bytes@.len(),
            start <= len,
            frames_view(frames@) + frames_of(bytes@.skip(start as int), frame_len as nat)
                == frames_of(bytes@, frame_len as nat),
        decreases len - start,
    {
        let end = if len - start <= frame_len {
            len
        } else {
            start + frame_len
        };
        let ghost rest = bytes@.skip(start as int);
        let mut frame: Vec<u8> = Vec::with_capacity(end - start);
        for j in start..end
            invariant
                start <= end <= len,
                len == bytes@.len(),
                frame@ == bytes@.subrange(start as int, j as int),
        {
            frame.push(bytes[j]);
            assert(frame@ =~= bytes@.subrange(start as int, j + 1));
        }
        proof {
            let before = frames_view(frames@);
            if len - start <= frame_len {
                assert(frame@ =~= rest);
                assert(bytes@.skip(end as int).len() == 0);
                assert(frames_of(rest, frame_len as nat) =~= seq![frame@] + frames_of(
                    bytes@.skip(end as int),
                    frame_len as nat,
                ));
            } else {
                assert(frame@ =~= rest.take(frame_len as int));
                assert(rest.skip(frame_len as int) =~= bytes@.skip(end as int));
            }
            assert(frames_view(frames@.push(frame)) =~= before.push(frame@));
            assert(before.push(frame@) + frames_of(bytes@.skip(end as int), frame_len as nat)
                =~= before + (seq![frame@] + frames_of(
                bytes@.skip(end as int),
                frame_len as nat,
            )));
        }
        frames.push(frame);
        start = end;
    }
    assert(frames_view(frames@) + Seq::<Seq<u8>>::empty() =~= frames_view(frames@));
    frames
}

/// Cutting the run of joined frames gives the frames back: what was joined
/// from frames of one length, not zero, splits into those very frames.
pub proof fn lemma_split_recovers_frames(frames: Seq<Seq<u8>>, frame_len: nat)
    requires
        frame_len > 0,
        is_uniform(frames, frame_len),
    ensures
        frames_of(frames.flatten(), frame_len) == frames,
    decreases frames.len(),
{
    if frames.len() == 0 {
        assert(frames =~= Seq::<Seq<u8>>::empty());
    } else {
        let rest = frames.drop_first();
        lemma_split_recovers_frames(rest, frame_len);
        let bytes = frames.flatten();
        assert(bytes == frames.first() + rest.flatten());
        if rest.len() == 0 {
            assert(rest.flatten() =~= Seq::<u8>::empty());
            assert(bytes =~= frames.first());
            assert(frames =~= seq![frames.first()]);
        } else {
            rest.lemma_flatten_length_ge_single_element_length(0);
            assert(bytes.take(frame_len as int) =~= frames.first());
            assert(bytes.skip(frame_len as int) =~= rest.flatten());
            assert(frames =~= seq![frames.first()] + rest);
        }
    }
}

/// What the worker of rank `rank` holds of `items` when the workers get
/// `share` items each, in the order of their ranks.
pub open spec fn shard_of<T>(items: Seq<T>, share: nat, rank: nat) -> Seq<T> {
    items.subrange((rank * share) as int, ((rank + 1) * share) as int)
}

/// The shards of the workers of ranks `0..workers`, in that order.
pub open spec fn shards<T>(items: Seq<T>, share: nat, workers: nat) -> Seq<Seq<T>> {
    Seq::new(workers, |rank: int| shard_of(items, share, rank as nat))
}

/// The shards of the first `workers` workers, gathered in the order of their
/// ranks, are the items that were dealt out to them.
pub proof fn lemma_gather_prefix<T>(items: Seq<T>, share: nat, workers: nat)
    requires
        share * workers <= items.len(),
    ensures
        shards(items, share, workers).flatten() == items.take((share * workers) as int),
    decreases workers,
{
    if workers == 0 {
        assert(share * workers == 0) by (nonlinear_arith)
            requires
                workers == 0,
        ;
        assert(shards(items, share, workers) =~= Seq::<Seq<T>>::empty());
        assert(items.take(0) =~= Seq::<T>::empty());
    } else {
        let fewer = (workers - 1) as nat;
        assert(share * workers == share * fewer + share && (fewer + 1) * share == share * workers
            && fewer * share == share * fewer) by (nonlinear_arith)
            requires
                fewer == workers - 1,
        ;
        lemma_gather_prefix(items, share, fewer);
        let last = shard_of(items, share, fewer);
        assert(shards(items, share, workers) =~= shards(items, share, fewer).push(last));
        shards(items, share, fewer).lemma_flatten_push(last);
        assert(items.take((share * fewer) as int) + last =~= items.take((share * workers) as int));
    }
}

/// A collection that is split evenly among the workers and gathered again in
/// the order of their ranks comes back as it was: the same items, each as
/// often as before, and in the same order.
pub proof fn lemma_gather_recovers<T>(items: Seq<T>, share: nat, workers: nat)
    requires
        items.len() == share * workers,
    ensures
        shards(items, share, workers).flatten() == items,
        shards(items, share, workers).flatten().to_multiset() == items.to_multiset(),
{
    lemma_gather_prefix(items, share, workers);
    assert(items.take((share * workers) as int) =~= items);
}

/// Frames of one length, joined, take that length times their number.
pub proof fn lemma_joined_len(frames: Seq<Seq<u8>>, frame_len: nat)
    requires
        is_uniform(frames, frame_len),
    ensures
        frames.flatten().len() == frames.len() * frame_len,
    decreases frames.len(),
{
    if frames.len() == 0 {
        assert(frames.len() * frame_len == 0) by (nonlinear_arith)
            requires
                frames.len() == 0,
        ;
    } else {
        let rest = frames.drop_first();
        lemma_joined_len(rest, frame_len);
        assert(frames.len() * frame_len == rest.len() * frame_len + frame_len)
            by (nonlinear_arith)
            requires
                frames.len() == rest.len() + 1,
        ;
    }
}

/// The bytes that a worker gets of the joined frames are the joined frames
/// of its shard.
pub proof fn lemma_block_is_joined_shard(
    frames: Seq<Seq<u8>>,
    frame_len: nat,
    share: nat,
    rank: nat,
)
    requires
        is_uniform(frames, frame_len),
        (rank + 1) * share <= frames.len(),
    ensures
        shard_of(frames.flatten(), share * frame_len, rank) == shard_of(
            frames,
            share,
            rank,
        ).flatten(),
{
    let from = rank * share;
    let to = (rank + 1) * share;
    assert(from <= to && to == from + share) by (nonlinear_arith)
        requires
            from == rank * share,
            to == (rank + 1) * share,
    ;
    let head = frames.take(from as int);
    let mine = frames.subrange(from as int, to as int);
    let tail = frames.skip(to as int);
    assert(frames =~= head + mine + tail);
    vstd::seq_lib::lemma_flatten_concat(head + mine, tail);
    vstd::seq_lib::lemma_flatten_concat(head, mine);
    lemma_joined_len(head, frame_len);
    lemma_joined_len(mine, frame_len);
    assert(rank * (share * frame_len) == from * frame_len && (rank + 1) * (share * frame_len)
        == from * frame_len + share * frame_len && mine.len() * frame_len == share * frame_len)
        by (nonlinear_arith)
        requires
            from == rank * share,
            mine.len() == share,
    ;
    assert(frames.flatten().subrange(
        head.flatten().len() as int,
        (head.flatten().len() + mine.flatten().len()) as int,
    ) =~= mine.flatten());
}

/// Scattering and gathering undo each other.
///
/// Take frames of one length, not zero, whose number divides evenly among
/// the workers, and join them. The bytes that fall to each worker split into
/// the frames of its shard, and the shards gathered in the order of the
/// ranks are the frames that were scattered: nothing is lost, added or
/// reordered on the way.
pub proof fn lemma_scatter_gather_round_trip(
    frames: Seq<Seq<u8>>,
    frame_len: nat,
    share: nat,
    workers: nat,
)
    requires
        frame_len > 0,
        is_uniform(frames, frame_len),
        frames.len() == share * workers,
    ensures
        forall|rank: nat|
            rank < workers ==> frames_of(
                #[trigger] shard_of(frames.flatten(), share * frame_len, rank),
                frame_len,
            ) == shard_of(frames, share, rank),
        shards(frames, share, workers).flatten() == frames,
        shards(frames, share, workers).flatten().to_multiset() == frames.to_multiset(),
{
    lemma_gather_recovers(frames, share, workers);
    assert forall|rank: nat| rank < workers implies frames_of(
        #[trigger] shard_of(frames.flatten(), share * frame_len, rank),
        frame_len,
    ) == shard_of(frames, share, rank) by {
        assert((rank + 1) * share <= share * workers) by (nonlinear_arith)
            requires
                rank < workers,
        ;
        lemma_block_is_joined_shard(frames, frame_len, share, rank);
        let mine = shard_of(frames, share, rank);
        assert(rank * share <= (rank + 1) * share) by (nonlinear_arith);
        assert forall|i: int| 0 <= i < mine.len() implies (#[trigger] mine[i]).len()
            == frame_len by {
            assert(mine[i] == frames[rank * share + i]);
        }
        lemma_split_recovers_frames(mine, frame_len);
    }
}

} // verus!

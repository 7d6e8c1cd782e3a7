//! Writing stretches of bytes to a socket that may take them bit by bit.
use vstd::prelude::*;
use vstd::slice::slice_subrange;

verus! {

/// What came of one attempt to write.
#[derive(Clone, Copy, Debug, PartialEq, Eq, Structural)]
pub enum WriteAttempt {
    /// The socket took this many bytes.
    Took(usize),
    /// There was no room to write.
    WouldBlock,
    /// A signal came between.
    Interrupted,
    /// The socket failed.
    Failed,
}

/// What an attempt leads to.
#[derive(Clone, Copy, Debug, PartialEq, Eq, Structural)]
pub enum WriteStep {
    /// Another attempt, with what is left.
    Again,
    /// The end; the socket has taken this many bytes.
    Finished(usize),
    /// The end, by a failure.
    Failed,
}

/// How far a stretch of bytes has been written.
#[derive(Clone, Copy, Debug, PartialEq, Eq, Structural)]
pub struct BlockingWrite {
    /// How many bytes there are.
    pub len: usize,
    /// How many of them the socket has taken.
    pub written: usize,
}

impl BlockingWrite {
    /// What holds of every stretch.
    pub open spec fn wf(self) -> bool {
        self.written <= self.len
    }

    /// Whether the socket can have taken so many bytes.
    pub open spec fn allows(self, attempt: WriteAttempt) -> bool {
        attempt matches WriteAttempt::Took(n) ==> n <= self.len - self.written
    }

    /// What `attempt` leads to. A socket that takes nothing ends the writing; one that has no
    /// room, or was interrupted, is tried again.
    pub open spec fn after(self, attempt: WriteAttempt) -> (BlockingWrite, WriteStep) {
        match attempt {
            WriteAttempt::Took(n) => if n == 0 {
                (self, WriteStep::Finished(self.written))
            } else {
                (
                    BlockingWrite { written: (self.written + n) as usize, ..self },
                    WriteStep::Again,
                )
            },
            WriteAttempt::WouldBlock => (self, WriteStep::Again),
            WriteAttempt::Interrupted => (self, WriteStep::Again),
            WriteAttempt::Failed => (self, WriteStep::Failed),
        }
    }

    /// Begins to write `len` bytes.
    pub fn new(len: usize) -> (write: BlockingWrite)
        ensures
            write.len == len,
            write.written == 0,
            write.wf(),
    {
        BlockingWrite { len, written: 0 }
    }

    /// Goes on after an attempt to write the bytes from number `written` on.
    pub fn step(&mut self, attempt: WriteAttempt) -> (step: WriteStep)
        requires
            old(self).wf(),
            old(self).allows(attempt),
        ensures
            (*final(self), step) == old(self).after(attempt),
            final(self).wf(),
    {
        match attempt {
            WriteAttempt::Took(n) => {
                if n == 0 {
                    WriteStep::Finished(self.written)
                } else {
                    self.written = self.written + n;
                    WriteStep::Again
                }
            },
            WriteAttempt::WouldBlock => WriteStep::Again,
            WriteAttempt::Interrupted => WriteStep::Again,
            WriteAttempt::Failed => WriteStep::Failed,
        }
    }

    /// Where the writing stands after `attempts`, the earliest first, and what they led to. Those
    /// that come after the end change nothing.
    pub open spec fn after_all(self, attempts: Seq<WriteAttempt>) -> (BlockingWrite, WriteStep)
        decreases attempts.len(),
    {
        if attempts.len() == 0 {
            (self, WriteStep::Again)
        } else {
            let (next, step) = self.after(attempts[0]);
            if step == WriteStep::Again {
                next.after_all(attempts.drop_first())
            } else {
                (next, step)
            }
        }
    }
}

/// Whether an attempt ends the writing: the socket took nothing, or failed.
pub open spec fn ends(attempt: WriteAttempt) -> bool {
    attempt == WriteAttempt::Took(0) || attempt == WriteAttempt::Failed
}

/// How many attempts come before the first that ends the writing.
pub open spec fn end_of(attempts: Seq<WriteAttempt>) -> nat
    decreases attempts.len(),
{
    if attempts.len() == 0 || ends(attempts[0]) {
        0
    } else {
        1 + end_of(attempts.drop_first())
    }
}

/// How many bytes `attempts` took in all, up to the end.
pub open spec fn taken(attempts: Seq<WriteAttempt>) -> nat
    decreases attempts.len(),
{
    if attempts.len() == 0 || ends(attempts[0]) {
        0
    } else {
        taken(attempts.drop_first()) + match attempts[0] {
            WriteAttempt::Took(n) => n as nat,
            _ => 0,
        }
    }
}

/// Where attempts lead that begin in the middle of the writing.
proof fn lemma_after_all(write: BlockingWrite, attempts: Seq<WriteAttempt>)
    requires
        write.wf(),
        write.written + taken(attempts) <= write.len,
    ensures
        ({
            let (after, step) = write.after_all(attempts);
            let end = end_of(attempts) as int;
            &&& after.len == write.len
            &&& after.written == write.written + taken(attempts)
            &&& end <= attempts.len()
            &&& end < attempts.len() ==> ends(attempts[end])
            &&& step == if end == attempts.len() {
                WriteStep::Again
            } else if attempts[end] == WriteAttempt::Failed {
                WriteStep::Failed
            } else {
                WriteStep::Finished(after.written)
            }
        }),
    decreases attempts.len(),
{
    if attempts.len() > 0 && !ends(attempts[0]) {
        lemma_after_all(write.after(attempts[0]).0, attempts.drop_first());
    }
}

/// However the socket takes the bytes, the writing stands at what it took in all; it ends with the
/// first attempt at which the socket failed or took nothing, and what it reports in the latter
/// case is what the socket took.
pub proof fn law_written_is_taken(len: usize, attempts: Seq<WriteAttempt>)
    requires
        taken(attempts) <= len,
    ensures
        ({
            let (write, step) = (BlockingWrite { len, written: 0 }).after_all(attempts);
            let end = end_of(attempts) as int;
            &&& write.len == len
            &&& write.written == taken(attempts)
            &&& end <= attempts.len()
            &&& step == WriteStep::Again <==> end == attempts.len()
            &&& step == WriteStep::Failed <==> end < attempts.len() && attempts[end]
                == WriteAttempt::Failed
            &&& step == WriteStep::Finished(write.written) <==> end < attempts.len()
                && attempts[end] == WriteAttempt::Took(0)
        }),
{
    lemma_after_all(BlockingWrite { len, written: 0 }, attempts);
}

/// The writing ends short of the whole stretch, without a failure, exactly where the socket took
/// nothing although something was left.
pub proof fn law_ends_short(len: usize, attempts: Seq<WriteAttempt>)
    requires
        taken(attempts) <= len,
    ensures
        ({
            let step = (BlockingWrite { len, written: 0 }).after_all(attempts).1;
            let end = end_of(attempts) as int;
            (step matches WriteStep::Finished(n) && n < len) <==> {
                &&& end < attempts.len()
                &&& attempts[end] == WriteAttempt::Took(0)
                &&& taken(attempts.take(end)) < len
            }
        }),
{
    lemma_after_all(BlockingWrite { len, written: 0 }, attempts);
    lemma_taken_before_end(attempts);
}

/// All that attempts took they took before the end.
proof fn lemma_taken_before_end(attempts: Seq<WriteAttempt>)
    ensures
        end_of(attempts) <= attempts.len(),
        taken(attempts.take(end_of(attempts) as int)) == taken(attempts),
    decreases attempts.len(),
{
    if attempts.len() > 0 && !ends(attempts[0]) {
        let rest = attempts.drop_first();
        lemma_taken_before_end(rest);
        assert(attempts.take(end_of(attempts) as int).drop_first() =~= rest.take(
            end_of(rest) as int,
        ));
    }
}

/// What an attempt to write a frame leads to.
#[derive(Clone, Copy, Debug, PartialEq, Eq, Structural)]
pub enum FrameStep {
    /// Another attempt, with what is left of the stretch or with the next one.
    Again,
    /// The end; every stretch has had its turn.
    Finished,
    /// The end, by a failure.
    Failed,
}

/// How far a frame has been written, which goes out stretch by stretch.
pub struct FrameWrite {
    /// The stretches, the first of them first.
    pub pieces: Vec<Vec<u8>>,
    /// The number of the stretch that is being written.
    pub current: usize,
    /// How far that stretch has been written.
    pub progress: BlockingWrite,
}

/// What a [`FrameWrite`] is, in mathematical terms.
#[verifier::ext_equal]
pub struct FrameWriteView {
    /// The stretches, the first of them first.
    pub pieces: Seq<Seq<u8>>,
    /// The number of the stretch that is being written.
    pub current: int,
    /// How far that stretch has been written.
    pub progress: BlockingWrite,
}

impl View for FrameWrite {
    type V = FrameWriteView;

    open spec fn view(&self) -> FrameWriteView {
        FrameWriteView {
            pieces: crate::frame::views(self.pieces@),
            current: self.current as int,
            progress: self.progress,
        }
    }
}

impl FrameWriteView {
    /// A frame of which nothing has been written.
    pub open spec fn begun(pieces: Seq<Seq<u8>>) -> FrameWriteView {
        FrameWriteView {
            pieces,
            current: 0,
            progress: BlockingWrite { len: pieces[0].len() as usize, written: 0 },
        }
    }

    /// What holds of every frame.
    pub open spec fn wf(self) -> bool {
        &&& 0 <= self.current < self.pieces.len() <= usize::MAX
        &&& forall|i: int|
            0 <= i < self.pieces.len() ==> (#[trigger] self.pieces[i]).len() <= usize::MAX
        &&& self.progress.wf()
        &&& self.progress.len == self.pieces[self.current].len()
    }

    /// What is left of the stretch that is being written.
    pub open spec fn rest(self) -> Seq<u8> {
        self.pieces[self.current].skip(self.progress.written as int)
    }

    /// What `attempt` leads to. A failure ends the frame; where a stretch has ended otherwise, the
    /// next one follows, whether the socket took it whole or not.
    pub open spec fn after(self, attempt: WriteAttempt) -> (FrameWriteView, FrameStep) {
        let (progress, step) = self.progress.after(attempt);
        let next = FrameWriteView { progress, ..self };
        match step {
            WriteStep::Again => (next, FrameStep::Again),
            WriteStep::Failed => (next, FrameStep::Failed),
            WriteStep::Finished(_) => if self.current + 1 < self.pieces.len() {
                (
                    FrameWriteView {
                        current: self.current + 1,
                        progress: BlockingWrite {
                            len: self.pieces[self.current + 1].len() as usize,
                            written: 0,
                        },
                        ..self
                    },
                    FrameStep::Again,
                )
            } else {
                (next, FrameStep::Finished)
            },
        }
    }

    /// The bytes that the socket took by `attempt`.
    pub open spec fn bytes_of(self, attempt: WriteAttempt) -> Seq<u8> {
        match attempt {
            WriteAttempt::Took(n) => self.rest().take(n as int),
            _ => Seq::empty(),
        }
    }

    /// Where the frame stands after `attempts`, the earliest first, and what they led to. Those
    /// that come after the end change nothing.
    pub open spec fn after_all(self, attempts: Seq<WriteAttempt>) -> (FrameWriteView, FrameStep)
        decreases attempts.len(),
    {
        if attempts.len() == 0 {
            (self, FrameStep::Again)
        } else {
            let (next, step) = self.after(attempts[0]);
            if step == FrameStep::Again {
                next.after_all(attempts.drop_first())
            } else {
                (next, step)
            }
        }
    }

    /// How many of `attempts` are made: those up to the one that ends the frame.
    pub open spec fn made(self, attempts: Seq<WriteAttempt>) -> nat
        decreases attempts.len(),
    {
        if attempts.len() == 0 {
            0
        } else {
            let (next, step) = self.after(attempts[0]);
            if step == FrameStep::Again {
                1 + next.made(attempts.drop_first())
            } else {
                1
            }
        }
    }

    /// All the bytes that the socket took by `attempts`, in order.
    pub open spec fn written(self, attempts: Seq<WriteAttempt>) -> Seq<u8>
        decreases attempts.len(),
    {
        if attempts.len() == 0 {
            Seq::empty()
        } else {
            let (next, step) = self.after(attempts[0]);
            if step == FrameStep::Again {
                self.bytes_of(attempts[0]) + next.written(attempts.drop_first())
            } else {
                self.bytes_of(attempts[0])
            }
        }
    }

    /// Whether the socket can have taken so many bytes by each of `attempts`.
    pub open spec fn allows_all(self, attempts: Seq<WriteAttempt>) -> bool
        decreases attempts.len(),
    {
        attempts.len() > 0 ==> {
            let (next, step) = self.after(attempts[0]);
            &&& self.progress.allows(attempts[0])
            &&& step == FrameStep::Again ==> next.allows_all(attempts.drop_first())
        }
    }

    /// Whether by `attempts` no stretch is followed by the next before it was taken whole.
    pub open spec fn gapless(self, attempts: Seq<WriteAttempt>) -> bool
        decreases attempts.len(),
    {
        attempts.len() > 0 ==> {
            let (next, step) = self.after(attempts[0]);
            &&& next.current != self.current ==> self.rest().len() == 0
            &&& step == FrameStep::Again ==> next.gapless(attempts.drop_first())
        }
    }

    /// Whether by `attempts` the socket never takes nothing although something is left.
    pub open spec fn never_idle(self, attempts: Seq<WriteAttempt>) -> bool
        decreases attempts.len(),
    {
        attempts.len() > 0 ==> {
            let (next, step) = self.after(attempts[0]);
            &&& attempts[0] == WriteAttempt::Took(0) ==> self.rest().len() == 0
            &&& step == FrameStep::Again ==> next.never_idle(attempts.drop_first())
        }
    }

    /// The bytes that the socket has taken, where it took every stretch before this one whole.
    pub open spec fn so_far(self) -> Seq<u8> {
        crate::frame::joined(self.pieces.take(self.current)) + self.pieces[self.current].take(
            self.progress.written as int,
        )
    }
}

impl FrameWrite {
    /// Begins to write a frame that goes out in `pieces`.
    pub fn new(pieces: Vec<Vec<u8>>) -> (frame: FrameWrite)
        requires
            pieces@.len() > 0,
        ensures
            frame@ == FrameWriteView::begun(crate::frame::views(pieces@)),
            frame@.wf(),
    {
        let progress = BlockingWrite::new(pieces[0].len());
        let frame = FrameWrite { pieces, current: 0, progress };
        proof {
            lemma_lengths(frame.pieces);
        }
        frame
    }

    /// The bytes that the next attempt is to offer to the socket.
    pub fn rest(&self) -> (bytes: &[u8])
        requires
            self@.wf(),
        ensures
            bytes@ == self@.rest(),
    {
        let piece = self.pieces[self.current].as_slice();
        slice_subrange(piece, self.progress.written, piece.len())
    }

    /// Goes on after an attempt to write [`FrameWrite::rest`].
    pub fn step(&mut self, attempt: WriteAttempt) -> (step: FrameStep)
        requires
            old(self)@.wf(),
            old(self)@.progress.allows(attempt),
        ensures
            (final(self)@, step) == old(self)@.after(attempt),
            final(self)@.wf(),
    {
        match self.progress.step(attempt) {
            WriteStep::Again => FrameStep::Again,
            WriteStep::Failed => FrameStep::Failed,
            WriteStep::Finished(_) => {
                if self.current + 1 < self.pieces.len() {
                    self.current = self.current + 1;
                    self.progress = BlockingWrite::new(self.pieces[self.current].len());
                    FrameStep::Again
                } else {
                    FrameStep::Finished
                }
            },
        }
    }
}

/// No vector is longer than a number can say.
proof fn lemma_lengths(pieces: Vec<Vec<u8>>)
    ensures
        pieces@.len() <= usize::MAX,
        forall|i: int| 0 <= i < pieces@.len() ==> (#[trigger] pieces@[i])@.len() <= usize::MAX,
{
    assert(pieces.len() == pieces@.len());
    assert forall|i: int| 0 <= i < pieces@.len() implies (#[trigger] pieces@[i])@.len()
        <= usize::MAX by {
        assert(pieces@[i].len() == pieces@[i]@.len());
    }
}

/// A failed attempt ends the frame, and the next stretch follows only where an attempt ended the
/// one before without a failure.
pub proof fn law_frame_in_order(frame: FrameWriteView, attempt: WriteAttempt)
    requires
        frame.wf(),
        frame.progress.allows(attempt),
    ensures
        ({
            let (next, step) = frame.after(attempt);
            &&& step == FrameStep::Failed <==> attempt == WriteAttempt::Failed
            &&& next.current != frame.current ==> {
                &&& next.current == frame.current + 1
                &&& frame.progress.after(attempt).1 is Finished
                &&& step == FrameStep::Again
            }
            &&& step == FrameStep::Finished ==> {
                &&& frame.current == frame.pieces.len() - 1
                &&& frame.progress.after(attempt).1 is Finished
            }
            &&& next.pieces == frame.pieces
            &&& next.wf()
        }),
{
}

/// Of all attempts the first that fails ends the frame: it fails exactly where one fails before
/// the last stretch has ended, none of the attempts made before that failed, and none is made after
/// it.
pub proof fn law_first_failure_ends(frame: FrameWriteView, attempts: Seq<WriteAttempt>)
    requires
        frame.wf(),
        frame.allows_all(attempts),
    ensures
        ({
            let step = frame.after_all(attempts).1;
            let made = frame.made(attempts) as int;
            &&& made <= attempts.len()
            &&& step == FrameStep::Again ==> made == attempts.len()
            &&& step == FrameStep::Failed <==> made > 0 && attempts[made - 1]
                == WriteAttempt::Failed
            &&& forall|i: int|
                0 <= i < made - 1 ==> #[trigger] attempts[i] != WriteAttempt::Failed
            &&& frame.after_all(attempts.take(made)) == frame.after_all(attempts)
            &&& frame.written(attempts.take(made)) == frame.written(attempts)
        }),
    decreases attempts.len(),
{
    if attempts.len() > 0 {
        let (next, step) = frame.after(attempts[0]);
        let made = frame.made(attempts) as int;
        let rest = attempts.drop_first();
        law_frame_in_order(frame, attempts[0]);
        if step == FrameStep::Again {
            law_first_failure_ends(next, rest);
            assert(attempts.take(made).drop_first() =~= rest.take(made - 1));
            assert forall|i: int| 0 <= i < made - 1 implies #[trigger] attempts[i]
                != WriteAttempt::Failed by {
                if i > 0 {
                    assert(rest[i - 1] == attempts[i]);
                }
            }
            if made > 1 {
                assert(rest[made - 2] == attempts[made - 1]);
            }
        }
    } else {
        assert(attempts.take(0) =~= attempts);
    }
}

/// The first stretches make a beginning of all.
proof fn lemma_joined_prefix(pieces: Seq<Seq<u8>>, n: int)
    requires
        0 <= n <= pieces.len(),
    ensures
        crate::frame::joined(pieces.take(n)).is_prefix_of(crate::frame::joined(pieces)),
    decreases pieces.len(),
{
    let part = crate::frame::joined(pieces.take(n));
    let all = crate::frame::joined(pieces);
    if n < pieces.len() {
        lemma_joined_prefix(pieces.drop_last(), n);
        assert(pieces.drop_last().take(n) =~= pieces.take(n));
        assert(all.subrange(0, part.len() as int) =~= part);
    } else {
        assert(pieces.take(n) =~= pieces);
        assert(all.subrange(0, part.len() as int) =~= part);
    }
}

/// What the socket has taken so far is a beginning of the whole frame.
proof fn lemma_so_far_prefix(frame: FrameWriteView)
    requires
        frame.wf(),
    ensures
        frame.so_far().is_prefix_of(crate::frame::joined(frame.pieces)),
        frame.current == frame.pieces.len() - 1 && frame.rest().len() == 0 ==> frame.so_far()
            == crate::frame::joined(frame.pieces),
{
    let k = frame.current;
    let upto = frame.pieces.take(k + 1);
    let all = crate::frame::joined(frame.pieces);
    let part = crate::frame::joined(upto);
    let so_far = frame.so_far();
    lemma_joined_prefix(frame.pieces, k + 1);
    assert(upto.drop_last() =~= frame.pieces.take(k));
    assert(part =~= crate::frame::joined(frame.pieces.take(k)) + frame.pieces[k]);
    assert(so_far =~= part.take(so_far.len() as int));
    assert(all.subrange(0, part.len() as int) == part);
    assert(all.subrange(0, so_far.len() as int) =~= part.take(so_far.len() as int));
    if k == frame.pieces.len() - 1 && frame.rest().len() == 0 {
        assert(upto =~= frame.pieces);
        assert(so_far =~= part);
    }
}

/// One attempt adds to what the socket has taken so far what it took by it.
proof fn lemma_so_far_step(frame: FrameWriteView, attempt: WriteAttempt)
    requires
        frame.wf(),
        frame.progress.allows(attempt),
        frame.after(attempt).0.current != frame.current ==> frame.rest().len() == 0,
    ensures
        frame.after(attempt).0.so_far() == frame.so_far() + frame.bytes_of(attempt),
{
    let k = frame.current;
    let next = frame.after(attempt).0;
    if next.current != k {
        assert(next.pieces.take(k + 1).drop_last() =~= frame.pieces.take(k));
        assert(next.so_far() =~= frame.so_far() + frame.bytes_of(attempt));
    } else {
        assert(next.so_far() =~= frame.so_far() + frame.bytes_of(attempt));
    }
}

/// What the socket takes by attempts adds to what it had taken, where no stretch is left short.
proof fn lemma_written(frame: FrameWriteView, attempts: Seq<WriteAttempt>)
    requires
        frame.wf(),
        frame.allows_all(attempts),
        frame.gapless(attempts),
    ensures
        frame.after_all(attempts).0.wf(),
        frame.after_all(attempts).0.pieces == frame.pieces,
        frame.after_all(attempts).0.so_far() == frame.so_far() + frame.written(attempts),
        frame.after_all(attempts).1 == FrameStep::Finished ==> frame.after_all(attempts).0.current
            == frame.pieces.len() - 1,
    decreases attempts.len(),
{
    if attempts.len() > 0 {
        let (next, step) = frame.after(attempts[0]);
        law_frame_in_order(frame, attempts[0]);
        lemma_so_far_step(frame, attempts[0]);
        if step == FrameStep::Again {
            lemma_written(next, attempts.drop_first());
            assert(frame.so_far() + frame.written(attempts) =~= next.so_far() + next.written(
                attempts.drop_first(),
            ));
        }
    } else {
        assert(frame.so_far() + frame.written(attempts) =~= frame.so_far());
    }
}

/// Where every stretch before the current one was taken whole, the bytes that the socket took are
/// a beginning of the directly written frame of `data`; where the last was too, they are all of it.
pub proof fn law_written_is_prefix(data: Seq<u8>, attempts: Seq<WriteAttempt>)
    requires
        data.len() <= usize::MAX,
        FrameWriteView::begun(crate::frame::direct_head(data.len()).push(data)).allows_all(
            attempts,
        ),
        FrameWriteView::begun(crate::frame::direct_head(data.len()).push(data)).gapless(attempts),
    ensures
        ({
            let pieces = crate::frame::direct_head(data.len()).push(data);
            let frame = FrameWriteView::begun(pieces);
            let (after, step) = frame.after_all(attempts);
            &&& frame.written(attempts).is_prefix_of(crate::frame::joined(pieces))
            &&& step == FrameStep::Finished && after.rest().len() == 0 ==> frame.written(attempts)
                == crate::frame::joined(pieces)
        }),
{
    let frame = FrameWriteView::begun(crate::frame::direct_head(data.len()).push(data));
    lemma_begun(data);
    lemma_written(frame, attempts);
    assert(frame.pieces.take(0) =~= Seq::<Seq<u8>>::empty());
    assert(frame.so_far() =~= Seq::<u8>::empty());
    assert(frame.so_far() + frame.written(attempts) =~= frame.written(attempts));
    lemma_so_far_prefix(frame.after_all(attempts).0);
}

/// The directly written frame of `data` begins well.
proof fn lemma_begun(data: Seq<u8>)
    requires
        data.len() <= usize::MAX,
    ensures
        FrameWriteView::begun(crate::frame::direct_head(data.len()).push(data)).wf(),
{
    crate::bytes::lemma_width(data.len(), 2);
    crate::bytes::lemma_width(data.len(), 8);
}

/// A socket that never takes nothing while something is left leaves no stretch short.
proof fn lemma_never_idle(frame: FrameWriteView, attempts: Seq<WriteAttempt>)
    requires
        frame.wf(),
        frame.allows_all(attempts),
        frame.never_idle(attempts),
    ensures
        frame.gapless(attempts),
        frame.after_all(attempts).1 == FrameStep::Finished ==> frame.after_all(
            attempts,
        ).0.rest().len() == 0,
    decreases attempts.len(),
{
    if attempts.len() > 0 {
        law_frame_in_order(frame, attempts[0]);
        if frame.after(attempts[0]).1 == FrameStep::Again {
            lemma_never_idle(frame.after(attempts[0]).0, attempts.drop_first());
        }
    }
}

/// On a socket that never takes nothing while something is left, a directly written frame of
/// `data` goes out whole unless an attempt fails; then the first that fails ends it, nothing is
/// written after that, and what was written is a beginning of the frame.
pub proof fn law_direct_frame_written(data: Seq<u8>, attempts: Seq<WriteAttempt>)
    requires
        data.len() <= usize::MAX,
        FrameWriteView::begun(crate::frame::direct_head(data.len()).push(data)).allows_all(
            attempts,
        ),
        FrameWriteView::begun(crate::frame::direct_head(data.len()).push(data)).never_idle(
            attempts,
        ),
    ensures
        ({
            let pieces = crate::frame::direct_head(data.len()).push(data);
            let frame = FrameWriteView::begun(pieces);
            let step = frame.after_all(attempts).1;
            let made = frame.made(attempts) as int;
            &&& frame.written(attempts).is_prefix_of(crate::frame::joined(pieces))
            &&& step == FrameStep::Finished ==> frame.written(attempts) == crate::frame::joined(
                pieces,
            )
            &&& made <= attempts.len()
            &&& step == FrameStep::Failed <==> made > 0 && attempts[made - 1]
                == WriteAttempt::Failed
            &&& forall|i: int|
                0 <= i < made - 1 ==> #[trigger] attempts[i] != WriteAttempt::Failed
            &&& frame.written(attempts.take(made)) == frame.written(attempts)
        }),
{
    let frame = FrameWriteView::begun(crate::frame::direct_head(data.len()).push(data));
    lemma_begun(data);
    lemma_never_idle(frame, attempts);
    law_written_is_prefix(data, attempts);
    law_first_failure_ends(frame, attempts);
}

/// What an attempt leads to: bytes that were taken are counted and another attempt follows; nothing
/// taken is the end; no room and an interruption lead to another attempt, and a failure ends it all.
/// A socket can take as many bytes as are left.
pub proof fn law_attempt(write: BlockingWrite, n: usize)
    requires
        write.written <= write.len,
    ensures
        write.allows(WriteAttempt::Took(n)) <==> write.written + n <= write.len,
        write.allows(WriteAttempt::WouldBlock),
        write.allows(WriteAttempt::Interrupted),
        write.allows(WriteAttempt::Failed),
        0 < n && write.written + n <= write.len ==> {
            let (after, step) = write.after(WriteAttempt::Took(n));
            after.written == write.written + n && after.len == write.len && step
                == WriteStep::Again
        },
        write.after(WriteAttempt::Took(0)) == (write, WriteStep::Finished(write.written)),
        write.after(WriteAttempt::WouldBlock) == (write, WriteStep::Again),
        write.after(WriteAttempt::Interrupted) == (write, WriteStep::Again),
        write.after(WriteAttempt::Failed) == (write, WriteStep::Failed),
{
}

/// What an attempt leads to on a frame: bytes that were taken are counted; nothing taken leads to the
/// beginning of the next stretch, or to the end where there is none; the others are as on a stretch
/// alone. The bytes offered are those of the stretch that have not been taken.
pub proof fn law_frame_attempt(frame: FrameWriteView, n: usize)
    requires
        frame.wf(),
    ensures
        frame.rest() == frame.pieces[frame.current].subrange(
            frame.progress.written as int,
            frame.pieces[frame.current].len() as int,
        ),
        0 < n <= frame.rest().len() ==> {
            let (after, step) = frame.after(WriteAttempt::Took(n));
            &&& step == FrameStep::Again
            &&& after.pieces == frame.pieces && after.current == frame.current
            &&& after.progress.written == frame.progress.written + n
            &&& after.rest() == frame.rest().skip(n as int)
        },
        frame.current + 1 < frame.pieces.len() ==> {
            let (after, step) = frame.after(WriteAttempt::Took(0));
            &&& step == FrameStep::Again
            &&& after.pieces == frame.pieces && after.current == frame.current + 1
            &&& after.rest() == frame.pieces[frame.current + 1]
        },
        frame.current + 1 == frame.pieces.len() ==> frame.after(WriteAttempt::Took(0)) == (
            frame,
            FrameStep::Finished,
        ),
        frame.after(WriteAttempt::WouldBlock) == (frame, FrameStep::Again),
        frame.after(WriteAttempt::Interrupted) == (frame, FrameStep::Again),
        frame.after(WriteAttempt::Failed) == (frame, FrameStep::Failed),
{
    let piece = frame.pieces[frame.current];
    let w = frame.progress.written as int;
    assert(frame.rest() =~= piece.subrange(w, piece.len() as int));
    if 0 < n <= frame.rest().len() {
        assert(frame.after(WriteAttempt::Took(n)).0.rest() =~= frame.rest().skip(n as int));
    }
    if frame.current + 1 < frame.pieces.len() {
        let next = frame.pieces[frame.current + 1];
        assert(next.skip(0) =~= next);
    }
}

/// A frame begins with its first stretch, of which nothing has been taken.
pub proof fn law_frame_begins(pieces: Seq<Seq<u8>>)
    requires
        pieces.len() > 0,
        pieces[0].len() <= usize::MAX,
    ensures
        ({
            let frame = FrameWriteView::begun(pieces);
            &&& frame.pieces == pieces
            &&& frame.current == 0
            &&& frame.progress.written == 0
            &&& frame.progress.len == pieces[0].len()
            &&& frame.rest() == pieces[0]
        }),
{
    assert(pieces[0].skip(0) =~= pieces[0]);
}

} // verus!

//! Frames on their way to the terminal: collected in memory, released whole,
//! and written one after the other by a thread of their own.
use vstd::prelude::*;

verus! {

/// What the writer is handed.
#[derive(Debug)]
pub enum Msg {
    /// Bytes for the terminal.
    Bytes(Vec<u8>),
    /// Stop here.
    Stop,
}

/// A frame being collected.
#[derive(Debug)]
pub struct FrameSink {
    pub buf: Vec<u8>,
}

impl FrameSink {
    /// Nothing collected yet.
    pub fn new() -> (r: FrameSink)
        ensures
            r.buf@ == Seq::<u8>::empty(),
    {
        FrameSink { buf: Vec::new() }
    }

    /// Adds bytes to the frame. All of them are taken, and nothing goes out.
    pub fn write(&mut self, data: &Vec<u8>) -> (r: usize)
        ensures
            r == data@.len(),
            final(self).buf@ == old(self).buf@ + data@,
    {
        self.buf.extend_from_slice(data.as_slice());
        data.len()
    }

    /// Releases the frame as one message, an empty one too: whoever counts
    /// frames waits for each of them.
    pub fn flush(&mut self) -> (r: Msg)
        ensures
            r is Bytes,
            r->Bytes_0@ == old(self).buf@,
            final(self).buf@ == Seq::<u8>::empty(),
    {
        let mut frame: Vec<u8> = Vec::new();
        std::mem::swap(&mut frame, &mut self.buf);
        Msg::Bytes(frame)
    }
}

/// What the writer does with a message.
#[derive(Debug)]
pub enum WriterStep {
    /// Write the bytes, and report how that went.
    Write(Vec<u8>),
    /// Report the frame as done without writing it.
    Skip,
    /// Stop.
    End,
}

/// What the writer does with a message. Once the screen is being given back,
/// frames that were not begun are dropped.
pub open spec fn step_for(msg: Msg, abandoned: bool) -> WriterStep {
    match msg {
        Msg::Stop => WriterStep::End,
        Msg::Bytes(frame) => if abandoned {
            WriterStep::Skip
        } else {
            WriterStep::Write(frame)
        },
    }
}

/// What the writer does with a message.
pub fn next_step(msg: Msg, abandoned: bool) -> (r: WriterStep)
    ensures
        r == step_for(msg, abandoned),
{
    match msg {
        Msg::Stop => WriterStep::End,
        Msg::Bytes(frame) => {
            if abandoned {
                WriterStep::Skip
            } else {
                WriterStep::Write(frame)
            }
        },
    }
}

/// One turn of the writer: the message it took, whether frames were being
/// abandoned by then, and whether a write would succeed.
pub struct Turn {
    pub msg: Msg,
    pub abandoned: bool,
    pub succeeds: bool,
}

/// What the writer reports over its turns, a success or a failure for each
/// frame it took.
pub open spec fn reports(turns: Seq<Turn>) -> Seq<bool>
    decreases turns.len(),
{
    if turns.len() == 0 {
        Seq::empty()
    } else {
        let turn = turns[0];
        match step_for(turn.msg, turn.abandoned) {
            WriterStep::End => Seq::empty(),
            WriterStep::Skip => seq![true] + reports(turns.drop_first()),
            WriterStep::Write(_) => if turn.succeeds {
                seq![true] + reports(turns.drop_first())
            } else {
                seq![false]
            },
        }
    }
}

/// Every frame the writer takes is reported once, unless one of them cannot be
/// written: that one is reported as a failure, and nothing after it.
pub proof fn each_frame_is_reported_once(turns: Seq<Turn>)
    requires
        forall|i: int| 0 <= i < turns.len() ==> (#[trigger] turns[i]).msg is Bytes,
    ensures
        (forall|i: int|
            0 <= i < turns.len() ==> (#[trigger] turns[i]).abandoned || turns[i].succeeds)
            ==> reports(turns).len() == turns.len(),
        forall|i: int| 0 <= i < reports(turns).len() - 1 ==> #[trigger] reports(turns)[i],
        reports(turns).len() <= turns.len(),
    decreases turns.len(),
{
    if turns.len() > 0 {
        let rest = turns.drop_first();
        assert forall|i: int| 0 <= i < rest.len() implies (#[trigger] rest[i]).msg is Bytes by {
            assert(rest[i] == turns[i + 1]);
        }
        each_frame_is_reported_once(rest);
        assert(turns[0].msg is Bytes);
        if (forall|i: int|
            0 <= i < turns.len() ==> (#[trigger] turns[i]).abandoned || turns[i].succeeds) {
            assert forall|i: int| 0 <= i < rest.len() implies (#[trigger] rest[i]).abandoned
                || rest[i].succeeds by {
                assert(rest[i] == turns[i + 1]);
            }
        }
        assert forall|i: int| 0 <= i < reports(turns).len() - 1 implies #[trigger] reports(
            turns,
        )[i] by {
            if i > 0 {
                assert(reports(turns)[i] == reports(rest)[i - 1]);
            }
        }
    }
}

/// A stop ends the writer once what was queued ahead of it is done with.
pub proof fn a_stop_is_a_barrier(turns: Seq<Turn>, after: Seq<Turn>)
    requires
        turns.len() > 0,
        turns.last().msg is Stop,
    ensures
        reports(turns + after) == reports(turns),
    decreases turns.len(),
{
    let all = turns + after;
    assert(all[0] == turns[0]);
    if turns.len() > 1 {
        assert(all.drop_first() =~= turns.drop_first() + after);
        assert(turns.drop_first().last() == turns.last());
        a_stop_is_a_barrier(turns.drop_first(), after);
    }
}

/// A frame is written as it was handed over, unless the reader was given up on;
/// only a stop ends the writing.
pub proof fn a_frame_is_written_as_it_is(frame: Vec<u8>, abandoned: bool)
    ensures
        !abandoned ==> step_for(Msg::Bytes(frame), abandoned) == WriterStep::Write(frame),
        abandoned ==> step_for(Msg::Bytes(frame), abandoned) is Skip,
        step_for(Msg::Stop, abandoned) is End,
{
}

/// A write that fails is the last thing reported, as a failure.
pub proof fn a_failed_write_ends_the_reports(turn: Turn, rest: Seq<Turn>)
    requires
        turn.msg is Bytes,
        !turn.abandoned,
    ensures
        !turn.succeeds ==> reports(seq![turn] + rest) == seq![false],
        turn.succeeds ==> reports(seq![turn] + rest) == seq![true] + reports(rest),
{
    let all = seq![turn] + rest;
    assert(all[0] == turn);
    assert(all.drop_first() =~= rest);
}

} // verus!

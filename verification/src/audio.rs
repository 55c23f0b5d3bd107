//! Audio playback settings.
use vstd::prelude::*;

verus! {

/// Sample rate of the voices, in Hz, used when none is given.
pub const SAMPLE_RATE: u32 = 22050;

/// Seconds of audio the playback buffer holds, used when none is given.
pub const BUFFER_DURATION_SECS: u32 = 10;

/// Settings of the audio player.
#[derive(Debug)]
pub struct AudioPlayerConfig {
    sample_rate: u32,
    buffer_duration_secs: u32,
}

impl AudioPlayerConfig {
    /// The sample rate, in Hz.
    pub closed spec fn spec_sample_rate(&self) -> u32 {
        self.sample_rate
    }

    /// The buffer's duration, in seconds.
    pub closed spec fn spec_buffer_duration_secs(&self) -> u32 {
        self.buffer_duration_secs
    }

    /// Settings with the given sample rate and buffer duration, 22050 Hz and
    /// 10 seconds where not given.
    pub fn new(sample_rate: Option<u32>, buffer_duration_secs: Option<u32>) -> (r: AudioPlayerConfig)
        ensures
            r.spec_sample_rate() == match sample_rate {
                Some(s) => s,
                None => SAMPLE_RATE,
            },
            r.spec_buffer_duration_secs() == match buffer_duration_secs {
                Some(d) => d,
                None => BUFFER_DURATION_SECS,
            },
    {
        AudioPlayerConfig {
            sample_rate: match sample_rate {
                Some(s) => s,
                None => SAMPLE_RATE,
            },
            buffer_duration_secs: match buffer_duration_secs {
                Some(d) => d,
                None => BUFFER_DURATION_SECS,
            },
        }
    }

    /// The sample rate, in Hz.
    pub fn sample_rate(&self) -> (r: u32)
        ensures
            r == self.spec_sample_rate(),
    {
        self.sample_rate
    }

    /// The buffer's duration, in seconds.
    pub fn buffer_duration_secs(&self) -> (r: u32)
        ensures
            r == self.spec_buffer_duration_secs(),
    {
        self.buffer_duration_secs
    }

    /// Number of samples the playback buffer holds: duration times sample
    /// rate. The product is computed in `u32`, so it must fit there.
    pub fn ring_buffer_capacity(&self) -> (r: usize)
        requires
            self.spec_buffer_duration_secs() * self.spec_sample_rate() <= u32::MAX,
        ensures
            r == self.spec_buffer_duration_secs() * self.spec_sample_rate(),
    {
        (self.buffer_duration_secs * self.sample_rate) as usize
    }
}

/// What the audio device is told to do.
#[derive(PartialEq, Eq, Structural, Clone, Copy, Debug)]
pub enum AudioPlayerCommand {
    Play,
    Pause,
}

impl AudioPlayerCommand {
    /// The command's code, as kept in the shared atomic: 1, 2.
    pub open spec fn spec_code(self) -> u8 {
        match self {
            AudioPlayerCommand::Play => 1,
            AudioPlayerCommand::Pause => 2,
        }
    }

    /// The command's code, as kept in the shared atomic.
    pub fn code(&self) -> (c: u8)
        ensures
            c == self.spec_code(),
    {
        match self {
            AudioPlayerCommand::Play => 1,
            AudioPlayerCommand::Pause => 2,
        }
    }
}

/// An entry of the playback queue: a sample, or the marker that a speech
/// task's audio ends here, with the port to notify.
#[derive(Clone, Copy, Debug)]
pub enum AudioSlot<S> {
    Sample(S),
    Complete(i64),
}

/// What the device callback does for one output frame.
#[derive(PartialEq, Eq, Structural, Clone, Copy, Debug)]
pub enum FrameAction {
    /// Take the next queue entry and play the held sample.
    Play,
    /// Play silence.
    Silence,
    /// Empty the queue (reporting the completions in it), then play silence.
    DrainThenSilence,
}

/// The frame action for a command code and drain request: anything but
/// `Play` plays silence, after emptying the queue if a drain is requested.
pub open spec fn spec_frame_action(command_code: u8, drain: bool) -> FrameAction {
    if command_code != 1 {
        if drain {
            FrameAction::DrainThenSilence
        } else {
            FrameAction::Silence
        }
    } else {
        FrameAction::Play
    }
}

/// What to do for one output frame, given the command code and whether a
/// drain is requested.
pub fn frame_action(command_code: u8, drain: bool) -> (a: FrameAction)
    ensures
        a == spec_frame_action(command_code, drain),
{
    if command_code != AudioPlayerCommand::Play.code() {
        if drain {
            FrameAction::DrainThenSilence
        } else {
            FrameAction::Silence
        }
    } else {
        FrameAction::Play
    }
}

/// The ports of the completion markers among `slots`, in order.
pub open spec fn completion_ports<S>(slots: Seq<AudioSlot<S>>) -> Seq<i64>
    decreases slots.len(),
{
    if slots.len() == 0 {
        seq![]
    } else {
        match slots.last() {
            AudioSlot::Complete(p) => completion_ports(slots.drop_last()).push(p),
            AudioSlot::Sample(_) => completion_ports(slots.drop_last()),
        }
    }
}

/// The entries of blocks taken out of the queue one after the other, in order.
pub open spec fn joined<S>(blocks: Seq<Seq<AudioSlot<S>>>) -> Seq<AudioSlot<S>>
    decreases blocks.len(),
{
    if blocks.len() == 0 {
        seq![]
    } else {
        joined(blocks.drop_last()) + blocks.last()
    }
}

/// The ports handed back for blocks taken out of the queue one after the
/// other: each block is one entry popped for a played frame, or the entries
/// emptied by a drain.
pub open spec fn ports_of_blocks<S>(blocks: Seq<Seq<AudioSlot<S>>>) -> Seq<i64>
    decreases blocks.len(),
{
    if blocks.len() == 0 {
        seq![]
    } else {
        ports_of_blocks(blocks.drop_last()) + completion_ports(blocks.last())
    }
}

/// The ports of two runs of entries are those of the first, then those of
/// the second.
proof fn lemma_completion_ports_append<S>(a: Seq<AudioSlot<S>>, b: Seq<AudioSlot<S>>)
    ensures
        completion_ports(a + b) == completion_ports(a) + completion_ports(b),
    decreases b.len(),
{
    if b.len() == 0 {
        assert(a + b =~= a);
        assert(completion_ports(a) + completion_ports(b) =~= completion_ports(a));
    } else {
        lemma_completion_ports_append(a, b.drop_last());
        assert((a + b).drop_last() =~= a + b.drop_last());
        assert((a + b).last() == b.last());
        match b.last() {
            AudioSlot::Complete(p) => {
                assert(completion_ports(a) + completion_ports(b) =~= (completion_ports(a)
                    + completion_ports(b.drop_last())).push(p));
            },
            AudioSlot::Sample(_) => {},
        }
    }
}

/// However the queue is emptied, entry by entry as frames play or in blocks
/// when a drain is requested, the ports handed back to be reported are the
/// ports of the completion markers that were queued, each once and in the
/// order they were queued.
pub proof fn law_completions_reported_once_in_order<S>(blocks: Seq<Seq<AudioSlot<S>>>)
    ensures
        ports_of_blocks(blocks) == completion_ports(joined(blocks)),
    decreases blocks.len(),
{
    if blocks.len() > 0 {
        law_completions_reported_once_in_order(blocks.drop_last());
        lemma_completion_ports_append(joined(blocks.drop_last()), blocks.last());
    }
}

/// The playback position: the sample being held on the output.
pub struct Playback<S> {
    held: S,
    silence: S,
}

impl<S: Copy> Playback<S> {
    /// The sample held on the output.
    pub closed spec fn spec_held(&self) -> S {
        self.held
    }

    /// The value of silence.
    pub closed spec fn spec_silence(&self) -> S {
        self.silence
    }

    /// Playback holding silence.
    pub fn new(silence: S) -> (r: Playback<S>)
        ensures
            r.spec_held() == silence,
            r.spec_silence() == silence,
    {
        Playback { held: silence, silence }
    }

    /// One played frame, given the entry taken from the queue (if any): a
    /// sample becomes the held sample, a completion marker is handed back to
    /// be reported; the frame plays the held sample.
    pub fn play_frame(&mut self, popped: Option<AudioSlot<S>>) -> (r: (S, Option<i64>))
        ensures
            final(self).spec_silence() == old(self).spec_silence(),
            final(self).spec_held() == match popped {
                Some(AudioSlot::Sample(s)) => s,
                _ => old(self).spec_held(),
            },
            r.0 == final(self).spec_held(),
            r.1 == match popped {
                Some(AudioSlot::Complete(p)) => Some(p),
                _ => None,
            },
            popped matches Some(slot) ==> completion_ports(seq![slot]) == match r.1 {
                Some(p) => seq![p],
                None => Seq::<i64>::empty(),
            },
    {
        proof {
            if let Some(slot) = popped {
                reveal_with_fuel(completion_ports, 2);
                assert(seq![slot].drop_last() =~= Seq::<AudioSlot<S>>::empty());
                assert(completion_ports(Seq::<AudioSlot<S>>::empty()) =~= Seq::<i64>::empty());
                match slot {
                    AudioSlot::Complete(p) => {
                        assert(completion_ports(seq![slot]) =~= seq![p]);
                    },
                    AudioSlot::Sample(_) => {
                        assert(completion_ports(seq![slot]) =~= Seq::<i64>::empty());
                    },
                }
            }
        }
        match popped {
            Some(AudioSlot::Sample(s)) => {
                self.held = s;
                (self.held, None)
            },
            Some(AudioSlot::Complete(p)) => (self.held, Some(p)),
            None => (self.held, None),
        }
    }

    /// Empties the queue: the entries taken out are dropped but for their
    /// completion markers, whose ports are handed back in order; the output
    /// falls back to silence.
    pub fn drain(&mut self, drained: &Vec<AudioSlot<S>>) -> (ports: Vec<i64>)
        ensures
            final(self).spec_silence() == old(self).spec_silence(),
            final(self).spec_held() == old(self).spec_silence(),
            ports@ == completion_ports(drained@),
    {
        let mut ports: Vec<i64> = Vec::new();
        let mut i: usize = 0;
        while i < drained.len()
            invariant
                i <= drained@.len(),
                ports@ == completion_ports(drained@.take(i as int)),
            decreases drained.len() - i,
        {
            assert(drained@.take(i + 1).drop_last() =~= drained@.take(i as int));
            match drained[i] {
                AudioSlot::Complete(p) => ports.push(p),
                AudioSlot::Sample(_) => {},
            }
            i = i + 1;
        }
        assert(drained@.take(drained@.len() as int) =~= drained@);
        self.held = self.silence;
        ports
    }
}

/// Whether a completion is to be reported: port -1 marks a task nobody
/// waits for.
pub fn reports_completion(port: i64) -> (r: bool)
    ensures
        r == (port != -1),
{
    port != -1
}

} // verus!

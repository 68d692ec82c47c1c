//! The playback state machine: frames to absolute controller states.
//!
//! Playback keeps per-channel persistent state: the held-button mask, the
//! two stick displacements, and the two trigger levels, all neutral before
//! the first frame. Each frame updates that state ([`step_spec`]) and the
//! resulting absolute state is what a controller sink should be given;
//! values a frame does not mention persist unchanged (the sticky default).
//!
//! The held-button update: the frame's `off` mask wins over both the
//! frame's own `on` request and previously held bits — except on a `RAW`
//! frame, which sets `off` to `ALL` and is an absolute override: afterwards
//! exactly the asserted buttons (minus the two trigger flag bits) are held,
//! whatever was held before ([`lemma_raw_override`]).
//!
//! Bits 10 and 11 of the 16-bit mask double as the left and right trigger
//! flags: a frame whose `on` mask sets one drives that trigger fully on, a
//! frame whose `off` mask sets one drives it fully off (`off` winning when
//! both are set), and a frame that mentions neither leaves the level as it
//! was. This dual use of the two bit positions is part of the script
//! semantics, not an accident.

use vstd::prelude::*;

use crate::keys::TRIGGER_BITS;
use crate::parse::Line;

verus! {

/// The persistent playback state: held buttons, the two stick
/// displacements, and the two trigger levels.
#[derive(Clone, Copy, PartialEq, Eq, Structural, Debug)]
pub struct PlayState {
    pub held: u16,
    pub lx: i16,
    pub ly: i16,
    pub rx: i16,
    pub ry: i16,
    pub lt: u8,
    pub rt: u8,
}

/// The neutral state before the first frame.
pub open spec fn state_new() -> PlayState {
    PlayState { held: 0, lx: 0, ly: 0, rx: 0, ry: 0, lt: 0, rt: 0 }
}

/// Buttons held after a frame. An `off` mask of `ALL` marks a `RAW` frame:
/// an absolute override that holds exactly the frame's own asserted buttons.
/// On any other frame `off` wins over both the new `on` request and the
/// previously held bits; the two trigger flag bits never join the held set.
pub open spec fn step_held(held: u16, on: u16, off: u16) -> u16 {
    if off == crate::keys::ALL {
        on & !TRIGGER_BITS
    } else {
        ((on & !TRIGGER_BITS) & !off) | (held & !off)
    }
}

/// A trigger level after a frame: driven fully off if the frame's `off`
/// mask names it, else fully on if the frame's `on` mask names it, else
/// unchanged.
pub open spec fn step_trigger(level: u8, on_bit: bool, off_bit: bool) -> u8 {
    if off_bit {
        0
    } else if on_bit {
        255
    } else {
        level
    }
}

/// Whether a mask sets the left trigger flag (bit 10).
pub open spec fn left_trigger_bit(m: u16) -> bool {
    m & 0x0400 != 0
}

/// Whether a mask sets the right trigger flag (bit 11).
pub open spec fn right_trigger_bit(m: u16) -> bool {
    m & 0x0800 != 0
}

/// The state after playing one frame from state `st`.
pub open spec fn step_spec(st: PlayState, l: Line) -> PlayState {
    PlayState {
        held: step_held(st.held, l.on, l.off),
        lx: match l.lstick {
            Some(s) => s.x,
            None => st.lx,
        },
        ly: match l.lstick {
            Some(s) => s.y,
            None => st.ly,
        },
        rx: match l.rstick {
            Some(s) => s.x,
            None => st.rx,
        },
        ry: match l.rstick {
            Some(s) => s.y,
            None => st.ry,
        },
        lt: step_trigger(st.lt, left_trigger_bit(l.on), left_trigger_bit(l.off)),
        rt: step_trigger(st.rt, right_trigger_bit(l.on), right_trigger_bit(l.off)),
    }
}

/// The states emitted by playing `ls[i..]` from state `st`, one per frame.
pub open spec fn play_from(st: PlayState, ls: Seq<Line>, i: int) -> Seq<PlayState>
    decreases ls.len() - i,
    when 0 <= i <= ls.len()
{
    if i >= ls.len() {
        Seq::empty()
    } else {
        let st2 = step_spec(st, ls[i]);
        seq![st2] + play_from(st2, ls, i + 1)
    }
}

/// The states emitted by playing a whole script from the neutral state.
pub open spec fn play_seq(ls: Seq<Line>) -> Seq<PlayState> {
    play_from(state_new(), ls, 0)
}

impl PlayState {
    /// The neutral state.
    pub fn new() -> (r: PlayState)
        ensures
            r == state_new(),
    {
        PlayState { held: 0, lx: 0, ly: 0, rx: 0, ry: 0, lt: 0, rt: 0 }
    }

    /// Advance the state by one frame. The caller waits out the frame's
    /// delay before calling, and hands the updated state to the sink after.
    pub fn step(&mut self, l: &Line)
        ensures
            *final(self) == step_spec(*old(self), *l),
    {
        if l.off == crate::keys::ALL {
            self.held = l.on & !TRIGGER_BITS;
        } else {
            self.held = ((l.on & !TRIGGER_BITS) & !l.off) | (self.held & !l.off);
        }
        if let Some(s) = l.lstick {
            self.lx = s.x;
            self.ly = s.y;
        }
        if let Some(s) = l.rstick {
            self.rx = s.x;
            self.ry = s.y;
        }
        if l.off & 0x0400 != 0 {
            self.lt = 0;
        } else if l.on & 0x0400 != 0 {
            self.lt = 255;
        }
        if l.off & 0x0800 != 0 {
            self.rt = 0;
        } else if l.on & 0x0800 != 0 {
            self.rt = 255;
        }
    }
}

/// The absolute state for every frame of a script, in order, starting from
/// the neutral state: what a sink is given, frame by frame.
pub fn playback(lines: &Vec<Line>) -> (r: Vec<PlayState>)
    ensures
        r@ == play_seq(lines@),
{
    let ghost ls = lines@;
    let mut out: Vec<PlayState> = Vec::new();
    let mut st = PlayState::new();
    let mut i: usize = 0;
    while i < lines.len()
        invariant
            ls == lines@,
            i <= ls.len(),
            play_seq(ls) == out@ + play_from(st, ls, i as int),
        decreases ls.len() - i,
    {
        st.step(&lines[i]);
        proof {
            assert(out@ + (seq![st] + play_from(st, ls, i + 1)) =~= out@.push(st) + play_from(
                st,
                ls,
                i + 1,
            ));
        }
        out.push(st);
        i = i + 1;
    }
    proof {
        assert(out@ + Seq::<PlayState>::empty() =~= out@);
    }
    out
}

/// RAW is an absolute override: after a frame whose `off` mask is `ALL`,
/// exactly the frame's own asserted buttons (minus the trigger flag bits)
/// are held, whatever was held before.
pub proof fn lemma_raw_override(st: PlayState, l: Line)
    requires
        l.off == crate::keys::ALL,
    ensures
        step_spec(st, l).held == l.on & !TRIGGER_BITS,
{
}

proof fn lemma_play_from_len(st: PlayState, ls: Seq<Line>, i: int)
    requires
        0 <= i <= ls.len(),
    ensures
        play_from(st, ls, i).len() == ls.len() - i,
    decreases ls.len() - i,
{
    if i < ls.len() {
        lemma_play_from_len(step_spec(st, ls[i]), ls, i + 1);
    }
}

proof fn lemma_play_from_raw(st: PlayState, ls: Seq<Line>, i: int, j: int)
    requires
        0 <= i <= j < ls.len(),
        ls[j].off == crate::keys::ALL,
    ensures
        play_from(st, ls, i).len() == ls.len() - i,
        play_from(st, ls, i)[j - i].held == ls[j].on & !TRIGGER_BITS,
    decreases j - i,
{
    lemma_play_from_len(st, ls, i);
    let st2 = step_spec(st, ls[i]);
    lemma_play_from_len(st2, ls, i + 1);
    if i == j {
        lemma_raw_override(st, ls[j]);
        assert((seq![st2] + play_from(st2, ls, i + 1))[0] == st2);
    } else {
        lemma_play_from_raw(st2, ls, i + 1, j);
        assert((seq![st2] + play_from(st2, ls, i + 1))[j - i] == play_from(st2, ls, i + 1)[j - i
            - 1]);
    }
}

/// RAW is an absolute override over a whole playback run: whatever states
/// the frames before it produced, the state emitted for a frame whose `off`
/// mask is `ALL` holds exactly that frame's own asserted buttons (minus the
/// trigger flag bits).
pub proof fn lemma_play_seq_raw(ls: Seq<Line>, j: int)
    requires
        0 <= j < ls.len(),
        ls[j].off == crate::keys::ALL,
    ensures
        play_seq(ls).len() == ls.len(),
        play_seq(ls)[j].held == ls[j].on & !TRIGGER_BITS,
{
    lemma_play_from_raw(state_new(), ls, 0, j);
}

/// Two RAW frames in sequence: the held set after each one is exactly that
/// frame's own key list (minus the trigger flag bits) — never the union of
/// the two, however `ON`/`OFF` history had left the state before.
pub proof fn lemma_raw_sequence(st: PlayState, l1: Line, l2: Line)
    requires
        l1.off == crate::keys::ALL,
        l2.off == crate::keys::ALL,
    ensures
        step_spec(st, l1).held == l1.on & !TRIGGER_BITS,
        step_spec(step_spec(st, l1), l2).held == l2.on & !TRIGGER_BITS,
{
    lemma_raw_override(st, l1);
    lemma_raw_override(step_spec(st, l1), l2);
}

} // verus!

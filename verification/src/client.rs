//! Per-client input state.

use vstd::prelude::*;

use crate::data::InputData;

verus! {

/// The number of input directions: none, then eight compass directions.
pub const INPUT_DIRECTIONS: u8 = 9;

/// What the server tracks of a connected client: the entity it controls,
/// its latest input and the sequence number of that input.
#[derive(Debug, Clone, Copy, PartialEq, Eq, Structural)]
pub struct ClientState {
    pub id: u32,
    pub input: u8,
    pub input_sequence: u8,
}

/// Whether an input numbered `incoming` replaces one numbered `current`:
/// when it is not older, or when the 8-bit counter has wrapped around (a
/// small new number after a large old one).
pub open spec fn accepts_sequence(current: u8, incoming: u8) -> bool {
    incoming >= current || (incoming < 63 && current > 127)
}

/// The client after receiving `d`: an accepted input is stored, reduced to
/// one of the nine directions, with its sequence number; a stale one is
/// ignored.
pub open spec fn spec_feed_input(c: ClientState, d: InputData) -> ClientState {
    if accepts_sequence(c.input_sequence, d.input_sequence) {
        ClientState { id: c.id, input: d.input % INPUT_DIRECTIONS, input_sequence: d.input_sequence }
    } else {
        c
    }
}

impl ClientState {
    /// A client controlling entity `id`, with no input yet.
    pub fn new(id: u32) -> (c: Self)
        ensures
            c == (ClientState { id, input: 0, input_sequence: 0 }),
    {
        ClientState { id, input: 0, input_sequence: 0 }
    }

    /// Takes in an input message.
    pub fn feed_input(&mut self, data: &InputData)
        ensures
            *final(self) == spec_feed_input(*old(self), *data),
    {
        let greater_or_equal = data.input_sequence >= self.input_sequence;
        let wraps = data.input_sequence < 63 && self.input_sequence > 127;
        if greater_or_equal || wraps {
            self.input = data.input % INPUT_DIRECTIONS;
            self.input_sequence = data.input_sequence;
        }
    }
}

/// Whatever inputs arrive, a client's stored input stays one of the nine
/// directions, and its entity does not change.
pub proof fn lemma_input_stays_a_direction(c: ClientState, d: InputData)
    requires
        c.input < INPUT_DIRECTIONS,
    ensures
        spec_feed_input(c, d).input < INPUT_DIRECTIONS,
        spec_feed_input(c, d).id == c.id,
{
}

/// An input that is not older than the stored one is always taken, and
/// feeding the same input twice has the effect of feeding it once.
pub proof fn lemma_feed_input_idempotent(c: ClientState, d: InputData)
    ensures
        d.input_sequence >= c.input_sequence ==> spec_feed_input(c, d).input_sequence
            == d.input_sequence,
        spec_feed_input(spec_feed_input(c, d), d) == spec_feed_input(c, d),
{
}

/// The step an input direction moves an entity by, one unit or nothing
/// along each axis: direction 1 is up, and each next direction turns an
/// eighth of a circle clockwise, up to 8 (up and left). Direction 0, and any
/// value above 8, does not move.
pub open spec fn spec_direction_step(dir: u8) -> (int, int) {
    if dir == 1 {
        (0, 1)
    } else if dir == 2 {
        (1, 1)
    } else if dir == 3 {
        (1, 0)
    } else if dir == 4 {
        (1, -1)
    } else if dir == 5 {
        (0, -1)
    } else if dir == 6 {
        (-1, -1)
    } else if dir == 7 {
        (-1, 0)
    } else if dir == 8 {
        (-1, 1)
    } else {
        (0, 0)
    }
}

/// The step input direction `dir` moves an entity by along x and y; a
/// diagonal step is scaled down by the caller to the length of a straight
/// one.
pub fn direction_step(dir: u8) -> (s: (i8, i8))
    ensures
        (s.0 as int, s.1 as int) == spec_direction_step(dir),
{
    match dir {
        1 => (0, 1),
        2 => (1, 1),
        3 => (1, 0),
        4 => (1, -1),
        5 => (0, -1),
        6 => (-1, -1),
        7 => (-1, 0),
        8 => (-1, 1),
        _ => (0, 0),
    }
}

/// Directions four apart point opposite ways; the eight directions that
/// move all differ, and only they move.
pub proof fn lemma_direction_steps(d: u8, e: u8)
    ensures
        1 <= d <= 4 ==> spec_direction_step((d + 4) as u8).0 == -spec_direction_step(d).0
            && spec_direction_step((d + 4) as u8).1 == -spec_direction_step(d).1,
        spec_direction_step(d) != (0int, 0int) <==> 1 <= d <= 8,
        1 <= d <= 8 && 1 <= e <= 8 && d != e ==> spec_direction_step(d) != spec_direction_step(e),
{
}

/// How a client takes an input: one whose sequence number is not below the
/// stored one, or that wrapped around (below 63 after one above 127), is
/// stored, reduced to one of the nine directions, with its number; any other
/// (a stale, reordered input) leaves the client exactly as it was. The
/// client's entity never changes.
pub proof fn lemma_feed_input_rules(c: ClientState, d: InputData)
    ensures
        d.input_sequence >= c.input_sequence || (d.input_sequence < 63 && c.input_sequence > 127)
            ==> spec_feed_input(c, d) == (ClientState {
            id: c.id,
            input: d.input % 9,
            input_sequence: d.input_sequence,
        }),
        !(d.input_sequence >= c.input_sequence) && !(d.input_sequence < 63 && c.input_sequence
            > 127) ==> spec_feed_input(c, d) == c,
        spec_feed_input(c, d).id == c.id,
{
}

} // verus!

//! The piece sequence: a xorshift64 generator mapped onto the seven pieces.
use vstd::prelude::*;

use crate::shape::ShapeType;

verus! {

/// One xorshift64 step; a zero state is first replaced by one.
pub open spec fn next_state(state: u64) -> u64 {
    let x0: u64 = if state == 0 { 1 } else { state };
    let x1: u64 = x0 ^ (x0 << 13u64);
    let x2: u64 = x1 ^ (x1 >> 7u64);
    x2 ^ (x2 << 17u64)
}

/// The piece that a generator state stands for.
pub open spec fn shape_of_state(state: u64) -> ShapeType {
    let r = state % 7;
    if r == 0 {
        ShapeType::I
    } else if r == 1 {
        ShapeType::T
    } else if r == 2 {
        ShapeType::Z
    } else if r == 3 {
        ShapeType::S
    } else if r == 4 {
        ShapeType::J
    } else if r == 5 {
        ShapeType::L
    } else {
        ShapeType::O
    }
}

/// Advances the generator and returns the piece of the new state.
pub fn get_random_shape_type(state: &mut u64) -> (shape_type: ShapeType)
    ensures
        *final(state) == next_state(*old(state)),
        shape_type == shape_of_state(*final(state)),
{
    let new_seed = make_new_state(*state);
    *state = new_seed;
    convert_state_to_shape_type(new_seed)
}

fn convert_state_to_shape_type(state: u64) -> (shape_type: ShapeType)
    ensures
        shape_type == shape_of_state(state),
{
    match state % 7 {
        0 => ShapeType::I,
        1 => ShapeType::T,
        2 => ShapeType::Z,
        3 => ShapeType::S,
        4 => ShapeType::J,
        5 => ShapeType::L,
        _ => ShapeType::O,
    }
}

/// One step of the generator.
pub fn make_new_state(state: u64) -> (next: u64)
    ensures
        next == next_state(state),
        next != 0,
{
    let mut x = state;
    if x == 0 {
        x += 1
    }
    x ^= x << 13;
    x ^= x >> 7;
    x ^= x << 17;
    proof {
        lemma_next_state_nonzero(state);
    }
    x
}

/// The generator never reaches the zero state, whatever it starts from.
pub proof fn lemma_next_state_nonzero(state: u64)
    ensures
        next_state(state) != 0,
{
    let x0: u64 = if state == 0 { 1 } else { state };
    let x1: u64 = x0 ^ (x0 << 13u64);
    let x2: u64 = x1 ^ (x1 >> 7u64);
    let x3: u64 = x2 ^ (x2 << 17u64);
    assert(x0 != 0 ==> x0 ^ (x0 << 13u64) != 0) by (bit_vector);
    assert(x1 != 0 ==> x1 ^ (x1 >> 7u64) != 0) by (bit_vector);
    assert(x2 != 0 ==> x2 ^ (x2 << 17u64) != 0) by (bit_vector);
}

} // verus!

//! Indices of circular buffers.
use vstd::arithmetic::div_mod::{lemma_fundamental_div_mod, lemma_fundamental_div_mod_converse};
use vstd::prelude::*;

verus! {

/// The index after `index`; the first one after the last one.
pub open spec fn next_index(size: int, index: int) -> int {
    if index + 1 < size {
        index + 1
    } else {
        0
    }
}

/// The index before `index`; the last one before the first one.
pub open spec fn previous_index(size: int, index: int) -> int {
    if index > 0 {
        index - 1
    } else {
        size - 1
    }
}

/// The index that lies `offset` further round the buffer.
pub open spec fn shifted_index(size: int, index: int, offset: int) -> int {
    (index + offset) % size
}

/// The next and the previous index undo each other, and are a step of one round the
/// buffer.
pub proof fn law_steps_undo_each_other(size: int, index: int)
    requires
        0 <= index < size,
    ensures
        0 <= next_index(size, index) < size,
        0 <= previous_index(size, index) < size,
        previous_index(size, next_index(size, index)) == index,
        next_index(size, previous_index(size, index)) == index,
        next_index(size, index) == shifted_index(size, index, 1),
        previous_index(size, index) == shifted_index(size, index, -1),
{
    lemma_shifted(size, index, 1);
    lemma_shifted(size, index, -1);
}

/// Shifting back undoes a shift, and shifting by the size changes nothing.
pub proof fn law_shifts_undo_each_other(size: int, index: int, offset: int)
    requires
        0 <= index < size,
        -size <= offset <= size,
    ensures
        0 <= shifted_index(size, index, offset) < size,
        shifted_index(size, shifted_index(size, index, offset), -offset) == index,
        shifted_index(size, index, size) == index,
        shifted_index(size, index, 0) == index,
{
    lemma_shifted(size, index, offset);
    lemma_shifted(size, shifted_index(size, index, offset), -offset);
    lemma_shifted(size, index, size);
    lemma_shifted(size, index, 0);
}

/// A shift by at most the size wraps around at most once.
proof fn lemma_shifted(size: int, index: int, offset: int)
    requires
        0 <= index < size,
        -size <= offset <= size,
    ensures
        shifted_index(size, index, offset) == (if index + offset < 0 {
            index + offset + size
        } else if index + offset < size {
            index + offset
        } else {
            index + offset - size
        }),
{
    let sum = index + offset;
    if sum < 0 {
        lemma_fundamental_div_mod_converse(sum, size, -1, sum + size);
    } else if sum < size {
        lemma_fundamental_div_mod_converse(sum, size, 0, sum);
    } else {
        lemma_fundamental_div_mod_converse(sum, size, 1, sum - size);
    }
}

pub fn inc(size: usize, index: usize) -> (result: usize)
    requires
        index < usize::MAX,
    ensures
        result == next_index(size as int, index as int),
{
    if index + 1 < size {
        index + 1
    } else {
        0
    }
}

pub fn dec(size: usize, index: usize) -> (result: usize)
    requires
        size > 0,
    ensures
        result == previous_index(size as int, index as int),
{
    if index > 0 {
        index - 1
    } else {
        size - 1
    }
}

pub fn offset_by(size: usize, index: usize, offset: isize) -> (result: usize)
    requires
        size > 0,
        -size <= offset <= size,
    ensures
        result == shifted_index(size as int, index as int, offset as int),
        result < size,
{
    let within: usize = index % size;
    let result: usize = if offset >= 0 {
        let forward: usize = offset as usize;
        if forward < size - within {
            within + forward
        } else {
            forward - (size - within)
        }
    } else {
        let back: usize = (-(offset + 1)) as usize + 1;
        if back <= within {
            within - back
        } else {
            size - (back - within)
        }
    };
    proof {
        let q = index as int / size as int;
        let sum = within + offset;
        lemma_fundamental_div_mod(index as int, size as int);
        lemma_shifted(size as int, within as int, offset as int);
        let r = shifted_index(size as int, within as int, offset as int);
        assert(result == r);
        let turns = if sum < 0 {
            q - 1
        } else if sum < size {
            q
        } else {
            q + 1
        };
        assert(index + offset == turns * size + r) by (nonlinear_arith)
            requires
                index == size * q + within,
                sum == within + offset,
                turns == (if sum < 0 {
                    q - 1
                } else if sum < size {
                    q
                } else {
                    q + 1
                }),
                r == (if sum < 0 {
                    sum + size
                } else if sum < size {
                    sum
                } else {
                    sum - size
                }),
        ;
        lemma_fundamental_div_mod_converse(index + offset, size as int, turns, r);
    }
    result
}

} // verus!

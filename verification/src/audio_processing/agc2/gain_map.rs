//! Gains of the input volumes.
use vstd::prelude::*;

verus! {

pub const MAX_INPUT_VOLUME: i32 = 255;

/// The gain in dB at each input volume.
pub const GAIN_MAP: [i16; 256] = [
    -56, -54, -52, -50, -48, -47, -45, -43, -42, -40, -38, -37, -35, -34, -33, -31, -30, -29,
    -27, -26, -25, -24, -23, -22, -20, -19, -18, -17, -16, -15, -14, -14, -13, -12, -11, -10,
    -9, -8, -8, -7, -6, -5, -5, -4, -3, -2, -2, -1, 0, 0, 1, 1, 2, 3, 3, 4, 4, 5, 5, 6, 6, 7, 7,
    8, 8, 9, 9, 10, 10, 11, 11, 12, 12, 13, 13, 13, 14, 14, 15, 15, 15, 16, 16, 17, 17, 17, 18,
    18, 18, 19, 19, 19, 20, 20, 21, 21, 21, 22, 22, 22, 23, 23, 23, 24, 24, 24, 24, 25, 25, 25,
    26, 26, 26, 27, 27, 27, 28, 28, 28, 28, 29, 29, 29, 30, 30, 30, 30, 31, 31, 31, 32, 32, 32,
    32, 33, 33, 33, 33, 34, 34, 34, 35, 35, 35, 35, 36, 36, 36, 36, 37, 37, 37, 38, 38, 38, 38,
    39, 39, 39, 39, 40, 40, 40, 40, 41, 41, 41, 41, 42, 42, 42, 42, 43, 43, 43, 44, 44, 44, 44,
    45, 45, 45, 45, 46, 46, 46, 46, 47, 47, 47, 47, 48, 48, 48, 48, 49, 49, 49, 49, 50, 50, 50,
    50, 51, 51, 51, 51, 52, 52, 52, 52, 53, 53, 53, 53, 54, 54, 54, 54, 55, 55, 55, 55, 56, 56,
    56, 56, 57, 57, 57, 57, 58, 58, 58, 58, 59, 59, 59, 59, 60, 60, 60, 60, 61, 61, 61, 61, 62,
    62, 62, 62, 63, 63, 63, 63, 64,
];

/// How much more gain a volume gives than another one.
pub open spec fn gain_difference(volume: int, input_volume: int) -> int {
    GAIN_MAP@[volume] - GAIN_MAP@[input_volume]
}

/// Whether `new_volume` is the volume nearest to `input_volume` at which the gain
/// has changed by `gain_error_db`, or else the limit in that direction. A volume
/// beyond the limit stays where it is.
pub open spec fn is_volume_update(
    gain_error_db: int,
    input_volume: int,
    min_input_volume: int,
    max_input_volume: int,
    new_volume: int,
) -> bool {
    if gain_error_db == 0 {
        new_volume == input_volume
    } else if gain_error_db > 0 {
        &&& input_volume <= new_volume <= max_input_volume
        &&& forall|v: int|
            input_volume <= v < new_volume ==> #[trigger] gain_difference(v, input_volume)
                < gain_error_db
        &&& new_volume == max_input_volume || gain_difference(new_volume, input_volume)
            >= gain_error_db
    } else {
        &&& new_volume <= input_volume
        &&& new_volume == input_volume || new_volume >= min_input_volume
        &&& forall|v: int|
            new_volume < v <= input_volume ==> #[trigger] gain_difference(v, input_volume)
                > gain_error_db
        &&& new_volume <= min_input_volume || gain_difference(new_volume, input_volume)
            <= gain_error_db
    }
}

/// There is only one such volume.
pub proof fn law_volume_update_is_unique(
    gain_error_db: int,
    input_volume: int,
    min_input_volume: int,
    max_input_volume: int,
    a: int,
    b: int,
)
    requires
        is_volume_update(gain_error_db, input_volume, min_input_volume, max_input_volume, a),
        is_volume_update(gain_error_db, input_volume, min_input_volume, max_input_volume, b),
    ensures
        a == b,
{
    if gain_error_db > 0 {
        if a < b {
            assert(gain_difference(a, input_volume) < gain_error_db);
        } else if b < a {
            assert(gain_difference(b, input_volume) < gain_error_db);
        }
    } else if gain_error_db < 0 {
        if a < b {
            assert(gain_difference(b, input_volume) > gain_error_db);
        } else if b < a {
            assert(gain_difference(a, input_volume) > gain_error_db);
        }
    }
}

/// The volume nearest to `input_volume` at which the gain has changed by
/// `gain_error_db`, within the limits.
pub open spec fn volume_update(
    gain_error_db: int,
    input_volume: int,
    min_input_volume: int,
    max_input_volume: int,
) -> int {
    choose|new_volume: int|
        is_volume_update(
            gain_error_db,
            input_volume,
            min_input_volume,
            max_input_volume,
            new_volume,
        )
}

/// A volume that asks for more gain is not lowered, one that asks for less is not
/// raised.
pub proof fn law_volume_moves_with_error(
    gain_error_db: int,
    input_volume: int,
    min_input_volume: int,
    max_input_volume: int,
    new_volume: int,
)
    requires
        is_volume_update(
            gain_error_db,
            input_volume,
            min_input_volume,
            max_input_volume,
            new_volume,
        ),
    ensures
        gain_error_db >= 0 ==> new_volume >= input_volume,
        gain_error_db <= 0 ==> new_volume <= input_volume,
{
}

proof fn lemma_volume_above(gain_error_db: int, input_volume: int, max_input_volume: int, from: int)
    requires
        gain_error_db > 0,
        input_volume <= from <= max_input_volume,
        forall|v: int|
            input_volume <= v < from ==> #[trigger] gain_difference(v, input_volume)
                < gain_error_db,
    ensures
        exists|new_volume: int|
            is_volume_update(gain_error_db, input_volume, 0, max_input_volume, new_volume),
    decreases max_input_volume - from,
{
    if from == max_input_volume || gain_difference(from, input_volume) >= gain_error_db {
        assert(is_volume_update(gain_error_db, input_volume, 0, max_input_volume, from));
    } else {
        lemma_volume_above(gain_error_db, input_volume, max_input_volume, from + 1);
    }
}

proof fn lemma_volume_below(
    gain_error_db: int,
    input_volume: int,
    min_input_volume: int,
    max_input_volume: int,
    from: int,
)
    requires
        gain_error_db < 0,
        from <= input_volume,
        from == input_volume || min_input_volume <= from,
        forall|v: int|
            from < v <= input_volume ==> #[trigger] gain_difference(v, input_volume)
                > gain_error_db,
    ensures
        exists|new_volume: int|
            is_volume_update(
                gain_error_db,
                input_volume,
                min_input_volume,
                max_input_volume,
                new_volume,
            ),
    decreases from - min_input_volume,
{
    if from <= min_input_volume || gain_difference(from, input_volume) <= gain_error_db {
        assert(is_volume_update(
            gain_error_db,
            input_volume,
            min_input_volume,
            max_input_volume,
            from,
        ));
    } else {
        lemma_volume_below(
            gain_error_db,
            input_volume,
            min_input_volume,
            max_input_volume,
            from - 1,
        );
    }
}

/// The volume goes up for a positive error and down for a negative one, by no more than
/// it takes: at the limit or at a volume whose gain makes up for the error, with no
/// volume on the way that does so too.
pub proof fn law_volume_reaches_gain(
    gain_error_db: int,
    input_volume: int,
    min_input_volume: int,
    max_input_volume: int,
)
    requires
        input_volume <= max_input_volume,
    ensures
        ({
            let volume = volume_update(
                gain_error_db,
                input_volume,
                min_input_volume,
                max_input_volume,
            );
            &&& gain_error_db == 0 ==> volume == input_volume
            &&& gain_error_db > 0 ==> {
                &&& input_volume <= volume <= max_input_volume
                &&& volume == max_input_volume || GAIN_MAP@[volume] >= GAIN_MAP@[input_volume]
                    + gain_error_db
                &&& forall|v: int|
                    input_volume <= v < volume ==> #[trigger] GAIN_MAP@[v]
                        < GAIN_MAP@[input_volume] + gain_error_db
            }
            &&& gain_error_db < 0 ==> {
                &&& volume <= input_volume
                &&& volume == input_volume || min_input_volume <= volume
                &&& volume <= min_input_volume || GAIN_MAP@[volume] <= GAIN_MAP@[input_volume]
                    + gain_error_db
                &&& forall|v: int|
                    volume < v <= input_volume ==> #[trigger] GAIN_MAP@[v]
                        > GAIN_MAP@[input_volume] + gain_error_db
            }
        }),
{
    if gain_error_db > 0 {
        lemma_volume_above(gain_error_db, input_volume, max_input_volume, input_volume);
        let v = choose|new_volume: int|
            is_volume_update(gain_error_db, input_volume, 0, max_input_volume, new_volume);
        assert(is_volume_update(
            gain_error_db,
            input_volume,
            min_input_volume,
            max_input_volume,
            v,
        ));
    } else if gain_error_db < 0 {
        lemma_volume_below(
            gain_error_db,
            input_volume,
            min_input_volume,
            max_input_volume,
            input_volume,
        );
    } else {
        assert(is_volume_update(
            gain_error_db,
            input_volume,
            min_input_volume,
            max_input_volume,
            input_volume,
        ));
    }
    let volume = volume_update(gain_error_db, input_volume, min_input_volume, max_input_volume);
    assert(is_volume_update(
        gain_error_db,
        input_volume,
        min_input_volume,
        max_input_volume,
        volume,
    ));
    assert forall|v: int| gain_error_db > 0 && input_volume <= v < volume implies #[trigger] GAIN_MAP@[v]
        < GAIN_MAP@[input_volume] + gain_error_db by {
        assert(gain_difference(v, input_volume) < gain_error_db);
    }
    assert forall|v: int| gain_error_db < 0 && volume < v <= input_volume implies #[trigger] GAIN_MAP@[v]
        > GAIN_MAP@[input_volume] + gain_error_db by {
        assert(gain_difference(v, input_volume) > gain_error_db);
    }
}

/// The volume that changes the gain by `gain_error_db`, within the limits.
pub fn compute_volume_update(
    gain_error_db: i32,
    input_volume: i32,
    min_input_volume: i32,
    max_input_volume: i32,
) -> (new_volume: i32)
    requires
        0 <= input_volume <= max_input_volume <= MAX_INPUT_VOLUME,
        0 <= min_input_volume,
    ensures
        0 <= new_volume <= max_input_volume,
        is_volume_update(
            gain_error_db as int,
            input_volume as int,
            min_input_volume as int,
            max_input_volume as int,
            new_volume as int,
        ),
        new_volume == volume_update(
            gain_error_db as int,
            input_volume as int,
            min_input_volume as int,
            max_input_volume as int,
        ),
{
    let new_volume: i32 = search_volume(
        gain_error_db,
        input_volume,
        min_input_volume,
        max_input_volume,
    );
    proof {
        law_volume_update_is_unique(
            gain_error_db as int,
            input_volume as int,
            min_input_volume as int,
            max_input_volume as int,
            new_volume as int,
            volume_update(
                gain_error_db as int,
                input_volume as int,
                min_input_volume as int,
                max_input_volume as int,
            ),
        );
    }
    new_volume
}

/// Goes from one volume to the next until the gain has changed enough.
fn search_volume(
    gain_error_db: i32,
    input_volume: i32,
    min_input_volume: i32,
    max_input_volume: i32,
) -> (new_volume: i32)
    requires
        0 <= input_volume <= max_input_volume <= MAX_INPUT_VOLUME,
        0 <= min_input_volume,
    ensures
        0 <= new_volume <= max_input_volume,
        is_volume_update(
            gain_error_db as int,
            input_volume as int,
            min_input_volume as int,
            max_input_volume as int,
            new_volume as int,
        ),
{
    if gain_error_db == 0 {
        return input_volume;
    }
    let current: i32 = GAIN_MAP[input_volume as usize] as i32;
    let mut new_volume: i32 = input_volume;
    if gain_error_db > 0 {
        while GAIN_MAP[new_volume as usize] as i32 - current < gain_error_db && new_volume
            < max_input_volume
            invariant
                0 <= input_volume <= new_volume <= max_input_volume <= MAX_INPUT_VOLUME,
                current == GAIN_MAP@[input_volume as int],
                forall|v: int|
                    input_volume <= v < new_volume ==> #[trigger] gain_difference(
                        v,
                        input_volume as int,
                    ) < gain_error_db,
            decreases max_input_volume - new_volume,
        {
            assert(gain_difference(new_volume as int, input_volume as int) < gain_error_db);
            new_volume = new_volume + 1;
        }
    } else {
        while GAIN_MAP[new_volume as usize] as i32 - current > gain_error_db && new_volume
            > min_input_volume
            invariant
                0 <= min_input_volume,
                0 <= new_volume <= input_volume <= MAX_INPUT_VOLUME,
                new_volume == input_volume || new_volume >= min_input_volume,
                current == GAIN_MAP@[input_volume as int],
                forall|v: int|
                    new_volume < v <= input_volume ==> #[trigger] gain_difference(
                        v,
                        input_volume as int,
                    ) > gain_error_db,
            decreases new_volume,
        {
            assert(gain_difference(new_volume as int, input_volume as int) > gain_error_db);
            new_volume = new_volume - 1;
        }
    }
    new_volume
}

} // verus!

//! The simulation clock: the simulated instant, whether it runs, and how fast.

use vstd::prelude::*;

verus! {

/// The earliest instant the clock can show: the first millisecond of the year
/// -262143.
pub const MIN_INSTANT: i64 = -8_334_601_228_800_000;

/// The latest instant the clock can show: the last millisecond of the year
/// 262142.
pub const MAX_INSTANT: i64 = 8_210_266_876_799_999;

/// The instant a new clock shows: noon of 1 January 2025.
pub const START_INSTANT: i64 = 1_735_732_800_000;

/// The highest speed, forwards and backwards.
pub const MAX_SPEED: i32 = 4096;

/// The clock as plain values.
pub struct ClockModel {
    pub is_paused: bool,
    /// Simulated time that passes for each unit of real time; negative where
    /// the simulation runs backwards.
    pub speed: int,
    /// Milliseconds since 1970-01-01T00:00:00Z.
    pub sim_time: int,
}

/// The speeds a clock can have: the powers of two from 1 to 4096, either way.
pub open spec fn is_speed(speed: int) -> bool {
    let m = if speed < 0 {
        -speed
    } else {
        speed
    };
    m == 1 || m == 2 || m == 4 || m == 8 || m == 16 || m == 32 || m == 64 || m == 128 || m == 256
        || m == 512 || m == 1024 || m == 2048 || m == 4096
}

/// The speed one step back: half as fast forwards, from normal speed to
/// normal speed backwards, twice as fast backwards up to the highest speed.
pub open spec fn speed_stepped_back(speed: int) -> int {
    if speed > 1 {
        speed / 2
    } else if speed == 1 {
        -1
    } else if speed * 2 < -4096 {
        -4096
    } else {
        speed * 2
    }
}

/// The speed one step forward: half as fast backwards, from normal speed
/// backwards to normal speed, twice as fast forwards up to the highest speed.
pub open spec fn speed_stepped_forward(speed: int) -> int {
    if speed < -1 {
        -((-speed) / 2)
    } else if speed == -1 {
        1
    } else if speed * 2 > 4096 {
        4096
    } else {
        speed * 2
    }
}

/// Simulated milliseconds that pass in `real_micros` microseconds of real time
/// at the given speed, the rest cut off.
pub open spec fn simulated_delta(real_micros: int, speed: int) -> int {
    if speed >= 0 {
        (real_micros * speed) / 1000
    } else {
        -((real_micros * (-speed)) / 1000)
    }
}

/// The instant after a tick: the simulated time has passed, unless the clock
/// is paused or the new instant would be one that the clock cannot show.
pub open spec fn instant_after(clock: ClockModel, real_micros: int) -> int {
    let next = clock.sim_time + simulated_delta(real_micros, clock.speed);
    if !clock.is_paused && MIN_INSTANT <= next <= MAX_INSTANT {
        next
    } else {
        clock.sim_time
    }
}

/// Stepping keeps the speed one that a clock can have.
pub proof fn lemma_steps_keep_speed(speed: int)
    requires
        is_speed(speed),
    ensures
        is_speed(speed_stepped_back(speed)),
        is_speed(speed_stepped_forward(speed)),
{
}

/// The state of the simulation's time, written once per tick and read by
/// everything that depends on time.
#[derive(Clone, Copy, Debug, PartialEq, Eq)]
pub struct TimeState {
    is_paused: bool,
    speed_mult: i32,
    sim_time: i64,
}

impl View for TimeState {
    type V = ClockModel;

    closed spec fn view(&self) -> ClockModel {
        ClockModel {
            is_paused: self.is_paused,
            speed: self.speed_mult as int,
            sim_time: self.sim_time as int,
        }
    }
}

impl Default for TimeState {
    /// A clock that runs forwards at normal speed from noon of 1 January 2025.
    fn default() -> (r: TimeState)
        ensures
            r@ == (ClockModel { is_paused: false, speed: 1, sim_time: START_INSTANT as int }),
    {
        TimeState { is_paused: false, speed_mult: 1, sim_time: START_INSTANT }
    }
}

impl TimeState {
    #[verifier::type_invariant]
    spec fn well_formed(self) -> bool {
        is_speed(self.speed_mult as int) && MIN_INSTANT <= self.sim_time <= MAX_INSTANT
    }

    /// Whether the clock stands still.
    pub fn is_paused(&self) -> (r: bool)
        ensures
            r == self@.is_paused,
    {
        self.is_paused
    }

    /// The speed: simulated time per real time, negative when running
    /// backwards.
    pub fn speed_mult(&self) -> (r: i32)
        ensures
            r == self@.speed,
            is_speed(r as int),
    {
        proof {
            use_type_invariant(self);
        }
        self.speed_mult
    }

    /// The simulated instant, in milliseconds since 1970-01-01T00:00:00Z.
    pub fn sim_time(&self) -> (r: i64)
        ensures
            r == self@.sim_time,
            MIN_INSTANT <= r <= MAX_INSTANT,
    {
        proof {
            use_type_invariant(self);
        }
        self.sim_time
    }

    /// Lets the clock run, one step slower or one step faster backwards.
    pub fn step_backward(&mut self)
        ensures
            final(self)@ == (ClockModel {
                is_paused: false,
                speed: speed_stepped_back(old(self)@.speed),
                sim_time: old(self)@.sim_time,
            }),
    {
        proof {
            use_type_invariant(&*self);
        }
        let speed = self.speed_mult;
        let stepped = if speed > 1 {
            speed / 2
        } else if speed == 1 {
            -1
        } else if speed * 2 < -MAX_SPEED {
            -MAX_SPEED
        } else {
            speed * 2
        };
        *self = TimeState { is_paused: false, speed_mult: stepped, sim_time: self.sim_time };
    }

    /// Lets the clock run, one step faster or one step slower backwards.
    pub fn step_forward(&mut self)
        ensures
            final(self)@ == (ClockModel {
                is_paused: false,
                speed: speed_stepped_forward(old(self)@.speed),
                sim_time: old(self)@.sim_time,
            }),
    {
        proof {
            use_type_invariant(&*self);
        }
        let speed = self.speed_mult;
        let stepped = if speed < -1 {
            -((-speed) / 2)
        } else if speed == -1 {
            1
        } else if speed * 2 > MAX_SPEED {
            MAX_SPEED
        } else {
            speed * 2
        };
        *self = TimeState { is_paused: false, speed_mult: stepped, sim_time: self.sim_time };
    }

    /// Lets the clock run forwards at normal speed.
    pub fn reset_to_normal(&mut self)
        ensures
            final(self)@ == (ClockModel {
                is_paused: false,
                speed: 1,
                sim_time: old(self)@.sim_time,
            }),
    {
        proof {
            use_type_invariant(&*self);
        }
        *self = TimeState { is_paused: false, speed_mult: 1, sim_time: self.sim_time };
    }

    /// Stops the clock or lets it run again.
    pub fn set_paused(&mut self, paused: bool)
        ensures
            final(self)@ == (ClockModel { is_paused: paused, ..old(self)@ }),
    {
        proof {
            use_type_invariant(&*self);
        }
        *self = TimeState {
            is_paused: paused,
            speed_mult: self.speed_mult,
            sim_time: self.sim_time,
        };
    }

    /// Advances the simulated instant by one tick of `real_delta_micros`
    /// microseconds of real time.
    pub fn update(&mut self, real_delta_micros: u64)
        ensures
            final(self)@ == (ClockModel {
                sim_time: instant_after(old(self)@, real_delta_micros as int),
                ..old(self)@
            }),
    {
        proof {
            use_type_invariant(&*self);
        }
        if self.is_paused {
            return ;
        }
        let speed = self.speed_mult;
        let magnitude: u128 = if speed < 0 {
            (-speed) as u128
        } else {
            speed as u128
        };
        assert(real_delta_micros as u128 * magnitude <= 0xffff_ffff_ffff_ffff * 4096)
            by (nonlinear_arith)
            requires
                real_delta_micros <= 0xffff_ffff_ffff_ffff,
                magnitude <= 4096,
        ;
        let passed: i128 = ((real_delta_micros as u128 * magnitude) / 1000) as i128;
        let next: i128 = if speed < 0 {
            self.sim_time as i128 - passed
        } else {
            self.sim_time as i128 + passed
        };
        if MIN_INSTANT as i128 <= next && next <= MAX_INSTANT as i128 {
            *self = TimeState {
                is_paused: false,
                speed_mult: speed,
                sim_time: next as i64,
            };
        }
    }
}

} // verus!

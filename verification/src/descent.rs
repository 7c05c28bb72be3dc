//! The course of the gradient descent: where it starts, how many steps it
//! takes, and what each step keeps of the parameters it is offered.
//!
//! The arithmetic of a step is the caller's. The state kept here sees to it
//! that the zero-dose response `a` never leaves the interval from the control
//! to the weakest standard response, and that the descent ends after its
//! fixed number of steps.

use vstd::prelude::*;
use crate::binary64::{clamp, clamped, exceeds, greater, is_nan, nan};
use crate::binary64::lemma_clamped_idempotent;
use crate::regression::Parameters;
use crate::standards::{
    highest_response, is_steepest, lemma_steepest_is_unique, lowest_response, steepest_rise,
    strongest, weakest,
};

verus! {

/// The number of steps of a descent.
pub const ITERATIONS: u32 = 100_000;

/// The encoding of the number one.
pub const ONE: u64 = 0x3FF0_0000_0000_0000;

/// The first guess of the inflection point: the midpoint of the pair of
/// neighbouring standards with the steepest rise, or positive zero where the
/// response rises nowhere.
pub open spec fn first_inflection(inclines: Seq<u64>, midpoints: Seq<u64>) -> u64 {
    if exists|i: int| is_steepest(inclines, i) {
        midpoints[choose|i: int| is_steepest(inclines, i)]
    } else {
        0
    }
}

/// The first guess of the parameters: `a` at the control, `b` at one, `c` at
/// the steepest rise, `d` at the strongest response.
pub open spec fn first_guess(
    control: u64,
    standards: Seq<(u64, u64)>,
    inclines: Seq<u64>,
    midpoints: Seq<u64>,
) -> Parameters {
    Parameters {
        a: control,
        b: ONE,
        c: first_inflection(inclines, midpoints),
        d: strongest(standards),
    }
}

/// Whether a descent can start: there are standards, one incline and one
/// midpoint for each pair of neighbours, and the control is a number not
/// above the weakest standard response, which is a number too.
pub open spec fn can_start(
    control: u64,
    standards: Seq<(u64, u64)>,
    inclines: Seq<u64>,
    midpoints: Seq<u64>,
) -> bool {
    &&& standards.len() > 0
    &&& inclines.len() == standards.len() - 1
    &&& midpoints.len() == inclines.len()
    &&& !nan(control)
    &&& !nan(weakest(standards))
    &&& !greater(control, weakest(standards))
}

/// A descent under way.
#[derive(Debug)]
pub struct Descent {
    abcd: Parameters,
    lower: u64,
    upper: u64,
    iteration: u32,
}

impl Descent {
    #[verifier::type_invariant]
    spec fn inv(&self) -> bool {
        self.wf()
    }

    /// The bounds are numbers with the lower not above the upper, `a` is
    /// what clamping to them leaves of it, and no more steps were taken than a
    /// descent has.
    pub closed spec fn wf(&self) -> bool {
        &&& !nan(self.lower)
        &&& !nan(self.upper)
        &&& !greater(self.lower, self.upper)
        &&& self.abcd.a == clamped(self.abcd.a, self.lower, self.upper)
        &&& self.iteration <= ITERATIONS
    }

    /// The parameters as they stand.
    pub closed spec fn params(&self) -> Parameters {
        self.abcd
    }

    /// The least that `a` may be: the control.
    pub closed spec fn floor(&self) -> u64 {
        self.lower
    }

    /// The most that `a` may be: the weakest standard response.
    pub closed spec fn ceiling(&self) -> u64 {
        self.upper
    }

    /// The number of steps taken.
    pub closed spec fn steps_taken(&self) -> nat {
        self.iteration as nat
    }

    /// Sets a descent up at its first guess, if it can start.
    ///
    /// `control` is the control mean and `standards` the (dose, response)
    /// pairs, in dose order, all after blank correction and with the doses
    /// in logarithms. `inclines` and `midpoints` hold, for each pair of
    /// neighbouring standards, the incline between the two and the dose
    /// halfway between them.
    pub fn start(
        control: u64,
        standards: &Vec<(u64, u64)>,
        inclines: &Vec<u64>,
        midpoints: &Vec<u64>,
    ) -> (r: Option<Descent>)
        ensures
            r is Some <==> can_start(control, standards@, inclines@, midpoints@),
            r is Some ==> {
                &&& r->0.wf()
                &&& r->0.params() == first_guess(control, standards@, inclines@, midpoints@)
                &&& r->0.floor() == control
                &&& r->0.ceiling() == weakest(standards@)
                &&& r->0.steps_taken() == 0
            },
    {
        if standards.len() == 0 || inclines.len() != standards.len() - 1 || midpoints.len()
            != inclines.len() {
            return None;
        }
        let upper = lowest_response(standards);
        if is_nan(control) || is_nan(upper) || exceeds(control, upper) {
            return None;
        }
        let d = highest_response(standards);
        let c = match steepest_rise(inclines) {
            Some(pair) => {
                proof {
                    let chosen = choose|i: int| is_steepest(inclines@, i);
                    lemma_steepest_is_unique(inclines@, pair as int, chosen);
                }
                midpoints[pair]
            },
            None => {
                assert forall|i: int| !is_steepest(inclines@, i) by {
                    if 0 <= i < inclines@.len() {
                        assert(!greater(inclines@[i], 0));
                    }
                }
                0
            },
        };
        Some(
            Descent {
                abcd: Parameters { a: control, b: ONE, c, d },
                lower: control,
                upper,
                iteration: 0,
            },
        )
    }

    /// Whether every step of the descent has been taken.
    pub fn finished(&self) -> (r: bool)
        ensures
            r == (self.steps_taken() == ITERATIONS),
    {
        self.iteration == ITERATIONS
    }

    /// Takes one step to the parameters offered, with `a` clamped to its
    /// bounds.
    pub fn step(&mut self, proposal: Parameters)
        requires
            old(self).steps_taken() < ITERATIONS,
        ensures
            final(self).wf(),
            final(self).params() == (Parameters {
                a: clamped(proposal.a, old(self).floor(), old(self).ceiling()),
                b: proposal.b,
                c: proposal.c,
                d: proposal.d,
            }),
            final(self).floor() == old(self).floor(),
            final(self).ceiling() == old(self).ceiling(),
            final(self).steps_taken() == old(self).steps_taken() + 1,
    {
        proof {
            use_type_invariant(&*self);
            lemma_clamped_idempotent(proposal.a, self.lower, self.upper);
        }
        let a = clamp(proposal.a, self.lower, self.upper);
        *self = Descent {
            abcd: Parameters { a, b: proposal.b, c: proposal.c, d: proposal.d },
            lower: self.lower,
            upper: self.upper,
            iteration: self.iteration + 1,
        };
    }

    /// The parameters as they stand.
    pub fn parameters(&self) -> (p: Parameters)
        ensures
            p == self.params(),
    {
        self.abcd
    }

    /// The bounds of `a`: the least and the most that it may be.
    pub fn bounds(&self) -> (b: (u64, u64))
        ensures
            b == (self.floor(), self.ceiling()),
    {
        (self.lower, self.upper)
    }

    /// The number of steps taken.
    pub fn iteration(&self) -> (n: u32)
        ensures
            n == self.steps_taken(),
    {
        self.iteration
    }
}

/// At every step of a descent the bounds of `a` are in order, the control
/// not above the weakest standard response, and `a`, where it is a number,
/// lies between them.
pub proof fn lemma_asymptote_stays_within(state: Descent)
    requires
        state.wf(),
    ensures
        !nan(state.floor()),
        !nan(state.ceiling()),
        !greater(state.floor(), state.ceiling()),
        state.steps_taken() <= ITERATIONS,
        !nan(state.params().a) ==> !greater(state.floor(), state.params().a) && !greater(
            state.params().a,
            state.ceiling(),
        ),
{
}

} // verus!

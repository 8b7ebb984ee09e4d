//! A bucket-brigade delay line: the sample store behind the delay effect.
//!
//! Each step pushes the newest sample in at the front and lets the line hold
//! at most `steps` samples, where `steps` is the delay length asked for at
//! that moment. What leaves the far end is the output of the step.
use vstd::prelude::*;
use std::collections::VecDeque;

verus! {

/// What one step of a delay line hands out.
#[derive(Clone, Copy, Debug, PartialEq, Eq)]
pub enum DelayOutput<T> {
    /// The line holds fewer samples than the delay asks for: nothing comes out.
    Silent,
    /// The delay is shorter than the line: the samples beyond it are
    /// dropped, and the nearest of them comes out.
    Passed(T),
    /// The line was exactly as long as the delay: its oldest sample comes
    /// out, and feedback of it belongs on the newest sample.
    Echoed(T),
}

/// The line after pushing `input` in front of `line`.
pub open spec fn pushed<T>(line: Seq<T>, input: T) -> Seq<T> {
    seq![input] + line
}

/// The samples a line holds after one step (newest first).
pub open spec fn step_line<T>(line: Seq<T>, input: T, steps: nat) -> Seq<T> {
    let p = pushed(line, input);
    if steps > p.len() {
        p
    } else if steps < p.len() {
        p.take(steps as int)
    } else {
        p.take(steps - 1)
    }
}

/// What one step hands out.
pub open spec fn step_output<T>(line: Seq<T>, input: T, steps: nat) -> DelayOutput<T> {
    let p = pushed(line, input);
    if steps > p.len() {
        DelayOutput::Silent
    } else if steps < p.len() {
        DelayOutput::Passed(p[steps as int])
    } else {
        DelayOutput::Echoed(p[steps - 1])
    }
}

/// The line after feeding `inputs` in order through one of delay `steps`,
/// starting from `line`, with no feedback between the steps.
pub open spec fn run_line<T>(line: Seq<T>, inputs: Seq<T>, steps: nat) -> Seq<T>
    decreases inputs.len(),
{
    if inputs.len() == 0 {
        line
    } else {
        step_line(run_line(line, inputs.drop_last(), steps), inputs.last(), steps)
    }
}

/// The last `m` of `inputs`, newest first.
pub open spec fn newest_first<T>(inputs: Seq<T>, m: nat) -> Seq<T> {
    Seq::new(m, |j: int| inputs[inputs.len() - 1 - j])
}

/// A delay line of constant delay `d >= 1`, started empty and run without
/// feedback, holds the last `min(k, d - 1)` of the `k` samples fed in,
/// newest first.
pub proof fn lemma_run_holds_latest<T>(inputs: Seq<T>, d: nat)
    requires
        d >= 1,
    ensures
        run_line(Seq::<T>::empty(), inputs, d) == newest_first(
            inputs,
            if inputs.len() < d - 1 { inputs.len() } else { (d - 1) as nat },
        ),
    decreases inputs.len(),
{
    if inputs.len() > 0 {
        let prev = inputs.drop_last();
        lemma_run_holds_latest(prev, d);
        let m0: nat = if prev.len() < d - 1 { prev.len() } else { (d - 1) as nat };
        let line0 = newest_first(prev, m0);
        let p = pushed(line0, inputs.last());
        let m: nat = if inputs.len() < d - 1 { inputs.len() } else { (d - 1) as nat };
        assert(p =~= newest_first(inputs, m0 + 1));
        if d > p.len() {
            assert(p =~= newest_first(inputs, m));
        } else if d < p.len() {
            assert(p.take(d as int) =~= newest_first(inputs, m));
        } else {
            assert(p.take(d - 1) =~= newest_first(inputs, m));
        }
    }
}

/// The central law of the delay: with a constant delay of `d >= 1` samples,
/// started empty and run without feedback, step `i` is silent while
/// `i < d - 1`, and from then on hands out the sample fed in `d - 1` steps
/// earlier.
pub proof fn lemma_delay_by_d_minus_one<T>(inputs: Seq<T>, d: nat, i: int)
    requires
        d >= 1,
        0 <= i < inputs.len(),
    ensures
        step_output(run_line(Seq::<T>::empty(), inputs.take(i), d), inputs[i], d) == (if i
            < d - 1 {
            DelayOutput::Silent
        } else {
            DelayOutput::Echoed(inputs[i - (d - 1)])
        }),
{
    let prefix = inputs.take(i);
    lemma_run_holds_latest(prefix, d);
    let m: nat = if prefix.len() < d - 1 { prefix.len() } else { (d - 1) as nat };
    let line = newest_first(prefix, m);
    let p = pushed(line, inputs[i]);
    if i >= d - 1 && d >= 2 {
        assert(m == d - 1);
        assert(p[d - 1] == line[d - 2]);
        assert(line[d - 2] == prefix[i - (d - 1)]);
    }
}

/// A delay of zero hands every sample straight out and keeps nothing.
pub proof fn lemma_zero_delay_passes_through<T>(line: Seq<T>, input: T)
    ensures
        step_line(line, input, 0) == Seq::<T>::empty(),
        step_output(line, input, 0) == DelayOutput::Passed(input),
{
    assert(step_line(line, input, 0) =~= Seq::<T>::empty());
}

/// After a step the line never holds more samples than the delay it was
/// stepped with: it grows by one while shorter than the delay, is cut to the
/// delay when longer, and keeps one sample less than the delay when it
/// reached it exactly.
pub proof fn lemma_step_bounds_length<T>(line: Seq<T>, input: T, steps: nat)
    ensures
        step_line(line, input, steps).len() <= steps,
        step_line(line, input, steps).len() == (if steps > line.len() + 1 {
            line.len() + 1
        } else if steps < line.len() + 1 {
            steps
        } else {
            (steps - 1) as nat
        }),
{
}

/// A step with a delay shorter than the line it makes by pushing: the line
/// keeps the first `steps` samples of the input followed by the old line,
/// newest first, and the sample at position `steps` of it comes out. In
/// particular, for a delay of at least one sample the input is stored as the
/// newest sample, and the oldest sample kept before is never handed out
/// while it stays in the line.
pub proof fn lemma_shorter_delay_drops_oldest<T>(line: Seq<T>, input: T, steps: nat)
    requires
        steps < line.len() + 1,
    ensures
        step_line(line, input, steps) == (seq![input] + line).take(steps as int),
        step_line(line, input, steps).len() == steps,
        step_output(line, input, steps) == DelayOutput::Passed(
            if steps == 0 { input } else { line[steps - 1] },
        ),
        steps >= 1 ==> step_line(line, input, steps)[0] == input,
        forall|j: int|
            1 <= j < steps ==> #[trigger] step_line(line, input, steps)[j] == line[j - 1],
{
    assert((seq![input] + line).take(steps as int) =~= pushed(line, input).take(steps as int));
}

/// A line that already holds as many samples as the delay keeps that many:
/// the input goes in as the newest sample, and the oldest comes out.
pub proof fn lemma_full_line_steady<T>(line: Seq<T>, input: T)
    ensures
        step_line(line, input, line.len()).len() == line.len(),
        line.len() >= 1 ==> step_line(line, input, line.len()) == seq![input] + line.drop_last(),
        step_output(line, input, line.len()) == DelayOutput::Passed(
            if line.len() == 0 { input } else { line.last() },
        ),
{
    if line.len() >= 1 {
        assert(pushed(line, input).take(line.len() as int) =~= seq![input] + line.drop_last());
    }
}

/// Running a line that holds exactly `d` samples with a constant delay of
/// `d`: it keeps holding `d` samples, the `k` inputs fed in newest first,
/// then the oldest samples it held before.
pub proof fn lemma_run_from_full<T>(line: Seq<T>, inputs: Seq<T>, d: nat)
    requires
        line.len() == d,
    ensures
        run_line(line, inputs, d).len() == d,
        forall|j: int|
            0 <= j < d ==> #[trigger] run_line(line, inputs, d)[j] == (if j < inputs.len() {
                inputs[inputs.len() - 1 - j]
            } else {
                line[j - inputs.len()]
            }),
    decreases inputs.len(),
{
    if inputs.len() > 0 {
        let prev = inputs.drop_last();
        lemma_run_from_full(line, prev, d);
        let r = run_line(line, prev, d);
        let p = pushed(r, inputs.last());
        assert(run_line(line, inputs, d) == p.take(d as int));
        assert forall|j: int| 0 <= j < d implies #[trigger] run_line(line, inputs, d)[j] == (if j
            < inputs.len() {
            inputs[inputs.len() - 1 - j]
        } else {
            line[j - inputs.len()]
        }) by {
            if j >= 1 {
                assert(p[j] == r[j - 1]);
                if j - 1 < prev.len() {
                    assert(prev[prev.len() - 1 - (j - 1)] == inputs[inputs.len() - 1 - j]);
                }
            }
        }
    }
}

/// A delay that is shortened to the length the line then holds, and held
/// there, keeps delaying by that many samples: from a line of `d` samples,
/// step `i` hands out the sample held `d - 1 - i` places from the front
/// while `i < d`, and afterwards the sample fed in `d` steps earlier.
pub proof fn lemma_delay_from_full_line<T>(line: Seq<T>, inputs: Seq<T>, d: nat, i: int)
    requires
        line.len() == d,
        0 <= i < inputs.len(),
    ensures
        step_output(run_line(line, inputs.take(i), d), inputs[i], d) == DelayOutput::Passed(
            if i < d { line[d - 1 - i] } else { inputs[i - d] },
        ),
        run_line(line, inputs.take(i), d).len() == d,
{
    let prefix = inputs.take(i);
    lemma_run_from_full(line, prefix, d);
    let r = run_line(line, prefix, d);
    lemma_full_line_steady(r, inputs[i]);
    if d >= 1 {
        assert(r.last() == r[d - 1]);
        if d - 1 < i {
            assert(prefix[prefix.len() - 1 - (d - 1)] == inputs[i - d]);
        }
    }
}

/// A delay line holding its samples newest first.
pub struct DelayLine<T> {
    bbd: VecDeque<T>,
}

impl<T> View for DelayLine<T> {
    type V = Seq<T>;

    closed spec fn view(&self) -> Seq<T> {
        self.bbd@
    }
}

impl<T: Copy> DelayLine<T> {
    /// An empty line.
    pub fn new() -> (r: Self)
        ensures
            r@ == Seq::<T>::empty(),
    {
        DelayLine { bbd: VecDeque::new() }
    }

    /// Number of samples held.
    pub fn len(&self) -> (n: usize)
        ensures
            n == self@.len(),
    {
        self.bbd.len()
    }

    /// Pushes `input` and trims the line to a delay of `steps` samples.
    ///
    /// While the line is shorter than the delay it only grows and stays
    /// silent. A delay shorter than the line drops the oldest samples and
    /// hands out the one at position `steps`; a delay of exactly the line's
    /// length hands out its oldest sample.
    pub fn step(&mut self, input: T, steps: usize) -> (out: DelayOutput<T>)
        ensures
            final(self)@ == step_line(old(self)@, input, steps as nat),
            out == step_output(old(self)@, input, steps as nat),
            steps > old(self)@.len() + 1 ==> out == DelayOutput::<T>::Silent && final(self)@ == seq![
                input,
            ] + old(self)@,
            steps < old(self)@.len() + 1 ==> out == DelayOutput::Passed(
                (seq![input] + old(self)@)[steps as int],
            ) && final(self)@ == (seq![input] + old(self)@).take(steps as int),
            steps == old(self)@.len() + 1 ==> out == DelayOutput::Echoed(
                (seq![input] + old(self)@)[steps - 1],
            ) && final(self)@ == (seq![input] + old(self)@).take(steps - 1),
    {
        let ghost p = pushed(self@, input);
        self.bbd.push_front(input);
        assert(self.bbd@ == p);
        let n = self.bbd.len();
        if steps > n {
            DelayOutput::Silent
        } else if steps < n {
            let mut out = match self.bbd.pop_back() {
                Some(v) => v,
                None => input,
            };
            while steps < self.bbd.len()
                invariant
                    steps < p.len(),
                    steps <= self.bbd@.len() < p.len(),
                    self.bbd@ == p.take(self.bbd@.len() as int),
                    out == p[self.bbd@.len() as int],
                decreases self.bbd@.len(),
            {
                out = match self.bbd.pop_back() {
                    Some(v) => v,
                    None => out,
                };
            }
            DelayOutput::Passed(out)
        } else {
            let out = match self.bbd.pop_back() {
                Some(v) => v,
                None => input,
            };
            assert(self.bbd@ == p.take(steps - 1));
            DelayOutput::Echoed(out)
        }
    }

    /// The newest sample held, if any.
    pub fn newest(&self) -> (r: Option<T>)
        ensures
            r == (if self@.len() > 0 { Some(self@[0]) } else { None::<T> }),
    {
        if self.bbd.len() > 0 {
            Some(self.bbd[0])
        } else {
            None
        }
    }

    /// Replaces the newest sample, if there is one; an empty line stays empty.
    pub fn replace_newest(&mut self, value: T)
        ensures
            old(self)@.len() > 0 ==> final(self)@ == old(self)@.update(0, value),
            old(self)@.len() == 0 ==> final(self)@ == old(self)@,
    {
        match self.bbd.pop_front() {
            Some(_) => {
                self.bbd.push_front(value);
            },
            None => {},
        }
    }
}

} // verus!

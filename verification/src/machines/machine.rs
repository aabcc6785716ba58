use vstd::prelude::*;

verus! {

/// Represents the result of a machine transition step.
#[derive(Clone, Copy, PartialEq, Eq, Structural, Debug)]
pub enum StepResult {
    Continue,
    Stop,
    Failure,
}

/// An abstract machine that runs a term step by step.
pub trait Machine {
    /// Whether the machine's stores are well formed.
    spec fn well_formed(&self) -> bool;

    /// Whether the next step is defined.
    spec fn steppable(&self) -> bool;

    /// Whether running until the machine stops or fails is defined.
    spec fn runnable(&self) -> bool;

    /// Whether every state that running passes through can be shown in a trace.
    spec fn traceable(&self) -> bool;

    /// Whether output is also echoed as it is written.
    fn set_silent(&mut self, to: bool)
        requires
            old(self).well_formed(),
        ensures
            final(self).well_formed(),
    ;

    /// Expands every operation of the term about to run.
    fn expand_expression(&mut self)
        requires
            old(self).well_formed(),
        ensures
            final(self).well_formed(),
    ;

    /// The lines written to the output location so far.
    fn output(&self) -> &[String];

    /// Performs the next transition step.
    fn step(&mut self) -> (r: StepResult)
        requires
            old(self).well_formed(),
            old(self).steppable(),
        ensures
            final(self).well_formed(),
    ;

    /// Performs transition steps until the machine stops or fails; with `trace`, the
    /// state before each step is recorded.
    fn run(&mut self, trace: bool) -> (r: StepResult)
        requires
            old(self).well_formed(),
            old(self).runnable(),
            trace ==> old(self).traceable(),
        ensures
            final(self).well_formed(),
    ;
}

/// The machines a program can be run on.
#[derive(Clone, Copy, PartialEq, Eq, Structural, Debug)]
pub enum MachineType {
    Stack,
    Krivine,
}

} // verus!

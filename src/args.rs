use vstd::prelude::*;

use crate::curve::{CurveError, Param};

verus! {

/// What the program was asked to do.
#[derive(Debug)]
pub enum Args {
    /// Draw a transition curve into the file at this path, with these
    /// parameters (or the reason they were refused).
    Transition(String, Result<Param, CurveError>),
}

impl Args {
    /// The output path and the curve parameters of a transition request.
    pub fn unwrap_transition(&self) -> (r: (&String, &Result<Param, CurveError>))
        ensures
            match *self {
                Args::Transition(path, param) => *r.0 == path && *r.1 == param,
            },
    {
        match self {
            Args::Transition(path, param) => (path, param),
        }
    }
}

} // verus!

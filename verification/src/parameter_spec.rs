//! Segment-based path templating: a `PathBuilder` splits a path template
//! into literal segments and parameter slots, checks arity, and interpolates
//! supplied parameter values into a finished path string.

use vstd::prelude::*;

verus! {

/// How literal segments and parameters interleave in a built path.
#[derive(Clone, Copy, Debug, PartialEq, Eq, Structural)]
pub enum ParameterQuantifier {
    /// One parameter after every segment: segment count == parameter count.
    PairingSegments,
    /// Parameters between segments, final segment closes the path:
    /// segment count == parameter count + 1.
    JoiningSegments,
}

/// Errors of path construction.
#[derive(Clone, Debug, PartialEq, Eq, Structural)]
pub enum PathError {
    /// The number of supplied parameters does not equal the number the
    /// segment sequence accepts.
    ArityMismatch { expected: usize, actual: usize },
    /// `JoiningSegments` over an empty segment sequence accepts no
    /// parameter count at all.
    NoSegments,
}

/// The views of a sequence of strings.
pub open spec fn views_of(ss: Seq<String>) -> Seq<Seq<char>> {
    ss.map_values(|s: String| s@)
}

/// Concatenation of `segs[0] + params[0] + ... + segs[n-1] + params[n-1]`.
pub open spec fn interleaved(segs: Seq<Seq<char>>, params: Seq<Seq<char>>, n: int) -> Seq<char>
    decreases n,
{
    if n <= 0 {
        Seq::empty()
    } else {
        interleaved(segs, params, n - 1) + segs[n - 1] + params[n - 1]
    }
}

/// The finished path for a segment sequence, a quantifier and a parameter
/// sequence of matching arity.
pub open spec fn built_path(
    segs: Seq<Seq<char>>,
    quantifier: ParameterQuantifier,
    params: Seq<Seq<char>>,
) -> Seq<char> {
    match quantifier {
        ParameterQuantifier::PairingSegments => interleaved(segs, params, segs.len() as int),
        ParameterQuantifier::JoiningSegments => interleaved(segs, params, params.len() as int)
            + segs.last(),
    }
}

/// Untyped mixing of strings to build paths: owns the literal segments and
/// the quantifier; validation of the parameter count is deferred to `build`.
pub struct PathBuilder {
    pub segments: Vec<String>,
    pub quantifier: ParameterQuantifier,
}

impl PathBuilder {
    /// A segment sequence accepts some parameter count exactly when it is
    /// nonempty or pairs each segment with a parameter.
    pub open spec fn accepts_parameters(self) -> bool {
        self.quantifier is PairingSegments || self.segments@.len() >= 1
    }

    /// The parameter count the segment sequence accepts.
    pub open spec fn spec_accepted_parameters(self) -> nat
        recommends
            self.accepts_parameters(),
    {
        match self.quantifier {
            ParameterQuantifier::PairingSegments => self.segments@.len(),
            ParameterQuantifier::JoiningSegments => (self.segments@.len() - 1) as nat,
        }
    }

    pub fn new(segments: Vec<String>, quantifier: ParameterQuantifier) -> (r: Self)
        ensures
            r.segments == segments,
            r.quantifier == quantifier,
    {
        Self { segments, quantifier }
    }

    /// How many parameters `build` accepts: the segment count under
    /// `PairingSegments`, one fewer under `JoiningSegments`. Undefined for
    /// an empty segment sequence under `JoiningSegments`.
    pub fn accepted_parameters(&self) -> (r: usize)
        requires
            self.accepts_parameters(),
        ensures
            r == self.spec_accepted_parameters(),
    {
        match self.quantifier {
            ParameterQuantifier::PairingSegments => self.segments.len(),
            ParameterQuantifier::JoiningSegments => self.segments.len() - 1,
        }
    }

    /// Interpolates `params` between the literal segments. Rejects a
    /// parameter count other than `accepted_parameters()` before building
    /// anything; an empty segment sequence under `JoiningSegments` accepts
    /// no count at all and is rejected likewise.
    pub fn build(&self, params: &Vec<String>) -> (r: Result<String, PathError>)
        ensures
            match r {
                Ok(out) => self.accepts_parameters() && params@.len()
                    == self.spec_accepted_parameters() && out@ == built_path(
                    views_of(self.segments@),
                    self.quantifier,
                    views_of(params@),
                ),
                Err(PathError::NoSegments) => !self.accepts_parameters(),
                Err(PathError::ArityMismatch { expected, actual }) => self.accepts_parameters()
                    && params@.len() != self.spec_accepted_parameters() && expected
                    == self.spec_accepted_parameters() && actual == params@.len(),
            },
    {
        if matches!(self.quantifier, ParameterQuantifier::JoiningSegments) && self.segments.len()
            == 0 {
            return Err(PathError::NoSegments);
        }
        let expected = self.accepted_parameters();
        if params.len() != expected {
            return Err(PathError::ArityMismatch { expected, actual: params.len() });
        }

        let ghost segs = views_of(self.segments@);
        let ghost ps = views_of(params@);
        let mut out = String::new();
        let mut i: usize = 0;
        while i < params.len()
            invariant
                i <= params@.len(),
                params@.len() <= self.segments@.len(),
                segs == views_of(self.segments@),
                ps == views_of(params@),
                out@ == interleaved(segs, ps, i as int),
            decreases params@.len() - i,
        {
            out.append(self.segments[i].as_str());
            out.append(params[i].as_str());
            i = i + 1;
        }
        if matches!(self.quantifier, ParameterQuantifier::JoiningSegments) {
            out.append(self.segments[self.segments.len() - 1].as_str());
            proof {
                assert(segs.last() == self.segments@.last()@);
            }
        }
        Ok(out)
    }
}

} // verus!

use vstd::prelude::*;

verus! {

/// A non-negative rational number `num / den`.
#[derive(Clone, Copy, Debug, PartialEq, Eq, Structural)]
pub struct Fraction {
    pub num: u32,
    pub den: u32,
}

impl Fraction {
    pub fn new(num: u32, den: u32) -> (r: Fraction)
        ensures
            r.num == num,
            r.den == den,
    {
        Fraction { num, den }
    }

    /// The fraction is a well-defined number greater than zero.
    pub open spec fn is_positive(self) -> bool {
        self.den > 0 && self.num > 0
    }

    /// The fraction lies strictly between zero and one.
    pub open spec fn is_proper(self) -> bool {
        0 < self.num && self.num < self.den
    }
}

/// How the data term treats a color image.
#[derive(Clone, Copy, Debug, PartialEq, Eq, Structural)]
pub enum ColorMode {
    /// Convert to a single luminance channel first.
    Luminance,
    /// Sum the data term over every channel.
    PerChannel,
}

#[derive(Clone, Copy, Debug, PartialEq, Eq, Structural)]
pub enum FlowError {
    /// A zero-area image, or two images of different sizes.
    InvalidDimensions,
    /// A tuning parameter out of its range.
    InvalidParameters,
    /// Two pyramids whose level counts or level sizes differ.
    DimensionMismatch,
}

/// The configuration of one flow computation.
#[derive(Clone, Copy, Debug, PartialEq, Eq, Structural)]
pub struct SolverParams {
    /// Weight of the smoothness term.
    pub alpha: Fraction,
    /// Downsampling ratio between two pyramid levels.
    pub ratio: Fraction,
    /// No pyramid level beyond the first is narrower than this.
    pub min_width: i32,
    pub outer_iters: i32,
    pub inner_iters: i32,
    pub sor_iters: i32,
    pub color: ColorMode,
}

impl SolverParams {
    pub open spec fn valid(self) -> bool {
        &&& self.alpha.is_positive()
        &&& self.ratio.is_proper()
        &&& self.min_width >= 1
        &&& self.outer_iters >= 1
        &&& self.inner_iters >= 1
        &&& self.sor_iters >= 1
    }

    /// Checks every tuning parameter against its range.
    pub fn validate(&self) -> (r: Result<(), FlowError>)
        ensures
            r is Ok <==> self.valid(),
            r is Err ==> r == Err::<(), FlowError>(FlowError::InvalidParameters),
    {
        if self.alpha.den == 0 || self.alpha.num == 0 || self.ratio.num == 0 || self.ratio.num
            >= self.ratio.den || self.min_width < 1 || self.outer_iters < 1 || self.inner_iters < 1
            || self.sor_iters < 1 {
            Err(FlowError::InvalidParameters)
        } else {
            Ok(())
        }
    }
}

} // verus!

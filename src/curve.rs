use vstd::prelude::*;

verus! {

/// A radius of curvature, in millimetres.
#[derive(Clone, Copy, Debug, PartialEq, Eq, Structural)]
pub struct Radius {
    pub mm: u32,
}

/// Why a curve's parameters were refused.
#[derive(Clone, Copy, Debug, PartialEq, Eq, Structural)]
pub enum CurveError {
    /// A radius was zero, negative, or beyond what 32 bits of millimetres hold.
    InvalidRadius,
    /// The curvature law code is not one of the known codes.
    InvalidCurvatureLaw,
    /// The curve's length was missing, not positive, or beyond what 32 bits
    /// of millimetres hold.
    InvalidLength,
    /// A stretch of stationing was asked for whose start lies after its end.
    InvalidInterval,
}

impl CurveError {
    /// A message for the user.
    pub fn message(&self) -> (r: &'static str) {
        match self {
            CurveError::InvalidRadius => "the radius must be a positive length",
            CurveError::InvalidCurvatureLaw => "the curvature law code must be 1 (sine) or 2 (linear)",
            CurveError::InvalidLength => "the curve length must be given and positive",
            CurveError::InvalidInterval => "the stretch must not end before it starts",
        }
    }
}

/// A value in millimetres that is positive and fits in 32 bits.
pub open spec fn valid_mm(v: int) -> bool {
    0 < v <= u32::MAX
}

impl Radius {
    /// The radius is positive.
    pub open spec fn wf(self) -> bool {
        self.mm > 0
    }

    /// A radius of `mm` millimetres; refused unless it is positive and fits
    /// in 32 bits.
    pub fn new(mm: i64) -> (r: Result<Radius, CurveError>)
        ensures
            valid_mm(mm as int) ==> r == Ok::<Radius, CurveError>(Radius { mm: mm as u32 }),
            !valid_mm(mm as int) ==> r == Err::<Radius, CurveError>(CurveError::InvalidRadius),
    {
        if mm <= 0 || mm > u32::MAX as i64 {
            Err(CurveError::InvalidRadius)
        } else {
            Ok(Radius { mm: mm as u32 })
        }
    }
}

/// The curvature at one end of a transition curve.
#[derive(Clone, Copy, Debug, PartialEq, Eq, Structural)]
pub enum Curvature {
    /// No curvature.
    Straight,
    /// The constant curvature of a circle of this radius.
    Circular(Radius),
}

/// A curvature as a fraction `(numerator, denominator)` in 1/mm.
pub open spec fn curvature_value(c: Curvature) -> (int, int) {
    match c {
        Curvature::Straight => (0, 1),
        Curvature::Circular(r) => (1, r.mm as int),
    }
}

impl Curvature {
    /// A circular curvature has a valid radius.
    pub open spec fn wf(self) -> bool {
        match self {
            Curvature::Straight => true,
            Curvature::Circular(r) => r.wf(),
        }
    }

    /// The radius, or `None` for a straight.
    pub fn r(&self) -> (r: Option<Radius>)
        ensures
            r == (match *self {
                Curvature::Straight => None,
                Curvature::Circular(rad) => Some(rad),
            }),
    {
        match self {
            Curvature::Straight => None,
            Curvature::Circular(rad) => Some(*rad),
        }
    }

    /// Whether this is the curvature of a straight.
    pub fn is_straight(&self) -> (r: bool)
        ensures
            r == (*self is Straight),
    {
        match self {
            Curvature::Straight => true,
            Curvature::Circular(_) => false,
        }
    }
}

/// How curvature changes along a transition curve.
#[derive(Clone, Copy, Debug, PartialEq, Eq, Structural)]
pub enum Diminish {
    /// Curvature follows a half cosine wave, flat at both ends.
    Sine,
    /// Curvature changes at a constant rate (a clothoid).
    Linear,
}

/// The curvature law that a code names: 1 for sine, 2 for linear.
pub open spec fn law_of_code(code: int) -> Option<Diminish> {
    if code == 1 {
        Some(Diminish::Sine)
    } else if code == 2 {
        Some(Diminish::Linear)
    } else {
        None
    }
}

impl Diminish {
    /// The law that `code` names; refused for any other code.
    pub fn from_code(code: i64) -> (r: Result<Diminish, CurveError>)
        ensures
            law_of_code(code as int) matches Some(d) ==> r == Ok::<Diminish, CurveError>(d),
            law_of_code(code as int) is None ==> r == Err::<Diminish, CurveError>(
                CurveError::InvalidCurvatureLaw,
            ),
    {
        if code == 1 {
            Ok(Diminish::Sine)
        } else if code == 2 {
            Ok(Diminish::Linear)
        } else {
            Err(CurveError::InvalidCurvatureLaw)
        }
    }
}

/// The parameters of one transition curve.
#[derive(Clone, Copy, Debug, PartialEq, Eq, Structural)]
pub struct Param {
    /// How curvature changes along the curve.
    pub diminish: Diminish,
    /// The curvature where the curve starts.
    pub k0: Curvature,
    /// The curvature where the curve ends.
    pub k1: Curvature,
    /// The curve's length in millimetres.
    pub tcl: u32,
}

/// The curvature that an optional radius gives: none means a straight.
pub open spec fn curvature_of_radius(r: Option<i64>) -> Option<Curvature> {
    match r {
        None => Some(Curvature::Straight),
        Some(v) => if valid_mm(v as int) {
            Some(Curvature::Circular(Radius { mm: v as u32 }))
        } else {
            None
        },
    }
}

/// What `Param::new` makes of its inputs; the law code is checked first, then
/// the entry radius, the exit radius and the length.
pub open spec fn param_of(code: i64, r0: Option<i64>, r1: Option<i64>, tcl: Option<i64>) -> Result<
    Param,
    CurveError,
> {
    if law_of_code(code as int) is None {
        Err(CurveError::InvalidCurvatureLaw)
    } else if curvature_of_radius(r0) is None || curvature_of_radius(r1) is None {
        Err(CurveError::InvalidRadius)
    } else if tcl is None || !valid_mm(tcl.unwrap() as int) {
        Err(CurveError::InvalidLength)
    } else {
        Ok(
            Param {
                diminish: law_of_code(code as int).unwrap(),
                k0: curvature_of_radius(r0).unwrap(),
                k1: curvature_of_radius(r1).unwrap(),
                tcl: tcl.unwrap() as u32,
            },
        )
    }
}

fn curvature_from(r: Option<i64>) -> (c: Result<Curvature, CurveError>)
    ensures
        curvature_of_radius(r) matches Some(k) ==> c == Ok::<Curvature, CurveError>(k),
        curvature_of_radius(r) is None ==> c == Err::<Curvature, CurveError>(
            CurveError::InvalidRadius,
        ),
{
    match r {
        None => Ok(Curvature::Straight),
        Some(v) => match Radius::new(v) {
            Ok(rad) => Ok(Curvature::Circular(rad)),
            Err(e) => Err(e),
        },
    }
}

impl Param {
    /// The radii are valid and the length is positive.
    pub open spec fn wf(self) -> bool {
        self.k0.wf() && self.k1.wf() && self.tcl > 0
    }

    /// Checks the raw inputs of a curve: the law `code`, the entry and exit
    /// radii in millimetres (none for a straight) and the length in
    /// millimetres.
    pub fn new(code: i64, r0: Option<i64>, r1: Option<i64>, tcl: Option<i64>) -> (r: Result<
        Param,
        CurveError,
    >)
        ensures
            r == param_of(code, r0, r1, tcl),
            r matches Ok(p) ==> p.wf(),
    {
        let diminish = match Diminish::from_code(code) {
            Ok(d) => d,
            Err(e) => return Err(e),
        };
        let k0 = match curvature_from(r0) {
            Ok(k) => k,
            Err(e) => return Err(e),
        };
        let k1 = match curvature_from(r1) {
            Ok(k) => k,
            Err(e) => return Err(e),
        };
        match tcl {
            Some(v) if 0 < v && v <= u32::MAX as i64 => Ok(Param { diminish, k0, k1, tcl: v as u32 }),
            _ => Err(CurveError::InvalidLength),
        }
    }
}

} // verus!

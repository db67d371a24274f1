use vstd::prelude::*;

verus! {

/// Failures of the builder.
#[derive(Debug, Clone, Copy, PartialEq, Eq)]
pub enum BuilderError {
    /// `build` was called before a bus handle was supplied.
    NoI2cConnected,
    /// The initialization sequence failed on the bus while building.
    InitFailed,
}

/// Failures of the driver, generic over the error the bus reports.
#[derive(Debug)]
pub enum Sh1107gError<I2cE> {
    /// A construction-time failure.
    Builder(BuilderError),
    /// A frame, control byte included, would exceed the staging buffer.
    PayloadOverflow,
    /// The bus reported a failed transaction.
    I2cError(I2cE),
}

impl<I2cE> From<I2cE> for Sh1107gError<I2cE> {
    /// Wraps a raw bus error.
    fn from(e: I2cE) -> (r: Self)
        ensures
            r == Sh1107gError::<I2cE>::I2cError(e),
    {
        Sh1107gError::I2cError(e)
    }
}

impl<I2cE> vstd::std_specs::convert::FromSpecImpl<I2cE> for Sh1107gError<I2cE> {
    open spec fn obeys_from_spec() -> bool {
        true
    }

    open spec fn from_spec(e: I2cE) -> Self {
        Sh1107gError::I2cError(e)
    }
}

} // verus!

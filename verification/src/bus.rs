use vstd::prelude::*;

verus! {

/// The two-wire bus port the driver writes through.
///
/// Callers of the driver supply the implementation, typically an adapter
/// around a hardware abstraction layer's I2C handle; no implementation
/// lives in this crate, so nothing here checks one. The ghost `writes`
/// history is the abstraction an implementation is expected to maintain:
/// every call of `bus_write` is one attempted transaction, appended to the
/// history whether the bus accepts it or not. Everything this crate proves
/// about wire traffic is stated over that history.
pub trait I2cBus {
    /// The error type the bus reports for a failed transaction.
    type BusError;

    /// The transactions attempted so far: for each, the target address and
    /// the bytes handed to the bus, oldest first. Ghost: an implementation
    /// written outside the verifier inherits the default and need not
    /// mention it.
    open spec fn writes(&self) -> Seq<(u8, Seq<u8>)> {
        Seq::empty()
    }

    /// One atomic bus transaction: all of `bytes` to `address`, or an error.
    fn bus_write(&mut self, address: u8, bytes: &[u8]) -> (r: Result<(), Self::BusError>)
        ensures
            final(self).writes() == old(self).writes().push((address, bytes@)),
    ;
}

} // verus!

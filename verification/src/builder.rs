use vstd::prelude::*;

use crate::bus::I2cBus;
use crate::error::BuilderError;
use crate::framer::sent;
use crate::session::init_wire;
use crate::Sh1107g;
use crate::BUFFER_SIZE;

verus! {

/// Collects the configuration of a session: the bus handle, the bus
/// address, and whether to clear the framebuffer again after
/// construction. `build` validates the configuration all at once.
pub struct Sh1107gBuilder<B> {
    /// The bus handle, once one has been connected.
    pub i2c: Option<B>,
    /// The bus address the session will write to.
    pub address: u8,
    /// Whether `build` clears the framebuffer after constructing it.
    pub clear_on_init: bool,
}

impl<B: I2cBus> Sh1107gBuilder<B> {
    /// A builder with no bus connected yet and the default address.
    pub fn new() -> (r: Self)
        ensures
            r.i2c is None,
            r.address == 0x3C,
            !r.clear_on_init,
    {
        Sh1107gBuilder { i2c: None, address: 0x3C, clear_on_init: false }
    }

    /// Connects the bus handle.
    pub fn connect_i2c(self, i2c: B) -> (r: Self)
        ensures
            r.i2c == Some(i2c),
            r.address == self.address,
            r.clear_on_init == self.clear_on_init,
    {
        Sh1107gBuilder { i2c: Some(i2c), address: self.address, clear_on_init: self.clear_on_init }
    }

    /// Configures the bus address.
    pub fn with_address(self, address: u8) -> (r: Self)
        ensures
            r.i2c == self.i2c,
            r.address == address,
            r.clear_on_init == self.clear_on_init,
    {
        Sh1107gBuilder { i2c: self.i2c, address, clear_on_init: self.clear_on_init }
    }

    /// Asks `build` to clear the framebuffer once more after construction.
    pub fn clear_on_init(self, enable: bool) -> (r: Self)
        ensures
            r.i2c == self.i2c,
            r.address == self.address,
            r.clear_on_init == enable,
    {
        Sh1107gBuilder { i2c: self.i2c, address: self.address, clear_on_init: enable }
    }

    /// Validates that a bus handle is present, constructs the session and
    /// runs the initialization sequence on it. All-or-nothing: without a
    /// bus nothing is built, and if initialization fails on the bus the
    /// partly initialized session is discarded, not handed out.
    pub fn build(self) -> (r: Result<Sh1107g<B>, BuilderError>)
        ensures
            self.i2c is None <==> r == Err::<Sh1107g<B>, BuilderError>(
                BuilderError::NoI2cConnected,
            ),
            self.i2c is Some && r is Err ==> r == Err::<Sh1107g<B>, BuilderError>(
                BuilderError::InitFailed,
            ),
            r matches Ok(d) ==> {
                &&& d.wf()
                &&& d.addr() == self.address
                &&& d.buf() == Seq::new(BUFFER_SIZE as nat, |i: int| 0u8)
                &&& forall|x: int, y: int|
                    crate::in_bounds(x, y) ==> !#[trigger] crate::pixel_on(d.buf(), x, y)
                &&& d.log() == self.i2c->0.writes() + sent(self.address, init_wire())
            },
    {
        let i2c = match self.i2c {
            Some(b) => b,
            None => {
                return Err(BuilderError::NoI2cConnected);
            },
        };
        let mut display = Sh1107g::new(i2c, self.address);
        if self.clear_on_init {
            display.clear_buffer();
        }
        match display.init() {
            Ok(()) => Ok(display),
            Err(_) => Err(BuilderError::InitFailed),
        }
    }
}

} // verus!

//! The port writes that drive a serial port.
//!
//! The architecture code performs the writes on the I/O ports.

use vstd::prelude::*;

verus! {

/// Represents a serial port that can be read from and written to.
#[derive(Clone, Copy, Debug, PartialEq, Eq, Structural)]
pub struct SerialPort {
    /// The I/O port that the serial port is located at.
    pub port: u16,
}

/// A write of a byte to an I/O port.
#[derive(Clone, Copy, Debug, PartialEq, Eq, Structural)]
pub struct PortWrite {
    /// The I/O port.
    pub port: u16,
    /// The byte written.
    pub value: u8,
}

/// The port writes that initialize a serial port at `port`: 38400 baud,
/// 8 bits, no parity, one stop bit, FIFO enabled.
pub open spec fn spec_init_writes(port: u16) -> Seq<PortWrite> {
    seq![
        PortWrite { port: (port + 1) as u16, value: 0x00 },
        PortWrite { port: (port + 3) as u16, value: 0x80 },
        PortWrite { port: port, value: 0x03 },
        PortWrite { port: (port + 1) as u16, value: 0x00 },
        PortWrite { port: (port + 3) as u16, value: 0x03 },
        PortWrite { port: (port + 2) as u16, value: 0xC7 },
        PortWrite { port: (port + 4) as u16, value: 0x0B },
    ]
}

/// The serial port is set up as 16550 UARTs expect: interrupts off, the
/// divisor latch opened and the divisor 3 (38400 baud) written, the line set
/// to 8 data bits, no parity and one stop bit (which closes the latch),
/// the FIFOs enabled and cleared with a 14 byte threshold, and the modem
/// control lines and interrupts enabled.
pub proof fn lemma_serial_init_values(port: u16)
    requires
        port + 4 <= u16::MAX,
    ensures
        spec_init_writes(port).len() == 7,
        spec_init_writes(port)[0] == (PortWrite { port: (port + 1) as u16, value: 0 }),
        spec_init_writes(port)[1] == (PortWrite { port: (port + 3) as u16, value: 0x80 }),
        spec_init_writes(port)[2] == (PortWrite { port: port, value: 3 }),
        spec_init_writes(port)[3] == (PortWrite { port: (port + 1) as u16, value: 0 }),
        spec_init_writes(port)[4] == (PortWrite { port: (port + 3) as u16, value: 3 }),
        spec_init_writes(port)[5] == (PortWrite { port: (port + 2) as u16, value: 0xc7 }),
        spec_init_writes(port)[6] == (PortWrite { port: (port + 4) as u16, value: 0x0b }),
{
}

impl SerialPort {
    /// Creates a new serial port.
    pub fn new(port: u16) -> (r: SerialPort)
        ensures
            r.port == port,
    {
        SerialPort { port }
    }

    /// Returns the port writes that initialize the serial port, in order:
    /// interrupts off, the baud rate divisor 3, the line format, the FIFO,
    /// and the modem control.
    pub fn init_writes(&self) -> (r: Vec<PortWrite>)
        requires
            self.port + 5 <= u16::MAX,
        ensures
            r@ == spec_init_writes(self.port),
    {
        let mut writes: Vec<PortWrite> = Vec::new();
        writes.push(PortWrite { port: self.port + 1, value: 0x00 });
        writes.push(PortWrite { port: self.port + 3, value: 0x80 });
        writes.push(PortWrite { port: self.port + 0, value: 0x03 });
        writes.push(PortWrite { port: self.port + 1, value: 0x00 });
        writes.push(PortWrite { port: self.port + 3, value: 0x03 });
        writes.push(PortWrite { port: self.port + 2, value: 0xC7 });
        writes.push(PortWrite { port: self.port + 4, value: 0x0B });
        assert(writes@ =~= spec_init_writes(self.port));
        writes
    }

    /// The port whose status byte tells whether a transmission finished.
    pub fn status_port(&self) -> (r: u16)
        requires
            self.port + 5 <= u16::MAX,
        ensures
            r == self.port + 5,
    {
        self.port + 5
    }

    /// Checks, from the line status byte, if the last transmission is fully
    /// finished: bit 5, "transmitter holding register empty", is set.
    pub fn transmission_ready(&self, status: u8) -> (r: bool)
        ensures
            r == (status & 0x20 != 0),
    {
        status & 0x20 != 0
    }
}

} // verus!

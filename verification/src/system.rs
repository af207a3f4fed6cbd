//! The portable half of the x86-64 subsystem: it owns the console and decides
//! where each write goes. What it cannot do itself, talking to the serial
//! port, it hands back to its caller as a [`Route`].

use crate::console::{Console, ConsoleState};
use crate::drivers::framebuffer::Pixel;
use vstd::prelude::*;

verus! {

/// The colour of console text: white.
pub open spec fn text_colour() -> Pixel {
    Pixel { b: 0xFF, g: 0xFF, r: 0xFF, channel: 0 }
}

/// The colour behind console text: teal.
pub open spec fn background_colour() -> Pixel {
    Pixel { b: 0x80, g: 0x80, r: 0, channel: 0 }
}

/// The name of the serial destination.
pub open spec fn serial_name() -> Seq<char> {
    seq!['s', 'e', 'r', 'i', 'a', 'l']
}

/// The name of the console destination.
pub open spec fn console_name() -> Seq<char> {
    seq!['v', 'g', 'a', '_', 'c', 'o', 'n', 's', 'o', 'l', 'e']
}

/// Where a write went.
#[derive(Debug, Clone, Copy, PartialEq, Eq, Structural)]
pub enum Route {
    /// To the serial port: the caller sends the data there.
    Serial,
    /// To the console, which has drawn it.
    Console,
    /// Nowhere: the destination is unknown, or no console is attached.
    Dropped,
}

/// The route of a write to `dest`, given whether a console is attached.
pub open spec fn route_of(dest: Seq<char>, attached: bool) -> Route {
    if dest == serial_name() {
        Route::Serial
    } else if dest == console_name() && attached {
        Route::Console
    } else {
        Route::Dropped
    }
}

/// Whether two strings hold the same characters.
pub fn same_text(a: &str, b: &str) -> (same: bool)
    ensures
        same == (a@ == b@),
{
    let n = a.unicode_len();
    if n != b.unicode_len() {
        return false;
    }
    let mut i: usize = 0;
    while i < n
        invariant
            n == a@.len(),
            n == b@.len(),
            i <= n,
            forall|j: int| 0 <= j < i ==> a@[j] == b@[j],
        decreases n - i,
    {
        if a.get_char(i) != b.get_char(i) {
            return false;
        }
        i += 1;
    }
    assert(a@ =~= b@);
    true
}

/// The subsystem of an x86-64 machine, as far as it can be told apart from
/// the hardware: the console that may be attached to it.
#[allow(non_camel_case_types)]
#[derive(Debug)]
pub struct X86_64SubSystem {
    console: Option<Console>,
}

impl View for X86_64SubSystem {
    type V = Option<ConsoleState>;

    closed spec fn view(&self) -> Option<ConsoleState> {
        match self.console {
            Some(console) => Some(console@),
            None => None,
        }
    }
}

impl X86_64SubSystem {
    /// A subsystem without a console.
    pub fn new() -> (system: Self)
        ensures
            system@ is None,
    {
        X86_64SubSystem { console: None }
    }

    /// Decides where a write goes, and does the part of it that needs no
    /// hardware. `"serial"` is left to the caller, who owns the serial port;
    /// `"vga_console"` is written to the attached console in white on teal,
    /// and dropped when there is none; any other destination is dropped.
    pub fn write(&mut self, dest: &str, data: &str) -> (route: Route)
        ensures
            route == route_of(dest@, old(self)@ is Some),
            final(self)@ == match route {
                Route::Console => Some(
                    old(self)@->0.write(data@, text_colour(), background_colour()),
                ),
                _ => old(self)@,
            },
    {
        proof {
            reveal_strlit("serial");
            reveal_strlit("vga_console");
            assert("serial"@ =~= serial_name());
            assert("vga_console"@ =~= console_name());
        }
        if same_text(dest, "serial") {
            return Route::Serial;
        }
        if same_text(dest, "vga_console") {
            let text_colour = Pixel { b: 0xFF, g: 0xFF, r: 0xFF, channel: 0 };
            let background_colour = Pixel { b: 0x80, g: 0x80, r: 0, channel: 0 };
            match self.console.as_mut() {
                Some(console) => {
                    console.write_str(data, text_colour, background_colour);
                    return Route::Console;
                },
                None => {},
            }
        }
        Route::Dropped
    }

    /// Attaches `console`, or detaches the console there is.
    pub fn set_console(&mut self, console: Option<Console>)
        ensures
            final(self)@ == match console {
                Some(attached) => Some(attached@),
                None => None,
            },
    {
        self.console = console;
    }

    /// The attached console, if there is one.
    pub fn get_console(&mut self) -> (found: Option<&mut Console>)
        ensures
            match found {
                Some(console) => {
                    &&& old(self)@ == Some(console@)
                    &&& final(self)@ == Some(final(console)@)
                },
                None => old(self)@ is None && final(self)@ is None,
            },
    {
        self.console.as_mut()
    }

    /// Detaches the console and hands it over.
    pub fn take_console(&mut self) -> (taken: Option<Console>)
        ensures
            final(self)@ is None,
            match taken {
                Some(console) => old(self)@ == Some(console@),
                None => old(self)@ is None,
            },
    {
        self.console.take()
    }
}

} // verus!

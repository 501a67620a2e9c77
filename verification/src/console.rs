//! The console dispatcher and the serial text sink.
//!
//! The dispatcher forwards the same text independently to the VGA sink and
//! to the serial sink, whichever of the two are present; the absence of a
//! sink is a no-op for that sink, never an error. The serial sink collects
//! the text it is handed; the surrounding program drains the collected text
//! and puts it on the wire, and disables the sink for the rest of the
//! session should its transport fail.

use crate::vga::ConsoleView;
use crate::vga::VgaConsole;
use crate::vga::lemma_write_str_view_concat;
use vstd::prelude::*;

verus! {

/// The serial port used as a text output device: the platform port index
/// and the text handed to the sink and not yet put on the wire.
pub struct SerialConsole {
    pub port: u8,
    pub pending: String,
}

impl SerialConsole {
    /// A sink for the given platform serial port, with nothing pending.
    pub fn new(port: u8) -> (r: SerialConsole)
        ensures
            r.port == port,
            r.pending@ == Seq::<char>::empty(),
    {
        let r = SerialConsole { port, pending: String::new() };
        proof {
            assert(r.pending@ =~= Seq::<char>::empty());
        }
        r
    }

    /// Queues text for the wire.
    pub fn write_str(&mut self, data: &str)
        ensures
            final(self).port == old(self).port,
            final(self).pending@ == old(self).pending@ + data@,
    {
        self.pending.append(data);
    }

    /// Hands the queued text over and leaves the sink empty.
    pub fn take_pending(&mut self) -> (r: String)
        ensures
            final(self).port == old(self).port,
            final(self).pending@ == Seq::<char>::empty(),
            r@ == old(self).pending@,
    {
        let mut out: String = String::new();
        core::mem::swap(&mut out, &mut self.pending);
        proof {
            assert(self.pending@ =~= Seq::<char>::empty());
        }
        out
    }
}

/// The console dispatcher: at most one VGA sink and at most one serial
/// sink, each optional.
pub struct Console {
    pub vga: Option<VgaConsole>,
    pub serial: Option<SerialConsole>,
}

impl Console {
    /// The dispatcher invariant: a present VGA sink is well formed.
    pub open spec fn wf(&self) -> bool {
        self.vga matches Option::Some(v) ==> v.wf()
    }

    /// A dispatcher over the given sinks.
    pub fn new(vga: Option<VgaConsole>, serial: Option<SerialConsole>) -> (r: Console)
        requires
            vga matches Option::Some(v) ==> v.wf(),
        ensures
            r.wf(),
            r.vga == vga,
            r.serial == serial,
    {
        Console { vga, serial }
    }

    /// Forwards the text to the VGA sink and then to the serial sink,
    /// independently; a missing sink is skipped.
    pub fn print(&mut self, text: &str)
        requires
            old(self).wf(),
        ensures
            final(self).wf(),
            (match old(self).vga {
                Option::Some(v) => final(self).vga matches Option::Some(v2) && v2@
                    == v@.write_str_view(text@),
                Option::None => final(self).vga matches Option::None,
            }),
            (match old(self).serial {
                Option::Some(s) => final(self).serial matches Option::Some(s2) && s2.port == s.port
                    && s2.pending@ == s.pending@ + text@,
                Option::None => final(self).serial matches Option::None,
            }),
    {
        let mut vga_slot: Option<VgaConsole> = Option::None;
        core::mem::swap(&mut vga_slot, &mut self.vga);
        match vga_slot {
            Option::Some(mut v) => {
                v.write_str(text);
                self.vga = Option::Some(v);
            },
            Option::None => {},
        }
        let mut serial_slot: Option<SerialConsole> = Option::None;
        core::mem::swap(&mut serial_slot, &mut self.serial);
        match serial_slot {
            Option::Some(mut s) => {
                s.write_str(text);
                self.serial = Option::Some(s);
            },
            Option::None => {},
        }
    }

    /// Forwards the text and then a newline to both sinks.
    pub fn println(&mut self, text: &str)
        requires
            old(self).wf(),
        ensures
            final(self).wf(),
            (match old(self).vga {
                Option::Some(v) => final(self).vga matches Option::Some(v2) && v2@
                    == v@.write_str_view(text@ + seq!['\n']),
                Option::None => final(self).vga matches Option::None,
            }),
            (match old(self).serial {
                Option::Some(s) => final(self).serial matches Option::Some(s2) && s2.port == s.port
                    && s2.pending@ == s.pending@ + text@ + seq!['\n'],
                Option::None => final(self).serial matches Option::None,
            }),
    {
        self.print(text);
        self.print("\n");
        proof {
            reveal_strlit("\n");
            assert("\n"@ =~= seq!['\n']);
            if old(self).vga is Some {
                lemma_write_str_view_concat(old(self).vga.unwrap()@, text@, seq!['\n']);
            }
        }
    }

    /// Drains the serial sink's queued text for the wire, where a serial
    /// sink is present.
    pub fn take_serial_output(&mut self) -> (r: Option<String>)
        ensures
            final(self).vga == old(self).vga,
            (match old(self).serial {
                Option::Some(s) => (final(self).serial matches Option::Some(s2) && s2.port
                    == s.port && s2.pending@ == Seq::<char>::empty()) && (r matches Option::Some(
                    out,
                ) && out@ == s.pending@),
                Option::None => (final(self).serial matches Option::None) && (r
                    matches Option::None),
            }),
    {
        let mut serial_slot: Option<SerialConsole> = Option::None;
        core::mem::swap(&mut serial_slot, &mut self.serial);
        match serial_slot {
            Option::Some(mut s) => {
                let out = s.take_pending();
                self.serial = Option::Some(s);
                Option::Some(out)
            },
            Option::None => Option::None,
        }
    }

    /// Drops the serial sink for the rest of the session; the policy when
    /// its transport fails.
    pub fn disable_serial(&mut self)
        ensures
            final(self).vga == old(self).vga,
            final(self).serial matches Option::None,
    {
        self.serial = Option::None;
    }
}

} // verus!

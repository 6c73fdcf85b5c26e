//! A network port number and a stand-in device gateway.

use vstd::prelude::*;

use crate::text::{decimal, push_char, write_decimal};

verus! {

/// A port number.
pub struct Port(pub u16);

impl Port {
    /// The port number.
    pub fn get(self) -> (r: u16)
        ensures
            r == self.0,
    {
        self.0
    }

    /// The port as text: `port:` and its decimal number.
    pub fn to_text(&self) -> (r: String)
        ensures
            r@ == seq!['p', 'o', 'r', 't', ':'] + decimal(self.0 as nat),
    {
        let mut s = String::new();
        push_char(&mut s, 'p');
        push_char(&mut s, 'o');
        push_char(&mut s, 'r');
        push_char(&mut s, 't');
        push_char(&mut s, ':');
        write_decimal(&mut s, self.0 as u64);
        assert(s@ =~= seq!['p', 'o', 'r', 't', ':'] + decimal(self.0 as nat));
        s
    }
}

/// A gateway that stands in for a device with the given id.
pub struct MockGateway {
    pub device_id: u32,
}

impl MockGateway {
    /// Connects to the device: its id, or the error `invalid device` for
    /// the id 0.
    pub fn connect(&self) -> (r: Result<u32, &'static str>)
        ensures
            self.device_id == 0 ==> r == Err::<u32, &'static str>("invalid device"),
            self.device_id != 0 ==> r == Ok::<u32, &'static str>(self.device_id),
    {
        if self.device_id == 0 {
            return Err("invalid device");
        }
        Ok(self.device_id)
    }
}

} // verus!

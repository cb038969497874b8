//! Keeping the screen on while the application runs.
use vstd::prelude::*;

verus! {

/// What the application remembers: the cookie of its request to keep the screen
/// on, or zero where there is none.
#[derive(Clone, Copy, Debug)]
pub struct SpeedometerApplication {
    pub inhibit_cookie: u32,
}

/// A request to keep the device awake: whether it must not be suspended, and
/// whether its screen must not go blank.
#[derive(Clone, Copy, Debug)]
pub struct Inhibition {
    pub suspend: bool,
    pub idle: bool,
}

impl SpeedometerApplication {
    /// What an activation requests: both, where no request is in force.
    pub open spec fn request(self) -> Option<Inhibition> {
        if self.inhibit_cookie == 0 {
            Some(Inhibition { suspend: true, idle: true })
        } else {
            None
        }
    }

    /// What an activation makes of the application, with the answer that its
    /// request gets, if it makes one.
    pub open spec fn after_activation(self, answer: u32) -> SpeedometerApplication {
        if self.request() is Some {
            SpeedometerApplication { inhibit_cookie: answer }
        } else {
            self
        }
    }

    /// The cookie that a shutdown hands back.
    pub open spec fn released(self) -> Option<u32> {
        if self.inhibit_cookie != 0 {
            Some(self.inhibit_cookie)
        } else {
            None
        }
    }

    pub open spec fn after_shutdown(self) -> SpeedometerApplication {
        SpeedometerApplication { inhibit_cookie: 0 }
    }

    pub fn new() -> (r: SpeedometerApplication)
        ensures
            r.inhibit_cookie == 0,
    {
        SpeedometerApplication { inhibit_cookie: 0 }
    }

    /// What an activation has to request so that the screen stays on. The answer
    /// goes to [`inhibited`](SpeedometerApplication::inhibited).
    pub fn activate(&self) -> (r: Option<Inhibition>)
        ensures
            r == self.request(),
    {
        if self.inhibit_cookie == 0 {
            Some(Inhibition { suspend: true, idle: true })
        } else {
            None
        }
    }

    /// Takes in the cookie that the request was answered with. Zero means that
    /// the request was refused, so that the next activation tries again.
    pub fn inhibited(&mut self, cookie: u32)
        ensures
            *final(self) == (SpeedometerApplication { inhibit_cookie: cookie }),
            old(self).request() is Some ==> *final(self) == old(self).after_activation(cookie),
    {
        self.inhibit_cookie = cookie;
    }

    /// Ends the request, where there is one: returns its cookie and forgets it.
    pub fn shutdown(&mut self) -> (r: Option<u32>)
        ensures
            r == old(self).released(),
            *final(self) == old(self).after_shutdown(),
    {
        let cookie: u32 = self.inhibit_cookie;
        if cookie != 0 {
            self.inhibit_cookie = 0;
            Some(cookie)
        } else {
            None
        }
    }
}

} // verus!

//! Permissions to receive and to send, which open once and close for good.
use vstd::prelude::*;

verus! {

#[derive(Clone, Copy, Debug, PartialEq, Eq, Structural)]
pub enum Gate {
    Disabled,
    Enabled,
    Stopped,
}

impl Gate {
    pub open spec fn enabled(self) -> Gate {
        if self is Disabled {
            Gate::Enabled
        } else {
            self
        }
    }
}

#[derive(Clone, Copy, Debug, PartialEq, Eq, Structural)]
pub struct Control {
    pub receiving: Gate,
    pub sending: Gate,
}

impl Control {
    pub fn new() -> (control: Control)
        ensures
            control == (Control { receiving: Gate::Disabled, sending: Gate::Disabled }),
    {
        Control { receiving: Gate::Disabled, sending: Gate::Disabled }
    }

    pub fn enable_receiving(&mut self)
        ensures
            *final(self) == (Control { receiving: old(self).receiving.enabled(), ..*old(self) }),
    {
        if let Gate::Disabled = self.receiving {
            self.receiving = Gate::Enabled;
        }
    }

    pub fn enable_sending(&mut self)
        ensures
            *final(self) == (Control { sending: old(self).sending.enabled(), ..*old(self) }),
    {
        if let Gate::Disabled = self.sending {
            self.sending = Gate::Enabled;
        }
    }

    pub fn stop_receiving(&mut self)
        ensures
            *final(self) == (Control { receiving: Gate::Stopped, ..*old(self) }),
    {
        self.receiving = Gate::Stopped;
    }

    pub fn stop_sending(&mut self)
        ensures
            *final(self) == (Control { sending: Gate::Stopped, ..*old(self) }),
    {
        self.sending = Gate::Stopped;
    }

    /// Stops both for good.
    pub fn retire(&mut self)
        ensures
            *final(self) == (Control { receiving: Gate::Stopped, sending: Gate::Stopped }),
    {
        self.receiving = Gate::Stopped;
        self.sending = Gate::Stopped;
    }

    pub fn can_receive(&self) -> (can: bool)
        ensures
            can == (self.receiving is Enabled),
    {
        self.receiving == Gate::Enabled
    }

    pub fn can_send(&self) -> (can: bool)
        ensures
            can == (self.sending is Enabled),
    {
        self.sending == Gate::Enabled
    }

    pub fn sending_stopped(&self) -> (stopped: bool)
        ensures
            stopped == (self.sending is Stopped),
    {
        self.sending == Gate::Stopped
    }

    /// Whether receiving is permitted; nothing while that is still open.
    pub fn poll_receiving(&self) -> (answer: Option<bool>)
        ensures
            answer == match self.receiving {
                Gate::Enabled => Some(true),
                Gate::Stopped => Some(false),
                Gate::Disabled => None,
            },
    {
        match self.receiving {
            Gate::Enabled => Some(true),
            Gate::Stopped => Some(false),
            Gate::Disabled => None,
        }
    }
}

/// A gate that is stopped stays so, whatever is enabled.
pub proof fn stopped_gate_cannot_reopen(gate: Gate)
    requires
        gate is Stopped,
    ensures
        gate.enabled() is Stopped,
{
}

/// A gate opens once: enabling opens it only while it was never stopped.
pub proof fn gate_opens_once(gate: Gate)
    ensures
        gate.enabled() is Enabled <==> !(gate is Stopped),
        gate.enabled() is Stopped <==> gate is Stopped,
        gate.enabled().enabled() == gate.enabled(),
{
}

} // verus!

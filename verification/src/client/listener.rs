use crate::config::ComputationPeriod;
use crate::config::Endpoint;
use vstd::prelude::*;

verus! {

/// What a request for the forwarder asks of the surroundings.
#[derive(Copy, Clone, Debug, PartialEq, Eq, Structural)]
pub enum WindowRequest {
    /// Start to listen for forwards, and let a computation period pass.
    Start,
    /// Nothing new: the forwarder listens, and will go on when the period is over.
    Extend,
}

/// What is to be done when a computation period is over.
#[derive(Copy, Clone, Debug, PartialEq, Eq, Structural)]
pub enum WindowTimeout {
    /// Go on listening, and let another computation period pass.
    Restart,
    /// Stop listening.
    Shutdown,
}

/// The forwarder of a participant: it takes forwards only for a computation period
/// after it was last asked for.
#[derive(Debug)]
pub struct ForwarderServer {
    pub(crate) address: Endpoint,
    pub(crate) timeout: ComputationPeriod,
    pub(crate) listening: bool,
    pub(crate) extended: bool,
}

impl ForwarderServer {
    /// Whether the forwarder takes forwards.
    pub open(crate) spec fn is_open(self) -> bool {
        self.listening
    }

    /// Whether the forwarder was asked for again since the running period began.
    pub open(crate) spec fn is_extended(self) -> bool {
        self.extended
    }

    /// Where the forwarder listens.
    pub open(crate) spec fn endpoint(self) -> Endpoint {
        self.address
    }

    /// The length of a computation period.
    pub open(crate) spec fn period(self) -> ComputationPeriod {
        self.timeout
    }

    /// A forwarder that does not listen yet.
    pub fn new(address: Endpoint, timeout: ComputationPeriod) -> (r: Self)
        ensures
            !r.is_open(),
            !r.is_extended(),
            r.endpoint() == address,
            r.period() == timeout,
    {
        ForwarderServer { address, timeout, listening: false, extended: false }
    }

    /// Asks for the forwarder: it starts to listen where it does not yet, and otherwise
    /// notes that it is to go on when the running period is over.
    pub fn request(&mut self) -> (r: WindowRequest)
        ensures
            final(self).is_open(),
            final(self).endpoint() == old(self).endpoint(),
            final(self).period() == old(self).period(),
            r == if old(self).is_open() {
                WindowRequest::Extend
            } else {
                WindowRequest::Start
            },
            final(self).is_extended() == old(self).is_open(),
    {
        if !self.listening {
            self.start();
            WindowRequest::Start
        } else {
            self.extend();
            WindowRequest::Extend
        }
    }

    fn start(&mut self)
        ensures
            final(self).is_open(),
            !final(self).is_extended(),
            final(self).endpoint() == old(self).endpoint(),
            final(self).period() == old(self).period(),
    {
        self.listening = true;
        self.extended = false;
    }

    fn extend(&mut self)
        ensures
            final(self).is_open() == old(self).is_open(),
            final(self).is_extended(),
            final(self).endpoint() == old(self).endpoint(),
            final(self).period() == old(self).period(),
    {
        self.extended = true;
    }

    /// A computation period is over: the forwarder goes on for another where it was
    /// asked for in the meantime, and stops otherwise.
    pub fn timeout(&mut self) -> (r: WindowTimeout)
        ensures
            final(self).endpoint() == old(self).endpoint(),
            final(self).period() == old(self).period(),
            !final(self).is_extended(),
            final(self).is_open() == (old(self).is_open() && old(self).is_extended()),
            r == if old(self).is_open() && old(self).is_extended() {
                WindowTimeout::Restart
            } else {
                WindowTimeout::Shutdown
            },
    {
        if self.listening && self.extended {
            self.extended = false;
            WindowTimeout::Restart
        } else {
            self.listening = false;
            self.extended = false;
            WindowTimeout::Shutdown
        }
    }

    /// Whether the forwarder takes forwards.
    pub fn is_listening(&self) -> (r: bool)
        ensures
            r == self.is_open(),
    {
        self.listening
    }

    /// Where the forwarder listens.
    pub fn address(&self) -> (r: Endpoint)
        ensures
            r == self.endpoint(),
    {
        self.address
    }

    /// The length of a computation period.
    pub fn computation_period(&self) -> (r: ComputationPeriod)
        ensures
            r == self.period(),
    {
        self.timeout
    }
}

} // verus!

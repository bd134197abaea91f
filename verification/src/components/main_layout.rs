use vstd::prelude::*;

verus! {

/// What the forms of the main layout report.
#[derive(Debug, Clone, PartialEq, Eq, Hash)]
pub enum Message {
    UpdatedName(String),
    UpdatedFirstWrap(String),
    UpdatedSecondWrap(String),
    ExitPopUp,
    ConfirmPopUp,
}

/// How long an error stays on the screen, in ticks.
pub const ERR_DURATION: u64 = 5;

/// The countdown of an error on the screen.
#[derive(Debug, Copy, Clone, PartialEq, Eq, Hash, Structural)]
pub struct Countdown {
    pub left: u64,
}

impl Countdown {
    /// A countdown that has run out.
    pub fn new() -> (countdown: Self)
        ensures
            countdown.left == 0,
    {
        Countdown { left: 0 }
    }

    /// Starts the countdown anew.
    pub fn error(&mut self)
        ensures
            final(self).left == ERR_DURATION,
    {
        self.left = ERR_DURATION;
    }

    /// One tick less, as long as any is left.
    pub fn tick(&mut self)
        ensures
            final(self).left == (if old(self).left > 0 {
                (old(self).left - 1) as u64
            } else {
                0
            }),
    {
        if self.left > 0 {
            self.left -= 1;
        }
    }

    /// Whether the error is still to be shown.
    pub fn is_running(&self) -> (b: bool)
        ensures
            b == (self.left > 0),
    {
        self.left > 0
    }
}

} // verus!

use vstd::prelude::*;

verus! {

/// A button that closes something: drawn as a cross or as an arrow, with
/// the message that a press sends, if any.
#[derive(Debug, PartialEq, Eq)]
pub struct CloseButton<Msg> {
    pub is_arrow: bool,
    pub on_press: Option<Msg>,
}

impl<Msg> CloseButton<Msg> {
    pub fn cross() -> (button: Self)
        ensures
            button == (CloseButton::<Msg> { is_arrow: false, on_press: None }),
    {
        CloseButton { is_arrow: false, on_press: None }
    }

    pub fn arrow() -> (button: Self)
        ensures
            button == (CloseButton::<Msg> { is_arrow: true, on_press: None }),
    {
        CloseButton { is_arrow: true, on_press: None }
    }

    pub fn on_press(self, on_press: Msg) -> (button: Self)
        ensures
            button == (CloseButton { is_arrow: self.is_arrow, on_press: Some(on_press) }),
    {
        CloseButton { is_arrow: self.is_arrow, on_press: Some(on_press) }
    }

    pub fn is_arrow(self, is_arrow: bool) -> (button: Self)
        ensures
            button == (CloseButton { is_arrow, on_press: self.on_press }),
    {
        CloseButton { is_arrow, on_press: self.on_press }
    }

    /// Where the picture of the button lies.
    pub fn resource(&self) -> (path: &'static str)
        ensures
            path@ == (if self.is_arrow {
                "res/img/arrow"@
            } else {
                "res/img/close"@
            }),
    {
        if self.is_arrow {
            "res/img/arrow"
        } else {
            "res/img/close"
        }
    }
}

} // verus!

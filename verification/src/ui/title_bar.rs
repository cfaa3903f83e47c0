use vstd::prelude::*;

verus! {

/// What the title bar asks of the window.
#[derive(Debug, Clone, Copy, PartialEq, Eq, Structural)]
pub enum TitleBarCommand {
    StartDrag,
    Close,
}

/// The window's own title bar: dragging it moves the window, and its close
/// button closes it.
#[derive(Debug, Clone, Copy, PartialEq, Eq, Structural)]
pub struct CustomTitleBar;

impl CustomTitleBar {
    /// The title shown in the bar.
    pub fn title() -> (r: &'static str)
        ensures
            r@ == "XOR-evfs"@,
    {
        "XOR-evfs"
    }

    /// What a frame of the bar asks of the window, in order: a drag starts a
    /// window drag, and the close button closes it.
    pub fn commands(dragged: bool, close_clicked: bool) -> (r: Vec<TitleBarCommand>)
        ensures
            r@ == (if dragged { seq![TitleBarCommand::StartDrag] } else { Seq::empty() }) + (if close_clicked {
                seq![TitleBarCommand::Close]
            } else {
                Seq::empty()
            }),
    {
        let mut v: Vec<TitleBarCommand> = Vec::new();
        if dragged {
            v.push(TitleBarCommand::StartDrag);
        }
        if close_clicked {
            v.push(TitleBarCommand::Close);
        }
        assert(v@ =~= (if dragged { seq![TitleBarCommand::StartDrag] } else { Seq::empty() }) + (if close_clicked {
            seq![TitleBarCommand::Close]
        } else {
            Seq::empty()
        }));
        v
    }
}

} // verus!

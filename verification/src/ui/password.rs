use vstd::prelude::*;
use crate::handler::zeroize_string;
use crate::ui::types::PasswordEvent;

verus! {

/// The password prompt: to open a vault or to encrypt a folder, editing the
/// password buffer.
pub struct PasswordModal<'a> {
    is_opening: bool,
    password_buffer: &'a mut String,
}

impl<'a> PasswordModal<'a> {
    /// The password buffer the prompt was lent.
    pub closed spec fn spec_buffer(&self) -> &'a mut String {
        self.password_buffer
    }

    /// Whether the prompt is for opening a vault.
    pub closed spec fn spec_opening(&self) -> bool {
        self.is_opening
    }

    /// A prompt for opening a vault or for encrypting a folder.
    pub fn new(is_opening: bool, password_buffer: &'a mut String) -> (r: Self)
        ensures
            r.spec_opening() == is_opening,
            *r.spec_buffer() == *old(password_buffer),
            *final(r.spec_buffer()) == *final(password_buffer),
    {
        PasswordModal { is_opening, password_buffer }
    }

    /// The title of the prompt.
    pub fn title(&self) -> (r: &'static str)
        ensures
            r@ == (if self.spec_opening() {
                "\u{1f510} Enter Password to Decrypt"@
            } else {
                "\u{1f512} Set Encryption Password"@
            }),
    {
        if self.is_opening {
            "\u{1f510} Enter Password to Decrypt"
        } else {
            "\u{1f512} Set Encryption Password"
        }
    }

    /// The buffer, to be edited while the prompt is drawn.
    pub fn into_buffer(self) -> (r: &'a mut String)
        ensures
            *r == *self.spec_buffer(),
            *final(r) == *final(self.spec_buffer()),
    {
        self.password_buffer
    }
}

/// What a frame of the password prompt decides, given its buffer: Cancel
/// clears the password and cancels; OK or Enter with a password hands it over
/// and empties the buffer; closing the window otherwise clears it and
/// cancels.
pub fn password_prompt_event(buffer: &mut String, cancel_clicked: bool, submit: bool, window_closed: bool) -> (r: Option<PasswordEvent>)
    ensures
        cancel_clicked ==> r == Some(PasswordEvent::Cancelled) && final(buffer)@.len() == 0,
        !cancel_clicked && submit && old(buffer)@.len() > 0 ==> (r matches Some(PasswordEvent::Submitted(p)) && p@ == old(buffer)@
            && final(buffer)@.len() == 0),
        !cancel_clicked && !(submit && old(buffer)@.len() > 0) && window_closed ==> r == Some(PasswordEvent::Cancelled) && final(buffer)@.len()
            == 0,
        !cancel_clicked && !(submit && old(buffer)@.len() > 0) && !window_closed ==> r is None && final(buffer)@ == old(buffer)@,
{
    if cancel_clicked {
        zeroize_string(buffer);
        return Some(PasswordEvent::Cancelled);
    }
    let chars = crate::paths::chars_of(buffer.as_str());
    if submit && chars.len() > 0 {
        let mut taken = String::new();
        std::mem::swap(&mut taken, buffer);
        return Some(PasswordEvent::Submitted(taken));
    }
    if window_closed {
        zeroize_string(buffer);
        return Some(PasswordEvent::Cancelled);
    }
    None
}

/// The password prompt shown while a save location or a vault to open is
/// pending.
pub struct PasswordPopup<'a> {
    should_show: bool,
    is_opening: bool,
    password_buffer: &'a mut String,
}

impl<'a> PasswordPopup<'a> {
    /// The password buffer the prompt was lent.
    pub closed spec fn spec_buffer(&self) -> &'a mut String {
        self.password_buffer
    }

    /// Whether the prompt shows.
    pub closed spec fn spec_should_show(&self) -> bool {
        self.should_show
    }

    /// Whether the prompt is for opening a vault.
    pub closed spec fn spec_opening(&self) -> bool {
        self.is_opening
    }

    /// The prompt shows when a save location or a vault to open is pending,
    /// and is for opening when a vault to open is.
    pub fn new(pending_save_path: Option<&String>, pending_open_path: Option<&String>, password_buffer: &'a mut String) -> (r: Self)
        ensures
            r.spec_should_show() == (pending_save_path is Some || pending_open_path is Some),
            r.spec_opening() == pending_open_path is Some,
            *r.spec_buffer() == *old(password_buffer),
            *final(r.spec_buffer()) == *final(password_buffer),
    {
        let should_show = pending_save_path.is_some() || pending_open_path.is_some();
        let is_opening = pending_open_path.is_some();
        PasswordPopup { should_show, is_opening, password_buffer }
    }

    /// The prompt to draw, if it shows.
    pub fn modal(self) -> (r: Option<PasswordModal<'a>>)
        ensures
            self.spec_should_show() ==> (r matches Some(m) && m.spec_opening() == self.spec_opening() && *m.spec_buffer() == *self.spec_buffer()
                && *final(m.spec_buffer()) == *final(self.spec_buffer())),
            !self.spec_should_show() ==> r is None,
    {
        if !self.should_show {
            return None;
        }
        Some(PasswordModal::new(self.is_opening, self.password_buffer))
    }
}

} // verus!

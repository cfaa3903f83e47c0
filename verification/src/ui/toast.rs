use vstd::prelude::*;

verus! {

/// The kind of a notification.
#[derive(Debug, Clone, Copy, PartialEq, Eq, Structural)]
pub enum ToastType {
    Error,
    Info,
}

/// A notification: its message and kind. How long it shows is up to the
/// screen that draws it.
#[derive(Debug)]
pub struct Toast {
    pub message: String,
    pub toast_type: ToastType,
}

impl Toast {
    /// A notification of `toast_type` saying `message`.
    pub fn new(message: String, toast_type: ToastType) -> (r: Self)
        ensures
            r.message@ == message@,
            r.toast_type == toast_type,
    {
        Toast { message, toast_type }
    }
}

/// The notifications raised, oldest first.
#[derive(Debug)]
pub struct ToastManager {
    pub toasts: Vec<Toast>,
}

/// The kinds and messages of `ts`, in order.
pub open spec fn notices(ts: Seq<Toast>) -> Seq<(ToastType, Seq<char>)> {
    ts.map_values(|t: Toast| (t.toast_type, t.message@))
}

impl ToastManager {
    /// No notifications.
    pub fn new() -> (r: Self)
        ensures
            r.toasts@.len() == 0,
    {
        ToastManager { toasts: Vec::new() }
    }

    /// Raises an error notification.
    pub fn error(&mut self, message: String)
        ensures
            notices(final(self).toasts@) == notices(old(self).toasts@).push((ToastType::Error, message@)),
    {
        self.toasts.push(Toast::new(message, ToastType::Error));
        assert(notices(self.toasts@) =~= notices(old(self).toasts@).push((ToastType::Error, message@)));
    }

    /// Raises an informational notification.
    pub fn info(&mut self, message: String)
        ensures
            notices(final(self).toasts@) == notices(old(self).toasts@).push((ToastType::Info, message@)),
    {
        self.toasts.push(Toast::new(message, ToastType::Info));
        assert(notices(self.toasts@) =~= notices(old(self).toasts@).push((ToastType::Info, message@)));
    }

    /// Hands the notifications raised so far to the screen, leaving none.
    pub fn take_all(&mut self) -> (r: Vec<Toast>)
        ensures
            notices(r@) == notices(old(self).toasts@),
            final(self).toasts@.len() == 0,
    {
        let mut out: Vec<Toast> = Vec::new();
        std::mem::swap(&mut out, &mut self.toasts);
        out
    }
}

} // verus!

use vstd::prelude::*;
use vstd::string::StringSliceAdditionalSpecFns;
use vstd::utf8::encode_utf8;
use crate::paths::{file_stem, file_stem_of};

verus! {

/// What a row being renamed asks for.
#[derive(Debug, Clone, PartialEq)]
pub enum RenameAction {
    Submit(String),
    Cancel,
}

/// A file row of the tree: its name, whether it is selected, whether its icon
/// shows, and whether it is being renamed into `rename_buffer`.
pub struct FileRow<'a> {
    name: &'a str,
    selected: bool,
    show_icon: bool,
    is_renaming: bool,
    rename_buffer: &'a mut String,
}

impl<'a> FileRow<'a> {
    pub closed spec fn spec_name(&self) -> Seq<char> {
        self.name@
    }

    pub closed spec fn spec_selected(&self) -> bool {
        self.selected
    }

    pub closed spec fn spec_show_icon(&self) -> bool {
        self.show_icon
    }

    pub closed spec fn spec_renaming(&self) -> bool {
        self.is_renaming
    }

    /// The rename buffer the row was lent.
    pub closed spec fn spec_buffer(&self) -> &'a mut String {
        self.rename_buffer
    }

    /// A row for `name`, not selected, with its icon, not being renamed.
    pub fn new(name: &'a str, rename_buffer: &'a mut String) -> (r: Self)
        ensures
            r.spec_name() == name@,
            !r.spec_selected(),
            r.spec_show_icon(),
            !r.spec_renaming(),
            *r.spec_buffer() == *old(rename_buffer),
            *final(r.spec_buffer()) == *final(rename_buffer),
    {
        Self { name, selected: false, show_icon: true, is_renaming: false, rename_buffer }
    }

    /// The same row, selected or not.
    pub fn selected(self, selected: bool) -> (r: Self)
        ensures
            r.spec_name() == self.spec_name(),
            r.spec_selected() == selected,
            r.spec_show_icon() == self.spec_show_icon(),
            r.spec_renaming() == self.spec_renaming(),
            *r.spec_buffer() == *self.spec_buffer(),
            *final(r.spec_buffer()) == *final(self.spec_buffer()),
    {
        let mut s = self;
        s.selected = selected;
        s
    }

    /// The same row, with or without its icon.
    pub fn show_icon(self, show: bool) -> (r: Self)
        ensures
            r.spec_name() == self.spec_name(),
            r.spec_selected() == self.spec_selected(),
            r.spec_show_icon() == show,
            r.spec_renaming() == self.spec_renaming(),
            *r.spec_buffer() == *self.spec_buffer(),
            *final(r.spec_buffer()) == *final(self.spec_buffer()),
    {
        let mut s = self;
        s.show_icon = show;
        s
    }

    /// The same row, being renamed or not.
    pub fn renaming(self, active: bool) -> (r: Self)
        ensures
            r.spec_name() == self.spec_name(),
            r.spec_selected() == self.spec_selected(),
            r.spec_show_icon() == self.spec_show_icon(),
            r.spec_renaming() == active,
            *r.spec_buffer() == *self.spec_buffer(),
            *final(r.spec_buffer()) == *final(self.spec_buffer()),
    {
        let mut s = self;
        s.is_renaming = active;
        s
    }

    /// The row's settings and its rename buffer, for drawing it.
    pub fn into_parts(self) -> (r: (&'a str, bool, bool, bool, &'a mut String))
        ensures
            r.0@ == self.spec_name(),
            r.1 == self.spec_selected(),
            r.2 == self.spec_show_icon(),
            r.3 == self.spec_renaming(),
            *r.4 == *self.spec_buffer(),
            *final(r.4) == *final(self.spec_buffer()),
    {
        (self.name, self.selected, self.show_icon, self.is_renaming, self.rename_buffer)
    }
}

/// What a file row decides about a rename in a frame. A row not being
/// renamed decides nothing. For the row being renamed, Enter submits the
/// buffer, or cancels when the name is unchanged; Escape, or losing the focus
/// it had, cancels; otherwise nothing.
pub fn rename_action(is_renaming: bool, name: &str, buffer: &String, enter: bool, escape: bool, lost_focus: bool) -> (r: Option<RenameAction>)
    ensures
        !is_renaming ==> r is None,
        is_renaming && enter && buffer@ == name@ ==> r == Some(RenameAction::Cancel),
        is_renaming && enter && buffer@ != name@ ==> (r matches Some(RenameAction::Submit(s)) && s@ == buffer@),
        is_renaming && !enter && (escape || lost_focus) ==> r == Some(RenameAction::Cancel),
        is_renaming && !enter && !escape && !lost_focus ==> r is None,
{
    if !is_renaming {
        None
    } else if enter {
        let n = String::from_str(name);
        if *buffer == n {
            Some(RenameAction::Cancel)
        } else {
            Some(RenameAction::Submit(buffer.clone()))
        }
    } else if escape || lost_focus {
        Some(RenameAction::Cancel)
    } else {
        None
    }
}

/// Where the selection ends when a rename starts: after the stem of the
/// name in the buffer, in bytes, or at the end of the buffer where it has no
/// stem or the stem is longer.
pub fn rename_selection_end(buffer: &str) -> (r: usize)
    ensures
        r == (match file_stem_of(buffer@) {
            Some(s) => if encode_utf8(s).len() < buffer.spec_bytes().len() {
                encode_utf8(s).len()
            } else {
                buffer.spec_bytes().len()
            },
            None => buffer.spec_bytes().len(),
        }),
{
    let whole = buffer.as_bytes().len();
    let stem_len = match file_stem(buffer) {
        Some(s) => s.as_bytes().len(),
        None => whole,
    };
    if stem_len < whole {
        stem_len
    } else {
        whole
    }
}

} // verus!

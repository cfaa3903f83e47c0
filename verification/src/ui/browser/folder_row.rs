use vstd::prelude::*;

verus! {

/// A folder row of the tree: its name, whether it is selected, whether its
/// icon shows.
pub struct FolderRow<'a> {
    name: &'a str,
    selected: bool,
    show_icon: bool,
}

impl<'a> FolderRow<'a> {
    pub closed spec fn spec_name(&self) -> Seq<char> {
        self.name@
    }

    pub closed spec fn spec_selected(&self) -> bool {
        self.selected
    }

    pub closed spec fn spec_show_icon(&self) -> bool {
        self.show_icon
    }

    /// A row for `name`, not selected, with its icon.
    pub fn new(name: &'a str) -> (r: Self)
        ensures
            r.spec_name() == name@,
            !r.spec_selected(),
            r.spec_show_icon(),
    {
        Self { name, selected: false, show_icon: true }
    }

    /// The same row, selected or not.
    pub fn selected(self, selected: bool) -> (r: Self)
        ensures
            r.spec_name() == self.spec_name(),
            r.spec_selected() == selected,
            r.spec_show_icon() == self.spec_show_icon(),
    {
        let mut s = self;
        s.selected = selected;
        s
    }

    /// The same row, with or without its icon.
    pub fn show_icon(self, show: bool) -> (r: Self)
        ensures
            r.spec_name() == self.spec_name(),
            r.spec_selected() == self.spec_selected(),
            r.spec_show_icon() == show,
    {
        let mut s = self;
        s.show_icon = show;
        s
    }

    /// The row's settings, for drawing it.
    pub fn into_parts(self) -> (r: (&'a str, bool, bool))
        ensures
            r.0@ == self.spec_name(),
            r.1 == self.spec_selected(),
            r.2 == self.spec_show_icon(),
    {
        (self.name, self.selected, self.show_icon)
    }
}

} // verus!

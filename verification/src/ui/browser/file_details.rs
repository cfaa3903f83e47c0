use vstd::prelude::*;
use vstd::string::StringExecFns;
use crate::deflate::FileEntry;
use crate::text::{decimal, push_decimal};

verus! {

/// What the details panel asks for.
#[derive(Debug)]
pub enum FileDetailsAction {
    NoAction,
    Open(FileEntry),
}

/// The details panel of the selected file.
pub struct FileDetailsView<'a> {
    selected_file: Option<&'a FileEntry>,
}

impl<'a> FileDetailsView<'a> {
    /// The file the panel shows, if any.
    pub closed spec fn spec_file(&self) -> Option<FileEntry> {
        match self.selected_file {
            Some(f) => Some(*f),
            None => None,
        }
    }

    /// A panel for `selected_file`.
    pub fn new(selected_file: Option<&'a FileEntry>) -> (r: Self)
        ensures
            r.spec_file() == (match selected_file {
                Some(f) => Some(*f),
                None => None::<FileEntry>,
            }),
    {
        FileDetailsView { selected_file }
    }

    /// The two lines the panel shows for its file: the path inside the
    /// vault, and the stored size in bytes.
    pub fn lines(&self) -> (r: Option<(String, String)>)
        ensures
            match self.spec_file() {
                Some(f) => r matches Some((a, b)) && a@ == "Virtual Path: "@ + f.path@ && b@ == "Size: "@ + decimal(f.stored_size as nat) + " bytes"@,
                None => r is None,
            },
    {
        match self.selected_file {
            Some(f) => {
                let mut a = String::from_str("Virtual Path: ");
                a.append(f.path.as_str());
                let mut b = String::from_str("Size: ");
                push_decimal_u64(&mut b, f.stored_size);
                b.append(" bytes");
                Some((a, b))
            },
            None => None,
        }
    }

    /// What a frame of the panel asks for: opening its file when the button
    /// was clicked.
    pub fn action(&self, open_clicked: bool) -> (r: FileDetailsAction)
        ensures
            match self.spec_file() {
                Some(f) => if open_clicked {
                    r == FileDetailsAction::Open(f)
                } else {
                    r is NoAction
                },
                None => r is NoAction,
            },
    {
        match self.selected_file {
            Some(f) => if open_clicked {
                FileDetailsAction::Open(f.clone())
            } else {
                FileDetailsAction::NoAction
            },
            None => FileDetailsAction::NoAction,
        }
    }
}

/// Appends the decimal digits of `n` to `s`.
fn push_decimal_u64(s: &mut String, n: u64)
    ensures
        final(s)@ == old(s)@ + decimal(n as nat),
    decreases n,
{
    if n >= 10 {
        push_decimal_u64(s, n / 10);
    }
    push_decimal(s, (n % 10) as usize);
    assert(final(s)@ =~= old(s)@ + decimal(n as nat));
}

} // verus!

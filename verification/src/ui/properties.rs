use vstd::prelude::*;
use vstd::string::StringExecFns;
use crate::deflate::FileEntry;
use crate::paths::{extension_of, file_ext, file_name, file_name_of};
use crate::text::{decimal, push_decimal};
use crate::paths::push_char;
use vstd::arithmetic::power::pow;

verus! {

/// The tabs of the properties dialog.
#[derive(Debug, Clone, Copy, PartialEq, Eq, Structural)]
pub enum Tab {
    General,
    Security,
    Storage,
    Advanced,
}

/// The properties dialog: the file it shows, if it is open, and its tab.
#[derive(Debug)]
pub struct PropertiesDialog {
    pub file: Option<FileEntry>,
    current_tab: Tab,
}

impl PropertiesDialog {
    /// The file shown, if the dialog is open.
    pub closed spec fn spec_file(&self) -> Option<FileEntry> {
        self.file
    }

    /// The tab shown.
    pub closed spec fn spec_tab(&self) -> Tab {
        self.current_tab
    }

    /// A closed dialog on the general tab.
    pub fn new() -> (r: Self)
        ensures
            r.spec_file() is None,
            r.spec_tab() == Tab::General,
    {
        PropertiesDialog { file: None, current_tab: Tab::General }
    }

    /// Opens the dialog on `file`, at the general tab.
    pub fn open(&mut self, file: FileEntry)
        ensures
            final(self).spec_file() == Some(file),
            final(self).spec_tab() == Tab::General,
    {
        self.file = Some(file);
        self.current_tab = Tab::General;
    }

    /// The file shown, if the dialog is open.
    pub fn file(&self) -> (r: &Option<FileEntry>)
        ensures
            *r == self.spec_file(),
    {
        &self.file
    }

    /// The tab shown.
    pub fn tab(&self) -> (r: Tab)
        ensures
            r == self.spec_tab(),
    {
        self.current_tab
    }

    /// A frame of the dialog: Escape closes it before it is drawn; otherwise a
    /// clicked tab is shown, and closing the window closes the dialog.
    pub fn frame(&mut self, escape_pressed: bool, clicked_tab: Option<Tab>, window_closed: bool)
        ensures
            escape_pressed ==> final(self).spec_file() is None && final(self).spec_tab() == old(self).spec_tab(),
            !escape_pressed && old(self).spec_file() is None ==> *final(self) == *old(self),
            !escape_pressed && old(self).spec_file() is Some ==> {
                &&& final(self).spec_tab() == (match clicked_tab {
                    Some(t) => t,
                    None => old(self).spec_tab(),
                })
                &&& final(self).spec_file() == (if window_closed { None } else { old(self).spec_file() })
            },
    {
        if escape_pressed {
            self.file = None;
            return;
        }
        if self.file.is_none() {
            return;
        }
        if let Some(t) = clicked_tab {
            self.current_tab = t;
        }
        if window_closed {
            self.file = None;
        }
    }
}

/// The character of the hexadecimal digit `n`, lowercase.
pub open spec fn hex_digit(n: int) -> char {
    if n < 10 {
        (48 + n) as char
    } else {
        (87 + n) as char
    }
}

/// `bytes` in lowercase hexadecimal, two digits each, high digit first.
pub open spec fn hex_of(bytes: Seq<u8>) -> Seq<char>
    decreases bytes.len(),
{
    if bytes.len() == 0 {
        Seq::empty()
    } else {
        hex_of(bytes.drop_last()) + seq![hex_digit(bytes.last() as int / 16), hex_digit(bytes.last() as int % 16)]
    }
}

/// The UUID whose little-endian bytes are `id`, in big-endian order: the
/// first three fields flipped.
pub open spec fn uuid_be(id: Seq<u8>) -> Seq<u8> {
    seq![id[3], id[2], id[1], id[0], id[5], id[4], id[7], id[6]] + id.subrange(8, 16)
}

/// The hyphenated lowercase form of the UUID whose little-endian bytes are
/// `id`: 8, 4, 4, 4 and 12 hexadecimal digits.
pub open spec fn uuid_hyphenated(id: Seq<u8>) -> Seq<char> {
    let h = hex_of(uuid_be(id));
    h.subrange(0, 8) + seq!['-'] + h.subrange(8, 12) + seq!['-'] + h.subrange(12, 16) + seq!['-'] + h.subrange(16, 20) + seq!['-'] + h.subrange(
        20,
        32,
    )
}

/// The hexadecimal form of two byte strings one after the other is theirs,
/// one after the other, two digits a byte.
proof fn lemma_hex_of_concat(a: Seq<u8>, b: Seq<u8>)
    ensures
        hex_of(a + b) == hex_of(a) + hex_of(b),
        hex_of(a).len() == 2 * a.len(),
    decreases b.len(), a.len(),
{
    if b.len() == 0 {
        assert(a + b =~= a);
        if a.len() > 0 {
            lemma_hex_of_concat(a.drop_last(), Seq::empty());
            assert(a.drop_last() + Seq::<u8>::empty() =~= a.drop_last());
        }
        assert(hex_of(a) + hex_of(b) =~= hex_of(a));
    } else {
        lemma_hex_of_concat(a, b.drop_last());
        assert((a + b).drop_last() =~= a + b.drop_last());
        assert((a + b).last() == b.last());
    }
}

/// Appends the two lowercase hexadecimal digits of `b`.
fn push_hex_byte(s: &mut String, b: u8)
    ensures
        final(s)@ == old(s)@ + hex_of(seq![b]),
{
    let hi = b / 16;
    let lo = b % 16;
    let c1 = if hi < 10 { (48u8 + hi) as char } else { (87u8 + hi) as char };
    let c2 = if lo < 10 { (48u8 + lo) as char } else { (87u8 + lo) as char };
    assert(c1 == hex_digit(b as int / 16));
    assert(c2 == hex_digit(b as int % 16));
    push_char(s, c1);
    push_char(s, c2);
    assert(seq![b].drop_last() =~= Seq::<u8>::empty());
    assert(hex_of(Seq::<u8>::empty()) == Seq::<char>::empty());
    assert(hex_of(seq![b]) =~= seq![hex_digit(b as int / 16), hex_digit(b as int % 16)]);
    assert(final(s)@ =~= old(s)@ + hex_of(seq![b]));
}

/// Appends the hexadecimal form of `bytes[a..b]`.
fn push_hex_range(s: &mut String, bytes: &[u8; 16], a: usize, b: usize)
    requires
        a <= b <= 16,
    ensures
        final(s)@ == old(s)@ + hex_of(bytes@.subrange(a as int, b as int)),
{
    let mut i = a;
    assert(bytes@.subrange(a as int, a as int) =~= Seq::<u8>::empty());
    while i < b
        invariant
            a <= i <= b <= 16,
            s@ == old(s)@ + hex_of(bytes@.subrange(a as int, i as int)),
        decreases b - i,
    {
        let ghost before = s@;
        push_hex_byte(s, bytes[i]);
        proof {
            lemma_hex_of_concat(bytes@.subrange(a as int, i as int), seq![bytes@[i as int]]);
            assert(bytes@.subrange(a as int, i + 1) =~= bytes@.subrange(a as int, i as int) + seq![bytes@[i as int]]);
        }
        i = i + 1;
    }
}

/// The hyphenated lowercase form of a file id, as uuid's `from_bytes_le` and
/// `to_string` write it.
fn uuid_text(id: [u8; 16]) -> (r: String)
    ensures
        r@ == uuid_hyphenated(id@),
{
    let be = [id[3], id[2], id[1], id[0], id[5], id[4], id[7], id[6], id[8], id[9], id[10], id[11], id[12], id[13], id[14], id[15]];
    assert(be@ =~= uuid_be(id@));
    let mut s = String::new();
    push_hex_range(&mut s, &be, 0, 4);
    push_char(&mut s, '-');
    push_hex_range(&mut s, &be, 4, 6);
    push_char(&mut s, '-');
    push_hex_range(&mut s, &be, 6, 8);
    push_char(&mut s, '-');
    push_hex_range(&mut s, &be, 8, 10);
    push_char(&mut s, '-');
    push_hex_range(&mut s, &be, 10, 16);
    proof {
        let u = be@;
        let p0 = u.subrange(0, 4);
        let p1 = u.subrange(4, 6);
        let p2 = u.subrange(6, 8);
        let p3 = u.subrange(8, 10);
        let p4 = u.subrange(10, 16);
        assert(u =~= p0 + p1 + p2 + p3 + p4);
        lemma_hex_of_concat(p0, p1);
        lemma_hex_of_concat(p0 + p1, p2);
        lemma_hex_of_concat(p0 + p1 + p2, p3);
        lemma_hex_of_concat(p0 + p1 + p2 + p3, p4);
        lemma_hex_of_concat(p1, Seq::empty());
        lemma_hex_of_concat(p2, Seq::empty());
        lemma_hex_of_concat(p3, Seq::empty());
        lemma_hex_of_concat(p4, Seq::empty());
        let h = hex_of(u);
        assert(h =~= hex_of(p0) + hex_of(p1) + hex_of(p2) + hex_of(p3) + hex_of(p4));
        assert(h.subrange(0, 8) =~= hex_of(p0));
        assert(h.subrange(8, 12) =~= hex_of(p1));
        assert(h.subrange(12, 16) =~= hex_of(p2));
        assert(h.subrange(16, 20) =~= hex_of(p3));
        assert(h.subrange(20, 32) =~= hex_of(p4));
    }
    s
}

/// The power of 1024 a size is shown in: bytes, KB, MB, GB or TB.
pub open spec fn size_unit_of(bytes: u64) -> nat {
    if bytes < 1024 {
        0
    } else if bytes < 1048576 {
        1
    } else if bytes < 1073741824 {
        2
    } else if bytes < 1099511627776 {
        3
    } else {
        4
    }
}

/// The unit a size is shown in: the largest power of 1024, up to TB, that it
/// reaches.
pub fn size_unit(bytes: u64) -> (r: usize)
    ensures
        r == size_unit_of(bytes),
{
    let mut size = bytes;
    let mut i: usize = 0;
    while size >= 1024 && i < 4
        invariant
            i <= 4,
            i == 0 ==> size == bytes,
            i == 1 ==> size == bytes / 1024 && bytes >= 1024,
            i == 2 ==> size == bytes / 1048576 && bytes >= 1048576,
            i == 3 ==> size == bytes / 1073741824 && bytes >= 1073741824,
            i == 4 ==> bytes >= 1099511627776,
        decreases 4 - i,
    {
        size = size / 1024;
        i = i + 1;
    }
    i
}

/// A value of the properties dialog: text, a size to show in its unit, or
/// the share of the original size that compression saved.
#[derive(Debug)]
pub enum PropValue {
    Text(String),
    Size(u64),
    SavedRatio { stored: u64, original: u64 },
}

/// The name a property row shows for the file name: the file name, or the
/// path where there is none.
pub open spec fn shown_name(path: Seq<char>) -> Seq<char> {
    match file_name_of(path) {
        Some(n) => n,
        None => path,
    }
}

/// The rows of a tab of the dialog for `file`: a label and a value each.
pub fn tab_rows(tab: Tab, file: &FileEntry) -> (r: Vec<(&'static str, PropValue)>)
    ensures
        tab == Tab::General ==> r@.len() == 5 && r@[0].0@ == "Name:"@ && (r@[0].1 matches PropValue::Text(t) && t@ == shown_name(file.path@))
            && r@[1].0@ == "Path:"@ && (r@[1].1 matches PropValue::Text(t) && t@ == file.path@) && r@[2].0@ == "Type:"@ && (r@[2].1 matches PropValue::Text(
            t,
        ) && t@ == (match extension_of(file.path@) {
            Some(e) => e,
            None => "(none)"@,
        })) && r@[3].0@ == "Size:"@ && r@[3].1 == PropValue::Size(file.original_size) && r@[4].0@ == "Size (bytes):"@ && (r@[4].1 matches PropValue::Text(
            t,
        ) && t@ == decimal(file.original_size as nat)),
        tab == Tab::Security ==> r@.len() == 7 && r@[0].0@ == "Encryption:"@ && (r@[0].1 matches PropValue::Text(t) && t@ == "AES-256-GCM"@)
            && r@[1].0@ == "Key size:"@ && (r@[1].1 matches PropValue::Text(t) && t@ == "256-bit"@) && r@[2].0@ == "Master KDF:"@ && (r@[2].1 matches PropValue::Text(
            t,
        ) && t@ == "Argon2id"@) && r@[3].0@ == "File KDF:"@ && (r@[3].1 matches PropValue::Text(t) && t@ == "HKDF-SHA256"@) && r@[4].0@
            == "Per-file key:"@ && (r@[4].1 matches PropValue::Text(t) && t@ == "Yes (HKDF derived)"@) && r@[5].0@ == "Authentication:"@ && (
        r@[5].1 matches PropValue::Text(t) && t@ == "GCM MAC (128-bit)"@) && r@[6].0@ == "Integrity:"@ && (r@[6].1 matches PropValue::Text(t)
            && t@ == "Verified on read"@),
        tab == Tab::Storage ==> {
            let n: int = if file.compressed && file.original_size > 0 { 7 } else { 6 };
            &&& r@.len() == n
            &&& r@[0].0@ == "Compressed:"@ && (r@[0].1 matches PropValue::Text(t) && t@ == (if file.compressed { "Yes"@ } else { "No"@ }))
            &&& r@[1].0@ == "Stored size:"@ && r@[1].1 == PropValue::Size(file.stored_size)
            &&& r@[2].0@ == "Original size:"@ && r@[2].1 == PropValue::Size(file.original_size)
            &&& r@[3].0@ == "Stored (bytes):"@ && (r@[3].1 matches PropValue::Text(t) && t@ == decimal(file.stored_size as nat))
            &&& r@[4].0@ == "Original (bytes):"@ && (r@[4].1 matches PropValue::Text(t) && t@ == decimal(file.original_size as nat))
            &&& n == 7 ==> r@[5].0@ == "Compression ratio:"@ && r@[5].1 == PropValue::SavedRatio {
                stored: file.stored_size,
                original: file.original_size,
            }
            &&& r@[n - 1].0@ == "Storage offset:"@ && (r@[n - 1].1 matches PropValue::Text(t) && t@ == decimal(file.offset as nat))
        },
        tab == Tab::Advanced ==> r@.len() == 2 && r@[0].0@ == "UUID:"@ && (r@[0].1 matches PropValue::Text(t) && t@ == uuid_hyphenated(file.id@))
            && r@[1].0@ == "Container:"@ && (r@[1].1 matches PropValue::Text(t) && t@ == "EVFS v2"@),
{
    let mut rows: Vec<(&'static str, PropValue)> = Vec::new();
    match tab {
        Tab::General => {
            rows.push(("Name:", PropValue::Text(String::from_str(file_name(file.path.as_str())))));
            rows.push(("Path:", PropValue::Text(file.path.clone())));
            rows.push(("Type:", PropValue::Text(String::from_str(file_ext(file.path.as_str())))));
            rows.push(("Size:", PropValue::Size(file.original_size)));
            rows.push(("Size (bytes):", PropValue::Text(decimal_text(file.original_size))));
        },
        Tab::Security => {
            rows.push(("Encryption:", PropValue::Text(String::from_str("AES-256-GCM"))));
            rows.push(("Key size:", PropValue::Text(String::from_str("256-bit"))));
            rows.push(("Master KDF:", PropValue::Text(String::from_str("Argon2id"))));
            rows.push(("File KDF:", PropValue::Text(String::from_str("HKDF-SHA256"))));
            rows.push(("Per-file key:", PropValue::Text(String::from_str("Yes (HKDF derived)"))));
            rows.push(("Authentication:", PropValue::Text(String::from_str("GCM MAC (128-bit)"))));
            rows.push(("Integrity:", PropValue::Text(String::from_str("Verified on read"))));
        },
        Tab::Storage => {
            rows.push(("Compressed:", PropValue::Text(String::from_str(if file.compressed { "Yes" } else { "No" }))));
            rows.push(("Stored size:", PropValue::Size(file.stored_size)));
            rows.push(("Original size:", PropValue::Size(file.original_size)));
            rows.push(("Stored (bytes):", PropValue::Text(decimal_text(file.stored_size))));
            rows.push(("Original (bytes):", PropValue::Text(decimal_text(file.original_size))));
            if file.compressed && file.original_size > 0 {
                rows.push(("Compression ratio:", PropValue::SavedRatio { stored: file.stored_size, original: file.original_size }));
            }
            rows.push(("Storage offset:", PropValue::Text(decimal_text(file.offset))));
        },
        Tab::Advanced => {
            rows.push(("UUID:", PropValue::Text(uuid_text(file.id))));
            rows.push(("Container:", PropValue::Text(String::from_str("EVFS v2"))));
        },
    }
    rows
}

/// The decimal digits of `n`.
fn decimal_text(n: u64) -> (r: String)
    ensures
        r@ == decimal(n as nat),
{
    let mut s = String::new();
    push_decimal_u64(&mut s, n);
    assert(s@ =~= decimal(n as nat));
    s
}

fn push_decimal_u64(s: &mut String, n: u64)
    ensures
        final(s)@ == old(s)@ + decimal(n as nat),
    decreases n,
{
    if n >= 10 {
        push_decimal_u64(s, n / 10);
    }
    push_decimal(s, (n % 10) as usize);
    assert(final(s)@ =~= old(s)@ + decimal(n as nat));
}

/// A size is shown in the largest unit of 1024 bytes, up to TB, that it is
/// not below: at least one of that unit, and under 1024 of them unless the
/// unit is TB.
pub proof fn lemma_size_unit_range(bytes: u64)
    ensures
        size_unit_of(bytes) <= 4,
        size_unit_of(bytes) > 0 ==> pow(1024, size_unit_of(bytes)) <= bytes,
        size_unit_of(bytes) < 4 ==> bytes < pow(1024, size_unit_of(bytes) + 1),
{
    reveal_with_fuel(pow, 6);
    assert(pow(1024, 1) == 1024);
    assert(pow(1024, 2) == 1048576);
    assert(pow(1024, 3) == 1073741824);
    assert(pow(1024, 4) == 1099511627776);
}

} // verus!

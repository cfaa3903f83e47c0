use vstd::prelude::*;
use crate::paths::{chars_of, push_char, string_of};
use vstd::string::StringExecFns;

verus! {

/// What the breadcrumb bar asks for.
#[derive(Debug, Clone, PartialEq)]
pub enum BreadcrumbAction {
    NoAction,
    Exit,
    NavigateTo(String),
}

/// The breadcrumb bar over the current directory of a vault.
pub struct BreadcrumbBar<'a> {
    current_vfs_dir: &'a str,
}

/// Scanning the first `n` characters of `s` for `/`: the ranges of the
/// non-empty segments closed so far, and where the open segment starts.
pub open spec fn crumb_scan(s: Seq<char>, n: nat) -> (Seq<(int, int)>, int)
    decreases n,
{
    if n == 0 {
        (Seq::empty(), 0)
    } else {
        let (done, st) = crumb_scan(s, (n - 1) as nat);
        if s[n - 1] == '/' {
            (if n - 1 > st { done.push((st, n - 1)) } else { done }, n as int)
        } else {
            (done, st)
        }
    }
}

/// Where the non-empty `/`-separated segments of `s` lie.
pub open spec fn crumb_ranges(s: Seq<char>) -> Seq<(int, int)> {
    let (done, st) = crumb_scan(s, s.len());
    if s.len() > st {
        done.push((st, s.len() as int))
    } else {
        done
    }
}

/// The text of each range of `s`.
pub open spec fn range_texts(s: Seq<char>, rs: Seq<(int, int)>) -> Seq<Seq<char>> {
    rs.map_values(|r: (int, int)| s.subrange(r.0, r.1))
}

/// The non-empty `/`-separated segments of `s`, in order.
pub open spec fn crumb_labels(s: Seq<char>) -> Seq<Seq<char>> {
    range_texts(s, crumb_ranges(s))
}

/// `labels` joined by `/`.
pub open spec fn join_slash(labels: Seq<Seq<char>>) -> Seq<char>
    decreases labels.len(),
{
    if labels.len() == 0 {
        Seq::empty()
    } else if labels.len() == 1 {
        labels[0]
    } else {
        join_slash(labels.drop_last()) + seq!['/'] + labels.last()
    }
}

proof fn lemma_crumb_scan(s: Seq<char>, n: nat)
    requires
        n <= s.len(),
    ensures
        0 <= crumb_scan(s, n).1 <= n,
        forall|k: int| 0 <= k < crumb_scan(s, n).0.len() ==> 0 <= (#[trigger] crumb_scan(s, n).0[k]).0 < crumb_scan(s, n).0[k].1 < crumb_scan(s, n).1,
    decreases n,
{
    if n > 0 {
        lemma_crumb_scan(s, (n - 1) as nat);
    }
}

/// The crumbs of `dir`, in order: each non-empty `/`-separated segment, with
/// the path that the segments up to it make, joined by `/`.
pub fn crumbs(dir: &str) -> (r: Vec<(String, String)>)
    ensures
        r@.len() == crumb_labels(dir@).len(),
        forall|k: int| 0 <= k < r@.len() ==> (#[trigger] r@[k]).0@ == crumb_labels(dir@)[k],
        forall|k: int| 0 <= k < r@.len() ==> (#[trigger] r@[k]).1@ == join_slash(crumb_labels(dir@).take(k + 1)),
{
    let chars = chars_of(dir);
    let n = chars.len();
    let mut out: Vec<(String, String)> = Vec::new();
    let mut accum = String::new();
    let mut st: usize = 0;
    let mut i: usize = 0;
    while i < n
        invariant
            n == chars@.len(),
            chars@ == dir@,
            i <= n,
            st == crumb_scan(dir@, i as nat).1,
            out@.len() == crumb_scan(dir@, i as nat).0.len(),
            forall|k: int| 0 <= k < out@.len() ==> (#[trigger] out@[k]).0@ == range_texts(dir@, crumb_scan(dir@, i as nat).0)[k],
            forall|k: int| 0 <= k < out@.len() ==> (#[trigger] out@[k]).1@ == join_slash(range_texts(dir@, crumb_scan(dir@, i as nat).0).take(k + 1)),
            accum@ == join_slash(range_texts(dir@, crumb_scan(dir@, i as nat).0)),
        decreases n - i,
    {
        proof {
            lemma_crumb_scan(dir@, i as nat);
        }
        if chars[i] == '/' {
            if i > st {
                let label = string_of(&chars, st, i);
                let ghost old_out = out@;
                let ghost rs = crumb_scan(dir@, i as nat).0;
                if out.len() > 0 {
                    push_char(&mut accum, '/');
                }
                accum.append(label.as_str());
                out.push((label, accum.clone()));
                proof {
                    let nrs = rs.push((st as int, i as int));
                    assert(range_texts(dir@, nrs) =~= range_texts(dir@, rs).push(dir@.subrange(st as int, i as int)));
                    assert(range_texts(dir@, nrs).take(nrs.len() as int) =~= range_texts(dir@, nrs));
                    assert(range_texts(dir@, nrs).drop_last() =~= range_texts(dir@, rs));
                    assert forall|k: int| #![trigger old_out[k]] 0 <= k < old_out.len() implies range_texts(dir@, nrs).take(k + 1) =~= range_texts(dir@, rs).take(k + 1) by {}
                }
            }
            st = i + 1;
        }
        i = i + 1;
    }
    proof {
        lemma_crumb_scan(dir@, n as nat);
    }
    if n > st {
        let label = string_of(&chars, st, n);
        let ghost old_out = out@;
        let ghost rs = crumb_scan(dir@, n as nat).0;
        if out.len() > 0 {
            push_char(&mut accum, '/');
        }
        accum.append(label.as_str());
        out.push((label, accum.clone()));
        proof {
            let nrs = rs.push((st as int, n as int));
            assert(range_texts(dir@, nrs) =~= range_texts(dir@, rs).push(dir@.subrange(st as int, n as int)));
            assert(range_texts(dir@, nrs).take(nrs.len() as int) =~= range_texts(dir@, nrs));
            assert(range_texts(dir@, nrs).drop_last() =~= range_texts(dir@, rs));
            assert forall|k: int| #![trigger old_out[k]] 0 <= k < old_out.len() implies range_texts(dir@, nrs).take(k + 1) =~= range_texts(dir@, rs).take(k + 1) by {}
        }
    }
    out
}

impl<'a> BreadcrumbBar<'a> {
    pub closed spec fn spec_dir(&self) -> Seq<char> {
        self.current_vfs_dir@
    }

    /// A bar over `current_vfs_dir`.
    pub fn new(current_vfs_dir: &'a str) -> (r: Self)
        ensures
            r.spec_dir() == current_vfs_dir@,
    {
        Self { current_vfs_dir }
    }

    /// What a frame of the bar asks for, given which of its buttons were
    /// clicked: `Root`, the crumb at `clicked_crumb`, and `Exit`. A later
    /// button in the bar wins over an earlier one; a crumb index past the end
    /// counts as no click.
    pub fn action(&self, root_clicked: bool, clicked_crumb: Option<usize>, exit_clicked: bool) -> (r: BreadcrumbAction)
        ensures
            exit_clicked ==> r == BreadcrumbAction::Exit,
            !exit_clicked && clicked_crumb is Some && clicked_crumb->0 < crumb_labels(self.spec_dir()).len() ==> (r matches BreadcrumbAction::NavigateTo(p)
                && p@ == join_slash(crumb_labels(self.spec_dir()).take(clicked_crumb->0 + 1))),
            !exit_clicked && !(clicked_crumb is Some && clicked_crumb->0 < crumb_labels(self.spec_dir()).len()) && root_clicked ==> (r matches BreadcrumbAction::NavigateTo(p) && p@.len() == 0),
            !exit_clicked && !(clicked_crumb is Some && clicked_crumb->0 < crumb_labels(self.spec_dir()).len()) && !root_clicked ==> r == BreadcrumbAction::NoAction,
    {
        if exit_clicked {
            return BreadcrumbAction::Exit;
        }
        let list = crumbs(self.current_vfs_dir);
        match clicked_crumb {
            Some(k) if k < list.len() => {
                let path = list[k].1.clone();
                return BreadcrumbAction::NavigateTo(path);
            }
            _ => {}
        }
        if root_clicked {
            BreadcrumbAction::NavigateTo(String::new())
        } else {
            BreadcrumbAction::NoAction
        }
    }

    /// The directory the bar shows.
    pub fn dir(&self) -> (r: &'a str)
        ensures
            r@ == self.spec_dir(),
    {
        self.current_vfs_dir
    }
}

} // verus!

use vstd::prelude::*;

verus! {

/// The characters of `s`, in order.
pub fn chars_of(s: &str) -> (r: Vec<char>)
    ensures
        r@ == s@,
{
    let mut r: Vec<char> = Vec::new();
    for c in it: s.chars()
        invariant
            r@ == it.seq().take(it.index() as int),
            it.seq() == s@,
    {
        r.push(c);
    }
    r
}

/// Appends `c` with `String::push`, which the standard library documents as
/// appending the character to the end of the string.
#[verifier::external_body]
pub(crate) fn push_char(s: &mut String, c: char)
    ensures
        final(s)@ == old(s)@.push(c),
{
    s.push(c);
}

/// A new string holding `chars[a..b]`.
pub fn string_of(chars: &Vec<char>, a: usize, b: usize) -> (r: String)
    requires
        a <= b <= chars@.len(),
    ensures
        r@ == chars@.subrange(a as int, b as int),
{
    let mut r = String::new();
    let mut i = a;
    while i < b
        invariant
            a <= i <= b,
            b <= chars@.len(),
            r@ == chars@.subrange(a as int, i as int),
        decreases b - i,
    {
        push_char(&mut r, chars[i]);
        assert(chars@.subrange(a as int, i + 1) =~= chars@.subrange(a as int, i as int).push(chars@[i as int]));
        i = i + 1;
    }
    r
}

/// Whether `s[a..b]` equals `t[c..d]`.
pub fn range_eq(s: &Vec<char>, a: usize, b: usize, t: &Vec<char>, c: usize, d: usize) -> (r: bool)
    requires
        a <= b <= s@.len(),
        c <= d <= t@.len(),
    ensures
        r == (s@.subrange(a as int, b as int) == t@.subrange(c as int, d as int)),
{
    if b - a != d - c {
        assert(s@.subrange(a as int, b as int).len() != t@.subrange(c as int, d as int).len());
        return false;
    }
    let n = b - a;
    let mut i: usize = 0;
    assert(s@.subrange(a as int, a as int) =~= t@.subrange(c as int, c as int));
    while i < n
        invariant
            n == b - a,
            n == d - c,
            a <= b <= s@.len(),
            c <= d <= t@.len(),
            i <= n,
            s@.subrange(a as int, a + i) == t@.subrange(c as int, c + i),
        decreases n - i,
    {
        if s[a + i] != t[c + i] {
            assert(s@.subrange(a as int, b as int)[i as int] != t@.subrange(c as int, d as int)[i as int]);
            return false;
        }
        assert(s@.subrange(a as int, a + i + 1) =~= s@.subrange(a as int, a + i).push(s@[a + i]));
        assert(t@.subrange(c as int, c + i + 1) =~= t@.subrange(c as int, c + i).push(t@[c + i]));
        i = i + 1;
    }
    assert(s@.subrange(a as int, b as int) =~= t@.subrange(c as int, d as int));
    true
}

/// A segment `s[a..b]` between separators is a component unless it is empty or ".".
pub open spec fn kept(s: Seq<char>, a: int, b: int) -> bool {
    b > a && s.subrange(a, b) != seq!['.']
}

pub open spec fn keep(s: Seq<char>, done: Seq<(int, int)>, a: int, b: int) -> Seq<(int, int)> {
    if kept(s, a, b) {
        done.push((a, b))
    } else {
        done
    }
}

/// Scanning the first `n` characters of `s` for `/`: the ranges of the
/// components closed so far, and where the open segment starts.
pub open spec fn scan(s: Seq<char>, n: nat) -> (Seq<(int, int)>, int)
    decreases n,
{
    if n == 0 {
        (Seq::empty(), 0)
    } else {
        let (done, st) = scan(s, (n - 1) as nat);
        if s[n - 1] == '/' {
            (keep(s, done, st, n - 1), n as int)
        } else {
            (done, st)
        }
    }
}

/// The leading component: the root `/`, or `.` when the path starts with a
/// `.` segment and has no root.
pub open spec fn front_ranges(s: Seq<char>) -> Seq<(int, int)> {
    if s.len() > 0 && s[0] == '/' {
        seq![(0int, 1int)]
    } else if s.len() > 0 && s[0] == '.' && (s.len() == 1 || s[1] == '/') {
        seq![(0int, 1int)]
    } else {
        Seq::empty()
    }
}

/// Where the components of `s` lie, as `std::path::Path::components` reads a
/// Unix path: the leading component, then every segment between `/` that is
/// neither empty nor `.`.
pub open spec fn component_ranges(s: Seq<char>) -> Seq<(int, int)> {
    let (done, st) = scan(s, s.len());
    front_ranges(s) + keep(s, done, st, s.len() as int)
}

/// The components of `s`, each as it is written: `/` for the root, `.` for a
/// leading current directory, `..` for a parent, or a name.
pub open spec fn components(s: Seq<char>) -> Seq<Seq<char>> {
    component_ranges(s).map_values(|r: (int, int)| s.subrange(r.0, r.1))
}

/// The ranges held by two parallel vectors of starts and ends.
pub open spec fn pairs(starts: Seq<usize>, ends: Seq<usize>) -> Seq<(int, int)> {
    Seq::new(starts.len(), |k: int| (starts[k] as int, ends[k] as int))
}

/// The scan keeps ranges inside the string, in increasing order.
proof fn lemma_scan_bounds(s: Seq<char>, n: nat)
    requires
        n <= s.len(),
    ensures
        0 <= scan(s, n).1 <= n,
        forall|k: int| 0 <= k < scan(s, n).0.len() ==> 0 <= (#[trigger] scan(s, n).0[k]).0 < scan(s, n).0[k].1 < scan(s, n).1,
    decreases n,
{
    if n > 0 {
        lemma_scan_bounds(s, (n - 1) as nat);
    }
}

fn is_kept(s: &Vec<char>, a: usize, b: usize) -> (r: bool)
    requires
        a <= b <= s@.len(),
    ensures
        r == kept(s@, a as int, b as int),
{
    if b == a {
        return false;
    }
    if b == a + 1 && s[a] == '.' {
        assert(s@.subrange(a as int, b as int) =~= seq!['.']);
        return false;
    }
    if b == a + 1 {
        assert(s@.subrange(a as int, b as int)[0] != seq!['.'][0]);
    } else {
        assert(s@.subrange(a as int, b as int).len() != seq!['.'].len());
    }
    true
}

/// Whether each range `starts[k]..ends[k]` is non-empty and ends by `n`.
pub open spec fn ranges_within(starts: Seq<usize>, ends: Seq<usize>, n: int) -> bool {
    forall|k: int| 0 <= k < starts.len() ==> #[trigger] starts[k] < ends[k] <= n
}

proof fn lemma_ranges_push(starts: Seq<usize>, ends: Seq<usize>, a: usize, b: usize, n: int)
    requires
        starts.len() == ends.len(),
        ranges_within(starts, ends, n),
        a < b <= n,
    ensures
        ranges_within(starts.push(a), ends.push(b), n),
{
    assert forall|k: int| 0 <= k < starts.push(a).len() implies #[trigger] starts.push(a)[k] < ends.push(b)[k] <= n by {
        if k < starts.len() {
            assert(starts.push(a)[k] == starts[k] && ends.push(b)[k] == ends[k]);
        }
    }
}

/// The component ranges of `s`, as parallel vectors of starts and ends.
pub fn component_ranges_of(s: &Vec<char>) -> (r: (Vec<usize>, Vec<usize>))
    ensures
        r.0@.len() == r.1@.len(),
        pairs(r.0@, r.1@) == component_ranges(s@),
        ranges_within(r.0@, r.1@, s@.len() as int),
{
    let n = s.len();
    let mut starts: Vec<usize> = Vec::new();
    let mut ends: Vec<usize> = Vec::new();
    if n > 0 && (s[0] == '/' || (s[0] == '.' && (n == 1 || s[1] == '/'))) {
        starts.push(0);
        ends.push(1);
    }
    assert(pairs(starts@, ends@) =~= front_ranges(s@) + scan(s@, 0).0);
    let mut st: usize = 0;
    let mut i: usize = 0;
    while i < n
        invariant
            n == s@.len(),
            i <= n,
            starts@.len() == ends@.len(),
            pairs(starts@, ends@) == front_ranges(s@) + scan(s@, i as nat).0,
            st == scan(s@, i as nat).1,
            st <= i,
            ranges_within(starts@, ends@, n as int),
        decreases n - i,
    {
        proof {
            lemma_scan_bounds(s@, i as nat);
        }
        if s[i] == '/' {
            let ghost before = pairs(starts@, ends@);
            if is_kept(s, st, i) {
                let ghost os = starts@;
                let ghost oe = ends@;
                assert(st < i);
                starts.push(st);
                ends.push(i);
                assert(pairs(starts@, ends@) =~= before.push((st as int, i as int)));
                proof { lemma_ranges_push(os, oe, st, i, n as int); }
            }
            assert(pairs(starts@, ends@) =~= front_ranges(s@) + scan(s@, (i + 1) as nat).0);
            st = i + 1;
        } else {
            assert(scan(s@, (i + 1) as nat) == scan(s@, i as nat));
        }
        i = i + 1;
    }
    let ghost before = pairs(starts@, ends@);
    if is_kept(s, st, n) {
        let ghost os = starts@;
        let ghost oe = ends@;
        assert(st < n);
        starts.push(st);
        ends.push(n);
        assert(pairs(starts@, ends@) =~= before.push((st as int, n as int)));
        proof { lemma_ranges_push(os, oe, st, n, n as int); }
    }
    assert(pairs(starts@, ends@) =~= component_ranges(s@));
    (starts, ends)
}

/// A name component: not the root, a leading `.`, or `..`.
pub open spec fn is_name(c: Seq<char>) -> bool {
    c != seq!['/'] && c != seq!['.'] && c != seq!['.', '.']
}

/// `Path::file_name`: the last component, if it is a name.
pub open spec fn file_name_of(s: Seq<char>) -> Option<Seq<char>> {
    let c = components(s);
    if c.len() > 0 && is_name(c.last()) {
        Some(c.last())
    } else {
        None
    }
}

/// The position of the last `x` in `s`, or -1.
pub open spec fn last_index_of(s: Seq<char>, x: char) -> int
    decreases s.len(),
{
    if s.len() == 0 {
        -1
    } else if s.last() == x {
        s.len() - 1
    } else {
        last_index_of(s.drop_last(), x)
    }
}

/// `Path::extension`: what follows the last `.` of the file name, when that
/// `.` is not its first character.
pub open spec fn extension_of(s: Seq<char>) -> Option<Seq<char>> {
    match file_name_of(s) {
        Some(n) => {
            let k = last_index_of(n, '.');
            if k <= 0 {
                None
            } else {
                Some(n.skip(k + 1))
            }
        },
        None => None,
    }
}

/// `Path::parent`: the path without its last component, as it is written;
/// none for the root alone or an empty path.
pub open spec fn parent_of(s: Seq<char>) -> Option<Seq<char>> {
    let c = component_ranges(s);
    if c.len() == 0 || (c.len() == 1 && components(s)[0] == seq!['/']) {
        None
    } else if c.len() == 1 {
        Some(Seq::empty())
    } else {
        Some(s.take(c[c.len() - 2].1))
    }
}

/// `path.parent() == Some(dir)`, components compared: `path` names an entry
/// directly inside `dir`.
pub open spec fn in_dir(dir: Seq<char>, path: Seq<char>) -> bool {
    let c = components(path);
    c.len() > 0 && c.last() != seq!['/'] && c.drop_last() == components(dir)
}

/// The component of `path` right below `dir`, when `path` lies deeper than
/// one level inside `dir`.
pub open spec fn subdir_of(dir: Seq<char>, path: Seq<char>) -> Option<Seq<char>> {
    let c = components(path);
    let d = components(dir);
    if d.len() + 2 <= c.len() && c.take(d.len() as int) == d {
        Some(c[d.len() as int])
    } else {
        None
    }
}

/// The position of the first `x` in `s`, or its length.
pub open spec fn index_of(s: Seq<char>, x: char) -> int
    decreases s.len(),
{
    if s.len() == 0 {
        0
    } else if s[0] == x {
        0
    } else {
        1 + index_of(s.drop_first(), x)
    }
}

/// The first `/`-separated segment of `s`.
pub open spec fn first_segment(s: Seq<char>) -> Seq<char> {
    s.take(index_of(s, '/'))
}

/// The child directory of `dir` that directory path `d` passes through, by
/// plain text: its first segment when `dir` is empty, else the first segment
/// after `dir/`.
pub open spec fn child_dir_of(dir: Seq<char>, d: Seq<char>) -> Option<Seq<char>> {
    if dir.len() == 0 {
        Some(first_segment(d))
    } else if d.len() > dir.len() && d.take(dir.len() as int) == dir && d[dir.len() as int] == '/' {
        Some(first_segment(d.skip(dir.len() + 1int)))
    } else {
        None
    }
}

proof fn lemma_index_of_bounds(s: Seq<char>, x: char)
    ensures
        0 <= index_of(s, x) <= s.len(),
        index_of(s, x) < s.len() ==> s[index_of(s, x)] == x,
        forall|k: int| 0 <= k < index_of(s, x) ==> s[k] != x,
    decreases s.len(),
{
    if s.len() > 0 && s[0] != x {
        lemma_index_of_bounds(s.drop_first(), x);
        assert forall|k: int| 0 <= k < index_of(s, x) implies s[k] != x by {
            if k > 0 {
                assert(s[k] == s.drop_first()[k - 1]);
            }
        }
    }
}

proof fn lemma_index_of_first(s: Seq<char>, x: char, i: int)
    requires
        0 <= i <= s.len(),
        forall|k: int| 0 <= k < i ==> s[k] != x,
        i == s.len() || s[i] == x,
    ensures
        index_of(s, x) == i,
    decreases s.len(),
{
    if s.len() > 0 && i > 0 {
        assert forall|k: int| 0 <= k < i - 1 implies s.drop_first()[k] != x by {
            assert(s.drop_first()[k] == s[k + 1]);
        }
        lemma_index_of_first(s.drop_first(), x, i - 1);
    }
}

proof fn lemma_last_index_bounds(s: Seq<char>, x: char)
    ensures
        -1 <= last_index_of(s, x) < s.len(),
    decreases s.len(),
{
    if s.len() > 0 && s.last() != x {
        lemma_last_index_bounds(s.drop_last(), x);
    }
}

proof fn lemma_last_index_take(s: Seq<char>, x: char, m: int)
    requires
        0 < m <= s.len(),
        s[m - 1] != x,
    ensures
        last_index_of(s.take(m), x) == last_index_of(s.take(m - 1), x),
{
    assert(s.take(m).drop_last() =~= s.take(m - 1));
}

/// The position right after the last `.` in `chars[a..b]`, if that `.` is not
/// at `a`.
fn extension_start(chars: &Vec<char>, a: usize, b: usize) -> (r: Option<usize>)
    requires
        a <= b <= chars@.len(),
    ensures
        ({
            let k = last_index_of(chars@.subrange(a as int, b as int), '.');
            match r {
                Some(e) => k > 0 && e == a + k + 1 && e <= b,
                None => k <= 0,
            }
        }),
{
    let ghost sub = chars@.subrange(a as int, b as int);
    proof {
        lemma_last_index_bounds(sub, '.');
    }
    let mut i = b;
    assert(sub.take((b - a) as int) =~= sub);
    while i > a
        invariant
            a <= i <= b <= chars@.len(),
            sub == chars@.subrange(a as int, b as int),
            last_index_of(sub, '.') == last_index_of(sub.take(i - a), '.'),
        decreases i,
    {
        if chars[i - 1] == '.' {
            assert(sub.take(i - a).last() == '.');
            if i - 1 == a {
                return None;
            }
            return Some(i);
        }
        proof {
            assert(sub[i - a - 1] == chars@[i - 1]);
            lemma_last_index_take(sub, '.', i - a);
        }
        i = i - 1;
    }
    assert(sub.take(0).len() == 0);
    None
}

fn is_name_range(chars: &Vec<char>, a: usize, b: usize) -> (r: bool)
    requires
        a <= b <= chars@.len(),
    ensures
        r == is_name(chars@.subrange(a as int, b as int)),
{
    let ghost c = chars@.subrange(a as int, b as int);
    if b - a == 1 {
        if chars[a] == '/' {
            assert(c =~= seq!['/']);
            return false;
        }
        if chars[a] == '.' {
            assert(c =~= seq!['.']);
            return false;
        }
        assert(c[0] != seq!['/'][0] && c[0] != seq!['.'][0]);
        assert(c.len() != seq!['.', '.'].len());
        return true;
    }
    if b - a == 2 && chars[a] == '.' && chars[a + 1] == '.' {
        assert(c =~= seq!['.', '.']);
        return false;
    }
    if b - a == 2 {
        assert(c[0] != seq!['.', '.'][0] || c[1] != seq!['.', '.'][1]);
    }
    assert(c.len() != seq!['/'].len());
    true
}

proof fn lemma_component_at(s: Seq<char>, starts: Seq<usize>, ends: Seq<usize>, k: int)
    requires
        starts.len() == ends.len(),
        pairs(starts, ends) == component_ranges(s),
        0 <= k < starts.len(),
    ensures
        components(s)[k] == s.subrange(starts[k] as int, ends[k] as int),
        components(s).len() == starts.len(),
        component_ranges(s)[k] == (starts[k] as int, ends[k] as int),
{
    assert(pairs(starts, ends)[k] == (starts[k] as int, ends[k] as int));
}

/// `Path::file_name` of `path`.
pub fn file_name_opt(path: &str) -> (r: Option<&str>)
    ensures
        match file_name_of(path@) {
            Some(n) => r matches Some(x) && x@ == n,
            None => r is None,
        },
{
    let chars = chars_of(path);
    let (st, en) = component_ranges_of(&chars);
    let k = st.len();
    proof {
        assert(components(path@).len() == component_ranges(path@).len());
        assert(pairs(st@, en@).len() == k);
    }
    if k > 0 {
        let a = st[k - 1];
        let b = en[k - 1];
        proof {
            lemma_component_at(path@, st@, en@, k - 1);
        }
        if is_name_range(&chars, a, b) {
            return Some(path.substring_char(a, b));
        }
    }
    None
}

/// The file name of `path`, or `path` itself where it has none.
pub fn file_name(path: &str) -> (r: &str)
    ensures
        r@ == match file_name_of(path@) {
            Some(n) => n,
            None => path@,
        },
{
    match file_name_opt(path) {
        Some(n) => n,
        None => path,
    }
}

/// `Path::extension` of `path`.
pub fn extension(path: &str) -> (r: Option<&str>)
    ensures
        match extension_of(path@) {
            Some(e) => r matches Some(x) && x@ == e,
            None => r is None,
        },
{
    let chars = chars_of(path);
    let (st, en) = component_ranges_of(&chars);
    let k = st.len();
    proof {
        assert(components(path@).len() == component_ranges(path@).len());
        assert(pairs(st@, en@).len() == k);
    }
    if k > 0 {
        let a = st[k - 1];
        let b = en[k - 1];
        proof {
            lemma_component_at(path@, st@, en@, k - 1);
        }
        if is_name_range(&chars, a, b) {
            match extension_start(&chars, a, b) {
                Some(e) => {
                    proof {
                        let n = chars@.subrange(a as int, b as int);
                        let kk = last_index_of(n, '.');
                        assert(n.skip(kk + 1) =~= chars@.subrange(e as int, b as int));
                    }
                    return Some(path.substring_char(e, b));
                },
                None => {},
            }
        }
    }
    None
}

/// `Path::file_stem`: the file name without its extension.
pub open spec fn file_stem_of(s: Seq<char>) -> Option<Seq<char>> {
    match file_name_of(s) {
        Some(n) => {
            let k = last_index_of(n, '.');
            if k <= 0 {
                Some(n)
            } else {
                Some(n.take(k))
            }
        },
        None => None,
    }
}

/// `Path::file_stem` of `path`.
pub fn file_stem(path: &str) -> (r: Option<&str>)
    ensures
        match file_stem_of(path@) {
            Some(e) => r matches Some(x) && x@ == e,
            None => r is None,
        },
{
    let chars = chars_of(path);
    let (st, en) = component_ranges_of(&chars);
    let k = st.len();
    proof {
        assert(components(path@).len() == component_ranges(path@).len());
        assert(pairs(st@, en@).len() == k);
    }
    if k > 0 {
        let a = st[k - 1];
        let b = en[k - 1];
        proof {
            lemma_component_at(path@, st@, en@, k - 1);
        }
        if is_name_range(&chars, a, b) {
            match extension_start(&chars, a, b) {
                Some(e) => {
                    proof {
                        let n = chars@.subrange(a as int, b as int);
                        let kk = last_index_of(n, '.');
                        assert(n.take(kk) =~= chars@.subrange(a as int, e - 1));
                    }
                    return Some(path.substring_char(a, e - 1));
                },
                None => {
                    return Some(path.substring_char(a, b));
                },
            }
        }
    }
    None
}

/// The extension of `path`, or `(none)`.
pub fn file_ext(path: &str) -> (r: &str)
    ensures
        r@ == match extension_of(path@) {
            Some(e) => e,
            None => "(none)"@,
        },
{
    match extension(path) {
        Some(e) => e,
        None => "(none)",
    }
}

/// Whether `path` names an entry directly inside the directory `dir`.
pub fn is_entry_in_current_dir(current_vfs_dir: &str, path: &str) -> (r: bool)
    ensures
        r == in_dir(current_vfs_dir@, path@),
{
    let pc = chars_of(path);
    let dc = chars_of(current_vfs_dir);
    let (ps, pe) = component_ranges_of(&pc);
    let (ds, de) = component_ranges_of(&dc);
    let ghost c = components(path@);
    let ghost d = components(current_vfs_dir@);
    proof {
        assert(c.len() == ps@.len());
        assert(d.len() == ds@.len());
    }
    let n = ps.len();
    if n == 0 {
        return false;
    }
    proof {
        lemma_component_at(path@, ps@, pe@, n - 1);
    }
    if pe[n - 1] - ps[n - 1] == 1 && pc[ps[n - 1]] == '/' {
        assert(c.last() =~= seq!['/']);
        return false;
    }
    proof {
        if pe[n - 1] - ps[n - 1] == 1 {
            assert(c.last()[0] != seq!['/'][0]);
        } else {
            assert(c.last().len() != seq!['/'].len());
        }
    }
    if n - 1 != ds.len() {
        assert(c.drop_last().len() != d.len());
        return false;
    }
    let mut i: usize = 0;
    while i < n - 1
        invariant
            n == ps@.len(),
            n - 1 == ds@.len(),
            c.len() == n,
            d.len() == n - 1,
            i <= n - 1,
            c == components(path@),
            d == components(current_vfs_dir@),
            pc@ == path@,
            dc@ == current_vfs_dir@,
            pairs(ps@, pe@) == component_ranges(pc@),
            pairs(ds@, de@) == component_ranges(dc@),
            ps@.len() == pe@.len(),
            ds@.len() == de@.len(),
            forall|k: int| 0 <= k < ps@.len() ==> #[trigger] ps@[k] < pe@[k] <= pc@.len(),
            forall|k: int| 0 <= k < ds@.len() ==> #[trigger] ds@[k] < de@[k] <= dc@.len(),
            forall|k: int| 0 <= k < i ==> c[k] == d[k],
        decreases n - 1 - i,
    {
        proof {
            lemma_component_at(path@, ps@, pe@, i as int);
            lemma_component_at(current_vfs_dir@, ds@, de@, i as int);
            assert(ps@[i as int] < pe@[i as int] <= pc@.len());
            assert(ds@[i as int] < de@[i as int] <= dc@.len());
        }
        if !range_eq(&pc, ps[i], pe[i], &dc, ds[i], de[i]) {
            assert(c.drop_last()[i as int] != d[i as int]);
            return false;
        }
        i = i + 1;
    }
    assert(c.drop_last() =~= d);
    true
}

/// The subdirectory of `dir` that `path` lies in, when it lies deeper than
/// one level inside `dir`.
pub fn get_subdirectory_from_path(current_vfs_dir: &str, path: &str) -> (r: Option<String>)
    ensures
        r matches Some(s) ==> subdir_of(current_vfs_dir@, path@) == Some(s@),
        r is None ==> subdir_of(current_vfs_dir@, path@) is None,
{
    let pc = chars_of(path);
    let dc = chars_of(current_vfs_dir);
    let (ps, pe) = component_ranges_of(&pc);
    let (ds, de) = component_ranges_of(&dc);
    let ghost c = components(path@);
    let ghost d = components(current_vfs_dir@);
    proof {
        assert(c.len() == ps@.len());
        assert(d.len() == ds@.len());
    }
    let n = ps.len();
    let m = ds.len();
    if n < 2 || m > n - 2 {
        return None;
    }
    let mut i: usize = 0;
    while i < m
        invariant
            n == ps@.len(),
            m == ds@.len(),
            m + 2 <= n,
            c.len() == n,
            d.len() == m,
            i <= m,
            c == components(path@),
            d == components(current_vfs_dir@),
            pc@ == path@,
            dc@ == current_vfs_dir@,
            pairs(ps@, pe@) == component_ranges(pc@),
            pairs(ds@, de@) == component_ranges(dc@),
            ps@.len() == pe@.len(),
            ds@.len() == de@.len(),
            forall|k: int| 0 <= k < ps@.len() ==> #[trigger] ps@[k] < pe@[k] <= pc@.len(),
            forall|k: int| 0 <= k < ds@.len() ==> #[trigger] ds@[k] < de@[k] <= dc@.len(),
            forall|k: int| 0 <= k < i ==> c[k] == d[k],
        decreases m - i,
    {
        proof {
            lemma_component_at(path@, ps@, pe@, i as int);
            lemma_component_at(current_vfs_dir@, ds@, de@, i as int);
            assert(ps@[i as int] < pe@[i as int] <= pc@.len());
            assert(ds@[i as int] < de@[i as int] <= dc@.len());
        }
        if !range_eq(&pc, ps[i], pe[i], &dc, ds[i], de[i]) {
            assert(c.take(m as int)[i as int] != d[i as int]);
            return None;
        }
        i = i + 1;
    }
    assert(c.take(m as int) =~= d);
    proof {
        lemma_component_at(path@, ps@, pe@, m as int);
        assert(ps@[m as int] < pe@[m as int] <= pc@.len());
    }
    Some(string_of(&pc, ps[m], pe[m]))
}

/// The child directory of `dir` that directory path `dir_path` passes
/// through, by plain text.
pub fn get_child_dir(current_vfs_dir: &str, dir_path: &str) -> (r: Option<String>)
    ensures
        r matches Some(s) ==> child_dir_of(current_vfs_dir@, dir_path@) == Some(s@),
        r is None ==> child_dir_of(current_vfs_dir@, dir_path@) is None,
{
    let dc = chars_of(current_vfs_dir);
    let pc = chars_of(dir_path);
    let start: usize;
    if dc.len() == 0 {
        start = 0;
    } else {
        if pc.len() <= dc.len() || !range_eq(&pc, 0, dc.len(), &dc, 0, dc.len()) || pc[dc.len()] != '/' {
            proof {
                if pc@.len() > dc@.len() {
                    assert(pc@.subrange(0, dc@.len() as int) =~= pc@.take(dc@.len() as int));
                    assert(dc@.subrange(0, dc@.len() as int) =~= dc@);
                }
            }
            return None;
        }
        proof {
            assert(pc@.subrange(0, dc@.len() as int) =~= pc@.take(dc@.len() as int));
            assert(dc@.subrange(0, dc@.len() as int) =~= dc@);
        }
        start = dc.len() + 1;
    }
    let ghost rest = pc@.skip(start as int);
    let mut i = start;
    while i < pc.len() && pc[i] != '/'
        invariant
            start <= i <= pc@.len(),
            rest == pc@.skip(start as int),
            forall|k: int| 0 <= k < i - start ==> rest[k] != '/',
        decreases pc@.len() - i,
    {
        i = i + 1;
    }
    proof {
        lemma_index_of_first(rest, '/', i - start);
        assert(rest.take(i - start) =~= pc@.subrange(start as int, i as int));
        if dc@.len() == 0 {
            assert(rest =~= pc@);
        }
    }
    Some(string_of(&pc, start, i))
}

/// The parent of `path`, as written, or "" where it has none.
pub fn parent_str(path: &str) -> (r: String)
    ensures
        r@ == match parent_of(path@) {
            Some(p) => p,
            None => Seq::empty(),
        },
{
    let chars = chars_of(path);
    let (st, en) = component_ranges_of(&chars);
    let n = st.len();
    proof {
        assert(components(path@).len() == component_ranges(path@).len());
        assert(pairs(st@, en@).len() == n);
    }
    if n == 0 {
        return String::new();
    }
    if n == 1 {
        return String::new();
    }
    proof {
        lemma_component_at(path@, st@, en@, (n - 2) as int);
        assert(st@[n - 2] < en@[n - 2] <= chars@.len());
    }
    let e = en[n - 2];
    assert(chars@.subrange(0, e as int) =~= path@.take(e as int));
    string_of(&chars, 0, e)
}

/// A plain file or folder name: not empty, without `/`, and neither `.` nor
/// `..`.
pub open spec fn plain_name(n: Seq<char>) -> bool {
    &&& n.len() > 0
    &&& forall|k: int| 0 <= k < n.len() ==> n[k] != '/'
    &&& n != seq!['.']
    &&& n != seq!['.', '.']
}

/// Scanning only looks at what it has scanned: a string that begins with `p`
/// scans like `p` over `p`'s length.
proof fn lemma_scan_prefix(t: Seq<char>, p: Seq<char>, m: nat)
    requires
        p.len() <= t.len(),
        t.take(p.len() as int) == p,
        m <= p.len(),
    ensures
        scan(t, m) == scan(p, m),
    decreases m,
{
    if m > 0 {
        lemma_scan_prefix(t, p, (m - 1) as nat);
        lemma_scan_bounds(p, (m - 1) as nat);
        let st = scan(p, (m - 1) as nat).1;
        assert(t[m - 1] == t.take(p.len() as int)[m - 1]);
        assert(t.subrange(st, m - 1) =~= p.subrange(st, m - 1));
    }
}

/// Characters other than `/` close no segment.
proof fn lemma_scan_no_slash(t: Seq<char>, a: nat, m: nat)
    requires
        a <= m <= t.len(),
        forall|k: int| a <= k < m ==> t[k] != '/',
    ensures
        scan(t, m) == scan(t, a),
    decreases m,
{
    if m > a {
        lemma_scan_no_slash(t, a, (m - 1) as nat);
    }
}

/// A plain name alone is one component.
proof fn lemma_name_ranges(n: Seq<char>)
    requires
        plain_name(n),
    ensures
        component_ranges(n) == seq![(0int, n.len() as int)],
{
    lemma_scan_no_slash(n, 0, n.len());
    if n.len() == 1 {
        assert(n =~= seq![n[0]]);
        assert(n[0] != '.');
    }
    assert(n.subrange(0, n.len() as int) =~= n);
    assert(front_ranges(n) =~= Seq::<(int, int)>::empty());
    assert(component_ranges(n) =~= seq![(0int, n.len() as int)]);
}

/// Joining a plain name under a path adds it as one last component.
proof fn lemma_join_ranges(p: Seq<char>, n: Seq<char>)
    requires
        p.len() > 0,
        plain_name(n),
    ensures
        component_ranges(p + seq!['/'] + n) == component_ranges(p).push(((p.len() + 1) as int, (p.len() + 1 + n.len()) as int)),
{
    let t = p + seq!['/'] + n;
    let lp: int = p.len() as int;
    assert(t.take(lp) =~= p);
    lemma_scan_prefix(t, p, p.len());
    lemma_scan_bounds(p, p.len());
    let dp = scan(p, p.len()).0;
    let sp = scan(p, p.len()).1;
    assert(t[lp] == '/');
    assert(t.subrange(sp, lp) =~= p.subrange(sp, lp));
    assert(scan(t, (lp + 1) as nat) == (keep(p, dp, sp, lp), lp + 1));
    assert forall|k: int| lp + 1 <= k < t.len() implies t[k] != '/' by {
        assert(t[k] == n[k - lp - 1]);
    }
    lemma_scan_no_slash(t, (lp + 1) as nat, t.len());
    assert(t.subrange(lp + 1, t.len() as int) =~= n);
    if t.len() == lp + 2 {
        assert(n =~= seq![n[0]]);
    }
    assert(kept(t, lp + 1, t.len() as int));
    if p.len() == 1 {
        assert(t[1] == '/');
    } else {
        assert(t[1] == p[1]);
    }
    assert(t[0] == p[0]);
    assert(front_ranges(t) == front_ranges(p));
    assert(component_ranges(t) =~= component_ranges(p).push((lp + 1, lp + 1 + n.len())));
}

/// Where a path `p` ends with its last component (or is empty), a plain name
/// placed in it, as `p/name` or just `name`, has `p` as its parent, as
/// `std::path::Path::parent` gives it, and the name as its file name.
pub proof fn lemma_name_in_dir(p: Seq<char>, n: Seq<char>)
    requires
        plain_name(n),
        p.len() == 0 || (component_ranges(p).len() > 0 && component_ranges(p).last().1 == p.len()),
    ensures
        parent_of(if p.len() == 0 { n } else { p + seq!['/'] + n }) == Some(p),
        file_name_of(if p.len() == 0 { n } else { p + seq!['/'] + n }) == Some(n),
{
    if p.len() == 0 {
        lemma_name_ranges(n);
        assert(components(n) =~= seq![n.subrange(0, n.len() as int)]);
        assert(n.subrange(0, n.len() as int) =~= n);
        assert(n != seq!['/']) by {
            if n == seq!['/'] {
                assert(n[0] == '/');
            }
        }
        assert(p =~= Seq::<char>::empty());
    } else {
        let t = p + seq!['/'] + n;
        lemma_join_ranges(p, n);
        let c = component_ranges(t);
        let cp = component_ranges(p);
        assert(c.len() >= 2);
        assert(c[c.len() - 2] == cp.last());
        assert(t.take(p.len() as int) =~= p);
        let lp: int = p.len() as int;
        assert(components(t).last() == t.subrange(lp + 1, t.len() as int));
        assert(t.subrange(lp + 1, t.len() as int) =~= n);
        assert(n != seq!['/']) by {
            if n == seq!['/'] {
                assert(n[0] == '/');
            }
        }
    }
}

} // verus!

//! Where each region of a group is written: flat files for single-region
//! groups, a subdirectory of address-range files otherwise.
use vstd::prelude::*;
use crate::group::{GroupView, RegionGroup};
use crate::region::{PageView, VirtMemoryPage};
use crate::text::{chars_of, string_of};

verus! {

/// `s` with every `/` replaced by `_`.
pub open spec fn sanitized(s: Seq<char>) -> Seq<char> {
    Seq::new(s.len(), |i: int| if s[i] == '/' { '_' } else { s[i] })
}

/// `c` placed under the directory `base`; a `c` that starts with `/` is appended as it is.
pub open spec fn join_path(base: Seq<char>, c: Seq<char>) -> Seq<char> {
    if c.len() > 0 && c[0] == '/' {
        base + c
    } else {
        base + seq!['/'] + c
    }
}

pub open spec fn digit_char(d: nat) -> char {
    if d == 0 {
        '0'
    } else if d == 1 {
        '1'
    } else if d == 2 {
        '2'
    } else if d == 3 {
        '3'
    } else if d == 4 {
        '4'
    } else if d == 5 {
        '5'
    } else if d == 6 {
        '6'
    } else if d == 7 {
        '7'
    } else if d == 8 {
        '8'
    } else {
        '9'
    }
}

/// The decimal digits of `n`, without leading zeros.
pub open spec fn decimal(n: nat) -> Seq<char>
    decreases n,
{
    if n < 10 {
        seq![digit_char(n)]
    } else {
        decimal(n / 10).push(digit_char(n % 10))
    }
}

/// `"{from}-{to}"` in decimal.
pub open spec fn range_name(p: PageView) -> Seq<char> {
    decimal(p.from as nat) + seq!['-'] + decimal(p.to as nat)
}

/// Directory name for a multi-region group whose identity is empty.
pub open spec fn fallback_name() -> Seq<char> {
    seq!['n', 'o', '-', 'n', 'a', 'm', 'e']
}

/// The directory a group's files go to.
pub open spec fn group_dir(base: Seq<char>, g: GroupView) -> Seq<char> {
    if g.pages.len() == 1 {
        base
    } else if g.key.len() == 0 {
        join_path(base, fallback_name())
    } else {
        join_path(base, g.key)
    }
}

/// The file name of the `i`-th region of a group.
pub open spec fn file_name(g: GroupView, i: int) -> Seq<char> {
    if g.pages.len() == 1 {
        sanitized(g.key)
    } else {
        range_name(g.pages[i])
    }
}

/// Where one group is written: its directory, and one file path per region, in order.
#[derive(Debug)]
pub struct OutputPlan {
    pub dir: String,
    pub files: Vec<String>,
}

impl OutputPlan {
    /// The plan holds the layout of group `g` under `base`.
    pub open spec fn describes(&self, base: Seq<char>, g: GroupView) -> bool {
        &&& self.dir@ == group_dir(base, g)
        &&& self.files.len() == g.pages.len()
        &&& forall|i: int|
            0 <= i < self.files.len() ==> (#[trigger] self.files@[i])@ == join_path(
                self.dir@,
                file_name(g, i),
            )
    }
}

fn digit(d: u64) -> (r: char)
    requires
        d < 10,
    ensures
        r == digit_char(d as nat),
{
    if d == 0 {
        '0'
    } else if d == 1 {
        '1'
    } else if d == 2 {
        '2'
    } else if d == 3 {
        '3'
    } else if d == 4 {
        '4'
    } else if d == 5 {
        '5'
    } else if d == 6 {
        '6'
    } else if d == 7 {
        '7'
    } else if d == 8 {
        '8'
    } else {
        '9'
    }
}

fn push_decimal(n: u64, out: &mut Vec<char>)
    ensures
        final(out)@ == old(out)@ + decimal(n as nat),
    decreases n,
{
    if n >= 10 {
        push_decimal(n / 10, out);
    }
    out.push(digit(n % 10));
}

/// Appends `s` to `out`.
fn push_all(out: &mut Vec<char>, s: &Vec<char>)
    ensures
        final(out)@ == old(out)@ + s@,
{
    let ghost start = out@;
    let mut i: usize = 0;
    while i < s.len()
        invariant
            i <= s.len(),
            out@ == start + s@.subrange(0, i as int),
        decreases s.len() - i,
    {
        out.push(s[i]);
        assert(s@.subrange(0, i + 1) == s@.subrange(0, i as int).push(s@[i as int]));
        i = i + 1;
    }
    assert(s@.subrange(0, s.len() as int) == s@);
}

fn join_chars(base: &Vec<char>, c: &Vec<char>) -> (r: Vec<char>)
    ensures
        r@ == join_path(base@, c@),
{
    let mut r: Vec<char> = Vec::new();
    push_all(&mut r, base);
    if !(c.len() > 0 && c[0] == '/') {
        r.push('/');
    }
    push_all(&mut r, c);
    assert(r@ =~= join_path(base@, c@));
    r
}

fn sanitize(s: &Vec<char>) -> (r: Vec<char>)
    ensures
        r@ == sanitized(s@),
{
    let mut r: Vec<char> = Vec::new();
    let mut i: usize = 0;
    while i < s.len()
        invariant
            i <= s.len(),
            r@ == sanitized(s@).subrange(0, i as int),
        decreases s.len() - i,
    {
        if s[i] == '/' {
            r.push('_');
        } else {
            r.push(s[i]);
        }
        assert(r@ =~= sanitized(s@).subrange(0, i + 1));
        i = i + 1;
    }
    assert(r@ =~= sanitized(s@));
    r
}

fn range_chars(p: &VirtMemoryPage) -> (r: Vec<char>)
    ensures
        r@ == range_name(p@),
{
    let mut r: Vec<char> = Vec::new();
    push_decimal(p.from, &mut r);
    r.push('-');
    push_decimal(p.to, &mut r);
    assert(r@ =~= range_name(p@));
    r
}

/// Decides the directory and the file path of every region of `group` under `base`.
pub fn plan_output(group: &RegionGroup, base: &str) -> (r: OutputPlan)
    ensures
        r.describes(base@, group@),
{
    let base_chars = chars_of(base);
    let key = chars_of(group.file_path.as_str());
    let n = group.pages.len();
    let dir: Vec<char> = if n == 1 {
        base_chars
    } else if key.len() == 0 {
        let fallback = chars_of("no-name");
        proof {
            reveal_strlit("no-name");
        }
        assert(fallback@ == fallback_name());
        join_chars(&base_chars, &fallback)
    } else {
        join_chars(&base_chars, &key)
    };
    let ghost g = group@;
    assert(g.pages.len() == n);
    let mut files: Vec<String> = Vec::new();
    let mut i: usize = 0;
    while i < n
        invariant
            i <= n == group.pages.len(),
            g == group@,
            key@ == g.key,
            files.len() == i,
            forall|j: int|
                0 <= j < i ==> (#[trigger] files@[j])@ == join_path(dir@, file_name(g, j)),
        decreases n - i,
    {
        let name = if n == 1 {
            sanitize(&key)
        } else {
            range_chars(&group.pages[i])
        };
        assert(g.pages[i as int] == group.pages@[i as int]@);
        let path = join_chars(&dir, &name);
        files.push(string_of(path.as_slice()));
        i = i + 1;
    }
    OutputPlan { dir: string_of(dir.as_slice()), files }
}

} // verus!

//! Memory regions and the parser for one line of a memory-map descriptor.
use vstd::prelude::*;
use crate::text::{chars_of, is_space, is_space_char, string_of};

verus! {

/// Access rights of a region; the private/shared marker carries none.
#[derive(Clone, Copy, Debug, PartialEq, Eq, Structural)]
pub struct Mode {
    pub read: bool,
    pub write: bool,
    pub execute: bool,
}

/// One mapped extent `[from, to)` of a process's address space.
#[derive(Debug)]
pub struct VirtMemoryPage {
    pub from: u64,
    pub to: u64,
    pub mode: Mode,
    /// A file path, a bracketed pseudo-name such as `[heap]`, or empty.
    pub file_path: String,
}

pub struct PageView {
    pub from: u64,
    pub to: u64,
    pub mode: Mode,
    pub file_path: Seq<char>,
}

impl View for VirtMemoryPage {
    type V = PageView;

    open spec fn view(&self) -> PageView {
        PageView { from: self.from, to: self.to, mode: self.mode, file_path: self.file_path@ }
    }
}

impl VirtMemoryPage {
    pub open spec fn wf(&self) -> bool {
        self.from < self.to
    }

    /// A copy of this region.
    pub fn clone_page(&self) -> (r: VirtMemoryPage)
        ensures
            r@ == self@,
            r.wf() == self.wf(),
    {
        VirtMemoryPage {
            from: self.from,
            to: self.to,
            mode: self.mode,
            file_path: self.file_path.clone(),
        }
    }
}

/// Why a descriptor line was rejected.
#[derive(Clone, Copy, Debug, PartialEq, Eq, Structural)]
pub enum ParseError {
    /// Fewer than five whitespace-separated fields.
    TooFewFields,
    /// A permission character other than `r`, `w`, `x`, `p`, `s` or `-`.
    BadPermission,
    /// The address range does not split on `-` into exactly two parts.
    BadRange,
    /// An address is empty, holds a non-hex character, or exceeds 64 bits.
    BadAddress,
    /// The range end does not lie above its start.
    EmptyRange,
}

/// The whitespace-separated fields of `s`, in order (as `str::split_whitespace`).
pub open spec fn fields(s: Seq<char>) -> Seq<Seq<char>>
    decreases s.len(),
{
    if s.len() == 0 {
        seq![]
    } else {
        let prev = fields(s.drop_last());
        let c = s.last();
        if is_space(c) {
            prev
        } else if s.len() >= 2 && !is_space(s[s.len() - 2]) {
            prev.update(prev.len() - 1, prev.last().push(c))
        } else {
            prev.push(seq![c])
        }
    }
}

pub open spec fn is_mode_char(c: char) -> bool {
    c == 'r' || c == 'w' || c == 'x' || c == 'p' || c == 's' || c == '-'
}

/// The access rights a permission field grants, or `None` if it holds a foreign character.
pub open spec fn mode_of(p: Seq<char>) -> Option<Mode> {
    if forall|i: int| 0 <= i < p.len() ==> is_mode_char(#[trigger] p[i]) {
        Some(Mode { read: p.contains('r'), write: p.contains('w'), execute: p.contains('x') })
    } else {
        None
    }
}

pub open spec fn is_hex_digit(c: char) -> bool {
    ('0' <= c && c <= '9') || ('a' <= c && c <= 'f') || ('A' <= c && c <= 'F')
}

pub open spec fn hex_digit_value(c: char) -> nat {
    if '0' <= c && c <= '9' {
        (c as nat - '0' as nat) as nat
    } else if 'a' <= c && c <= 'f' {
        (c as nat - 'a' as nat + 10) as nat
    } else {
        (c as nat - 'A' as nat + 10) as nat
    }
}

/// The number that the hex digits of `s` spell, most significant first.
pub open spec fn hex_value(s: Seq<char>) -> nat
    decreases s.len(),
{
    if s.len() == 0 {
        0
    } else {
        hex_value(s.drop_last()) * 16 + hex_digit_value(s.last())
    }
}

/// `s` read as a base-16 64-bit unsigned integer.
pub open spec fn hex_of(s: Seq<char>) -> Option<u64> {
    if s.len() > 0 && (forall|i: int| 0 <= i < s.len() ==> is_hex_digit(#[trigger] s[i]))
        && hex_value(s) <= u64::MAX {
        Some(hex_value(s) as u64)
    } else {
        None
    }
}

/// `d` is the position of the only `-` in `s`.
pub open spec fn sole_dash_at(s: Seq<char>, d: int) -> bool {
    &&& 0 <= d < s.len()
    &&& s[d] == '-'
    &&& forall|j: int| 0 <= j < s.len() && j != d ==> s[j] != '-'
}

/// The two sides of the range field, when it holds exactly one `-`.
pub open spec fn range_parts(s: Seq<char>) -> Option<(Seq<char>, Seq<char>)> {
    if exists|d: int| sole_dash_at(s, d) {
        let d = choose|d: int| sole_dash_at(s, d);
        Some((s.subrange(0, d), s.subrange(d + 1, s.len() as int)))
    } else {
        None
    }
}

/// The fields joined with single spaces.
pub open spec fn join_fields(fs: Seq<Seq<char>>) -> Seq<char>
    decreases fs.len(),
{
    if fs.len() == 0 {
        seq![]
    } else if fs.len() == 1 {
        fs[0]
    } else {
        join_fields(fs.drop_last()) + seq![' '] + fs.last()
    }
}

/// The region a descriptor line `ADDR1-ADDR2 PERMS OFFSET DEV INODE [PATH...]` describes.
pub open spec fn parse_line(s: Seq<char>) -> Result<PageView, ParseError> {
    let f = fields(s);
    if f.len() < 5 {
        Err(ParseError::TooFewFields)
    } else if mode_of(f[1]) is None {
        Err(ParseError::BadPermission)
    } else if range_parts(f[0]) is None {
        Err(ParseError::BadRange)
    } else {
        let (a, b) = range_parts(f[0])->0;
        if hex_of(a) is None || hex_of(b) is None {
            Err(ParseError::BadAddress)
        } else if hex_of(a)->0 >= hex_of(b)->0 {
            Err(ParseError::EmptyRange)
        } else {
            Ok(
                PageView {
                    from: hex_of(a)->0,
                    to: hex_of(b)->0,
                    mode: mode_of(f[1])->0,
                    file_path: join_fields(f.subrange(5, f.len() as int)),
                },
            )
        }
    }
}

/// A parse result seen through the region's view.
pub open spec fn result_view(r: Result<VirtMemoryPage, ParseError>) -> Result<PageView, ParseError> {
    match r {
        Ok(p) => Ok(p@),
        Err(e) => Err(e),
    }
}

/// The lines of `s` split at every `\n` (as `str::split('\n')`).
pub open spec fn lines(s: Seq<char>) -> Seq<Seq<char>>
    decreases s.len(),
{
    if s.len() == 0 {
        seq![seq![]]
    } else {
        let prev = lines(s.drop_last());
        if s.last() == '\n' {
            prev.push(seq![])
        } else {
            prev.update(prev.len() - 1, prev.last().push(s.last()))
        }
    }
}

/// The regions of the non-empty lines, in order, or the error of the first line that fails.
pub open spec fn parse_lines(ls: Seq<Seq<char>>) -> Result<Seq<PageView>, ParseError>
    decreases ls.len(),
{
    if ls.len() == 0 {
        Ok(seq![])
    } else {
        match parse_lines(ls.drop_last()) {
            Err(e) => Err(e),
            Ok(ps) => if ls.last().len() == 0 {
                Ok(ps)
            } else {
                match parse_line(ls.last()) {
                    Ok(p) => Ok(ps.push(p)),
                    Err(e) => Err(e),
                }
            },
        }
    }
}

/// The regions a whole descriptor text describes.
pub open spec fn parse_descriptor(s: Seq<char>) -> Result<Seq<PageView>, ParseError> {
    parse_lines(lines(s))
}

pub open spec fn pages_view(ps: Seq<VirtMemoryPage>) -> Seq<PageView> {
    ps.map_values(|p: VirtMemoryPage| p@)
}

pub open spec fn all_wf(ps: Seq<VirtMemoryPage>) -> bool {
    forall|i: int| 0 <= i < ps.len() ==> (#[trigger] ps[i]).wf()
}

pub open spec fn pages_result_view(r: Result<Vec<VirtMemoryPage>, ParseError>) -> Result<
    Seq<PageView>,
    ParseError,
> {
    match r {
        Ok(v) => Ok(pages_view(v@)),
        Err(e) => Err(e),
    }
}

/// A line whose range field is `a-b`, with hex addresses `a < b`, and whose permission
/// field holds only `r`, `w`, `x`, `p`, `s` and `-`, parses: to the rights that field
/// names and to the remaining fields as backing identity.
pub proof fn lemma_valid_line_parses(s: Seq<char>, a: Seq<char>, b: Seq<char>)
    requires
        fields(s).len() >= 5,
        fields(s)[0] == a + seq!['-'] + b,
        hex_of(a) is Some,
        hex_of(b) is Some,
        hex_of(a)->0 < hex_of(b)->0,
        forall|i: int| 0 <= i < fields(s)[1].len() ==> is_mode_char(#[trigger] fields(s)[1][i]),
    ensures
        parse_line(s) == Ok::<PageView, ParseError>(
            PageView {
                from: hex_of(a)->0,
                to: hex_of(b)->0,
                mode: Mode {
                    read: fields(s)[1].contains('r'),
                    write: fields(s)[1].contains('w'),
                    execute: fields(s)[1].contains('x'),
                },
                file_path: join_fields(fields(s).subrange(5, fields(s).len() as int)),
            },
        ),
{
    let f0 = fields(s)[0];
    let d = a.len() as int;
    assert forall|j: int| 0 <= j < f0.len() && j != d implies f0[j] != '-' by {
        if j < d {
            assert(f0[j] == a[j]);
            assert(is_hex_digit(a[j]));
        } else {
            assert(f0[j] == b[j - d - 1]);
            assert(is_hex_digit(b[j - d - 1]));
        }
    }
    assert(sole_dash_at(f0, d));
    let e = choose|e: int| sole_dash_at(f0, e);
    assert(e == d);
    assert(f0.subrange(0, d) =~= a);
    assert(f0.subrange(d + 1, f0.len() as int) =~= b);
}

/// A line with fewer than five fields is rejected.
pub proof fn lemma_few_fields_rejected(s: Seq<char>)
    requires
        fields(s).len() < 5,
    ensures
        parse_line(s) == Err::<PageView, ParseError>(ParseError::TooFewFields),
{
}

/// The character sequences held by a list of character vectors.
pub open spec fn char_rows(rows: Seq<Vec<char>>) -> Seq<Seq<char>> {
    rows.map_values(|v: Vec<char>| v@)
}

fn split_fields(line: &[char]) -> (r: Vec<Vec<char>>)
    ensures
        char_rows(r@) == fields(line@),
{
    let mut parts: Vec<Vec<char>> = Vec::new();
    let mut i: usize = 0;
    while i < line.len()
        invariant
            i <= line.len(),
            char_rows(parts@) == fields(line@.subrange(0, i as int)),
            i > 0 && !is_space(line@[i - 1]) ==> parts.len() > 0,
        decreases line.len() - i,
    {
        let c = line[i];
        let ghost prefix = line@.subrange(0, i as int);
        let ghost next = line@.subrange(0, i + 1);
        let ghost before = char_rows(parts@);
        assert(next.drop_last() == prefix);
        assert(next.last() == c);
        assert(i > 0 ==> next[next.len() - 2] == line@[i - 1]);
        if is_space_char(c) {
        } else if i > 0 && !is_space_char(line[i - 1]) {
            let mut last = parts.pop().unwrap();
            assert(last@ == before.last());
            last.push(c);
            parts.push(last);
            assert(char_rows(parts@) =~= before.update(before.len() - 1, before.last().push(c)));
        } else {
            let mut single: Vec<char> = Vec::new();
            single.push(c);
            assert(single@ =~= seq![c]);
            parts.push(single);
            assert(char_rows(parts@) =~= before.push(seq![c]));
        }
        i = i + 1;
    }
    assert(line@.subrange(0, line.len() as int) == line@);
    parts
}

fn parse_mode(p: &Vec<char>) -> (r: Option<Mode>)
    ensures
        r == mode_of(p@),
{
    let mut mode = Mode { read: false, write: false, execute: false };
    let mut i: usize = 0;
    while i < p.len()
        invariant
            i <= p.len(),
            forall|j: int| 0 <= j < i ==> is_mode_char(#[trigger] p@[j]),
            mode.read <==> exists|j: int| 0 <= j < i && p@[j] == 'r',
            mode.write <==> exists|j: int| 0 <= j < i && p@[j] == 'w',
            mode.execute <==> exists|j: int| 0 <= j < i && p@[j] == 'x',
        decreases p.len() - i,
    {
        let c = p[i];
        if c == 'r' {
            mode.read = true;
        } else if c == 'w' {
            mode.write = true;
        } else if c == 'x' {
            mode.execute = true;
        } else if c == 'p' || c == 's' || c == '-' {
        } else {
            assert(!is_mode_char(p@[i as int]));
            return None;
        }
        i = i + 1;
    }
    proof {
        assert(mode.read == p@.contains('r'));
        assert(mode.write == p@.contains('w'));
        assert(mode.execute == p@.contains('x'));
    }
    Some(mode)
}

fn hex_digit(c: char) -> (r: Option<u64>)
    ensures
        r is Some <==> is_hex_digit(c),
        r is Some ==> r->0 == hex_digit_value(c) && r->0 < 16,
{
    if '0' <= c && c <= '9' {
        Some((c as u32 - '0' as u32) as u64)
    } else if 'a' <= c && c <= 'f' {
        Some((c as u32 - 'a' as u32 + 10) as u64)
    } else if 'A' <= c && c <= 'F' {
        Some((c as u32 - 'A' as u32 + 10) as u64)
    } else {
        None
    }
}

fn parse_hex(s: &[char]) -> (r: Option<u64>)
    ensures
        r == hex_of(s@),
{
    if s.len() == 0 {
        return None;
    }
    let mut value: u64 = 0;
    let mut too_big = false;
    let mut i: usize = 0;
    while i < s.len()
        invariant
            i <= s.len(),
            forall|j: int| 0 <= j < i ==> is_hex_digit(#[trigger] s@[j]),
            !too_big ==> value == hex_value(s@.subrange(0, i as int)),
            too_big ==> hex_value(s@.subrange(0, i as int)) > u64::MAX,
        decreases s.len() - i,
    {
        let ghost prefix = s@.subrange(0, i as int);
        assert(s@.subrange(0, i + 1).drop_last() == prefix);
        match hex_digit(s[i]) {
            None => {
                return None;
            },
            Some(d) => {
                if !too_big {
                    if value > (u64::MAX - d) / 16 {
                        too_big = true;
                    } else {
                        value = value * 16 + d;
                    }
                }
            },
        }
        i = i + 1;
    }
    assert(s@.subrange(0, s.len() as int) == s@);
    if too_big {
        None
    } else {
        Some(value)
    }
}

/// Splits the range field at its only `-`.
fn split_range(s: &Vec<char>) -> (r: Option<(Vec<char>, Vec<char>)>)
    ensures
        match r {
            Some((a, b)) => range_parts(s@) == Some((a@, b@)),
            None => range_parts(s@) is None,
        },
{
    let mut dashes: usize = 0;
    let mut at: usize = 0;
    let mut i: usize = 0;
    while i < s.len()
        invariant
            i <= s.len(),
            dashes <= 2,
            dashes == 0 ==> forall|j: int| 0 <= j < i ==> s@[j] != '-',
            dashes == 1 ==> at < i && s@[at as int] == '-' && forall|j: int|
                0 <= j < i && j != at ==> s@[j] != '-',
            dashes == 2 ==> at < i && s@[at as int] == '-' && exists|j: int|
                0 <= j < i && j != at && s@[j] == '-',
        decreases s.len() - i,
    {
        if s[i] == '-' {
            if dashes == 0 {
                at = i;
                dashes = 1;
            } else if dashes == 1 {
                assert(s@[at as int] == '-');
                at = i;
                dashes = 2;
            }
        }
        i = i + 1;
    }
    if dashes != 1 {
        proof {
            if exists|d: int| sole_dash_at(s@, d) {
                let d = choose|d: int| sole_dash_at(s@, d);
                if dashes == 2 {
                    let j = choose|j: int| 0 <= j < s.len() && j != at && s@[j] == '-';
                    assert(j == d && at as int == d);
                }
            }
        }
        return None;
    }
    assert(sole_dash_at(s@, at as int));
    let ghost d = choose|d: int| sole_dash_at(s@, d);
    assert(d == at);
    let a = string_chars(s, 0, at);
    let b = string_chars(s, at + 1, s.len());
    Some((a, b))
}

fn string_chars(s: &Vec<char>, lo: usize, hi: usize) -> (r: Vec<char>)
    requires
        lo <= hi <= s.len(),
    ensures
        r@ == s@.subrange(lo as int, hi as int),
{
    let mut r: Vec<char> = Vec::new();
    let mut i: usize = lo;
    while i < hi
        invariant
            lo <= i <= hi <= s.len(),
            r@ == s@.subrange(lo as int, i as int),
        decreases hi - i,
    {
        r.push(s[i]);
        assert(r@ =~= s@.subrange(lo as int, i + 1));
        i = i + 1;
    }
    r
}

/// The fields from `start` on, joined with single spaces.
fn join_from(parts: &Vec<Vec<char>>, start: usize) -> (r: Vec<char>)
    requires
        start <= parts.len(),
    ensures
        r@ == join_fields(char_rows(parts@).subrange(start as int, parts.len() as int)),
{
    let ghost rows = char_rows(parts@);
    let mut r: Vec<char> = Vec::new();
    let mut i: usize = start;
    while i < parts.len()
        invariant
            start <= i <= parts.len(),
            rows == char_rows(parts@),
            r@ == join_fields(rows.subrange(start as int, i as int)),
        decreases parts.len() - i,
    {
        let ghost done = r@;
        if i > start {
            r.push(' ');
        }
        let part = &parts[i];
        let mut k: usize = 0;
        while k < part.len()
            invariant
                k <= part.len(),
                i > start ==> r@ == done + seq![' '] + part@.subrange(0, k as int),
                i == start ==> r@ == done + part@.subrange(0, k as int),
            decreases part.len() - k,
        {
            r.push(part[k]);
            assert(part@.subrange(0, k + 1) == part@.subrange(0, k as int).push(part@[k as int]));
            k = k + 1;
        }
        assert(part@.subrange(0, part.len() as int) == part@);
        assert(rows.subrange(start as int, i + 1).drop_last() == rows.subrange(start as int, i as int));
        assert(rows[i as int] == part@);
        assert(i == start ==> done.len() == 0);
        i = i + 1;
    }
    r
}

impl VirtMemoryPage {
    /// Parses one non-empty descriptor line given as characters.
    pub fn from_chars(line: &[char]) -> (r: Result<VirtMemoryPage, ParseError>)
        ensures
            result_view(r) == parse_line(line@),
            r matches Ok(p) ==> p.wf(),
    {
        let parts = split_fields(line);
        assert(char_rows(parts@).len() == parts@.len());
        if parts.len() < 5 {
            return Err(ParseError::TooFewFields);
        }
        assert(char_rows(parts@)[1] == parts@[1]@);
        assert(char_rows(parts@)[0] == parts@[0]@);
        let mode = match parse_mode(&parts[1]) {
            Some(m) => m,
            None => {
                return Err(ParseError::BadPermission);
            },
        };
        let (a, b) = match split_range(&parts[0]) {
            Some(ab) => ab,
            None => {
                return Err(ParseError::BadRange);
            },
        };
        let from = parse_hex(a.as_slice());
        let to = parse_hex(b.as_slice());
        let (from, to) = match (from, to) {
            (Some(x), Some(y)) => (x, y),
            _ => {
                return Err(ParseError::BadAddress);
            },
        };
        if from >= to {
            return Err(ParseError::EmptyRange);
        }
        let path = join_from(&parts, 5);
        Ok(VirtMemoryPage { from, to, mode, file_path: string_of(path.as_slice()) })
    }

    /// Parses one non-empty descriptor line.
    pub fn from_line(line: &str) -> (r: Result<VirtMemoryPage, ParseError>)
        ensures
            result_view(r) == parse_line(line@),
            r matches Ok(p) ==> p.wf(),
    {
        let cs = chars_of(line);
        VirtMemoryPage::from_chars(cs.as_slice())
    }
}

/// Parses a whole descriptor: one region per non-empty line, in order.
pub fn parse_maps(text: &str) -> (r: Result<Vec<VirtMemoryPage>, ParseError>)
    ensures
        pages_result_view(r) == parse_descriptor(text@),
        r matches Ok(v) ==> all_wf(v@),
{
    let cs = chars_of(text);
    let mut pages: Vec<VirtMemoryPage> = Vec::new();
    let mut failed: Option<ParseError> = None;
    let mut cur: Vec<char> = Vec::new();
    let mut i: usize = 0;
    assert(lines(cs@.subrange(0, 0)).drop_last() =~= seq![]);
    assert(pages_view(pages@) =~= seq![]);
    while i < cs.len()
        invariant
            i <= cs.len(),
            cs@ == text@,
            lines(cs@.subrange(0, i as int)).len() >= 1,
            lines(cs@.subrange(0, i as int)).last() == cur@,
            failed is None ==> parse_lines(lines(cs@.subrange(0, i as int)).drop_last()) == Ok::<
                Seq<PageView>,
                ParseError,
            >(pages_view(pages@)),
            failed matches Some(e) ==> parse_lines(lines(cs@.subrange(0, i as int)).drop_last())
                == Err::<Seq<PageView>, ParseError>(e),
            all_wf(pages@),
        decreases cs.len() - i,
    {
        let ghost prev = lines(cs@.subrange(0, i as int));
        assert(cs@.subrange(0, i + 1).drop_last() == cs@.subrange(0, i as int));
        let c = cs[i];
        if c == '\n' {
            assert(lines(cs@.subrange(0, i + 1)).drop_last() == prev);
            assert(prev.drop_last().push(prev.last()) == prev);
            if failed.is_none() && cur.len() > 0 {
                match VirtMemoryPage::from_chars(cur.as_slice()) {
                    Ok(p) => {
                        let ghost before = pages@;
                        pages.push(p);
                        assert(pages_view(pages@) =~= pages_view(before).push(p@));
                    },
                    Err(e) => {
                        failed = Some(e);
                    },
                }
            }
            cur = Vec::new();
        } else {
            cur.push(c);
            assert(lines(cs@.subrange(0, i + 1)).drop_last() =~= prev.drop_last());
        }
        i = i + 1;
    }
    assert(cs@.subrange(0, cs.len() as int) == cs@);
    let ghost all = lines(cs@);
    assert(all.drop_last().push(all.last()) == all);
    if let Some(e) = failed {
        return Err(e);
    }
    if cur.len() > 0 {
        match VirtMemoryPage::from_chars(cur.as_slice()) {
            Ok(p) => {
                let ghost before = pages@;
                pages.push(p);
                assert(pages_view(pages@) =~= pages_view(before).push(p@));
            },
            Err(e) => {
                return Err(e);
            },
        }
    }
    Ok(pages)
}

} // verus!

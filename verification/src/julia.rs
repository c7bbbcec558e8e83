//! Browsing the saved constants of the Julia-set explorer.
//!
//! The explorer keeps a list of saved constants, read from its save file, and
//! a cursor into it. Keys step the cursor back and forth; each step loads the
//! constant under the cursor as the current one. Constants are carried as the
//! bit patterns of their two `f32` coordinates.

use vstd::prelude::*;

verus! {

/// The current constant, the saved constants, and the cursor into them.
pub struct JuliaSaves {
    pub julia_const: (u32, u32),
    pub saved_julia_consts: Vec<(u32, u32)>,
    pub saved_julia_const_index: usize,
}

/// `index` limited to the last position of a list of `len` entries.
pub open spec fn clamp_index(index: int, len: int) -> int {
    if index > len - 1 {
        len - 1
    } else {
        index
    }
}

/// The state after one frame of browsing, as (saved constants, cursor,
/// current constant).
///
/// A reload replaces the list and pulls the cursor back into it. With an
/// empty list nothing more happens. Otherwise the back key moves the cursor
/// one entry back, if it is not at the first entry, and loads that entry;
/// then the forward key moves it one entry on, stopping at the last entry,
/// and loads that entry.
pub open spec fn browse(
    saved: Seq<(u32, u32)>,
    index: int,
    current: (u32, u32),
    reloaded: Option<Seq<(u32, u32)>>,
    back_down: bool,
    forward_down: bool,
) -> (Seq<(u32, u32)>, int, (u32, u32)) {
    let list = match reloaded {
        Some(r) => r,
        None => saved,
    };
    let i1 = match reloaded {
        Some(r) => clamp_index(index, r.len() as int),
        None => index,
    };
    if list.len() == 0 {
        (list, i1, current)
    } else {
        let (i2, c2) = if back_down && i1 > 0 {
            (i1 - 1, list[i1 - 1])
        } else {
            (i1, current)
        };
        if forward_down {
            let i3 = clamp_index(i2 + 1, list.len() as int);
            (list, i3, list[i3])
        } else {
            (list, i2, c2)
        }
    }
}

impl JuliaSaves {
    /// The cursor points into the list, or is at the start of an empty list.
    pub open spec fn wf(&self) -> bool {
        if self.saved_julia_consts@.len() == 0 {
            self.saved_julia_const_index == 0
        } else {
            self.saved_julia_const_index < self.saved_julia_consts@.len()
        }
    }

    /// No saved constants yet, and the given current constant.
    pub fn new(julia_const: (u32, u32)) -> (s: JuliaSaves)
        ensures
            s.wf(),
            s.julia_const == julia_const,
            s.saved_julia_consts@.len() == 0,
            s.saved_julia_const_index == 0,
    {
        JuliaSaves { julia_const, saved_julia_consts: Vec::new(), saved_julia_const_index: 0 }
    }

    /// One frame of browsing. `reloaded` holds the constants read back from
    /// the save file when the reload key went down this frame; `back_down`
    /// and `forward_down` tell whether the keys that step the cursor went
    /// down this frame.
    pub fn check_for_save(
        &mut self,
        reloaded: Option<Vec<(u32, u32)>>,
        back_down: bool,
        forward_down: bool,
    )
        requires
            old(self).wf(),
            reloaded matches Some(r) ==> r@.len() > 0,
        ensures
            final(self).wf(),
            (final(self).saved_julia_consts@, final(self).saved_julia_const_index as int,
                final(self).julia_const) == browse(
                old(self).saved_julia_consts@,
                old(self).saved_julia_const_index as int,
                old(self).julia_const,
                match reloaded {
                    Some(r) => Some(r@),
                    None => None,
                },
                back_down,
                forward_down,
            ),
            reloaded matches Some(r) ==> final(self).saved_julia_consts@ == r@,
            reloaded matches Some(r) ==> (!back_down && !forward_down ==> {
                &&& final(self).saved_julia_const_index == (if old(self).saved_julia_const_index
                    < r@.len() {
                    old(self).saved_julia_const_index as int
                } else {
                    r@.len() - 1
                })
                &&& final(self).julia_const == old(self).julia_const
            }),
            reloaded is None && old(self).saved_julia_consts@.len() > 0 && forward_down
                ==> final(self).julia_const
                == final(self).saved_julia_consts@[final(self).saved_julia_const_index as int],
    {
        match reloaded {
            Some(consts) => {
                self.saved_julia_consts = consts;
                let last = self.saved_julia_consts.len() - 1;
                if self.saved_julia_const_index > last {
                    self.saved_julia_const_index = last;
                }
            },
            None => {},
        }
        if self.saved_julia_consts.len() == 0 {
            return;
        }
        let last = self.saved_julia_consts.len() - 1;
        if back_down && self.saved_julia_const_index > 0 {
            self.saved_julia_const_index = self.saved_julia_const_index - 1;
            if self.saved_julia_const_index > last {
                self.saved_julia_const_index = last;
            }
            self.julia_const = self.saved_julia_consts[self.saved_julia_const_index];
        }
        if forward_down {
            self.saved_julia_const_index = self.saved_julia_const_index + 1;
            if self.saved_julia_const_index > last {
                self.saved_julia_const_index = last;
            }
            self.julia_const = self.saved_julia_consts[self.saved_julia_const_index];
        }
    }
}

/// Whether `c` has the Unicode `White_Space` property.
pub open spec fn white_space(c: char) -> bool {
    let u = c as u32;
    (0x09 <= u <= 0x0D) || u == 0x20 || u == 0x85 || u == 0xA0 || u == 0x1680 || (0x2000 <= u
        <= 0x200A) || u == 0x2028 || u == 0x2029 || u == 0x202F || u == 0x205F || u == 0x3000
}

/// Whether `c` has the Unicode `White_Space` property.
pub fn is_white_space(c: char) -> (b: bool)
    ensures
        b == white_space(c),
{
    let u = c as u32;
    (0x09 <= u && u <= 0x0D) || u == 0x20 || u == 0x85 || u == 0xA0 || u == 0x1680 || (0x2000 <= u
        && u <= 0x200A) || u == 0x2028 || u == 0x2029 || u == 0x202F || u == 0x205F || u == 0x3000
}

/// `s` without its leading white space.
pub open spec fn trim_start(s: Seq<char>) -> Seq<char>
    decreases s.len(),
{
    if s.len() > 0 && white_space(s[0]) {
        trim_start(s.drop_first())
    } else {
        s
    }
}

/// `s` without its trailing white space.
pub open spec fn trim_end(s: Seq<char>) -> Seq<char>
    decreases s.len(),
{
    if s.len() > 0 && white_space(s.last()) {
        trim_end(s.drop_last())
    } else {
        s
    }
}

/// `s` without its leading and trailing white space.
pub open spec fn trim(s: Seq<char>) -> Seq<char> {
    trim_end(trim_start(s))
}

/// Whether position `k` holds the only comma of `line`.
pub open spec fn only_comma_at(line: Seq<char>, k: int) -> bool {
    &&& 0 <= k < line.len()
    &&& line[k] == ','
    &&& forall|j: int| 0 <= j < line.len() && j != k ==> #[trigger] line[j] != ','
}

/// The two fields of a save-file line: a line with exactly one comma gives
/// the white-space-trimmed text before and after it; any other line gives
/// nothing. (A blank line has no comma, so it gives nothing.)
pub open spec fn save_line_fields(line: Seq<char>) -> Option<(Seq<char>, Seq<char>)> {
    if exists|k: int| only_comma_at(line, k) {
        let k = choose|k: int| only_comma_at(line, k);
        Some((trim(line.subrange(0, k)), trim(line.subrange(k + 1, line.len() as int))))
    } else {
        None
    }
}

/// `s[lo..hi]` with its leading and trailing white space removed.
fn trimmed_range(s: &Vec<char>, lo: usize, hi: usize) -> (t: Vec<char>)
    requires
        lo <= hi <= s@.len(),
    ensures
        t@ == trim(s@.subrange(lo as int, hi as int)),
{
    let mut a = lo;
    while a < hi && is_white_space(s[a])
        invariant
            lo <= a <= hi <= s@.len(),
            trim_start(s@.subrange(lo as int, hi as int)) == trim_start(s@.subrange(a as int, hi as int)),
        decreases hi - a,
    {
        proof {
            assert(s@.subrange(a as int, hi as int).drop_first() =~= s@.subrange(a + 1, hi as int));
        }
        a = a + 1;
    }
    proof {
        let rest = s@.subrange(a as int, hi as int);
        if a < hi {
            assert(rest[0] == s@[a as int]);
        }
        assert(trim_start(rest) == rest);
    }
    let mut b = hi;
    while b > a && is_white_space(s[b - 1])
        invariant
            lo <= a <= b <= hi <= s@.len(),
            trim(s@.subrange(lo as int, hi as int)) == trim_end(s@.subrange(a as int, b as int)),
        decreases b - a,
    {
        proof {
            assert(s@.subrange(a as int, b as int).drop_last() =~= s@.subrange(a as int, b - 1));
            assert(s@.subrange(a as int, b as int).last() == s@[b - 1]);
        }
        b = b - 1;
    }
    proof {
        let rest = s@.subrange(a as int, b as int);
        if a < b {
            assert(rest.last() == s@[b - 1]);
        }
        assert(trim_end(rest) == rest);
    }
    let mut t: Vec<char> = Vec::new();
    let mut k = a;
    while k < b
        invariant
            a <= k <= b <= s@.len(),
            t@ == s@.subrange(a as int, k as int),
        decreases b - k,
    {
        t.push(s[k]);
        proof {
            assert(t@ =~= s@.subrange(a as int, k + 1));
        }
        k = k + 1;
    }
    t
}

/// Splits one line of the save file into its two trimmed fields, or gives
/// `None` for a line that does not have exactly one comma.
pub fn parse_save_line(line: &Vec<char>) -> (fields: Option<(Vec<char>, Vec<char>)>)
    ensures
        fields matches Some(f) ==> save_line_fields(line@) == Some((f.0@, f.1@)),
        fields is None ==> save_line_fields(line@) is None,
{
    let mut commas: usize = 0;
    let mut first: usize = 0;
    let mut k: usize = 0;
    while k < line.len()
        invariant
            0 <= k <= line@.len(),
            commas <= k,
            commas == 0 ==> forall|j: int| 0 <= j < k ==> #[trigger] line@[j] != ',',
            commas >= 1 ==> first < k && line@[first as int] == ',',
            commas == 1 ==> forall|j: int| 0 <= j < k && j != first ==> #[trigger] line@[j] != ',',
            commas >= 2 ==> exists|j: int| 0 <= j < k && j != first && #[trigger] line@[j] == ',',
        decreases line@.len() - k,
    {
        if line[k] == ',' {
            if commas == 0 {
                first = k;
            }
            commas = commas + 1;
        }
        k = k + 1;
    }
    if commas == 1 {
        proof {
            assert(only_comma_at(line@, first as int));
            assert forall|j: int| only_comma_at(line@, j) implies j == first by {
                if j != first {
                    assert(line@[first as int] != ',');
                }
            }
        }
        let before = trimmed_range(line, 0, first);
        let after = trimmed_range(line, first + 1, line.len());
        Some((before, after))
    } else {
        proof {
            assert forall|j: int| !only_comma_at(line@, j) by {
                if only_comma_at(line@, j) {
                    if commas >= 2 {
                        let i = choose|i: int| 0 <= i < k && i != first && #[trigger] line@[i] == ',';
                        assert(i == j);
                        assert(first == j);
                    }
                }
            }
        }
        None
    }
}

/// Whether `s` has no white space at either end.
pub open spec fn is_trimmed(s: Seq<char>) -> bool {
    s.len() == 0 || (!white_space(s[0]) && !white_space(s.last()))
}

/// A text without white space at either end is its own trimmed form.
proof fn lemma_trimmed_is_fixed(s: Seq<char>)
    requires
        is_trimmed(s),
    ensures
        trim(s) == s,
{
}

/// What a save writes is what a reload reads back: a line made of two
/// comma-free fields without surrounding white space, joined by a comma,
/// splits back into exactly those fields.
pub proof fn law_save_line_round_trip(a: Seq<char>, b: Seq<char>)
    requires
        forall|i: int| 0 <= i < a.len() ==> #[trigger] a[i] != ',',
        forall|i: int| 0 <= i < b.len() ==> #[trigger] b[i] != ',',
        is_trimmed(a),
        is_trimmed(b),
    ensures
        save_line_fields(a + seq![','] + b) == Some((a, b)),
{
    let line = a + seq![','] + b;
    let k = a.len() as int;
    assert(line[k] == ',');
    assert forall|j: int| 0 <= j < line.len() && j != k implies #[trigger] line[j] != ',' by {
        if j < k {
            assert(line[j] == a[j]);
        } else {
            assert(line[j] == b[j - k - 1]);
        }
    }
    assert(only_comma_at(line, k));
    assert forall|j: int| only_comma_at(line, j) implies j == k by {
        if j != k {
            assert(line[k] != ',');
        }
    }
    assert(line.subrange(0, k) =~= a);
    assert(line.subrange(k + 1, line.len() as int) =~= b);
    lemma_trimmed_is_fixed(a);
    lemma_trimmed_is_fixed(b);
}

/// Stepping forward and then back returns to the same saved constant, as
/// long as the cursor is not on the last entry.
pub proof fn law_forward_then_back(list: Seq<(u32, u32)>, i: int, current: (u32, u32))
    requires
        0 <= i,
        i + 1 < list.len(),
    ensures
        browse(list, i, current, None, false, true) == (list, i + 1, list[i + 1]),
        browse(list, i + 1, list[i + 1], None, true, false) == (list, i, list[i]),
{
}

/// At the last entry the forward key stays put and reloads that entry; at
/// the first entry the back key does nothing.
pub proof fn law_cursor_stops_at_ends(list: Seq<(u32, u32)>, current: (u32, u32))
    requires
        list.len() > 0,
    ensures
        browse(list, list.len() - 1, current, None, false, true) == (
            list,
            list.len() - 1,
            list[list.len() - 1],
        ),
        browse(list, 0, current, None, true, false) == (list, 0int, current),
{
}

/// A reload keeps the cursor where it was when that position is still in the
/// new list, and otherwise puts it on the new list's last entry; the current
/// constant is not touched by the reload itself.
pub proof fn law_reload_keeps_cursor(
    saved: Seq<(u32, u32)>,
    i: int,
    current: (u32, u32),
    r: Seq<(u32, u32)>,
)
    requires
        0 <= i,
        r.len() > 0,
    ensures
        browse(saved, i, current, Some(r), false, false).0 == r,
        i < r.len() ==> browse(saved, i, current, Some(r), false, false).1 == i,
        i >= r.len() ==> browse(saved, i, current, Some(r), false, false).1 == r.len() - 1,
        browse(saved, i, current, Some(r), false, false).2 == current,
{
}

/// A reload followed by the forward key moves one entry on from the kept
/// position (stopping at the last entry) and loads that entry.
pub proof fn law_reload_then_forward(
    saved: Seq<(u32, u32)>,
    i: int,
    current: (u32, u32),
    r: Seq<(u32, u32)>,
)
    requires
        0 <= i,
        r.len() > 0,
    ensures
        i + 1 < r.len() ==> browse(saved, i, current, Some(r), false, true) == (r, i + 1, r[i + 1]),
        i + 1 >= r.len() ==> browse(saved, i, current, Some(r), false, true) == (
            r,
            r.len() - 1,
            r[r.len() - 1],
        ),
{
}

/// Without a reload, the back key moves one entry back (unless at the first)
/// and loads that entry, and the cursor always stays inside the list.
pub proof fn law_back_steps_one(saved: Seq<(u32, u32)>, i: int, current: (u32, u32))
    requires
        0 <= i < saved.len(),
    ensures
        i > 0 ==> browse(saved, i, current, None, true, false) == (saved, i - 1, saved[i - 1]),
        i == 0 ==> browse(saved, i, current, None, true, false) == (saved, 0int, current),
        browse(saved, i, current, None, false, false) == (saved, i, current),
        forall|b: bool, f: bool|
            0 <= #[trigger] browse(saved, i, current, None, b, f).1 < saved.len(),
{
}

/// Leading white space of `s` ends at the returned position.
proof fn lemma_trim_start_shape(s: Seq<char>) -> (k: int)
    ensures
        0 <= k <= s.len(),
        forall|j: int| 0 <= j < k ==> white_space(#[trigger] s[j]),
        k < s.len() ==> !white_space(s[k]),
        trim_start(s) == s.subrange(k, s.len() as int),
    decreases s.len(),
{
    if s.len() > 0 && white_space(s[0]) {
        let k1 = lemma_trim_start_shape(s.drop_first());
        assert forall|j: int| 0 <= j < k1 + 1 implies white_space(#[trigger] s[j]) by {
            if j > 0 {
                assert(s[j] == s.drop_first()[j - 1]);
            }
        }
        assert(s.drop_first().subrange(k1, s.drop_first().len() as int) =~= s.subrange(
            k1 + 1,
            s.len() as int,
        ));
        k1 + 1
    } else {
        assert(s.subrange(0, s.len() as int) =~= s);
        0
    }
}

/// Trailing white space of `s` starts at the returned position.
proof fn lemma_trim_end_shape(s: Seq<char>) -> (k: int)
    ensures
        0 <= k <= s.len(),
        forall|j: int| k <= j < s.len() ==> white_space(#[trigger] s[j]),
        k > 0 ==> !white_space(s[k - 1]),
        trim_end(s) == s.subrange(0, k),
    decreases s.len(),
{
    if s.len() > 0 && white_space(s.last()) {
        let k1 = lemma_trim_end_shape(s.drop_last());
        assert forall|j: int| k1 <= j < s.len() implies white_space(#[trigger] s[j]) by {
            if j < s.len() - 1 {
                assert(s[j] == s.drop_last()[j]);
            }
        }
        assert(s.drop_last().subrange(0, k1) =~= s.subrange(0, k1));
        k1
    } else {
        assert(s.subrange(0, s.len() as int) =~= s);
        s.len() as int
    }
}

/// Trimming removes white space from both ends and nothing else: the result
/// is a stretch `s[a..b]` with only white space before and after it, and it
/// neither starts nor ends with white space.
pub proof fn law_trim_removes_surrounding_space(s: Seq<char>)
    ensures
        is_trimmed(trim(s)),
        exists|a: int, b: int|
            0 <= a <= b <= s.len() && trim(s) == s.subrange(a, b) && (forall|j: int|
                0 <= j < a ==> white_space(#[trigger] s[j])) && (forall|j: int|
                b <= j < s.len() ==> white_space(#[trigger] s[j])),
{
    let a = lemma_trim_start_shape(s);
    let t = s.subrange(a, s.len() as int);
    let k = lemma_trim_end_shape(t);
    let b = a + k;
    assert(trim(s) == t.subrange(0, k));
    assert(t.subrange(0, k) =~= s.subrange(a, b));
    assert forall|j: int| b <= j < s.len() implies white_space(#[trigger] s[j]) by {
        assert(s[j] == t[j - a]);
    }
    if k > 0 {
        assert(trim(s)[0] == s[a]);
        assert(trim(s).last() == t[k - 1]);
    }
}

/// Which characters count as white space around a field: spaces, tabs,
/// line ends and no-break spaces do; the characters of a number and the
/// field separator do not.
pub proof fn law_white_space_characters()
    ensures
        white_space(' '),
        white_space('\t'),
        white_space('\n'),
        white_space('\r'),
        white_space('\u{a0}'),
        white_space('\u{3000}'),
        !white_space(','),
        !white_space('-'),
        !white_space('+'),
        !white_space('.'),
        !white_space('e'),
        !white_space('E'),
        forall|c: char| '0' <= c <= '9' ==> !white_space(c),
{
}

/// A line without a comma, or with two or more, gives no fields.
pub proof fn law_save_line_needs_one_comma(line: Seq<char>, i: int, j: int)
    ensures
        (forall|k: int| 0 <= k < line.len() ==> #[trigger] line[k] != ',') ==> save_line_fields(
            line,
        ) is None,
        0 <= i < j < line.len() && line[i] == ',' && line[j] == ',' ==> save_line_fields(line) is None,
{
    if 0 <= i < j < line.len() && line[i] == ',' && line[j] == ',' {
        assert forall|k: int| !only_comma_at(line, k) by {
            if only_comma_at(line, k) {
                if k != i {
                    assert(line[i] != ',');
                } else {
                    assert(line[j] != ',');
                }
            }
        }
    }
    if forall|k: int| 0 <= k < line.len() ==> #[trigger] line[k] != ',' {
        assert forall|k: int| !only_comma_at(line, k) by {
            if only_comma_at(line, k) {
                assert(line[k] != ',');
            }
        }
    }
}

} // verus!

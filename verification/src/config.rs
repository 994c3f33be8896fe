//! The configuration of the initramfs creator: one file per line.
//!
//! A line ends at a newline, or at a carriage return and a newline; the
//! last line needs no line ending. Each line is the name of a file in the
//! initramfs; the same line without leading and trailing slashes is the path
//! of the file, relative to the base path.

use vstd::prelude::*;

verus! {

/// The byte of a newline.
pub const NEWLINE: u8 = 10;

/// The byte of a carriage return.
pub const CARRIAGE_RETURN: u8 = 13;

/// The byte of a slash.
pub const SLASH: u8 = 47;

/// The position of the first newline from `p` on, or the length.
pub open spec fn next_newline(c: Seq<u8>, p: int) -> int
    decreases c.len() - p,
{
    if p >= c.len() {
        c.len() as int
    } else if c[p] == NEWLINE {
        p
    } else {
        next_newline(c, p + 1)
    }
}

/// The end of the line that starts at `p`: before its newline, and before
/// a carriage return that comes right before the newline.
pub open spec fn line_end(c: Seq<u8>, p: int) -> int {
    let e = next_newline(c, p);
    if e < c.len() && e > p && c[e - 1] == CARRIAGE_RETURN {
        e - 1
    } else {
        e
    }
}

/// The lines from position `p` on, as ranges of positions.
pub open spec fn lines_from(c: Seq<u8>, p: int) -> Seq<(int, int)>
    decreases c.len() - p,
{
    if p >= c.len() || p < 0 {
        Seq::empty()
    } else if next_newline(c, p) >= c.len() {
        seq![(p, line_end(c, p))]
    } else {
        proof {
            lemma_next_newline(c, p);
        }
        seq![(p, line_end(c, p))] + lines_from(c, next_newline(c, p) + 1)
    }
}

/// The start of the range `[s, e)` after its leading slashes.
pub open spec fn trim_start(c: Seq<u8>, s: int, e: int) -> int
    decreases e - s,
{
    if s < e && c[s] == SLASH {
        trim_start(c, s + 1, e)
    } else {
        s
    }
}

/// The end of the range `[s, e)` before its trailing slashes.
pub open spec fn trim_end(c: Seq<u8>, s: int, e: int) -> int
    decreases e - s,
{
    if s < e && c[e - 1] == SLASH {
        trim_end(c, s, e - 1)
    } else {
        e
    }
}

/// A line of the configuration: the name of a file, and its path without
/// leading and trailing slashes.
#[derive(Clone, Copy, Debug, PartialEq, Eq, Structural)]
pub struct ConfigLine {
    /// The start of the line.
    pub start: usize,
    /// The end of the line.
    pub end: usize,
    /// The start of the path.
    pub path_start: usize,
    /// The end of the path.
    pub path_end: usize,
}

/// The line as a range of positions.
pub open spec fn line_range(l: ConfigLine) -> (int, int) {
    (l.start as int, l.end as int)
}

/// The first newline from `p` on lies at or after `p`, and no newline lies
/// before it.
pub proof fn lemma_next_newline(c: Seq<u8>, p: int)
    requires
        0 <= p <= c.len(),
    ensures
        p <= next_newline(c, p) <= c.len(),
        next_newline(c, p) < c.len() ==> c[next_newline(c, p)] == NEWLINE,
        forall|k: int| p <= k < next_newline(c, p) ==> c[k] != NEWLINE,
    decreases c.len() - p,
{
    if p < c.len() && c[p] != NEWLINE {
        lemma_next_newline(c, p + 1);
    }
}

proof fn lemma_trim(c: Seq<u8>, s: int, e: int)
    requires
        0 <= s <= e <= c.len(),
    ensures
        s <= trim_start(c, s, e) <= e,
        trim_start(c, s, e) <= trim_end(c, trim_start(c, s, e), e) <= e,
    decreases e - s,
{
    if s < e && c[s] == SLASH {
        lemma_trim(c, s + 1, e);
    } else {
        lemma_trim_end(c, s, e);
    }
}

proof fn lemma_trim_end(c: Seq<u8>, s: int, e: int)
    requires
        0 <= s <= e <= c.len(),
    ensures
        s <= trim_end(c, s, e) <= e,
    decreases e - s,
{
    if s < e && c[e - 1] == SLASH {
        lemma_trim_end(c, s, e - 1);
    }
}

/// Returns the position of the first newline from `p` on, or the length.
fn find_newline(c: &[u8], p: usize) -> (r: usize)
    requires
        p <= c@.len(),
    ensures
        r == next_newline(c@, p as int),
{
    let n = c.len();
    let mut i = p;
    while i < n && c[i] != NEWLINE
        invariant
            n == c@.len(),
            p <= i <= n,
            next_newline(c@, i as int) == next_newline(c@, p as int),
        decreases n - i,
    {
        i = i + 1;
    }
    i
}

/// Returns the range `[s, e)` without its leading and trailing slashes.
pub fn trim_slashes(c: &[u8], s: usize, e: usize) -> (r: (usize, usize))
    requires
        s <= e <= c@.len(),
    ensures
        r.0 == trim_start(c@, s as int, e as int),
        r.1 == trim_end(c@, r.0 as int, e as int),
{
    let mut start = s;
    while start < e && c[start] == SLASH
        invariant
            s <= start <= e <= c@.len(),
            trim_start(c@, start as int, e as int) == trim_start(c@, s as int, e as int),
        decreases e - start,
    {
        start = start + 1;
    }
    let mut end = e;
    while start < end && c[end - 1] == SLASH
        invariant
            start <= end <= e <= c@.len(),
            trim_end(c@, start as int, end as int) == trim_end(c@, start as int, e as int),
        decreases end - start,
    {
        end = end - 1;
    }
    (start, end)
}

/// Splits the configuration into its lines, each with its path.
pub fn config_lines(content: &[u8]) -> (r: Vec<ConfigLine>)
    ensures
        r@.map_values(|l: ConfigLine| line_range(l)) == lines_from(content@, 0),
        forall|k: int| 0 <= k < r@.len() ==> {
            let l = #[trigger] r@[k];
            &&& l.path_start == trim_start(content@, l.start as int, l.end as int)
            &&& l.path_end == trim_end(content@, l.path_start as int, l.end as int)
        },
{
    let n = content.len();
    let mut lines: Vec<ConfigLine> = Vec::new();
    let mut p: usize = 0;
    while p < n
        invariant
            n == content@.len(),
            0 <= p <= n,
            lines@.map_values(|l: ConfigLine| line_range(l)) + lines_from(content@, p as int) == lines_from(
                content@,
                0,
            ),
            forall|k: int| 0 <= k < lines@.len() ==> {
                let l = #[trigger] lines@[k];
                &&& l.path_start == trim_start(content@, l.start as int, l.end as int)
                &&& l.path_end == trim_end(content@, l.path_start as int, l.end as int)
            },
        decreases n - p,
    {
        let newline = find_newline(content, p);
        proof {
            lemma_next_newline(content@, p as int);
        }
        let end = if newline < n && newline > p && content[newline - 1] == CARRIAGE_RETURN {
            newline - 1
        } else {
            newline
        };
        proof {
            lemma_trim(content@, p as int, end as int);
        }
        let (path_start, path_end) = trim_slashes(content, p, end);
        let line = ConfigLine { start: p, end, path_start, path_end };
        let ghost before = lines@;
        lines.push(line);
        proof {
            assert(lines@.map_values(|l: ConfigLine| line_range(l)) =~= before.map_values(
                |l: ConfigLine| line_range(l),
            ).push(line_range(line)));
            if newline < n {
                assert(lines_from(content@, p as int) == seq![(p as int, end as int)] + lines_from(
                    content@,
                    newline + 1,
                ));
                assert(lines@.map_values(|l: ConfigLine| line_range(l)) + lines_from(content@, newline + 1)
                    =~= before.map_values(|l: ConfigLine| line_range(l)) + lines_from(content@, p as int));
            } else {
                assert(lines_from(content@, p as int) == seq![(p as int, end as int)]);
                assert(lines_from(content@, n as int) =~= Seq::<(int, int)>::empty());
                assert(lines@.map_values(|l: ConfigLine| line_range(l)) + lines_from(content@, n as int)
                    =~= before.map_values(|l: ConfigLine| line_range(l)) + lines_from(content@, p as int));
            }
        }
        p = if newline < n { newline + 1 } else { n };
    }
    proof {
        assert(lines_from(content@, p as int) =~= Seq::<(int, int)>::empty());
        assert(lines@.map_values(|l: ConfigLine| line_range(l)) + Seq::<(int, int)>::empty() =~= lines@.map_values(
            |l: ConfigLine| line_range(l),
        ));
    }
    lines
}

} // verus!

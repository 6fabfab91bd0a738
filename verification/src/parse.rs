use vstd::prelude::*;

use crate::teto::{TetoRot, TetoRots};

verus! {

/// Failure to obtain a piece definition: the definition source is missing,
/// or its text places a filled cell before any block marker.
#[derive(Debug, Clone, Copy, PartialEq, Eq, Structural)]
pub enum LoadError {
    Missing,
    Malformed,
}

pub const NEWLINE: u8 = 10;

pub const CARRIAGE_RETURN: u8 = 13;

pub const SPACE: u8 = 32;

pub const DASH: u8 = 45;

/// A line with one trailing carriage return removed, as `str::lines` does.
pub open spec fn strip_cr(l: Seq<u8>) -> Seq<u8> {
    if l.len() > 0 && l.last() == CARRIAGE_RETURN {
        l.drop_last()
    } else {
        l
    }
}

/// Index of the first newline byte of `s`, or `s.len()` if there is none.
pub open spec fn first_nl(s: Seq<u8>) -> int
    decreases s.len(),
{
    if s.len() == 0 {
        0
    } else if s[0] == NEWLINE {
        0
    } else {
        1 + first_nl(s.drop_first())
    }
}

/// The segments of `s` between newline bytes (the newlines themselves
/// removed); the result always has at least one segment.
pub open spec fn raw_split(s: Seq<u8>) -> Seq<Seq<u8>>
    decreases s.len() via raw_split_dec
{
    let k = first_nl(s);
    if k == s.len() {
        seq![s]
    } else {
        seq![s.take(k)] + raw_split(s.skip(k + 1))
    }
}

#[via_fn]
proof fn raw_split_dec(s: Seq<u8>) {
    lemma_first_nl_range(s);
}

/// The lines of a text, as `str::lines` yields them: split at newlines,
/// a final empty segment (from a trailing newline or an empty text)
/// dropped, and one trailing carriage return stripped from each line.
pub open spec fn spec_lines(s: Seq<u8>) -> Seq<Seq<u8>> {
    let raw = raw_split(s);
    let kept = if raw.len() > 0 && raw.last().len() == 0 {
        raw.drop_last()
    } else {
        raw
    };
    kept.map_values(|l: Seq<u8>| strip_cr(l))
}

/// A marker line starts with two dashes.
pub open spec fn is_marker(l: Seq<u8>) -> bool {
    l.len() >= 2 && l[0] == DASH && l[1] == DASH
}

/// The marker that asks for the single parsed shape to be replicated
/// across four rotation slots.
pub open spec fn all_marker() -> Seq<u8> {
    seq![DASH, DASH, 97u8, 108u8, 108u8]
}

/// The filled cells contributed by the part of `line` from column `c` on,
/// placed on row `r`: one `(r, column)` offset per non-space byte.
pub open spec fn row_cells(line: Seq<u8>, r: int, c: int) -> Seq<(i32, i32)>
    decreases line.len() - c when 0 <= c <= line.len()
{
    if c >= line.len() {
        Seq::empty()
    } else if line[c] == SPACE {
        row_cells(line, r, c + 1)
    } else {
        seq![(r as i32, c as i32)] + row_cells(line, r, c + 1)
    }
}

/// Whether some byte of `line` is not a space.
pub open spec fn has_cell(line: Seq<u8>) -> bool {
    exists|c: int| 0 <= c < line.len() && line[c] != SPACE
}

/// Parser state: the rotation blocks collected so far, the row index
/// within the current block, and whether the replication marker was seen.
pub struct ParseState {
    pub rots: Seq<Seq<(i32, i32)>>,
    pub row: int,
    pub all: bool,
}

/// Processes one line of a definition text. A marker line opens a new
/// (empty) rotation block and resets the row index; `--all` additionally
/// sets the replication flag. Any other line adds one offset per
/// non-space byte to the current block and advances the row index; a
/// filled cell before the first marker is the one malformed case.
pub open spec fn parse_step(st: ParseState, line: Seq<u8>) -> Option<ParseState> {
    if is_marker(line) {
        Some(ParseState {
            rots: st.rots.push(Seq::empty()),
            row: 0,
            all: st.all || line == all_marker(),
        })
    } else if st.rots.len() == 0 {
        if has_cell(line) {
            None
        } else {
            Some(ParseState { row: st.row + 1, ..st })
        }
    } else {
        Some(ParseState {
            rots: st.rots.update(
                st.rots.len() - 1,
                st.rots.last() + row_cells(line, st.row, 0),
            ),
            row: st.row + 1,
            ..st
        })
    }
}

/// Folds `parse_step` over the first `n` lines.
pub open spec fn parse_lines(lines: Seq<Seq<u8>>, n: int) -> Option<ParseState>
    decreases n,
{
    if n <= 0 {
        Some(ParseState { rots: Seq::empty(), row: 0, all: false })
    } else {
        match parse_lines(lines, n - 1) {
            None => None,
            Some(st) => parse_step(st, lines[n - 1]),
        }
    }
}

/// The rotation blocks a definition text parses to: the blocks of its
/// lines, with block 0 appended three more times when the replication
/// marker occurred; `None` when the text is malformed.
pub open spec fn spec_parse(text: Seq<u8>) -> Option<Seq<Seq<(i32, i32)>>> {
    let lines = spec_lines(text);
    match parse_lines(lines, lines.len() as int) {
        None => None,
        Some(st) => Some(
            if st.all {
                st.rots.push(st.rots[0]).push(st.rots[0]).push(st.rots[0])
            } else {
                st.rots
            },
        ),
    }
}

/// The nested view of parsed rotation blocks.
pub open spec fn parsed_v(rots: TetoRots) -> Seq<Seq<(i32, i32)>> {
    rots@.map_values(|r: TetoRot| r@)
}

/// Splits a definition text into its lines.
#[verifier::loop_isolation(false)]
fn split_lines(text: &Vec<u8>) -> (r: Vec<Vec<u8>>)
    ensures
        r@.map_values(|l: Vec<u8>| l@) == spec_lines(text@),
        forall|m: int| 0 <= m < r@.len() ==> (#[trigger] r@[m])@.len() <= text@.len(),
{
    let n = text.len();
    let mut out: Vec<Vec<u8>> = Vec::new();
    let mut start: usize = 0;
    let mut p: usize = 0;
    proof {
        assert(text@.skip(0) =~= text@);
        lemma_raw_split_len(text@);
    }
    while p < n
        invariant
            n == text@.len(),
            start <= p <= n,
            forall|m: int| start <= m < p ==> text@[m] != NEWLINE,
            out@.len() < raw_split(text@).len(),
            raw_split(text@.skip(start as int)) =~~= raw_split(text@).skip(out@.len() as int),
            out@.map_values(|l: Vec<u8>| l@)
                =~~= raw_split(text@).take(out@.len() as int).map_values(|l: Seq<u8>| strip_cr(l)),
            forall|m: int| 0 <= m < out@.len() ==> (#[trigger] out@[m])@.len() <= text@.len(),
        decreases n - p,
    {
        if text[p] == NEWLINE {
            let seg = copy_range(text, start, p);
            let stripped = strip_cr_exec(seg);
            let ghost raw = raw_split(text@);
            let ghost olen = out@.len() as int;
            let ghost seg0 = text@.subrange(start as int, p as int);
            let ghost mid = raw_split(text@.skip(p as int + 1));
            proof {
                lemma_first_nl(text@.skip(start as int), p - start);
                assert(raw_split(text@.skip(start as int))
                    == seq![text@.skip(start as int).take(p - start)]
                        + raw_split(text@.skip(start as int).skip(p - start + 1)));
                assert(text@.skip(start as int).take(p - start) =~= seg0);
                assert(text@.skip(start as int).skip(p - start + 1) =~= text@.skip(p as int + 1));
                assert(raw.skip(olen) == seq![seg0] + mid);
                assert(raw.skip(olen)[0] == raw[olen]);
                assert(raw[olen] == seg0);
                assert(raw.skip(olen).len() == raw.len() - olen);
                assert(raw.skip(olen + 1) =~~= mid) by {
                    assert(raw.skip(olen + 1).len() == mid.len());
                    assert forall|x: int| 0 <= x < mid.len()
                        implies raw.skip(olen + 1)[x] == mid[x] by {
                        assert(raw.skip(olen)[x + 1] == mid[x]);
                        assert(raw.skip(olen)[x + 1] == raw[olen + 1 + x]);
                    }
                }
            }
            out.push(stripped);
            start = p + 1;
            proof {
                let f = |l: Vec<u8>| l@;
                let fs = |l: Seq<u8>| strip_cr(l);
                assert(out@.map_values(f) =~~= raw.take(olen + 1).map_values(fs)) by {
                    assert(out@.map_values(f).len() == olen + 1);
                    assert(raw.take(olen + 1).len() == olen + 1);
                    assert forall|x: int| 0 <= x < olen + 1
                        implies out@.map_values(f)[x] == raw.take(olen + 1).map_values(fs)[x] by {
                        if x < olen {
                            assert(out@.map_values(f)[x] == out@.take(olen).map_values(f)[x]);
                            assert(out@.take(olen).map_values(f)[x]
                                == raw.take(olen).map_values(fs)[x]) by {
                                assert(out@.take(olen) =~= out@.drop_last());
                                assert(out@.drop_last()[x] == out@[x]);
                                assert(raw.take(olen).map_values(fs)[x] == fs(raw.take(olen)[x]));
                                assert(raw.take(olen + 1).map_values(fs)[x] == fs(raw.take(olen + 1)[x]));
                            }
                        } else {
                            assert(out@[x] == stripped);
                            assert(stripped@ == strip_cr(seg0));
                            assert(raw.take(olen + 1)[x] == raw[olen]);
                        }
                    }
                }
            }
        }
        p += 1;
    }
    let ghost raw = raw_split(text@);
    let ghost olen = out@.len() as int;
    if start < n {
        let seg = copy_range(text, start, n);
        let stripped = strip_cr_exec(seg);
        let ghost seg0 = text@.subrange(start as int, n as int);
        proof {
            lemma_no_nl(text@.skip(start as int));
            assert(raw_split(text@.skip(start as int)) == seq![text@.skip(start as int)]);
            assert(text@.skip(start as int) =~= seg0);
            assert(raw.skip(olen) == seq![seg0]);
            assert(raw.skip(olen).len() == raw.len() - olen);
            assert(raw.len() == olen + 1);
            assert(raw.last() == raw[olen]);
            assert(raw[olen] == raw.skip(olen)[0]);
            assert(raw.last() == seg0);
            assert(raw.last().len() > 0);
        }
        out.push(stripped);
        proof {
            let f = |l: Vec<u8>| l@;
            let fs = |l: Seq<u8>| strip_cr(l);
            assert(spec_lines(text@) == raw.map_values(fs));
            assert(out@.map_values(f) =~~= raw.map_values(fs)) by {
                assert(out@.map_values(f).len() == olen + 1);
                assert forall|x: int| 0 <= x < olen + 1
                    implies out@.map_values(f)[x] == raw.map_values(fs)[x] by {
                    assert(raw.map_values(fs)[x] == fs(raw[x]));
                    if x < olen {
                        assert(out@.drop_last()[x] == out@[x]);
                        assert(out@.take(olen) =~= out@.drop_last());
                        assert(out@.take(olen).map_values(f)[x]
                            == raw.take(olen).map_values(fs)[x]);
                        assert(raw.take(olen).map_values(fs)[x] == fs(raw.take(olen)[x]));
                    } else {
                        assert(out@[x] == stripped);
                        assert(stripped@ == strip_cr(seg0));
                    }
                }
            }
        }
    } else {
        proof {
            lemma_no_nl(text@.skip(start as int));
            assert(text@.skip(start as int) =~= Seq::<u8>::empty());
            assert(raw_split(text@.skip(start as int)) == seq![text@.skip(start as int)]);
            assert(raw.skip(olen) == seq![text@.skip(start as int)]);
            assert(raw.skip(olen).len() == raw.len() - olen);
            assert(raw.len() == olen + 1);
            assert(raw.last() == raw[olen]);
            assert(raw[olen] == raw.skip(olen)[0]);
            assert(raw.last().len() == 0);
            let f = |l: Vec<u8>| l@;
            let fs = |l: Seq<u8>| strip_cr(l);
            assert(raw.drop_last() =~= raw.take(olen));
            assert(spec_lines(text@) == raw.drop_last().map_values(fs));
            assert(out@.map_values(f) =~~= raw.take(olen).map_values(fs));
            assert(out@.map_values(f) =~~= spec_lines(text@));
        }
    }
    out
}

/// The bytes of `text` in `[start, end)`.
#[verifier::loop_isolation(false)]
fn copy_range(text: &Vec<u8>, start: usize, end: usize) -> (r: Vec<u8>)
    requires
        start <= end <= text@.len(),
    ensures
        r@ == text@.subrange(start as int, end as int),
{
    let mut r: Vec<u8> = Vec::new();
    let mut k: usize = start;
    while k < end
        invariant
            start <= k <= end <= text@.len(),
            r@ =~= text@.subrange(start as int, k as int),
        decreases end - k,
    {
        r.push(text[k]);
        k += 1;
        proof {
            assert(r@ =~= text@.subrange(start as int, k as int));
        }
    }
    r
}

/// Removes one trailing carriage return, if present.
fn strip_cr_exec(l: Vec<u8>) -> (r: Vec<u8>)
    ensures
        r@ == strip_cr(l@),
{
    let mut l = l;
    if l.len() > 0 && l[l.len() - 1] == CARRIAGE_RETURN {
        l.pop();
    }
    l
}

/// If the first `k` bytes of `s` are not newlines and byte `k` is one
/// (or `k` is the length), then `k` is the first newline position.
proof fn lemma_first_nl(s: Seq<u8>, k: int)
    requires
        0 <= k < s.len(),
        forall|m: int| 0 <= m < k ==> s[m] != NEWLINE,
        s[k] == NEWLINE,
    ensures
        first_nl(s) == k,
    decreases k,
{
    if k > 0 {
        lemma_first_nl(s.drop_first(), k - 1);
    }
}

/// A text without newlines is one single segment.
proof fn lemma_no_nl(s: Seq<u8>)
    requires
        forall|m: int| 0 <= m < s.len() ==> s[m] != NEWLINE,
    ensures
        first_nl(s) == s.len(),
    decreases s.len(),
{
    if s.len() > 0 {
        lemma_no_nl(s.drop_first());
    }
}

/// Whether `line` marks a rotation-block boundary (starts with `--`).
fn is_marker_exec(line: &Vec<u8>) -> (r: bool)
    ensures
        r == is_marker(line@),
{
    line.len() >= 2 && line[0] == DASH && line[1] == DASH
}

/// Whether `line` equals the replication marker `--all`.
fn is_all_marker_exec(line: &Vec<u8>) -> (r: bool)
    ensures
        r == (line@ == all_marker()),
{
    let r = line.len() == 5 && line[0] == DASH && line[1] == DASH && line[2] == 97
        && line[3] == 108 && line[4] == 108;
    proof {
        if r {
            assert(line@ =~= all_marker());
        }
        if line@ == all_marker() {
            assert(line@.len() == 5);
            assert(line@[0] == DASH && line@[1] == DASH && line@[2] == 97 && line@[3] == 108
                && line@[4] == 108);
        }
    }
    r
}

/// Parses one piece-definition text into its list of rotation states.
///
/// The text is a sequence of rotation blocks separated by marker lines
/// starting with `--`; inside a block every non-space byte of a line
/// becomes a filled offset at (row within block, byte column). The
/// special marker `--all` makes the first parsed shape fill four rotation
/// slots. A filled cell before the first marker is malformed.
#[verifier::loop_isolation(false)]
pub fn parse_teto(text: &Vec<u8>) -> (r: Result<TetoRots, LoadError>)
    requires
        text@.len() < 0x4000_0000,
    ensures
        match r {
            Ok(rots) => spec_parse(text@) == Some(parsed_v(rots)),
            Err(e) => spec_parse(text@) is None && e == LoadError::Malformed,
        },
{
    let lines = split_lines(text);
    let ghost lv = lines@.map_values(|l: Vec<u8>| l@);
    let mut rots: TetoRots = Vec::new();
    let mut all = false;
    let mut row: i32 = 0;
    let mut k: usize = 0;
    proof {
        lemma_raw_split_len(text@);
        assert(lv.len() <= raw_split(text@).len());
        assert(parsed_v(rots) =~~= Seq::<Seq<(i32, i32)>>::empty());
        assert(parse_lines(lv, 0) == Some(ParseState { rots: parsed_v(rots), row: 0int, all: false }));
    }
    while k < lines.len()
        invariant
            lv == lines@.map_values(|l: Vec<u8>| l@),
            lv == spec_lines(text@),
            forall|m: int| 0 <= m < lines@.len() ==> (#[trigger] lines@[m])@.len() <= text@.len(),
            k <= lv.len(),
            lv.len() <= text@.len() + 1,
            text@.len() < 0x4000_0000,
            0 <= row,
            row <= k,
            all ==> rots@.len() >= 1,
            parse_lines(lv, k as int) == Some(ParseState {
                rots: parsed_v(rots),
                row: row as int,
                all,
            }),
        decreases lv.len() - k,
    {
        let ghost st = ParseState { rots: parsed_v(rots), row: row as int, all };
        let line = &lines[k];
        proof {
            assert(line@ == lv[k as int]);
            assert(line@.len() <= text@.len());
        }
        if is_marker_exec(line) {
            if is_all_marker_exec(line) {
                all = true;
            }
            rots.push(Vec::new());
            row = 0;
            proof {
                assert(parsed_v(rots) =~~= st.rots.push(Seq::empty()));
            }
        } else {
            let mut cells: TetoRot = Vec::new();
            let mut c: usize = 0;
            while c < line.len()
                invariant
                    0 <= row,
                    line@.len() <= text@.len(),
                    text@.len() < 0x4000_0000,
                    c <= line@.len(),
                    cells@ + row_cells(line@, row as int, c as int)
                        =~= row_cells(line@, row as int, 0),
                decreases line@.len() - c,
            {
                let b = line[c];
                if b != SPACE {
                    cells.push((row, c as i32));
                }
                c += 1;
            }
            proof {
                assert(row_cells(line@, row as int, line@.len() as int) =~= Seq::<(i32, i32)>::empty());
                assert(cells@ =~= row_cells(line@, row as int, 0));
            }
            if rots.len() == 0 {
                if cells.len() > 0 {
                    proof {
                        lemma_row_cells_members(line@, row as int, 0);
                        assert(row_cells(line@, row as int, 0)[0] == cells@[0]);
                        let w = cells@[0].1 as int;
                        assert(0 <= w < line@.len() && line@[w] != SPACE);
                        assert(has_cell(line@));
                        assert(parse_step(st, lv[k as int]) is None);
                        assert(parse_lines(lv, k as int + 1) is None);
                        lemma_parse_lines_none(lv, k as int);
                    }
                    return Err(LoadError::Malformed);
                }
                proof {
                    assert(!has_cell(line@)) by {
                        if has_cell(line@) {
                            let w = choose|w: int| 0 <= w < line@.len() && line@[w] != SPACE;
                            lemma_row_cells_has(line@, row as int, 0, w);
                        }
                    }
                }
                row = row + 1;
            } else {
                let mut blk = rots.pop().unwrap();
                blk.append(&mut cells);
                rots.push(blk);
                row = row + 1;
                proof {
                    assert(parsed_v(rots) =~~= st.rots.update(
                        st.rots.len() - 1,
                        st.rots.last() + row_cells(lv[k as int], st.row, 0),
                    ));
                }
            }
        }
        k += 1;
    }
    if all {
        let first = clone_rot(&rots[0]);
        let second = clone_rot(&rots[0]);
        let third = clone_rot(&rots[0]);
        rots.push(first);
        rots.push(second);
        rots.push(third);
        proof {
            let st = parse_lines(lv, lv.len() as int).unwrap();
            assert(parsed_v(rots) =~~= st.rots.push(st.rots[0]).push(st.rots[0]).push(st.rots[0]));
        }
    }
    Ok(rots)
}

/// Every offset produced by `row_cells` points at a non-space byte.
proof fn lemma_row_cells_members(line: Seq<u8>, r: int, c: int)
    requires
        0 <= c <= line.len(),
        0 <= r <= 0x7FFF_FFFF,
        line.len() <= 0x7FFF_FFFF,
    ensures
        forall|m: int| 0 <= m < row_cells(line, r, c).len()
            ==> {
                let p = #[trigger] row_cells(line, r, c)[m];
                &&& p.0 == r
                &&& c <= p.1 < line.len()
                &&& line[p.1 as int] != SPACE
            },
    decreases line.len() - c,
{
    if c < line.len() {
        lemma_row_cells_members(line, r, c + 1);
        if line[c] != SPACE {
            assert forall|m: int| 0 <= m < row_cells(line, r, c).len()
                implies {
                    let p = #[trigger] row_cells(line, r, c)[m];
                    &&& p.0 == r
                    &&& c <= p.1 < line.len()
                    &&& line[p.1 as int] != SPACE
                } by {
                if m > 0 {
                    assert(row_cells(line, r, c)[m] == row_cells(line, r, c + 1)[m - 1]);
                }
            }
        }
    }
}

/// A non-space byte at position `w` puts at least one offset in `row_cells`.
proof fn lemma_row_cells_has(line: Seq<u8>, r: int, c: int, w: int)
    requires
        0 <= c <= w < line.len(),
        line[w] != SPACE,
    ensures
        row_cells(line, r, c).len() > 0,
    decreases w - c,
{
    if c < w {
        if line[c] == SPACE {
            lemma_row_cells_has(line, r, c + 1, w);
        }
    }
}

/// Once a prefix of the lines parses to `None`, the whole text does.
proof fn lemma_parse_lines_none(lines: Seq<Seq<u8>>, k: int)
    requires
        0 <= k < lines.len(),
        parse_lines(lines, k + 1) is None,
    ensures
        parse_lines(lines, lines.len() as int) is None,
    decreases lines.len() - k,
{
    if k + 1 < lines.len() {
        lemma_parse_lines_none(lines, k + 1);
    }
}

/// A text of `n` bytes splits into at most `n + 1` raw segments.
proof fn lemma_raw_split_len(s: Seq<u8>)
    ensures
        raw_split(s).len() <= s.len() + 1,
        raw_split(s).len() >= 1,
    decreases s.len(),
{
    let k = first_nl(s);
    lemma_first_nl_range(s);
    if k != s.len() {
        lemma_raw_split_len(s.skip(k + 1));
    }
}

/// The first-newline position lies within the text.
proof fn lemma_first_nl_range(s: Seq<u8>)
    ensures
        0 <= first_nl(s) <= s.len(),
    decreases s.len(),
{
    if s.len() > 0 && s[0] != NEWLINE {
        lemma_first_nl_range(s.drop_first());
    }
}

/// A copy of one rotation block.
#[verifier::loop_isolation(false)]
pub(crate) fn clone_rot(r: &TetoRot) -> (c: TetoRot)
    ensures
        c@ == r@,
{
    let mut c: TetoRot = Vec::new();
    let mut k: usize = 0;
    while k < r.len()
        invariant
            k <= r@.len(),
            c@ =~= r@.take(k as int),
        decreases r@.len() - k,
    {
        c.push(r[k]);
        k += 1;
        proof {
            assert(c@ =~= r@.take(k as int));
        }
    }
    proof {
        assert(r@.take(r@.len() as int) =~= r@);
    }
    c
}

} // verus!

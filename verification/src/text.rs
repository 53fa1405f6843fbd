//! Extraction of the selected region into a flat string. Physical rows that
//! one logical line spans are concatenated back together (a soft-wrap join),
//! a newline stands between distinct logical lines, and trailing white
//! space is trimmed from the final physical row of each logical line.

use vstd::prelude::*;

use crate::pane::{Cell, Pane};
use crate::selection::{Selection, SelectionRange};

verus! {

/// Relies on `String::push` from std: appends the given character to the
/// end of the string.
pub assume_specification[ String::push ](s: &mut String, ch: char)
    ensures
        final(s)@ == old(s)@.push(ch),
;

/// The Unicode white-space characters, as `str::trim_end` removes them:
/// the ASCII spacing controls and space, next-line, no-break space, ogham
/// space mark, the en-quad .. hair-space block, the line and paragraph
/// separators, narrow no-break space, medium mathematical space, and
/// ideographic space.
pub open spec fn is_blank(c: char) -> bool {
    ||| c == ' '
    ||| c == '\t'
    ||| c == '\n'
    ||| c == '\u{B}'
    ||| c == '\u{C}'
    ||| c == '\r'
    ||| c == '\u{85}'
    ||| c == '\u{A0}'
    ||| c == '\u{1680}'
    ||| c == '\u{2000}'
    ||| c == '\u{2001}'
    ||| c == '\u{2002}'
    ||| c == '\u{2003}'
    ||| c == '\u{2004}'
    ||| c == '\u{2005}'
    ||| c == '\u{2006}'
    ||| c == '\u{2007}'
    ||| c == '\u{2008}'
    ||| c == '\u{2009}'
    ||| c == '\u{200A}'
    ||| c == '\u{2028}'
    ||| c == '\u{2029}'
    ||| c == '\u{202F}'
    ||| c == '\u{205F}'
    ||| c == '\u{3000}'
}

/// Whether `c` is trailing-trimmable white space.
pub fn blank_char(c: char) -> (b: bool)
    ensures
        b == is_blank(c),
{
    match c {
        ' ' | '\t' | '\n' | '\u{B}' | '\u{C}' | '\r' | '\u{85}' | '\u{A0}' | '\u{1680}'
        | '\u{2000}' | '\u{2001}' | '\u{2002}' | '\u{2003}' | '\u{2004}' | '\u{2005}'
        | '\u{2006}' | '\u{2007}' | '\u{2008}' | '\u{2009}' | '\u{200A}' | '\u{2028}'
        | '\u{2029}' | '\u{202F}' | '\u{205F}' | '\u{3000}' => true,
        _ => false,
    }
}

/// `s` without its trailing blanks.
pub open spec fn trim_trailing(s: Seq<char>) -> Seq<char>
    decreases s.len(),
{
    if s.len() > 0 && is_blank(s.last()) {
        trim_trailing(s.drop_last())
    } else {
        s
    }
}

/// The characters of `cells` in columns `[lo, hi)`, clamped to the row.
pub open spec fn span_chars(cells: Seq<Cell>, lo: int, hi: int) -> Seq<char> {
    let end = if hi > cells.len() {
        cells.len() as int
    } else {
        hi
    };
    if lo >= end {
        Seq::empty()
    } else {
        Seq::new((end - lo) as nat, |i: int| cells[lo + i].ch)
    }
}

/// The selection's contribution from row `y`: its column span's characters,
/// trimmed of trailing blanks exactly when `y` is the last physical row of
/// its logical line.
pub open spec fn row_piece(pane: Pane, sel: SelectionRange, y: int) -> Seq<char> {
    let cols = sel.spec_cols_for_row(y as isize);
    let raw = span_chars(pane.cells_at(y), cols.0 as int, cols.1 as int);
    if pane.joins_next(y) {
        raw
    } else {
        trim_trailing(raw)
    }
}

/// Whether the span emitted on row `y` reached the row's last cell and that
/// cell is a soft-wrap continuation; such a row suppresses the newline that
/// would otherwise precede the next logical line.
pub open spec fn span_ends_wrapped(pane: Pane, sel: SelectionRange, y: int) -> bool {
    let cells = pane.cells_at(y);
    let cols = sel.spec_cols_for_row(y as isize);
    let last_phys: int = if cells.len() == 0 {
        0
    } else {
        cells.len() - 1
    };
    let hi1: int = if cols.1 == 0 {
        0
    } else {
        cols.1 - 1
    };
    let last_col: int = if hi1 > last_phys {
        last_phys
    } else {
        hi1
    };
    &&& cells.len() > 0
    &&& last_col == last_phys
    &&& cells[last_col].wrapped
}

/// Whether row `y` begins a logical line: no retained previous row
/// soft-wraps into it.
pub open spec fn starts_group(pane: Pane, y: int) -> bool {
    !pane.joins_next(y - 1)
}

/// The extracted text of rows `[y, last]`, given the text accumulated so
/// far and whether the previous emitted span ended on a wrap continuation.
/// Rows not retained in the grid contribute nothing; a row that begins a
/// logical line is preceded by a newline unless nothing was emitted yet or
/// the previous span ended wrapped.
pub open spec fn text_from(
    pane: Pane,
    sel: SelectionRange,
    y: int,
    last: int,
    acc: Seq<char>,
    last_wrapped: bool,
) -> Seq<char>
    decreases last + 1 - y,
{
    if y > last {
        acc
    } else if !pane.has_row(y) {
        text_from(pane, sel, y + 1, last, acc, last_wrapped)
    } else {
        let piece = row_piece(pane, sel, y);
        let acc2 = if starts_group(pane, y) && acc.len() > 0 && !last_wrapped {
            acc + seq!['\n'] + piece
        } else {
            acc + piece
        };
        text_from(pane, sel, y + 1, last, acc2, span_ends_wrapped(pane, sel, y))
    }
}

/// The text a selection denotes against a pane: empty when nothing is
/// selected, otherwise the fold of `text_from` over the normalized range's
/// row span.
pub open spec fn spec_selection_text(sel: Selection, pane: Pane) -> Seq<char> {
    match sel.range {
        None => Seq::empty(),
        Some(r) => {
            let n = r.norm();
            text_from(pane, n, n.start.y as int, n.end.y as int, Seq::empty(), false)
        },
    }
}

/// Rows absent from the grid contribute nothing to the fold.
proof fn lemma_text_skip(
    pane: Pane,
    sel: SelectionRange,
    y1: int,
    y2: int,
    last: int,
    acc: Seq<char>,
    lw: bool,
)
    requires
        y1 <= y2,
        forall|y: int| y1 <= y < y2 ==> !pane.has_row(y),
    ensures
        text_from(pane, sel, y1, last, acc, lw) == text_from(pane, sel, y2, last, acc, lw),
    decreases y2 - y1,
{
    if y1 < y2 {
        lemma_text_skip(pane, sel, y1 + 1, y2, last, acc, lw);
    }
}

/// Returns the text the selection denotes, rejoining soft-wrapped rows and
/// separating logical lines by newlines; the empty string when nothing is
/// selected. Reading the text mutates nothing: repeated calls against the
/// same state return the same string.
pub fn selection_text(selection: &Selection, pane: &Pane) -> (text: String)
    ensures
        text@ == spec_selection_text(*selection, *pane),
        selection.range is None ==> text@ == Seq::<char>::empty(),
{
    let mut s = String::new();
    let sel = match &selection.range {
        None => {
            return s;
        },
        Some(r) => r.normalize(),
    };
    let ghost n = selection.range->0.norm();
    assert(sel == n);
    let rows = sel.rows();
    let first = rows.0;
    let last = rows.1;
    assert(first == n.start.y && last == n.end.y);

    let base_i: i128 = pane.dims.scrollback_top as i128;
    let len_i: i128 = pane.lines.len() as i128;
    let lo_i: i128 = if (first as i128) > base_i {
        first as i128
    } else {
        base_i
    };
    let hi_i: i128 = if (last as i128) < base_i + len_i - 1 {
        last as i128
    } else {
        base_i + len_i - 1
    };
    if lo_i > hi_i {
        proof {
            assert(forall|y: int| first <= y < last + 1 ==> !pane.has_row(y));
            lemma_text_skip(*pane, sel, first as int, last as int + 1, last as int, s@, false);
        }
        return s;
    }
    let i0: usize = (lo_i - base_i) as usize;
    let i1: usize = (hi_i - base_i) as usize;
    proof {
        assert(forall|y: int| first <= y < pane.base() + i0 ==> !pane.has_row(y));
        lemma_text_skip(*pane, sel, first as int, pane.base() + i0, last as int, s@, false);
    }

    let ghost target = text_from(*pane, n, first as int, last as int, Seq::empty(), false);
    let mut last_wrapped = false;
    let mut i = i0;
    while i <= i1
        invariant
            sel == n,
            first == n.start.y,
            last == n.end.y,
            i0 <= i <= i1 + 1,
            i1 < pane.lines.len(),
            pane.base() + i1 <= last as int,
            text_from(*pane, n, pane.base() + i, last as int, s@, last_wrapped) == target,
        decreases i1 + 1 - i,
    {
        let ghost y_g: int = pane.base() + i;
        let ghost s0 = s@;
        let ghost lw0 = last_wrapped;
        assert(pane.has_row(y_g));
        let y: isize = ((pane.dims.scrollback_top as i128) + (i as i128)) as isize;
        assert(y as int == y_g);

        // A newline separates logical lines, unless nothing was emitted yet
        // or the previous span ended on a wrap continuation.
        let group_start = i == 0 || !pane.wraps_at(i - 1);
        assert(group_start == starts_group(*pane, y_g));
        if group_start && !s.as_str().is_empty() && !last_wrapped {
            s.push('\n');
            assert(s@ =~= s0 + seq!['\n']);
        }
        let ghost s1 = s@;

        let cells = &pane.lines[i].cells;
        let nlen = cells.len();
        let cols = sel.cols_for_row(y);
        let clo = cols.0;
        let chi = cols.1;
        let send: usize = if chi > nlen {
            nlen
        } else {
            chi
        };
        let group_end = !(i + 1 < pane.lines.len() && pane.wraps_at(i));
        assert(group_end == !pane.joins_next(y_g));

        // Trailing blanks are trimmed only on the last physical row of a
        // logical line; `t` is the end of what actually gets emitted.
        let mut t = send;
        if group_end && clo < send {
            while t > clo && blank_char(cells[t - 1].ch)
                invariant
                    clo <= t <= send <= nlen,
                    nlen == cells@.len(),
                    trim_trailing(span_chars(cells@, clo as int, send as int)) == trim_trailing(
                        span_chars(cells@, clo as int, t as int),
                    ),
                decreases t,
            {
                proof {
                    let sp = span_chars(cells@, clo as int, t as int);
                    assert(sp.len() == t - clo);
                    assert(sp.last() == cells@[t - 1].ch);
                    assert(sp.drop_last() =~= span_chars(cells@, clo as int, t as int - 1));
                }
                t = t - 1;
            }
            proof {
                if t == clo {
                    assert(span_chars(cells@, clo as int, t as int) =~= Seq::<char>::empty());
                } else {
                    assert(!is_blank(span_chars(cells@, clo as int, t as int).last()));
                }
                assert(trim_trailing(span_chars(cells@, clo as int, t as int)) == span_chars(
                    cells@,
                    clo as int,
                    t as int,
                ));
            }
        }
        proof {
            if group_end {
                if clo < send {
                } else {
                    assert(span_chars(cells@, clo as int, send as int) =~= Seq::<char>::empty());
                    assert(span_chars(cells@, clo as int, t as int) =~= Seq::<char>::empty());
                }
                assert(span_chars(cells@, clo as int, t as int) == row_piece(*pane, n, y_g));
            } else {
                assert(span_chars(cells@, clo as int, t as int) == row_piece(*pane, n, y_g));
            }
        }

        if clo < t {
            let mut j = clo;
            proof {
                assert(s1 + span_chars(cells@, clo as int, clo as int) =~= s1);
            }
            while j < t
                invariant
                    clo <= j <= t <= nlen,
                    nlen == cells@.len(),
                    s@ == s1 + span_chars(cells@, clo as int, j as int),
                decreases t - j,
            {
                s.push(cells[j].ch);
                proof {
                    assert(span_chars(cells@, clo as int, j as int + 1) =~= span_chars(
                        cells@,
                        clo as int,
                        j as int,
                    ).push(cells@[j as int].ch));
                }
                j = j + 1;
            }
        }
        proof {
            if clo < t {
            } else {
                assert(span_chars(cells@, clo as int, t as int) =~= Seq::<char>::empty());
                assert(s1 + span_chars(cells@, clo as int, t as int) =~= s1);
            }
            assert(s@ == s1 + span_chars(cells@, clo as int, t as int));
            assert(s@ == s1 + row_piece(*pane, n, y_g));
        }

        // The wrap flag of the last cell the span reached decides whether
        // the next logical line is joined or separated.
        let last_phys: usize = if nlen == 0 {
            0
        } else {
            nlen - 1
        };
        let hi1: usize = if chi == 0 {
            0
        } else {
            chi - 1
        };
        let last_col: usize = if hi1 > last_phys {
            last_phys
        } else {
            hi1
        };
        last_wrapped = nlen > 0 && last_col == last_phys && cells[last_col].wrapped;
        assert(last_wrapped == span_ends_wrapped(*pane, n, y_g));

        proof {
            assert(text_from(*pane, n, y_g, last as int, s0, lw0) == text_from(
                *pane,
                n,
                y_g + 1,
                last as int,
                s@,
                last_wrapped,
            ));
        }
        i = i + 1;
    }
    proof {
        assert(forall|y: int| pane.base() + i <= y < last + 1 ==> !pane.has_row(y));
        lemma_text_skip(*pane, sel, pane.base() + i, last as int + 1, last as int, s@, last_wrapped);
    }
    s
}

/// Law: a row's contribution is trimmed of trailing blanks exactly when
/// the row is the last physical row of its logical line; interior wrapped
/// rows are emitted verbatim, preserving mid-word wrap joins.
pub proof fn lemma_trim_only_on_final_row(pane: Pane, sel: SelectionRange, y: int)
    ensures
        ({
            let cols = sel.spec_cols_for_row(y as isize);
            let raw = span_chars(pane.cells_at(y), cols.0 as int, cols.1 as int);
            &&& (!pane.joins_next(y) ==> row_piece(pane, sel, y) == trim_trailing(raw))
            &&& (pane.joins_next(y) ==> row_piece(pane, sel, y) == raw)
        }),
{
}

/// Law: across two adjacent retained rows, a wrap continuation ending the
/// first row joins the two pieces into one unbroken line, and without one
/// exactly one newline stands between them — provided the first row
/// contributed any text (a first piece trimmed to nothing suppresses the
/// newline).
pub proof fn lemma_two_row_join(sel: Selection, pane: Pane)
    requires
        sel.range is Some,
        sel.range->0.norm().start.y as int + 1 == sel.range->0.norm().end.y as int,
        pane.has_row(sel.range->0.norm().start.y as int),
        pane.has_row(sel.range->0.norm().end.y as int),
    ensures
        ({
            let n = sel.range->0.norm();
            let a = n.start.y as int;
            let first = row_piece(pane, n, a);
            let second = row_piece(pane, n, n.end.y as int);
            &&& (pane.joins_next(a) ==> spec_selection_text(sel, pane) == first + second)
            &&& (!pane.joins_next(a) && first.len() > 0 ==> spec_selection_text(sel, pane)
                == first + seq!['\n'] + second)
        }),
{
    let n = sel.range->0.norm();
    let a = n.start.y as int;
    let b = n.end.y as int;
    let e = Seq::<char>::empty();
    let piece_a = row_piece(pane, n, a);
    let piece_b = row_piece(pane, n, b);
    let w1 = span_ends_wrapped(pane, n, a);
    assert(spec_selection_text(sel, pane) == text_from(pane, n, a, b, e, false));
    assert(text_from(pane, n, a, b, e, false) == text_from(pane, n, a + 1, b, e + piece_a, w1));
    assert(e + piece_a =~= piece_a);
    if pane.joins_next(a) {
        assert(!starts_group(pane, b));
        assert(text_from(pane, n, b, b, piece_a, w1) == text_from(
            pane,
            n,
            b + 1,
            b,
            piece_a + piece_b,
            span_ends_wrapped(pane, n, b),
        ));
    } else if piece_a.len() > 0 {
        // The first row's last cell is not a wrap continuation (or the row
        // is empty), so its span cannot have ended on one.
        assert(!pane.row_wraps(a));
        assert(!w1);
        assert(starts_group(pane, b));
        assert(text_from(pane, n, b, b, piece_a, w1) == text_from(
            pane,
            n,
            b + 1,
            b,
            piece_a + seq!['\n'] + piece_b,
            span_ends_wrapped(pane, n, b),
        ));
    }
}

} // verus!

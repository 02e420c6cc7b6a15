//! What shifting lines promises.

use crate::buffer::{buffer_ok, edited_elements, inside, inside_at, ElementView};
use crate::line_edits::{
    all_shifted, dedent_width, indent_text, lemma_literals, line_starts, lines_shifted, shifted,
    shifts, SPACE,
};
use crate::lines::{
    lemma_line_end, lemma_line_end_free, lemma_line_end_is, lemma_line_start, lemma_skip_white,
    line_end, line_start, skip_white, NEWLINE,
};
use crate::text::{
    floor_pos, is_pos, lemma_ascii, lemma_pos_is_boundary, lemma_zero_pos, spliced,
};
use crate::textarea::{raw_edit, AreaView};
use crate::vim::VimIndentDirection;
use vstd::prelude::*;
use vstd::utf8::*;

verus! {

/// The text `w`, which starts a line, with one level of indentation before each of its first `n`
/// lines that is not empty.
pub open spec fn indented_text(w: Seq<u8>, n: nat) -> Seq<u8>
    decreases n,
{
    let e = line_end(w, 0);
    if n == 0 {
        w
    } else {
        let line = w.subrange(0, e);
        let indent = if e > 0 {
            indent_text()
        } else {
            Seq::empty()
        };
        if e < w.len() {
            indent + line + seq![NEWLINE] + indented_text(
                w.subrange(e + 1, w.len() as int),
                (n - 1) as nat,
            )
        } else {
            indent + line
        }
    }
}

/// The text `w`, which starts a line, without one level of indentation before each of its first
/// `n` lines.
pub open spec fn dedented_text(w: Seq<u8>, n: nat) -> Seq<u8>
    decreases n,
{
    let e = line_end(w, 0);
    if n == 0 {
        w
    } else {
        let line = w.subrange(dedent_width(w, 0), e);
        if e < w.len() {
            line + seq![NEWLINE] + dedented_text(
                w.subrange(e + 1, w.len() as int),
                (n - 1) as nat,
            )
        } else {
            line
        }
    }
}

/// Indenting or dedenting.
pub open spec fn shifted_text(w: Seq<u8>, direction: VimIndentDirection, n: nat) -> Seq<u8> {
    match direction {
        VimIndentDirection::Increase => indented_text(w, n),
        VimIndentDirection::Decrease => dedented_text(w, n),
    }
}

/// Dedenting undoes indenting.
proof fn lemma_dedent_indented(w: Seq<u8>, n: nat)
    ensures
        dedented_text(indented_text(w, n), n) == w,
    decreases n,
{
    if n > 0 {
        let e = line_end(w, 0);
        lemma_line_end_free(w, 0);
        let v = indented_text(w, n);
        let k: int = if e > 0 {
            2
        } else {
            0
        };
        assert(forall|i: int| 0 <= i < k ==> v[i] == SPACE);
        assert(forall|i: int| k <= i < k + e ==> v[i] == w[i - k]);
        if e < w.len() {
            let rest = w.subrange(e + 1, w.len() as int);
            lemma_dedent_indented(rest, (n - 1) as nat);
            assert(v[k + e] == NEWLINE);
            lemma_line_end_is(v, 0, k + e);
            assert(v.subrange(k + e + 1, v.len() as int) =~= indented_text(
                rest,
                (n - 1) as nat,
            ));
            assert(v.subrange(k, k + e) + seq![NEWLINE] + rest =~= w);
        } else {
            lemma_line_end_is(v, 0, k + e);
            assert(v.subrange(k, k + e) =~= w);
        }
        assert(dedent_width(v, 0) == k);
    }
}

/// Valid text stays valid when it is indented.
proof fn lemma_indented_valid(w: Seq<u8>, n: nat)
    requires
        valid_utf8(w),
    ensures
        valid_utf8(indented_text(w, n)),
    decreases n,
{
    if n > 0 {
        let e = line_end(w, 0);
        lemma_literals();
        encode_utf8_valid_utf8("  "@);
        encode_utf8_valid_utf8("\n"@);
        encode_utf8_valid_utf8(""@);
        let indent = if e > 0 {
            indent_text()
        } else {
            Seq::empty()
        };
        lemma_line_end(w, 0);
        lemma_pos_is_boundary(w, e);
        valid_utf8_split(w, e);
        let line = w.subrange(0, e);
        valid_utf8_concat(indent, line);
        if e < w.len() {
            lemma_pos_is_boundary(w, e + 1);
            valid_utf8_split(w, e + 1);
            let rest = w.subrange(e + 1, w.len() as int);
            lemma_indented_valid(rest, (n - 1) as nat);
            valid_utf8_concat(indent + line, seq![NEWLINE]);
            valid_utf8_concat(
                indent + line + seq![NEWLINE],
                indented_text(rest, (n - 1) as nat),
            );
        }
    }
}

/// The first of some lines is shifted last.
proof fn lemma_first_shifted_last(
    m: AreaView,
    direction: VimIndentDirection,
    p: int,
    rest: Seq<int>,
    changed: bool,
)
    ensures
        all_shifted(m, direction, seq![p] + rest, changed).0 == shifted(
            all_shifted(m, direction, rest, changed).0,
            direction,
            p,
        ),
    decreases rest.len(),
{
    let all = seq![p] + rest;
    if rest.len() == 0 {
        assert(all =~= seq![p]);
        assert(all.drop_last() =~= Seq::<int>::empty());
        assert(all.last() == p);
        let next = shifted(m, direction, p);
        assert(all_shifted(
            next,
            direction,
            all.drop_last(),
            changed || shifts(m.buf.text, direction, p),
        ).0 == next);
    } else {
        assert(all.last() == rest.last());
        assert(all.drop_last() =~= seq![p] + rest.drop_last());
        lemma_first_shifted_last(
            shifted(m, direction, rest.last()),
            direction,
            p,
            rest.drop_last(),
            changed || shifts(m.buf.text, direction, rest.last()),
        );
    }
}

/// The text with all lines shifted that come after the line of `p`.
pub open spec fn later_shifted(
    t: Seq<u8>,
    direction: VimIndentDirection,
    p: int,
    n: nat,
) -> Seq<u8> {
    let e = line_end(t, p);
    if e < t.len() {
        t.subrange(0, e + 1) + shifted_text(
            t.subrange(e + 1, t.len() as int),
            direction,
            (n - 1) as nat,
        )
    } else {
        t
    }
}

/// Shifting later lines leaves the line of `p` alone.
proof fn lemma_later_shifted(t: Seq<u8>, direction: VimIndentDirection, p: int, n: nat)
    requires
        0 <= p <= t.len(),
    ensures
        line_end(later_shifted(t, direction, p, n), p) == line_end(t, p),
        line_end(t, p) <= later_shifted(t, direction, p, n).len(),
        forall|k: int|
            0 <= k < line_end(t, p) ==> later_shifted(t, direction, p, n)[k] == #[trigger] t[k],
        dedent_width(later_shifted(t, direction, p, n), p) == dedent_width(t, p),
        line_end(t.subrange(p, t.len() as int), 0) == line_end(t, p) - p,
        dedent_width(t.subrange(p, t.len() as int), 0) == dedent_width(t, p),
        is_pos(t, p) ==> is_pos(later_shifted(t, direction, p, n), p),
{
    let e = line_end(t, p);
    let b = later_shifted(t, direction, p, n);
    let w = t.subrange(p, t.len() as int);
    lemma_line_end_free(t, p);
    assert(forall|k: int| 0 <= k < e ==> b[k] == t[k]);
    assert(e < t.len() ==> b[e] == t[e]);
    lemma_line_end_is(b, p, e);
    assert(forall|k: int| 0 <= k < w.len() ==> w[k] == t[p + k]);
    lemma_line_end_is(w, 0, e - p);
}

/// Indenting the line of `p` after the later ones indents all of them.
proof fn lemma_indent_step(t: Seq<u8>, p: int, n: nat)
    requires
        0 <= p <= t.len(),
        n > 0,
    ensures
        ({
            let b = later_shifted(t, VimIndentDirection::Increase, p, n);
            (if p < line_end(t, p) {
                spliced(b, p, p, indent_text())
            } else {
                b
            }) == t.subrange(0, p) + indented_text(t.subrange(p, t.len() as int), n)
        }),
{
    let e = line_end(t, p);
    let w = t.subrange(p, t.len() as int);
    lemma_line_end_free(t, p);
    lemma_later_shifted(t, VimIndentDirection::Increase, p, n);
    let b = later_shifted(t, VimIndentDirection::Increase, p, n);
    let indent = if p < e {
        indent_text()
    } else {
        Seq::empty()
    };
    let new = if p < e {
        spliced(b, p, p, indent_text())
    } else {
        b
    };
    assert(w.subrange(0, e - p) =~= t.subrange(p, e));
    if e < t.len() {
        let rest = t.subrange(e + 1, t.len() as int);
        let tail = indented_text(rest, (n - 1) as nat);
        assert(w.subrange(e - p + 1, w.len() as int) =~= rest);
        assert(indented_text(w, n) == indent + t.subrange(p, e) + seq![NEWLINE] + tail);
        assert(b == t.subrange(0, e + 1) + tail);
        assert(new =~= t.subrange(0, p) + (indent + t.subrange(p, e) + seq![NEWLINE] + tail));
    } else {
        assert(indented_text(w, n) == indent + t.subrange(p, e));
        assert(new =~= t.subrange(0, p) + (indent + t.subrange(p, e)));
    }
}

/// Dedenting the line of `p` after the later ones dedents all of them.
proof fn lemma_dedent_step(t: Seq<u8>, p: int, n: nat)
    requires
        0 <= p <= t.len(),
        n > 0,
    ensures
        ({
            let b = later_shifted(t, VimIndentDirection::Decrease, p, n);
            spliced(b, p, p + dedent_width(b, p), Seq::empty()) == t.subrange(0, p)
                + dedented_text(t.subrange(p, t.len() as int), n)
        }),
{
    let e = line_end(t, p);
    let w = t.subrange(p, t.len() as int);
    lemma_line_end_free(t, p);
    lemma_later_shifted(t, VimIndentDirection::Decrease, p, n);
    let b = later_shifted(t, VimIndentDirection::Decrease, p, n);
    let k = dedent_width(t, p);
    let new = spliced(b, p, p + k, Seq::empty());
    assert(w.subrange(k, e - p) =~= t.subrange(p + k, e));
    if e < t.len() {
        let rest = t.subrange(e + 1, t.len() as int);
        let tail = dedented_text(rest, (n - 1) as nat);
        assert(w.subrange(e - p + 1, w.len() as int) =~= rest);
        assert(dedented_text(w, n) == t.subrange(p + k, e) + seq![NEWLINE] + tail);
        assert(b == t.subrange(0, e + 1) + tail);
        assert(new =~= t.subrange(0, p) + (t.subrange(p + k, e) + seq![NEWLINE] + tail));
    } else {
        assert(dedented_text(w, n) == t.subrange(p + k, e));
        assert(new =~= t.subrange(0, p) + t.subrange(p + k, e));
    }
}

/// How far shifting the line that starts at `p` moves what follows on it.
pub open spec fn line_drift(t: Seq<u8>, direction: VimIndentDirection, p: int) -> int {
    match direction {
        VimIndentDirection::Increase => if p < line_end(t, p) {
            indent_text().len() as int
        } else {
            0
        },
        VimIndentDirection::Decrease => -dedent_width(t, p),
    }
}

/// How far shifting `n` lines, the first of which starts at `p`, moves what stands at `x`.
pub open spec fn drift(
    t: Seq<u8>,
    direction: VimIndentDirection,
    p: int,
    n: nat,
    x: int,
) -> int
    decreases n,
{
    if n == 0 || x < p {
        0
    } else {
        let e = line_end(t, p);
        line_drift(t, direction, p) + if e < t.len() {
            drift(t, direction, e + 1, (n - 1) as nat, x)
        } else {
            0
        }
    }
}

/// An element moved by `by` bytes.
pub open spec fn moved_element(e: ElementView, by: int) -> ElementView {
    ElementView { id: e.id, start: e.start + by, end: e.end + by }
}

/// The elements, each moved with the text that it starts at.
pub open spec fn drifted(
    t: Seq<u8>,
    es: Seq<ElementView>,
    direction: VimIndentDirection,
    p: int,
    n: nat,
) -> Seq<ElementView> {
    es.map_values(|e: ElementView| moved_element(e, drift(t, direction, p, n, e.start)))
}

/// No element is in the way of shifting the line that starts at `p`: none holds the place where
/// the indentation goes inside, and none holds indentation that goes away.
pub open spec fn line_clear(
    t: Seq<u8>,
    es: Seq<ElementView>,
    direction: VimIndentDirection,
    p: int,
) -> bool {
    let z = match direction {
        VimIndentDirection::Increase => p,
        VimIndentDirection::Decrease => p + dedent_width(t, p),
    };
    line_drift(t, direction, p) != 0 ==> forall|i: int|
        0 <= i < es.len() ==> (#[trigger] es[i]).end <= p || es[i].start >= z
}

/// No element is in the way of shifting `n` lines, the first of which starts at `p`.
pub open spec fn lines_clear(
    t: Seq<u8>,
    es: Seq<ElementView>,
    direction: VimIndentDirection,
    p: int,
    n: nat,
) -> bool
    decreases n,
{
    n > 0 ==> {
        let e = line_end(t, p);
        &&& line_clear(t, es, direction, p)
        &&& e < t.len() ==> lines_clear(t, es, direction, e + 1, (n - 1) as nat)
    }
}

/// Every element is a stretch of at least one byte.
pub open spec fn elements_full(es: Seq<ElementView>) -> bool {
    forall|i: int| 0 <= i < es.len() ==> (#[trigger] es[i]).start < es[i].end
}

/// What starts on or behind the first of the lines stays there.
proof fn lemma_drift_floor(
    t: Seq<u8>,
    es: Seq<ElementView>,
    direction: VimIndentDirection,
    p: int,
    n: nat,
    i: int,
)
    requires
        0 <= p <= t.len(),
        elements_full(es),
        lines_clear(t, es, direction, p, n),
        0 <= i < es.len(),
        es[i].start >= p,
    ensures
        es[i].start + drift(t, direction, p, n, es[i].start) >= p,
    decreases n,
{
    if n > 0 {
        let e = line_end(t, p);
        lemma_line_end_free(t, p);
        assert(line_clear(t, es, direction, p));
        assert(es[i].start < es[i].end);
        reveal_with_fuel(drift, 2);
        if e < t.len() && es[i].start > e {
            lemma_drift_floor(t, es, direction, e + 1, (n - 1) as nat, i);
        }
    }
}

/// An edit that no element is in the way of moves the elements behind it.
proof fn lemma_edited_clear(es: Seq<ElementView>, a: int, z: int, n: int)
    requires
        a <= z,
        elements_full(es),
        forall|i: int| 0 <= i < es.len() ==> (#[trigger] es[i]).end <= a || es[i].start >= z,
    ensures
        edited_elements(es, a, z, n) == es.map_values(
            |e: ElementView|
                moved_element(
                    e,
                    if e.start >= z {
                        n - (z - a)
                    } else {
                        0
                    },
                ),
        ),
    decreases es.len(),
{
    let f = |e: ElementView|
        moved_element(
            e,
            if e.start >= z {
                n - (z - a)
            } else {
                0
            },
        );
    if es.len() > 0 {
        let init = es.drop_last();
        assert(forall|i: int| 0 <= i < init.len() ==> #[trigger] init[i] == es[i]);
        lemma_edited_clear(init, a, z, n);
        assert(es.last() == es[es.len() - 1]);
        assert(edited_elements(es, a, z, n) =~= init.map_values(f).push(f(es.last())));
        assert(es.map_values(f) =~= init.map_values(f).push(f(es.last())));
    } else {
        assert(edited_elements(es, a, z, n) =~= es.map_values(f));
    }
}

/// What shifting one line does where no element is in the way.
proof fn lemma_one_shifted(m: AreaView, direction: VimIndentDirection, p: int)
    requires
        is_pos(m.buf.text, p),
        elements_full(m.buf.elements),
        line_clear(m.buf.text, m.buf.elements, direction, p),
    ensures
        shifted(m, direction, p).buf.text == match direction {
            VimIndentDirection::Increase => if p < line_end(m.buf.text, p) {
                spliced(m.buf.text, p, p, indent_text())
            } else {
                m.buf.text
            },
            VimIndentDirection::Decrease => spliced(
                m.buf.text,
                p,
                p + dedent_width(m.buf.text, p),
                Seq::empty(),
            ),
        },
        shifted(m, direction, p).buf.elements == m.buf.elements.map_values(
            |e: ElementView|
                moved_element(
                    e,
                    if e.start >= p {
                        line_drift(m.buf.text, direction, p)
                    } else {
                        0
                    },
                ),
        ),
{
    let t = m.buf.text;
    let es = m.buf.elements;
    let d = line_drift(t, direction, p);
    let f = |e: ElementView|
        moved_element(
            e,
            if e.start >= p {
                d
            } else {
                0
            },
        );
    assert(indent_text().len() == 2);
    if d == 0 {
        assert(spliced(t, p, p, Seq::empty()) =~= t);
        assert(es.map_values(f) =~= es);
    } else {
        let z = match direction {
            VimIndentDirection::Increase => p,
            VimIndentDirection::Decrease => p + dedent_width(t, p),
        };
        let n = match direction {
            VimIndentDirection::Increase => 2int,
            VimIndentDirection::Decrease => 0int,
        };
        reveal(raw_edit);
        assert(!inside(es, p)) by {
            if inside(es, p) {
                let i = choose|i: int| inside_at(es, i, p);
                assert(inside_at(es, i, p));
                assert(es[i].end <= p || es[i].start >= z);
            }
        }
        assert(!inside(es, z)) by {
            if inside(es, z) {
                let i = choose|i: int| inside_at(es, i, z);
                assert(inside_at(es, i, z));
                assert(es[i].end <= p || es[i].start >= z);
            }
        }
        lemma_edited_clear(es, p, z, n);
        assert(edited_elements(es, p, z, n) =~= es.map_values(f)) by {
            assert forall|i: int| 0 <= i < es.len() implies edited_elements(es, p, z, n)[i] == f(
                #[trigger] es[i],
            ) by {
                assert(es[i].end <= p || es[i].start >= z);
            }
        }
    }
}

/// No element is in the way of shifting a line after the later ones if none was before.
proof fn lemma_still_clear(
    t: Seq<u8>,
    es: Seq<ElementView>,
    direction: VimIndentDirection,
    p: int,
    n: nat,
    os: Seq<ElementView>,
)
    requires
        n > 0,
        0 <= p <= t.len(),
        elements_full(es),
        lines_clear(t, es, direction, p, n),
        os == if line_end(t, p) < t.len() {
            drifted(t, es, direction, line_end(t, p) + 1, (n - 1) as nat)
        } else {
            es
        },
    ensures
        line_clear(later_shifted(t, direction, p, n), os, direction, p),
        line_drift(later_shifted(t, direction, p, n), direction, p) == line_drift(t, direction, p),
        elements_full(os),
        drifted(t, es, direction, p, n) == os.map_values(
            |e: ElementView|
                moved_element(
                    e,
                    if e.start >= p {
                        line_drift(t, direction, p)
                    } else {
                        0
                    },
                ),
        ),
{
    let e = line_end(t, p);
    let b = later_shifted(t, direction, p, n);
    let d = line_drift(t, direction, p);
    let f = |e: ElementView|
        moved_element(
            e,
            if e.start >= p {
                d
            } else {
                0
            },
        );
    lemma_line_end_free(t, p);
    lemma_later_shifted(t, direction, p, n);
    assert(line_clear(t, es, direction, p));
    assert forall|i: int| 0 <= i < es.len() implies {
        &&& os.len() == es.len()
        &&& es[i].start <= e ==> os[i] == es[i]
        &&& es[i].start > e ==> os[i].start > e
        &&& #[trigger] os[i].start < os[i].end
        &&& drifted(t, es, direction, p, n)[i] == f(os[i])
    } by {
        assert(es[i].start < es[i].end);
        if e < t.len() && es[i].start > e {
            lemma_drift_floor(t, es, direction, e + 1, (n - 1) as nat, i);
        }
    }
    assert(drifted(t, es, direction, p, n) =~= os.map_values(f));
    if d != 0 {
        let z = match direction {
            VimIndentDirection::Increase => p,
            VimIndentDirection::Decrease => p + dedent_width(t, p),
        };
        assert(z <= e);
        assert forall|i: int| 0 <= i < os.len() implies (#[trigger] os[i]).end <= p || os[i].start
            >= z by {
            assert(es[i].end <= p || es[i].start >= z);
            assert(es[i].start < es[i].end);
        }
    }
}

/// What shifting lines does where no element is in the way.
proof fn lemma_lines_shifted(
    m: AreaView,
    direction: VimIndentDirection,
    p: int,
    n: nat,
    changed: bool,
)
    requires
        elements_full(m.buf.elements),
        valid_utf8(m.buf.text),
        is_pos(m.buf.text, p),
        lines_clear(m.buf.text, m.buf.elements, direction, p, n),
    ensures
        ({
            let t = m.buf.text;
            let after = all_shifted(m, direction, line_starts(t, p, n), changed).0;
            &&& after.buf.elements == drifted(t, m.buf.elements, direction, p, n)
            &&& after.buf.text == t.subrange(0, p) + shifted_text(
                t.subrange(p, t.len() as int),
                direction,
                n,
            )
        }),
    decreases n,
{
    let t = m.buf.text;
    let es = m.buf.elements;
    if n == 0 {
        assert(t.subrange(0, p) + t.subrange(p, t.len() as int) =~= t);
        assert(drifted(t, es, direction, p, n) =~= es);
    } else {
        let e = line_end(t, p);
        lemma_line_end(t, p);
        let rest = if e < t.len() {
            line_starts(t, e + 1, (n - 1) as nat)
        } else {
            Seq::empty()
        };
        assert(line_starts(t, p, n) =~= seq![p] + rest);
        lemma_first_shifted_last(m, direction, p, rest, changed);
        let before = all_shifted(m, direction, rest, changed).0;
        if e < t.len() {
            lemma_lines_shifted(m, direction, e + 1, (n - 1) as nat, changed);
        }
        assert(before.buf.text == later_shifted(t, direction, p, n));
        lemma_later_shifted(t, direction, p, n);
        lemma_still_clear(t, es, direction, p, n, before.buf.elements);
        lemma_one_shifted(before, direction, p);
        match direction {
            VimIndentDirection::Increase => lemma_indent_step(t, p, n),
            VimIndentDirection::Decrease => lemma_dedent_step(t, p, n),
        }
    }
}

/// Shifting changes the indentation of the counted lines and nothing else, where no element is in
/// the way: the elements move with their text.
pub proof fn law_shift_changes_only_indentation(m: AreaView, direction: VimIndentDirection, n: nat)
    requires
        buffer_ok(m.buf),
        lines_clear(
            m.buf.text,
            m.buf.elements,
            direction,
            line_start(m.buf.text, m.buf.cursor),
            n,
        ),
    ensures
        ({
            let t = m.buf.text;
            let first = line_start(t, m.buf.cursor);
            &&& lines_shifted(m, direction, n).0.buf.text == t.subrange(0, first) + shifted_text(
                t.subrange(first, t.len() as int),
                direction,
                n,
            )
            &&& lines_shifted(m, direction, n).0.buf.elements == drifted(
                t,
                m.buf.elements,
                direction,
                first,
                n,
            )
        }),
{
    reveal(lines_shifted);
    lemma_line_start(m.buf.text, m.buf.cursor);
    assert(elements_full(m.buf.elements));
    lemma_lines_shifted(m, direction, line_start(m.buf.text, m.buf.cursor), n, false);
}

/// Bytes put in before line `q` move the lines from there on, and what they do to each other.
proof fn lemma_lines_moved(
    b: Seq<u8>,
    es: Seq<ElementView>,
    u: Seq<u8>,
    os: Seq<ElementView>,
    q: int,
    k: int,
    n: nat,
)
    requires
        0 <= q <= b.len(),
        0 <= k,
        u.len() == b.len() + k,
        forall|j: int| q <= j < b.len() ==> #[trigger] u[j + k] == b[j],
        os.len() == es.len(),
        forall|i: int|
            0 <= i < es.len() ==> (#[trigger] os[i]).end <= es[i].end + k && (es[i].start >= q
                ==> os[i].start == es[i].start + k),
        lines_clear(b, es, VimIndentDirection::Decrease, q, n),
    ensures
        lines_clear(u, os, VimIndentDirection::Decrease, q + k, n),
        forall|x: int|
            #![trigger drift(b, VimIndentDirection::Decrease, q, n, x)]
            drift(u, VimIndentDirection::Decrease, q + k, n, x + k) == drift(
                b,
                VimIndentDirection::Decrease,
                q,
                n,
                x,
            ),
    decreases n,
{
    let down = VimIndentDirection::Decrease;
    if n > 0 {
        let e = line_end(b, q);
        lemma_line_end_free(b, q);
        assert forall|j: int| q + k <= j < e + k implies u[j] != NEWLINE by {
            assert(u[(j - k) + k] == b[j - k]);
        }
        if e < b.len() {
            assert(u[e + k] == b[e]);
        }
        lemma_line_end_is(u, q + k, e + k);
        assert(dedent_width(u, q + k) == dedent_width(b, q)) by {
            if q < e {
                assert(u[q + k] == b[q]);
            }
            if q + 1 < e {
                assert(u[(q + 1) + k] == b[q + 1]);
            }
        }
        assert(line_clear(b, es, down, q));
        assert(line_clear(u, os, down, q + k)) by {
            if line_drift(u, down, q + k) != 0 {
                let w = dedent_width(b, q);
                assert forall|i: int| 0 <= i < os.len() implies (#[trigger] os[i]).end <= q + k
                    || os[i].start >= q + k + w by {
                    assert(es[i].end <= q || es[i].start >= q + w);
                }
            }
        }
        if e < b.len() {
            lemma_lines_moved(b, es, u, os, e + 1, k, (n - 1) as nat);
            assert(e + 1 + k == e + k + 1);
            assert forall|x: int|
                #![trigger drift(b, down, q, n, x)]
                drift(u, down, q + k, n, x + k) == drift(b, down, q, n, x) by {
                assert(drift(b, down, e + 1, (n - 1) as nat, x) == drift(
                    u,
                    down,
                    e + k + 1,
                    (n - 1) as nat,
                    x + k,
                ));
            }
        }
    }
}

/// Once lines are indented, no element is in the way of dedenting them, and that moves everything
/// back.
proof fn lemma_dedent_clear(t: Seq<u8>, es: Seq<ElementView>, p: int, n: nat)
    requires
        0 <= p <= t.len(),
        elements_full(es),
        lines_clear(t, es, VimIndentDirection::Increase, p, n),
    ensures
        ({
            let u = t.subrange(0, p) + indented_text(t.subrange(p, t.len() as int), n);
            let os = drifted(t, es, VimIndentDirection::Increase, p, n);
            &&& lines_clear(u, os, VimIndentDirection::Decrease, p, n)
            &&& forall|x: int|
                #![trigger drift(t, VimIndentDirection::Increase, p, n, x)]
                drift(
                    u,
                    VimIndentDirection::Decrease,
                    p,
                    n,
                    x + drift(t, VimIndentDirection::Increase, p, n, x),
                ) == -drift(t, VimIndentDirection::Increase, p, n, x)
        }),
    decreases n,
{
    let up = VimIndentDirection::Increase;
    let down = VimIndentDirection::Decrease;
    let u = t.subrange(0, p) + indented_text(t.subrange(p, t.len() as int), n);
    let os = drifted(t, es, up, p, n);
    if n > 0 {
        let e = line_end(t, p);
        let k = line_drift(t, up, p);
        let b = later_shifted(t, up, p, n);
        let later = if e < t.len() {
            drifted(t, es, up, e + 1, (n - 1) as nat)
        } else {
            es
        };
        lemma_line_end_free(t, p);
        lemma_later_shifted(t, up, p, n);
        lemma_indent_step(t, p, n);
        lemma_still_clear(t, es, up, p, n, later);
        assert(indent_text().len() == 2);
        assert(u.len() == b.len() + k);
        assert(forall|j: int| p <= j < b.len() ==> #[trigger] u[j + k] == b[j]);
        assert(forall|j: int| p <= j < p + k ==> u[j] == SPACE);
        assert forall|j: int| p <= j < e + k implies u[j] != NEWLINE by {
            if j >= p + k {
                assert(u[(j - k) + k] == b[j - k]);
                assert(b[j - k] == t[j - k]);
            }
        }
        if e < t.len() {
            assert(b[e] == t[e]);
            assert(u[e + k] == b[e]);
        }
        lemma_line_end_is(u, p, e + k);
        assert(dedent_width(u, p) == k) by {
            if k > 0 {
                assert(u[p] == SPACE && u[p + 1] == SPACE);
            }
        }
        assert(line_clear(u, os, down, p)) by {
            if k != 0 {
                assert forall|i: int| 0 <= i < os.len() implies (#[trigger] os[i]).end <= p
                    || os[i].start >= p + k by {
                    assert(later[i].end <= p || later[i].start >= p);
                    assert(later[i].start < later[i].end);
                }
            }
        }
        if e < t.len() {
            lemma_dedent_clear(t, es, e + 1, (n - 1) as nat);
            assert forall|i: int| 0 <= i < later.len() implies (#[trigger] os[i]).end
                <= later[i].end + k && (later[i].start >= e + 1 ==> os[i].start == later[i].start
                + k) by {}
            lemma_lines_moved(b, later, u, os, e + 1, k, (n - 1) as nat);
            assert(e + 1 + k == e + k + 1);
            assert forall|x: int|
                #![trigger drift(t, up, p, n, x)]
                drift(u, down, p, n, x + drift(t, up, p, n, x)) == -drift(t, up, p, n, x) by {
                lemma_drift_back(t, u, b, p, n, k, x);
            }
        } else {
            assert forall|x: int|
                #![trigger drift(t, up, p, n, x)]
                drift(u, down, p, n, x + drift(t, up, p, n, x)) == -drift(t, up, p, n, x) by {}
        }
    }
}

/// How one line and the later ones together move a position back.
proof fn lemma_drift_back(t: Seq<u8>, u: Seq<u8>, b: Seq<u8>, p: int, n: nat, k: int, x: int)
    requires
        n > 0,
        0 <= p <= line_end(t, p) < t.len(),
        k == line_drift(t, VimIndentDirection::Increase, p),
        u.len() == b.len() + k,
        line_end(t, p) < b.len(),
        line_end(u, p) == line_end(t, p) + k,
        dedent_width(u, p) == k,
        forall|y: int|
            #![trigger drift(
                b,
                VimIndentDirection::Decrease,
                line_end(t, p) + 1,
                (n - 1) as nat,
                y,
            )]
            drift(
                u,
                VimIndentDirection::Decrease,
                line_end(t, p) + k + 1,
                (n - 1) as nat,
                y + k,
            ) == drift(b, VimIndentDirection::Decrease, line_end(t, p) + 1, (n - 1) as nat, y),
        ({
            let d = drift(
                t,
                VimIndentDirection::Increase,
                line_end(t, p) + 1,
                (n - 1) as nat,
                x,
            );
            drift(
                b,
                VimIndentDirection::Decrease,
                line_end(t, p) + 1,
                (n - 1) as nat,
                x + d,
            ) == -d
        }),
    ensures
        ({
            let d = drift(t, VimIndentDirection::Increase, p, n, x);
            drift(u, VimIndentDirection::Decrease, p, n, x + d) == -d
        }),
{
    let up = VimIndentDirection::Increase;
    let down = VimIndentDirection::Decrease;
    let e = line_end(t, p);
    assert(indent_text().len() == 2);
    lemma_drift_up(t, p, n, x);
    if x >= p {
        let later = drift(t, up, e + 1, (n - 1) as nat, x);
        assert(drift(t, up, p, n, x) == k + later);
        assert(drift(u, down, e + k + 1, (n - 1) as nat, x + later + k) == -later);
        assert(drift(u, down, p, n, x + (k + later)) == -k + drift(
            u,
            down,
            e + k + 1,
            (n - 1) as nat,
            x + (k + later),
        ));
    }
}

/// Indenting moves nothing to the left.
proof fn lemma_drift_up(t: Seq<u8>, p: int, n: nat, x: int)
    ensures
        drift(t, VimIndentDirection::Increase, p, n, x) >= 0,
    decreases n,
{
    assert(indent_text().len() == 2);
    if n > 0 {
        lemma_drift_up(t, line_end(t, p) + 1, (n - 1) as nat, x);
    }
}

/// The text stays valid and keeps its first counted line where it is when lines are indented.
proof fn lemma_indented_first(m: AreaView, n: nat)
    requires
        buffer_ok(m.buf),
        lines_clear(
            m.buf.text,
            m.buf.elements,
            VimIndentDirection::Increase,
            line_start(m.buf.text, m.buf.cursor),
            n,
        ),
    ensures
        ({
            let t = m.buf.text;
            let u = lines_shifted(m, VimIndentDirection::Increase, n).0.buf.text;
            let first = line_start(t, m.buf.cursor);
            &&& valid_utf8(u)
            &&& is_pos(u, first)
            &&& first > 0 ==> u[first - 1] == NEWLINE
        }),
{
    let t = m.buf.text;
    let first = line_start(t, m.buf.cursor);
    let w = t.subrange(first, t.len() as int);
    let u = lines_shifted(m, VimIndentDirection::Increase, n).0.buf.text;
    law_shift_changes_only_indentation(m, VimIndentDirection::Increase, n);
    lemma_line_start(t, m.buf.cursor);
    lemma_pos_is_boundary(t, first);
    valid_utf8_split(t, first);
    lemma_indented_valid(w, n);
    valid_utf8_concat(t.subrange(0, first), indented_text(w, n));
    if first > 0 {
        assert(u[first - 1] == t[first - 1]);
        lemma_ascii(u, first - 1);
    } else {
        lemma_zero_pos(u);
    }
}

/// Behind the last newline the line starts.
proof fn lemma_line_start_is(t: Seq<u8>, p: int, q: int)
    requires
        0 <= p <= q <= t.len(),
        forall|k: int| p <= k < q ==> t[k] != NEWLINE,
        p > 0 ==> t[p - 1] == NEWLINE,
    ensures
        line_start(t, q) == p,
    decreases q - p,
{
    if p < q {
        lemma_line_start_is(t, p, q - 1);
    }
}

/// Indenting leaves the cursor on the first of the lines, unless an element holds the first
/// character there that is not blank inside.
pub proof fn law_indent_stays_on_the_line(m: AreaView, n: nat)
    requires
        buffer_ok(m.buf),
        lines_clear(
            m.buf.text,
            m.buf.elements,
            VimIndentDirection::Increase,
            line_start(m.buf.text, m.buf.cursor),
            n,
        ),
        ({
            let after = lines_shifted(m, VimIndentDirection::Increase, n).0.buf;
            let first = line_start(m.buf.text, m.buf.cursor);
            !inside(
                after.elements,
                skip_white(after.text, first, line_end(after.text, first)),
            )
        }),
    ensures
        ({
            let after = lines_shifted(m, VimIndentDirection::Increase, n).0.buf;
            line_start(after.text, after.cursor) == line_start(m.buf.text, m.buf.cursor)
        }),
{
    let first = line_start(m.buf.text, m.buf.cursor);
    let after = lines_shifted(m, VimIndentDirection::Increase, n).0.buf;
    let u = after.text;
    lemma_indented_first(m, n);
    let eol = line_end(u, first);
    lemma_line_end(u, first);
    lemma_line_end_free(u, first);
    lemma_skip_white(u, first, eol);
    let q = skip_white(u, first, eol);
    assert(after.cursor == q) by {
        reveal(lines_shifted);
        assert(floor_pos(u, q) == q);
    }
    lemma_line_start_is(u, first, q);
}

/// Dedenting the lines that were just indented gives back the text and its elements, where no
/// element is in the way and the cursor is still on the first of them.
pub proof fn law_dedent_undoes_indent(m: AreaView, n: nat)
    requires
        buffer_ok(m.buf),
        lines_clear(
            m.buf.text,
            m.buf.elements,
            VimIndentDirection::Increase,
            line_start(m.buf.text, m.buf.cursor),
            n,
        ),
        ({
            let after = lines_shifted(m, VimIndentDirection::Increase, n).0.buf;
            line_start(after.text, after.cursor) == line_start(m.buf.text, m.buf.cursor)
        }),
    ensures
        ({
            let indented = lines_shifted(m, VimIndentDirection::Increase, n).0;
            let back = lines_shifted(indented, VimIndentDirection::Decrease, n).0;
            back.buf.text == m.buf.text && back.buf.elements == m.buf.elements
        }),
{
    let up = VimIndentDirection::Increase;
    let down = VimIndentDirection::Decrease;
    let t = m.buf.text;
    let es = m.buf.elements;
    let first = line_start(t, m.buf.cursor);
    let w = t.subrange(first, t.len() as int);
    let indented = lines_shifted(m, up, n).0;
    let u = indented.buf.text;
    let os = indented.buf.elements;
    law_shift_changes_only_indentation(m, up, n);
    lemma_line_start(t, m.buf.cursor);
    lemma_indented_first(m, n);
    assert(elements_full(es));
    lemma_dedent_clear(t, es, first, n);
    assert(elements_full(os)) by {
        assert forall|i: int| 0 <= i < os.len() implies (#[trigger] os[i]).start < os[i].end by {
            assert(es[i].start < es[i].end);
        }
    }
    let back = lines_shifted(indented, down, n).0;
    assert(back.buf.elements == drifted(u, os, down, first, n) && back.buf.text == u.subrange(
        0,
        first,
    ) + dedented_text(u.subrange(first, u.len() as int), n)) by {
        reveal(lines_shifted);
        lemma_lines_shifted(indented, down, first, n, false);
    }
    assert(u.subrange(0, first) =~= t.subrange(0, first));
    assert(u.subrange(first, u.len() as int) =~= indented_text(w, n));
    lemma_dedent_indented(w, n);
    assert(t.subrange(0, first) + w =~= t);
    assert forall|i: int| 0 <= i < es.len() implies drifted(u, os, down, first, n)[i]
        == #[trigger] es[i] by {
        let d = drift(t, up, first, n, es[i].start);
        assert(os[i] == moved_element(es[i], d));
    }
    assert(drifted(u, os, down, first, n) =~= es);
}

} // verus!

//! What typing over text promises: all of it can be taken back.

use crate::buffer::{
    buffer_ok, cover_end, covered, edited, edited_elements, elements_ok, inside, inside_at,
    lemma_edited_elements, lemma_edited_ok, lemma_edited_source, Buffer, ElementView,
};
use crate::paste_burst::{
    burst_retracted, lemma_elements_back, lemma_past_elements, lemma_restore_action,
    lemma_retraced_prefix, none_within, restored_to, retraced, steps_before_cursor,
};
use crate::text::{
    is_pos, lemma_pos_is_boundary, lemma_splice_inverse, lemma_splice_pos, plain_text,
};
use crate::textarea::{lemma_cursor_there, raw_edit, wide_edit, AreaView};
use crate::typing::{
    lemma_unmarked, nth_grapheme, overtype, overtype_end, past_elements, restored, unmarked,
};
use crate::vim::VimMode;
use crate::vim_commands::{insert_acted, CommandView, StepView, VimAction};
use vstd::prelude::*;
use vstd::utf8::*;

verus! {

/// Where typing over the text starts: behind the elements at the cursor.
pub open spec fn overtype_start(m: AreaView) -> int {
    past_elements(m.buf.elements, m.buf.cursor, m.buf.text.len() as int)
}

/// Typing over the text skips an element.
pub open spec fn skips_element(m: AreaView) -> bool {
    overtype_start(m) != m.buf.cursor
}

/// Typing over the text overwrites no element.
pub open spec fn spares_elements(m: AreaView, typed: Seq<u8>) -> bool {
    none_within(
        m.buf.elements,
        overtype_start(m),
        overtype_end(m.buf.text, m.buf.elements, overtype_start(m), typed),
    )
}

/// What is written over is a range of the text that cuts no character and no element.
pub open spec fn overtype_sound(m: AreaView, typed: Seq<u8>) -> bool {
    let start = overtype_start(m);
    let end = overtype_end(m.buf.text, m.buf.elements, start, typed);
    &&& buffer_ok(m.buf)
    &&& valid_utf8(typed)
    &&& typed.len() > 0
    &&& start <= end
    &&& is_pos(m.buf.text, end)
    &&& !inside(m.buf.elements, end)
}

/// The first `n` graphemes of `text` typed over the text, one after the other.
pub open spec fn overtyped_upto(
    m: AreaView,
    text: Seq<u8>,
    starts: Seq<usize>,
    n: nat,
) -> AreaView
    decreases n,
{
    if n == 0 {
        m
    } else {
        overtype(overtyped_upto(m, text, starts, (n - 1) as nat), nth_grapheme(text, starts, n - 1))
    }
}

/// Each of the first `n` graphemes is written over a range that cuts no character and no element.
pub open spec fn sound_upto(m: AreaView, text: Seq<u8>, starts: Seq<usize>, n: nat) -> bool {
    forall|j: nat|
        j < n ==> overtype_sound(
            #[trigger] overtyped_upto(m, text, starts, j),
            nth_grapheme(text, starts, j as int),
        )
}

/// One of the first `n` graphemes skips an element.
pub open spec fn skips_upto(m: AreaView, text: Seq<u8>, starts: Seq<usize>, n: nat) -> bool {
    exists|j: nat| j < n && skips_element(#[trigger] overtyped_upto(m, text, starts, j))
}

/// None of the first `n` graphemes overwrites an element.
pub open spec fn spares_upto(m: AreaView, text: Seq<u8>, starts: Seq<usize>, n: nat) -> bool {
    forall|j: nat|
        j < n ==> spares_elements(
            #[trigger] overtyped_upto(m, text, starts, j),
            nth_grapheme(text, starts, j as int),
        )
}

/// The graphemes typed last taken back, `n` times in a row; whether there was one each time.
pub open spec fn restored_times(m: AreaView, n: nat) -> (AreaView, bool)
    decreases n,
{
    if n == 0 {
        (m, true)
    } else {
        let (once, done) = restored(m);
        let (back, all) = restored_times(once, (n - 1) as nat);
        (back, done && all)
    }
}

/// Every element of `xs` is one of `es`.
pub open spec fn part_of(xs: Seq<ElementView>, es: Seq<ElementView>) -> bool {
    forall|i: int| 0 <= i < xs.len() ==> es.contains(#[trigger] xs[i])
}

/// `x` is `m` but for elements that it lost and for what taking text back does not look at.
pub open spec fn recovers(x: AreaView, m: AreaView) -> bool {
    &&& x.buf.text == m.buf.text
    &&& x.buf.cursor == m.buf.cursor
    &&& x.commands.steps == m.commands.steps
    &&& elements_ok(x.buf.text, x.buf.elements)
    &&& part_of(x.buf.elements, m.buf.elements)
}

/// Behind elements is not before them.
proof fn lemma_past_further(es: Seq<ElementView>, p: int, limit: int)
    ensures
        p <= past_elements(es, p, limit),
    decreases
            (if p < limit {
                limit - p
            } else {
                0
            }),
{
    if covered(es, p) && p < cover_end(es, p) <= limit {
        lemma_past_further(es, cover_end(es, p), limit);
    }
}

/// The elements that stay marked are elements as before, and none of them reaches into `a..z`.
proof fn lemma_unmarked_part(es: Seq<ElementView>, a: int, z: int)
    ensures
        part_of(unmarked(es, a, z), es),
        none_within(unmarked(es, a, z), a, z),
    decreases es.len(),
{
    if es.len() > 0 {
        let init = es.drop_last();
        let rest = unmarked(init, a, z);
        lemma_unmarked_part(init, a, z);
        let all = unmarked(es, a, z);
        assert forall|i: int| 0 <= i < all.len() implies es.contains(#[trigger] all[i])
            && (all[i].end <= a || all[i].start >= z) by {
            if i < rest.len() {
                assert(all[i] == rest[i]);
                assert(init.contains(rest[i]));
                let k = choose|k: int| 0 <= k < init.len() && init[k] == rest[i];
                assert(es[k] == rest[i]);
            } else {
                assert(all[i] == es.last());
                assert(es[es.len() - 1] == es.last());
            }
        }
    }
}

/// What one grapheme typed over the text does.
proof fn lemma_overtyped(m: AreaView, typed: Seq<u8>)
    requires
        overtype_sound(m, typed),
    ensures
        ({
            let start = overtype_start(m);
            let end = overtype_end(m.buf.text, m.buf.elements, start, typed);
            let after = overtype(m, typed);
            &&& m.buf.cursor <= start
            &&& is_pos(m.buf.text, start)
            &&& !inside(m.buf.elements, start)
            &&& after.buf == edited(Buffer { cursor: start, ..m.buf }, start, end, typed)
            &&& after.buf.cursor == start + typed.len()
            &&& after.commands.steps == m.commands.steps.push(
                StepView {
                    cursor_before: m.buf.cursor,
                    start,
                    inserted_len: typed.len() as int,
                    original: m.buf.text.subrange(start, end),
                },
            )
            &&& after.enabled == m.enabled
            &&& after.mode == m.mode
        }),
{
    reveal(raw_edit);
    let start = overtype_start(m);
    lemma_past_elements(m.buf.text, m.buf.elements, m.buf.cursor);
    lemma_past_further(m.buf.elements, m.buf.cursor, m.buf.text.len() as int);
    lemma_cursor_there(m, start);
}

/// Elements that an edit kept come back where they were when it is taken back.
proof fn lemma_part_back(
    es: Seq<ElementView>,
    xs: Seq<ElementView>,
    t: Seq<u8>,
    a: int,
    z: int,
    n: int,
)
    requires
        elements_ok(t, es),
        a <= z,
        0 <= n,
        !inside(es, a),
        !inside(es, z),
        part_of(xs, edited_elements(es, a, z, n)),
    ensures
        part_of(edited_elements(xs, a, a + n, z - a), es),
{
    let back = edited_elements(xs, a, a + n, z - a);
    let kept = edited_elements(es, a, z, n);
    assert forall|k: int| 0 <= k < back.len() implies es.contains(#[trigger] back[k]) by {
        lemma_edited_source(xs, a, a + n, z - a, k);
        let i = choose|i: int|
            0 <= i < xs.len() && {
                let e = #[trigger] xs[i];
                let o = back[k];
                &&& o.id == e.id
                &&& !(a <= e.start && e.end <= a + n)
                &&& if e.start >= a + n {
                    o.start == e.start - (a + n - a) + (z - a) && o.end == e.end - (a + n - a) + (z
                        - a)
                } else {
                    o == e
                }
            };
        assert(kept.contains(xs[i]));
        let h = choose|h: int| 0 <= h < kept.len() && kept[h] == xs[i];
        lemma_edited_source(es, a, z, n, h);
        let j = choose|j: int|
            0 <= j < es.len() && {
                let e = #[trigger] es[j];
                let o = kept[h];
                &&& o.id == e.id
                &&& !(a <= e.start && e.end <= z)
                &&& if e.start >= z {
                    o.start == e.start - (z - a) + n && o.end == e.end - (z - a) + n
                } else {
                    o == e
                }
            };
        assert(!inside_at(es, j, a));
        assert(!inside_at(es, j, z));
        assert(back[k] == es[j]);
    }
}

/// Taking back the grapheme typed last gives the text and the cursor before it; the elements too,
/// if none was overwritten.
proof fn lemma_step_back(m: AreaView, typed: Seq<u8>, x: AreaView)
    requires
        overtype_sound(m, typed),
        recovers(x, overtype(m, typed)),
    ensures
        restored(x).1,
        recovers(restored(x).0, m),
        spares_elements(m, typed) && x.buf == overtype(m, typed).buf ==> restored(x).0.buf == m.buf,
{
    reveal(restored);
    reveal(raw_edit);
    let t = m.buf.text;
    let es = m.buf.elements;
    let start = overtype_start(m);
    let end = overtype_end(t, es, start, typed);
    let n = typed.len() as int;
    let z = start + n;
    let after = overtype(m, typed);
    lemma_overtyped(m, typed);
    lemma_edited_ok(Buffer { cursor: start, ..m.buf }, start, end, typed);
    lemma_splice_pos(t, start, end, typed);
    let step = x.commands.steps.last();
    assert(x.commands.steps.drop_last() =~= m.commands.steps);
    let original = t.subrange(start, end);
    let kept = unmarked(x.buf.elements, start, z);
    let open = AreaView {
        buf: Buffer { elements: kept, ..x.buf },
        commands: CommandView { steps: x.commands.steps.drop_last(), ..x.commands },
        ..x
    };
    lemma_unmarked(x.buf.text, x.buf.elements, start, z);
    lemma_unmarked_part(x.buf.elements, start, z);
    assert(part_of(kept, after.buf.elements)) by {
        assert forall|i: int| 0 <= i < kept.len() implies after.buf.elements.contains(
            #[trigger] kept[i],
        ) by {
            assert(x.buf.elements.contains(kept[i]));
            let k = choose|k: int|
                0 <= k < x.buf.elements.len() && x.buf.elements[k] == kept[i];
            assert(after.buf.elements.contains(x.buf.elements[k]));
        }
    }
    let back = wide_edit(open, start, z, original);
    assert(back.buf == edited(open.buf, start, z, original));
    lemma_splice_inverse(t, start, end, typed);
    assert(back.buf.text == t);
    lemma_part_back(es, kept, t, start, end, n);
    lemma_original_valid(t, start, end);
    lemma_edited_elements(x.buf.text, kept, start, z, original);
    assert(!inside(back.buf.elements, m.buf.cursor)) by {
        if inside(back.buf.elements, m.buf.cursor) {
            let i = choose|i: int| inside_at(back.buf.elements, i, m.buf.cursor);
            assert(es.contains(back.buf.elements[i]));
            let k = choose|k: int| 0 <= k < es.len() && es[k] == back.buf.elements[i];
            assert(inside_at(es, k, m.buf.cursor));
        }
    }
    lemma_cursor_there(back, m.buf.cursor);
    if spares_elements(m, typed) && x.buf == after.buf {
        lemma_elements_back(t, es, start, end, n);
    }
}

/// One grapheme typed over the text can be taken back: the text, the cursor and what was typed
/// before are then as they were, and the elements too unless one was overwritten. Plain text typed
/// over plain text leaves plain text.
pub proof fn lemma_one_taken_back(m: AreaView, typed: Seq<u8>)
    requires
        overtype_sound(m, typed),
    ensures
        ({
            let (back, done) = restored(overtype(m, typed));
            &&& done
            &&& back.buf.text == m.buf.text
            &&& back.buf.cursor == m.buf.cursor
            &&& back.commands.steps == m.commands.steps
            &&& spares_elements(m, typed) ==> back.buf == m.buf
        }),
        plain_text(m.buf.text) && plain_text(typed) ==> plain_text(overtype(m, typed).buf.text),
{
    let after = overtype(m, typed);
    let es = after.buf.elements;
    let start = overtype_start(m);
    let end = overtype_end(m.buf.text, m.buf.elements, start, typed);
    lemma_overtyped(m, typed);
    lemma_edited_ok(Buffer { cursor: start, ..m.buf }, start, end, typed);
    assert forall|i: int| 0 <= i < es.len() implies es.contains(#[trigger] es[i]) by {}
    lemma_step_back(m, typed, after);
}

/// A part of the text between boundaries is valid.
proof fn lemma_original_valid(t: Seq<u8>, a: int, z: int)
    requires
        valid_utf8(t),
        is_pos(t, a),
        is_pos(t, z),
        a <= z,
    ensures
        valid_utf8(t.subrange(a, z)),
{
    lemma_pos_is_boundary(t, z);
    valid_utf8_split(t, z);
    let head = t.subrange(0, z);
    if a < z {
        assert(head[a] == t[a]);
    }
    lemma_pos_is_boundary(head, a);
    valid_utf8_split(head, a);
    assert(head.subrange(a, z) =~= t.subrange(a, z));
}

/// As many graphemes as were typed over the text can be taken back, one after the other. The text,
/// the cursor and what was typed before are then as they were, and so are the elements, skipped
/// ones included, unless one was overwritten.
pub proof fn law_typing_over_is_taken_back(
    m: AreaView,
    text: Seq<u8>,
    starts: Seq<usize>,
    n: nat,
    x: AreaView,
)
    requires
        buffer_ok(m.buf),
        sound_upto(m, text, starts, n),
        recovers(x, overtyped_upto(m, text, starts, n)),
    ensures
        restored_times(x, n).1,
        recovers(restored_times(x, n).0, m),
        spares_upto(m, text, starts, n) && x.buf == overtyped_upto(m, text, starts, n).buf
            ==> restored_times(x, n).0.buf == m.buf,
    decreases n,
{
    if n > 0 {
        let k = (n - 1) as nat;
        let before = overtyped_upto(m, text, starts, k);
        let typed = nth_grapheme(text, starts, k as int);
        assert(overtype_sound(before, typed));
        lemma_step_back(before, typed, x);
        law_typing_over_is_taken_back(m, text, starts, k, restored(x).0);
        if spares_upto(m, text, starts, n) {
            assert(spares_elements(before, typed));
            assert(spares_upto(m, text, starts, k));
        }
    }
}

/// Once nothing that was typed is left, nothing is taken back and nothing changes.
pub proof fn law_nothing_left_to_take_back(m: AreaView)
    requires
        m.commands.steps.len() == 0,
    ensures
        !restored(m).1,
        restored(m).0.buf == m.buf,
{
    reveal(restored);
}

/// Typing over the text moves the cursor on, and records only what starts from the old cursor on.
pub proof fn lemma_typed_on(m: AreaView, text: Seq<u8>, starts: Seq<usize>, n: nat)
    requires
        buffer_ok(m.buf),
        sound_upto(m, text, starts, n),
    ensures
        m.buf.cursor <= overtyped_upto(m, text, starts, n).buf.cursor,
        n > 0 ==> m.buf.cursor < overtyped_upto(m, text, starts, n).buf.cursor,
        overtyped_upto(m, text, starts, n).commands.steps.len() == m.commands.steps.len() + n,
        overtyped_upto(m, text, starts, n).enabled == m.enabled,
        overtyped_upto(m, text, starts, n).mode == m.mode,
    decreases n,
{
    if n > 0 {
        let k = (n - 1) as nat;
        let before = overtyped_upto(m, text, starts, k);
        lemma_typed_on(m, text, starts, k);
        assert(overtype_sound(before, nth_grapheme(text, starts, k as int)));
        lemma_overtyped(before, nth_grapheme(text, starts, k as int));
    }
}

/// Going back to where the typing started takes back all that was typed.
proof fn lemma_restored_to(
    m: AreaView,
    text: Seq<u8>,
    starts: Seq<usize>,
    n: nat,
    x: AreaView,
)
    requires
        buffer_ok(m.buf),
        sound_upto(m, text, starts, n),
        recovers(x, overtyped_upto(m, text, starts, n)),
    ensures
        recovers(restored_to(x, m.buf.cursor), m),
        spares_upto(m, text, starts, n) && x.buf == overtyped_upto(m, text, starts, n).buf
            ==> restored_to(x, m.buf.cursor).buf == m.buf,
    decreases n,
{
    lemma_typed_on(m, text, starts, n);
    if n > 0 {
        let k = (n - 1) as nat;
        let before = overtyped_upto(m, text, starts, k);
        let typed = nth_grapheme(text, starts, k as int);
        assert(overtype_sound(before, typed));
        lemma_step_back(before, typed, x);
        lemma_restore_action(x);
        lemma_restored_to(
            m,
            text,
            starts,
            k,
            insert_acted(x, VimAction::RestoreReplacedCharacter).0,
        );
        if spares_upto(m, text, starts, n) {
            assert(spares_elements(before, typed));
            assert(spares_upto(m, text, starts, k));
        }
    }
}

/// What was typed without skipping an element leads back to where the typing started.
proof fn lemma_leads_back(m: AreaView, text: Seq<u8>, starts: Seq<usize>, n: nat)
    requires
        buffer_ok(m.buf),
        steps_before_cursor(m),
        sound_upto(m, text, starts, n),
        !skips_upto(m, text, starts, n),
    ensures
        ({
            let after = overtyped_upto(m, text, starts, n);
            retraced(after.buf.text, after.commands.steps, after.buf.cursor, m.buf.cursor) == Some(
                m.buf.cursor,
            )
        }),
    decreases n,
{
    if n > 0 {
        let k = (n - 1) as nat;
        let before = overtyped_upto(m, text, starts, k);
        let typed = nth_grapheme(text, starts, k as int);
        let after = overtyped_upto(m, text, starts, n);
        let start = before.buf.cursor;
        let end = overtype_end(before.buf.text, before.buf.elements, start, typed);
        assert(overtype_sound(before, typed));
        assert(!skips_element(before));
        lemma_typed_on(m, text, starts, k);
        lemma_overtyped(before, typed);
        lemma_leads_back(m, text, starts, k);
        lemma_splice_pos(before.buf.text, start, end, typed);
        assert(after.commands.steps.drop_last() =~= before.commands.steps);
        lemma_retraced_prefix(
            before.buf.text,
            after.buf.text,
            before.commands.steps,
            start,
            m.buf.cursor,
        );
    }
}

/// What was typed and skipped an element leads back to nowhere.
proof fn lemma_leads_nowhere(
    m: AreaView,
    text: Seq<u8>,
    starts: Seq<usize>,
    n: nat,
    t: Seq<u8>,
    p: int,
)
    requires
        buffer_ok(m.buf),
        sound_upto(m, text, starts, n),
        skips_upto(m, text, starts, n),
    ensures
        retraced(
            t,
            overtyped_upto(m, text, starts, n).commands.steps,
            p,
            m.buf.cursor,
        ) is None,
    decreases n,
{
    if n > 0 {
        let k = (n - 1) as nat;
        let before = overtyped_upto(m, text, starts, k);
        let typed = nth_grapheme(text, starts, k as int);
        let after = overtyped_upto(m, text, starts, n);
        assert(overtype_sound(before, typed));
        lemma_typed_on(m, text, starts, k);
        lemma_overtyped(before, typed);
        assert(after.commands.steps.drop_last() =~= before.commands.steps);
        if !skips_element(before) {
            let j = choose|j: nat|
                j < n && skips_element(#[trigger] overtyped_upto(m, text, starts, j));
            assert(j < k);
            assert(skips_upto(m, text, starts, k));
            lemma_leads_nowhere(m, text, starts, k, t, overtype_start(before));
        }
    }
}

/// A burst typed in Replace mode is taken back at once, and the overwritten text is back; but if
/// typing it skipped an element, taking it back is refused and nothing changes.
pub proof fn law_burst_is_retracted_or_refused(
    m: AreaView,
    text: Seq<u8>,
    starts: Seq<usize>,
    n: nat,
)
    requires
        buffer_ok(m.buf),
        m.enabled,
        m.mode == VimMode::Replace,
        steps_before_cursor(m),
        sound_upto(m, text, starts, n),
    ensures
        ({
            let after = overtyped_upto(m, text, starts, n);
            let (back, done) = burst_retracted(after, m.buf.cursor);
            if skips_upto(m, text, starts, n) {
                !done && back == after
            } else {
                &&& done
                &&& back.buf.text == m.buf.text
                &&& back.buf.cursor == m.buf.cursor
                &&& back.commands.steps == m.commands.steps
                &&& spares_upto(m, text, starts, n) ==> back.buf == m.buf
            }
        }),
{
    let after = overtyped_upto(m, text, starts, n);
    lemma_typed_on(m, text, starts, n);
    if skips_upto(m, text, starts, n) {
        lemma_leads_nowhere(m, text, starts, n, after.buf.text, after.buf.cursor);
    } else {
        lemma_leads_back(m, text, starts, n);
        lemma_recovers_itself(m, text, starts, n);
        lemma_restored_to(m, text, starts, n, after);
    }
}

/// Nothing is lost right after typing.
pub proof fn lemma_recovers_itself(m: AreaView, text: Seq<u8>, starts: Seq<usize>, n: nat)
    requires
        buffer_ok(m.buf),
        sound_upto(m, text, starts, n),
    ensures
        recovers(overtyped_upto(m, text, starts, n), overtyped_upto(m, text, starts, n)),
    decreases n,
{
    let after = overtyped_upto(m, text, starts, n);
    if n > 0 {
        let k = (n - 1) as nat;
        let before = overtyped_upto(m, text, starts, k);
        let typed = nth_grapheme(text, starts, k as int);
        let start = overtype_start(before);
        assert(overtype_sound(before, typed));
        lemma_overtyped(before, typed);
        lemma_edited_ok(
            Buffer { cursor: start, ..before.buf },
            start,
            overtype_end(before.buf.text, before.buf.elements, start, typed),
            typed,
        );
    }
    assert forall|i: int| 0 <= i < after.buf.elements.len() implies after.buf.elements.contains(
        #[trigger] after.buf.elements[i],
    ) by {}
}

} // verus!

//! What holds of the render model: chunking does not show, the front-most
//! opaque stroke wins, failures are genuine, and skipped strokes leave no
//! trace.
use vstd::prelude::*;
use crate::bitmap::blank;
use crate::raster::{blend_over, overlaid};
use crate::renderer::model::{
    chunk_count, chunk_of, ink, lemma_chunk_count_covers, lemma_chunk_starts_inside,
    lemma_merge_failure_surfaces, lemma_merged_len, lemma_painted_len, merged, painted, stamped,
    Stroke,
};
use crate::result::SARError;
use crate::sa::Color;

verus! {

/// A stroke is crisp on a canvas of `area` pixels when every pixel that it
/// paints receives a fully opaque or a fully transparent colour.
pub open spec fn crisp_stroke(stroke: Stroke, area: nat) -> bool {
    match stroke {
        Stroke::Paint { mask, tint } => crisp_ink(mask, tint, area),
        _ => true,
    }
}

/// Wherever the mask selects one of the first `area` pixels, the ink is fully
/// opaque or fully transparent.
pub open spec fn crisp_ink(mask: Seq<Color>, tint: Option<Color>, area: nat) -> bool {
    forall|i: int| 0 <= i < area && (#[trigger] mask[i]).a > 0 ==> ink(mask, tint, i).is_crisp()
}

/// Every stroke of the run is crisp.
pub open spec fn crisp(strokes: Seq<Stroke>, area: nat) -> bool {
    forall|j: int| 0 <= j < strokes.len() ==> crisp_stroke(#[trigger] strokes[j], area)
}

/// Laying a transparent canvas over another changes nothing.
pub proof fn lemma_overlay_blank(base: Seq<Color>)
    ensures
        overlaid(base, blank(base.len())) == base,
{
    assert(overlaid(base, blank(base.len())) =~= base);
}

/// Painting a run that is the concatenation of `front` and `back` is
/// painting `back` and then `front` on top of it.
pub proof fn lemma_painted_split(base: Seq<Color>, front: Seq<Stroke>, back: Seq<Stroke>)
    ensures
        painted(base, front + back) == (match painted(base, back) {
            Err(e) => Err::<Seq<Color>, SARError>(e),
            Ok(under) => painted(under, front),
        }),
    decreases front.len(),
{
    if front.len() == 0 {
        assert(front + back =~= back);
    } else {
        assert((front + back).drop_first() =~= front.drop_first() + back);
        assert((front + back)[0] == front[0]);
        lemma_painted_split(base, front.drop_first(), back);
    }
}

/// A crisp stroke laid on a canvas that was overlaid on `base` gives what
/// overlaying the stroked canvas on `base` gives.
pub proof fn lemma_stamp_commutes_with_overlay(
    base: Seq<Color>,
    top: Seq<Color>,
    mask: Seq<Color>,
    tint: Option<Color>,
)
    requires
        base.len() == top.len(),
        crisp_stroke(Stroke::Paint { mask, tint }, base.len()),
    ensures
        stamped(overlaid(base, top), mask, tint) == overlaid(base, stamped(top, mask, tint)),
{
    let left = stamped(overlaid(base, top), mask, tint);
    let right = overlaid(base, stamped(top, mask, tint));
    assert(left.len() == right.len());
    assert forall|i: int| 0 <= i < left.len() implies left[i] == right[i] by {
        assert(overlaid(base, top)[i] == blend_over(base[i], top[i]));
        assert(right[i] == blend_over(base[i], stamped(top, mask, tint)[i]));
        if mask[i].a > 0 {
            assert(ink(mask, tint, i).is_crisp());
        }
    }
    assert(left =~= right);
}

/// Painting a crisp run onto `base` gives what painting it onto a
/// transparent canvas and laying that canvas over `base` gives; a failure of
/// the run is the same failure on either canvas.
pub proof fn lemma_overlay_painted(base: Seq<Color>, strokes: Seq<Stroke>)
    requires
        crisp(strokes, base.len()),
    ensures
        painted(base, strokes) == (match painted(blank(base.len()), strokes) {
            Err(e) => Err::<Seq<Color>, SARError>(e),
            Ok(top) => Ok(overlaid(base, top)),
        }),
    decreases strokes.len(),
{
    let area = base.len();
    if strokes.len() == 0 {
        lemma_overlay_blank(base);
    } else {
        let rest = strokes.drop_first();
        assert forall|j: int| 0 <= j < rest.len() implies crisp_stroke(#[trigger] rest[j], area) by {
            assert(rest[j] == strokes[j + 1]);
        }
        lemma_overlay_painted(base, rest);
        lemma_painted_len(blank(area), rest);
        match painted(blank(area), rest) {
            Err(e) => {},
            Ok(top) => {
                assert(crisp_stroke(strokes[0], area));
                match strokes[0] {
                    Stroke::Paint { mask, tint } => {
                        lemma_stamp_commutes_with_overlay(base, top, mask, tint);
                    },
                    _ => {},
                }
            },
        }
    }
}

/// The offset at which chunk `k` starts, capped at the length of the list.
pub open spec fn chunk_start(len: nat, size: nat, k: nat) -> int {
    if k * size <= len {
        (k * size) as int
    } else {
        len as int
    }
}

/// Merging the chunks from index `from` on gives what painting the layers
/// of those chunks in one run gives, when every stroke is crisp.
pub proof fn lemma_merged_is_painted(area: nat, strokes: Seq<Stroke>, size: nat, from: nat)
    requires
        size >= 1,
        crisp(strokes, area),
    ensures
        merged(area, strokes, size, from) == painted(
            blank(area),
            strokes.subrange(chunk_start(strokes.len(), size, from), strokes.len() as int),
        ),
    decreases chunk_count(strokes.len(), size) - from,
{
    let len = strokes.len();
    let count = chunk_count(len, size);
    if from >= count {
        lemma_chunk_count_covers(len, size);
        assert(from * size >= count * size) by (nonlinear_arith)
            requires
                from >= count,
                size >= 1,
        ;
        assert(chunk_start(len, size, from) == len);
        assert(strokes.subrange(len as int, len as int) =~= Seq::<Stroke>::empty());
    } else {
        lemma_chunk_starts_inside(len, size, from);
        let start = (from * size) as int;
        assert((from + 1) * size == from * size + size) by (nonlinear_arith);
        let end = chunk_start(len, size, from + 1);
        let piece = chunk_of(strokes, size, from);
        let tail = strokes.subrange(end, len as int);
        assert(piece == strokes.subrange(start, end));
        assert(strokes.subrange(start, len as int) =~= piece + tail);
        lemma_merged_is_painted(area, strokes, size, from + 1);
        lemma_painted_split(blank(area), piece, tail);
        lemma_painted_len(blank(area), tail);
        match painted(blank(area), tail) {
            Err(e) => {},
            Ok(under) => {
                assert forall|j: int| 0 <= j < piece.len() implies crisp_stroke(
                    #[trigger] piece[j],
                    area,
                ) by {
                    assert(piece[j] == strokes[start + j]);
                }
                lemma_overlay_painted(under, piece);
            },
        }
    }
}

/// Chunk invariance: when every stroke is crisp, the merged working canvas is
/// the canvas painted in one run, whatever the chunk size.
pub proof fn lemma_chunking_does_not_show(area: nat, strokes: Seq<Stroke>, size: nat)
    requires
        size >= 1,
        crisp(strokes, area),
    ensures
        merged(area, strokes, size, 0) == painted(blank(area), strokes),
{
    lemma_merged_is_painted(area, strokes, size, 0);
    assert(0 * size == 0) by (nonlinear_arith);
    assert(strokes.subrange(0, strokes.len() as int) =~= strokes);
}

/// Chunk invariance between two chunk sizes.
pub proof fn lemma_chunk_size_does_not_show(area: nat, strokes: Seq<Stroke>, a: nat, b: nat)
    requires
        a >= 1,
        b >= 1,
        crisp(strokes, area),
    ensures
        merged(area, strokes, a, 0) == merged(area, strokes, b, 0),
{
    lemma_chunking_does_not_show(area, strokes, a);
    lemma_chunking_does_not_show(area, strokes, b);
}

/// A stroke leaves pixel `i` alone when it is skipped or its mask does not
/// select the pixel.
pub open spec fn leaves_alone(stroke: Stroke, i: int) -> bool {
    match stroke {
        Stroke::Skip => true,
        Stroke::Fail(_) => false,
        Stroke::Paint { mask, tint } => mask[i].a == 0,
    }
}

/// A stroke is sound when it does not fail.
pub open spec fn sound(stroke: Stroke) -> bool {
    !(stroke is Fail)
}

/// Chunk `k` of a list starts at `k * size` and holds the items up to the
/// start of the next chunk.
pub proof fn lemma_chunk_items<T>(items: Seq<T>, size: nat, k: nat)
    requires
        size >= 1,
        k < chunk_count(items.len(), size),
    ensures
        chunk_start(items.len(), size, k) == k * size,
        chunk_start(items.len(), size, k) < chunk_start(items.len(), size, k + 1) <= items.len(),
        chunk_start(items.len(), size, k + 1) <= k * size + size,
        chunk_of(items, size, k) == items.subrange(
            chunk_start(items.len(), size, k),
            chunk_start(items.len(), size, k + 1),
        ),
{
    lemma_chunk_starts_inside(items.len(), size, k);
    assert((k + 1) * size == k * size + size) by (nonlinear_arith);
}

/// The chunk that holds item `j` has an index below the chunk count.
pub proof fn lemma_chunk_holds(len: nat, size: nat, j: int) -> (k: nat)
    requires
        size >= 1,
        0 <= j < len,
    ensures
        k < chunk_count(len, size),
        k * size <= j < k * size + size,
{
    let d = size as int;
    let k = (j / d) as nat;
    vstd::arithmetic::div_mod::lemma_fundamental_div_mod(j, d);
    vstd::arithmetic::div_mod::lemma_mod_bound(j, d);
    vstd::arithmetic::div_mod::lemma_div_pos_is_pos(j, d);
    assert(k * size == d * (j / d)) by (nonlinear_arith)
        requires
            k == j / d,
            d == size,
    ;
    lemma_chunk_count_covers(len, size);
    let count = chunk_count(len, size);
    if k >= count {
        assert(k * size >= count * size) by (nonlinear_arith)
            requires
                k >= count,
                size >= 1,
        ;
    }
    k
}

/// A run whose strokes are all sound is painted without failure.
pub proof fn lemma_sound_run_succeeds(base: Seq<Color>, strokes: Seq<Stroke>)
    requires
        forall|j: int| 0 <= j < strokes.len() ==> sound(#[trigger] strokes[j]),
    ensures
        painted(base, strokes) is Ok,
    decreases strokes.len(),
{
    if strokes.len() > 0 {
        let rest = strokes.drop_first();
        assert forall|j: int| 0 <= j < rest.len() implies sound(#[trigger] rest[j]) by {
            assert(rest[j] == strokes[j + 1]);
        }
        lemma_sound_run_succeeds(base, rest);
        assert(sound(strokes[0]));
    }
}

/// The failure of a run is the failure of one of its strokes.
pub proof fn lemma_run_failure_is_genuine(base: Seq<Color>, strokes: Seq<Stroke>) -> (j: int)
    requires
        painted(base, strokes) is Err,
    ensures
        0 <= j < strokes.len(),
        strokes[j] == Stroke::Fail(painted(base, strokes)->Err_0),
    decreases strokes.len(),
{
    let rest = strokes.drop_first();
    if painted(base, rest) is Err {
        let k = lemma_run_failure_is_genuine(base, rest);
        assert(rest[k] == strokes[k + 1]);
        k + 1
    } else {
        0
    }
}

/// The last failing stroke of a run decides: when stroke `j` fails with `e`
/// and every stroke after it is sound, the run fails with `e`.
pub proof fn lemma_last_failure_of_run_wins(base: Seq<Color>, strokes: Seq<Stroke>, j: int, e: SARError)
    requires
        0 <= j < strokes.len(),
        strokes[j] == Stroke::Fail(e),
        forall|i: int| j < i < strokes.len() ==> sound(#[trigger] strokes[i]),
    ensures
        painted(base, strokes) == Err::<Seq<Color>, SARError>(e),
    decreases j,
{
    let rest = strokes.drop_first();
    if j == 0 {
        assert forall|i: int| 0 <= i < rest.len() implies sound(#[trigger] rest[i]) by {
            assert(rest[i] == strokes[i + 1]);
        }
        lemma_sound_run_succeeds(base, rest);
    } else {
        assert(rest[j - 1] == strokes[j]);
        assert forall|i: int| j - 1 < i < rest.len() implies sound(#[trigger] rest[i]) by {
            assert(rest[i] == strokes[i + 1]);
        }
        lemma_last_failure_of_run_wins(base, rest, j - 1, e);
    }
}

/// When every stroke from the start of chunk `from` on is sound, the chunks
/// from `from` on merge without failure.
pub proof fn lemma_sound_tail_merges(area: nat, strokes: Seq<Stroke>, size: nat, from: nat)
    requires
        size >= 1,
        forall|i: int|
            chunk_start(strokes.len(), size, from) <= i < strokes.len() ==> sound(
                #[trigger] strokes[i],
            ),
    ensures
        merged(area, strokes, size, from) is Ok,
    decreases chunk_count(strokes.len(), size) - from,
{
    if from < chunk_count(strokes.len(), size) {
        lemma_chunk_items(strokes, size, from);
        lemma_sound_tail_merges(area, strokes, size, from + 1);
        let piece = chunk_of(strokes, size, from);
        let start = chunk_start(strokes.len(), size, from);
        assert forall|i: int| 0 <= i < piece.len() implies sound(#[trigger] piece[i]) by {
            assert(piece[i] == strokes[start + i]);
        }
        lemma_sound_run_succeeds(blank(area), piece);
    }
}

/// A merge without failing strokes succeeds.
pub proof fn lemma_sound_strokes_merge(area: nat, strokes: Seq<Stroke>, size: nat)
    requires
        size >= 1,
        forall|i: int| 0 <= i < strokes.len() ==> sound(#[trigger] strokes[i]),
    ensures
        merged(area, strokes, size, 0) is Ok,
{
    lemma_sound_tail_merges(area, strokes, size, 0);
}

/// The failure of a merge is the failure of one of the strokes, never an
/// error made up on the way.
pub proof fn lemma_merge_failure_is_genuine(area: nat, strokes: Seq<Stroke>, size: nat, from: nat) -> (j:
    int)
    requires
        size >= 1,
        merged(area, strokes, size, from) is Err,
    ensures
        0 <= j < strokes.len(),
        strokes[j] == Stroke::Fail(merged(area, strokes, size, from)->Err_0),
    decreases chunk_count(strokes.len(), size) - from,
{
    assert(from < chunk_count(strokes.len(), size));
    if merged(area, strokes, size, from + 1) is Err {
        lemma_merge_failure_is_genuine(area, strokes, size, from + 1)
    } else {
        lemma_chunk_items(strokes, size, from);
        let piece = chunk_of(strokes, size, from);
        let k = lemma_run_failure_is_genuine(blank(area), piece);
        let start = chunk_start(strokes.len(), size, from);
        assert(piece[k] == strokes[start + k]);
        start + k
    }
}

/// The last failing stroke decides the merge, whatever the chunk size: when
/// stroke `j` fails with `e` and every stroke after it is sound, the merge
/// fails with `e`.
pub proof fn lemma_last_failure_wins(area: nat, strokes: Seq<Stroke>, size: nat, j: int, e: SARError)
    requires
        size >= 1,
        0 <= j < strokes.len(),
        strokes[j] == Stroke::Fail(e),
        forall|i: int| j < i < strokes.len() ==> sound(#[trigger] strokes[i]),
    ensures
        merged(area, strokes, size, 0) == Err::<Seq<Color>, SARError>(e),
{
    let k = lemma_chunk_holds(strokes.len(), size, j);
    lemma_chunk_items(strokes, size, k);
    let start = chunk_start(strokes.len(), size, k);
    let piece = chunk_of(strokes, size, k);
    assert(piece[j - start] == strokes[j]);
    assert forall|i: int| j - start < i < piece.len() implies sound(#[trigger] piece[i]) by {
        assert(piece[i] == strokes[start + i]);
    }
    lemma_last_failure_of_run_wins(blank(area), piece, j - start, e);
    lemma_sound_tail_merges(area, strokes, size, k + 1);
    assert(merged(area, strokes, size, k) == Err::<Seq<Color>, SARError>(e));
    lemma_merge_failure_surfaces(area, strokes, size, k);
}

/// A run of strokes with a failing stroke does not merge.
pub proof fn lemma_failing_stroke_fails_merge(area: nat, strokes: Seq<Stroke>, size: nat, j: int)
    requires
        size >= 1,
        0 <= j < strokes.len(),
        strokes[j] is Fail,
    ensures
        merged(area, strokes, size, 0) is Err,
    decreases strokes.len() - j,
{
    if exists|i: int| j < i < strokes.len() && !sound(#[trigger] strokes[i]) {
        let i = choose|i: int| j < i < strokes.len() && !sound(#[trigger] strokes[i]);
        lemma_failing_stroke_fails_merge(area, strokes, size, i);
    } else {
        lemma_last_failure_wins(area, strokes, size, j, strokes[j]->Fail_0);
    }
}

/// A skipped stroke leaves no trace: the run without it paints the same.
pub proof fn lemma_skip_leaves_no_trace(base: Seq<Color>, strokes: Seq<Stroke>, j: int)
    requires
        0 <= j < strokes.len(),
        strokes[j] is Skip,
    ensures
        painted(base, strokes) == painted(base, strokes.remove(j)),
    decreases j,
{
    let rest = strokes.drop_first();
    if j == 0 {
        assert(strokes.remove(0) =~= rest);
    } else {
        let shorter = strokes.remove(j);
        assert(shorter.drop_first() =~= rest.remove(j - 1));
        assert(shorter[0] == strokes[0]);
        assert(rest[j - 1] == strokes[j]);
        lemma_skip_leaves_no_trace(base, rest, j - 1);
    }
}

/// Strokes that leave pixel `i` alone leave it as it was on the base.
pub proof fn lemma_pixel_left_alone(base: Seq<Color>, strokes: Seq<Stroke>, i: int)
    requires
        0 <= i < base.len(),
        forall|j: int| 0 <= j < strokes.len() ==> leaves_alone(#[trigger] strokes[j], i),
    ensures
        painted(base, strokes) matches Ok(canvas) && canvas.len() == base.len() && canvas[i]
            == base[i],
    decreases strokes.len(),
{
    if strokes.len() > 0 {
        let rest = strokes.drop_first();
        assert forall|j: int| 0 <= j < rest.len() implies leaves_alone(#[trigger] rest[j], i) by {
            assert(rest[j] == strokes[j + 1]);
        }
        lemma_pixel_left_alone(base, rest, i);
        assert(leaves_alone(strokes[0], i));
    }
}

/// Within one run, the front-most stroke that paints pixel `i` opaquely
/// shows there: when stroke `j` lays an opaque ink on the pixel and every
/// stroke in front of it leaves the pixel alone, the pixel has that ink.
pub proof fn lemma_front_stroke_shows(base: Seq<Color>, strokes: Seq<Stroke>, j: int, i: int)
    requires
        0 <= j < strokes.len(),
        0 <= i < base.len(),
        painted(base, strokes) is Ok,
        strokes[j] is Paint,
        strokes[j]->mask[i].a > 0,
        ink(strokes[j]->mask, strokes[j]->tint, i).a == 255,
        forall|k: int| 0 <= k < j ==> leaves_alone(#[trigger] strokes[k], i),
    ensures
        painted(base, strokes)->Ok_0[i] == ink(strokes[j]->mask, strokes[j]->tint, i),
    decreases j,
{
    let rest = strokes.drop_first();
    lemma_painted_len(base, rest);
    if j > 0 {
        assert(rest[j - 1] == strokes[j]);
        assert forall|k: int| 0 <= k < j - 1 implies leaves_alone(#[trigger] rest[k], i) by {
            assert(rest[k] == strokes[k + 1]);
        }
        lemma_front_stroke_shows(base, rest, j - 1, i);
        assert(leaves_alone(strokes[0], i));
    }
}

/// In the merge of the chunks from `from` on, the front-most stroke that
/// paints pixel `i` opaquely shows there.
pub proof fn lemma_front_stroke_shows_from(
    area: nat,
    strokes: Seq<Stroke>,
    size: nat,
    j: int,
    i: int,
    k: nat,
    from: nat,
)
    requires
        size >= 1,
        0 <= j < strokes.len(),
        0 <= i < area,
        k < chunk_count(strokes.len(), size),
        k * size <= j < k * size + size,
        from <= k,
        merged(area, strokes, size, from) is Ok,
        strokes[j] is Paint,
        strokes[j]->mask[i].a > 0,
        ink(strokes[j]->mask, strokes[j]->tint, i).a == 255,
        forall|m: int| 0 <= m < j ==> leaves_alone(#[trigger] strokes[m], i),
    ensures
        merged(area, strokes, size, from)->Ok_0[i] == ink(strokes[j]->mask, strokes[j]->tint, i),
    decreases k - from,
{
    lemma_chunk_items(strokes, size, from);
    let start = chunk_start(strokes.len(), size, from);
    let piece = chunk_of(strokes, size, from);
    lemma_merged_len(area, strokes, size, from + 1);
    lemma_painted_len(blank(area), piece);
    let under = merged(area, strokes, size, from + 1)->Ok_0;
    let top = painted(blank(area), piece)->Ok_0;
    assert(merged(area, strokes, size, from)->Ok_0[i] == blend_over(under[i], top[i]));
    if from == k {
        assert(piece[j - start] == strokes[j]);
        assert forall|m: int| 0 <= m < j - start implies leaves_alone(#[trigger] piece[m], i) by {
            assert(piece[m] == strokes[start + m]);
        }
        lemma_front_stroke_shows(blank(area), piece, j - start, i);
    } else {
        assert((from + 1) * size <= k * size) by (nonlinear_arith)
            requires
                from + 1 <= k,
                size >= 1,
        ;
        assert((from + 1) * size == from * size + size) by (nonlinear_arith);
        assert forall|m: int| 0 <= m < piece.len() implies leaves_alone(#[trigger] piece[m], i) by {
            assert(piece[m] == strokes[start + m]);
        }
        lemma_pixel_left_alone(blank(area), piece, i);
        lemma_front_stroke_shows_from(area, strokes, size, j, i, k, from + 1);
    }
}

/// Order of painting: the first layer of the list is in front. When stroke
/// `j` lays an opaque ink on pixel `i` and every stroke before it in the list
/// leaves the pixel alone, the merged canvas has that ink at the pixel,
/// whatever the strokes after `j` paint there and whatever the chunk size.
pub proof fn lemma_front_opaque_wins(area: nat, strokes: Seq<Stroke>, size: nat, j: int, i: int)
    requires
        size >= 1,
        0 <= j < strokes.len(),
        0 <= i < area,
        merged(area, strokes, size, 0) is Ok,
        strokes[j] is Paint,
        strokes[j]->mask[i].a > 0,
        ink(strokes[j]->mask, strokes[j]->tint, i).a == 255,
        forall|m: int| 0 <= m < j ==> leaves_alone(#[trigger] strokes[m], i),
    ensures
        merged(area, strokes, size, 0)->Ok_0[i] == ink(strokes[j]->mask, strokes[j]->tint, i),
{
    let k = lemma_chunk_holds(strokes.len(), size, j);
    lemma_front_stroke_shows_from(area, strokes, size, j, i, k, 0);
}

} // verus!

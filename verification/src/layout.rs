//! Stacking the bands of the image.
//!
//! Each region is drawn as a horizontal band. The bands lie one below the
//! other in the order of the regions, the first at the top edge, each as
//! many pixel rows high as its region was given.

use vstd::prelude::*;

verus! {

/// The pixel rows from `top` up to, but not including, `bottom`.
#[derive(Debug, Clone, Copy, PartialEq, Eq, Structural)]
pub struct Band {
    pub top: i32,
    pub bottom: i32,
}

/// The sum of the heights.
pub open spec fn total_height(heights: Seq<u32>) -> int
    decreases heights.len(),
{
    if heights.len() == 0 {
        0
    } else {
        total_height(heights.drop_last()) + heights.last()
    }
}

/// The bands for the heights: band `i` begins where the `i` bands before
/// it end, and is `heights[i]` rows high.
pub open spec fn bands_of(heights: Seq<u32>) -> Seq<Band> {
    Seq::new(
        heights.len(),
        |i: int|
            Band {
                top: total_height(heights.take(i)) as i32,
                bottom: total_height(heights.take(i + 1)) as i32,
            },
    )
}

/// The sum of some leading heights is no more than the sum of them all,
/// and no less than 0.
pub proof fn lemma_total_height_prefix(heights: Seq<u32>, k: int)
    requires
        0 <= k <= heights.len(),
    ensures
        0 <= total_height(heights.take(k)) <= total_height(heights),
    decreases heights.len(),
{
    if k == heights.len() {
        assert(heights.take(k) =~= heights);
        if k > 0 {
            lemma_total_height_prefix(heights.drop_last(), k - 1);
            assert(heights.drop_last().take(k - 1) =~= heights.drop_last());
        }
    } else {
        lemma_total_height_prefix(heights.drop_last(), k);
        assert(heights.drop_last().take(k) =~= heights.take(k));
    }
}

/// One more height adds itself to the sum.
pub proof fn lemma_total_height_step(heights: Seq<u32>, k: int)
    requires
        0 <= k < heights.len(),
    ensures
        total_height(heights.take(k + 1)) == total_height(heights.take(k)) + heights[k],
{
    assert(heights.take(k + 1).drop_last() =~= heights.take(k));
}

/// Where the heights sum to no more than `i32::MAX`, the bands stack
/// without a break and without overlap: the first begins at row 0, each
/// begins where the one before it ends, none ends before it begins, each
/// has the height of its region, and the last ends at the sum of the
/// heights.
pub proof fn lemma_bands_stack(heights: Seq<u32>)
    requires
        total_height(heights) <= i32::MAX,
    ensures
        bands_of(heights).len() == heights.len(),
        heights.len() > 0 ==> bands_of(heights)[0].top == 0,
        heights.len() > 0 ==> bands_of(heights).last().bottom == total_height(heights),
        forall|i: int|
            0 <= i < heights.len() ==> (#[trigger] bands_of(heights)[i]).bottom - bands_of(
                heights,
            )[i].top == heights[i],
        forall|i: int|
            0 <= i < heights.len() - 1 ==> (#[trigger] bands_of(heights)[i]).bottom == bands_of(
                heights,
            )[i + 1].top,
        forall|i: int, j: int|
            0 <= i < j < heights.len() ==> (#[trigger] bands_of(heights)[i]).bottom <= (
            #[trigger] bands_of(heights)[j]).top,
{
    let bands = bands_of(heights);
    assert(heights.take(0) =~= Seq::empty());
    assert(heights.take(heights.len() as int) =~= heights);
    assert forall|i: int| 0 <= i < heights.len() implies (#[trigger] bands[i]).bottom
        - bands[i].top == heights[i] by {
        lemma_total_height_prefix(heights, i);
        lemma_total_height_prefix(heights, i + 1);
        lemma_total_height_step(heights, i);
    }
    assert forall|i: int, j: int| 0 <= i < j < heights.len() implies (#[trigger] bands[i]).bottom
        <= (#[trigger] bands[j]).top by {
        lemma_total_height_prefix(heights, i + 1);
        lemma_total_height_prefix(heights, j);
        lemma_total_height_prefix(heights.take(j), i + 1);
        assert(heights.take(j).take(i + 1) =~= heights.take(i + 1));
    }
    assert forall|i: int| 0 <= i < heights.len() - 1 implies (#[trigger] bands[i]).bottom
        == bands[i + 1].top by {
        lemma_total_height_prefix(heights, i + 1);
    }
    if heights.len() > 0 {
        lemma_total_height_prefix(heights, heights.len() as int);
        assert(bands.last().bottom == total_height(heights));
    }
}

/// Stacks bands of the given heights from row 0 downwards.
///
/// Returns no bands where the heights sum to more than `i32::MAX`, the
/// largest row number.
pub fn assign_bands(heights: &Vec<u32>) -> (bands: Option<Vec<Band>>)
    ensures
        bands is Some <==> total_height(heights@) <= i32::MAX,
        bands matches Some(b) ==> b@ == bands_of(heights@),
{
    let mut bands: Vec<Band> = Vec::new();
    let mut top: i32 = 0;
    for i in 0..heights.len()
        invariant
            0 <= top == total_height(heights@.take(i as int)),
            bands@ == bands_of(heights@).take(i as int),
    {
        proof {
            lemma_total_height_step(heights@, i as int);
            lemma_total_height_prefix(heights@, i + 1);
        }
        let height = heights[i];
        if height > (i32::MAX - top) as u32 {
            return None;
        }
        let bottom: i32 = top + height as i32;
        bands.push(Band { top, bottom });
        assert(bands@ =~= bands_of(heights@).take(i + 1));
        top = bottom;
    }
    proof {
        assert(heights@.take(heights.len() as int) =~= heights@);
        assert(bands_of(heights@).take(heights.len() as int) =~= bands_of(heights@));
    }
    Some(bands)
}

} // verus!

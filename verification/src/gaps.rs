//! Making the unmapped space between regions explicit.

use vstd::prelude::*;
use crate::region::{gap_model, region_models, MemoryRegion, RegionModel};

verus! {

/// The regions of `s` with a gap region put before each one that starts
/// beyond the point that the regions before it reach. `cursor` is that
/// point for the first region: where the last region before `s` ended.
///
/// A region that starts at or before the cursor gets no gap, whether it
/// touches what came before or overlaps it. Nothing follows the last
/// region.
pub open spec fn with_gaps(s: Seq<RegionModel>, cursor: nat) -> Seq<RegionModel>
    decreases s.len(),
{
    if s.len() == 0 {
        Seq::empty()
    } else {
        let first = s.first();
        let rest = with_gaps(s.drop_first(), first.end);
        if first.start > cursor {
            seq![gap_model(cursor, first.start), first] + rest
        } else {
            seq![first] + rest
        }
    }
}

/// Each region begins where the one before it ends.
pub open spec fn contiguous(s: Seq<RegionModel>) -> bool {
    forall|i: int| 0 <= i < s.len() - 1 ==> (#[trigger] s[i]).end == s[i + 1].start
}

/// No region begins before the one before it has ended.
pub open spec fn disjoint_in_order(s: Seq<RegionModel>) -> bool {
    forall|i: int| 0 <= i < s.len() - 1 ==> (#[trigger] s[i]).end <= s[i + 1].start
}

/// Every region is well-formed.
pub open spec fn all_well_formed(s: Seq<RegionModel>) -> bool {
    forall|i: int| 0 <= i < s.len() ==> (#[trigger] s[i]).well_formed()
}

/// The test "is mapped".
pub open spec fn is_allocated() -> spec_fn(RegionModel) -> bool {
    |r: RegionModel| r.attributes.allocated
}

/// Where no region starts beyond the end of the one before it, nor the
/// first beyond the cursor, no gap is put in.
pub proof fn lemma_no_gap_where_none_is_open(s: Seq<RegionModel>, cursor: nat)
    requires
        s.len() > 0 ==> s[0].start <= cursor,
        forall|i: int| 0 <= i < s.len() - 1 ==> s[i + 1].start <= (#[trigger] s[i]).end,
    ensures
        with_gaps(s, cursor) == s,
    decreases s.len(),
{
    if s.len() > 0 {
        let rest = s.drop_first();
        assert forall|i: int| 0 <= i < rest.len() - 1 implies rest[i + 1].start <= (
        #[trigger] rest[i]).end by {
            assert(rest[i] == s[i + 1]);
        }
        if rest.len() > 0 {
            assert(rest[0] == s[1]);
            assert(s[1].start <= s[0].end);
        }
        lemma_no_gap_where_none_is_open(rest, s[0].end);
        assert(seq![s[0]] + rest =~= s);
    } else {
        assert(s =~= Seq::empty());
    }
}

/// Regions that already cover the address space from 0 without a break
/// come back unchanged.
pub proof fn lemma_contiguous_input_unchanged(s: Seq<RegionModel>)
    requires
        s.len() > 0 ==> s[0].start == 0,
        contiguous(s),
    ensures
        with_gaps(s, 0) == s,
{
    lemma_no_gap_where_none_is_open(s, 0);
}

/// The shape of the result for well-formed regions that come in address
/// order without overlap, the first not before the cursor: it begins at
/// the cursor, each region in it begins where the one before ends, none is
/// empty, and it ends where the last region of `s` ends. Each of its
/// regions is a region of `s` or a gap, and its mapped regions are those
/// of `s`.
pub proof fn lemma_with_gaps_from(s: Seq<RegionModel>, cursor: nat)
    requires
        all_well_formed(s),
        disjoint_in_order(s),
        s.len() > 0 ==> cursor <= s[0].start,
    ensures
        s.len() <= with_gaps(s, cursor).len() <= 2 * s.len(),
        s.len() > 0 ==> with_gaps(s, cursor)[0].start == cursor,
        s.len() > 0 ==> with_gaps(s, cursor).last().end == s.last().end,
        contiguous(with_gaps(s, cursor)),
        all_well_formed(with_gaps(s, cursor)),
        forall|i: int|
            0 <= i < with_gaps(s, cursor).len() ==> {
                let r = #[trigger] with_gaps(s, cursor)[i];
                s.contains(r) || (r.is_gap() && r == gap_model(r.start, r.end))
            },
        (forall|i: int| 0 <= i < s.len() ==> (#[trigger] s[i]).attributes.allocated)
            ==> with_gaps(s, cursor).filter(is_allocated()) == s,
    decreases s.len(),
{
    let out = with_gaps(s, cursor);
    if s.len() == 0 {
        assert(s =~= Seq::empty());
        assert(out.filter(is_allocated()) =~= Seq::empty()) by {
            out.lemma_filter_len(is_allocated());
        }
    } else {
        let first = s.first();
        let tail = s.drop_first();
        let rest = with_gaps(tail, first.end);
        assert forall|i: int| 0 <= i < tail.len() implies (#[trigger] tail[i]).well_formed() by {
            assert(tail[i] == s[i + 1]);
        }
        assert forall|i: int| 0 <= i < tail.len() - 1 implies (#[trigger] tail[i]).end <= tail[i
            + 1].start by {
            assert(tail[i] == s[i + 1]);
        }
        if tail.len() > 0 {
            assert(tail[0] == s[1]);
            assert(s[0].end <= s[1].start);
            assert(tail.last() == s.last());
        }
        lemma_with_gaps_from(tail, first.end);
        let head = if first.start > cursor {
            seq![gap_model(cursor, first.start), first]
        } else {
            seq![first]
        };
        assert(out == head + rest);
        assert(head.last() == first);
        assert(s[0].well_formed());
        assert forall|i: int| 0 <= i < out.len() - 1 implies (#[trigger] out[i]).end == out[i
            + 1].start by {
            if i >= head.len() {
                assert(out[i] == rest[i - head.len()]);
                assert(out[i + 1] == rest[i + 1 - head.len()]);
            } else if i == head.len() - 1 {
                assert(out[i + 1] == rest[0]);
            }
        }
        assert forall|i: int| 0 <= i < out.len() implies (#[trigger] out[i]).well_formed() by {
            if i >= head.len() {
                assert(out[i] == rest[i - head.len()]);
            }
        }
        assert forall|i: int| 0 <= i < out.len() implies {
            let r = #[trigger] out[i];
            s.contains(r) || (r.is_gap() && r == gap_model(r.start, r.end))
        } by {
            let r = out[i];
            if i >= head.len() {
                assert(r == rest[i - head.len()]);
                if tail.contains(r) {
                    let k = choose|k: int| 0 <= k < tail.len() && tail[k] == r;
                    assert(s[k + 1] == r);
                }
            } else if r == first {
                assert(s[0] == r);
            }
        }
        if rest.len() > 0 {
            assert(out.last() == rest.last());
        }
        if forall|i: int| 0 <= i < s.len() ==> (#[trigger] s[i]).attributes.allocated {
            assert forall|i: int| 0 <= i < tail.len() implies (#[trigger] tail[i])
                .attributes.allocated by {
                assert(tail[i] == s[i + 1]);
            }
            let test = is_allocated();
            Seq::filter_distributes_over_add(head, rest, test);
            assert(s[0].attributes.allocated);
            assert(head.filter(test) =~= seq![first]) by {
                reveal_with_fuel(Seq::filter, 3);
                if first.start > cursor {
                    assert(head.drop_last() =~= seq![gap_model(cursor, first.start)]);
                    assert(head.drop_last().drop_last() =~= Seq::empty());
                } else {
                    assert(head.drop_last() =~= Seq::empty());
                }
            }
            assert(seq![first] + tail =~= s);
        }
    }
}

/// For well-formed regions in address order that do not overlap, the
/// result covers the address space from 0 to the end of the last region
/// without a break: it begins at 0, each region begins where the one before
/// ends, so the start addresses rise strictly, and no region is empty. Every
/// region in it is one of the input or a gap with no permission and no
/// file, and the mapped regions in it are the input.
pub proof fn lemma_with_gaps_covers(s: Seq<RegionModel>)
    requires
        all_well_formed(s),
        disjoint_in_order(s),
    ensures
        s.len() > 0 ==> with_gaps(s, 0).len() > 0 && with_gaps(s, 0)[0].start == 0
            && with_gaps(s, 0).last().end == s.last().end,
        contiguous(with_gaps(s, 0)),
        all_well_formed(with_gaps(s, 0)),
        forall|i: int, j: int|
            0 <= i < j < with_gaps(s, 0).len() ==> with_gaps(s, 0)[i].start < with_gaps(
                s,
                0,
            )[j].start,
        forall|i: int|
            0 <= i < with_gaps(s, 0).len() ==> {
                let r = #[trigger] with_gaps(s, 0)[i];
                s.contains(r) || (r.is_gap() && r == gap_model(r.start, r.end))
            },
        (forall|i: int| 0 <= i < s.len() ==> (#[trigger] s[i]).attributes.allocated)
            ==> with_gaps(s, 0).filter(is_allocated()) == s,
{
    lemma_with_gaps_from(s, 0);
    let out = with_gaps(s, 0);
    assert forall|i: int, j: int| 0 <= i < j < out.len() implies out[i].start
        < out[j].start by {
        lemma_starts_rise(out, i, j);
    }
}

/// In a sequence of well-formed regions of which each begins where the one
/// before ends, a later region starts at a higher address.
pub proof fn lemma_starts_rise(s: Seq<RegionModel>, i: int, j: int)
    requires
        all_well_formed(s),
        contiguous(s),
        0 <= i < j < s.len(),
    ensures
        s[i].start < s[j].start,
        s[i].end <= s[j].start,
    decreases j - i,
{
    assert(s[j - 1].well_formed());
    assert(s[j - 1].end == s[j].start);
    if i < j - 1 {
        lemma_starts_rise(s, i, j - 1);
    }
}

/// Puts a gap region wherever the address space, from 0 on, is not covered
/// by the regions that come before the last one's end.
///
/// The regions are taken in the order given, which is meant to be address
/// order. Before each region that starts beyond the end of the one before
/// it (beyond 0, for the first) comes a gap region that covers the space
/// between; the regions themselves come back unchanged. A region that
/// overlaps the one before it is let through without a gap. Nothing is
/// added behind the last region, and no regions give none.
pub fn insert_gap_memory_regions(memory_regions: &Vec<MemoryRegion>) -> (filled: Vec<
    MemoryRegion,
>)
    ensures
        region_models(filled@) == with_gaps(region_models(memory_regions@), 0),
{
    let ghost input = region_models(memory_regions@);
    let mut filled: Vec<MemoryRegion> = Vec::new();
    let mut prev_end: u64 = 0;
    assert(input.skip(0) =~= input);
    assert(region_models(filled@) + with_gaps(input, 0) =~= with_gaps(input, 0));
    for i in 0..memory_regions.len()
        invariant
            input == region_models(memory_regions@),
            region_models(filled@) + with_gaps(input.skip(i as int), prev_end as nat)
                == with_gaps(input, 0),
    {
        let region = &memory_regions[i];
        let ghost before = region_models(filled@);
        let ghost rest = with_gaps(input.skip(i + 1), region.end as nat);
        proof {
            assert(input.skip(i as int).first() == region@);
            assert(input.skip(i as int).drop_first() =~= input.skip(i + 1));
        }
        if region.start > prev_end {
            let gap = MemoryRegion::gap(prev_end, region.start);
            assert(region_models(filled@.push(gap)) =~= before.push(gap@));
            filled.push(gap);
        }
        let ghost middle = region_models(filled@);
        let copy = region.clone();
        assert(region_models(filled@.push(copy)) =~= middle.push(copy@));
        filled.push(copy);
        proof {
            if region.start > prev_end {
                assert(region_models(filled@) + rest =~= before + (seq![
                    gap_model(prev_end as nat, region.start as nat),
                    region@,
                ] + rest));
            } else {
                assert(region_models(filled@) + rest =~= before + (seq![region@] + rest));
            }
        }
        prev_end = region.end;
    }
    proof {
        assert(input.skip(memory_regions.len() as int) =~= Seq::empty());
        assert(region_models(filled@) + Seq::<RegionModel>::empty() =~= region_models(filled@));
    }
    filled
}

} // verus!

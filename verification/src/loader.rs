//! From the lines of a listing to regions in address order.

use vstd::prelude::*;
use vstd::seq_lib::{to_multiset_build, to_multiset_insert};
use crate::parser::{lemma_parsed_region, parse_line};
use crate::region::{region_models, MemoryRegion, RegionModel};

verus! {

/// The region that a line describes, if it describes one.
pub open spec fn line_region(line: Seq<char>) -> Option<RegionModel> {
    match parse_line(line) {
        Ok(region) => Some(region),
        Err(_) => None,
    }
}

/// The regions of the lines that describe one, in the order of the lines.
pub open spec fn parsed_regions(lines: Seq<Seq<char>>) -> Seq<RegionModel> {
    lines.filter_map(|line: Seq<char>| line_region(line))
}

/// The text of each line.
pub open spec fn lines_text(lines: Seq<String>) -> Seq<Seq<char>> {
    lines.map_values(|line: String| line@)
}

/// No region starts before one that stands earlier.
pub open spec fn sorted_by_start(s: Seq<RegionModel>) -> bool {
    forall|i: int, j: int| 0 <= i <= j < s.len() ==> s[i].start <= s[j].start
}

/// The test "starts at `start`".
pub open spec fn starts_at(start: nat) -> spec_fn(RegionModel) -> bool {
    |r: RegionModel| r.start == start
}

/// Where a region that starts at `start` goes into `s`: just behind the
/// last region that starts no later.
pub open spec fn insertion_point(s: Seq<RegionModel>, start: nat) -> int
    decreases s.len(),
{
    if s.len() > 0 && s.last().start > start {
        insertion_point(s.drop_last(), start)
    } else {
        s.len() as int
    }
}

/// `s` with `r` put in at its insertion point.
pub open spec fn insert_by_start(s: Seq<RegionModel>, r: RegionModel) -> Seq<RegionModel> {
    s.insert(insertion_point(s, r.start), r)
}

/// `s` in the order of the start addresses, regions with the same start in
/// the order in which they stand in `s`.
pub open spec fn sort_by_start(s: Seq<RegionModel>) -> Seq<RegionModel>
    decreases s.len(),
{
    if s.len() == 0 {
        Seq::empty()
    } else {
        insert_by_start(sort_by_start(s.drop_last()), s.last())
    }
}

/// Everything from the insertion point on starts later than `start`, and
/// the region just before it does not.
pub proof fn lemma_insertion_point(s: Seq<RegionModel>, start: nat)
    ensures
        0 <= insertion_point(s, start) <= s.len(),
        forall|i: int| insertion_point(s, start) <= i < s.len() ==> s[i].start > start,
        insertion_point(s, start) > 0 ==> s[insertion_point(s, start) - 1].start <= start,
    decreases s.len(),
{
    if s.len() > 0 && s.last().start > start {
        let front = s.drop_last();
        lemma_insertion_point(front, start);
        assert forall|i: int| insertion_point(s, start) <= i < s.len() implies s[i].start
            > start by {
            if i < front.len() {
                assert(s[i] == front[i]);
            }
        }
    }
}

/// Putting a region in at its insertion point keeps the order, adds that
/// region and nothing else, and puts it behind the regions with the same
/// start.
pub proof fn lemma_insert_by_start(s: Seq<RegionModel>, r: RegionModel)
    ensures
        insert_by_start(s, r).len() == s.len() + 1,
        insert_by_start(s, r).to_multiset() == s.to_multiset().insert(r),
        sorted_by_start(s) ==> sorted_by_start(insert_by_start(s, r)),
        forall|start: nat|
            #[trigger] insert_by_start(s, r).filter(starts_at(start)) == if r.start == start {
                s.filter(starts_at(start)).push(r)
            } else {
                s.filter(starts_at(start))
            },
{
    let at = insertion_point(s, r.start);
    let out = insert_by_start(s, r);
    lemma_insertion_point(s, r.start);
    to_multiset_insert(s, at, r);
    let head = s.subrange(0, at);
    let tail = s.subrange(at, s.len() as int);
    assert(s =~= head + tail);
    assert(out =~= head.push(r) + tail);
    assert forall|start: nat|
        #[trigger] out.filter(starts_at(start)) == if r.start == start {
            s.filter(starts_at(start)).push(r)
        } else {
            s.filter(starts_at(start))
        } by {
        let test = starts_at(start);
        Seq::filter_distributes_over_add(head, tail, test);
        Seq::filter_distributes_over_add(head.push(r), tail, test);
        head.lemma_filter_push(r, test);
        if r.start == start {
            assert(tail.all(|x: RegionModel| !test(x)));
            tail.lemma_all_neg_filter_empty(test);
            assert(tail.filter(test) =~= Seq::empty());
            assert(out.filter(test) =~= s.filter(test).push(r));
        }
    }
    if sorted_by_start(s) {
        assert forall|i: int, j: int| 0 <= i <= j < out.len() implies out[i].start
            <= out[j].start by {
            if at > 0 {
                assert(s[at - 1].start <= r.start);
            }
            if i < at && j > at {
                assert(out[i] == s[i]);
                assert(out[j] == s[j - 1]);
            }
        }
    }
}

/// A sorted sequence is in address order and holds the same regions as the
/// one it was made from; the regions that start at any one address stand in
/// it as they stood there. So sorting is stable.
pub proof fn lemma_sort_by_start(s: Seq<RegionModel>)
    ensures
        sorted_by_start(sort_by_start(s)),
        sort_by_start(s).len() == s.len(),
        sort_by_start(s).to_multiset() == s.to_multiset(),
        forall|start: nat|
            #[trigger] sort_by_start(s).filter(starts_at(start)) == s.filter(starts_at(start)),
    decreases s.len(),
{
    if s.len() == 0 {
        assert(s =~= Seq::empty());
    } else {
        let front = s.drop_last();
        let sorted_front = sort_by_start(front);
        lemma_sort_by_start(front);
        lemma_insert_by_start(sorted_front, s.last());
        assert(s =~= front.push(s.last()));
        to_multiset_build(front, s.last());
        assert forall|start: nat|
            #[trigger] sort_by_start(s).filter(starts_at(start)) == s.filter(
                starts_at(start),
            ) by {
            front.lemma_filter_push(s.last(), starts_at(start));
            assert(sorted_front.filter(starts_at(start)) == front.filter(starts_at(start)));
            assert(insert_by_start(sorted_front, s.last()).filter(starts_at(start))
                == if s.last().start == start {
                sorted_front.filter(starts_at(start)).push(s.last())
            } else {
                sorted_front.filter(starts_at(start))
            });
        }
    }
}

/// Sorting leaves a sequence that is in address order as it is.
pub proof fn lemma_sort_by_start_of_sorted(s: Seq<RegionModel>)
    requires
        sorted_by_start(s),
    ensures
        sort_by_start(s) == s,
    decreases s.len(),
{
    if s.len() == 0 {
        assert(s =~= Seq::empty());
    } else {
        let front = s.drop_last();
        lemma_sort_by_start_of_sorted(front);
        assert(insertion_point(front, s.last().start) == front.len()) by {
            if front.len() > 0 {
                assert(front.last() == s[s.len() - 2]);
            }
        }
        assert(front.insert(front.len() as int, s.last()) =~= s);
    }
}

/// Puts `region` into `regions` at its insertion point.
fn insert_region(regions: &mut Vec<MemoryRegion>, region: MemoryRegion)
    ensures
        region_models(final(regions)@) == insert_by_start(region_models(old(regions)@), region@),
{
    let ghost before = region_models(regions@);
    let mut at: usize = regions.len();
    assert(before.take(at as int) =~= before);
    while at > 0 && regions[at - 1].start > region.start
        invariant
            at <= regions.len(),
            before == region_models(regions@),
            insertion_point(before.take(at as int), region@.start) == insertion_point(
                before,
                region@.start,
            ),
        decreases at,
    {
        proof {
            assert(before.take(at as int).last() == regions@[at - 1]@);
            assert(before.take(at as int).drop_last() =~= before.take(at - 1));
        }
        at -= 1;
    }
    proof {
        assert(before.take(regions.len() as int) =~= before);
        if at > 0 {
            assert(before.take(at as int).last() == regions@[at - 1]@);
        }
        assert(insertion_point(before, region@.start) == at);
        assert(region_models(regions@.insert(at as int, region)) =~= before.insert(
            at as int,
            region@,
        ));
    }
    regions.insert(at, region);
}

/// Reads the regions of a listing.
///
/// Each line that describes a region gives one; the others are passed
/// over. The regions come back in the order of their start addresses, and
/// those that start at the same address in the order of their lines.
pub fn read_memory_regions(lines: &Vec<String>) -> (regions: Vec<MemoryRegion>)
    ensures
        region_models(regions@) == sort_by_start(parsed_regions(lines_text(lines@))),
        sorted_by_start(region_models(regions@)),
        forall|i: int|
            0 <= i < regions.len() ==> (#[trigger] regions[i])@.well_formed()
                && regions[i].attributes.allocated,
{
    let ghost text = lines_text(lines@);
    let ghost read = |line: Seq<char>| line_region(line);
    let mut regions: Vec<MemoryRegion> = Vec::new();
    assert(text.take(0).filter_map(read) =~= Seq::empty());
    for i in 0..lines.len()
        invariant
            text == lines_text(lines@),
            read == |line: Seq<char>| line_region(line),
            region_models(regions@) == sort_by_start(text.take(i as int).filter_map(read)),
            forall|k: int|
                0 <= k < regions.len() ==> (#[trigger] regions[k])@.well_formed()
                    && regions[k].attributes.allocated,
    {
        let ghost seen = text.take(i as int).filter_map(read);
        proof {
            text.lemma_filter_map_take_succ(read, i as int);
            lemma_parsed_region(text[i as int]);
        }
        match MemoryRegion::from_str(lines[i].as_str()) {
            Ok(region) => {
                proof {
                    assert(line_region(text[i as int]) == Some(region@));
                    let now = text.take(i + 1).filter_map(read);
                    assert(now =~= seen.push(region@));
                    assert(now.drop_last() =~= seen);
                    lemma_insert_by_start(region_models(regions@), region@);
                }
                let ghost before = regions@;
                insert_region(&mut regions, region);
                proof {
                    let at = insertion_point(region_models(before), region@.start);
                    lemma_insertion_point(region_models(before), region@.start);
                    assert(region_models(regions@) == region_models(before).insert(at, region@));
                    assert forall|k: int| 0 <= k < regions.len() implies (#[trigger] regions[k])@
                        .well_formed() && regions[k].attributes.allocated by {
                        let m = region_models(regions@)[k];
                        assert(m == regions[k]@);
                        if k < at {
                            assert(m == before[k]@);
                        } else if k > at {
                            assert(m == before[k - 1]@);
                        }
                    }
                }
            },
            Err(_) => {
                assert(text.take(i + 1).filter_map(read) =~= seen);
            },
        }
    }
    proof {
        assert(text.take(lines.len() as int) =~= text);
        lemma_sort_by_start(parsed_regions(text));
    }
    regions
}

} // verus!

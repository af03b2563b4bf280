//! The report of a run: one named section per finding, and what the
//! stream was.

use vstd::prelude::*;
use crate::analysers::Section;
use crate::analysers::SectionKind;
use crate::analysers::spec_kind;
use crate::cli::Cli;
use crate::cli::StreamInfo;

verus! {

/// The report as it is written.
#[derive(Debug)]
pub struct JsonOutput {
    /// The sections, no two of one kind.
    pub analysis: Vec<Section>,
    /// Samples per frame.
    pub num_channels: u16,
    /// Frames of the stream.
    pub num_samples: usize,
    /// Frames per second.
    pub sample_rate: i32,
}

/// The index of the first section of the kind `kind`, or the length of the
/// list if it holds none.
pub open spec fn first_of(analysis: Seq<Section>, kind: SectionKind) -> int
    decreases analysis.len(),
{
    if analysis.len() == 0 {
        0
    } else if spec_kind(analysis[0]) == kind {
        0
    } else {
        1 + first_of(analysis.skip(1), kind)
    }
}

/// The report with `section` merged in by its key: it takes the place of
/// the section of its kind, or comes last where there is none.
pub open spec fn merged(analysis: Seq<Section>, section: Section) -> Seq<Section> {
    let at = first_of(analysis, spec_kind(section));
    if at < analysis.len() {
        analysis.update(at, section)
    } else {
        analysis.push(section)
    }
}

/// The report with the sections of a list merged in, first to last.
pub open spec fn merged_list(analysis: Seq<Section>, sections: Seq<Section>) -> Seq<Section>
    decreases sections.len(),
{
    if sections.len() == 0 {
        analysis
    } else {
        merged(merged_list(analysis, sections.drop_last()), sections.last())
    }
}

/// The report with the sections of the first `upto` lists merged in.
pub open spec fn merged_all(lists: Seq<Seq<Section>>, upto: int) -> Seq<Section>
    decreases upto,
{
    if upto <= 0 {
        Seq::empty()
    } else {
        merged_list(merged_all(lists, upto - 1), lists[upto - 1])
    }
}

/// No two sections are of one kind.
pub open spec fn distinct_kinds(analysis: Seq<Section>) -> bool {
    forall|i: int, j: int|
        0 <= i < j < analysis.len() ==> spec_kind(#[trigger] analysis[i]) != spec_kind(
            #[trigger] analysis[j],
        )
}

/// The lists of sections as sequences.
pub open spec fn lists_view(lists: &Vec<Vec<Section>>) -> Seq<Seq<Section>> {
    Seq::new(lists@.len(), |i: int| lists@[i]@)
}

/// `first_of` finds the first section of a kind: none before it is of the
/// kind, and it is, unless the list holds none.
pub proof fn lemma_first_of(analysis: Seq<Section>, kind: SectionKind)
    ensures
        0 <= first_of(analysis, kind) <= analysis.len(),
        forall|k: int|
            0 <= k < first_of(analysis, kind) ==> spec_kind(#[trigger] analysis[k]) != kind,
        first_of(analysis, kind) < analysis.len() ==> spec_kind(
            analysis[first_of(analysis, kind)],
        ) == kind,
    decreases analysis.len(),
{
    if analysis.len() > 0 && spec_kind(analysis[0]) != kind {
        let rest = analysis.skip(1);
        lemma_first_of(rest, kind);
        assert forall|k: int| 0 <= k < first_of(analysis, kind) implies spec_kind(
            #[trigger] analysis[k],
        ) != kind by {
            if k > 0 {
                assert(rest[k - 1] == analysis[k]);
            }
        }
        if first_of(analysis, kind) < analysis.len() {
            assert(rest[first_of(rest, kind)] == analysis[first_of(analysis, kind)]);
        }
    }
}

/// Merging keeps the kinds apart, and the merged section is in the report.
pub proof fn lemma_merged_distinct(analysis: Seq<Section>, section: Section)
    requires
        distinct_kinds(analysis),
    ensures
        distinct_kinds(merged(analysis, section)),
        merged(analysis, section).len() >= 1,
        exists|i: int|
            0 <= i < merged(analysis, section).len() && #[trigger] merged(analysis, section)[i]
                == section,
{
    let kind = spec_kind(section);
    let at = first_of(analysis, kind);
    lemma_first_of(analysis, kind);
    let after = merged(analysis, section);
    assert(after[at] == section);
    assert forall|i: int, j: int| 0 <= i < j < after.len() implies spec_kind(
        #[trigger] after[i],
    ) != spec_kind(#[trigger] after[j]) by {
        if at < analysis.len() {
            assert(spec_kind(analysis[at]) == kind);
            if i != at && j != at {
                assert(after[i] == analysis[i] && after[j] == analysis[j]);
            } else if i == at {
                assert(after[j] == analysis[j]);
            } else {
                assert(after[i] == analysis[i]);
            }
        } else {
            if j < analysis.len() {
                assert(after[i] == analysis[i] && after[j] == analysis[j]);
            } else {
                assert(after[i] == analysis[i]);
            }
        }
    }
}

/// Whatever is merged, the report never holds two sections of one kind.
pub proof fn lemma_merged_list_distinct(analysis: Seq<Section>, sections: Seq<Section>)
    requires
        distinct_kinds(analysis),
    ensures
        distinct_kinds(merged_list(analysis, sections)),
        merged_list(analysis, sections).len() >= analysis.len(),
        sections.len() > 0 ==> merged_list(analysis, sections).len() > 0,
    decreases sections.len(),
{
    if sections.len() > 0 {
        lemma_merged_list_distinct(analysis, sections.drop_last());
        lemma_merged_distinct(merged_list(analysis, sections.drop_last()), sections.last());
        lemma_first_of(merged_list(analysis, sections.drop_last()), spec_kind(sections.last()));
    }
}

/// Whatever the detectors report, the report never holds two sections of
/// one kind, and it is empty only if no detector reports a section.
pub proof fn lemma_merged_all_distinct(lists: Seq<Seq<Section>>, upto: int)
    requires
        0 <= upto <= lists.len(),
    ensures
        distinct_kinds(merged_all(lists, upto)),
        merged_all(lists, upto).len() == 0 <==> forall|i: int|
            0 <= i < upto ==> (#[trigger] lists[i]).len() == 0,
    decreases upto,
{
    if upto > 0 {
        lemma_merged_all_distinct(lists, upto - 1);
        lemma_merged_list_distinct(merged_all(lists, upto - 1), lists[upto - 1]);
        if merged_all(lists, upto).len() == 0 {
            assert forall|i: int| 0 <= i < upto implies (#[trigger] lists[i]).len() == 0 by {
                if i < upto - 1 {
                } else {
                    assert(lists[upto - 1].len() == 0);
                }
            }
        }
        if forall|i: int| 0 <= i < upto ==> (#[trigger] lists[i]).len() == 0 {
            assert(lists[upto - 1].len() == 0);
        }
    }
}

/// Merges `section` into the report by its key.
pub fn merge(analysis: &mut Vec<Section>, section: Section)
    ensures
        final(analysis)@ == merged(old(analysis)@, section),
{
    let kind = section.kind();
    let mut i: usize = 0;
    proof {
        lemma_first_of(analysis@, kind);
    }
    while i < analysis.len()
        invariant
            i <= analysis@.len(),
            analysis@ == old(analysis)@,
            kind == spec_kind(section),
            forall|k: int| 0 <= k < i ==> spec_kind(#[trigger] analysis@[k]) != kind,
            i <= first_of(analysis@, kind) <= analysis@.len(),
        decreases analysis@.len() - i,
    {
        proof {
            lemma_first_of(analysis@, kind);
        }
        if analysis[i].kind() == kind {
            proof {
                if first_of(analysis@, kind) > i {
                    assert(spec_kind(analysis@[i as int]) != kind);
                }
            }
            analysis[i] = section;
            return ;
        }
        proof {
            if first_of(analysis@, kind) == i {
                assert(spec_kind(analysis@[first_of(analysis@, kind)]) == kind);
            }
        }
        i += 1;
    }
    analysis.push(section);
}

/// The report of what the detectors report, merged by key in the order of
/// the detectors.
pub fn merge_all(lists: Vec<Vec<Section>>) -> (analysis: Vec<Section>)
    ensures
        analysis@ == merged_all(lists_view(&lists), lists@.len() as int),
        distinct_kinds(analysis@),
{
    let ghost view = lists_view(&lists);
    let mut lists = lists;
    let mut analysis: Vec<Section> = Vec::new();
    let mut i: usize = 0;
    while i < lists.len()
        invariant
            i <= lists@.len(),
            lists@.len() == view.len(),
            forall|k: int| i <= k < lists@.len() ==> (#[trigger] lists@[k])@ == view[k],
            analysis@ == merged_all(view, i as int),
        decreases lists@.len() - i,
    {
        let mut list: Vec<Section> = Vec::new();
        core::mem::swap(&mut lists[i], &mut list);
        assert(list@ == view[i as int]);
        let ghost whole = list@;
        let ghost before = analysis@;
        let ghost mut done: int = 0;
        while list.len() > 0
            invariant
                0 <= done <= whole.len(),
                list@ == whole.skip(done),
                analysis@ == merged_list(before, whole.take(done)),
                lists@.len() == view.len(),
                forall|k: int| i < k < lists@.len() ==> (#[trigger] lists@[k])@ == view[k],
            decreases list@.len(),
        {
            let section = list.remove(0);
            proof {
                assert(section == whole[done]);
                assert(whole.take(done + 1).drop_last() =~= whole.take(done));
                assert(whole.take(done + 1).last() == section);
                assert(list@ =~= whole.skip(done + 1));
            }
            merge(&mut analysis, section);
            proof {
                done = done + 1;
            }
        }
        proof {
            assert(whole.skip(done).len() == 0);
            assert(whole.take(done) =~= whole);
            assert(merged_list(before, whole.take(0)) == before);
        }
        i += 1;
    }
    proof {
        lemma_merged_all_distinct(view, view.len() as int);
    }
    analysis
}

/// The report of a run, where one is wanted and there is anything to
/// report: what the detectors report, merged by key, and what the stream
/// was.
pub fn write_json(args: &Cli, stream: &StreamInfo, sections: Vec<Vec<Section>>) -> (r: Option<
    JsonOutput,
>)
    ensures
        r is None <==> args.json is None || forall|i: int|
            0 <= i < sections@.len() ==> (#[trigger] lists_view(&sections)[i]).len() == 0,
        r matches Some(out) ==> {
            &&& out.analysis@ == merged_all(lists_view(&sections), sections@.len() as int)
            &&& distinct_kinds(out.analysis@)
            &&& out.num_channels == stream.channels
            &&& out.num_samples == stream.num_frames
            &&& out.sample_rate == stream.sample_rate
        },
{
    proof {
        lemma_merged_all_distinct(lists_view(&sections), sections@.len() as int);
    }
    if args.json.is_none() {
        return None;
    }
    let analysis = merge_all(sections);
    if analysis.len() == 0 {
        return None;
    }
    Some(
        JsonOutput {
            analysis,
            num_channels: stream.channels,
            num_samples: stream.num_frames,
            sample_rate: stream.sample_rate,
        },
    )
}

} // verus!

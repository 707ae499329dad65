//! Turns an ordered stream of coverage trace records into per-file line
//! coverage, enforcing the order in which records may appear.

use std::collections::BTreeMap;
use vstd::prelude::*;

use crate::path_order::{
    lemma_path_lt_irreflexive,
    lemma_path_lt_total,
    lemma_path_lt_transitive,
    path_less,
    path_lt,
};

verus! {

broadcast use vstd::std_specs::btree::group_btree_axioms, vstd::laws_cmp::group_laws_cmp;

/// One record of a coverage trace, as far as line coverage is concerned.
#[derive(Debug, Clone)]
pub enum Record {
    /// Opens the block of the file at `path`.
    SourceFile { path: String },
    /// Line `line` was executed `count` times.
    LineData { line: u32, count: u64 },
    /// The number of instrumented lines of the file.
    LinesFound { found: u32 },
    /// The number of executed lines of the file.
    LinesHit { hit: u32 },
    /// Closes the current block.
    EndOfRecord,
    /// Any other kind of record, by name; it is never expected.
    Other { kind: String },
}

/// The coverage facts gathered for one source file.
#[derive(Debug, Clone)]
pub struct LineData {
    /// Executed lines, as the trace's own summary gives them.
    pub hit: Option<u32>,
    /// Instrumented lines, as the trace's own summary gives them.
    pub found: Option<u32>,
    /// Map from line numbers to execution counts.
    pub counts: BTreeMap<u32, u64>,
}

/// A coverage ratio `hit / found`, kept as its two integer terms.
#[derive(Debug, Clone, Copy, PartialEq, Eq, Structural)]
pub struct Ratio {
    pub hit: u128,
    pub found: u128,
}

/// The coverage of one file, under the path that the trace gives it.
#[derive(Debug, Clone)]
pub struct FileCoverage {
    pub path: String,
    pub data: LineData,
}

/// Why a record stream was refused.
#[derive(Debug, Clone)]
pub enum CoverageError {
    /// `record` may not come here; `block` is the path of the block that was
    /// open, if any.
    UnexpectedRecord { record: Record, block: Option<String> },
    /// The stream ended inside the block of `path`.
    TruncatedTrace { path: String },
}

#[derive(Debug)]
enum State {
    Idle,
    SourceFile { path: String, data: LineData },
}

/// The coverage gathered so far, and the block being read, if any.
#[derive(Debug)]
pub struct Coverage {
    state: State,
    files: Vec<FileCoverage>,
}

/// What a [`Coverage`] holds: the open block, with its path and the data
/// gathered in it, and the finished files.
pub struct CoverageView {
    pub block: Option<(String, LineData)>,
    pub files: Seq<FileCoverage>,
}

impl View for Coverage {
    type V = CoverageView;

    closed spec fn view(&self) -> CoverageView {
        CoverageView {
            block: match self.state {
                State::Idle => None,
                State::SourceFile { path, data } => Some((path, data)),
            },
            files: self.files@,
        }
    }
}

/// The files are in strictly increasing order of path.
pub open spec fn sorted_by_path(s: Seq<FileCoverage>) -> bool {
    forall|i: int, j: int| 0 <= i < j < s.len() ==> path_lt(#[trigger] s[i].path@, #[trigger] s[j].path@)
}

/// Whether the file at position `i` has path `p`.
pub open spec fn is_entry_of(s: Seq<FileCoverage>, p: Seq<char>, i: int) -> bool {
    0 <= i < s.len() && s[i].path@ == p
}

/// The files, as a map from path to coverage.
pub open spec fn file_map(s: Seq<FileCoverage>) -> Map<Seq<char>, LineData> {
    Map::new(
        |p: Seq<char>| exists|i: int| is_entry_of(s, p, i),
        |p: Seq<char>| s[choose|i: int| is_entry_of(s, p, i)].data,
    )
}

/// The counts after one sample of `count` executions of `line`: added to what
/// the line had (nothing counts as zero), saturating at the largest `u64`.
pub open spec fn with_sample(counts: Map<u32, u64>, line: u32, count: u64) -> Map<u32, u64> {
    let sum = count_of(counts, line) + count;
    counts.insert(line, if sum > u64::MAX { u64::MAX } else { sum as u64 })
}

/// The count of `line`, zero where there is none.
pub open spec fn count_of(counts: Map<u32, u64>, line: u32) -> int {
    if counts.contains_key(line) {
        counts[line] as int
    } else {
        0
    }
}

/// A block's data as it is when the block opens.
pub open spec fn is_fresh(d: LineData) -> bool {
    &&& d.hit is None
    &&& d.found is None
    &&& d.counts@ == Map::<u32, u64>::empty()
}

/// Whether `record` is refused when `block` is the open block.
pub open spec fn is_unexpected(block: Option<(String, LineData)>, record: Record) -> bool {
    match block {
        None => !(record is SourceFile),
        Some(_) => record is SourceFile || record is Other,
    }
}

/// The path of the open block, if any.
pub open spec fn block_path(block: Option<(String, LineData)>) -> Option<String> {
    match block {
        Some((p, _)) => Some(p),
        None => None,
    }
}

/// `after` is what accepting `record` makes of `before`.
pub open spec fn accepted(before: CoverageView, record: Record, after: CoverageView) -> bool {
    match before.block {
        None => match record {
            Record::SourceFile { path } => {
                &&& after.files == before.files
                &&& after.block matches Some((p, d))
                &&& p == path
                &&& is_fresh(d)
            },
            _ => false,
        },
        Some((p, d)) => match record {
            Record::LineData { line, count } => {
                &&& after.files == before.files
                &&& after.block matches Some((p2, d2))
                &&& p2 == p
                &&& d2.hit == d.hit
                &&& d2.found == d.found
                &&& d2.counts@ == with_sample(d.counts@, line, count)
            },
            Record::LinesFound { found } => {
                &&& after.files == before.files
                &&& after.block matches Some((p2, d2))
                &&& p2 == p
                &&& d2.hit == d.hit
                &&& d2.found == Some(found)
                &&& d2.counts@ == d.counts@
            },
            Record::LinesHit { hit } => {
                &&& after.files == before.files
                &&& after.block matches Some((p2, d2))
                &&& p2 == p
                &&& d2.hit == Some(hit)
                &&& d2.found == d.found
                &&& d2.counts@ == d.counts@
            },
            Record::EndOfRecord => {
                &&& after.block is None
                &&& file_map(after.files) == file_map(before.files).insert(p@, d)
            },
            _ => false,
        },
    }
}

/// In a sorted list, the map from path to coverage finds each entry.
proof fn lemma_file_map_entry(s: Seq<FileCoverage>, i: int)
    requires
        sorted_by_path(s),
        0 <= i < s.len(),
    ensures
        file_map(s).contains_key(s[i].path@),
        file_map(s)[s[i].path@] == s[i].data,
{
    let p = s[i].path@;
    assert(is_entry_of(s, p, i));
    let j = choose|j: int| is_entry_of(s, p, j);
    if j < i {
        assert(path_lt(s[j].path@, s[i].path@));
        lemma_path_lt_irreflexive(p);
    } else if i < j {
        assert(path_lt(s[i].path@, s[j].path@));
        lemma_path_lt_irreflexive(p);
    }
}

/// Where `after` is `before` with `e` written over position `k` (`replaced`) or
/// put in at position `k`, both sorted, the map gains `e` and keeps the rest.
proof fn lemma_file_map_put(
    before: Seq<FileCoverage>,
    after: Seq<FileCoverage>,
    k: int,
    e: FileCoverage,
    replaced: bool,
)
    requires
        sorted_by_path(before),
        sorted_by_path(after),
        0 <= k <= before.len(),
        replaced ==> k < before.len() && before[k].path@ == e.path@ && after == before.update(k, e),
        !replaced ==> after == before.insert(k, e),
    ensures
        file_map(after) == file_map(before).insert(e.path@, e.data),
{
    let goal = file_map(before).insert(e.path@, e.data);
    if !replaced {
        before.insert_ensures(k, e);
    }
    assert(after[k] == e);
    lemma_file_map_entry(after, k);
    assert forall|q: Seq<char>| #[trigger] file_map(after).contains_key(q) implies goal.contains_key(q)
        && file_map(after)[q] == goal[q] by {
        let i = choose|i: int| is_entry_of(after, q, i);
        lemma_file_map_entry(after, i);
        if i != k {
            let j = if i < k || replaced { i } else { i - 1 };
            assert(before[j] == after[i]);
            lemma_file_map_entry(before, j);
        }
    }
    assert forall|q: Seq<char>| #[trigger] goal.contains_key(q) implies file_map(after).contains_key(q) by {
        if q == e.path@ {
            lemma_file_map_entry(after, k);
        } else {
            let j = choose|j: int| is_entry_of(before, q, j);
            let i = if j < k || replaced { j } else { j + 1 };
            assert(after[i] == before[j]);
            lemma_file_map_entry(after, i);
        }
    }
    assert(file_map(after) =~= goal);
}

/// Puts `data` under `path`, replacing any earlier entry for that path and
/// keeping the list sorted.
fn put_file(files: &mut Vec<FileCoverage>, path: String, data: LineData)
    requires
        sorted_by_path(old(files)@),
    ensures
        sorted_by_path(final(files)@),
        file_map(final(files)@) == file_map(old(files)@).insert(path@, data),
{
    let ghost before = files@;
    let mut k: usize = 0;
    while k < files.len()
        invariant
            files@ == before,
            before == old(files)@,
            sorted_by_path(before),
            k <= before.len(),
            forall|i: int| 0 <= i < k ==> path_lt(#[trigger] before[i].path@, path@),
        decreases before.len() - k,
    {
        if files[k].path == path {
            let ghost e = FileCoverage { path, data };
            files[k] = FileCoverage { path, data };
            proof {
                assert(files@ == before.update(k as int, e));
                assert forall|i: int, j: int| 0 <= i < j < files@.len() implies path_lt(
                    #[trigger] files@[i].path@,
                    #[trigger] files@[j].path@,
                ) by {
                    assert(before[i].path@ == files@[i].path@);
                    assert(before[j].path@ == files@[j].path@);
                }
                lemma_file_map_put(before, files@, k as int, e, true);
            }
            return;
        }
        if path_less(path.as_str(), files[k].path.as_str()) {
            let ghost e = FileCoverage { path, data };
            files.insert(k, FileCoverage { path, data });
            proof {
                before.insert_ensures(k as int, e);
                assert forall|m: int| k <= m < before.len() implies path_lt(path@, #[trigger] before[m].path@) by {
                    if m > k {
                        lemma_path_lt_transitive(path@, before[k as int].path@, before[m].path@);
                    }
                }
                assert forall|i: int, j: int| 0 <= i < j < files@.len() implies path_lt(
                    #[trigger] files@[i].path@,
                    #[trigger] files@[j].path@,
                ) by {
                    if j > k as int && i < k as int {
                        assert(path_lt(path@, before[j - 1].path@));
                        lemma_path_lt_transitive(before[i].path@, path@, before[j - 1].path@);
                    } else if j > k as int && i > k as int {
                        assert(path_lt(before[i - 1].path@, before[j - 1].path@));
                    } else if j > k as int && i == k as int {
                        assert(path_lt(path@, before[j - 1].path@));
                    } else if j == k as int {
                        assert(path_lt(before[i].path@, path@));
                    }
                }
                lemma_file_map_put(before, files@, k as int, e, false);
            }
            return;
        }
        proof {
            lemma_path_lt_total(before[k as int].path@, path@);
        }
        k = k + 1;
    }
    let ghost e = FileCoverage { path, data };
    files.push(FileCoverage { path, data });
    proof {
        assert(files@ == before.insert(k as int, e));
        lemma_file_map_put(before, files@, k as int, e, false);
    }
}

/// The ratio of a file whose summary has both terms, with lines instrumented;
/// unknown otherwise, since `hit / 0` is no number.
pub open spec fn fraction_of(d: LineData) -> Option<Ratio> {
    match (d.hit, d.found) {
        (Some(h), Some(f)) => if f > 0 {
            Some(Ratio { hit: h as u128, found: f as u128 })
        } else {
            None
        },
        _ => None,
    }
}

/// The file's summary has both a hit count and a found count.
pub open spec fn is_summarized(d: LineData) -> bool {
    d.hit is Some && d.found is Some
}

/// Sum of the hit counts of the summarized files.
pub open spec fn hit_total(s: Seq<FileCoverage>) -> int
    decreases s.len(),
{
    if s.len() == 0 {
        0
    } else {
        hit_total(s.drop_last()) + if is_summarized(s.last().data) {
            s.last().data.hit.unwrap() as int
        } else {
            0
        }
    }
}

/// Sum of the found counts of the summarized files.
pub open spec fn found_total(s: Seq<FileCoverage>) -> int
    decreases s.len(),
{
    if s.len() == 0 {
        0
    } else {
        found_total(s.drop_last()) + if is_summarized(s.last().data) {
            s.last().data.found.unwrap() as int
        } else {
            0
        }
    }
}

/// The ratio over all summarized files; unknown where their found lines sum
/// to zero, as they do where no file is summarized.
pub open spec fn total_of(s: Seq<FileCoverage>) -> Option<Ratio> {
    if found_total(s) > 0 {
        Some(Ratio { hit: hit_total(s) as u128, found: found_total(s) as u128 })
    } else {
        None
    }
}

impl LineData {
    /// Data with no summary and no counts.
    pub fn new() -> (r: LineData)
        ensures
            is_fresh(r),
    {
        LineData { hit: None, found: None, counts: BTreeMap::new() }
    }

    /// `hit / found` where the trace gave both and `found` is not zero; unknown
    /// otherwise, which is not the same as zero coverage.
    pub fn coverage_fraction(&self) -> (r: Option<Ratio>)
        ensures
            r == fraction_of(*self),
            r is None <==> !is_summarized(*self) || self.found == Some(0u32),
    {
        match (self.hit, self.found) {
            (Some(hit), Some(found)) => if found > 0 {
                Some(Ratio { hit: hit as u128, found: found as u128 })
            } else {
                None
            },
            _ => None,
        }
    }

    /// Adds a sample of `count` executions of `line`.
    fn add_sample(&mut self, line: u32, count: u64)
        ensures
            final(self).hit == old(self).hit,
            final(self).found == old(self).found,
            final(self).counts@ == with_sample(old(self).counts@, line, count),
    {
        let prev: u64 = match self.counts.get(&line) {
            Some(c) => *c,
            None => 0,
        };
        self.counts.insert(line, prev.saturating_add(count));
    }
}

impl Coverage {
    /// No block open and no files.
    pub fn new() -> (r: Coverage)
        ensures
            r.wf(),
            r@.block is None,
            r@.files == Seq::<FileCoverage>::empty(),
    {
        Coverage { state: State::Idle, files: Vec::new() }
    }

    /// The files are sorted by path, so no path is there twice.
    pub open spec fn wf(&self) -> bool {
        sorted_by_path(self@.files)
    }

    /// The finished files, in increasing order of path, where paths compare
    /// character by character as strings (not component by component: `a.b`
    /// comes before `a/b`).
    pub fn files(&self) -> (r: &Vec<FileCoverage>)
        ensures
            r@ == self@.files,
    {
        &self.files
    }

    /// The coverage of the file at `path`, if a block for it has ended.
    pub fn file(&self, path: &str) -> (r: Option<&LineData>)
        requires
            self.wf(),
        ensures
            match r {
                Some(d) => file_map(self@.files).contains_key(path@) && *d == file_map(
                    self@.files,
                )[path@],
                None => !file_map(self@.files).contains_key(path@),
            },
    {
        let key = path.to_owned();
        let mut i: usize = 0;
        while i < self.files.len()
            invariant
                self.wf(),
                self.files@ == self@.files,
                key@ == path@,
                i <= self.files.len(),
                forall|j: int| 0 <= j < i ==> #[trigger] self.files@[j].path@ != path@,
            decreases self.files.len() - i,
        {
            if self.files[i].path == key {
                proof {
                    lemma_file_map_entry(self@.files, i as int);
                }
                return Some(&self.files[i].data);
            }
            i = i + 1;
        }
        proof {
            if file_map(self@.files).contains_key(path@) {
                let j = choose|j: int| is_entry_of(self@.files, path@, j);
                assert(self.files@[j].path@ != path@);
            }
        }
        None
    }

    /// Takes in the next record of the stream. A record out of order is
    /// refused and leaves everything as it was; a block's end puts its data
    /// under its path, over any earlier block of the same path.
    pub fn consume(&mut self, record: Record) -> (r: Result<(), CoverageError>)
        requires
            old(self).wf(),
        ensures
            final(self).wf(),
            r is Err <==> is_unexpected(old(self)@.block, record),
            r is Ok ==> accepted(old(self)@, record, final(self)@),
            r is Err ==> final(self)@ == old(self)@,
            r matches Err(e) ==> e == (CoverageError::UnexpectedRecord {
                record,
                block: block_path(old(self)@.block),
            }),
    {
        let mut state = State::Idle;
        std::mem::swap(&mut state, &mut self.state);
        match state {
            State::Idle => match record {
                Record::SourceFile { path } => {
                    self.state = State::SourceFile { path, data: LineData::new() };
                    Ok(())
                },
                _ => Err(CoverageError::UnexpectedRecord { record, block: None }),
            },
            State::SourceFile { path, mut data } => match record {
                Record::LineData { line, count } => {
                    data.add_sample(line, count);
                    self.state = State::SourceFile { path, data };
                    Ok(())
                },
                Record::LinesFound { found } => {
                    data.found = Some(found);
                    self.state = State::SourceFile { path, data };
                    Ok(())
                },
                Record::LinesHit { hit } => {
                    data.hit = Some(hit);
                    self.state = State::SourceFile { path, data };
                    Ok(())
                },
                Record::EndOfRecord => {
                    put_file(&mut self.files, path, data);
                    Ok(())
                },
                _ => {
                    let block = Some(path.clone());
                    self.state = State::SourceFile { path, data };
                    Err(CoverageError::UnexpectedRecord { record, block })
                },
            },
        }
    }

    /// Succeeds where the stream ended between blocks; a stream that ended
    /// inside a block was cut off.
    pub fn finish(&self) -> (r: Result<(), CoverageError>)
        ensures
            r is Ok <==> self@.block is None,
            r matches Err(e) ==> self@.block matches Some((p, _)) && e == (
            CoverageError::TruncatedTrace { path: p }),
    {
        match &self.state {
            State::Idle => Ok(()),
            State::SourceFile { path, .. } => Err(CoverageError::TruncatedTrace { path: path.clone() }),
        }
    }

    /// The sum of hits over the sum of found lines, over the files whose
    /// summary has both; unknown where that sum of found lines is zero, as it
    /// is where no file has both.
    pub fn total_coverage(&self) -> (r: Option<Ratio>)
        ensures
            r == total_of(self@.files),
    {
        let mut hit: u128 = 0;
        let mut found: u128 = 0;
        let mut i: usize = 0;
        while i < self.files.len()
            invariant
                self.files@ == self@.files,
                i <= self.files.len(),
                hit == hit_total(self.files@.subrange(0, i as int)),
                found == found_total(self.files@.subrange(0, i as int)),
                hit <= i * 0xffff_ffff,
                found <= i * 0xffff_ffff,
            decreases self.files.len() - i,
        {
            let ghost s = self.files@;
            proof {
                assert(s.subrange(0, i + 1).drop_last() =~= s.subrange(0, i as int));
                assert(s.subrange(0, i + 1).last() == s[i as int]);
            }
            let data = &self.files[i].data;
            if let (Some(h), Some(f)) = (data.hit, data.found) {
                proof {
                    assert(hit + h <= (i + 1) * 0xffff_ffff) by (nonlinear_arith)
                        requires hit <= i * 0xffff_ffff, h <= 0xffff_ffff;
                    assert(found + f <= (i + 1) * 0xffff_ffff) by (nonlinear_arith)
                        requires found <= i * 0xffff_ffff, f <= 0xffff_ffff;
                    assert(s.subrange(0, i + 1)[i as int] == s[i as int]);
                }
                hit = hit + h as u128;
                found = found + f as u128;
            } else {
                proof {
                    assert(hit <= (i + 1) * 0xffff_ffff) by (nonlinear_arith)
                        requires hit <= i * 0xffff_ffff;
                    assert(found <= (i + 1) * 0xffff_ffff) by (nonlinear_arith)
                        requires found <= i * 0xffff_ffff;
                }
            }
            i = i + 1;
        }
        proof {
            assert(self.files@.subrange(0, i as int) =~= self.files@);
        }
        if found > 0 {
            Some(Ratio { hit, found })
        } else {
            None
        }
    }
}

/// The counts after the samples `(line, count)` of `samples`, in order.
pub open spec fn with_samples(counts: Map<u32, u64>, samples: Seq<(u32, u64)>) -> Map<u32, u64>
    decreases samples.len(),
{
    if samples.len() == 0 {
        counts
    } else {
        with_sample(
            with_samples(counts, samples.drop_last()),
            samples.last().0,
            samples.last().1,
        )
    }
}

/// The sum of the counts that `samples` gives `line`.
pub open spec fn sample_sum(samples: Seq<(u32, u64)>, line: u32) -> int
    decreases samples.len(),
{
    if samples.len() == 0 {
        0
    } else {
        sample_sum(samples.drop_last(), line) + if samples.last().0 == line {
            samples.last().1 as int
        } else {
            0
        }
    }
}

/// Each sample of a line adds its count to that line: after any run of
/// samples, a line's count is what it had plus the counts of all its samples,
/// so two equal samples in one block give twice the count. This holds while
/// the total fits in a `u64`.
pub proof fn lemma_samples_add_up(counts: Map<u32, u64>, samples: Seq<(u32, u64)>, line: u32)
    requires
        count_of(counts, line) + sample_sum(samples, line) <= u64::MAX,
    ensures
        count_of(with_samples(counts, samples), line) == count_of(counts, line) + sample_sum(
            samples,
            line,
        ),
    decreases samples.len(),
{
    if samples.len() > 0 {
        let (l, c) = samples.last();
        assert(sample_sum(samples.drop_last(), line) <= sample_sum(samples, line));
        lemma_samples_add_up(counts, samples.drop_last(), line);
        let before = with_samples(counts, samples.drop_last());
        if l != line {
            assert(with_sample(before, l, c).contains_key(line) == before.contains_key(line));
        }
    }
}

/// A file without both summary counts counts for nothing in the total: taking
/// it out changes neither the hits, nor the found lines, nor the total.
pub proof fn lemma_unsummarized_file_excluded(s: Seq<FileCoverage>, i: int)
    requires
        0 <= i < s.len(),
        !is_summarized(s[i].data),
    ensures
        hit_total(s) == hit_total(s.remove(i)),
        found_total(s) == found_total(s.remove(i)),
        total_of(s) == total_of(s.remove(i)),
    decreases s.len(),
{
    let r = s.remove(i);
    if i == s.len() - 1 {
        assert(r =~= s.drop_last());
    } else {
        lemma_unsummarized_file_excluded(s.drop_last(), i);
        assert(r.drop_last() =~= s.drop_last().remove(i));
        assert(r.last() == s.last());
    }
}

/// The line samples among `records`, in order.
pub open spec fn samples_of(records: Seq<Record>) -> Seq<(u32, u64)>
    decreases records.len(),
{
    if records.len() == 0 {
        Seq::empty()
    } else {
        samples_of(records.drop_last()) + match records.last() {
            Record::LineData { line, count } => seq![(line, count)],
            _ => Seq::empty(),
        }
    }
}

/// `views[i + 1]` is what accepting `records[i]` made of `views[i]`, for each
/// record, and none of the records ends a block.
pub open spec fn is_run_without_end(views: Seq<CoverageView>, records: Seq<Record>) -> bool {
    &&& views.len() == records.len() + 1
    &&& forall|i: int| 0 <= i < records.len() ==> accepted(views[i], #[trigger] records[i], views[i + 1])
    &&& forall|i: int| 0 <= i < records.len() ==> !(#[trigger] records[i] is EndOfRecord)
}

/// A block that has not ended is not among the files: over any run of accepted
/// records with no end of block, the files stay as they were, and once a
/// record has been taken a block is open, which `finish` refuses.
pub proof fn lemma_open_block_stays_out(views: Seq<CoverageView>, records: Seq<Record>)
    requires
        is_run_without_end(views, records),
    ensures
        views.last().files == views[0].files,
        records.len() > 0 ==> views.last().block is Some,
    decreases records.len(),
{
    if records.len() > 0 {
        let n = records.len() - 1;
        assert(is_run_without_end(views.drop_last(), records.drop_last())) by {
            assert forall|i: int| 0 <= i < n implies accepted(
                views.drop_last()[i],
                #[trigger] records.drop_last()[i],
                views.drop_last()[i + 1],
            ) by {
                assert(accepted(views[i], records[i], views[i + 1]));
            }
            assert forall|i: int| 0 <= i < n implies !(#[trigger] records.drop_last()[i] is EndOfRecord) by {
                assert(!(records[i] is EndOfRecord));
            }
        }
        lemma_open_block_stays_out(views.drop_last(), records.drop_last());
        assert(accepted(views[n], records[n], views[n + 1]));
        assert(!(records[n] is EndOfRecord));
    }
}

/// Within a block, the counts are those the block opened with after all the
/// block's line samples, in order; with [`lemma_samples_add_up`], each line's
/// count is the sum of its samples' counts.
pub proof fn lemma_block_counts(views: Seq<CoverageView>, records: Seq<Record>)
    requires
        is_run_without_end(views, records),
        views[0].block is Some,
    ensures
        views.last().block matches Some((p, d)) && p == views[0].block.unwrap().0
            && d.counts@ == with_samples(views[0].block.unwrap().1.counts@, samples_of(records)),
    decreases records.len(),
{
    if records.len() > 0 {
        let n = records.len() - 1;
        assert(is_run_without_end(views.drop_last(), records.drop_last())) by {
            assert forall|i: int| 0 <= i < n implies accepted(
                views.drop_last()[i],
                #[trigger] records.drop_last()[i],
                views.drop_last()[i + 1],
            ) by {
                assert(accepted(views[i], records[i], views[i + 1]));
            }
            assert forall|i: int| 0 <= i < n implies !(#[trigger] records.drop_last()[i] is EndOfRecord) by {
                assert(!(records[i] is EndOfRecord));
            }
        }
        lemma_block_counts(views.drop_last(), records.drop_last());
        assert(accepted(views[n], records[n], views[n + 1]));
        assert(!(records[n] is EndOfRecord));
        let prior = samples_of(records.drop_last());
        match records[n] {
            Record::LineData { line, count } => {
                let all = samples_of(records);
                assert(all.drop_last() =~= prior);
                assert(all.last() == (line, count));
            },
            _ => {
                assert(samples_of(records) =~= prior);
            },
        }
    }
}

/// A whole block, from its opening record to its end: the file's entry then
/// holds exactly the counts of the block's own line samples, over whatever an
/// earlier block of the same path had left.
pub proof fn lemma_closed_block_counts(views: Seq<CoverageView>, records: Seq<Record>)
    requires
        views.len() == records.len() + 1,
        records.len() >= 2,
        forall|i: int| 0 <= i < records.len() ==> accepted(views[i], #[trigger] records[i], views[i + 1]),
        records[0] is SourceFile,
        records.last() is EndOfRecord,
        forall|i: int| 0 < i < records.len() - 1 ==> !(#[trigger] records[i] is EndOfRecord),
    ensures
        ({
            let p = records[0]->SourceFile_path@;
            let body = records.subrange(1, records.len() - 1);
            &&& views.last().block is None
            &&& file_map(views.last().files).contains_key(p)
            &&& file_map(views.last().files)[p].counts@ == with_samples(
                Map::<u32, u64>::empty(),
                samples_of(body),
            )
        }),
{
    let n = records.len() - 1;
    let body = records.subrange(1, n);
    let inner = views.subrange(1, n + 1);
    assert(accepted(views[0], records[0], views[1]));
    assert(is_run_without_end(inner, body)) by {
        assert forall|i: int| 0 <= i < body.len() implies accepted(
            inner[i],
            #[trigger] body[i],
            inner[i + 1],
        ) by {
            assert(accepted(views[i + 1], records[i + 1], views[i + 2]));
        }
        assert forall|i: int| 0 <= i < body.len() implies !(#[trigger] body[i] is EndOfRecord) by {
            assert(!(records[i + 1] is EndOfRecord));
        }
    }
    lemma_block_counts(inner, body);
    assert(inner.last() == views[n]);
    assert(records.last() == records[n]);
    assert(accepted(views[n], records[n], views[n + 1]));
}

} // verus!

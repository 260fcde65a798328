//! The log of completed conversions: the encoder appends a record after every
//! delivered (non-reused) encode; the recents listing reads it back to
//! annotate outputs whose original is gone.
//!
//! This is the in-memory journal and its rules (dedup by output set, the cap
//! on the newest records, newest-first lookups); reading and writing the
//! journal file is the caller's.
use vstd::prelude::*;

use crate::scanner::{output_suffix_at, tamped_original_stem};
use crate::shortcuts::opt_view;
use crate::text::{chars_of, str_eq};

verus! {

/// Records kept on append; older ones fall off.
pub const MAX_RECORDS: usize = 200;

/// One delivered output of a conversion job: singles have one, a split set
/// one per part.
pub struct Output {
    pub path: String,
    pub bytes: u64,
}

impl View for Output {
    type V = (Seq<char>, u64);

    open spec fn view(&self) -> (Seq<char>, u64) {
        (self.path@, self.bytes)
    }
}

/// One completed conversion.
pub struct ConversionRecord {
    pub input_path: String,
    pub input_bytes: u64,
    /// The job's delivered outputs: one for a single, N for a split set.
    pub outputs: Vec<Output>,
    pub preset_hash: String,
    pub preset_name: String,
    /// The preset's byte target in MB (IEEE-754 bits of the `f64`) when the
    /// encode ran; the bits of 0.0 mean unknown (records older than the field).
    pub target_mb_bits: u64,
    pub completed_at_ms: u64,
    /// The source's creation time (ms since epoch); 0 when unknown.
    pub input_created_ms: u64,
}

/// A record as plain values.
pub struct RecordModel {
    pub input_path: Seq<char>,
    pub input_bytes: u64,
    pub outputs: Seq<(Seq<char>, u64)>,
    pub preset_hash: Seq<char>,
    pub preset_name: Seq<char>,
    pub target_mb_bits: u64,
    pub completed_at_ms: u64,
    pub input_created_ms: u64,
}

pub open spec fn outputs_view(outs: Seq<Output>) -> Seq<(Seq<char>, u64)> {
    outs.map_values(|o: Output| o@)
}

impl View for ConversionRecord {
    type V = RecordModel;

    open spec fn view(&self) -> RecordModel {
        RecordModel {
            input_path: self.input_path@,
            input_bytes: self.input_bytes,
            outputs: outputs_view(self.outputs@),
            preset_hash: self.preset_hash@,
            preset_name: self.preset_name@,
            target_mb_bits: self.target_mb_bits,
            completed_at_ms: self.completed_at_ms,
            input_created_ms: self.input_created_ms,
        }
    }
}

fn copy_output(o: &Output) -> (r: Output)
    ensures
        r@ == o@,
{
    Output { path: o.path.clone(), bytes: o.bytes }
}

fn copy_outputs(outs: &Vec<Output>) -> (r: Vec<Output>)
    ensures
        outputs_view(r@) == outputs_view(outs@),
{
    let mut r: Vec<Output> = Vec::new();
    let mut i: usize = 0;
    while i < outs.len()
        invariant
            i <= outs@.len(),
            r@.len() == i,
            forall|j: int| 0 <= j < i ==> (#[trigger] r@[j])@ == outs@[j]@,
        decreases outs.len() - i,
    {
        r.push(copy_output(&outs[i]));
        i = i + 1;
    }
    assert(outputs_view(r@) =~= outputs_view(outs@));
    r
}

impl ConversionRecord {
    /// A field-for-field copy.
    pub fn duplicate(&self) -> (r: ConversionRecord)
        ensures
            r@ == self@,
    {
        ConversionRecord {
            input_path: self.input_path.clone(),
            input_bytes: self.input_bytes,
            outputs: copy_outputs(&self.outputs),
            preset_hash: self.preset_hash.clone(),
            preset_name: self.preset_name.clone(),
            target_mb_bits: self.target_mb_bits,
            completed_at_ms: self.completed_at_ms,
            input_created_ms: self.input_created_ms,
        }
    }
}

/// A record as stored on disk, in either layout: the current one carries
/// `outputs`; the legacy one a single `output_path`/`output_bytes`.
pub struct RawRecord {
    pub input_path: String,
    pub input_bytes: u64,
    pub outputs: Option<Vec<Output>>,
    pub output_path: Option<String>,
    pub output_bytes: Option<u64>,
    pub preset_hash: String,
    pub preset_name: String,
    pub target_mb_bits: u64,
    pub completed_at_ms: u64,
    pub input_created_ms: u64,
}

impl RawRecord {
    /// Maps a stored record to `(record, is_legacy)`: a current-layout record
    /// passes through; a legacy one collapses its single output into a
    /// one-element `outputs` (an absent path reads as empty, absent bytes
    /// as 0).
    pub fn into_record(self) -> (r: (ConversionRecord, bool))
        ensures
            r.1 == (self.outputs is None),
            r.0.input_path@ == self.input_path@,
            r.0.input_bytes == self.input_bytes,
            r.0.preset_hash@ == self.preset_hash@,
            r.0.preset_name@ == self.preset_name@,
            r.0.target_mb_bits == self.target_mb_bits,
            r.0.completed_at_ms == self.completed_at_ms,
            r.0.input_created_ms == self.input_created_ms,
            self.outputs matches Some(outs) ==> r.0.outputs@ == outs@,
            self.outputs is None ==> r.0@.outputs == seq![
                (
                    match self.output_path {
                        Some(p) => p@,
                        None => Seq::<char>::empty(),
                    },
                    match self.output_bytes {
                        Some(b) => b,
                        None => 0u64,
                    },
                ),
            ],
    {
        let (outputs, is_legacy) = match self.outputs {
            Some(outputs) => (outputs, false),
            None => {
                let path = match self.output_path {
                    Some(p) => p,
                    None => String::new(),
                };
                let bytes = match self.output_bytes {
                    Some(b) => b,
                    None => 0,
                };
                let mut v: Vec<Output> = Vec::new();
                v.push(Output { path, bytes });
                assert(outputs_view(v@) =~= seq![(v@[0].path@, bytes)]);
                (v, true)
            },
        };
        (
            ConversionRecord {
                input_path: self.input_path,
                input_bytes: self.input_bytes,
                outputs,
                preset_hash: self.preset_hash,
                preset_name: self.preset_name,
                target_mb_bits: self.target_mb_bits,
                completed_at_ms: self.completed_at_ms,
                input_created_ms: self.input_created_ms,
            },
            is_legacy,
        )
    }
}

/// The set of output paths of a record.
pub open spec fn path_set(m: RecordModel) -> Set<Seq<char>> {
    Set::new(|p: Seq<char>| has_output(m, p))
}

/// `p` is one of the record's output paths.
pub open spec fn has_output(m: RecordModel, p: Seq<char>) -> bool {
    exists|i: int| 0 <= i < m.outputs.len() && (#[trigger] m.outputs[i]).0 == p
}

/// `rs` without the records whose output-path set is `key`, in order.
pub open spec fn without_output_set(rs: Seq<RecordModel>, key: Set<Seq<char>>) -> Seq<RecordModel>
    decreases rs.len(),
{
    if rs.len() == 0 {
        seq![]
    } else {
        let rest = without_output_set(rs.drop_last(), key);
        if path_set(rs.last()) == key {
            rest
        } else {
            rest.push(rs.last())
        }
    }
}

/// The newest `MAX_RECORDS` of `rs`.
pub open spec fn newest_kept(rs: Seq<RecordModel>) -> Seq<RecordModel> {
    if rs.len() > MAX_RECORDS {
        rs.skip(rs.len() - MAX_RECORDS)
    } else {
        rs
    }
}

/// The journal after appending `rec`: a record with the same output-path set
/// is replaced (the new one goes last), then only the newest
/// `MAX_RECORDS` are kept.
pub open spec fn appended(rs: Seq<RecordModel>, rec: RecordModel) -> Seq<RecordModel> {
    newest_kept(without_output_set(rs, path_set(rec)).push(rec))
}

/// The newest record with `p` among its outputs.
pub open spec fn newest_with_output(rs: Seq<RecordModel>, p: Seq<char>) -> Option<RecordModel>
    decreases rs.len(),
{
    if rs.len() == 0 {
        None
    } else if has_output(rs.last(), p) {
        Some(rs.last())
    } else {
        newest_with_output(rs.drop_last(), p)
    }
}

pub open spec fn records_view(rs: Seq<ConversionRecord>) -> Seq<RecordModel> {
    rs.map_values(|r: ConversionRecord| r@)
}

/// The conversion journal, oldest record first.
pub struct Journal {
    records: Vec<ConversionRecord>,
}

impl View for Journal {
    type V = Seq<RecordModel>;

    closed spec fn view(&self) -> Seq<RecordModel> {
        records_view(self.records@)
    }
}

/// `p` is the path of one of `outs`.
pub open spec fn path_in(outs: Seq<Output>, p: Seq<char>) -> bool {
    exists|j: int| 0 <= j < outs.len() && (#[trigger] outs[j]).path@ == p
}

fn has_path(outs: &Vec<Output>, p: &str) -> (r: bool)
    ensures
        r == path_in(outs@, p@),
{
    let mut i: usize = 0;
    while i < outs.len()
        invariant
            i <= outs@.len(),
            forall|j: int| 0 <= j < i ==> (#[trigger] outs@[j]).path@ != p@,
        decreases outs.len() - i,
    {
        if crate::text::str_eq(outs[i].path.as_str(), p) {
            return true;
        }
        i = i + 1;
    }
    false
}

/// Every path of `a` is a path of `b`.
fn paths_within(a: &Vec<Output>, b: &Vec<Output>) -> (r: bool)
    ensures
        r == forall|i: int| 0 <= i < a@.len() ==> path_in(b@, #[trigger] a@[i].path@),
{
    let mut i: usize = 0;
    while i < a.len()
        invariant
            i <= a@.len(),
            forall|k: int| 0 <= k < i ==> path_in(b@, #[trigger] a@[k].path@),
        decreases a.len() - i,
    {
        if !has_path(b, a[i].path.as_str()) {
            return false;
        }
        i = i + 1;
    }
    true
}

proof fn lemma_has_output(outs: Seq<Output>, p: Seq<char>)
    ensures
        has_output(RecordModel { outputs: outputs_view(outs), ..arbitrary() }, p) <==> path_in(outs, p),
{
    let m = RecordModel { outputs: outputs_view(outs), ..arbitrary() };
    if has_output(m, p) {
        let i = choose|i: int| 0 <= i < m.outputs.len() && (#[trigger] m.outputs[i]).0 == p;
        assert(outs[i].path@ == p);
    }
    if path_in(outs, p) {
        let i = choose|i: int| 0 <= i < outs.len() && (#[trigger] outs[i]).path@ == p;
        assert(m.outputs[i].0 == p);
    }
}

/// The two output lists carry the same set of paths.
fn same_path_set(a: &ConversionRecord, b: &ConversionRecord) -> (r: bool)
    ensures
        r == (path_set(a@) == path_set(b@)),
{
    let ab = paths_within(&a.outputs, &b.outputs);
    let ba = paths_within(&b.outputs, &a.outputs);
    proof {
        assert forall|p: Seq<char>| has_output(a@, p) == path_in(a.outputs@, p) by {
            lemma_has_output(a.outputs@, p);
            assert(a@.outputs == RecordModel { outputs: outputs_view(a.outputs@), ..arbitrary() }.outputs);
        }
        assert forall|p: Seq<char>| has_output(b@, p) == path_in(b.outputs@, p) by {
            lemma_has_output(b.outputs@, p);
            assert(b@.outputs == RecordModel { outputs: outputs_view(b.outputs@), ..arbitrary() }.outputs);
        }
        if ab && ba {
            assert(path_set(a@) =~= path_set(b@));
        } else if !ab {
            let i = choose|i: int| 0 <= i < a.outputs@.len() && !path_in(b.outputs@, #[trigger] a.outputs@[i].path@);
            let p = a.outputs@[i].path@;
            assert(a@.outputs[i].0 == p);
            assert(path_set(a@).contains(p));
            assert(!path_set(b@).contains(p));
        } else {
            let i = choose|i: int| 0 <= i < b.outputs@.len() && !path_in(a.outputs@, #[trigger] b.outputs@[i].path@);
            let p = b.outputs@[i].path@;
            assert(b@.outputs[i].0 == p);
            assert(path_set(b@).contains(p));
            assert(!path_set(a@).contains(p));
        }
    }
    ab && ba
}

impl Journal {
    /// An empty journal.
    pub fn new() -> (j: Journal)
        ensures
            j@ == Seq::<RecordModel>::empty(),
    {
        Journal { records: Vec::new() }
    }

    /// A journal holding `records` (oldest first), as read back from disk.
    pub fn from_records(records: Vec<ConversionRecord>) -> (j: Journal)
        ensures
            j@ == records_view(records@),
    {
        Journal { records }
    }

    /// Records `rec` as the newest conversion. A record with the same set of
    /// output paths (order-independent) is replaced rather than duplicated;
    /// distinct conversions coexist. Only the newest `MAX_RECORDS` are kept.
    pub fn append(&mut self, rec: ConversionRecord)
        ensures
            final(self)@ == appended(old(self)@, rec@),
    {
        let ghost key = path_set(rec@);
        let ghost before = self@;
        let mut kept: Vec<ConversionRecord> = Vec::new();
        let mut i: usize = 0;
        while i < self.records.len()
            invariant
                i <= self.records@.len(),
                key == path_set(rec@),
                before == records_view(self.records@),
                records_view(kept@) == without_output_set(before.take(i as int), key),
            decreases self.records.len() - i,
        {
            assert(before.take(i as int + 1).drop_last() =~= before.take(i as int));
            assert(before.take(i as int + 1).last() == self.records@[i as int]@);
            if !same_path_set(&self.records[i], &rec) {
                kept.push(self.records[i].duplicate());
            }
            i = i + 1;
            assert(records_view(kept@) =~= without_output_set(before.take(i as int), key));
        }
        assert(before.take(before.len() as int) =~= before);
        kept.push(rec);
        assert(records_view(kept@) =~= without_output_set(before, key).push(rec@));
        if kept.len() > MAX_RECORDS {
            let excess = kept.len() - MAX_RECORDS;
            let ghost all = kept@;
            let tail = kept.split_off(excess);
            assert(records_view(tail@) =~= records_view(all).skip(excess as int));
            self.records = tail;
        } else {
            self.records = kept;
        }
    }

    /// All recorded conversions, newest first.
    pub fn records(&self) -> (r: Vec<ConversionRecord>)
        ensures
            records_view(r@) == self@.reverse(),
    {
        let mut r: Vec<ConversionRecord> = Vec::new();
        let n = self.records.len();
        let mut i: usize = n;
        while i > 0
            invariant
                i <= n == self.records@.len(),
                r@.len() == n - i,
                forall|k: int| 0 <= k < n - i ==> (#[trigger] r@[k])@ == self.records@[n - 1 - k]@,
            decreases i,
        {
            i = i - 1;
            r.push(self.records[i].duplicate());
        }
        assert(records_view(r@) =~= self@.reverse());
        r
    }

    /// The newest record with `output_path` among its outputs (any part of a
    /// split set matches).
    pub fn find_by_output(&self, output_path: &str) -> (r: Option<ConversionRecord>)
        ensures
            match r {
                Some(rec) => newest_with_output(self@, output_path@) == Some(rec@),
                None => newest_with_output(self@, output_path@) is None,
            },
    {
        let n = self.records.len();
        let mut i: usize = n;
        assert(self@.take(n as int) =~= self@);
        while i > 0
            invariant
                i <= n == self.records@.len(),
                newest_with_output(self@, output_path@) == newest_with_output(
                    self@.take(i as int),
                    output_path@,
                ),
            decreases i,
        {
            let ghost t = self@.take(i as int);
            assert(t.drop_last() =~= self@.take(i - 1));
            assert(t.last() == self.records@[i - 1]@);
            proof {
                lemma_has_output(self.records@[i - 1].outputs@, output_path@);
                assert(self.records@[i - 1]@.outputs == RecordModel {
                    outputs: outputs_view(self.records@[i - 1].outputs@),
                    ..arbitrary()
                }.outputs);
            }
            if has_path(&self.records[i - 1].outputs, output_path) {
                return Some(self.records[i - 1].duplicate());
            }
            i = i - 1;
        }
        None
    }
}

proof fn lemma_without_excludes(rs: Seq<RecordModel>, key: Set<Seq<char>>)
    ensures
        without_output_set(rs, key).len() <= rs.len(),
        forall|i: int|
            0 <= i < without_output_set(rs, key).len() ==> path_set(
                #[trigger] without_output_set(rs, key)[i],
            ) != key,
    decreases rs.len(),
{
    if rs.len() > 0 {
        lemma_without_excludes(rs.drop_last(), key);
    }
}

/// After appending `rec`, the journal holds at most `MAX_RECORDS` records,
/// `rec` is the newest, and no other record has `rec`'s set of output paths.
pub proof fn lemma_append_keeps_newest_unique(rs: Seq<RecordModel>, rec: RecordModel)
    ensures
        appended(rs, rec).len() <= MAX_RECORDS,
        appended(rs, rec).len() > 0,
        appended(rs, rec).last() == rec,
        forall|i: int|
            0 <= i < appended(rs, rec).len() - 1 ==> path_set(#[trigger] appended(rs, rec)[i])
                != path_set(rec),
{
    let w = without_output_set(rs, path_set(rec));
    lemma_without_excludes(rs, path_set(rec));
    let p = w.push(rec);
    if p.len() > MAX_RECORDS {
        let a = appended(rs, rec);
        assert forall|i: int| 0 <= i < a.len() - 1 implies path_set(#[trigger] a[i]) != path_set(
            rec,
        ) by {
            assert(a[i] == w[i + p.len() - MAX_RECORDS]);
        }
    } else {
        assert forall|i: int| 0 <= i < p.len() - 1 implies path_set(#[trigger] p[i]) != path_set(
            rec,
        ) by {
            assert(p[i] == w[i]);
        }
    }
}

/// A lookup of any of `rec`'s output paths right after appending `rec` finds
/// `rec` itself.
pub proof fn lemma_find_after_append(rs: Seq<RecordModel>, rec: RecordModel, p: Seq<char>)
    requires
        has_output(rec, p),
    ensures
        newest_with_output(appended(rs, rec), p) == Some(rec),
{
    lemma_append_keeps_newest_unique(rs, rec);
}

/// Whether an existing output may not be served again for `input_path`:
/// the journal's record of it (the newest with that output) was made from
/// another input, or the input was modified after that encode completed.
/// Without a record nothing speaks against reuse.
pub open spec fn stale_reuse(
    record: Option<RecordModel>,
    input_path: Seq<char>,
    input_modified_ms: Option<u64>,
) -> bool {
    match record {
        None => false,
        Some(r) => r.input_path != input_path || match input_modified_ms {
            Some(m) => m > r.completed_at_ms,
            None => false,
        },
    }
}

/// [`stale_reuse`] of the record found for an existing output.
pub fn reuse_is_stale(
    record: &Option<ConversionRecord>,
    input_path: &str,
    input_modified_ms: Option<u64>,
) -> (r: bool)
    ensures
        r == stale_reuse(
            match record {
                Some(rec) => Some(rec@),
                None => None,
            },
            input_path@,
            input_modified_ms,
        ),
{
    match record {
        None => false,
        Some(rec) => {
            if !str_eq(rec.input_path.as_str(), input_path) {
                return true;
            }
            match input_modified_ms {
                Some(m) => m > rec.completed_at_ms,
                None => false,
            }
        },
    }
}

/// Keeps the records whose output-path set is not `key`.
pub open spec fn other_sets(key: Set<Seq<char>>) -> spec_fn(RecordModel) -> bool {
    |r: RecordModel| path_set(r) != key
}

proof fn lemma_without_is_filter(rs: Seq<RecordModel>, key: Set<Seq<char>>)
    ensures
        without_output_set(rs, key) == rs.filter(other_sets(key)),
    decreases rs.len(),
{
    reveal(Seq::filter);
    let f = other_sets(key);
    if rs.len() > 0 {
        lemma_without_is_filter(rs.drop_last(), key);
        assert(f(rs.last()) == (path_set(rs.last()) != key));
        assert(rs.filter(f) == if f(rs.last()) {
            rs.drop_last().filter(f).push(rs.last())
        } else {
            rs.drop_last().filter(f)
        });
    } else {
        assert(rs.filter(f) =~= seq![]);
    }
}

proof fn lemma_filter_reverse(s: Seq<RecordModel>, p: spec_fn(RecordModel) -> bool)
    ensures
        s.filter(p).reverse() == s.reverse().filter(p),
    decreases s.len(),
{
    reveal_with_fuel(Seq::filter, 2);
    if s.len() > 0 {
        let x = s.last();
        let t = s.drop_last();
        lemma_filter_reverse(t, p);
        assert(s.reverse() =~= seq![x] + t.reverse());
        Seq::filter_distributes_over_add(seq![x], t.reverse(), p);
        assert(seq![x].drop_last() =~= Seq::<RecordModel>::empty());
        assert(Seq::<RecordModel>::empty().filter(p) =~= Seq::<RecordModel>::empty());
        assert(seq![x].drop_last().filter(p) =~= Seq::<RecordModel>::empty());
        assert(seq![x].last() == x);
        if p(x) {
            assert(seq![x].filter(p) =~= seq![x]);
            assert(t.filter(p).push(x).reverse() =~= seq![x] + t.filter(p).reverse());
        } else {
            assert(seq![x].filter(p) =~= Seq::<RecordModel>::empty());
            assert(Seq::<RecordModel>::empty() + t.reverse().filter(p) =~= t.reverse().filter(p));
        }
    }
}

/// Read newest first, as `Journal::records` returns them, the journal after
/// appending `rec` is `rec` followed by the earlier records, newest first,
/// without those whose output-path set is `rec`'s, cut to the newest
/// `MAX_RECORDS`.
pub proof fn lemma_records_after_append(rs: Seq<RecordModel>, rec: RecordModel)
    ensures
        appended(rs, rec).reverse() == ({
            let fresh = seq![rec] + rs.reverse().filter(other_sets(path_set(rec)));
            if fresh.len() > MAX_RECORDS {
                fresh.take(MAX_RECORDS as int)
            } else {
                fresh
            }
        }),
{
    let key = path_set(rec);
    let w = without_output_set(rs, key);
    lemma_without_is_filter(rs, key);
    lemma_filter_reverse(rs, other_sets(key));
    let pushed = w.push(rec);
    let fresh = seq![rec] + rs.reverse().filter(other_sets(key));
    assert(pushed.reverse() =~= fresh);
    if pushed.len() > MAX_RECORDS {
        assert(pushed.skip(pushed.len() - MAX_RECORDS).reverse() =~= fresh.take(
            MAX_RECORDS as int,
        ));
    }
}

// ---------------------------------------------------------------------------
// Migrating legacy per-part records

/// The name for what `Path::parent` gives for the path spelled `p`, as text.
pub uninterp spec fn path_parent_of(p: Seq<char>) -> Option<Seq<char>>;

/// `Path::parent` of the path spelled `p`, as text.
#[verifier::external_body]
fn path_parent(p: &str) -> (r: Option<String>)
    ensures
        opt_view(r) == path_parent_of(p@),
{
    std::path::Path::new(p).parent().and_then(|d| d.to_str()).map(|d| d.to_string())
}

/// The name for what `Path::file_name` gives for the path spelled `p`.
pub uninterp spec fn path_file_name_of(p: Seq<char>) -> Option<Seq<char>>;

/// `Path::file_name` of the path spelled `p`, as text.
#[verifier::external_body]
fn path_file_name(p: &str) -> (r: Option<String>)
    ensures
        opt_view(r) == path_file_name_of(p@),
{
    std::path::Path::new(p).file_name().and_then(|n| n.to_str()).map(|n| n.to_string())
}

/// The name for what `Path::file_stem` gives for the path spelled `p`.
pub uninterp spec fn path_file_stem_of(p: Seq<char>) -> Option<Seq<char>>;

/// `Path::file_stem` of the path spelled `p`, as text.
#[verifier::external_body]
fn path_file_stem(p: &str) -> (r: Option<String>)
    ensures
        opt_view(r) == path_file_stem_of(p@),
{
    std::path::Path::new(p).file_stem().and_then(|n| n.to_str()).map(|n| n.to_string())
}

/// A legacy record whose single output sits in a split set's part folder (a
/// folder named like a tamped output): that folder. Such records are the
/// parts of one conversion, recorded one by one by older versions.
pub open spec fn part_folder(m: RecordModel, legacy: bool) -> Option<Seq<char>> {
    if legacy && m.outputs.len() == 1 && path_parent_of(m.outputs[0].0) is Some
        && is_part_folder_name(path_file_name_of(path_parent_of(m.outputs[0].0)->0)) {
        path_parent_of(m.outputs[0].0)
    } else {
        None
    }
}

/// A folder name that is a tamped output's stem.
pub open spec fn is_part_folder_name(name: Option<Seq<char>>) -> bool {
    name matches Some(n) && exists|k: int| output_suffix_at(n, k)
}

fn part_folder_of(rec: &ConversionRecord, legacy: bool) -> (r: Option<String>)
    ensures
        opt_view(r) == part_folder(rec@, legacy),
{
    if !legacy || rec.outputs.len() != 1 {
        return None;
    }
    assert(rec@.outputs[0].0 == rec.outputs@[0].path@);
    let dir = match path_parent(rec.outputs[0].path.as_str()) {
        Some(d) => d,
        None => return None,
    };
    let name = match path_file_name(dir.as_str()) {
        Some(n) => n,
        None => return None,
    };
    let recognised = tamped_original_stem(name.as_str()).is_some();
    assert(recognised == exists|k: int| output_suffix_at(name@, k));
    assert(path_parent_of(rec@.outputs[0].0) == Some(dir@));
    assert(path_file_name_of(dir@) == Some(name@));
    assert(rec@.outputs.len() == 1);
    if recognised {
        proof {
            let k = choose|k: int| output_suffix_at(name@, k);
            assert(output_suffix_at(name@, k));
            let n = Some(name@)->0;
            assert(n == name@);
            assert(output_suffix_at(n, k));
        }
        assert(is_part_folder_name(Some(name@)));
        Some(dir)
    } else {
        assert(part_folder(rec@, legacy) is None);
        None
    }
}

/// The value of the decimal digits `d`.
pub open spec fn digits_value(d: Seq<char>) -> nat
    decreases d.len(),
{
    if d.len() == 0 {
        0
    } else {
        digits_value(d.drop_last()) * 10 + (d.last() as nat - '0' as nat) as nat
    }
}

/// How many characters at the end of `s` are ASCII digits.
pub open spec fn trailing_digit_count(s: Seq<char>) -> nat
    decreases s.len(),
{
    if s.len() > 0 && '0' <= s.last() <= '9' {
        1 + trailing_digit_count(s.drop_last())
    } else {
        0
    }
}

/// The number a part's file stem ends with (0 when it ends with no digit),
/// capped at `u64::MAX`.
pub open spec fn trailing_number(s: Seq<char>) -> u64 {
    let v = digits_value(s.skip(s.len() - trailing_digit_count(s)));
    if v > u64::MAX { u64::MAX } else { v as u64 }
}

proof fn lemma_trailing_digits(s: Seq<char>)
    ensures
        trailing_digit_count(s) <= s.len(),
        forall|i: int|
            s.len() - trailing_digit_count(s) <= i < s.len() ==> '0' <= #[trigger] s[i] <= '9',
        trailing_digit_count(s) < s.len() ==> !('0' <= s[s.len() - trailing_digit_count(s) - 1]
            <= '9'),
    decreases s.len(),
{
    if s.len() > 0 && '0' <= s.last() <= '9' {
        lemma_trailing_digits(s.drop_last());
        assert forall|i: int|
            s.len() - trailing_digit_count(s) <= i < s.len() implies '0' <= #[trigger] s[i] <= '9' by {
            if i < s.len() - 1 {
                assert(s[i] == s.drop_last()[i]);
            }
        }
        if trailing_digit_count(s) < s.len() {
            assert(s[s.len() - trailing_digit_count(s) - 1] == s.drop_last()[s.drop_last().len()
                - trailing_digit_count(s.drop_last()) - 1]);
        }
    }
}

fn trailing_number_of(s: &str) -> (r: u64)
    ensures
        r == trailing_number(s@),
{
    let v = chars_of(s);
    let n = v.len();
    let mut start = n;
    while start > 0 && '0' <= v[start - 1] && v[start - 1] <= '9'
        invariant
            start <= n == v@.len(),
            v@ == s@,
            forall|i: int| start <= i < n ==> '0' <= #[trigger] v@[i] <= '9',
        decreases start,
    {
        start = start - 1;
    }
    proof {
        lemma_trailing_digits(s@);
        let c = trailing_digit_count(s@) as int;
        if n - c < start {
            assert('0' <= v@[n - c] <= '9');
            assert(!('0' <= v@[start - 1] <= '9') || start == 0);
        }
        if n - c > start {
            assert(!('0' <= s@[n - c - 1] <= '9'));
        }
        assert(start == n - c);
    }
    let ghost digits = s@.skip(start as int);
    let mut value: u64 = 0;
    let mut i = start;
    while i < n
        invariant
            start <= i <= n == v@.len(),
            v@ == s@,
            digits == s@.skip(start as int),
            forall|k: int| start <= k < n ==> '0' <= #[trigger] v@[k] <= '9',
            value == (if digits_value(v@.subrange(start as int, i as int)) > u64::MAX {
                u64::MAX as nat
            } else {
                digits_value(v@.subrange(start as int, i as int))
            }),
        decreases n - i,
    {
        let d = (v[i] as u32 - '0' as u32) as u64;
        let ghost prefix = v@.subrange(start as int, i as int);
        let ghost next = v@.subrange(start as int, i + 1);
        assert(next.drop_last() =~= prefix);
        assert(next.last() == v@[i as int]);
        assert(digits_value(next) == digits_value(prefix) * 10 + d);
        if value > (u64::MAX - d) / 10 {
            assert(digits_value(next) > u64::MAX) by (nonlinear_arith)
                requires
                    digits_value(next) == digits_value(prefix) * 10 + d,
                    value > (u64::MAX - d) / 10,
                    value <= digits_value(prefix),
                    d <= 9,
            ;
            value = u64::MAX;
        } else {
            assert(value * 10 + d <= u64::MAX) by (nonlinear_arith)
                requires
                    value <= (u64::MAX - d) / 10,
                    d <= 9,
            ;
            assert(digits_value(prefix) <= u64::MAX);
            value = value * 10 + d;
        }
        i = i + 1;
    }
    assert(v@.subrange(start as int, n as int) =~= digits);
    value
}

/// One part of a split set being gathered from legacy records: its path,
/// size, and when its record was completed.
pub struct PartModel {
    pub path: Seq<char>,
    pub bytes: u64,
    pub time: u64,
}

struct PartEntry {
    path: String,
    bytes: u64,
    time: u64,
}

impl View for PartEntry {
    type V = PartModel;

    closed spec fn view(&self) -> PartModel {
        PartModel { path: self.path@, bytes: self.bytes, time: self.time }
    }
}

spec fn parts_view(ps: Seq<PartEntry>) -> Seq<PartModel> {
    ps.map_values(|e: PartEntry| e@)
}

/// The records with their legacy flags, as plain values.
pub open spec fn models(mapped: Seq<(ConversionRecord, bool)>) -> Seq<(RecordModel, bool)> {
    mapped.map_values(|e: (ConversionRecord, bool)| (e.0@, e.1))
}

/// The index of the last part with path `p`, or -1.
pub open spec fn part_index(ps: Seq<PartModel>, p: Seq<char>) -> int
    decreases ps.len(),
{
    if ps.len() == 0 {
        -1
    } else if ps.last().path == p {
        ps.len() - 1
    } else {
        part_index(ps.drop_last(), p)
    }
}

proof fn lemma_part_index(ps: Seq<PartModel>, p: Seq<char>)
    ensures
        -1 <= part_index(ps, p) < ps.len(),
        part_index(ps, p) >= 0 ==> ps[part_index(ps, p)].path == p,
        part_index(ps, p) < 0 ==> forall|i: int| 0 <= i < ps.len() ==> (#[trigger] ps[i]).path != p,
    decreases ps.len(),
{
    if ps.len() > 0 && ps.last().path != p {
        lemma_part_index(ps.drop_last(), p);
        if part_index(ps, p) < 0 {
            assert forall|i: int| 0 <= i < ps.len() implies (#[trigger] ps[i]).path != p by {
                if i < ps.len() - 1 {
                    assert(ps[i] == ps.drop_last()[i]);
                }
            }
        }
    }
}

/// The parts of the split set in part folder `f` among the first `n`
/// records, in order of first appearance; a part recorded more than once
/// keeps the size and time of its newest record (the later one on a tie).
pub open spec fn group_parts(ms: Seq<(RecordModel, bool)>, f: Seq<char>, n: int) -> Seq<PartModel>
    decreases n,
{
    if n <= 0 {
        seq![]
    } else {
        let prev = group_parts(ms, f, n - 1);
        let m = ms[n - 1].0;
        if part_folder(m, ms[n - 1].1) == Some(f) {
            let part = PartModel { path: m.outputs[0].0, bytes: m.outputs[0].1, time: m.completed_at_ms };
            let k = part_index(prev, part.path);
            if k < 0 {
                prev.push(part)
            } else if m.completed_at_ms >= prev[k].time {
                prev.update(k, part)
            } else {
                prev
            }
        } else {
            prev
        }
    }
}

fn find_part(ps: &Vec<PartEntry>, p: &str) -> (r: Option<usize>)
    ensures
        match r {
            Some(k) => k == part_index(parts_view(ps@), p@),
            None => part_index(parts_view(ps@), p@) < 0,
        },
{
    let ghost view = parts_view(ps@);
    let mut k = ps.len();
    assert(view.take(k as int) =~= view);
    while k > 0
        invariant
            k <= ps@.len(),
            view == parts_view(ps@),
            part_index(view, p@) == part_index(view.take(k as int), p@),
        decreases k,
    {
        let ghost t = view.take(k as int);
        assert(t.drop_last() =~= view.take(k - 1));
        assert(t.last() == ps@[k - 1]@);
        if crate::text::str_eq(ps[k - 1].path.as_str(), p) {
            return Some(k - 1);
        }
        k = k - 1;
    }
    None
}

fn collect_group_parts(
    mapped: &Vec<(ConversionRecord, bool)>,
    folders: &Vec<Option<String>>,
    f: &str,
) -> (r: Vec<PartEntry>)
    requires
        folders@.len() == mapped@.len(),
        forall|i: int|
            0 <= i < mapped@.len() ==> opt_view(#[trigger] folders@[i]) == part_folder(
                mapped@[i].0@,
                mapped@[i].1,
            ),
    ensures
        parts_view(r@) == group_parts(models(mapped@), f@, mapped@.len() as int),
{
    let ghost ms = models(mapped@);
    let mut r: Vec<PartEntry> = Vec::new();
    let mut j: usize = 0;
    while j < mapped.len()
        invariant
            j <= mapped@.len(),
            ms == models(mapped@),
            folders@.len() == mapped@.len(),
            forall|i: int|
                0 <= i < mapped@.len() ==> opt_view(#[trigger] folders@[i]) == part_folder(
                    mapped@[i].0@,
                    mapped@[i].1,
                ),
            parts_view(r@) == group_parts(ms, f@, j as int),
        decreases mapped.len() - j,
    {
        assert(ms[j as int] == (mapped@[j as int].0@, mapped@[j as int].1));
        let in_group = match &folders[j] {
            Some(d) => crate::text::str_eq(d.as_str(), f),
            None => false,
        };
        assert(in_group == (part_folder(ms[j as int].0, ms[j as int].1) == Some(f@)));
        if in_group {
            let rec = &mapped[j].0;
            assert(rec@.outputs[0] == rec.outputs@[0]@);
            let entry = PartEntry {
                path: rec.outputs[0].path.clone(),
                bytes: rec.outputs[0].bytes,
                time: rec.completed_at_ms,
            };
            let ghost prev = parts_view(r@);
            proof {
                lemma_part_index(prev, entry.path@);
            }
            match find_part(&r, rec.outputs[0].path.as_str()) {
                None => {
                    r.push(entry);
                    assert(parts_view(r@) =~= prev.push(entry@));
                },
                Some(k) => {
                    if rec.completed_at_ms >= r[k].time {
                        r.set(k, entry);
                        assert(parts_view(r@) =~= prev.update(k as int, entry@));
                    }
                },
            }
        }
        j = j + 1;
    }
    r
}

/// A part's place in its set: the number its file stem ends with.
pub open spec fn part_key(path: Seq<char>) -> u64 {
    match path_file_stem_of(path) {
        Some(stem) => trailing_number(stem),
        None => 0,
    }
}

fn part_key_of(path: &str) -> (r: u64)
    ensures
        r == part_key(path@),
{
    match path_file_stem(path) {
        Some(stem) => trailing_number_of(stem.as_str()),
        None => 0,
    }
}

/// The index of the first part with the smallest key among the first `n`.
pub open spec fn first_min(ps: Seq<PartModel>, n: int) -> int
    decreases n,
{
    if n <= 1 {
        0
    } else {
        let k = first_min(ps, n - 1);
        if part_key(ps[n - 1].path) < part_key(ps[k].path) {
            n - 1
        } else {
            k
        }
    }
}

/// The first-minimum index lies among the parts considered.
pub proof fn lemma_first_min_bounds(ps: Seq<PartModel>, n: int)
    requires
        1 <= n,
    ensures
        0 <= first_min(ps, n) < n,
    decreases n,
{
    if n > 1 {
        lemma_first_min_bounds(ps, n - 1);
    }
}

/// The parts ordered by key, ties in their order (a stable sort): the first
/// part with the smallest key, then the rest sorted the same way.
pub open spec fn sorted_parts(ps: Seq<PartModel>) -> Seq<PartModel>
    decreases ps.len(),
{
    if ps.len() == 0 {
        ps
    } else {
        let k = first_min(ps, ps.len() as int);
        proof {
            lemma_first_min_bounds(ps, ps.len() as int);
        }
        seq![ps[k]] + sorted_parts(ps.remove(k))
    }
}

fn first_min_index(ps: &Vec<PartEntry>) -> (k: usize)
    requires
        ps@.len() > 0,
    ensures
        k == first_min(parts_view(ps@), ps@.len() as int),
{
    let ghost view = parts_view(ps@);
    let mut best: usize = 0;
    let mut best_key = part_key_of(ps[0].path.as_str());
    let mut i: usize = 1;
    while i < ps.len()
        invariant
            1 <= i <= ps@.len(),
            view == parts_view(ps@),
            best == first_min(view, i as int),
            best < i,
            best_key == part_key(view[best as int].path),
        decreases ps.len() - i,
    {
        assert(view[i as int] == ps@[i as int]@);
        let key = part_key_of(ps[i].path.as_str());
        if key < best_key {
            best = i;
            best_key = key;
        }
        i = i + 1;
    }
    best
}

fn sort_parts(ps: Vec<PartEntry>) -> (r: Vec<PartEntry>)
    ensures
        parts_view(r@) == sorted_parts(parts_view(ps@)),
{
    let ghost whole = sorted_parts(parts_view(ps@));
    let mut rest = ps;
    let mut out: Vec<PartEntry> = Vec::new();
    assert(parts_view(out@) + sorted_parts(parts_view(rest@)) =~= whole);
    while rest.len() > 0
        invariant
            parts_view(out@) + sorted_parts(parts_view(rest@)) == whole,
        decreases rest.len(),
    {
        let ghost before = parts_view(rest@);
        let k = first_min_index(&rest);
        proof {
            lemma_first_min_bounds(before, before.len() as int);
        }
        let e = rest.remove(k);
        assert(parts_view(rest@) =~= before.remove(k as int));
        assert(e@ == before[k as int]);
        let ghost prev_out = parts_view(out@);
        out.push(e);
        assert(parts_view(out@) =~= prev_out.push(before[k as int]));
        assert(sorted_parts(before) == seq![before[k as int]] + sorted_parts(before.remove(k as int)));
        assert(parts_view(out@) + sorted_parts(parts_view(rest@)) =~= prev_out + sorted_parts(before));
    }
    assert(parts_view(out@) =~= whole);
    out
}

/// The index of the last record in part folder `f` among the first `n`, or
/// -1 when there is none.
pub open spec fn last_member(ms: Seq<(RecordModel, bool)>, f: Seq<char>, n: int) -> int
    decreases n,
{
    if n <= 0 {
        -1
    } else if part_folder(ms[n - 1].0, ms[n - 1].1) == Some(f) {
        n - 1
    } else {
        last_member(ms, f, n - 1)
    }
}

proof fn lemma_last_member(ms: Seq<(RecordModel, bool)>, f: Seq<char>, n: int)
    requires
        0 <= n <= ms.len(),
    ensures
        -1 <= last_member(ms, f, n) < n,
        last_member(ms, f, n) >= 0 ==> part_folder(
            ms[last_member(ms, f, n)].0,
            ms[last_member(ms, f, n)].1,
        ) == Some(f),
        forall|j: int|
            last_member(ms, f, n) < j < n ==> part_folder(#[trigger] ms[j].0, ms[j].1) != Some(f),
    decreases n,
{
    if n > 0 && part_folder(ms[n - 1].0, ms[n - 1].1) != Some(f) {
        lemma_last_member(ms, f, n - 1);
    }
}

/// The latest completion time among the records in part folder `f` among
/// the first `n` (0 when there is none).
pub open spec fn group_time(ms: Seq<(RecordModel, bool)>, f: Seq<char>, n: int) -> u64
    decreases n,
{
    if n <= 0 {
        0
    } else {
        let t = group_time(ms, f, n - 1);
        if part_folder(ms[n - 1].0, ms[n - 1].1) == Some(f) && ms[n - 1].0.completed_at_ms > t {
            ms[n - 1].0.completed_at_ms
        } else {
            t
        }
    }
}

pub open spec fn part_outputs(ps: Seq<PartModel>) -> Seq<(Seq<char>, u64)> {
    ps.map_values(|p: PartModel| (p.path, p.bytes))
}

/// The one record a split set's legacy part records become: the last part
/// record's conversion details, every part once (newest size) ordered by
/// part number, completed when its latest part was.
pub open spec fn merged_record(ms: Seq<(RecordModel, bool)>, f: Seq<char>) -> RecordModel {
    let n = ms.len() as int;
    let base = ms[last_member(ms, f, n)].0;
    RecordModel {
        input_path: base.input_path,
        input_bytes: base.input_bytes,
        outputs: part_outputs(sorted_parts(group_parts(ms, f, n))),
        preset_hash: base.preset_hash,
        preset_name: base.preset_name,
        target_mb_bits: base.target_mb_bits,
        completed_at_ms: group_time(ms, f, n),
        input_created_ms: base.input_created_ms,
    }
}

/// The first `n` records after migration: records that are not legacy split
/// parts stay as they are; the parts of each split set are replaced by their
/// merged record, at the place of the set's last part record.
pub open spec fn migrated(ms: Seq<(RecordModel, bool)>, n: int) -> Seq<RecordModel>
    decreases n,
{
    if n <= 0 {
        seq![]
    } else {
        let prev = migrated(ms, n - 1);
        match part_folder(ms[n - 1].0, ms[n - 1].1) {
            None => prev.push(ms[n - 1].0),
            Some(f) => if last_member(ms, f, ms.len() as int) == n - 1 {
                prev.push(merged_record(ms, f))
            } else {
                prev
            },
        }
    }
}

fn merge_group(
    mapped: &Vec<(ConversionRecord, bool)>,
    folders: &Vec<Option<String>>,
    f: &str,
    last: usize,
) -> (r: ConversionRecord)
    requires
        folders@.len() == mapped@.len(),
        forall|i: int|
            0 <= i < mapped@.len() ==> opt_view(#[trigger] folders@[i]) == part_folder(
                mapped@[i].0@,
                mapped@[i].1,
            ),
        last as int == last_member(models(mapped@), f@, mapped@.len() as int),
        last < mapped@.len(),
    ensures
        r@ == merged_record(models(mapped@), f@),
{
    let ghost ms = models(mapped@);
    let parts = sort_parts(collect_group_parts(mapped, folders, f));
    let mut outputs: Vec<Output> = Vec::new();
    let mut k: usize = 0;
    while k < parts.len()
        invariant
            k <= parts@.len(),
            outputs@.len() == k,
            forall|i: int| 0 <= i < k ==> (#[trigger] outputs@[i])@ == (parts@[i]@.path, parts@[i]@.bytes),
        decreases parts.len() - k,
    {
        outputs.push(Output { path: parts[k].path.clone(), bytes: parts[k].bytes });
        k = k + 1;
    }
    assert(outputs_view(outputs@) =~= part_outputs(parts_view(parts@)));
    let mut time: u64 = 0;
    let mut j: usize = 0;
    while j < mapped.len()
        invariant
            j <= mapped@.len(),
            ms == models(mapped@),
            folders@.len() == mapped@.len(),
            forall|i: int|
                0 <= i < mapped@.len() ==> opt_view(#[trigger] folders@[i]) == part_folder(
                    mapped@[i].0@,
                    mapped@[i].1,
                ),
            time == group_time(ms, f@, j as int),
        decreases mapped.len() - j,
    {
        assert(ms[j as int] == (mapped@[j as int].0@, mapped@[j as int].1));
        let in_group = match &folders[j] {
            Some(d) => crate::text::str_eq(d.as_str(), f),
            None => false,
        };
        if in_group && mapped[j].0.completed_at_ms > time {
            time = mapped[j].0.completed_at_ms;
        }
        j = j + 1;
    }
    let base = &mapped[last].0;
    assert(ms[last as int].0 == base@);
    ConversionRecord {
        input_path: base.input_path.clone(),
        input_bytes: base.input_bytes,
        outputs,
        preset_hash: base.preset_hash.clone(),
        preset_name: base.preset_name.clone(),
        target_mb_bits: base.target_mb_bits,
        completed_at_ms: time,
        input_created_ms: base.input_created_ms,
    }
}

/// Whether record `i` is the last one in its part folder `f`.
fn is_last_in_folder(folders: &Vec<Option<String>>, i: usize, f: &str) -> (r: bool)
    requires
        i < folders@.len(),
    ensures
        r == forall|j: int| i < j < folders@.len() ==> opt_view(#[trigger] folders@[j]) != Some(f@),
{
    let n = folders.len();
    let mut j = i + 1;
    while j < n
        invariant
            i < j <= n == folders@.len(),
            forall|k: int| i < k < j ==> opt_view(#[trigger] folders@[k]) != Some(f@),
        decreases folders.len() - j,
    {
        let same = match &folders[j] {
            Some(d) => crate::text::str_eq(d.as_str(), f),
            None => false,
        };
        if same {
            return false;
        }
        j = j + 1;
    }
    true
}

/// Migrates freshly loaded records (each with whether it was stored in the
/// legacy layout): the legacy part records of each split set merge into one
/// record, everything else passes through. The flag is whether any record
/// was legacy, i.e. whether the file must be rewritten in the current
/// layout.
pub fn migrate(mapped: Vec<(ConversionRecord, bool)>) -> (r: (Vec<ConversionRecord>, bool))
    ensures
        records_view(r.0@) == migrated(models(mapped@), mapped@.len() as int),
        r.1 == exists|i: int| 0 <= i < mapped@.len() && (#[trigger] mapped@[i]).1,
{
    let ghost ms = models(mapped@);
    let n = mapped.len();
    let mut folders: Vec<Option<String>> = Vec::new();
    let mut any_legacy = false;
    let mut i: usize = 0;
    while i < n
        invariant
            i <= n == mapped@.len(),
            folders@.len() == i,
            forall|k: int|
                0 <= k < i ==> opt_view(#[trigger] folders@[k]) == part_folder(
                    mapped@[k].0@,
                    mapped@[k].1,
                ),
            any_legacy == exists|k: int| 0 <= k < i && (#[trigger] mapped@[k]).1,
        decreases n - i,
    {
        folders.push(part_folder_of(&mapped[i].0, mapped[i].1));
        if mapped[i].1 {
            any_legacy = true;
        }
        i = i + 1;
    }
    let mut out: Vec<ConversionRecord> = Vec::new();
    let mut i: usize = 0;
    while i < n
        invariant
            i <= n == mapped@.len(),
            ms == models(mapped@),
            folders@.len() == n,
            forall|k: int|
                0 <= k < n ==> opt_view(#[trigger] folders@[k]) == part_folder(
                    mapped@[k].0@,
                    mapped@[k].1,
                ),
            records_view(out@) == migrated(ms, i as int),
        decreases n - i,
    {
        assert(ms[i as int] == (mapped@[i as int].0@, mapped@[i as int].1));
        let ghost prev = records_view(out@);
        match &folders[i] {
            None => {
                out.push(mapped[i].0.duplicate());
                assert(records_view(out@) =~= prev.push(ms[i as int].0));
            },
            Some(f) => {
                proof {
                    lemma_last_member(ms, f@, n as int);
                }
                let last = is_last_in_folder(&folders, i, f.as_str());
                proof {
                    let lm = last_member(ms, f@, n as int);
                    if last {
                        if lm > i {
                            assert(ms[lm] == (mapped@[lm].0@, mapped@[lm].1));
                            assert(opt_view(folders@[lm]) == Some(f@));
                        }
                        if lm < i {
                            assert(part_folder(ms[i as int].0, ms[i as int].1) != Some(f@));
                        }
                        assert(lm == i);
                    } else {
                        let j = choose|j: int| i < j < n && opt_view(#[trigger] folders@[j]) == Some(f@);
                        assert(ms[j] == (mapped@[j].0@, mapped@[j].1));
                        if lm < j {
                            assert(part_folder(ms[j].0, ms[j].1) != Some(f@));
                        }
                        assert(lm >= j);
                    }
                }
                if last {
                    let merged = merge_group(&mapped, &folders, f.as_str(), i);
                    out.push(merged);
                    assert(records_view(out@) =~= prev.push(merged_record(ms, f@)));
                }
            },
        }
        i = i + 1;
    }
    (out, any_legacy)
}

/// Records stored in the current layout pass through a migration unchanged:
/// reloading a migrated journal changes nothing and asks for no rewrite.
pub proof fn lemma_current_layout_is_unchanged(ms: Seq<(RecordModel, bool)>, n: int)
    requires
        0 <= n <= ms.len(),
        forall|i: int| 0 <= i < ms.len() ==> !(#[trigger] ms[i]).1,
    ensures
        migrated(ms, n) == ms.take(n).map_values(|e: (RecordModel, bool)| e.0),
    decreases n,
{
    if n > 0 {
        lemma_current_layout_is_unchanged(ms, n - 1);
        assert(!ms[n - 1].1);
        assert(ms.take(n).map_values(|e: (RecordModel, bool)| e.0) =~= ms.take(n - 1).map_values(
            |e: (RecordModel, bool)| e.0,
        ).push(ms[n - 1].0));
    } else {
        assert(ms.take(0).map_values(|e: (RecordModel, bool)| e.0) =~= Seq::<RecordModel>::empty());
    }
}

proof fn lemma_group_parts_distinct(ms: Seq<(RecordModel, bool)>, f: Seq<char>, n: int)
    ensures
        forall|i: int, j: int|
            0 <= i < j < group_parts(ms, f, n).len() ==> (#[trigger] group_parts(ms, f, n)[i]).path
                != (#[trigger] group_parts(ms, f, n)[j]).path,
    decreases n,
{
    if n > 0 {
        lemma_group_parts_distinct(ms, f, n - 1);
        let prev = group_parts(ms, f, n - 1);
        let m = ms[n - 1].0;
        if part_folder(m, ms[n - 1].1) == Some(f) {
            let part = PartModel { path: m.outputs[0].0, bytes: m.outputs[0].1, time: m.completed_at_ms };
            lemma_part_index(prev, part.path);
            let g = group_parts(ms, f, n);
            assert forall|i: int, j: int| 0 <= i < j < g.len() implies (#[trigger] g[i]).path != (
            #[trigger] g[j]).path by {
                let k = part_index(prev, part.path);
                if k < 0 {
                    if j == prev.len() {
                        assert(prev[i].path != part.path);
                    } else {
                        assert(g[i] == prev[i] && g[j] == prev[j]);
                    }
                } else if m.completed_at_ms >= prev[k].time {
                    if i == k {
                        assert(prev[j].path != prev[k].path);
                    } else if j == k {
                        assert(prev[i].path != prev[k].path);
                    } else {
                        assert(g[i] == prev[i] && g[j] == prev[j]);
                    }
                }
            }
        }
    }
}

proof fn lemma_first_min_is_min(ps: Seq<PartModel>, n: int)
    requires
        1 <= n <= ps.len(),
    ensures
        forall|i: int| 0 <= i < n ==> part_key(ps[first_min(ps, n)].path) <= part_key(#[trigger] ps[i].path),
    decreases n,
{
    lemma_first_min_bounds(ps, n);
    if n > 1 {
        lemma_first_min_is_min(ps, n - 1);
    }
}

proof fn lemma_sorted_parts(ps: Seq<PartModel>)
    requires
        forall|i: int, j: int| 0 <= i < j < ps.len() ==> (#[trigger] ps[i]).path != (#[trigger] ps[j]).path,
    ensures
        sorted_parts(ps).len() == ps.len(),
        forall|x: PartModel| sorted_parts(ps).contains(x) <==> ps.contains(x),
        forall|i: int, j: int|
            0 <= i < j < sorted_parts(ps).len() ==> (#[trigger] sorted_parts(ps)[i]).path != (
            #[trigger] sorted_parts(ps)[j]).path && part_key(sorted_parts(ps)[i].path) <= part_key(
                sorted_parts(ps)[j].path,
            ),
    decreases ps.len(),
{
    if ps.len() > 0 {
        let k = first_min(ps, ps.len() as int);
        lemma_first_min_bounds(ps, ps.len() as int);
        lemma_first_min_is_min(ps, ps.len() as int);
        let rest = ps.remove(k);
        assert forall|i: int, j: int| 0 <= i < j < rest.len() implies (#[trigger] rest[i]).path != (
        #[trigger] rest[j]).path by {
            let a = if i < k { i } else { i + 1 };
            let b = if j < k { j } else { j + 1 };
            assert(rest[i] == ps[a] && rest[j] == ps[b]);
        }
        lemma_sorted_parts(rest);
        let s = sorted_parts(ps);
        let t = sorted_parts(rest);
        assert(s == seq![ps[k]] + t);
        assert forall|x: PartModel| s.contains(x) <==> ps.contains(x) by {
            if s.contains(x) {
                let i = choose|i: int| 0 <= i < s.len() && s[i] == x;
                if i > 0 {
                    assert(t[i - 1] == x);
                    assert(t.contains(x));
                    assert(rest.contains(x));
                    let r = choose|r: int| 0 <= r < rest.len() && rest[r] == x;
                    let a = if r < k { r } else { r + 1 };
                    assert(ps[a] == x);
                } else {
                    assert(ps[k] == x);
                }
            }
            if ps.contains(x) {
                let i = choose|i: int| 0 <= i < ps.len() && ps[i] == x;
                if i == k {
                    assert(s[0] == x);
                } else {
                    let r = if i < k { i } else { i - 1 };
                    assert(rest[r] == x);
                    assert(rest.contains(x));
                    let q = choose|q: int| 0 <= q < t.len() && t[q] == x;
                    assert(s[q + 1] == x);
                }
            }
        }
        assert forall|i: int, j: int| 0 <= i < j < s.len() implies (#[trigger] s[i]).path != (
        #[trigger] s[j]).path && part_key(s[i].path) <= part_key(s[j].path) by {
            if i == 0 {
                assert(t.contains(s[j])) by {
                    assert(t[j - 1] == s[j]);
                }
                assert(rest.contains(s[j]));
                let r = choose|r: int| 0 <= r < rest.len() && rest[r] == s[j];
                let a = if r < k { r } else { r + 1 };
                assert(ps[a] == s[j]);
                assert(a != k);
            } else {
                assert(s[i] == t[i - 1] && s[j] == t[j - 1]);
            }
        }
    }
}

/// The record a split set's parts merge into lists each part once, in
/// part-number order.
pub proof fn lemma_merged_parts_once_in_order(ms: Seq<(RecordModel, bool)>, f: Seq<char>)
    ensures
        forall|i: int, j: int|
            0 <= i < j < merged_record(ms, f).outputs.len() ==> (#[trigger] merged_record(
                ms,
                f,
            ).outputs[i]).0 != (#[trigger] merged_record(ms, f).outputs[j]).0 && part_key(
                merged_record(ms, f).outputs[i].0,
            ) <= part_key(merged_record(ms, f).outputs[j].0),
{
    let g = group_parts(ms, f, ms.len() as int);
    lemma_group_parts_distinct(ms, f, ms.len() as int);
    lemma_sorted_parts(g);
    let o = merged_record(ms, f).outputs;
    let s = sorted_parts(g);
    assert forall|i: int, j: int| 0 <= i < j < o.len() implies (#[trigger] o[i]).0 != (
    #[trigger] o[j]).0 && part_key(o[i].0) <= part_key(o[j].0) by {
        assert(o[i] == (s[i].path, s[i].bytes));
        assert(o[j] == (s[j].path, s[j].bytes));
    }
}

} // verus!

use vstd::prelude::*;
use vstd::string::*;
use crate::codes::{IcdCode, NamasteCode};
use crate::search::{blank, is_blank};
use crate::similarity::{Embedded, Embedding};

verus! {

/// A catalog record that the embedding job can fill in.
pub trait EmbeddingSource: Embedded + Sized {
    /// The text the record's embedding is computed from.
    spec fn source_text(&self) -> Seq<char>;

    /// The record with its embedding set to `e`, all else unchanged.
    spec fn with_vector(&self, e: Embedding) -> Self;

    proof fn lemma_with_vector(&self, e: Embedding)
        ensures
            self.with_vector(e).stored() == Some(e),
            self.with_vector(e).source_text() == self.source_text(),
    ;

    fn embedding_text(&self) -> (r: String)
        ensures
            r@ == self.source_text(),
    ;

    fn set_vector(&mut self, e: Embedding)
        ensures
            *final(self) == old(self).with_vector(e),
    ;
}

/// The record already has a non-empty embedding.
pub open spec fn has_vector<T: Embedded>(c: T) -> bool {
    c.stored() matches Some(e) && e.values@.len() > 0
}

/// What the job does with one record.
pub enum BackfillStep {
    /// The record already has an embedding: leave it.
    AlreadyEmbedded,
    /// The record has no text to embed: leave it.
    Skip,
    /// Ask for the embedding of this text.
    Embed(String),
}

/// What became of one record.
#[derive(Clone, Copy, Debug, PartialEq, Eq, Structural)]
pub enum ProcessResult {
    Success,
    Failed,
    Skipped,
    AlreadyExists,
}

/// What the conditional write of an embedding did.
#[derive(Clone, Copy, Debug, PartialEq, Eq, Structural)]
pub enum WriteOutcome {
    /// The record still lacked an embedding and now has one.
    Modified,
    /// No record lacking an embedding matched: another run got there first.
    NoMatch,
    /// The write failed.
    Error,
}

/// Counts of what a run of the job did.
#[derive(Clone, Copy, Debug, PartialEq, Eq, Structural)]
pub struct BackfillSummary {
    pub processed: usize,
    pub skipped: usize,
    pub already_embedded: usize,
    pub failed: usize,
}

impl EmbeddingSource for IcdCode {
    open spec fn source_text(&self) -> Seq<char> {
        self.title@ + " "@ + match self.definition {
            Some(d) => d@,
            None => Seq::empty(),
        } + " "@ + self.code@
    }

    open spec fn with_vector(&self, e: Embedding) -> Self {
        IcdCode { embedding: Some(e), ..*self }
    }

    proof fn lemma_with_vector(&self, e: Embedding) {
    }

    fn embedding_text(&self) -> (r: String) {
        let mut t = self.title.clone();
        t.append(" ");
        match &self.definition {
            Some(d) => t.append(d.as_str()),
            None => {},
        }
        t.append(" ");
        t.append(self.code.as_str());
        proof {
            assert(t@ =~= self.source_text());
        }
        t
    }

    fn set_vector(&mut self, e: Embedding) {
        self.embedding = Some(e);
    }
}

/// The non-empty texts among `parts`, joined by single spaces.
pub open spec fn join_present(parts: Seq<Seq<char>>) -> Seq<char>
    decreases parts.len(),
{
    if parts.len() == 0 {
        Seq::empty()
    } else {
        let head = join_present(parts.drop_last());
        let last = parts.last();
        if last.len() == 0 {
            head
        } else if head.len() == 0 {
            last
        } else {
            head + " "@ + last
        }
    }
}

fn join_step(acc: &mut String, part: &String, Ghost(parts): Ghost<Seq<Seq<char>>>)
    requires
        parts.len() > 0,
        parts.last() == part@,
        old(acc)@ == join_present(parts.drop_last()),
    ensures
        final(acc)@ == join_present(parts),
{
    let ac = acc.as_str().is_empty();
    if part.as_str().is_empty() {
    } else if ac {
        acc.append(part.as_str());
        assert(acc@ =~= part@);
    } else {
        acc.append(" ");
        acc.append(part.as_str());
    }
}

impl EmbeddingSource for NamasteCode {
    /// The record's term in each script and its code, those present, joined by
    /// spaces; the term alone when none is present.
    open spec fn source_text(&self) -> Seq<char> {
        let j = join_present(
            seq![
                self.namc_term@,
                self.namc_term_diacritical@,
                self.namc_term_devanagari@,
                self.namc_code@,
            ],
        );
        if j.len() == 0 {
            self.namc_term@
        } else {
            j
        }
    }

    open spec fn with_vector(&self, e: Embedding) -> Self {
        NamasteCode { embedding: Some(e), ..*self }
    }

    proof fn lemma_with_vector(&self, e: Embedding) {
    }

    fn embedding_text(&self) -> (r: String) {
        let ghost p = seq![
            self.namc_term@,
            self.namc_term_diacritical@,
            self.namc_term_devanagari@,
            self.namc_code@,
        ];
        let mut t = String::new();
        proof {
            assert(p.take(0).len() == 0);
            assert(t@ =~= join_present(p.take(0)));
        }
        join_step(&mut t, &self.namc_term, Ghost(p.take(1)));
        proof {
            assert(p.take(2).drop_last() =~= p.take(1));
        }
        join_step(&mut t, &self.namc_term_diacritical, Ghost(p.take(2)));
        proof {
            assert(p.take(3).drop_last() =~= p.take(2));
        }
        join_step(&mut t, &self.namc_term_devanagari, Ghost(p.take(3)));
        proof {
            assert(p.take(4).drop_last() =~= p.take(3));
        }
        join_step(&mut t, &self.namc_code, Ghost(p.take(4)));
        proof {
            assert(p.take(4) =~= p);
        }
        if t.as_str().is_empty() {
            self.namc_term.clone()
        } else {
            t
        }
    }

    fn set_vector(&mut self, e: Embedding) {
        self.embedding = Some(e);
    }
}

/// What the job does with record `c`: records with an embedding and records with a
/// blank text are left alone, the rest are embedded.
pub fn plan_entry<T: EmbeddingSource>(c: &T) -> (r: BackfillStep)
    ensures
        has_vector(*c) ==> r is AlreadyEmbedded,
        !has_vector(*c) && blank(c.source_text()) ==> r is Skip,
        !has_vector(*c) && !blank(c.source_text()) ==> (r matches BackfillStep::Embed(t) && t@
            == c.source_text()),
{
    let present = match c.stored_ref() {
        Some(e) => e.values.len() > 0,
        None => false,
    };
    if present {
        return BackfillStep::AlreadyEmbedded;
    }
    let text = c.embedding_text();
    if is_blank(text.as_str()) {
        BackfillStep::Skip
    } else {
        BackfillStep::Embed(text)
    }
}

/// The result for a record that was to be embedded: a failed embedding or a failed
/// write is a failure, a write that matched nothing means the record was embedded
/// meanwhile.
pub fn settle(embedded: bool, write: WriteOutcome) -> (r: ProcessResult)
    ensures
        !embedded ==> r == ProcessResult::Failed,
        embedded ==> r == match write {
            WriteOutcome::Modified => ProcessResult::Success,
            WriteOutcome::NoMatch => ProcessResult::AlreadyExists,
            WriteOutcome::Error => ProcessResult::Failed,
        },
{
    if !embedded {
        ProcessResult::Failed
    } else {
        match write {
            WriteOutcome::Modified => ProcessResult::Success,
            WriteOutcome::NoMatch => ProcessResult::AlreadyExists,
            WriteOutcome::Error => ProcessResult::Failed,
        }
    }
}

impl BackfillSummary {
    /// A summary with nothing counted.
    pub fn new() -> (r: BackfillSummary)
        ensures
            r == (BackfillSummary { processed: 0, skipped: 0, already_embedded: 0, failed: 0 }),
    {
        BackfillSummary { processed: 0, skipped: 0, already_embedded: 0, failed: 0 }
    }

    /// The summary with one more record counted under `r`.
    pub open spec fn counted(self, r: ProcessResult) -> BackfillSummary {
        match r {
            ProcessResult::Success => BackfillSummary { processed: (self.processed + 1) as usize, ..self },
            ProcessResult::Skipped => BackfillSummary { skipped: (self.skipped + 1) as usize, ..self },
            ProcessResult::AlreadyExists => BackfillSummary {
                already_embedded: (self.already_embedded + 1) as usize,
                ..self
            },
            ProcessResult::Failed => BackfillSummary { failed: (self.failed + 1) as usize, ..self },
        }
    }

    /// The number of records counted.
    pub open spec fn total_spec(self) -> int {
        self.processed + self.skipped + self.already_embedded + self.failed
    }

    /// Counts one more record under `r`.
    pub fn record(&mut self, r: ProcessResult)
        requires
            old(self).total_spec() < usize::MAX,
        ensures
            *final(self) == old(self).counted(r),
    {
        match r {
            ProcessResult::Success => self.processed = self.processed + 1,
            ProcessResult::Skipped => self.skipped = self.skipped + 1,
            ProcessResult::AlreadyExists => self.already_embedded = self.already_embedded + 1,
            ProcessResult::Failed => self.failed = self.failed + 1,
        }
    }

    /// The number of records counted.
    pub fn total(&self) -> (r: usize)
        requires
            self.total_spec() <= usize::MAX,
        ensures
            r == self.total_spec(),
    {
        self.processed + self.skipped + self.already_embedded + self.failed
    }

    /// The counts of two runs together.
    pub fn combine(&self, other: &BackfillSummary) -> (r: BackfillSummary)
        requires
            self.total_spec() + other.total_spec() <= usize::MAX,
        ensures
            r.processed == self.processed + other.processed,
            r.skipped == self.skipped + other.skipped,
            r.already_embedded == self.already_embedded + other.already_embedded,
            r.failed == self.failed + other.failed,
    {
        BackfillSummary {
            processed: self.processed + other.processed,
            skipped: self.skipped + other.skipped,
            already_embedded: self.already_embedded + other.already_embedded,
            failed: self.failed + other.failed,
        }
    }
}

/// What becomes of record `c` in a run where the embedding service answered `v`
/// (`None`: it failed) and the store holds nothing else.
pub open spec fn pass_result<T: EmbeddingSource>(c: T, v: Option<Embedding>) -> ProcessResult {
    if has_vector(c) {
        ProcessResult::AlreadyExists
    } else if blank(c.source_text()) {
        ProcessResult::Skipped
    } else if v is Some {
        ProcessResult::Success
    } else {
        ProcessResult::Failed
    }
}

/// Record `c` after such a run.
pub open spec fn pass_entry<T: EmbeddingSource>(c: T, v: Option<Embedding>) -> T {
    if pass_result(c, v) == ProcessResult::Success {
        c.with_vector(v->0)
    } else {
        c
    }
}

/// The summary of such a run over the first `n` records.
pub open spec fn tally<T: EmbeddingSource>(cs: Seq<T>, vs: Seq<Option<Embedding>>, n: int) -> BackfillSummary
    decreases n,
{
    if n <= 0 {
        BackfillSummary { processed: 0, skipped: 0, already_embedded: 0, failed: 0 }
    } else {
        tally(cs, vs, n - 1).counted(pass_result(cs[n - 1], vs[n - 1]))
    }
}

proof fn lemma_tally_total<T: EmbeddingSource>(cs: Seq<T>, vs: Seq<Option<Embedding>>, n: int)
    requires
        n >= 0,
        n <= usize::MAX,
    ensures
        tally(cs, vs, n).total_spec() == n,
    decreases n,
{
    if n > 0 {
        lemma_tally_total(cs, vs, n - 1);
    }
}

/// One run of the job over an in-memory catalog, where `vectors[i]` is what the
/// embedding service answers for record `i` (`None`: it failed). Records with an
/// embedding or a blank text are left alone; the others get their embedding.
pub fn apply_pass<T: EmbeddingSource>(entries: &mut Vec<T>, vectors: Vec<Option<Embedding>>) -> (r: BackfillSummary)
    requires
        old(entries)@.len() == vectors@.len(),
    ensures
        final(entries)@.len() == old(entries)@.len(),
        forall|i: int|
            0 <= i < old(entries)@.len() ==> #[trigger] final(entries)@[i] == pass_entry(
                old(entries)@[i],
                vectors@[i],
            ),
        r == tally(old(entries)@, vectors@, old(entries)@.len() as int),
{
    let ghost orig = entries@;
    let ghost given = vectors@;
    let mut vectors = vectors;
    let mut summary = BackfillSummary::new();
    let mut i: usize = 0;
    while i < entries.len()
        invariant
            entries@.len() == orig.len() == vectors@.len() == given.len(),
            i <= orig.len(),
            forall|k: int| 0 <= k < i ==> #[trigger] entries@[k] == pass_entry(orig[k], given[k]),
            forall|k: int| i <= k < orig.len() ==> #[trigger] entries@[k] == orig[k],
            forall|k: int| i <= k < orig.len() ==> #[trigger] vectors@[k] == given[k],
            summary == tally(orig, given, i as int),
        decreases orig.len() - i,
    {
        proof {
            lemma_tally_total(orig, given, i as int);
        }
        let step = plan_entry(&entries[i]);
        let mut slot: Option<Embedding> = None;
        core::mem::swap(&mut slot, &mut vectors[i]);
        assert(slot == given[i as int]);
        let result = match step {
            BackfillStep::AlreadyEmbedded => ProcessResult::AlreadyExists,
            BackfillStep::Skip => ProcessResult::Skipped,
            BackfillStep::Embed(_) => match slot {
                Some(e) => {
                    entries[i].set_vector(e);
                    ProcessResult::Success
                },
                None => ProcessResult::Failed,
            },
        };
        summary.record(result);
        i = i + 1;
    }
    summary
}

/// Running the job a second time over the catalog that a first run left, when the
/// first run embedded every record it tried and skipped none, embeds nothing more:
/// every record counts as already embedded.
pub proof fn lemma_second_pass_idempotent<T: EmbeddingSource>(
    cs: Seq<T>,
    first: Seq<Option<Embedding>>,
    after: Seq<T>,
    second: Seq<Option<Embedding>>,
)
    requires
        cs.len() == first.len() == after.len() == second.len(),
        cs.len() <= usize::MAX,
        forall|i: int| 0 <= i < cs.len() ==> #[trigger] after[i] == pass_entry(cs[i], first[i]),
        forall|i: int|
            0 <= i < cs.len() ==> #[trigger] pass_result(cs[i], first[i]) != ProcessResult::Skipped
                && pass_result(cs[i], first[i]) != ProcessResult::Failed,
        forall|i: int| 0 <= i < cs.len() ==> (#[trigger] first[i] matches Some(v) ==> v.values@.len() > 0),
    ensures
        tally(after, second, after.len() as int).processed == 0,
        tally(after, second, after.len() as int).already_embedded == after.len(),
{
    assert forall|i: int| 0 <= i < after.len() implies #[trigger] pass_result(after[i], second[i])
        == ProcessResult::AlreadyExists by {
        let c = cs[i];
        assert(pass_result(c, first[i]) != ProcessResult::Skipped);
        assert(pass_result(c, first[i]) != ProcessResult::Failed);
        if !has_vector(c) {
            assert(first[i] is Some);
            c.lemma_with_vector(first[i]->0);
            assert(after[i] == c.with_vector(first[i]->0));
        }
    }
    lemma_all_already(after, second, after.len() as int);
}

proof fn lemma_all_already<T: EmbeddingSource>(cs: Seq<T>, vs: Seq<Option<Embedding>>, n: int)
    requires
        0 <= n <= cs.len(),
        n <= usize::MAX,
        forall|i: int| 0 <= i < cs.len() ==> #[trigger] pass_result(cs[i], vs[i]) == ProcessResult::AlreadyExists,
    ensures
        tally(cs, vs, n).processed == 0,
        tally(cs, vs, n).already_embedded == n,
    decreases n,
{
    if n > 0 {
        lemma_all_already(cs, vs, n - 1);
        assert(pass_result(cs[n - 1], vs[n - 1]) == ProcessResult::AlreadyExists);
    }
}

} // verus!

use vstd::prelude::*;
use crate::codec::{fastq_block, is_nul_free, named_lines, named_response_lines, nul_free, prepare_fastq};
use crate::record::{
    aligned_mate_flags, completes_pair, first_mates, has_flag, is_unaligned_record, lemma_pair_flags,
    partition_by_mate, second_mates, with_flags, AlignmentRecord, FLAG_UNMAPPED, NO_ALIGNMENT, NO_POSITION,
};

verus! {

/// Why an alignment call gives no records.
#[derive(Clone, Copy, Debug, PartialEq, Eq, Structural)]
pub enum AlignError {
    /// A read or its qualities hold a NUL byte, which the engine's text
    /// protocol cannot carry.
    NulInInput,
    /// The engine answered with nothing.
    EngineFailure,
}

/// What a single-read call does next.
#[derive(Debug)]
pub enum ReadStep {
    /// The read is empty: these records stand for it, and the engine is not
    /// asked.
    Synthesized(Vec<AlignmentRecord>),
    /// The first request buffer holds the read for the engine.
    Engine,
}

/// What a read-pair call does next.
#[derive(Clone, Copy, Debug, PartialEq, Eq, Structural)]
pub enum PairStep {
    /// Both reads are empty: nothing to align.
    Neither,
    /// Only the first read is aligned, on its own.
    FirstOnly,
    /// Only the second read is aligned, on its own.
    SecondOnly,
    /// The two request buffers hold the two mates for the engine.
    Both,
}

/// `r` stands for a read with no alignment: unmapped, at the
/// no-alignment contig and position, with no mate position.
pub open spec fn unmapped_at_sentinel(r: AlignmentRecord) -> bool {
    &&& has_flag(r.flags, FLAG_UNMAPPED)
    &&& r.tid == NO_ALIGNMENT
    &&& r.pos == NO_POSITION
    &&& r.mtid == NO_ALIGNMENT
    &&& r.mpos == NO_POSITION
}

/// An empty read yields exactly one record, unmapped at the no-alignment
/// contig and position, whether it is aligned alone (`single`) or with an
/// empty mate (`first`, `second`, built from the unmapped record `e` of
/// the second read).
pub proof fn lemma_empty_read_unmapped(
    single: Seq<AlignmentRecord>,
    first: Seq<AlignmentRecord>,
    second: Seq<AlignmentRecord>,
    e: AlignmentRecord,
    name: Seq<u8>,
    qual: Seq<u8>,
    qual1: Seq<u8>,
    qual2: Seq<u8>,
)
    requires
        single.len() == 1,
        is_unaligned_record(single[0], name, Seq::empty(), qual),
        is_unaligned_record(e, name, Seq::empty(), qual2),
        completes_pair(seq![e], second, first, name, Seq::empty(), qual1, false),
    ensures
        first.len() == 1 && second.len() == 1,
        unmapped_at_sentinel(single[0]),
        unmapped_at_sentinel(first[0]),
        unmapped_at_sentinel(second[0]),
{
    assert(FLAG_UNMAPPED & FLAG_UNMAPPED != 0) by (bit_vector);
    assert(seq![e][0] == e);
    assert(second[0] == with_flags(e, aligned_mate_flags(e.flags, false)));
    assert(is_unaligned_record(with_flags(first[0], FLAG_UNMAPPED), name, Seq::empty(), qual1));
    lemma_pair_flags(e.flags, false);
}

/// The request buffers of one alignment context, reused from call to call.
pub struct AlignmentScratch {
    fastq1: Vec<u8>,
    fastq2: Vec<u8>,
}

impl AlignmentScratch {
    /// The request for the first (or only) read.
    pub closed spec fn request1(&self) -> Seq<u8> {
        self.fastq1@
    }

    /// The request for the second read of a pair.
    pub closed spec fn request2(&self) -> Seq<u8> {
        self.fastq2@
    }

    pub fn new() -> (r: AlignmentScratch)
        ensures
            r.request1().len() == 0,
            r.request2().len() == 0,
    {
        AlignmentScratch { fastq1: Vec::new(), fastq2: Vec::new() }
    }

    /// The request for the first (or only) read, NUL-terminated.
    pub fn fastq1(&self) -> (r: &[u8])
        ensures
            r@ == self.request1(),
    {
        self.fastq1.as_slice()
    }

    /// The request for the second read of a pair, NUL-terminated.
    pub fn fastq2(&self) -> (r: &[u8])
        ensures
            r@ == self.request2(),
    {
        self.fastq2.as_slice()
    }

    /// Writes `read` into the first request buffer, unless it cannot pass
    /// the text protocol.
    pub fn load_read(&mut self, read: &[u8], qual: &[u8]) -> (r: Result<(), AlignError>)
        ensures
            nul_free(read@) && nul_free(qual@) ==> r is Ok && final(self).request1() == fastq_block(read@, qual@),
            !(nul_free(read@) && nul_free(qual@)) ==> r == Err::<(), AlignError>(AlignError::NulInInput)
                && *final(self) == *old(self),
            final(self).request2() == old(self).request2(),
    {
        if !(is_nul_free(read) && is_nul_free(qual)) {
            return Err(AlignError::NulInInput);
        }
        prepare_fastq(&mut self.fastq1, read, qual);
        Ok(())
    }

    /// Writes the two mates into the two request buffers, unless one cannot
    /// pass the text protocol.
    pub fn load_pair(&mut self, read1: &[u8], qual1: &[u8], read2: &[u8], qual2: &[u8]) -> (r: Result<
        (),
        AlignError,
    >)
        ensures
            ({
                let ok = nul_free(read1@) && nul_free(qual1@) && nul_free(read2@) && nul_free(qual2@);
                &&& ok ==> r is Ok && final(self).request1() == fastq_block(read1@, qual1@)
                    && final(self).request2() == fastq_block(read2@, qual2@)
                &&& !ok ==> r == Err::<(), AlignError>(AlignError::NulInInput) && *final(self) == *old(self)
            }),
    {
        if !(is_nul_free(read1) && is_nul_free(qual1) && is_nul_free(read2) && is_nul_free(qual2)) {
            return Err(AlignError::NulInInput);
        }
        prepare_fastq(&mut self.fastq1, read1, qual1);
        prepare_fastq(&mut self.fastq2, read2, qual2);
        Ok(())
    }

    /// Decides how one read is aligned: an empty read gets its unmapped
    /// record here; any other read is written into the first request
    /// buffer for the engine, unless it cannot pass the text protocol.
    pub fn begin_read(&mut self, name: &[u8], read: &[u8], qual: &[u8]) -> (r: Result<ReadStep, AlignError>)
        ensures
            read@.len() == 0 ==> (r matches Ok(ReadStep::Synthesized(recs)) && recs@.len() == 1
                && is_unaligned_record(recs@[0], name@, read@, qual@) && unmapped_at_sentinel(recs@[0])),
            read@.len() == 0 ==> *final(self) == *old(self),
            read@.len() > 0 && nul_free(read@) && nul_free(qual@) ==> (r matches Ok(ReadStep::Engine)
                && final(self).request1() == fastq_block(read@, qual@)),
            read@.len() > 0 && !(nul_free(read@) && nul_free(qual@)) ==> r == Err::<ReadStep, AlignError>(
                AlignError::NulInInput,
            ) && *final(self) == *old(self),
            final(self).request2() == old(self).request2(),
    {
        if read.len() == 0 {
            let mut recs: Vec<AlignmentRecord> = Vec::new();
            recs.push(AlignmentRecord::empty_record(name, read, qual));
            proof {
                assert(FLAG_UNMAPPED & FLAG_UNMAPPED != 0) by (bit_vector);
            }
            return Ok(ReadStep::Synthesized(recs));
        }
        match self.load_read(read, qual) {
            Ok(()) => Ok(ReadStep::Engine),
            Err(e) => Err(e),
        }
    }

    /// Decides how a read pair is aligned: a pair with an empty read has
    /// its other read aligned on its own; a pair of two non-empty reads is
    /// written into the two request buffers for the engine, unless one
    /// cannot pass the text protocol.
    pub fn begin_pair(&mut self, read1: &[u8], qual1: &[u8], read2: &[u8], qual2: &[u8]) -> (r: Result<
        PairStep,
        AlignError,
    >)
        ensures
            read1@.len() == 0 && read2@.len() == 0 ==> r == Ok::<PairStep, AlignError>(PairStep::Neither),
            read1@.len() == 0 && read2@.len() > 0 ==> r == Ok::<PairStep, AlignError>(PairStep::SecondOnly),
            read1@.len() > 0 && read2@.len() == 0 ==> r == Ok::<PairStep, AlignError>(PairStep::FirstOnly),
            read1@.len() == 0 || read2@.len() == 0 ==> *final(self) == *old(self),
            read1@.len() > 0 && read2@.len() > 0 ==> {
                if nul_free(read1@) && nul_free(qual1@) && nul_free(read2@) && nul_free(qual2@) {
                    &&& r == Ok::<PairStep, AlignError>(PairStep::Both)
                    &&& final(self).request1() == fastq_block(read1@, qual1@)
                    &&& final(self).request2() == fastq_block(read2@, qual2@)
                } else {
                    r == Err::<PairStep, AlignError>(AlignError::NulInInput) && *final(self) == *old(self)
                }
            },
    {
        if read1.len() == 0 && read2.len() == 0 {
            Ok(PairStep::Neither)
        } else if read1.len() == 0 {
            Ok(PairStep::SecondOnly)
        } else if read2.len() == 0 {
            Ok(PairStep::FirstOnly)
        } else {
            match self.load_pair(read1, qual1, read2, qual2) {
                Ok(()) => Ok(PairStep::Both),
                Err(e) => Err(e),
            }
        }
    }
}

/// The alignment lines of an engine answer, each with the read name put in
/// front; no answer, or an empty one, is an engine failure.
pub fn response_lines(name: &[u8], response: Option<&[u8]>) -> (r: Result<Vec<Vec<u8>>, AlignError>)
    ensures
        response is None ==> r == Err::<Vec<Vec<u8>>, AlignError>(AlignError::EngineFailure),
        response matches Some(t) ==> if t@.len() == 0 {
            r == Err::<Vec<Vec<u8>>, AlignError>(AlignError::EngineFailure)
        } else {
            r matches Ok(lines) && lines@.map_values(|l: Vec<u8>| l@) == named_lines(name@, t@)
        },
{
    match response {
        None => Err(AlignError::EngineFailure),
        Some(t) => {
            if t.len() == 0 {
                Err(AlignError::EngineFailure)
            } else {
                Ok(named_response_lines(name, t))
            }
        },
    }
}

/// The records of a read pair, first mate and second mate, once the
/// engine's records `aligned` are known: the records of the one non-empty
/// read where the other is empty, or those of the whole pair otherwise
/// (ignored where both reads are empty).
pub fn pair_records(
    name: &[u8],
    read1: &[u8],
    qual1: &[u8],
    read2: &[u8],
    qual2: &[u8],
    aligned: Vec<AlignmentRecord>,
) -> (r: (Vec<AlignmentRecord>, Vec<AlignmentRecord>))
    ensures
        read1@.len() == 0 && read2@.len() == 0 ==> {
            &&& r.0@.len() == 1
            &&& r.1@.len() == 1
            &&& unmapped_at_sentinel(r.0@[0])
            &&& unmapped_at_sentinel(r.1@[0])
            &&& exists|e: AlignmentRecord|
                is_unaligned_record(e, name@, read2@, qual2@) && completes_pair(
                    seq![e],
                    r.1@,
                    r.0@,
                    name@,
                    read1@,
                    qual1@,
                    false,
                )
        },
        read1@.len() == 0 && read2@.len() > 0 ==> completes_pair(
            aligned@,
            r.1@,
            r.0@,
            name@,
            read1@,
            qual1@,
            false,
        ),
        read1@.len() > 0 && read2@.len() == 0 ==> completes_pair(
            aligned@,
            r.0@,
            r.1@,
            name@,
            read2@,
            qual2@,
            true,
        ),
        read1@.len() > 0 && read2@.len() > 0 ==> r.0@ == first_mates(aligned@) && r.1@ == second_mates(
            aligned@,
        ),
{
    if read1.len() == 0 {
        let mut recs2: Vec<AlignmentRecord> = if read2.len() == 0 {
            let mut v: Vec<AlignmentRecord> = Vec::new();
            v.push(AlignmentRecord::empty_record(name, read2, qual2));
            v
        } else {
            aligned
        };
        let ghost before = recs2@;
        let recs1 = AlignmentRecord::empty_records(name, read1, qual1, &mut recs2, false);
        proof {
            assert(completes_pair(before, recs2@, recs1@, name@, read1@, qual1@, false));
            if read2@.len() == 0 {
                assert(is_unaligned_record(before[0], name@, read2@, qual2@) && before =~= seq![before[0]]);
                if read1@.len() == 0 {
                    assert(read1@ =~= Seq::<u8>::empty() && read2@ =~= Seq::<u8>::empty());
                    lemma_empty_read_unmapped(before, recs1@, recs2@, before[0], name@, qual2@, qual1@, qual2@);
                }
            }
        }
        (recs1, recs2)
    } else if read2.len() == 0 {
        let mut recs1 = aligned;
        let recs2 = AlignmentRecord::empty_records(name, read2, qual2, &mut recs1, true);
        (recs1, recs2)
    } else {
        partition_by_mate(aligned)
    }
}

} // verus!

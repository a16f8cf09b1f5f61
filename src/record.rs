use vstd::prelude::*;
use vstd::slice::slice_to_vec;

verus! {

/// The read is one of a pair.
pub const FLAG_PAIRED: u16 = 0x1;

/// The read has no alignment.
pub const FLAG_UNMAPPED: u16 = 0x4;

/// The read's mate has no alignment.
pub const FLAG_MATE_UNMAPPED: u16 = 0x8;

/// The read aligns to the reverse strand.
pub const FLAG_REVERSE: u16 = 0x10;

/// The read is the first of its template.
pub const FLAG_FIRST_IN_TEMPLATE: u16 = 0x40;

/// The read is the last of its template.
pub const FLAG_LAST_IN_TEMPLATE: u16 = 0x80;

/// The alignment is not the primary one.
pub const FLAG_SECONDARY: u16 = 0x100;

/// The alignment is a supplementary part of a chimeric alignment.
pub const FLAG_SUPPLEMENTARY: u16 = 0x800;

/// The contig id and position that mark "no alignment".
pub const NO_ALIGNMENT: i32 = -1;

/// The position that marks "no alignment".
pub const NO_POSITION: i64 = -1;

/// One alignment record: where a read lies on the reference, how, and the
/// read itself. Positions are 0-based; `tid` indexes the contig header.
#[derive(Clone, Debug)]
pub struct AlignmentRecord {
    pub qname: Vec<u8>,
    pub flags: u16,
    pub tid: i32,
    pub pos: i64,
    pub mapq: u8,
    /// Packed CIGAR operations: length in the high 28 bits, operation in the low 4.
    pub cigar: Vec<u32>,
    pub mtid: i32,
    pub mpos: i64,
    pub insert_size: i64,
    pub seq: Vec<u8>,
    /// Phred-scaled qualities, without offset.
    pub qual: Vec<u8>,
    /// The engine response line this record was decoded from, counted from
    /// 0 among the non-empty lines; `None` for a record made here.
    pub line: Option<usize>,
}

pub open spec fn has_flag(flags: u16, bit: u16) -> bool {
    flags & bit != 0
}

/// `r` is the record that stands for a read with no alignment.
pub open spec fn is_unaligned_record(r: AlignmentRecord, name: Seq<u8>, read: Seq<u8>, qual: Seq<u8>) -> bool {
    &&& r.qname@ == name
    &&& r.seq@ == read
    &&& r.qual@ == qual
    &&& r.flags == FLAG_UNMAPPED
    &&& r.tid == NO_ALIGNMENT
    &&& r.pos == NO_POSITION
    &&& r.mtid == NO_ALIGNMENT
    &&& r.mpos == NO_POSITION
    &&& r.mapq == 0
    &&& r.cigar@.len() == 0
    &&& r.insert_size == 0
    &&& r.line is None
}

/// The same record with other flags.
pub open spec fn with_flags(r: AlignmentRecord, flags: u16) -> AlignmentRecord {
    AlignmentRecord { flags, ..r }
}

/// The flags an aligned mate ends with once its partner is known to be an
/// empty read: paired, mate-unmapped (the partner never aligns), and on the
/// side of the template that `aligned_first` names, the other side's bit
/// cleared.
pub open spec fn aligned_mate_flags(flags: u16, aligned_first: bool) -> u16 {
    if aligned_first {
        (flags & !FLAG_LAST_IN_TEMPLATE) | FLAG_PAIRED | FLAG_FIRST_IN_TEMPLATE | FLAG_MATE_UNMAPPED
    } else {
        (flags & !FLAG_FIRST_IN_TEMPLATE) | FLAG_PAIRED | FLAG_LAST_IN_TEMPLATE | FLAG_MATE_UNMAPPED
    }
}

/// The flags of the record synthesized for an empty read whose mate aligned
/// with `flags`: unmapped and paired, secondary and supplementary as the
/// mate is, on the other side of the template, and mate-unmapped exactly
/// when the mate is unmapped.
pub open spec fn partner_flags(flags: u16, aligned_first: bool) -> u16 {
    let base = FLAG_UNMAPPED | FLAG_PAIRED | (flags & (FLAG_SECONDARY | FLAG_SUPPLEMENTARY));
    let side = if aligned_first {
        base | FLAG_LAST_IN_TEMPLATE
    } else {
        base | FLAG_FIRST_IN_TEMPLATE
    };
    if has_flag(flags, FLAG_UNMAPPED) {
        side | FLAG_MATE_UNMAPPED
    } else {
        side
    }
}

/// `partners` is what an empty read gets beside the records `before` of its
/// aligned mate, which become `after`: one unmapped partner per record, and
/// the mate's records marked as paired. `aligned_first` tells whether the
/// aligned mate is the first of the template.
pub open spec fn completes_pair(
    before: Seq<AlignmentRecord>,
    after: Seq<AlignmentRecord>,
    partners: Seq<AlignmentRecord>,
    name: Seq<u8>,
    read: Seq<u8>,
    qual: Seq<u8>,
    aligned_first: bool,
) -> bool {
    &&& after.len() == before.len()
    &&& partners.len() == before.len()
    &&& forall|i: int|
        0 <= i < before.len() ==> {
            &&& #[trigger] after[i] == with_flags(before[i], aligned_mate_flags(before[i].flags, aligned_first))
            &&& is_unaligned_record(with_flags(partners[i], FLAG_UNMAPPED), name, read, qual)
            &&& partners[i].flags == partner_flags(before[i].flags, aligned_first)
        }
}

/// The records of `s` that are first in their template, in order.
pub open spec fn first_mates(s: Seq<AlignmentRecord>) -> Seq<AlignmentRecord>
    decreases s.len(),
{
    if s.len() == 0 {
        s
    } else if has_flag(s.last().flags, FLAG_FIRST_IN_TEMPLATE) {
        first_mates(s.drop_last()).push(s.last())
    } else {
        first_mates(s.drop_last())
    }
}

/// The records of `s` that are not first in their template, in order.
pub open spec fn second_mates(s: Seq<AlignmentRecord>) -> Seq<AlignmentRecord>
    decreases s.len(),
{
    if s.len() == 0 {
        s
    } else if has_flag(s.last().flags, FLAG_FIRST_IN_TEMPLATE) {
        second_mates(s.drop_last())
    } else {
        second_mates(s.drop_last()).push(s.last())
    }
}

impl AlignmentRecord {
    /// An unmapped record for `read`: no contig, no position, no mate.
    pub fn empty_record(name: &[u8], read: &[u8], qual: &[u8]) -> (r: AlignmentRecord)
        ensures
            is_unaligned_record(r, name@, read@, qual@),
    {
        AlignmentRecord {
            qname: slice_to_vec(name),
            flags: FLAG_UNMAPPED,
            tid: NO_ALIGNMENT,
            pos: NO_POSITION,
            mapq: 0,
            cigar: Vec::new(),
            mtid: NO_ALIGNMENT,
            mpos: NO_POSITION,
            insert_size: 0,
            seq: slice_to_vec(read),
            qual: slice_to_vec(qual),
            line: None,
        }
    }

    /// For a pair whose other read is empty, marks each record of the
    /// aligned mate as paired and returns one unmapped partner for each, in
    /// the same order. `aligned_first` tells whether the aligned mate is the
    /// first of the template.
    pub fn empty_records(
        name: &[u8],
        read: &[u8],
        qual: &[u8],
        alns: &mut Vec<AlignmentRecord>,
        aligned_first: bool,
    ) -> (recs: Vec<AlignmentRecord>)
        ensures
            completes_pair(old(alns)@, final(alns)@, recs@, name@, read@, qual@, aligned_first),
    {
        let mut recs: Vec<AlignmentRecord> = Vec::new();
        let mut i: usize = 0;
        while i < alns.len()
            invariant
                0 <= i <= alns@.len(),
                alns@.len() == old(alns)@.len(),
                recs@.len() == i,
                forall|j: int| i <= j < alns@.len() ==> #[trigger] alns@[j] == old(alns)@[j],
                forall|j: int|
                    0 <= j < i ==> {
                        &&& #[trigger] alns@[j] == with_flags(
                            old(alns)@[j],
                            aligned_mate_flags(old(alns)@[j].flags, aligned_first),
                        )
                        &&& is_unaligned_record(with_flags(recs@[j], FLAG_UNMAPPED), name@, read@, qual@)
                        &&& recs@[j].flags == partner_flags(old(alns)@[j].flags, aligned_first)
                    },
            decreases alns@.len() - i,
        {
            let mut rec = Self::empty_record(name, read, qual);
            let f = alns[i].flags;
            let kept = f & (FLAG_SECONDARY | FLAG_SUPPLEMENTARY);
            rec.flags = FLAG_UNMAPPED | FLAG_PAIRED | kept;
            let new_f: u16;
            if aligned_first {
                new_f = (f & !FLAG_LAST_IN_TEMPLATE) | FLAG_PAIRED | FLAG_FIRST_IN_TEMPLATE | FLAG_MATE_UNMAPPED;
                rec.flags = rec.flags | FLAG_LAST_IN_TEMPLATE;
            } else {
                new_f = (f & !FLAG_FIRST_IN_TEMPLATE) | FLAG_PAIRED | FLAG_LAST_IN_TEMPLATE | FLAG_MATE_UNMAPPED;
                rec.flags = rec.flags | FLAG_FIRST_IN_TEMPLATE;
            }
            if f & FLAG_UNMAPPED != 0 {
                rec.flags = rec.flags | FLAG_MATE_UNMAPPED;
            }
            alns[i].flags = new_f;
            recs.push(rec);
            i = i + 1;
        }
        recs
    }
}

/// The records synthesized for an empty read, and the aligned mate's own
/// records, carry the pairing flags: both are paired, each stands on its
/// own side of the template only, the aligned record is mate-unmapped, the
/// partner is unmapped and mate-unmapped exactly when the aligned record is
/// unmapped, and it is secondary or supplementary exactly when the aligned
/// record is.
pub proof fn lemma_pair_flags(flags: u16, aligned_first: bool)
    ensures
        ({
            let p = partner_flags(flags, aligned_first);
            let a = aligned_mate_flags(flags, aligned_first);
            &&& has_flag(p, FLAG_PAIRED) && has_flag(p, FLAG_UNMAPPED)
            &&& has_flag(p, FLAG_FIRST_IN_TEMPLATE) == !aligned_first
            &&& has_flag(p, FLAG_LAST_IN_TEMPLATE) == aligned_first
            &&& has_flag(p, FLAG_MATE_UNMAPPED) == has_flag(flags, FLAG_UNMAPPED)
            &&& has_flag(p, FLAG_SECONDARY) == has_flag(flags, FLAG_SECONDARY)
            &&& has_flag(p, FLAG_SUPPLEMENTARY) == has_flag(flags, FLAG_SUPPLEMENTARY)
            &&& has_flag(a, FLAG_PAIRED) && has_flag(a, FLAG_MATE_UNMAPPED)
            &&& has_flag(a, FLAG_FIRST_IN_TEMPLATE) == aligned_first
            &&& has_flag(a, FLAG_LAST_IN_TEMPLATE) == !aligned_first
            &&& has_flag(a, FLAG_UNMAPPED) == has_flag(flags, FLAG_UNMAPPED)
            &&& has_flag(a, FLAG_SECONDARY) == has_flag(flags, FLAG_SECONDARY)
            &&& has_flag(a, FLAG_SUPPLEMENTARY) == has_flag(flags, FLAG_SUPPLEMENTARY)
        }),
{
    let f = flags;
    let kept = f & (FLAG_SECONDARY | FLAG_SUPPLEMENTARY);
    let side: u16 = if aligned_first { FLAG_LAST_IN_TEMPLATE } else { FLAG_FIRST_IN_TEMPLATE };
    let m: u16 = if has_flag(flags, FLAG_UNMAPPED) { FLAG_MATE_UNMAPPED } else { 0 };
    let p = partner_flags(flags, aligned_first);
    assert(p == (FLAG_UNMAPPED | FLAG_PAIRED | kept) | side | m) by {
        let q = (FLAG_UNMAPPED | FLAG_PAIRED | kept) | side;
        assert(q | 0u16 == q) by (bit_vector);
    }
    assert({
        &&& p & 0x1u16 != 0
        &&& p & 0x4u16 != 0
        &&& (p & 0x40u16 != 0) == (side == 0x40u16)
        &&& (p & 0x80u16 != 0) == (side == 0x80u16)
        &&& (p & 0x8u16 != 0) == (m == 0x8u16)
        &&& (p & 0x100u16 != 0) == (f & 0x100u16 != 0)
        &&& (p & 0x800u16 != 0) == (f & 0x800u16 != 0)
    }) by (bit_vector)
        requires
            side == 0x40u16 || side == 0x80u16,
            m == 0u16 || m == 0x8u16,
            kept == f & (0x100u16 | 0x800u16),
            p == (0x4u16 | 0x1u16 | kept) | side | m,
    ;
    let a = aligned_mate_flags(flags, aligned_first);
    if aligned_first {
        assert(a & 0x1u16 != 0 && a & 0x8u16 != 0 && a & 0x40u16 != 0 && a & 0x80u16 == 0 && (a & 0x4u16
            != 0) == (f & 0x4u16 != 0) && (a & 0x100u16 != 0) == (f & 0x100u16 != 0) && (a & 0x800u16 != 0)
            == (f & 0x800u16 != 0)) by (bit_vector)
            requires
                a == (f & !0x80u16) | 0x1u16 | 0x40u16 | 0x8u16,
        ;
    } else {
        assert(a & 0x1u16 != 0 && a & 0x8u16 != 0 && a & 0x80u16 != 0 && a & 0x40u16 == 0 && (a & 0x4u16
            != 0) == (f & 0x4u16 != 0) && (a & 0x100u16 != 0) == (f & 0x100u16 != 0) && (a & 0x800u16 != 0)
            == (f & 0x800u16 != 0)) by (bit_vector)
            requires
                a == (f & !0x40u16) | 0x1u16 | 0x80u16 | 0x8u16,
        ;
    }
}

/// Splitting by the template flag keeps every record exactly once: the
/// first group holds the records flagged first in template, the second
/// group the others, whatever their sequences.
pub proof fn lemma_partition_by_flag(s: Seq<AlignmentRecord>)
    ensures
        first_mates(s).len() + second_mates(s).len() == s.len(),
        forall|i: int|
            0 <= i < first_mates(s).len() ==> has_flag(#[trigger] first_mates(s)[i].flags, FLAG_FIRST_IN_TEMPLATE)
                && s.contains(first_mates(s)[i]),
        forall|i: int|
            0 <= i < second_mates(s).len() ==> !has_flag(#[trigger] second_mates(s)[i].flags, FLAG_FIRST_IN_TEMPLATE)
                && s.contains(second_mates(s)[i]),
    decreases s.len(),
{
    if s.len() > 0 {
        let p = s.drop_last();
        lemma_partition_by_flag(p);
        assert forall|r: AlignmentRecord| p.contains(r) implies s.contains(r) by {
            let j = choose|j: int| 0 <= j < p.len() && p[j] == r;
            assert(s[j] == r);
        }
        assert(s[s.len() - 1] == s.last());
        let f = first_mates(s);
        let g = second_mates(s);
        let fp = first_mates(p);
        let gp = second_mates(p);
        assert forall|i: int| 0 <= i < f.len() implies has_flag(#[trigger] f[i].flags, FLAG_FIRST_IN_TEMPLATE)
            && s.contains(f[i]) by {
            if i < fp.len() {
                assert(f[i] == fp[i]);
                assert(has_flag(fp[i].flags, FLAG_FIRST_IN_TEMPLATE));
                assert(p.contains(fp[i]));
            } else {
                assert(f[i] == s[s.len() - 1]);
            }
        }
        assert forall|i: int| 0 <= i < g.len() implies !has_flag(#[trigger] g[i].flags, FLAG_FIRST_IN_TEMPLATE)
            && s.contains(g[i]) by {
            if i < gp.len() {
                assert(g[i] == gp[i]);
                assert(!has_flag(gp[i].flags, FLAG_FIRST_IN_TEMPLATE));
                assert(p.contains(gp[i]));
            } else {
                assert(g[i] == s[s.len() - 1]);
            }
        }
    }
}

/// Moves the record at `i` out of `recs`, leaving an empty placeholder.
fn take_record(recs: &mut Vec<AlignmentRecord>, i: usize) -> (r: AlignmentRecord)
    requires
        i < old(recs)@.len(),
    ensures
        r == old(recs)@[i as int],
        final(recs)@.len() == old(recs)@.len(),
        forall|j: int| 0 <= j < old(recs)@.len() && j != i ==> #[trigger] final(recs)@[j] == old(recs)@[j],
{
    let mut r = AlignmentRecord::empty_record(&[], &[], &[]);
    std::mem::swap(&mut recs[i], &mut r);
    r
}

/// Splits the records of a pair's alignment by the template flag each
/// carries: first mates, then all others, each group in the given order.
pub fn partition_by_mate(mut recs: Vec<AlignmentRecord>) -> (r: (Vec<AlignmentRecord>, Vec<AlignmentRecord>))
    ensures
        r.0@ == first_mates(recs@),
        r.1@ == second_mates(recs@),
{
    let mut first: Vec<AlignmentRecord> = Vec::new();
    let mut second: Vec<AlignmentRecord> = Vec::new();
    let ghost orig = recs@;
    let mut i: usize = 0;
    while i < recs.len()
        invariant
            0 <= i <= recs@.len(),
            recs@.len() == orig.len(),
            forall|j: int| i <= j < orig.len() ==> #[trigger] recs@[j] == orig[j],
            first@ == first_mates(orig.subrange(0, i as int)),
            second@ == second_mates(orig.subrange(0, i as int)),
        decreases orig.len() - i,
    {
        let rec = take_record(&mut recs, i);
        proof {
            assert(orig.subrange(0, i + 1).drop_last() =~= orig.subrange(0, i as int));
        }
        if rec.flags & FLAG_FIRST_IN_TEMPLATE != 0 {
            first.push(rec);
        } else {
            second.push(rec);
        }
        i = i + 1;
    }
    proof {
        assert(orig.subrange(0, i as int) =~= orig);
    }
    (first, second)
}

} // verus!

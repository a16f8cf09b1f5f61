use star::aligner::{pair_records, response_lines, AlignError, AlignmentScratch, PairStep, ReadStep};
use star::record::{
    partition_by_mate, AlignmentRecord, FLAG_FIRST_IN_TEMPLATE, FLAG_LAST_IN_TEMPLATE, FLAG_MATE_UNMAPPED,
    FLAG_PAIRED, FLAG_REVERSE, FLAG_SECONDARY, FLAG_SUPPLEMENTARY, FLAG_UNMAPPED,
};

fn aligned(flags: u16, tid: i32, pos: i64, seq: &[u8]) -> AlignmentRecord {
    AlignmentRecord {
        qname: b"NAME".to_vec(),
        flags,
        tid,
        pos,
        mapq: 3,
        cigar: vec![(seq.len() as u32) << 4],
        mtid: -1,
        mpos: -1,
        insert_size: 0,
        seq: seq.to_vec(),
        qual: vec![30; seq.len()],
        line: Some(pos as usize),
    }
}

#[test]
fn empty_record_is_unmapped_with_sentinels() {
    let r = AlignmentRecord::empty_record(b"a", b"", b"");
    assert_eq!(r.qname, b"a".to_vec());
    assert_eq!(r.flags, FLAG_UNMAPPED);
    assert_eq!((r.tid, r.pos, r.mtid, r.mpos), (-1, -1, -1, -1));
    assert_eq!(r.mapq, 0);
    assert!(r.cigar.is_empty() && r.seq.is_empty() && r.qual.is_empty());
    assert_eq!(r.line, None);
}

#[test]
fn empty_read_is_synthesized_not_sent() {
    let mut s = AlignmentScratch::new();
    match s.begin_read(b"NAME", b"", b"") {
        Ok(ReadStep::Synthesized(recs)) => {
            assert_eq!(recs.len(), 1);
            assert_eq!(recs[0].flags, FLAG_UNMAPPED);
            assert_eq!((recs[0].tid, recs[0].pos), (-1, -1));
        }
        other => panic!("unexpected {:?}", other),
    }
    assert!(s.fastq1().is_empty());
}

#[test]
fn non_empty_read_goes_to_the_engine() {
    let mut s = AlignmentScratch::new();
    match s.begin_read(b"b", b"A", b"?") {
        Ok(ReadStep::Engine) => {}
        other => panic!("unexpected {:?}", other),
    }
    assert_eq!(s.fastq1(), b"@a\nA\n+\n?\n\0");
    assert!(matches!(s.begin_read(b"b", b"A\0", b"??"), Err(AlignError::NulInInput)));
    assert!(matches!(s.begin_read(b"b", b"A", b"\0"), Err(AlignError::NulInInput)));
}

#[test]
fn pair_routes_by_which_read_is_empty() {
    let mut s = AlignmentScratch::new();
    assert_eq!(s.begin_pair(b"", b"", b"", b""), Ok(PairStep::Neither));
    assert_eq!(s.begin_pair(b"", b"", b"C", b"?"), Ok(PairStep::SecondOnly));
    assert_eq!(s.begin_pair(b"A", b"?", b"", b""), Ok(PairStep::FirstOnly));
    assert_eq!(s.begin_pair(b"A", b"?", b"C", b"#"), Ok(PairStep::Both));
    assert_eq!(s.fastq1(), b"@a\nA\n+\n?\n\0");
    assert_eq!(s.fastq2(), b"@a\nC\n+\n#\n\0");
    assert_eq!(s.begin_pair(b"A", b"?", b"C\0", b"##"), Err(AlignError::NulInInput));
}

#[test]
fn load_read_and_pair_fill_requests() {
    let mut s = AlignmentScratch::new();
    assert_eq!(s.load_read(b"GG", b"DD"), Ok(()));
    assert_eq!(s.fastq1(), b"@a\nGG\n+\nDD\n\0");
    assert_eq!(s.load_pair(b"A", b"1", b"T", b"2"), Ok(()));
    assert_eq!(s.fastq1(), b"@a\nA\n+\n1\n\0");
    assert_eq!(s.fastq2(), b"@a\nT\n+\n2\n\0");
    assert_eq!(s.load_read(b"\0", b"D"), Err(AlignError::NulInInput));
    assert_eq!(s.fastq1(), b"@a\nA\n+\n1\n\0");
}

#[test]
fn null_or_empty_response_is_engine_failure() {
    assert_eq!(response_lines(b"n", None), Err(AlignError::EngineFailure));
    assert_eq!(response_lines(b"n", Some(b"")), Err(AlignError::EngineFailure));
    assert_eq!(response_lines(b"n", Some(b"\t4\t*\n")), Ok(vec![b"n\t4\t*".to_vec()]));
}

#[test]
fn every_line_carries_the_read_name() {
    let resp = b"\t0\t39\t28\t3\t15M\n\t272\t72\t554\t3\t15M\n";
    let lines = response_lines(b"NAME", Some(resp)).unwrap();
    assert_eq!(lines.len(), 2);
    for l in &lines {
        assert!(l.starts_with(b"NAME\t"));
    }
}

#[test]
fn both_empty_reads_give_one_unmapped_record_each() {
    let (r1, r2) = pair_records(b"a", b"", b"", b"", b"", Vec::new());
    assert_eq!(r1.len(), 1);
    assert_eq!(r2.len(), 1);
    assert_eq!(r1[0].flags, FLAG_UNMAPPED | FLAG_PAIRED | FLAG_FIRST_IN_TEMPLATE | FLAG_MATE_UNMAPPED);
    assert_eq!(r2[0].flags, FLAG_UNMAPPED | FLAG_PAIRED | FLAG_LAST_IN_TEMPLATE | FLAG_MATE_UNMAPPED);
    let single = AlignmentRecord::empty_record(b"a", b"", b"");
    for r in [&r1[0], &r2[0]] {
        assert_eq!((r.tid, r.pos, r.mtid, r.mpos), (single.tid, single.pos, single.mtid, single.mpos));
        assert!(r.flags & FLAG_UNMAPPED != 0);
    }
}

#[test]
fn empty_second_read_gets_one_partner_per_alignment() {
    let alns = vec![
        aligned(0, 39, 27, b"AACTTAATGGACGGG"),
        aligned(FLAG_REVERSE | FLAG_SECONDARY, 72, 553, b"CCCGTCCATTAAGTT"),
    ];
    let (r1, r2) = pair_records(b"n", b"AACTTAATGGACGGG", b"???????????????", b"", b"", alns);
    assert_eq!(r1.len(), 2);
    assert_eq!(r2.len(), 2);
    assert_eq!(r1[0].flags, FLAG_PAIRED | FLAG_FIRST_IN_TEMPLATE | FLAG_MATE_UNMAPPED);
    assert_eq!(
        r1[1].flags,
        FLAG_REVERSE | FLAG_SECONDARY | FLAG_PAIRED | FLAG_FIRST_IN_TEMPLATE | FLAG_MATE_UNMAPPED
    );
    assert_eq!((r1[1].tid, r1[1].pos), (72, 553));
    assert_eq!(r2[0].flags, FLAG_UNMAPPED | FLAG_PAIRED | FLAG_LAST_IN_TEMPLATE);
    assert_eq!(r2[1].flags, FLAG_UNMAPPED | FLAG_PAIRED | FLAG_LAST_IN_TEMPLATE | FLAG_SECONDARY);
    assert_eq!((r2[1].tid, r2[1].pos), (-1, -1));
    assert_eq!(r2[1].qname, b"n".to_vec());
}

#[test]
fn empty_first_read_mirrors_unmapped_mate() {
    let alns = vec![aligned(FLAG_UNMAPPED, -1, -1, b"C"), aligned(FLAG_SUPPLEMENTARY, 3, 9, b"CC")];
    let (r1, r2) = pair_records(b"c", b"", b"", b"CC", b"??", alns);
    assert_eq!(r1.len(), 2);
    assert_eq!(r2.len(), 2);
    assert_eq!(r2[0].flags, FLAG_UNMAPPED | FLAG_PAIRED | FLAG_LAST_IN_TEMPLATE | FLAG_MATE_UNMAPPED);
    assert_eq!(r2[1].flags, FLAG_SUPPLEMENTARY | FLAG_PAIRED | FLAG_LAST_IN_TEMPLATE | FLAG_MATE_UNMAPPED);
    assert_eq!(
        r1[0].flags,
        FLAG_UNMAPPED | FLAG_PAIRED | FLAG_FIRST_IN_TEMPLATE | FLAG_MATE_UNMAPPED
    );
    assert_eq!(r1[1].flags, FLAG_UNMAPPED | FLAG_PAIRED | FLAG_FIRST_IN_TEMPLATE | FLAG_SUPPLEMENTARY);
}

#[test]
fn empty_second_read_with_unmapped_mate_is_mate_unmapped() {
    let alns = vec![aligned(FLAG_UNMAPPED, -1, -1, b"G")];
    let (r1, r2) = pair_records(b"g", b"G", b"D", b"", b"", alns);
    assert_eq!(r1[0].flags, FLAG_UNMAPPED | FLAG_PAIRED | FLAG_FIRST_IN_TEMPLATE | FLAG_MATE_UNMAPPED);
    assert_eq!(r2[0].flags, FLAG_UNMAPPED | FLAG_PAIRED | FLAG_LAST_IN_TEMPLATE | FLAG_MATE_UNMAPPED);
}

#[test]
fn aligned_read_with_no_records_gets_no_partners() {
    let (r1, r2) = pair_records(b"x", b"A", b"?", b"", b"", Vec::new());
    assert!(r1.is_empty() && r2.is_empty());
}

#[test]
fn pair_split_uses_the_template_flag_not_the_sequence() {
    let read1: &[u8] = b"GTATAAACAAAAATCC";
    let read2: &[u8] = b"GAGTTGTGTAAAGTGG";
    let recs = vec![
        aligned(163, 0, 24647210, read2),
        aligned(83, 0, 24647323, b"GGATTTTTGTTTATAC"),
        // a secondary alignment whose reported bases differ from both reads
        aligned(FLAG_SECONDARY | 0x41, 5, 100, b"TTTTTTTTTTTTTTTT"),
        aligned(FLAG_SECONDARY | 0x81, 5, 300, read1),
    ];
    let (first, second) = pair_records(b"name", read1, b"FFFFFFFFFFFFFFFF", read2, b"FFFFFFFFFFFFFFFF", recs);
    assert_eq!(first.len(), 2);
    assert_eq!(first[0].flags, 83);
    assert_eq!(first[0].pos, 24647323);
    assert_eq!(first[1].pos, 100);
    assert_eq!(second.len(), 2);
    assert_eq!(second[0].flags, 163);
    assert_eq!(second[0].pos, 24647210);
    assert_eq!(second[1].pos, 300);
}

#[test]
fn partition_keeps_order_within_groups() {
    let recs = vec![
        aligned(0x80, 1, 1, b"A"),
        aligned(0x40, 1, 2, b"A"),
        aligned(0x40 | 0x100, 1, 3, b"A"),
        aligned(0, 1, 4, b"A"),
    ];
    let (f, s) = partition_by_mate(recs);
    assert_eq!(f.iter().map(|r| r.pos).collect::<Vec<_>>(), vec![2, 3]);
    assert_eq!(s.iter().map(|r| r.pos).collect::<Vec<_>>(), vec![1, 4]);
}

#[test]
fn empty_records_marks_both_sides() {
    let mut alns = vec![aligned(0, 0, 50, b"ACGT")];
    let partners = AlignmentRecord::empty_records(b"q", b"", b"", &mut alns, true);
    assert_eq!(alns[0].flags, FLAG_PAIRED | FLAG_FIRST_IN_TEMPLATE | FLAG_MATE_UNMAPPED);
    assert_eq!(alns[0].pos, 50);
    assert_eq!(alns[0].line, Some(50));
    assert_eq!(partners[0].line, None);
    assert_eq!(partners.len(), 1);
    assert_eq!(partners[0].flags, FLAG_UNMAPPED | FLAG_PAIRED | FLAG_LAST_IN_TEMPLATE);
}

#[test]
fn empty_first_read_marks_mapped_mate_as_mate_unmapped() {
    let alns = vec![aligned(0, 0, 500, b"GGAG")];
    let (r1, r2) = pair_records(b"m", b"", b"", b"GGAG", b"????", alns);
    assert_eq!(r2[0].flags, 0x89);
    assert_eq!(r2[0].flags, FLAG_PAIRED | FLAG_LAST_IN_TEMPLATE | FLAG_MATE_UNMAPPED);
    assert_eq!(r1[0].flags, FLAG_UNMAPPED | FLAG_PAIRED | FLAG_FIRST_IN_TEMPLATE);
}

#[test]
fn template_side_is_fixed_by_the_empty_read() {
    let mut alns = vec![aligned(FLAG_LAST_IN_TEMPLATE | FLAG_REVERSE, 0, 5, b"AC")];
    let partners = AlignmentRecord::empty_records(b"s", b"", b"", &mut alns, true);
    assert_eq!(alns[0].flags, FLAG_REVERSE | FLAG_PAIRED | FLAG_FIRST_IN_TEMPLATE | FLAG_MATE_UNMAPPED);
    assert_eq!(partners[0].flags, FLAG_UNMAPPED | FLAG_PAIRED | FLAG_LAST_IN_TEMPLATE);

    let mut alns = vec![aligned(FLAG_FIRST_IN_TEMPLATE, 0, 5, b"AC")];
    let partners = AlignmentRecord::empty_records(b"s", b"", b"", &mut alns, false);
    assert_eq!(alns[0].flags, FLAG_PAIRED | FLAG_LAST_IN_TEMPLATE | FLAG_MATE_UNMAPPED);
    assert_eq!(partners[0].flags, FLAG_UNMAPPED | FLAG_PAIRED | FLAG_FIRST_IN_TEMPLATE);
}

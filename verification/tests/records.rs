use rustools::PipelineError;
use rustools::Strand;
use rustools::bed::BedRecord;
use rustools::codon::{Codon, codon_complete, first_codon, last_codon};
use rustools::text::parse_u32;
use rustools::translate::move_pos;

fn single_exon_line() -> &'static str {
    "chr1\t0\t100\tTX1\t0\t+\t0\t100\t0\t1\t100,\t0,"
}

fn two_exon_line() -> &'static str {
    // exons [0,10) and [20,30), coding region [4,21)
    "chr1\t0\t30\tTX2\t0\t+\t4\t21\t0\t2\t10,10,\t0,20,"
}

#[test]
fn parse_reads_all_fields() {
    let r = BedRecord::parse(two_exon_line()).unwrap();
    assert_eq!(r.chrom, "chr1");
    assert_eq!(r.tx_start, 0);
    assert_eq!(r.tx_end, 30);
    assert_eq!(r.name, "TX2");
    assert!(matches!(r.strand, Strand::Plus));
    assert_eq!(r.cds_start, 4);
    assert_eq!(r.cds_end, 21);
    assert_eq!(r.exon_count, 2);
    assert_eq!(r.exon_start, vec![0, 20]);
    assert_eq!(r.exon_end, vec![10, 30]);
}

#[test]
fn parse_accepts_space_separated_fields() {
    let r = BedRecord::parse("chr2 5 50 TXS 0 - 5 50 0 1 45, 0,").unwrap();
    assert_eq!(r.chrom, "chr2");
    assert!(matches!(r.strand, Strand::Minus));
    assert_eq!(r.exon_start, vec![5]);
    assert_eq!(r.exon_end, vec![50]);
}

#[test]
fn parse_rejects_wrong_field_count() {
    let e = BedRecord::parse("chr1\t0\t100\tTX1").unwrap_err();
    assert!(matches!(e, PipelineError::MalformedRecord));
}

#[test]
fn parse_rejects_non_numeric_coordinate() {
    let e = BedRecord::parse("chr1\tzero\t100\tTX1\t0\t+\t0\t100\t0\t1\t100,\t0,").unwrap_err();
    assert!(matches!(e, PipelineError::MalformedRecord));
}

#[test]
fn parse_rejects_block_count_mismatch() {
    let e = BedRecord::parse("chr1\t0\t100\tTX1\t0\t+\t0\t100\t0\t2\t100,\t0,").unwrap_err();
    assert!(matches!(e, PipelineError::MalformedRecord));
}

#[test]
fn parse_rejects_empty_transcript() {
    // the transcript interval must not be empty
    let e = BedRecord::parse("chr1\t5\t5\tTX1\t0\t+\t5\t5\t0\t1\t0,\t0,").unwrap_err();
    assert!(matches!(e, PipelineError::MalformedRecord));
}

#[test]
fn parse_rejects_overlapping_exons() {
    let e = BedRecord::parse("chr1\t0\t30\tTX1\t0\t+\t0\t30\t0\t2\t15,10,\t0,10,").unwrap_err();
    assert!(matches!(e, PipelineError::MalformedRecord));
}

#[test]
fn parse_rejects_bad_strand() {
    let e = BedRecord::parse("chr1\t0\t100\tTX1\t0\t.\t0\t100\t0\t1\t100,\t0,").unwrap_err();
    assert!(matches!(e, PipelineError::MalformedRecord));
}

#[test]
fn parse_u32_reads_exact_values() {
    assert_eq!(parse_u32("0"), Some(0));
    assert_eq!(parse_u32("4294967295"), Some(u32::MAX));
    assert_eq!(parse_u32("4294967296"), None);
    assert_eq!(parse_u32(""), None);
    assert_eq!(parse_u32("12a"), None);
}

#[test]
fn frames_follow_consumed_bases() {
    // coding region [3,25): exon one contributes 7 bases, so exon two
    // starts with 7 consumed, and 7 mod 3 is 1
    let r = BedRecord::parse("chr1\t0\t30\tTXF\t0\t+\t3\t25\t0\t2\t10,10,\t0,20,").unwrap();
    let frames = r.get_frames();
    assert_eq!(frames, vec![0, 1]);
}

#[test]
fn frames_on_minus_strand_run_right_to_left() {
    // same layout on `-`: exon two is translated first; before exon one,
    // 5 bases were consumed, and 5 mod 3 is 2
    let r = BedRecord::parse("chr1\t0\t30\tTXR\t0\t-\t3\t25\t0\t2\t10,10,\t0,20,").unwrap();
    let frames = r.get_frames();
    assert_eq!(frames, vec![2, 0]);
}

#[test]
fn frames_mark_noncoding_exons() {
    let r = BedRecord::parse("chr1\t0\t30\tTXN\t0\t+\t20\t25\t0\t2\t10,10,\t0,20,").unwrap();
    let frames = r.get_frames();
    assert_eq!(frames, vec![3, 0]);
}

#[test]
fn first_codon_within_one_exon() {
    let r = BedRecord::parse(single_exon_line()).unwrap();
    let c = first_codon(&r).unwrap();
    assert_eq!((c.start, c.end), (0, 3));
    assert_eq!((c.start2, c.end2), (0, 0));
    assert_eq!(c.index, 0);
    assert!(codon_complete(&c));
}

#[test]
fn last_codon_split_across_junction() {
    // the stop codon's last base falls one base into exon two
    let r = BedRecord::parse(two_exon_line()).unwrap();
    let c = last_codon(&r).unwrap();
    assert_eq!((c.start, c.end), (8, 10));
    assert_eq!((c.start2, c.end2), (20, 21));
    assert_eq!(c.index, 0);
    assert!(codon_complete(&c));
}

#[test]
fn short_coding_region_gives_incomplete_codon() {
    let r = BedRecord::parse("chr1\t0\t100\tTXS2\t0\t+\t10\t12\t0\t1\t100,\t0,").unwrap();
    let c = first_codon(&r).unwrap();
    assert!(!codon_complete(&c));
    let l = last_codon(&r).unwrap();
    assert!(!codon_complete(&l));
}

#[test]
fn noncoding_record_gives_incomplete_codon() {
    let r = BedRecord::parse("chr1\t0\t100\tTXN2\t0\t+\t0\t0\t0\t1\t100,\t0,").unwrap();
    let c = first_codon(&r).unwrap();
    assert!(!codon_complete(&c));
}

#[test]
fn coding_region_off_the_exon_chain_is_unresolvable() {
    // the first coding base lies in the intron
    let r = BedRecord::parse("chr1\t0\t30\tTXI\t0\t+\t15\t25\t0\t2\t10,10,\t0,20,").unwrap();
    assert!(first_codon(&r).is_none());
}

#[test]
fn codon_completeness_counts_both_spans() {
    let whole = Codon { start: 10, end: 13, start2: 0, end2: 0, index: 0 };
    assert!(codon_complete(&whole));
    let split = Codon { start: 8, end: 10, start2: 20, end2: 21, index: 0 };
    assert!(codon_complete(&split));
    let short = Codon { start: 8, end: 10, start2: 0, end2: 0, index: 0 };
    assert!(!codon_complete(&short));
}

#[test]
fn move_pos_walks_within_an_exon() {
    let r = BedRecord::parse(single_exon_line()).unwrap();
    assert_eq!(move_pos(&r, 10, 5).unwrap(), 15);
    assert_eq!(move_pos(&r, 10, -5).unwrap(), 5);
}

#[test]
fn move_pos_skips_the_intron() {
    let r = BedRecord::parse(two_exon_line()).unwrap();
    // three bases forward from 8: 9, then the junction, then 20, 21
    assert_eq!(move_pos(&r, 8, 3).unwrap(), 21);
    assert_eq!(move_pos(&r, 21, -3).unwrap(), 8);
}

#[test]
fn move_pos_round_trip_returns_the_start() {
    let r = BedRecord::parse(two_exon_line()).unwrap();
    for p in [0u32, 5, 9, 20, 25] {
        for k in [1i32, 2, 3, 4] {
            let q = move_pos(&r, p, k).unwrap();
            assert_eq!(move_pos(&r, q, -k).unwrap(), p);
        }
    }
}

#[test]
fn move_pos_rejects_a_walk_off_the_transcript() {
    let r = BedRecord::parse(two_exon_line()).unwrap();
    let e = move_pos(&r, 25, 30).unwrap_err();
    assert!(matches!(e, PipelineError::CodonResolution));
    let e2 = move_pos(&r, 0, -1).unwrap_err();
    assert!(matches!(e2, PipelineError::CodonResolution));
}

#[test]
fn move_pos_rejects_a_position_off_the_chain() {
    let r = BedRecord::parse(two_exon_line()).unwrap();
    let e = move_pos(&r, 15, 1).unwrap_err();
    assert!(matches!(e, PipelineError::CodonResolution));
}

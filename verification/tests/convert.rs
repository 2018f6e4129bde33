use rustools::PipelineError;
use rustools::Strand;
use rustools::aggregate::{TxEntry, combine_maps_par, custom_par_parse};
use rustools::bed::BedRecord;
use rustools::convert::to_gxf;
use rustools::lines::Dialect;
use rustools::pipeline::{convert_to_gxf, dialect_from_name, parallel_parse};
use rustools::utils::{Hint, IsoPair, extract_tx_from_bed, lookup_gene, parallel_hash, parallel_hash_rev};

fn no_isoforms() -> Vec<IsoPair> {
    Vec::new()
}

#[test]
fn single_exon_transcript_emits_five_lines() {
    // the whole exon is coding: the stop codon is carved off the end
    let r = BedRecord::parse("chr1\t0\t100\tTX1\t0\t+\t0\t100\t0\t1\t100,\t0,").unwrap();
    let lines = to_gxf(&r, &no_isoforms(), Dialect::Gtf).unwrap();
    assert_eq!(lines.len(), 5);
    assert_eq!(lines[0].feature, "transcript");
    assert_eq!((lines[0].start, lines[0].end), (1, 100));
    assert_eq!(lines[1].feature, "exon");
    assert_eq!((lines[1].start, lines[1].end), (1, 100));
    assert_eq!(lines[2].feature, "CDS");
    assert_eq!((lines[2].start, lines[2].end), (1, 97));
    assert_eq!(lines[2].phase, "0");
    assert_eq!(lines[3].feature, "start_codon");
    assert_eq!((lines[3].start, lines[3].end), (1, 3));
    assert_eq!(lines[4].feature, "stop_codon");
    assert_eq!((lines[4].start, lines[4].end), (98, 100));
}

#[test]
fn split_stop_codon_emits_two_spans() {
    // exons [0,10) and [20,30), coding [4,21): the stop codon's last base
    // falls one base into exon two
    let r = BedRecord::parse("chr1\t0\t30\tTX2\t0\t+\t4\t21\t0\t2\t10,10,\t0,20,").unwrap();
    let lines = to_gxf(&r, &no_isoforms(), Dialect::Gtf).unwrap();
    let feats: Vec<&str> = lines.iter().map(|l| l.feature.as_str()).collect();
    assert_eq!(
        feats,
        vec!["transcript", "exon", "CDS", "exon", "start_codon", "stop_codon", "stop_codon"]
    );
    // the coding line of exon one excludes exactly the two codon bases it held
    assert_eq!((lines[2].start, lines[2].end), (5, 8));
    // primary span: two bases at the end of exon one
    assert_eq!((lines[5].start, lines[5].end), (9, 10));
    // secondary span: one base at the start of exon two
    assert_eq!((lines[6].start, lines[6].end), (21, 21));
}

#[test]
fn incomplete_codons_are_never_emitted() {
    // only two coding bases exist: no codon feature, no bound adjustment
    let r = BedRecord::parse("chr1\t0\t100\tTX3\t0\t+\t10\t12\t0\t1\t100,\t0,").unwrap();
    let lines = to_gxf(&r, &no_isoforms(), Dialect::Gtf).unwrap();
    let feats: Vec<&str> = lines.iter().map(|l| l.feature.as_str()).collect();
    assert_eq!(feats, vec!["transcript", "exon", "CDS"]);
    assert_eq!((lines[2].start, lines[2].end), (11, 12));
}

#[test]
fn minus_strand_swaps_codon_roles() {
    let r = BedRecord::parse("chr1\t0\t100\tTX4\t0\t-\t0\t100\t0\t1\t100,\t0,").unwrap();
    let lines = to_gxf(&r, &no_isoforms(), Dialect::Gtf).unwrap();
    let feats: Vec<&str> = lines.iter().map(|l| l.feature.as_str()).collect();
    assert_eq!(feats, vec!["transcript", "exon", "CDS", "start_codon", "stop_codon"]);
    // the genomically-right codon starts translation on `-`
    assert_eq!((lines[3].start, lines[3].end), (98, 100));
    // the genomically-left codon stops it, and the coding bounds move past it
    assert_eq!((lines[4].start, lines[4].end), (1, 3));
    assert_eq!((lines[2].start, lines[2].end), (4, 100));
}

#[test]
fn gtf_attributes_are_exact() {
    let r = BedRecord::parse("chr1\t0\t100\tTX1\t0\t+\t0\t100\t0\t1\t100,\t0,").unwrap();
    let lines = to_gxf(&r, &no_isoforms(), Dialect::Gtf).unwrap();
    assert_eq!(lines[0].attr, "gene_id \"TX1\"; transcript_id \"TX1\";");
    assert_eq!(
        lines[1].attr,
        "gene_id \"TX1\"; transcript_id \"TX1\"; exon_number \"1\"; exon_id \"TX1.1\";"
    );
}

#[test]
fn gff_attributes_are_exact() {
    let r = BedRecord::parse("chr1\t0\t100\tTX1\t0\t+\t0\t100\t0\t1\t100,\t0,").unwrap();
    let lines = to_gxf(&r, &no_isoforms(), Dialect::Gff).unwrap();
    assert_eq!(lines[0].attr, "ID=TX1;Parent=TX1;gene_id=TX1;transcript_id=TX1");
    assert_eq!(
        lines[1].attr,
        "ID=exon:TX1.1;Parent=TX1;gene_id=TX1;transcript_id=TX1;exon_number=1"
    );
}

#[test]
fn exon_numbering_descends_on_minus_strand() {
    let r = BedRecord::parse("chr1\t0\t30\tTX5\t0\t-\t0\t0\t0\t2\t10,10,\t0,20,").unwrap();
    let lines = to_gxf(&r, &no_isoforms(), Dialect::Gtf).unwrap();
    assert!(lines[1].attr.contains("exon_number \"2\""));
    assert!(lines[2].attr.contains("exon_number \"1\""));
}

#[test]
fn missing_gene_is_fatal() {
    let r = BedRecord::parse("chr1\t0\t100\tTX1\t0\t+\t0\t0\t0\t1\t100,\t0,").unwrap();
    let iso = vec![IsoPair { key: "OTHER".to_string(), value: "GeneA".to_string() }];
    let e = to_gxf(&r, &iso, Dialect::Gtf).unwrap_err();
    assert!(matches!(e, PipelineError::MissingGene));
}

#[test]
fn mapped_gene_name_is_used() {
    let r = BedRecord::parse("chr1\t0\t100\tTX1\t0\t+\t0\t0\t0\t1\t100,\t0,").unwrap();
    let iso = vec![IsoPair { key: "TX1".to_string(), value: "GeneA".to_string() }];
    let lines = to_gxf(&r, &iso, Dialect::Gtf).unwrap();
    assert_eq!(lines[0].attr, "gene_id \"GeneA\"; transcript_id \"TX1\";");
}

#[test]
fn reversed_columns_map_transcript_to_gene() {
    // the mapping file lists the gene first and the transcript second
    let pairs = parallel_hash_rev("GeneA TranscriptX");
    assert_eq!(pairs.len(), 1);
    assert_eq!(pairs[0].key, "TranscriptX");
    assert_eq!(pairs[0].value, "GeneA");
    let got = lookup_gene(&pairs, &"TranscriptX".to_string()).unwrap();
    assert_eq!(got, "GeneA");
}

#[test]
fn plain_columns_map_first_to_second() {
    let pairs = parallel_hash("k1 v1\nk2\tv2\nshort\n");
    assert_eq!(pairs.len(), 2);
    assert_eq!(pairs[0].key, "k1");
    assert_eq!(pairs[0].value, "v1");
    assert_eq!(pairs[1].key, "k2");
    assert_eq!(pairs[1].value, "v2");
}

#[test]
fn coordinate_table_keeps_first_seen() {
    let bed = "chr1\t0\t100\tTX1\t0\t+\t0\t0\t0\t1\t100,\t0,\nchr1\t200\t300\tTX1\t0\t+\t200\t200\t0\t1\t100,\t0,";
    let records = parallel_parse(bed).unwrap();
    let track = custom_par_parse(&records);
    assert_eq!(track.len(), 1);
    assert_eq!(track[0].name, "TX1");
    assert_eq!((track[0].start, track[0].end), (0, 100));
}

#[test]
fn gene_envelope_widens_over_transcripts() {
    let track = vec![
        TxEntry {
            name: "TX1".to_string(),
            chrom: "chr1".to_string(),
            start: 50,
            end: 100,
            strand: Strand::Plus,
        },
        TxEntry {
            name: "TX2".to_string(),
            chrom: "chr1".to_string(),
            start: 10,
            end: 80,
            strand: Strand::Plus,
        },
    ];
    let iso = vec![
        IsoPair { key: "TX1".to_string(), value: "GeneA".to_string() },
        IsoPair { key: "TX2".to_string(), value: "GeneA".to_string() },
    ];
    let lines = combine_maps_par(&iso, &track, Dialect::Gtf);
    assert_eq!(lines.len(), 1);
    assert_eq!(lines[0].feature, "gene");
    assert_eq!((lines[0].start, lines[0].end), (11, 100));
    assert_eq!(lines[0].attr, "gene_id \"GeneA\";");
}

#[test]
fn gene_envelope_is_order_independent() {
    let track = vec![
        TxEntry {
            name: "TX1".to_string(),
            chrom: "chr1".to_string(),
            start: 50,
            end: 100,
            strand: Strand::Plus,
        },
        TxEntry {
            name: "TX2".to_string(),
            chrom: "chr1".to_string(),
            start: 10,
            end: 80,
            strand: Strand::Plus,
        },
    ];
    let fwd = vec![
        IsoPair { key: "TX1".to_string(), value: "GeneA".to_string() },
        IsoPair { key: "TX2".to_string(), value: "GeneA".to_string() },
    ];
    let rev = vec![
        IsoPair { key: "TX2".to_string(), value: "GeneA".to_string() },
        IsoPair { key: "TX1".to_string(), value: "GeneA".to_string() },
    ];
    let a = combine_maps_par(&fwd, &track, Dialect::Gff);
    let b = combine_maps_par(&rev, &track, Dialect::Gff);
    assert_eq!(a.len(), 1);
    assert_eq!(b.len(), 1);
    assert_eq!((a[0].start, a[0].end), (b[0].start, b[0].end));
    assert_eq!(a[0].attr, b[0].attr);
    assert_eq!(a[0].attr, "ID=GeneA;gene_id=GeneA");
}

#[test]
fn output_orders_chromosomes_naturally() {
    // chr2 must come before chr10, though "chr10" sorts first as text
    let bed = "chr10\t0\t50\tA\t0\t+\t0\t0\t0\t1\t50,\t0,\nchr2\t0\t50\tB\t0\t+\t0\t0\t0\t1\t50,\t0,";
    let out = convert_to_gxf(bed, None, Dialect::Gtf, true).unwrap();
    assert_eq!(out.len(), 4);
    assert_eq!(
        out[0],
        "chr2\tbed2gxf\ttranscript\t1\t50\t.\t+\t.\tgene_id \"B\"; transcript_id \"B\";"
    );
    assert!(out[0].starts_with("chr2\t"));
    assert!(out[1].starts_with("chr2\t"));
    assert!(out[2].starts_with("chr10\t"));
    assert!(out[3].starts_with("chr10\t"));
}

#[test]
fn output_orders_by_start_within_a_chromosome() {
    let bed = "chr1\t500\t600\tA\t0\t+\t500\t500\t0\t1\t100,\t0,\nchr1\t0\t50\tB\t0\t+\t0\t0\t0\t1\t50,\t0,";
    let out = convert_to_gxf(bed, None, Dialect::Gtf, true).unwrap();
    assert_eq!(out.len(), 4);
    assert!(out[0].contains("\t1\t50\t"));
    assert!(out[2].contains("\t501\t600\t"));
}

#[test]
fn run_emits_gene_lines_from_the_mapping() {
    let bed = "chr1\t10\t90\tTX1\t0\t+\t10\t10\t0\t1\t80,\t0,";
    let out = convert_to_gxf(bed, Some("GeneA TX1"), Dialect::Gtf, false).unwrap();
    assert_eq!(out.len(), 3);
    assert_eq!(out[0], "chr1\tbed2gxf\tgene\t11\t90\t.\t+\t.\tgene_id \"GeneA\";");
}

#[test]
fn empty_isoform_map_is_reported() {
    let bed = "chr1\t0\t50\tA\t0\t+\t0\t0\t0\t1\t50,\t0,";
    let e = convert_to_gxf(bed, Some(""), Dialect::Gtf, false).unwrap_err();
    assert!(matches!(e, PipelineError::EmptyIsoformMap));
}

#[test]
fn malformed_line_aborts_the_run() {
    let bed = "chr1\t0\t50\tA\t0\t+\t0\t0\t0\t1\t50,\t0,\nnot a record";
    let e = convert_to_gxf(bed, None, Dialect::Gtf, true).unwrap_err();
    assert!(matches!(e, PipelineError::MalformedRecord));
}

#[test]
fn unresolvable_codon_aborts_the_run() {
    // a coding region whose first base lies in the intron
    let bed = "chr1\t0\t30\tTXI\t0\t+\t15\t25\t0\t2\t10,10,\t0,20,";
    let e = convert_to_gxf(bed, None, Dialect::Gtf, true).unwrap_err();
    assert!(matches!(e, PipelineError::CodonResolution));
}

#[test]
fn dialect_follows_the_output_extension() {
    assert_eq!(dialect_from_name("out.gtf").unwrap(), (Dialect::Gtf, false));
    assert_eq!(dialect_from_name("out.gff").unwrap(), (Dialect::Gff, false));
    assert_eq!(dialect_from_name("out.gff3").unwrap(), (Dialect::Gff, false));
    assert_eq!(dialect_from_name("out.gtf.gz").unwrap(), (Dialect::Gtf, true));
    assert_eq!(dialect_from_name("out.gff3.gz").unwrap(), (Dialect::Gff, true));
    let e = dialect_from_name("out.bed").unwrap_err();
    assert!(matches!(e, PipelineError::UnsupportedFormat));
}

#[test]
fn transcript_ids_come_back_deduplicated_in_order() {
    let bed = "chr1\t0\t50\tB\t0\t+\t0\t0\t0\t1\t50,\t0,\nchr1\t0\t50\tA\t0\t+\t0\t0\t0\t1\t50,\t0,\nchr1\t0\t50\tB\t0\t+\t0\t0\t0\t1\t50,\t0,";
    let txs = extract_tx_from_bed(bed).unwrap();
    assert_eq!(txs, vec!["B".to_string(), "A".to_string()]);
}

#[test]
fn hint_parses_its_two_names() {
    assert!(matches!(Hint::from_str("reference").unwrap(), Hint::Reference));
    assert!(matches!(Hint::from_str("query").unwrap(), Hint::Query));
    assert!(Hint::from_str("Reference").is_err());
    assert_eq!(Hint::from_str("query").unwrap().to_str(), "QUERY");
    assert_eq!(Hint::from_str("reference").unwrap().to_str(), "REFERENCE");
}

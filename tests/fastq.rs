use fefastq::{
    average_quality_at_index, calculate_fastq_quality_score, convert_ascii_to_score,
    get_average_quality_score, get_index_scores_and_count, parse_lines, quality_total,
    rayon_get_average_quality_score, rayon_get_average_quality_score_chunked, scaled_mean_sum,
    scaled_quality_mean, AggregationError, FastqParser, ParseError, Ratio, Record, MEAN_SCALE,
};

fn record(id: &str, seq: &str, qual: &str) -> Record {
    Record {
        id: id.to_string(),
        seq: seq.to_string(),
        plus: "+".to_string(),
        qual: qual.to_string(),
    }
}

fn record_with_qual(qual: &str) -> Record {
    let seq: String = qual.chars().map(|_| 'A').collect();
    record("@r", &seq, qual)
}

fn lines(text: &[&str]) -> Vec<String> {
    text.iter().map(|l| l.to_string()).collect()
}

fn value(r: Ratio) -> f64 {
    r.numer as f64 / r.denom as f64
}

fn qual_of_len(len: usize, symbol: char) -> String {
    std::iter::repeat(symbol).take(len).collect()
}

#[test]
fn test_index_count() {
    // The first file's two reads are 150 and 63 long, the second's 151 and 68.
    let f1 = vec![
        record_with_qual(&qual_of_len(150, 'I')),
        record_with_qual(&qual_of_len(63, '5')),
    ];
    let f2 = vec![
        record_with_qual(&qual_of_len(151, '?')),
        record_with_qual(&qual_of_len(68, '+')),
    ];
    let wanted_index_count_f1: Vec<usize> =
        (0..63).map(|_| 2).chain((63..150).map(|_| 1)).collect();
    let wanted_index_count_f2: Vec<usize> =
        (0..68).map(|_| 2).chain((68..151).map(|_| 1)).collect();

    let (index_count, _) = get_index_scores_and_count(&f1);
    assert_eq!(index_count, wanted_index_count_f1);
    let (index_count, _) = get_index_scores_and_count(&f2);
    assert_eq!(index_count, wanted_index_count_f2);
}

#[test]
fn test_average_index_qual() {
    let f1 = vec![
        record_with_qual(&qual_of_len(150, 'I')),
        record_with_qual(&qual_of_len(63, '5')),
    ];
    let f2 = vec![
        record_with_qual(&qual_of_len(68, '+')),
        record_with_qual(&qual_of_len(151, '?')),
    ];
    let f1_avg_index_qual = average_quality_at_index(&f1);
    let f2_avg_index_qual = average_quality_at_index(&f2);
    assert_eq!(f1_avg_index_qual.len(), 150);
    assert_eq!(f2_avg_index_qual.len(), 151);
    // 'I' is 40 and '5' is 20: both reads cover the first 63 positions.
    assert_eq!(f1_avg_index_qual[0], Ratio { numer: 60, denom: 2 });
    assert_eq!(f1_avg_index_qual[63], Ratio { numer: 40, denom: 1 });
    // '+' is 10 and '?' is 30.
    assert_eq!(f2_avg_index_qual[67], Ratio { numer: 40, denom: 2 });
    assert_eq!(f2_avg_index_qual[150], Ratio { numer: 30, denom: 1 });
}

#[test]
fn integrity_holds_for_equal_lengths_and_flips_when_broken() {
    let mut r = record("@a", "ACGT", "IIII");
    assert!(r.verify_integrity());
    r.seq = "ACG".to_string();
    assert!(!r.verify_integrity());
    let mut r = record("@a", "ACGT", "IIII");
    r.qual = "IIIII".to_string();
    assert!(!r.verify_integrity());
}

#[test]
fn integrity_counts_characters_not_bytes() {
    let r = record("@a", "AC", "éé");
    assert!(r.verify_integrity());
}

#[test]
fn new_record_is_empty_and_sound() {
    let r = Record::new();
    assert_eq!(r.id, "");
    assert_eq!(r.seq, "");
    assert_eq!(r.plus, "");
    assert_eq!(r.qual, "");
    assert!(r.verify_integrity());
}

#[test]
fn score_conversion_fixtures() {
    assert_eq!(convert_ascii_to_score('!'), 0);
    assert_eq!(convert_ascii_to_score('+'), 10);
    assert_eq!(convert_ascii_to_score('I'), 40);
    assert_eq!(convert_ascii_to_score(' '), -1);
    assert_eq!(convert_ascii_to_score('é'), 200);
}

#[test]
fn quality_total_sums_scores() {
    assert_eq!(quality_total("I+!"), 50);
    assert_eq!(quality_total(""), 0);
    assert_eq!(quality_total(" !"), -1);
}

#[test]
fn record_average_of_all_zero_line_is_zero() {
    let r = calculate_fastq_quality_score("!!!!").unwrap();
    assert_eq!(r, Ratio { numer: 0, denom: 4 });
    assert_eq!(value(r), 0.0);
}

#[test]
fn record_average_exact_value() {
    let r = calculate_fastq_quality_score("I!+").unwrap();
    assert_eq!(r, Ratio { numer: 50, denom: 3 });
}

#[test]
fn record_average_of_empty_line_is_error() {
    assert_eq!(calculate_fastq_quality_score(""), Err(AggregationError::EmptyInput));
}

#[test]
fn scaled_quality_mean_rounds_down() {
    // Scores 0, 1, 1: two thirds.
    assert_eq!(scaled_quality_mean("!\"\""), 666_666_666_666);
    // Scores -1, -1, 0: minus two thirds, rounded towards minus infinity.
    assert_eq!(scaled_quality_mean("  !"), -666_666_666_667);
    assert_eq!(scaled_quality_mean("I"), 40 * MEAN_SCALE);
}

#[test]
fn scaled_mean_sum_reports_empty_line() {
    let recs = vec![record_with_qual("II"), record_with_qual("")];
    assert_eq!(scaled_mean_sum(&recs), None);
    let recs = vec![record_with_qual("II"), record_with_qual("+")];
    assert_eq!(scaled_mean_sum(&recs), Some(50 * MEAN_SCALE));
}

#[test]
fn collection_average_exact_value() {
    let recs = vec![record_with_qual("II"), record_with_qual("!!!!")];
    let r = get_average_quality_score(&recs).unwrap();
    assert_eq!(r, Ratio { numer: 40 * MEAN_SCALE, denom: 2 * MEAN_SCALE });
    assert_eq!(value(r), 20.0);
}

#[test]
fn collection_average_of_nothing_is_error() {
    let recs: Vec<Record> = Vec::new();
    assert_eq!(get_average_quality_score(&recs), Err(AggregationError::EmptyInput));
    assert_eq!(rayon_get_average_quality_score(&recs), Err(AggregationError::EmptyInput));
}

#[test]
fn collection_average_with_empty_quality_is_error() {
    let recs = vec![record_with_qual("II"), record_with_qual("")];
    assert_eq!(get_average_quality_score(&recs), Err(AggregationError::EmptyInput));
    assert_eq!(rayon_get_average_quality_score(&recs), Err(AggregationError::EmptyInput));
    assert_eq!(
        rayon_get_average_quality_score_chunked(&recs, 1),
        Err(AggregationError::EmptyInput)
    );
}

fn varied_records(n: usize) -> Vec<Record> {
    let symbols = ['!', '+', '5', '?', 'I', '#', '('];
    (0..n)
        .map(|i| {
            let len = 1 + (i * 7) % 13;
            let qual: String = (0..len).map(|j| symbols[(i + j * 3) % symbols.len()]).collect();
            record_with_qual(&qual)
        })
        .collect()
}

fn check_parallel_matches_sequential(n: usize) {
    let recs = varied_records(n);
    let seq = get_average_quality_score(&recs).unwrap();
    for chunk_len in [1usize, 3, 64, 4096] {
        let par = rayon_get_average_quality_score_chunked(&recs, chunk_len).unwrap();
        assert_eq!(par, seq);
        assert!((value(par) - value(seq)).abs() < 1e-9);
    }
    assert_eq!(rayon_get_average_quality_score(&recs).unwrap(), seq);
}

#[test]
fn parallel_matches_sequential_one_record() {
    check_parallel_matches_sequential(1);
}

#[test]
fn parallel_matches_sequential_two_records() {
    check_parallel_matches_sequential(2);
}

#[test]
fn parallel_matches_sequential_thousand_records() {
    check_parallel_matches_sequential(1000);
}

#[test]
fn parallel_matches_sequential_hundred_thousand_records() {
    check_parallel_matches_sequential(100_000);
}

#[test]
fn parallel_average_exact_value() {
    let recs = vec![record_with_qual("II"), record_with_qual("!!!!"), record_with_qual("+")];
    let r = rayon_get_average_quality_score_chunked(&recs, 2).unwrap();
    assert_eq!(r, Ratio { numer: 50 * MEAN_SCALE, denom: 3 * MEAN_SCALE });
}

#[test]
fn positional_average_with_unequal_lengths() {
    let recs = vec![record_with_qual("!!!!"), record_with_qual("!!")];
    let avg = average_quality_at_index(&recs);
    assert_eq!(avg.len(), 4);
    assert_eq!(avg[0], Ratio { numer: 0, denom: 2 });
    assert_eq!(avg[1], Ratio { numer: 0, denom: 2 });
    assert_eq!(avg[2], Ratio { numer: 0, denom: 1 });
    assert_eq!(avg[3], Ratio { numer: 0, denom: 1 });
    for r in &avg {
        assert_eq!(value(*r), 0.0);
    }
}

#[test]
fn positional_average_does_not_pad_with_zeros() {
    let recs = vec![record_with_qual("II"), record_with_qual("+++")];
    let avg = average_quality_at_index(&recs);
    assert_eq!(
        avg,
        vec![
            Ratio { numer: 50, denom: 2 },
            Ratio { numer: 50, denom: 2 },
            Ratio { numer: 10, denom: 1 },
        ]
    );
    let (counts, sums) = get_index_scores_and_count(&recs);
    assert_eq!(counts, vec![2, 2, 1]);
    assert_eq!(sums, vec![50, 50, 10]);
}

#[test]
fn positional_average_of_nothing_is_empty() {
    let recs: Vec<Record> = Vec::new();
    assert!(average_quality_at_index(&recs).is_empty());
}

#[test]
fn parse_well_formed_input() {
    let input = lines(&["@r1", "ACGT", "+", "IIII", "@r2", "AC", "+r2", "!!"]);
    let recs = parse_lines(input).unwrap();
    assert_eq!(recs.len(), 2);
    assert_eq!(recs[0].id, "@r1");
    assert_eq!(recs[0].seq, "ACGT");
    assert_eq!(recs[0].plus, "+");
    assert_eq!(recs[0].qual, "IIII");
    assert_eq!(recs[1].id, "@r2");
    assert_eq!(recs[1].plus, "+r2");
    assert_eq!(recs[1].qual, "!!");
}

#[test]
fn parse_empty_input_gives_no_records() {
    assert_eq!(parse_lines(Vec::new()).unwrap().len(), 0);
}

#[test]
fn parse_fails_fast_on_length_mismatch() {
    let input = lines(&["@r1", "ACGT", "+", "III"]);
    assert_eq!(parse_lines(input).unwrap_err(), ParseError::InvalidRecord { line: 3 });
}

#[test]
fn parse_reports_line_of_later_bad_record() {
    let input = lines(&["@r1", "ACGT", "+", "IIII", "@r2", "AC", "+", "!", "@r3", "A", "+", "!"]);
    assert_eq!(parse_lines(input).unwrap_err(), ParseError::InvalidRecord { line: 7 });
}

#[test]
fn parse_three_lines_is_truncated() {
    let input = lines(&["@r1", "ACGT", "+"]);
    assert_eq!(parse_lines(input).unwrap_err(), ParseError::TruncatedInput);
}

#[test]
fn parse_record_then_partial_group_is_truncated() {
    let input = lines(&["@r1", "ACGT", "+", "IIII", "@r2", "AC"]);
    assert_eq!(parse_lines(input).unwrap_err(), ParseError::TruncatedInput);
}

#[test]
fn streaming_parser_matches_batch_parse() {
    let mut p = FastqParser::new();
    for l in ["@r1", "ACGT", "+", "IIII"] {
        p.push_line(l.to_string()).unwrap();
    }
    assert_eq!(p.line_count(), 4);
    let recs = p.finish().unwrap();
    assert_eq!(recs.len(), 1);
    assert_eq!(recs[0].qual, "IIII");

    let mut p = FastqParser::new();
    p.push_line("@r1".to_string()).unwrap();
    p.push_line("AC".to_string()).unwrap();
    p.push_line("+".to_string()).unwrap();
    assert_eq!(p.push_line("I".to_string()), Err(ParseError::InvalidRecord { line: 3 }));
}

#[test]
fn record_text_has_four_lines() {
    let r = record("@r1", "ACGT", "IIII");
    assert_eq!(r.to_fastq_text(), "@r1\nACGT\n+\nIIII\n");
}

#[test]
fn replacing_separator_keeps_record_sound() {
    let mut r = record("@r1", "ACGT", "IIII");
    r.plus = "+r1".to_string();
    r.set_separator("+".to_string());
    assert_eq!(r.plus, "+");
    assert_eq!(r.seq, "ACGT");
    assert_eq!(r.qual, "IIII");
    assert!(r.verify_integrity());
}

// Trace files: reading them, replaying their cases, and finding the case behind a wrong count.

use fixed_wgsl::batch::{batch16, batch48, Buffers48, Op16, Op48, Variant};
use fixed_wgsl::bytes::u32s_from_bytes;
use fixed_wgsl::layout::{input_binding, output_binding, Kind, Module};
use fixed_wgsl::numeral::{parse_unsigned, write_decimal, write_hex};
use fixed_wgsl::replay::{
    expected_saturations, expected_words, first_mismatch, input_buffers, judge, value_words,
    Verdict,
};
use fixed_wgsl::search::Search;
use fixed_wgsl::text::{
    chars_of, is_whitespace, lines, split_on, split_whitespace, string_of, strip_prefix, trim,
};
use fixed_wgsl::trace::{read_trace, Trace, TraceError};
use fixed_wgsl::wide::Wide;

const ADD16: &str = "# trace of add16\n\
# in q16 q16\r\n\
# out q16 sat\n\
\n\
00000001 00000002 00000003 0\n\
7fffffff 00000001 7fffffff 1\n\
80000000 ffffffff 80000000 1";

fn words_of(text: &str) -> Vec<String> {
    split_whitespace(&chars_of(text)).iter().map(string_of).collect()
}

#[test]
fn trace_text_is_read_into_columns_and_rows() {
    let trace: Trace = read_trace(ADD16).unwrap();
    assert_eq!(trace.inputs, vec![Kind::Q16, Kind::Q16]);
    assert_eq!(trace.outputs, vec![Kind::Q16, Kind::Sat]);
    assert_eq!(
        trace.rows,
        vec![
            vec![1, 2, 3, 0],
            vec![0x7fff_ffff, 1, 0x7fff_ffff, 1],
            vec![0x8000_0000, 0xffff_ffff, 0x8000_0000, 1],
        ]
    );
    assert_eq!(trace.output_kind(), Some(Kind::Q16));
    assert_eq!(trace.output_words(), Some(1));
    assert_eq!(trace.sat_column(), Some(3));
}

#[test]
fn trace_errors_name_their_line_and_field() {
    assert_eq!(
        read_trace("# in q16 q17\n").unwrap_err(),
        TraceError::UnknownColumn { line: 0, field: 1 }
    );
    assert_eq!(
        read_trace("# in q16\n# out q16 sat\n1 2 x\n").unwrap_err(),
        TraceError::BadSat { line: 2, field: 2 }
    );
    assert_eq!(
        read_trace("# in q16\n# out q16 sat\n1 g 0\n").unwrap_err(),
        TraceError::BadHex { line: 2, field: 1 }
    );
    assert_eq!(
        read_trace("# in q16\n# out q16 sat\n1 2\n").unwrap_err(),
        TraceError::FieldCount { line: 2 }
    );
    assert_eq!(read_trace("# in q16\n# out q16 sat\n").unwrap_err(), TraceError::NoCases);
    assert_eq!(read_trace("").unwrap_err(), TraceError::NoCases);
    // Bad fields are met before missing ones, and a count is decimal.
    assert_eq!(
        read_trace("# in q16\n# out q16 sat\nzz\n").unwrap_err(),
        TraceError::BadHex { line: 2, field: 0 }
    );
    assert_eq!(
        read_trace("# out sat\nff\n").unwrap_err(),
        TraceError::BadSat { line: 1, field: 0 }
    );
    // A blank line that holds white space is a case without fields.
    assert_eq!(
        read_trace("# in q16\n \n").unwrap_err(),
        TraceError::FieldCount { line: 1 }
    );
    // Sixteen hex digits fill a value; seventeen do not fit.
    assert_eq!(
        read_trace("# in q48\n10000000000000000\n").unwrap_err(),
        TraceError::BadHex { line: 1, field: 0 }
    );
}

#[test]
fn trace_fields_beyond_the_last_column_are_ignored() {
    let trace = read_trace("# in q48\n# out sat\nffffffffffffffff +7 junk\n").unwrap();
    assert_eq!(trace.rows, vec![vec![u64::MAX, 7]]);
    // A header without a blank after its word is a comment.
    let trace = read_trace("# in q16\n# in\n# outer\n5\n").unwrap();
    assert_eq!(trace.inputs, vec![Kind::Q16]);
    assert_eq!(trace.outputs, vec![]);
    assert_eq!(trace.rows, vec![vec![5]]);
    // A later header changes the columns of later cases alone.
    let trace = read_trace("# in q16\n5\n# in q16 q16\n6 7\n").unwrap();
    assert_eq!(trace.rows, vec![vec![5], vec![6, 7]]);
}

#[test]
fn trace_with_other_than_one_result_has_no_output_kind() {
    let trace = read_trace("# in q16\n# out sat\n1 0\n").unwrap();
    assert_eq!(trace.output_kind(), None);
    assert_eq!(trace.output_words(), None);
    let trace = read_trace("# in q16\n# out q16 q48\n1 2 3\n").unwrap();
    assert_eq!(trace.output_kind(), None);
    assert_eq!(trace.sat_column(), None);
}

#[test]
fn trace_cases_are_written_the_way_the_file_writes_them() {
    let text = "# in q48 q16\n# out q32 mask sat\n0000000000000001 ffffffff 8000000000000000 00000000 12\n";
    let trace = read_trace(text).unwrap();
    let line = text.lines().last().unwrap();
    assert_eq!(trace.format_case(&trace.rows[0]), line);
    // Written and read again, a case is the same case.
    let again = format!("# in q48 q16\n# out q32 mask sat\n{}", trace.format_case(&trace.rows[0]));
    assert_eq!(read_trace(&again).unwrap().rows, trace.rows);
    // Only the low word of a 32-bit column is written.
    assert_eq!(trace.format_case(&[7, 0x1_0000_0002]), "0000000000000007 00000002");
    assert_eq!(trace.format_case(&[]), "");
}

#[test]
fn numerals_match_the_standard_library() {
    for v in [0u64, 1, 9, 10, 99, 1234567890, u64::MAX] {
        assert_eq!(string_of(&write_decimal(v)), v.to_string());
        assert_eq!(string_of(&write_hex(v, 16)), format!("{v:016x}"));
        assert_eq!(string_of(&write_hex(v, 8)), format!("{:08x}", v as u32));
    }
    for text in [
        "", "+", "-", "-0", "+0", "0", "00012", "++1", "1 ", " 1", "4294967295", "4294967296",
        "18446744073709551615", "18446744073709551616", "99999999999999999999999", "abc", "1_0",
    ] {
        assert_eq!(parse_unsigned(&chars_of(text), 10, u64::MAX), text.parse::<u64>().ok());
        assert_eq!(
            parse_unsigned(&chars_of(text), 10, u32::MAX as u64),
            text.parse::<u32>().ok().map(u64::from)
        );
    }
    for text in ["", "+ff", "FF", "fF", "g", "0x1", "ffffffffffffffff", "10000000000000000"] {
        assert_eq!(
            parse_unsigned(&chars_of(text), 16, u64::MAX),
            u64::from_str_radix(text, 16).ok()
        );
    }
}

#[test]
fn text_is_split_as_the_standard_library_splits_it() {
    for c in '\0'..=char::MAX {
        assert_eq!(is_whitespace(c), c.is_whitespace());
    }
    for text in [
        "", "\n", "\n\n", "a", "a\n", "a\r\n", "a\r", "a\r\r\n", "\r\n", "a\nb", "a\n\nb\n", "\r",
        "x\ry\n z", "é\n\u{a0}",
    ] {
        let got: Vec<String> = lines(&chars_of(text)).iter().map(string_of).collect();
        let want: Vec<String> = text.lines().map(str::to_string).collect();
        assert_eq!(got, want, "lines of {text:?}");
    }
    for text in ["", " ", "a", " a", "a ", "a b", " a  b\t", "\u{a0}a\u{2003}b\u{3000}", "é ü"] {
        let want: Vec<String> = text.split_whitespace().map(str::to_string).collect();
        assert_eq!(words_of(text), want, "words of {text:?}");
        assert_eq!(string_of(&trim(&chars_of(text))), text.trim());
    }
    for text in ["", ",", "a", "a,b", ",a,,b,"] {
        let got: Vec<String> = split_on(&chars_of(text), ',').iter().map(string_of).collect();
        let want: Vec<String> = text.split(',').map(str::to_string).collect();
        assert_eq!(got, want, "pieces of {text:?}");
    }
    let stripped = strip_prefix(&chars_of("# in q16"), "# in ");
    assert_eq!(stripped.map(|rest| string_of(&rest)), Some("q16".to_string()));
    assert_eq!(strip_prefix(&chars_of("# in"), "# in "), None);
}

#[test]
fn kinds_have_names_and_widths() {
    for (name, kind, words) in [
        ("q16", Kind::Q16, 1),
        ("q32", Kind::Q32, 2),
        ("q48", Kind::Q48, 2),
        ("mask", Kind::Mask, 1),
        ("sat", Kind::Sat, 0),
    ] {
        assert_eq!(Kind::parse(&chars_of(name)), Some(kind));
        assert_eq!(kind.words(), words);
    }
    assert_eq!(Kind::parse(&chars_of("Q16")), None);
    assert_eq!(value_words(Kind::Q16, 0x1_0000_0005), vec![5]);
    assert_eq!(value_words(Kind::Q48, 0x1_0000_0005), vec![5, 1]);
}

#[test]
fn bindings_follow_the_module() {
    assert_eq!(input_binding(Module::Batch16, Kind::Q16, 0), Some(1));
    assert_eq!(input_binding(Module::Batch16, Kind::Q16, 1), Some(2));
    assert_eq!(input_binding(Module::Batch16, Kind::Q16, 2), None);
    assert_eq!(input_binding(Module::Batch16, Kind::Q48, 0), None);
    assert_eq!(input_binding(Module::Batch48, Kind::Q48, 1), Some(2));
    assert_eq!(input_binding(Module::Batch48, Kind::Q16, 0), Some(5));
    assert_eq!(input_binding(Module::Batch48, Kind::Q16, 1), Some(6));
    assert_eq!(input_binding(Module::Batch48, Kind::Q32, 0), Some(8));
    assert_eq!(input_binding(Module::Batch48, Kind::Q32, 1), None);
    assert_eq!(input_binding(Module::Batch48, Kind::Sat, 0), None);
    assert_eq!(output_binding(Module::Batch16, Kind::Mask), Some(0));
    assert_eq!(output_binding(Module::Batch16, Kind::Q32), None);
    assert_eq!(output_binding(Module::Batch48, Kind::Q48), Some(0));
    assert_eq!(output_binding(Module::Batch48, Kind::Q16), Some(4));
    assert_eq!(output_binding(Module::Batch48, Kind::Mask), Some(4));
    assert_eq!(output_binding(Module::Batch48, Kind::Q32), Some(7));
    assert_eq!(output_binding(Module::Batch48, Kind::Sat), None);
}

#[test]
fn replaying_a_trace_on_the_reference_agrees() {
    let trace = read_trace(ADD16).unwrap();
    let inputs = match input_buffers(&trace, Module::Batch16, &trace.rows) {
        Ok(inputs) => inputs,
        Err(column) => panic!("no binding for column {column}"),
    };
    assert_eq!((inputs[0].binding, inputs[1].binding), (1, 2));
    assert_eq!(u32s_from_bytes(&inputs[0].bytes), vec![1, 0x7fff_ffff, 0x8000_0000]);

    let a: Vec<i32> = trace.rows.iter().map(|row| row[0] as i32).collect();
    let b: Vec<i32> = trace.rows.iter().map(|row| row[1] as i32).collect();
    let batch = batch16(Variant::Portable, Op16::Add, &a, &b);
    let got: Vec<u32> = batch.dst.iter().map(|&v| v as u32).collect();
    let want = expected_words(&trace, &trace.rows);
    let count = expected_saturations(&trace, &trace.rows).unwrap();
    assert_eq!(count, 2);
    let sat = [batch.telemetry.saturations, batch.telemetry.faults];
    assert_eq!(judge(&got, &want, 1, sat, count), Verdict::Agrees);
}

#[test]
fn replaying_a_mixed_trace_routes_every_column() {
    let text = "# in q48 q16 q16\n# out q48 sat\n\
                0000000000010000 00010000 ffff0000 0000000000000000 0\n\
                7fffffffffffffff 00010000 00010000 7fffffffffffffff 1\n";
    let trace = read_trace(text).unwrap();
    let inputs = match input_buffers(&trace, Module::Batch48, &trace.rows) {
        Ok(inputs) => inputs,
        Err(column) => panic!("no binding for column {column}"),
    };
    let bindings: Vec<u32> = inputs.iter().map(|input| input.binding).collect();
    assert_eq!(bindings, vec![1, 5, 6]);
    assert_eq!(u32s_from_bytes(&inputs[0].bytes), vec![0x1_0000, 0, 0xffff_ffff, 0x7fff_ffff]);
    assert!(matches!(input_buffers(&trace, Module::Batch16, &trace.rows), Err(0)));

    let mut buffers = Buffers48::new();
    for row in &trace.rows {
        buffers.a.push(Wide { lo: row[0] as u32, hi: (row[0] >> 32) as u32 });
        buffers.a16.push(row[1] as u32 as i32);
        buffers.b16.push(row[2] as u32 as i32);
    }
    for variant in [Variant::Portable, Variant::Native] {
        let batch = batch48(variant, Op48::MulAdd, &buffers, trace.rows.len());
        let want = expected_words(&trace, &trace.rows);
        let sat = [batch.telemetry.saturations, batch.telemetry.faults];
        assert_eq!(judge(&batch.words, &want, 2, sat, 1), Verdict::Agrees);
    }
}

#[test]
fn verdicts_come_in_order_words_faults_saturations() {
    assert_eq!(
        judge(&[1, 2, 9], &[1, 2, 3], 2, [5, 5], 0),
        Verdict::Diverged { word: Some(2), case: Some(1) }
    );
    assert_eq!(
        judge(&[1, 2], &[1, 2, 3], 2, [0, 0], 0),
        Verdict::Diverged { word: None, case: None }
    );
    assert_eq!(judge(&[1], &[1], 1, [5, 1], 0), Verdict::Fault);
    assert_eq!(judge(&[1], &[1], 1, [5, 0], 4), Verdict::Saturations { got: 5, want: 4 });
    assert_eq!(judge(&[], &[], 1, [0, 0], 0), Verdict::Agrees);
    assert_eq!(first_mismatch(&[1, 2], &[1, 3]), Some(1));
    assert_eq!(first_mismatch(&[1], &[1, 3]), None);
}

#[test]
fn expected_counts_that_do_not_fit_are_refused() {
    let text = "# in q16\n# out q16 sat\n0 0 4294967295\n0 0 1\n";
    let trace = read_trace(text).unwrap();
    assert_eq!(expected_saturations(&trace, &trace.rows[..1]), Some(u32::MAX));
    assert_eq!(expected_saturations(&trace, &trace.rows), None);
}

// Runs a search against per-case counts, and returns the case that it names.
fn locate(got: &[u32], want: &[u32]) -> usize {
    let mut search = Search::new(got.len());
    let mut dispatches = 0;
    while let Some((lo, hi)) = search.part() {
        let wrong = got[lo..hi].iter().sum::<u32>() != want[lo..hi].iter().sum::<u32>();
        search.observe(wrong);
        dispatches += 1;
    }
    assert!(dispatches <= 2 * got.len());
    search.start
}

#[test]
fn search_names_the_case_with_the_wrong_count() {
    for n in 1..40usize {
        for bad in 0..n {
            let want: Vec<u32> = (0..n as u32).map(|i| i % 2).collect();
            let mut got = want.clone();
            got[bad] += 1;
            assert_eq!(locate(&got, &want), bad);
        }
    }
    // Two errors that cancel out in the first half leave the one in the second.
    assert_eq!(locate(&[1, 0, 0, 1], &[0, 1, 0, 0]), 3);
    // Both halves agree while the whole does not: the first case stands for them all.
    let mut search = Search::new(4);
    search.observe(false);
    search.observe(false);
    assert_eq!(search.part(), None);
    assert_eq!(search.start, 0);
}

use vexide_panic::backtrace::Backtrace;

const HEADER: &str = "stack backtrace:";
const NOTE: &str = "note: Use a symbolizer to convert stack frames to human-readable function names.";

#[test]
fn renders_two_frames_in_order() {
    let backtrace = Backtrace { frames: vec![0x1000, 0x2000] };
    assert_eq!(
        backtrace.to_string(),
        "stack backtrace:\n  0: 0x1000\n  1: 0x2000\nnote: Use a symbolizer to convert stack frames to human-readable function names."
    );
}

#[test]
fn renders_an_empty_backtrace_as_header_and_note() {
    let backtrace = Backtrace { frames: Vec::new() };
    assert_eq!(
        backtrace.to_string(),
        "stack backtrace:\nnote: Use a symbolizer to convert stack frames to human-readable function names."
    );
}

#[test]
fn rendered_text_has_a_line_for_each_frame() {
    for count in [0usize, 1, 2, 9, 10, 11, 99, 100, 101, 999, 1000, 1001, 1234] {
        let frames: Vec<usize> = (0..count).map(|i| 0x0380_0000 + 2 * i).collect();
        let text = Backtrace { frames: frames.clone() }.to_string();
        let lines: Vec<&str> = text.split('\n').collect();
        assert_eq!(lines.len(), count + 2);
        assert_eq!(lines[0], HEADER);
        assert_eq!(lines[count + 1], NOTE);
        assert_eq!(text.matches(HEADER).count(), 1);
        assert_eq!(text.matches(NOTE).count(), 1);
        for (index, address) in frames.iter().enumerate() {
            assert_eq!(lines[index + 1], format!("{:>3}: {:#x}", index, address));
        }
    }
}

#[test]
fn index_is_right_aligned_in_three_columns() {
    let text = Backtrace { frames: vec![0xabc; 1001] }.to_string();
    let lines: Vec<&str> = text.split('\n').collect();
    assert_eq!(lines[1], "  0: 0xabc");
    assert_eq!(lines[10], "  9: 0xabc");
    assert_eq!(lines[11], " 10: 0xabc");
    assert_eq!(lines[100], " 99: 0xabc");
    assert_eq!(lines[101], "100: 0xabc");
    assert_eq!(lines[1000], "999: 0xabc");
    assert_eq!(lines[1001], "1000: 0xabc");
}

#[test]
fn address_is_lower_case_hexadecimal_without_padding() {
    let text = Backtrace { frames: vec![0, 9, 10, 15, 16, 255, 0xdead_beef, usize::MAX] }.to_string();
    let lines: Vec<&str> = text.split('\n').collect();
    assert_eq!(lines[1], "  0: 0x0");
    assert_eq!(lines[2], "  1: 0x9");
    assert_eq!(lines[3], "  2: 0xa");
    assert_eq!(lines[4], "  3: 0xf");
    assert_eq!(lines[5], "  4: 0x10");
    assert_eq!(lines[6], "  5: 0xff");
    assert_eq!(lines[7], "  6: 0xdeadbeef");
    assert_eq!(lines[8], format!("  7: {:#x}", usize::MAX));
}

#[test]
fn note_has_no_line_end() {
    let text = Backtrace { frames: vec![1, 2, 3] }.to_string();
    assert!(text.ends_with(NOTE));
    assert!(!text.ends_with('\n'));
}

#[test]
fn rendering_twice_gives_the_same_text() {
    let backtrace = Backtrace { frames: vec![0x0380_217b, 0x0380_209b, 0, usize::MAX] };
    let first = backtrace.to_string();
    let second = backtrace.to_string();
    assert_eq!(first.as_bytes(), second.as_bytes());
    assert_eq!(backtrace.clone().to_string(), first);
}

#[test]
fn rendering_leaves_the_backtrace_as_it_was() {
    let backtrace = Backtrace { frames: vec![5, 6] };
    let _ = backtrace.to_string();
    assert_eq!(backtrace, Backtrace { frames: vec![5, 6] });
}

#[test]
fn different_frames_have_different_lines() {
    let text = Backtrace { frames: vec![0x10, 0x1, 0x100, 0x10] }.to_string();
    let lines: Vec<&str> = text.split('\n').collect();
    for first in 1..=4usize {
        for second in (first + 1)..=4usize {
            assert_ne!(lines[first], lines[second]);
        }
    }
    assert_eq!(lines[1], "  0: 0x10");
    assert_eq!(lines[4], "  3: 0x10");
}

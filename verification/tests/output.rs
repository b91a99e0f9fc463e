use bevy_local_commands::{ProcessOutput, ProcessOutputBuffer};

fn lines_of(text: &str) -> Vec<String> {
    ProcessOutput::new(1, text.to_string()).lines()
}

#[test]
fn all_drops_the_final_newline() {
    let output = ProcessOutput::new(7, "hi\n".to_string());
    assert_eq!(output.entity, 7);
    assert_eq!(output.entity(), 7);
    assert_eq!(output.all(), "hi");
}

#[test]
fn all_drops_every_trailing_newline_and_nothing_else() {
    assert_eq!(ProcessOutput::new(1, "a\nb\n\n\n".to_string()).all(), "a\nb");
    assert_eq!(ProcessOutput::new(1, "\n\na".to_string()).all(), "\n\na");
    assert_eq!(ProcessOutput::new(1, "a \n".to_string()).all(), "a ");
    assert_eq!(ProcessOutput::new(1, "a\r\n".to_string()).all(), "a\r");
    assert_eq!(ProcessOutput::new(1, "\n\n".to_string()).all(), "");
    assert_eq!(ProcessOutput::new(1, "".to_string()).all(), "");
    assert_eq!(ProcessOutput::new(1, "no newline".to_string()).all(), "no newline");
}

#[test]
fn all_agrees_with_trim_end_matches() {
    for text in ["", "\n", "x", "x\n", "x\n\n", "\nx\n", "é\n", "a\nb\nc\n", "a\n \n"] {
        assert_eq!(ProcessOutput::new(1, text.to_string()).all(), text.trim_end_matches('\n'));
    }
}

#[test]
fn lines_splits_at_newlines() {
    assert_eq!(lines_of("First command\n"), vec!["First command"]);
    assert_eq!(lines_of("a\nb\nc\n"), vec!["a", "b", "c"]);
    assert_eq!(lines_of("a\n\nb"), vec!["a", "", "b"]);
    assert_eq!(lines_of("\na"), vec!["", "a"]);
}

#[test]
fn lines_of_nothing_is_empty() {
    assert!(lines_of("").is_empty());
    assert!(lines_of("\n").is_empty());
    assert!(lines_of("\n\n\n").is_empty());
}

#[test]
fn lines_drops_carriage_return_before_newline_only() {
    assert_eq!(lines_of("a\r\nb\n"), vec!["a", "b"]);
    assert_eq!(lines_of("a\rb\n"), vec!["a\rb"]);
    assert_eq!(lines_of("a\r\r\nb"), vec!["a\r", "b"]);
    assert_eq!(lines_of("a\r"), vec!["a\r"]);
    assert_eq!(lines_of("a\r\n"), vec!["a\r"]);
    assert_eq!(lines_of("\r\nb"), vec!["", "b"]);
}

#[test]
fn lines_agrees_with_std_lines() {
    let texts = [
        "", "\n", "a", "a\n", "a\nb", "a\n\nb\n", "\r", "\r\n", "\r\r\n\r", "x\ry\r\nz", "é\nü\r\nß",
        "one\ntwo\r\n\r\nthree\r", "\n\nlead", "tab\tsep\n", "a\r\n\r\n\r\nb",
    ];
    for text in texts {
        let output = ProcessOutput::new(3, text.to_string());
        let expected: Vec<String> = output.all().lines().map(|l| l.to_string()).collect();
        assert_eq!(output.lines(), expected, "for {:?}", text);
    }
}

#[test]
fn is_empty_tells_whether_there_is_text() {
    assert!(ProcessOutput::new(1, String::new()).is_empty());
    assert!(!ProcessOutput::new(1, "\n".to_string()).is_empty());
}

#[test]
fn buffer_hands_out_lines_in_order() {
    let mut buffer = ProcessOutputBuffer::new();
    buffer.push_line("one\n");
    buffer.push_line("two\n");
    assert_eq!(buffer.drain(), "one\ntwo\n");
}

#[test]
fn buffer_is_empty_after_drain() {
    let mut buffer = ProcessOutputBuffer::new();
    assert_eq!(buffer.drain(), "");
    buffer.push_line("one\n");
    assert_eq!(buffer.drain(), "one\n");
    assert_eq!(buffer.drain(), "");
}

#[test]
fn buffer_loses_and_repeats_nothing_across_drains() {
    let mut buffer = ProcessOutputBuffer::new();
    let mut seen = String::new();
    buffer.push_line("a\n");
    seen.push_str(&buffer.drain());
    buffer.push_line("b\n");
    buffer.push_line("c\n");
    seen.push_str(&buffer.drain());
    seen.push_str(&buffer.drain());
    buffer.push_line("d");
    seen.push_str(&buffer.drain());
    assert_eq!(seen, "a\nb\nc\nd");
}

#[test]
fn output_is_the_text_as_it_came() {
    let output = ProcessOutput::new(2, "a\r\nb\n\n".to_string());
    assert_eq!(output.output(), "a\r\nb\n\n");
    assert_eq!(output.all(), "a\r\nb");
    assert_eq!(output.lines(), vec!["a", "b"]);
}

use vpnhotspotd::preempt::{written, Written};
use vpnhotspotd::process_io::{append_limited, line_text, LineSampler, ERROR_OUTPUT_SAMPLE_LIMIT};
use vpnhotspotd::protocol::IoError;

#[test]
fn limited_reader_drains_the_stream_after_its_sample_is_full() {
    let input = (0..ERROR_OUTPUT_SAMPLE_LIMIT * 2 + 17)
        .map(|index| (index % 251) as u8)
        .collect::<Vec<_>>();
    let expected = input[..ERROR_OUTPUT_SAMPLE_LIMIT].to_vec();
    let mut sample = Vec::new();
    for chunk in input.chunks(64) {
        append_limited(&mut sample, chunk);
    }
    assert_eq!(sample, expected);
}

#[test]
fn a_sample_takes_no_more_than_its_limit() {
    let mut output = Vec::new();
    append_limited(&mut output, &[b'x'; 1000]);
    append_limited(&mut output, &[b'y'; 100]);
    append_limited(&mut output, b"z");
    assert_eq!(output.len(), ERROR_OUTPUT_SAMPLE_LIMIT);
    assert_eq!(&output[998..1002], b"xxyy");
    assert_eq!(output[1023], b'y');
}

#[test]
fn line_preview_is_bounded_while_the_complete_stream_is_drained() {
    let mut input = vec![b'x'; ERROR_OUTPUT_SAMPLE_LIMIT * 2 + 17];
    input.extend_from_slice(b"\ntail\n");
    let (mut sample, mut lines) = (Vec::new(), Vec::new());
    let mut sampler = LineSampler::new();
    for chunk in input.chunks(64) {
        append_limited(&mut sample, chunk);
        lines.extend(sampler.feed(chunk).iter().map(|line| line_text(line)));
    }
    assert_eq!(sampler.finish(), None);
    assert_eq!(sample, input[..ERROR_OUTPUT_SAMPLE_LIMIT].to_vec());
    assert_eq!(lines, ["x".repeat(ERROR_OUTPUT_SAMPLE_LIMIT), "tail".to_owned()]);
}

#[test]
fn a_line_is_what_came_between_two_breaks() {
    let mut sampler = LineSampler::new();
    let mut lines = sampler.feed(b"short\r\nsplit ");
    assert_eq!(lines, vec![b"short".to_vec()]);
    lines.extend(sampler.feed(b"line\n\n"));
    assert_eq!(lines[1..], [b"split line".to_vec(), Vec::new()]);
    assert!(sampler.feed(&[b'a'; 5000]).is_empty());
    let long = sampler.feed(b"tail\nrest");
    assert_eq!(long, vec![vec![b'a'; ERROR_OUTPUT_SAMPLE_LIMIT]]);
    assert_eq!(sampler.finish(), Some(b"rest".to_vec()));
    assert_eq!(LineSampler::new().finish(), None);
}

#[test]
fn a_write_is_done_or_failed_or_abandoned() {
    assert!(matches!(written(Some(Ok(()))), Written::Done));
    assert!(matches!(written(Some(Err(IoError::other("gone")))), Written::Failed(_)));
    assert!(matches!(written(None), Written::Cancelled));
}

#[test]
fn a_line_that_is_no_text_is_read_with_replacements() {
    assert_eq!(line_text(b"plain"), "plain");
    assert_eq!(line_text(&[b'a', 0xff, b'b']), "a\u{fffd}b");
}

#[test]
fn lines_and_sample_do_not_depend_on_how_the_output_came() {
    let mut input = b"one\r\ntwo\n\nthree ".to_vec();
    input.extend(vec![b'x'; ERROR_OUTPUT_SAMPLE_LIMIT + 5]);
    input.extend_from_slice(b"\r\nrest");
    let read = |size: usize| {
        let (mut sample, mut lines) = (Vec::new(), Vec::new());
        let mut sampler = LineSampler::new();
        for chunk in input.chunks(size) {
            append_limited(&mut sample, chunk);
            lines.extend(sampler.feed(chunk));
        }
        (sample, lines, sampler.finish())
    };
    let whole = read(input.len());
    assert_eq!(whole.1[..3], [b"one".to_vec(), b"two".to_vec(), Vec::new()]);
    assert_eq!(whole.1.len(), 4);
    assert_eq!(whole.2, Some(b"rest".to_vec()));
    for size in [1, 2, 3, 5, 7, 1023, 1024, 1025] {
        assert_eq!(read(size), whole, "chunks of {size}");
    }
}

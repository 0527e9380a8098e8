use ollama_client::framing::{complete_length, split_frames};

fn frames_of(chunk: &[u8]) -> Vec<Vec<u8>> {
    split_frames(chunk).into_iter().map(|line| line.to_vec()).collect()
}

#[test]
fn empty_chunk_has_no_frames() {
    assert_eq!(frames_of(b""), Vec::<Vec<u8>>::new());
}

#[test]
fn line_endings_alone_have_no_frames() {
    assert_eq!(frames_of(b"\n"), Vec::<Vec<u8>>::new());
    assert_eq!(frames_of(b"\n\n\n"), Vec::<Vec<u8>>::new());
    assert_eq!(frames_of(b"\r\n"), Vec::<Vec<u8>>::new());
    assert_eq!(frames_of(b"\r\n\n\r\n"), Vec::<Vec<u8>>::new());
}

#[test]
fn one_terminated_line_is_one_frame() {
    assert_eq!(frames_of(b"{\"a\":1}\n"), vec![b"{\"a\":1}".to_vec()]);
}

#[test]
fn one_unterminated_line_is_one_frame() {
    assert_eq!(frames_of(b"{\"a\":1}"), vec![b"{\"a\":1}".to_vec()]);
}

#[test]
fn two_lines_are_two_frames_in_order() {
    assert_eq!(frames_of(b"first\nsecond"), vec![b"first".to_vec(), b"second".to_vec()]);
    assert_eq!(frames_of(b"first\nsecond\n"), vec![b"first".to_vec(), b"second".to_vec()]);
}

#[test]
fn carriage_return_before_line_feed_is_dropped() {
    assert_eq!(frames_of(b"first\r\nsecond\r\n"), vec![b"first".to_vec(), b"second".to_vec()]);
}

#[test]
fn only_one_carriage_return_is_dropped() {
    assert_eq!(frames_of(b"first\r\r\n"), vec![b"first\r".to_vec()]);
}

#[test]
fn carriage_return_inside_a_line_stays() {
    assert_eq!(frames_of(b"fir\rst\n"), vec![b"fir\rst".to_vec()]);
}

#[test]
fn carriage_return_at_the_end_of_an_unterminated_line_stays() {
    assert_eq!(frames_of(b"first\nsecond\r"), vec![b"first".to_vec(), b"second\r".to_vec()]);
    assert_eq!(frames_of(b"\r"), vec![b"\r".to_vec()]);
}

#[test]
fn empty_lines_between_records_are_skipped() {
    assert_eq!(
        frames_of(b"\n\nfirst\n\r\n\nsecond\n\n"),
        vec![b"first".to_vec(), b"second".to_vec()]
    );
}

#[test]
fn a_line_of_spaces_is_a_frame() {
    assert_eq!(frames_of(b"  \nx"), vec![b"  ".to_vec(), b"x".to_vec()]);
}

#[test]
fn bytes_that_are_no_text_are_framed_as_they_stand() {
    assert_eq!(frames_of(&[0xff, 0x0a, 0xc3]), vec![vec![0xffu8], vec![0xc3u8]]);
}

#[test]
fn the_last_whole_line_ends_behind_the_last_line_feed() {
    assert_eq!(complete_length(b""), 0);
    assert_eq!(complete_length(b"abc"), 0);
    assert_eq!(complete_length(b"\n"), 1);
    assert_eq!(complete_length(b"abc\n"), 4);
    assert_eq!(complete_length(b"abc\nde"), 4);
    assert_eq!(complete_length(b"abc\nde\n\nf"), 8);
    assert_eq!(complete_length(b"abc\r"), 0);
}

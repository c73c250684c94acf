use jsonl_reassembler::drain::StreamDrain;
use jsonl_reassembler::record::DecodeError;

fn drain_all(chunks: &[&str]) -> Result<Vec<String>, DecodeError> {
    let mut drain = StreamDrain::new();
    let mut texts = Vec::new();
    for chunk in chunks {
        texts.extend(drain.push_chunk(chunk));
    }
    texts.extend(drain.close()?);
    Ok(texts)
}

const STREAM: &str = "{\"id\": 1, \"name\": \"bob\"}\n{\"id\": 2, \"name\": \"ann\"}\n{\"id\": 3, \"name\": \"z\u{00e9}\"}\n";

fn stream_records() -> Vec<String> {
    vec![
        String::from("{\"id\": 1, \"name\": \"bob\"}"),
        String::from("{\"id\": 2, \"name\": \"ann\"}"),
        String::from("{\"id\": 3, \"name\": \"z\u{00e9}\"}"),
    ]
}

#[test]
fn empty_stream_has_no_records() {
    assert_eq!(drain_all(&[]), Ok(vec![]));
    assert_eq!(drain_all(&["", ""]), Ok(vec![]));
}

#[test]
fn one_chunk_with_all_lines() {
    assert_eq!(drain_all(&[STREAM]), Ok(stream_records()));
}

#[test]
fn chunk_emits_the_records_that_it_completes() {
    let mut drain = StreamDrain::new();
    assert_eq!(drain.push_chunk("{\"id\": 1, \"name\": \"bob\"}\n{\"id\": 2,"), vec!["{\"id\": 1, \"name\": \"bob\"}"]);
    assert_eq!(drain.push_chunk(" \"name\": "), Vec::<String>::new());
    assert_eq!(
        drain.push_chunk("\"ann\"}\n{\"id\": 3, \"name\": \"cy\"}\n{\"id\""),
        vec!["{\"id\": 2, \"name\": \"ann\"}", "{\"id\": 3, \"name\": \"cy\"}"]
    );
    assert_eq!(drain.push_chunk(": 4}"), Vec::<String>::new());
    assert_eq!(drain.close(), Ok(vec![String::from("{\"id\": 4}")]));
}

#[test]
fn stream_cut_in_two_at_every_place() {
    for (cut, _) in STREAM.char_indices() {
        assert_eq!(drain_all(&[&STREAM[..cut], &STREAM[cut..]]), Ok(stream_records()));
    }
}

#[test]
fn stream_cut_in_three_at_every_pair_of_places() {
    let cuts: Vec<usize> = STREAM.char_indices().map(|(at, _)| at).collect();
    for (i, first) in cuts.iter().enumerate() {
        for second in &cuts[i..] {
            let chunks = [&STREAM[..*first], &STREAM[*first..*second], &STREAM[*second..]];
            assert_eq!(drain_all(&chunks), Ok(stream_records()));
        }
    }
}

#[test]
fn stream_cut_into_single_characters() {
    let pieces: Vec<String> = STREAM.chars().map(String::from).collect();
    let chunks: Vec<&str> = pieces.iter().map(String::as_str).collect();
    assert_eq!(drain_all(&chunks), Ok(stream_records()));
}

#[test]
fn last_line_needs_no_line_feed() {
    let text = "{\"id\": 1}\n{\"id\": 2}";
    assert_eq!(drain_all(&[text]), Ok(vec![String::from("{\"id\": 1}"), String::from("{\"id\": 2}")]));
    assert_eq!(drain_all(&["{\"id\": 1}\n{\"id\"", ": 2}"]), Ok(vec![String::from("{\"id\": 1}"), String::from("{\"id\": 2}")]));
}

#[test]
fn carriage_return_before_line_feed_is_dropped() {
    let expected = Ok(vec![String::from("{\"id\": 1}"), String::from("{\"id\": 2}")]);
    assert_eq!(drain_all(&["{\"id\": 1}\r\n{\"id\": 2}\r\n"]), expected);
    assert_eq!(drain_all(&["{\"id\": 1}\r", "\n{\"id\": 2}\r", "\n"]), expected);
}

#[test]
fn carriage_return_elsewhere_is_kept() {
    assert_eq!(drain_all(&["[1,\r2]\n"]), Ok(vec![String::from("[1,\r2]")]));
    assert_eq!(drain_all(&["[1, 2]\r"]), Ok(vec![String::from("[1, 2]\r")]));
}

#[test]
fn blank_lines_are_passed_over() {
    assert_eq!(drain_all(&["\n\n{\"id\": 1}\n\n\n{\"id\": 2}\n\n"]), Ok(vec![String::from("{\"id\": 1}"), String::from("{\"id\": 2}")]));
}

#[test]
fn record_over_several_lines_is_joined() {
    let text = "{\n\"id\": 1,\n\"name\": \"bob\"\n}\n{\"id\": 2, \"name\": \"ann\"}\n";
    assert_eq!(
        drain_all(&[text]),
        Ok(vec![String::from("{\"id\": 1,\"name\": \"bob\"}"), String::from("{\"id\": 2, \"name\": \"ann\"}")])
    );
}

#[test]
fn stream_that_ends_within_a_record_is_an_error() {
    assert_eq!(drain_all(&["{\"id\": 1}\n{\"id\": 2, \"na"]), Err(DecodeError::IncompleteTrailingRecord));
    assert_eq!(drain_all(&["{\"id\": 1}\n{\"id\": 2, \"na\n"]), Err(DecodeError::IncompleteTrailingRecord));
    assert_eq!(drain_all(&["{"]), Err(DecodeError::IncompleteTrailingRecord));
}

#[test]
fn records_before_a_cut_record_were_emitted_and_no_more() {
    let mut drain = StreamDrain::new();
    assert_eq!(drain.push_chunk("{\"id\": 1}\n{\"id\": 2, \"na"), vec!["{\"id\": 1}"]);
    assert_eq!(drain.close(), Err(DecodeError::IncompleteTrailingRecord));
}

#[test]
fn two_drains_do_not_share_state() {
    let mut first = StreamDrain::new();
    let mut second = StreamDrain::new();
    assert_eq!(first.push_chunk("{\"id\":"), Vec::<String>::new());
    assert_eq!(second.push_chunk("{\"id\": 2}\n"), vec!["{\"id\": 2}"]);
    assert_eq!(first.push_chunk(" 1}\n"), vec!["{\"id\": 1}"]);
    assert_eq!(first.close(), Ok(vec![]));
    assert_eq!(second.close(), Ok(vec![]));
}

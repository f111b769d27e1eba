use flex_ai::decoder::{SseDecoder, decode_stream};

fn chunks(parts: &[&[u8]]) -> Vec<Vec<u8>> {
    parts.iter().map(|p| p.to_vec()).collect()
}

#[test]
fn two_fragments_then_done() {
    let input = chunks(&[
        b"data: {\"choices\":[{\"delta\":{\"content\":\"A\"}}]}\n",
        b"data: {\"choices\":[{\"delta\":{\"content\":\"B\"}}]}\n",
        b"data: [DONE]\n",
    ]);
    let (out, done) = decode_stream(&input);
    assert_eq!(out, vec!["A".to_string(), "B".to_string(), "[DONE]".to_string()]);
    assert!(done);
}

#[test]
fn invalid_json_line_is_skipped() {
    let input = chunks(&[
        b"data: {\"choices\":[{\"delta\":{\"content\":\"A\"}}]}\n",
        b"data: {garbage}\n",
        b"data: {\"choices\":[{\"delta\":{\"content\":\"B\"}}]}\n",
        b"data: [DONE]\n",
    ]);
    let (out, done) = decode_stream(&input);
    assert_eq!(out, vec!["A".to_string(), "B".to_string(), "[DONE]".to_string()]);
    assert!(done);
}

#[test]
fn non_data_lines_are_skipped() {
    let input = chunks(&[
        b"event: message\n",
        b"\n",
        b": keep-alive comment\n",
        b"data: {\"choices\":[{\"delta\":{\"content\":\"hi\"}}]}\n",
        b"\n",
        b"data: [DONE]\n",
    ]);
    let (out, done) = decode_stream(&input);
    assert_eq!(out, vec!["hi".to_string(), "[DONE]".to_string()]);
    assert!(done);
}

#[test]
fn role_only_delta_emits_nothing() {
    let input = chunks(&[
        b"data: {\"choices\":[{\"delta\":{\"role\":\"assistant\"}}]}\n",
        b"data: {\"choices\":[{\"delta\":{\"content\":\"x\"}}]}\n",
        b"data: [DONE]\n",
    ]);
    let (out, done) = decode_stream(&input);
    assert_eq!(out, vec!["x".to_string(), "[DONE]".to_string()]);
    assert!(done);
}

#[test]
fn non_string_content_emits_nothing() {
    let input = chunks(&[
        b"data: {\"choices\":[{\"delta\":{\"content\":42}}]}\n",
        b"data: [DONE]\n",
    ]);
    let (out, done) = decode_stream(&input);
    assert_eq!(out, vec!["[DONE]".to_string()]);
    assert!(done);
}

#[test]
fn empty_content_is_still_emitted() {
    let input = chunks(&[
        b"data: {\"choices\":[{\"delta\":{\"content\":\"\"}}]}\n",
        b"data: [DONE]\n",
    ]);
    let (out, done) = decode_stream(&input);
    assert_eq!(out, vec!["".to_string(), "[DONE]".to_string()]);
    assert!(done);
}

#[test]
fn lines_after_done_are_discarded() {
    let input = chunks(&[
        b"data: [DONE]\n",
        b"data: {\"choices\":[{\"delta\":{\"content\":\"late\"}}]}\n",
    ]);
    let (out, done) = decode_stream(&input);
    assert_eq!(out, vec!["[DONE]".to_string()]);
    assert!(done);
}

#[test]
fn done_without_trailing_newline() {
    let input = chunks(&[b"data: [DONE]"]);
    let (out, done) = decode_stream(&input);
    assert_eq!(out, vec!["[DONE]".to_string()]);
    assert!(done);
}

#[test]
fn done_marker_with_trailing_junk_is_not_terminal() {
    let input = chunks(&[b"data: [DONE] \n"]);
    let (out, done) = decode_stream(&input);
    assert_eq!(out, Vec::<String>::new());
    assert!(!done);
}

#[test]
fn stream_without_done_is_not_terminated() {
    let input = chunks(&[b"data: {\"choices\":[{\"delta\":{\"content\":\"A\"}}]}\n"]);
    let (out, done) = decode_stream(&input);
    assert_eq!(out, vec!["A".to_string()]);
    assert!(!done);
}

#[test]
fn line_straddling_two_chunks_is_decoded() {
    let mut d = SseDecoder::new();
    let first = d.push_chunk(b"data: {\"choices\":[{\"del");
    assert_eq!(first, Vec::<String>::new());
    let second = d.push_chunk(b"ta\":{\"content\":\"AB\"}}]}\ndata: [DONE]\n");
    assert_eq!(second, vec!["AB".to_string(), "[DONE]".to_string()]);
    assert!(d.done);
}

#[test]
fn unicode_fragment_is_preserved() {
    let input = chunks(&[
        "data: {\"choices\":[{\"delta\":{\"content\":\"こんにちは\"}}]}\n".as_bytes(),
        b"data: [DONE]\n",
    ]);
    let (out, _) = decode_stream(&input);
    assert_eq!(out[0], "こんにちは".to_string());
}

#[test]
fn decoding_twice_yields_identical_emissions() {
    let input = chunks(&[
        b"data: {\"choices\":[{\"delta\":{\"content\":\"A\"}}]}\n",
        b"data: {\"choices\":[{\"delta\":{\"content\":\"B\"}}]}\n",
        b"data: [DONE]\n",
    ]);
    let first = decode_stream(&input);
    let second = decode_stream(&input);
    assert_eq!(first, second);
}

#[test]
fn chunk_boundaries_do_not_matter() {
    let whole = chunks(&[
        b"data: {\"choices\":[{\"delta\":{\"content\":\"A\"}}]}\ndata: [DONE]\n",
    ]);
    let bytes = &whole[0];
    let split_at: usize = 17;
    let resliced = vec![bytes[..split_at].to_vec(), bytes[split_at..].to_vec()];
    assert_eq!(decode_stream(&whole), decode_stream(&resliced));
    let byte_by_byte: Vec<Vec<u8>> = bytes.iter().map(|b| vec![*b]).collect();
    assert_eq!(decode_stream(&whole), decode_stream(&byte_by_byte));
}

#[test]
fn finish_on_empty_stream() {
    let mut d = SseDecoder::new();
    let out = d.finish();
    assert_eq!(out, Vec::<String>::new());
    assert!(!d.done);
}

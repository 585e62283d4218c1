use twitter_stream::lines::Lines;

/// Drives a decoder through `chunks` and the end of the stream, the way the
/// stream driver does: buffered lines first, then the next chunk.
fn decode_chunks(chunks: &[&[u8]]) -> Vec<Vec<u8>> {
    let mut lines = Lines::new();
    let mut out = Vec::new();
    for chunk in chunks {
        while let Some(line) = lines.pop_line() {
            out.push(line.to_vec());
        }
        if let Some(line) = lines.feed(chunk) {
            out.push(line.to_vec());
        }
    }
    while let Some(line) = lines.pop_line() {
        out.push(line.to_vec());
    }
    if let Some(line) = lines.finish() {
        out.push(line.to_vec());
    }
    out
}

fn decode_strs(chunks: &[&str]) -> Vec<String> {
    let bytes: Vec<&[u8]> = chunks.iter().map(|c| c.as_bytes()).collect();
    decode_chunks(&bytes)
        .into_iter()
        .map(|l| String::from_utf8(l).unwrap())
        .collect()
}

#[test]
fn lines() {
    let body = [
        "abc\r\n",
        "d\r\nefg\r\n",
        "hi",
        "jk",
        "",
        "\r\n",
        "\r\n",
        "lmn\r\nop",
        "q\rrs\r",
        "\n\n\rtuv\r\r\n",
        "wxyz\n",
    ];

    let concat = body.concat();
    let expected: Vec<String> = concat.split("\r\n").map(|s| s.to_string()).collect();
    assert_eq!(decode_strs(&body), expected);
}

#[test]
fn split_invariance_every_cut() {
    let input = "ab\r\n\r\ncd\re\r\nf\ng\r\n\r\nxyz";
    let whole = decode_strs(&[input]);
    assert_eq!(whole, vec!["ab", "", "cd\re", "f\ng", "", "xyz"]);
    for i in 0..=input.len() {
        for j in i..=input.len() {
            let parts = [&input[..i], &input[i..j], &input[j..]];
            assert_eq!(decode_strs(&parts), whole, "cut at {} and {}", i, j);
        }
    }
    let bytes: Vec<String> = input.chars().map(|c| c.to_string()).collect();
    let singles: Vec<&str> = bytes.iter().map(|s| s.as_str()).collect();
    assert_eq!(decode_strs(&singles), whole);
}

#[test]
fn delimiter_straddling() {
    assert_eq!(decode_strs(&["ab\r", "\ndef\r\n"]), vec!["ab", "def"]);
}

#[test]
fn multi_line_per_chunk() {
    assert_eq!(decode_strs(&["x\r\ny\r\nz\r\n"]), vec!["x", "y", "z"]);
}

#[test]
fn blank_line_preservation() {
    assert_eq!(decode_strs(&["\r\n\r\n"]), vec!["", ""]);
}

#[test]
fn trailing_partial_flush() {
    assert_eq!(decode_strs(&["abc"]), vec!["abc"]);
}

#[test]
fn empty_chunk_tolerance() {
    let plain = decode_strs(&["ab\r", "\ncd", "\r\n"]);
    assert_eq!(plain, vec!["ab", "cd"]);
    assert_eq!(decode_strs(&["", "ab\r", "", "\ncd", "", "", "\r\n", ""]), plain);
}

#[test]
fn empty_input_gives_no_line() {
    assert_eq!(decode_strs(&[]), Vec::<String>::new());
    assert_eq!(decode_strs(&["", ""]), Vec::<String>::new());
}

#[test]
fn lone_cr_and_lf_do_not_split() {
    assert_eq!(decode_strs(&["a\rb\nc\r", "\r\n"]), vec!["a\rb\nc\r"]);
    assert_eq!(decode_strs(&["a\nb\r\nc"]), vec!["a\nb", "c"]);
    assert_eq!(decode_strs(&["\r", "\r", "\n"]), vec!["\r"]);
}

#[test]
fn feed_returns_first_line_and_keeps_rest() {
    let mut lines = Lines::new();
    assert_eq!(lines.feed(b"abc").map(|l| l.to_vec()), None);
    assert_eq!(lines.buffered(), b"abc");
    assert_eq!(lines.feed(b"d\r\nef\r\ng").map(|l| l.to_vec()), Some(b"abcd".to_vec()));
    assert_eq!(lines.buffered(), b"ef\r\ng");
    assert_eq!(lines.pop_line().map(|l| l.to_vec()), Some(b"ef".to_vec()));
    assert_eq!(lines.buffered(), b"g");
    assert_eq!(lines.pop_line().map(|l| l.to_vec()), None);
    assert_eq!(lines.finish().map(|l| l.to_vec()), Some(b"g".to_vec()));
    assert_eq!(lines.buffered(), b"");
    assert_eq!(lines.finish().map(|l| l.to_vec()), None);
}

#[test]
fn feed_empty_chunk_hands_out_buffered_line() {
    let mut lines = Lines::new();
    assert_eq!(lines.feed(b"a\r\nb\r\n").map(|l| l.to_vec()), Some(b"a".to_vec()));
    assert_eq!(lines.feed(b"").map(|l| l.to_vec()), Some(b"b".to_vec()));
    assert_eq!(lines.feed(b"").map(|l| l.to_vec()), None);
    assert_eq!(lines.buffered(), b"");
}

#[test]
fn finish_hands_out_complete_lines_first() {
    let mut lines = Lines::new();
    assert_eq!(lines.feed(b"a\r\nb\r\nc").map(|l| l.to_vec()), Some(b"a".to_vec()));
    assert_eq!(lines.finish().map(|l| l.to_vec()), Some(b"b".to_vec()));
    assert!(!lines.is_ended());
    assert_eq!(lines.finish().map(|l| l.to_vec()), Some(b"c".to_vec()));
    assert!(lines.is_ended());
    assert_eq!(lines.finish().map(|l| l.to_vec()), None);
}

#[test]
fn ended_decoder_takes_no_more_bytes() {
    let mut lines = Lines::new();
    assert_eq!(lines.finish().map(|l| l.to_vec()), None);
    assert!(lines.is_ended());
    assert_eq!(lines.feed(b"x\r\n").map(|l| l.to_vec()), None);
    assert_eq!(lines.buffered(), b"");
    assert_eq!(lines.pop_line().map(|l| l.to_vec()), None);
}

use win_toolkit::command::{console_text_lines, CommandLine, CommandSpec};
use win_toolkit::{compact_lines, console_lines, decode_console_output, elevated_cmd_parameters};

#[test]
fn parameters_quote_only_spaced_tokens_and_always_the_path() {
    let command = CommandLine::program("sfc", &["/scannow"]);
    let params = elevated_cmd_parameters(
        &command,
        r"C:\Users\John Doe\AppData\Local\win-toolkit\runs\sfc.log",
    );
    assert_eq!(
        params,
        r#"/d /c "(sfc /scannow) > "C:\Users\John Doe\AppData\Local\win-toolkit\runs\sfc.log" 2>&1""#
    );
}

#[test]
fn parameters_quote_arguments_that_contain_spaces() {
    let command = CommandLine::program("schtasks.exe", &["/Run", "/TN", r"\Microsoft\Windows\x"]);
    let params = elevated_cmd_parameters(&command, r"C:\out.log");
    assert_eq!(
        params,
        r#"/d /c "(schtasks.exe /Run /TN \Microsoft\Windows\x) > "C:\out.log" 2>&1""#
    );
}

#[test]
fn parameters_redirect_the_complete_script() {
    let command = CommandLine::Script("net stop wuauserv & net start wuauserv".to_owned());
    let params = elevated_cmd_parameters(&command, r"C:\out.log");
    assert_eq!(
        params,
        r#"/d /c "(net stop wuauserv & net start wuauserv) > "C:\out.log" 2>&1""#
    );
}

#[test]
fn parameters_quote_spaced_and_empty_arguments() {
    let command = CommandLine::program("my tool.exe", &["a b", "", "c\td", "plain"]);
    let params = elevated_cmd_parameters(&command, "out.log");
    assert_eq!(
        params,
        "/d /c \"(\"my tool.exe\" \"a b\" \"\" \"c\td\" plain) > \"out.log\" 2>&1\""
    );
}

#[test]
fn parameters_quote_unicode_whitespace() {
    let command = CommandLine::program("x", &["a\u{3000}b", "a\u{00A0}"]);
    let params = elevated_cmd_parameters(&command, "o");
    assert_eq!(
        params,
        "/d /c \"(x \"a\u{3000}b\" \"a\u{00A0}\") > \"o\" 2>&1\""
    );
}

#[test]
fn command_spec_keeps_program_and_arguments() {
    let spec = CommandSpec::new("dism", &["/Online", "/Cleanup-Image"]);
    assert_eq!(spec.program, "dism");
    assert_eq!(spec.args, vec!["/Online".to_owned(), "/Cleanup-Image".to_owned()]);
    let none = CommandSpec::new("ipconfig", &[]);
    assert!(none.args.is_empty());
}

#[test]
fn decodes_utf16le_with_bom() {
    let bytes = [0xFF, 0xFE, b'H', 0x00, b'i', 0x00];
    assert_eq!(decode_console_output(&bytes), "Hi");
}

#[test]
fn decodes_bomless_utf16le_via_heuristic() {
    let mut bytes = Vec::new();
    for ch in "There is progress".chars() {
        bytes.push(ch as u8);
        bytes.push(0x00);
    }
    assert_eq!(decode_console_output(&bytes), "There is progress");
}

#[test]
fn decodes_utf8_by_default() {
    assert_eq!(decode_console_output(b"plain ascii"), "plain ascii");
}

#[test]
fn decodes_utf8_after_its_bom() {
    assert_eq!(decode_console_output(&[0xEF, 0xBB, 0xBF, b'o', b'k']), "ok");
    assert_eq!(decode_console_output("grüße".as_bytes()), "grüße");
}

#[test]
fn decodes_invalid_utf8_lossily() {
    assert_eq!(decode_console_output(&[b'a', 0xFF, b'b']), "a\u{FFFD}b");
}

#[test]
fn utf16_bom_drops_an_odd_trailing_byte() {
    assert_eq!(decode_console_output(&[0xFF, 0xFE, b'A', 0x00, b'B']), "A");
    assert_eq!(decode_console_output(&[0xFF, 0xFE]), "");
}

#[test]
fn short_input_is_not_taken_for_utf16() {
    // Three bytes: too short for the heuristic, so decoded as UTF-8.
    assert_eq!(decode_console_output(&[b'a', 0x00, b'b']), "a\u{0}b");
    assert_eq!(decode_console_output(&[]), "");
}

#[test]
fn heuristic_needs_half_of_the_odd_bytes_to_be_nul() {
    // Odd bytes: 0x00, 0x00, b'x', b'y' -> 2 of 4 are NUL: UTF-16LE.
    let half = [b'a', 0x00, b'b', 0x00, b'c', b'x', b'd', b'y'];
    assert_eq!(decode_console_output(&half), "ab\u{7863}\u{7964}");
    // 1 of 4 is NUL: UTF-8.
    let less = [b'a', 0x00, b'b', b'q', b'c', b'x', b'd', b'y'];
    assert_eq!(decode_console_output(&less), "a\u{0}bqcxdy");
}

#[test]
fn compact_lines_trims_and_collapses_blanks() {
    let input = [
        String::new(),
        String::new(),
        "a".to_owned(),
        String::new(),
        String::new(),
        "b".to_owned(),
        String::new(),
        String::new(),
    ];
    assert_eq!(
        compact_lines(&input),
        vec!["a".to_owned(), String::new(), "b".to_owned()]
    );
}

#[test]
fn compact_lines_treats_whitespace_lines_as_blank() {
    let input = [
        "  ".to_owned(),
        "x".to_owned(),
        " \t ".to_owned(),
        "\u{3000}".to_owned(),
        "  y  ".to_owned(),
        " ".to_owned(),
    ];
    let out = compact_lines(&input);
    assert_eq!(out, vec!["x".to_owned(), String::new(), "  y  ".to_owned()]);
    // Compacting again changes nothing.
    assert_eq!(compact_lines(&out), out);
    assert!(compact_lines(&[]).is_empty());
    assert!(compact_lines(&[" ".to_owned(), String::new()]).is_empty());
}

#[test]
fn console_lines_collapse_carriage_return_progress() {
    let raw = b"Beginning scan.\n10%\r20%\r30% complete\nDone.\n";
    let lines = console_lines(raw);
    assert_eq!(
        lines,
        vec![
            "Beginning scan.".to_owned(),
            "30% complete".to_owned(),
            "Done.".to_owned(),
            String::new(),
        ]
    );
}

#[test]
fn console_lines_keep_crlf_terminated_content() {
    assert_eq!(
        console_lines(b"True\r\n"),
        vec!["True".to_owned(), String::new()]
    );
    assert_eq!(
        console_lines(b"Line one\r\nLine two\r\n"),
        vec!["Line one".to_owned(), "Line two".to_owned(), String::new()]
    );
}

#[test]
fn console_lines_edge_cases() {
    assert_eq!(console_lines(b""), vec![String::new()]);
    assert_eq!(console_lines(b"a  \t"), vec!["a".to_owned()]);
    // A progress redraw that ends in a CR keeps the text before it.
    assert_eq!(console_lines(b"50%\r\r\n"), vec![String::new(), String::new()]);
    assert_eq!(console_lines(b"x\ry  \r\n"), vec!["y".to_owned(), String::new()]);
    assert_eq!(console_text_lines("a\n\nb"), vec!["a".to_owned(), String::new(), "b".to_owned()]);
}

#[test]
fn console_lines_have_one_line_per_newline_piece() {
    let text = "one\r\ntwo\r3\n \n";
    let lines = console_text_lines(text);
    assert_eq!(lines.len(), text.matches('\n').count() + 1);
    for line in &lines {
        assert!(!line.contains('\n') && !line.contains('\r'));
        assert_eq!(line.trim_end(), line);
    }
}

#[test]
fn utf16_pairs_combine_and_lone_surrogates_are_replaced() {
    let bytes = [0xFF, 0xFE, 0x3D, 0xD8, 0x00, 0xDE, 0x00, 0xD8, 0x41, 0x00, 0x00, 0xDC];
    assert_eq!(decode_console_output(&bytes), "\u{1F600}\u{FFFD}A\u{FFFD}");
}

fn utf16le(text: &str) -> Vec<u8> {
    text.encode_utf16().flat_map(|unit| unit.to_le_bytes()).collect()
}

#[test]
fn utf16le_text_comes_back() {
    for text in ["", "x", "grüße \u{1F600} ok", "\u{FEFF}lead"] {
        let mut bytes = vec![0xFF, 0xFE];
        bytes.extend(utf16le(text));
        assert_eq!(decode_console_output(&bytes), text);
    }
    for text in ["ab", "plain ascii text", "a\0b"] {
        assert_eq!(decode_console_output(&utf16le(text)), text);
    }
}

#[test]
fn utf8_text_comes_back() {
    for text in ["", "a", "grüße", "\u{1F600} emoji", "x\u{FEFF}"] {
        assert_eq!(decode_console_output(text.as_bytes()), text);
        let mut with_bom = vec![0xEF, 0xBB, 0xBF];
        with_bom.extend_from_slice(text.as_bytes());
        assert_eq!(decode_console_output(&with_bom), text);
    }
}

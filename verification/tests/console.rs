use flash_console::cmdline::{
    parse, parse_rest_args, parse_with_error, render_flash_response, render_read_words, tokenize,
    Command, ParseArgErr,
};
use flash_console::byte_str::ParseNumErr;

fn toks(line: &[u8]) -> Vec<Vec<u8>> {
    tokenize(line)
}

#[test]
fn tokenizer_splits_on_whitespace_runs() {
    let t = toks(b"  read   0x10   2  ");
    assert_eq!(t, vec![b"read".to_vec(), b"0x10".to_vec(), b"2".to_vec()]);
}

#[test]
fn tokenizer_empty_and_blank_lines() {
    assert!(toks(b"").is_empty());
    assert!(toks(b"   \t ").is_empty());
    assert_eq!(toks(b"one"), vec![b"one".to_vec()]);
}

#[test]
fn dispatch_read_with_count() {
    let d = parse(b"  read   0x10   2  ", 16);
    assert!(d.output.is_empty());
    match d.action {
        Some(Command::Read { addr, words }) => {
            assert_eq!(addr, 0x10);
            assert_eq!(words, 2);
        }
        other => panic!("expected a read action, got {:?}", other.is_some()),
    }
}

#[test]
fn dispatch_read_defaults_to_one_word() {
    let d = parse(b"read 0x10", 16);
    match d.action {
        Some(Command::Read { addr, words }) => {
            assert_eq!(addr, 0x10);
            assert_eq!(words, 1);
        }
        _ => panic!("expected a read action"),
    }
}

#[test]
fn dispatch_write_bad_argument_index() {
    // the third token (0-based index 3 over the full list) fails on `b`
    let r = parse_with_error(&toks(b"write 0x10 1 bad"), 16);
    assert_eq!(r.err(), Some(ParseArgErr::BadArg(3, ParseNumErr::BadDigit(b'b'))));

    let d = parse(b"write 0x10 1 bad", 16);
    assert!(d.action.is_none());
    assert_eq!(d.output, b"Bad argument 3 `b` (digit parse)\r\n".to_vec());
}

#[test]
fn dispatch_write_collects_words() {
    let r = parse_with_error(&toks(b"w 0x100 1 2 0xFF"), 16);
    match r {
        Ok(Command::Write { addr, words }) => {
            assert_eq!(addr, 0x100);
            assert_eq!(words, vec![1, 2, 0xFF]);
        }
        _ => panic!("expected a write command"),
    }
}

#[test]
fn dispatch_argument_counts() {
    assert_eq!(parse_with_error(&toks(b"read"), 16).err(), Some(ParseArgErr::NotEnoughArgs));
    assert_eq!(
        parse_with_error(&toks(b"read 1 2 3"), 16).err(),
        Some(ParseArgErr::TooManyArgs)
    );
    assert_eq!(parse_with_error(&toks(b"write"), 16).err(), Some(ParseArgErr::NotEnoughArgs));
    assert_eq!(
        parse_with_error(&toks(b"write 0x10"), 16).err(),
        Some(ParseArgErr::NotEnoughArgs)
    );
    assert_eq!(parse_with_error(&toks(b"nope"), 16).err(), Some(ParseArgErr::UnknownCommand));
}

#[test]
fn dispatch_command_spellings() {
    for line in [&b"c 1 2"[..], b"cmd 1 2", b"command 1 2"] {
        match parse_with_error(&toks(line), 16) {
            Ok(Command::FlashCmd(bytes)) => assert_eq!(bytes, vec![1, 2]),
            _ => panic!("expected a flash command"),
        }
    }
    assert!(matches!(parse_with_error(&toks(b"b"), 16), Ok(Command::Boot)));
    assert!(matches!(parse_with_error(&toks(b"boot"), 16), Ok(Command::Boot)));
    assert!(matches!(parse_with_error(&toks(b"h"), 16), Ok(Command::Help)));
}

#[test]
fn dispatch_flash_cmd_byte_width() {
    let r = parse_with_error(&toks(b"c 0x100"), 16);
    assert_eq!(r.err(), Some(ParseArgErr::BadArg(1, ParseNumErr::Overflow)));
}

#[test]
fn dispatch_outputs() {
    let d = parse(b"", 16);
    assert!(d.action.is_none());
    assert_eq!(d.output, b"\r\n".to_vec());

    let d = parse(b"frobnicate now", 16);
    assert!(d.action.is_none());
    assert_eq!(d.output, b"Unknown command \"frobnicate now\"\r\n".to_vec());

    let d = parse(b"read", 16);
    assert_eq!(d.output, b"Not enough arguments\r\n".to_vec());

    let d = parse(b"read 1 2 3", 16);
    assert_eq!(d.output, b"Too many arguments\r\n".to_vec());

    let d = parse(b"c 99999999999999999999999999", 16);
    assert_eq!(d.output, b"Bad argument 1 (number overflow)\r\n".to_vec());

    let d = parse(b"help", 16);
    assert!(d.action.is_none());
    let text = String::from_utf8(d.output).unwrap();
    assert!(text.starts_with("Commands:\r\n"));
    assert!(text.contains("r|read ADDR [WORDS=1]: read words from ADDR\r\n"));
}

#[test]
fn dispatch_too_many_tokens_for_the_accumulator() {
    // 17 tokens with num_args == 16
    let d = parse(b"c 1 1 1 1 1 1 1 1 1 1 1 1 1 1 1 1", 16);
    assert!(d.action.is_none());
    assert_eq!(d.output, b"Too many arguments\r\n".to_vec());
}

#[test]
fn render_flash_response_two_digit_hex() {
    assert_eq!(render_flash_response(&[0x9F, 0x05, 0x00]), b" -> 9F 05 00\r\n".to_vec());
    assert_eq!(render_flash_response(&[]), b" ->\r\n".to_vec());
}

#[test]
fn render_read_words_prefixed_hex() {
    assert_eq!(
        render_read_words(&[0x10, 0xABC, 0]),
        b"\r\n 0x10 0xABC 0x0\r\n".to_vec()
    );
}

#[test]
fn parse_rest_args_keeps_prefix_on_bad_token() {
    // the values before the failing token stay appended
    let args = toks(b"c 1 2 bad 4");
    let mut bytes: Vec<u8> = Vec::new();
    let r = parse_rest_args::<u8>(&args, 1, &mut bytes, 16);
    assert_eq!(r.err(), Some(ParseArgErr::BadArg(3, ParseNumErr::BadDigit(b'b'))));
    assert_eq!(bytes, vec![1, 2]);
}

#[test]
fn parse_rest_args_full_on_too_many() {
    // on capacity exhaustion the destination is full with the first values
    let args = toks(b"c 1 2 3");
    let mut bytes: Vec<u8> = Vec::new();
    let r = parse_rest_args::<u8>(&args, 1, &mut bytes, 2);
    assert_eq!(r.err(), Some(ParseArgErr::TooManyArgs));
    assert_eq!(bytes, vec![1, 2]);
}

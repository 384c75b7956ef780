use flash_console::editor::LineEditor;
use flash_console::flash::{FlashAction, FlashTransport};

#[test]
fn editor_backspace_then_commit() {
    // a, b, backspace, c, terminator commits the line "ac"
    let mut ed = LineEditor::new(128);
    assert_eq!(ed.feed(b'a').echo, vec![b'a']);
    assert_eq!(ed.feed(b'b').echo, vec![b'b']);
    let out = ed.feed(0x08);
    assert!(out.line.is_none());
    assert_eq!(out.echo, vec![0x08, b' ', 0x08]);
    assert_eq!(ed.feed(b'c').echo, vec![b'c']);
    let out = ed.feed(b'\n');
    assert!(out.echo.is_empty());
    assert_eq!(out.line, Some(b"ac".to_vec()));
    // the buffer is cleared for the next line
    let out = ed.feed(b'\r');
    assert_eq!(out.line, Some(Vec::new()));
}

#[test]
fn editor_kill_line_erases_everything() {
    let mut ed = LineEditor::new(128);
    for &b in b"abcd" {
        ed.feed(b);
    }
    let out = ed.feed(0x15);
    assert!(out.line.is_none());
    // one erase triplet per removed byte
    let mut expected = Vec::new();
    for _ in 0..4 {
        expected.extend_from_slice(&[0x08, b' ', 0x08]);
    }
    assert_eq!(out.echo, expected);
    let out = ed.feed(b'\n');
    assert_eq!(out.line, Some(Vec::new()));
}

#[test]
fn editor_delete_behaves_like_backspace() {
    let mut ed = LineEditor::new(128);
    ed.feed(b'x');
    let out = ed.feed(0x7F);
    assert_eq!(out.echo, vec![0x08, b' ', 0x08]);
    // erase on an empty buffer still echoes the triplet
    let out = ed.feed(0x7F);
    assert_eq!(out.echo, vec![0x08, b' ', 0x08]);
    let out = ed.feed(b'\n');
    assert_eq!(out.line, Some(Vec::new()));
}

#[test]
fn editor_ignores_other_non_printables() {
    let mut ed = LineEditor::new(128);
    let out = ed.feed(0x07);
    assert!(out.echo.is_empty() && out.line.is_none());
    let out = ed.feed(0x1B);
    assert!(out.echo.is_empty() && out.line.is_none());
    ed.feed(b'k');
    let out = ed.feed(b'\r');
    assert_eq!(out.line, Some(b"k".to_vec()));
}

#[test]
fn editor_drops_input_beyond_capacity() {
    let mut ed = LineEditor::new(2);
    assert_eq!(ed.feed(b'1').echo, vec![b'1']);
    assert_eq!(ed.feed(b'2').echo, vec![b'2']);
    // full: silently dropped, not echoed
    assert!(ed.feed(b'3').echo.is_empty());
    let out = ed.feed(b'\n');
    assert_eq!(out.line, Some(b"12".to_vec()));
}

#[test]
fn flash_transport_exchanges_byte_for_byte() {
    // a command of length k makes exactly k exchanges, and the buffer ends
    // up holding the device's k response bytes
    let cmd = vec![0x9F, 0x00, 0x00];
    let responses = [0xEF, 0x40, 0x18];
    let mut t = FlashTransport::new(cmd.clone());

    assert_eq!(t.step(), FlashAction::EnterCmdMode);
    assert_eq!(t.step(), FlashAction::SelectChip);

    let mut sent = Vec::new();
    let mut given = 0usize;
    loop {
        match t.step() {
            FlashAction::SendByte(b) => sent.push(b),
            FlashAction::ReadByte => {
                t.give_byte(responses[given]);
                given += 1;
            }
            FlashAction::DeselectChip => break,
            other => panic!("unexpected action {:?}", other),
        }
    }
    assert_eq!(t.step(), FlashAction::RestoreXip);
    assert_eq!(t.step(), FlashAction::Done);

    // exactly k sends, of the original command bytes, in order
    assert_eq!(sent, cmd);
    assert_eq!(given, cmd.len());
    // the same buffer now holds the response bytes
    assert_eq!(t.into_buffer(), responses.to_vec());
}

#[test]
fn flash_transport_empty_command() {
    let mut t = FlashTransport::new(Vec::new());
    assert_eq!(t.step(), FlashAction::EnterCmdMode);
    assert_eq!(t.step(), FlashAction::SelectChip);
    assert_eq!(t.step(), FlashAction::DeselectChip);
    assert_eq!(t.step(), FlashAction::RestoreXip);
    assert_eq!(t.step(), FlashAction::Done);
    assert!(t.into_buffer().is_empty());
}

#[test]
fn flash_transport_waits_until_the_byte_arrives() {
    let mut t = FlashTransport::new(vec![0xAB]);
    t.step();
    t.step();
    assert_eq!(t.step(), FlashAction::SendByte(0xAB));
    // the response is owed: asking again keeps asking
    assert_eq!(t.step(), FlashAction::ReadByte);
    assert_eq!(t.step(), FlashAction::ReadByte);
    t.give_byte(0x5A);
    assert_eq!(t.step(), FlashAction::DeselectChip);
    assert_eq!(t.step(), FlashAction::RestoreXip);
    assert_eq!(t.step(), FlashAction::Done);
    assert_eq!(t.into_buffer(), vec![0x5A]);
}

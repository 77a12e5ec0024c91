use closedcaption::cea608::{
    CaptionCode, CaptionCommand, Cea608Mode, Channel, Color, Field, Id, InvalidParity, MidRow,
    PreambleAddressCode, PreambleType, Text,
};
use closedcaption::cea608utils::{
    Cea608Cell, Cea608Frame, Cea608Renderer, Rectangle, Rendering, TextStyle,
};
use closedcaption::pango::AttributeKind;

fn odd(b: u8) -> u8 {
    if b.count_ones() % 2 == 0 {
        b | 0x80
    } else {
        b
    }
}

fn push(renderer: &mut Cea608Renderer, byte0: u8, byte1: u8) -> bool {
    renderer.push_pair([odd(byte0), odd(byte1)]).unwrap().unwrap()
}

fn push_text(renderer: &mut Cea608Renderer, text: &str) {
    for pair in text.as_bytes().chunks(2) {
        push(renderer, pair[0], if pair.len() > 1 { pair[1] } else { 0 });
    }
}

fn on_one(command: CaptionCommand) -> CaptionCode {
    CaptionCode { channel: Channel::One, command }
}

fn text(c: char) -> CaptionCommand {
    CaptionCommand::Text(Text { needs_backspace: false, char1: Some(c), char2: None })
}

#[test]
fn pop_on_text_is_hidden_until_its_end() {
    let mut renderer = Cea608Renderer::new();
    assert!(push(&mut renderer, 0x14, 0x20));
    assert_eq!(renderer.frame.mode(), Some(Cea608Mode::PopOn));
    push(&mut renderer, 0x14, 0x70);
    push_text(&mut renderer, "Hello");
    assert_eq!(renderer.frame.get_text(), "");
    assert!(push(&mut renderer, 0x14, 0x2f));
    assert_eq!(renderer.frame.get_text(), "Hello");
    assert!(push(&mut renderer, 0x14, 0x2c));
    assert_eq!(renderer.frame.get_text(), "");
}

#[test]
fn paint_on_text_is_shown_at_once() {
    let mut renderer = Cea608Renderer::new();
    push(&mut renderer, 0x14, 0x29);
    push(&mut renderer, 0x14, 0x70);
    push_text(&mut renderer, "AB");
    assert_eq!(renderer.frame.get_text(), "AB");
    assert_eq!(renderer.frame.iter()[0].no, 14);
    // backspace, and the row is cut off
    push(&mut renderer, 0x14, 0x21);
    assert_eq!(renderer.frame.get_text(), "A ");
    push(&mut renderer, 0x14, 0x24);
    assert_eq!(renderer.frame.get_text(), "A");
}

#[test]
fn rolled_up_lines_move() {
    let mut renderer = Cea608Renderer::new();
    push(&mut renderer, 0x14, 0x25);
    push_text(&mut renderer, "one ");
    push(&mut renderer, 0x14, 0x2d);
    push_text(&mut renderer, "two ");
    let rows: Vec<usize> = renderer.frame.iter().iter().map(|l| l.no).collect();
    assert_eq!(rows, vec![13, 14]);
    assert_eq!(renderer.frame.get_text(), "one \r\ntwo ");
    push(&mut renderer, 0x14, 0x2d);
    push_text(&mut renderer, "end ");
    assert_eq!(renderer.frame.get_text(), "two \r\nend ");
}

#[test]
fn other_channels_are_ignored() {
    let mut renderer = Cea608Renderer::new();
    renderer.set_channel(Channel::Two);
    assert_eq!(renderer.channel(), Some(Channel::Two));
    assert!(!push(&mut renderer, 0x14, 0x29));
    assert_eq!(renderer.frame.mode(), None);
    assert!(push(&mut renderer, 0x1c, 0x29));
    assert_eq!(renderer.frame.mode(), Some(Cea608Mode::PaintOn));
}

#[test]
fn parity_is_checked() {
    let mut renderer = Cea608Renderer::new();
    assert!(matches!(renderer.push_pair([0x14, 0x20]), Some(Err(InvalidParity))));
    // filler changes nothing
    assert!(matches!(renderer.push_pair([0x80, 0x80]), Some(Ok(false))));
}

#[test]
fn commands_are_decoded() {
    let mut renderer = Cea608Renderer::new();
    // a mid-row code: italics
    let code = renderer.decode([odd(0x11), odd(0x2e)]).unwrap().unwrap();
    assert_eq!(
        code,
        on_one(CaptionCommand::MidRowChange(MidRow { color: None, underline: false }))
    );
    // a preamble: second row, green
    let code = renderer.decode([odd(0x11), odd(0x62)]).unwrap().unwrap();
    assert_eq!(
        code,
        on_one(CaptionCommand::Preamble(PreambleAddressCode {
            row: 1,
            underline: false,
            code: PreambleType::Color(Color::Green),
        }))
    );
    let code = renderer.decode([odd(0x17), odd(0x22)]).unwrap().unwrap();
    assert_eq!(code, on_one(CaptionCommand::TabOffset(2)));
    // a command that is repeated counts once
    assert_eq!(renderer.decode([odd(0x17), odd(0x22)]), Ok(None));
    // a special character
    let code = renderer.decode([odd(0x11), odd(0x37)]).unwrap().unwrap();
    assert_eq!(code, on_one(text('\u{266a}')));
}

#[test]
fn preambles_have_columns_and_colors() {
    let indent = PreambleAddressCode { row: 3, underline: true, code: PreambleType::Indent(8) };
    assert_eq!(indent.column(), 8);
    assert_eq!(indent.color(), Color::White);
    assert!(!indent.italics());
    let italics = PreambleAddressCode { row: 3, underline: true, code: PreambleType::WhiteItalics };
    assert_eq!(italics.column(), 0);
    assert!(italics.italics());
    assert_eq!(TextStyle::from(italics), TextStyle::White);
    assert_eq!(TextStyle::from(indent), TextStyle::White);
}

#[test]
fn styles_are_numbered() {
    let all = [
        TextStyle::White,
        TextStyle::Green,
        TextStyle::Blue,
        TextStyle::Cyan,
        TextStyle::Red,
        TextStyle::Yellow,
        TextStyle::Magenta,
        TextStyle::ItalicWhite,
    ];
    for (i, style) in all.iter().enumerate() {
        assert_eq!(TextStyle::from(i as u32), *style);
        assert_eq!(style.is_italics(), i == 7);
    }
    assert_eq!(TextStyle::from(8u32), TextStyle::White);
    assert_eq!(TextStyle::Cyan.to_cea608_color(), Some(Color::Cyan));
    assert_eq!(TextStyle::ItalicWhite.to_cea608_color(), None);
    assert_eq!(TextStyle::from(Color::Red), TextStyle::Red);
    assert_eq!(
        TextStyle::from(MidRow { color: None, underline: true }),
        TextStyle::ItalicWhite
    );
}

#[test]
fn services_have_fields_and_channels() {
    assert_eq!(Id::from_value(3), Id::CC3);
    assert_eq!(Id::CC3.field(), Field::Two);
    assert_eq!(Id::CC3.channel(), Channel::One);
    assert_eq!(Id::from_caption_field_channel(Field::One, Channel::Two), Id::CC2);
    assert_eq!(Cea608Mode::RollUp3.rollup_rows(), Some(3));
    assert_eq!(Cea608Mode::PaintOn.rollup_rows(), None);
    assert!(Cea608Mode::RollUp4.is_rollup());
    assert!(!Cea608Mode::PopOn.is_rollup());
}

#[test]
fn columns_do_not_run_over() {
    let mut frame = Cea608Frame::new();
    assert!(frame.push_code(on_one(CaptionCommand::NewMode(Cea608Mode::PaintOn))));
    for _ in 0..40 {
        frame.push_code(on_one(text('x')));
    }
    frame.push_code(on_one(text('y')));
    let line = &frame.iter()[0];
    assert_eq!(line.display_iter().len(), 32);
    assert_eq!(line.display_iter()[31], Cea608Cell::Char('y'));
    assert_eq!(line.initial_preamble().row, 0);
}

#[test]
fn text_is_laid_out_with_its_attributes() {
    let mut renderer = Cea608Renderer::new();
    renderer.set_black_background(true);
    push(&mut renderer, 0x14, 0x29);
    // last row, underlined red
    push(&mut renderer, 0x14, 0x69);
    push_text(&mut renderer, "Hi");
    assert!(renderer.can_show());
    match renderer.generate_rectangle() {
        Rendering::Draw(layout) => {
            assert!(layout.text.contains("Hi"));
            assert_eq!(layout.first_row, 14);
            assert!(layout.attributes.iter().any(|a| matches!(
                a.kind,
                AttributeKind::Foreground { red: 65535, green: 0, blue: 0 }
            )));
            assert!(layout
                .attributes
                .iter()
                .any(|a| matches!(a.kind, AttributeKind::Underline(true))));
        }
        other => panic!("{other:?}"),
    }
}

#[test]
fn rectangle_is_placed_and_kept() {
    let mut renderer = Cea608Renderer::new();
    push(&mut renderer, 0x14, 0x29);
    push_text(&mut renderer, "Hi");
    assert!(renderer.needs_layout(1280, 720));
    renderer.set_video_size(1280, 720, 640);
    assert!(!renderer.needs_layout(1280, 720));
    let placed: Rectangle = renderer.place(14, 300, 48).unwrap();
    assert_eq!(placed, Rectangle { x: 448, y: 610, width: 300, height: 48 });
    match renderer.generate_rectangle() {
        Rendering::Ready(rectangle) => assert_eq!(rectangle, placed),
        other => panic!("{other:?}"),
    }
    // what changes the display is drawn again
    push_text(&mut renderer, "!!");
    assert!(matches!(renderer.generate_rectangle(), Rendering::Draw(_)));
    // and so is what another size or background moves
    assert!(renderer.place(7, 300, 48).is_some());
    renderer.set_video_size(1280, 720, 640);
    assert!(matches!(renderer.generate_rectangle(), Rendering::Ready(_)));
    renderer.set_video_size(640, 480, 640);
    assert!(matches!(renderer.generate_rectangle(), Rendering::Draw(_)));
    assert!(renderer.place(7, 300, 48).is_some());
    renderer.set_black_background(true);
    assert!(matches!(renderer.generate_rectangle(), Rendering::Draw(_)));
    renderer.clear();
    assert_eq!(renderer.frame.get_text(), "");
}

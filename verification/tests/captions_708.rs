use cea708_types::tables::Code;
use cea708_types::{CCDataParser, CCDataWriter, DTVCCPacket, Framerate as CcFramerate, Service};
use closedcaption::cea608tocea708::{Action, Cea608Format, Cea608ToCea708};
use closedcaption::cea608utils::TextStyle;
use closedcaption::cea708::{
    Anchor, Color, ColorValue, DefineWindowArgs, Direction, Opacity, ServiceCommand,
    SetPenAttributesArgs, SetPenColorArgs, SetPenLocationArgs,
};
use closedcaption::cea708mux::{
    Cea708Mux, Cea708MuxSinkPad, CeaFormat, Field, Head, Output, UnknownFormat, Window,
};
use closedcaption::cea708utils::window::{Align, Dimensions, ServiceState, WindowRendering};
use closedcaption::cea708utils::{
    cea608_color_to_foreground_color, textstyle_foreground_color, textstyle_to_pen_color,
    Cea708ServiceWriter,
};
use closedcaption::clock::{FlowError, Framerate};
use closedcaption::dtvcc::{add_header, is_accepted};

const FPS: Framerate = Framerate { numer: 30, denom: 1 };

fn odd(b: u8) -> u8 {
    if b.count_ones() % 2 == 0 {
        b | 0x80
    } else {
        b
    }
}

/// Captions with one packet that holds the given codes for services, without their header.
fn captions(sequence_no: u8, services: &[(u8, &[Code])]) -> Vec<u8> {
    let mut packet = DTVCCPacket::new(sequence_no);
    for (number, codes) in services {
        let mut service = Service::new(*number);
        for code in codes.iter() {
            service.push_code(code).unwrap();
        }
        packet.push_service(service).unwrap();
    }
    let mut writer = CCDataWriter::default();
    writer.push_packet(packet);
    let mut data = Vec::new();
    writer.write(CcFramerate::new(30, 1), &mut data).unwrap();
    data.split_off(2)
}

/// The codes of a service in captions without their header.
fn codes_of(parser: &mut CCDataParser, data: &[u8], number: u8) -> Vec<Code> {
    parser.push(&add_header(data)).unwrap();
    let mut codes = Vec::new();
    while let Some(packet) = parser.pop_packet() {
        for service in packet.services() {
            if service.number() == number {
                codes.extend_from_slice(service.codes());
            }
        }
    }
    codes
}

fn text_of(codes: &[Code]) -> String {
    codes.iter().filter_map(|c| c.char()).collect()
}

fn input() -> Cea708MuxSinkPad {
    let mut pad = Cea708MuxSinkPad::new();
    pad.format = CeaFormat::CcData;
    pad
}

fn buffer(start: u64, data: Vec<u8>) -> Head {
    Head::Buffer { start, duration: Some(33_333_333), data: Some(data) }
}

#[test]
fn formats_are_read() {
    let name = b"closedcaption/x-cea-708";
    assert_eq!(CeaFormat::from_caps(name, Some(b"cdp"), Field::Missing), Ok(CeaFormat::Cdp));
    assert_eq!(
        CeaFormat::from_caps(name, Some(b"cc_data"), Field::Missing),
        Ok(CeaFormat::CcData)
    );
    assert_eq!(
        CeaFormat::from_caps(name, Some(b"raw"), Field::Missing),
        Err(UnknownFormat::Format)
    );
    let name = b"closedcaption/x-cea-608";
    assert_eq!(
        CeaFormat::from_caps(name, Some(b"s334-1a"), Field::Missing),
        Ok(CeaFormat::S334_1a)
    );
    assert_eq!(
        CeaFormat::from_caps(name, Some(b"raw"), Field::Number(1)),
        Ok(CeaFormat::Cea608Field1)
    );
    assert_eq!(
        CeaFormat::from_caps(name, Some(b"raw"), Field::Number(2)),
        Err(UnknownFormat::Field)
    );
    assert_eq!(
        CeaFormat::from_caps(b"text/x-raw", Some(b"raw"), Field::Missing),
        Err(UnknownFormat::Name)
    );
}

#[test]
fn captions_of_all_inputs_are_merged() {
    let mut mux = Cea708Mux::new();
    mux.negotiated(CeaFormat::CcData, FPS);
    let mut pads = vec![input(), input()];
    let window = Cea708Mux::window(FPS, None, 0);
    assert_eq!(window.end, 33_333_333);
    let heads = vec![
        buffer(0, captions(0, &[(1, &[Code::LatinCapitalA]), (2, &[Code::LatinCapitalB])])),
        buffer(0, captions(0, &[(1, &[Code::LatinCapitalC])])),
    ];
    let collected = mux.collect(&mut pads, &heads, window, false);
    assert_eq!(collected.taken, vec![true, true]);
    assert_eq!(collected.outcome, Ok(()));
    match mux.output(&mut pads, FPS, window).unwrap() {
        Output::Buffer { data, start, duration } => {
            assert_eq!(start, 0);
            assert_eq!(duration, Some(33_333_333));
            assert!(is_accepted(&add_header(&data)));
            assert!(!is_accepted(&[0xc2, 0xff, 0xfc, 1, 2]));
            let mut parser = CCDataParser::new();
            assert_eq!(text_of(&codes_of(&mut parser, &data, 1)), "AC");
            let mut parser = CCDataParser::new();
            assert_eq!(text_of(&codes_of(&mut parser, &data, 2)), "B");
        }
        other => panic!("{other:?}"),
    }
    assert_eq!(mux.n_frames, 1);
    assert_eq!(mux.dtvcc_seq_no, 1);
}

#[test]
fn codes_that_do_not_fit_are_left_over() {
    let mut mux = Cea708Mux::new();
    mux.negotiated(CeaFormat::CcData, FPS);
    let mut pads = vec![input(), input()];
    let window = Window { start: 0, end: 33_333_333 };
    let many = vec![Code::LatinCapitalA; 20];
    let heads = vec![
        buffer(0, captions(0, &[(1, &many)])),
        buffer(0, captions(0, &[(1, &vec![Code::LatinCapitalB; 20])])),
    ];
    mux.collect(&mut pads, &heads, window, false);
    let first = mux.output(&mut pads, FPS, window).unwrap();
    assert_eq!(pads[1].pending_services[1].len(), 9);
    let next = mux.output(&mut pads, FPS, window).unwrap();
    let mut parser = CCDataParser::new();
    let mut text = String::new();
    for output in [first, next] {
        if let Output::Buffer { data, .. } = output {
            text += &text_of(&codes_of(&mut parser, &data, 1));
        }
    }
    assert_eq!(text, format!("{}{}", "A".repeat(20), "B".repeat(20)));
}

#[test]
fn inputs_that_are_not_ready_are_waited_for() {
    let mut mux = Cea708Mux::new();
    mux.negotiated(CeaFormat::CcData, FPS);
    let window = Window { start: 0, end: 33_333_333 };
    let mut pads = vec![input()];
    let collected = mux.collect(&mut pads, &vec![Head::Empty], window, false);
    assert_eq!(collected.outcome, Err(FlowError::NeedData));
    let collected = mux.collect(&mut pads, &vec![Head::Empty], window, true);
    assert_eq!(collected.outcome, Ok(()));
    let collected = mux.collect(&mut pads, &vec![Head::Eos], window, false);
    assert_eq!(collected.outcome, Err(FlowError::Eos));
    let collected = mux.collect(&mut pads, &vec![Head::Untimed], window, false);
    assert_eq!(collected.outcome, Err(FlowError::Error));
    assert!(collected.taken.is_empty());
    let later = vec![buffer(33_333_333, captions(0, &[]))];
    let collected = mux.collect(&mut pads, &later, window, false);
    assert_eq!(collected.taken, vec![false]);
    assert_eq!(collected.outcome, Ok(()));
    mux.flush();
    assert_eq!(mux.n_frames, 0);
    pads[0].flush();
}

fn written(writer: &mut Cea708ServiceWriter) -> Vec<Code> {
    let mut codes = Vec::new();
    while let Some(service) = writer.take_service(100) {
        assert_eq!(service.number(), 5);
        assert!(service.codes().iter().map(|c| c.byte_len()).sum::<usize>() <= 31);
        codes.extend_from_slice(service.codes());
    }
    codes
}

#[test]
fn service_codes_are_taken_in_blocks() {
    let mut writer = Cea708ServiceWriter::new(5);
    for c in "The quick brown fox jumps over the lazy dog".chars() {
        writer.write_char(c);
    }
    assert!(writer.take_service(0).is_none());
    assert_eq!(
        text_of(&written(&mut writer)),
        "The quick brown fox jumps over the lazy dog"
    );
    assert!(writer.take_service(100).is_none());
    // what cannot be written is left out
    writer.write_char('\u{4e00}');
    assert_eq!(text_of(&written(&mut writer)), "");
}

#[test]
fn windows_are_defined_for_the_modes() {
    let mut writer = Cea708ServiceWriter::new(5);
    writer.paint_on_preamble();
    let codes = written(&mut writer);
    assert!(codes.iter().any(|c| matches!(c, Code::DefineWindow(_))));
    writer.end_of_caption();
    let codes = written(&mut writer);
    assert!(codes.iter().any(|c| matches!(c, Code::ToggleWindows(_))));
    writer.etx();
    writer.backspace();
    writer.carriage_return();
    assert_eq!(written(&mut writer), vec![Code::ETX, Code::BS, Code::CR]);
    writer.push_codes(&[Code::FF]);
    assert_eq!(written(&mut writer), vec![Code::FF]);
    assert!(!writer.try_push_codes(&[Code::CR, Code::Delay(3)]));
    assert_eq!(writer.codes.len(), 0);
    assert!(writer.try_push_codes(&[Code::CR, Code::DelayCancel]));
    assert_eq!(written(&mut writer), vec![Code::CR, Code::DelayCancel]);
    writer.rollup_preamble(3, 14);
    let codes = written(&mut writer);
    let rows: Vec<u8> = codes
        .iter()
        .filter_map(|c| if let Code::DefineWindow(args) = c { Some(args.row_count) } else { None })
        .collect();
    assert_eq!(rows, vec![2]);
}

#[test]
fn pens_are_set() {
    let mut writer = Cea708ServiceWriter::new(5);
    writer.set_pen_location(SetPenLocationArgs { row: 3, column: 17 });
    match &written(&mut writer)[..] {
        [Code::SetPenLocation(args)] => assert_eq!((args.row, args.column), (3, 17)),
        other => panic!("{other:?}"),
    }
    writer.set_pen_color(textstyle_to_pen_color(TextStyle::Red));
    match &written(&mut writer)[..] {
        [Code::SetPenColor(args)] => {
            assert_eq!(args.foreground_color.r, cea708_types::tables::ColorValue::Full);
            assert_eq!(args.foreground_color.g, cea708_types::tables::ColorValue::None);
        }
        other => panic!("{other:?}"),
    }
    writer.set_pen_attributes(pen(true, false));
    match &written(&mut writer)[..] {
        [Code::SetPenAttributes(args)] => assert!(args.italics && !args.underline),
        other => panic!("{other:?}"),
    }
}

fn pen(italics: bool, underline: bool) -> SetPenAttributesArgs {
    SetPenAttributesArgs {
        pen_size: 1,
        font_style: 0,
        text_tag: 0,
        offset: 1,
        italics,
        underline,
        edge_type: 0,
    }
}

fn color(r: ColorValue, g: ColorValue, b: ColorValue) -> Color {
    Color { r, g, b }
}

#[test]
fn styles_have_colors() {
    let full = ColorValue::Full;
    let zero = ColorValue::Zero;
    assert_eq!(textstyle_foreground_color(TextStyle::ItalicWhite), color(full, full, full));
    assert_eq!(textstyle_foreground_color(TextStyle::Cyan), color(zero, full, full));
    assert_eq!(
        cea608_color_to_foreground_color(closedcaption::cea608::Color::Yellow),
        color(full, full, zero)
    );
    let pen = textstyle_to_pen_color(TextStyle::Blue);
    assert_eq!(pen.foreground_color, color(zero, zero, full));
    assert_eq!(pen.foreground_opacity, Opacity::Solid);
}

fn window(visible: bool) -> DefineWindowArgs {
    DefineWindowArgs {
        window_id: 2,
        priority: 3,
        anchor_point: Anchor::BottomMiddle,
        relative_positioning: true,
        anchor_vertical: 100,
        anchor_horizontal: 50,
        row_count: 1,
        column_count: 31,
        row_lock: true,
        column_lock: false,
        visible,
        window_style_id: 1,
        pen_style_id: 2,
    }
}

#[test]
fn commands_are_read_back() {
    let args = window(true);
    assert_eq!(
        ServiceCommand::decode(&args.to_bytes(), None),
        ServiceCommand::DefineWindow(args)
    );
    let args = pen(true, true);
    assert_eq!(
        ServiceCommand::decode(&args.to_bytes(), None),
        ServiceCommand::SetPenAttributes(args)
    );
    let args = SetPenColorArgs {
        foreground_color: color(ColorValue::OneThird, ColorValue::TwoThirds, ColorValue::Full),
        foreground_opacity: Opacity::Flash,
        background_color: color(ColorValue::Zero, ColorValue::Full, ColorValue::OneThird),
        background_opacity: Opacity::Transparent,
        edge_color: color(ColorValue::Full, ColorValue::Zero, ColorValue::TwoThirds),
    };
    assert_eq!(
        ServiceCommand::decode(&args.to_bytes(), None),
        ServiceCommand::SetPenColor(args)
    );
    let args = SetPenLocationArgs { row: 14, column: 41 };
    assert_eq!(
        ServiceCommand::decode(&args.to_bytes(), None),
        ServiceCommand::SetPenLocation(args)
    );
    assert_eq!(ServiceCommand::decode(&[0x41], Some('A')), ServiceCommand::Char('A'));
    assert_eq!(ServiceCommand::decode(&[0x83], None), ServiceCommand::SetCurrentWindow(3));
    assert_eq!(ServiceCommand::decode(&[0x8c, 0x81], None), ServiceCommand::DeleteWindows(0x81));
}

#[test]
fn commands_are_those_of_the_codes() {
    for code in [Code::ETX, Code::BS, Code::FF, Code::CR, Code::HCR, Code::Reset] {
        let mut bytes = Vec::new();
        code.write(&mut bytes).unwrap();
        let expected = match code {
            Code::ETX => ServiceCommand::EndOfText,
            Code::BS => ServiceCommand::Backspace,
            Code::FF => ServiceCommand::FormFeed,
            Code::CR => ServiceCommand::CarriageReturn,
            Code::HCR => ServiceCommand::HorizontalCarriageReturn,
            _ => ServiceCommand::Reset,
        };
        assert_eq!(ServiceCommand::decode(&bytes, code.char()), expected);
    }
    let args = window(false);
    match Code::from_data(&args.to_bytes()).unwrap().as_slice() {
        [Code::DefineWindow(read)] => {
            assert_eq!(read.window_id, 2);
            assert_eq!(read.priority, 3);
            assert_eq!(read.anchor_vertical, 100);
            assert_eq!(read.column_count, 31);
            assert!(read.row_lock && !read.column_lock && !read.visible);
            assert_eq!((read.window_style_id, read.pen_style_id), (1, 2));
        }
        other => panic!("{other:?}"),
    }
}

fn row_text(state: &ServiceState, window: usize, line: usize) -> String {
    state.windows[window].lines[line]
        .line
        .iter()
        .map(|cell| cell.character.unwrap_or('.'))
        .collect()
}

fn type_text(state: &mut ServiceState, text: &str) {
    for c in text.chars() {
        state.handle_code(&ServiceCommand::Char(c));
    }
}

#[test]
fn text_goes_to_the_current_window() {
    let mut state = ServiceState::new(Dimensions { w: 100, h: 100 });
    // there is no window yet
    type_text(&mut state, "x");
    state.handle_code(&ServiceCommand::DefineWindow(window(true)));
    assert_eq!(state.windows.len(), 1);
    type_text(&mut state, "Hello");
    state.handle_code(&ServiceCommand::Backspace);
    assert_eq!(row_text(&state, 0, 0).trim_end_matches('.'), "Hell");
    state.handle_code(&ServiceCommand::ClearWindows(0x04));
    assert!(state.windows[0].lines.is_empty());
    state.handle_code(&ServiceCommand::HideWindows(0xff));
    assert!(!state.windows[0].visible);
    assert!(matches!(state.windows[0].generate_rectangle(), WindowRendering::Hidden));
    state.handle_code(&ServiceCommand::ToggleWindows(0x04));
    assert!(state.windows[0].visible);
    state.handle_code(&ServiceCommand::DeleteWindows(0x04));
    assert!(state.windows.is_empty());
}

#[test]
fn lines_scroll_in_a_window() {
    let mut state = ServiceState::new(Dimensions { w: 100, h: 100 });
    state.handle_code(&ServiceCommand::DefineWindow(window(true)));
    type_text(&mut state, "one");
    state.handle_code(&ServiceCommand::CarriageReturn);
    type_text(&mut state, "two");
    assert_eq!(row_text(&state, 0, 0), "one");
    assert_eq!(row_text(&state, 0, 1), "two");
    state.handle_code(&ServiceCommand::CarriageReturn);
    type_text(&mut state, "end");
    assert_eq!(row_text(&state, 0, 0), "two");
    assert_eq!(row_text(&state, 0, 1), "end");
    match state.windows[0].generate_rectangle() {
        WindowRendering::Draw(layout) => assert_eq!(layout.text, "two\nend"),
        other => panic!("{other:?}"),
    }
    let rectangle = state.windows[0].place(40, 20);
    assert_eq!((rectangle.width, rectangle.height), (40, 20));
    match state.windows[0].generate_rectangle() {
        WindowRendering::Ready(kept) => assert_eq!(kept, rectangle),
        other => panic!("{other:?}"),
    }
}

#[test]
fn anchors_are_aligned() {
    assert!(matches!(Align::horizontal_from_anchor(Anchor::TopRight), Align::Last));
    assert!(matches!(Align::vertical_from_anchor(Anchor::TopRight), Align::First));
    assert!(matches!(Align::horizontal_from_anchor(Anchor::BottomMiddle), Align::Center));
    assert!(matches!(Align::vertical_from_anchor(Anchor::CenterLeft), Align::Center));
    assert_eq!(Anchor::BottomRight.number(), 8);
    assert_eq!(Direction::TopToBottom, Direction::TopToBottom);
}

fn triples(field1: bool, pairs: &[[u8; 2]]) -> Vec<u8> {
    let mut data = Vec::new();
    for pair in pairs {
        data.push(if field1 { 0x80 } else { 0 });
        data.push(odd(pair[0]));
        data.push(odd(pair[1]));
    }
    data
}

#[test]
fn captions_are_converted() {
    let mut converter = Cea608ToCea708::new();
    let framerate = Some(FPS);
    assert!(converter.set_caps(Some(b"s334-1a"), Field::Missing, framerate));
    assert_eq!(converter.format, Cea608Format::S334_1A);
    let pairs =
        [[0x14, 0x29], [0x14, 0x70], [b'H', b'e'], [b'l', b'l'], [b'o', b'!']];
    let mut parser = CCDataParser::new();
    parser.handle_cea608();
    let mut codes = Vec::new();
    let mut kept = Vec::new();
    for (i, pair) in pairs.iter().enumerate() {
        match converter.sink_chain(Some(i as u64), Some(1), &triples(true, &[*pair])).unwrap() {
            Action::Buffer { data, pts, duration } => {
                assert_eq!((pts, duration), (i as u64, Some(1)));
                codes.extend(codes_of(&mut parser, &data, 1));
                for pair in parser.cea608().unwrap() {
                    kept.push(*pair);
                }
            }
            other => panic!("{other:?}"),
        }
    }
    assert_eq!(text_of(&codes), "Hello!");
    assert!(codes.iter().any(|c| matches!(c, Code::DefineWindow(_))));
    // the captions that came in go on
    assert_eq!(kept[0], cea708_types::Cea608::Field1(odd(0x14), odd(0x29)));
}

#[test]
fn fields_become_services() {
    let mut converter = Cea608ToCea708::new();
    converter.set_caps(Some(b"raw"), Field::Number(1), Some(FPS));
    assert_eq!(converter.format, Cea608Format::RawField1);
    let mut parser = CCDataParser::new();
    let mut codes = Vec::new();
    for pair in [[0x14, 0x29], [b'A', b'B']] {
        let data = [odd(pair[0]), odd(pair[1])];
        if let Action::Buffer { data, .. } = converter.sink_chain(Some(0), None, &data).unwrap() {
            codes.extend(codes_of(&mut parser, &data, 2));
        }
    }
    assert_eq!(text_of(&codes), "AB");
}

#[test]
fn unusable_captions_are_named() {
    let mut converter = Cea608ToCea708::new();
    assert!(converter.set_caps(Some(b"s334-1a"), Field::Missing, Some(FPS)));
    assert!(matches!(converter.sink_chain(Some(0), None, &[0x80, 0x94]), Ok(Action::Pass)));
    assert!(matches!(
        converter.sink_chain(Some(0), None, &[0x80, 0x94, 0x20, 0x80]),
        Ok(Action::Unsupported)
    ));
    assert!(matches!(converter.sink_chain(None, None, &[]), Err(FlowError::Error)));
    converter.flush_stop();
    assert_eq!(converter.packet_counter, 0);
}

use kraster2d::platform::{Event, Key, MouseButton, PlatformError, WindowConfig};
use kraster2d::term::{PresentError, TermGuard, TermPlatform};

#[test]
fn window_config_new() {
    let cfg = WindowConfig::new("hello", 320, 240);
    assert_eq!(cfg.title, "hello");
    assert_eq!(cfg.width, 320);
    assert_eq!(cfg.height, 240);
}

#[test]
fn platform_error_from_io() {
    let e = std::io::Error::other("boom");
    let pe: PlatformError = e.into();
    assert!(pe.to_string().contains("IO error"));
    assert_eq!(pe.to_string(), "IO error: boom");
}

#[test]
fn platform_error_texts() {
    assert_eq!(PlatformError::Unsupported.to_string(), "Unsupported platform or configuration");
    assert_eq!(PlatformError::Backend("x11".to_string()).to_string(), "Backend error: x11");
    assert_eq!(PlatformError::Backend(String::new()).to_string(), "Backend error: ");
}

#[test]
fn event_variants_constructible() {
    let _e1 = Event::CloseRequested;
    let _e2 = Event::KeyDown(Key::Escape);
    let _e3 = Event::MouseDown { button: MouseButton::Left, x: 1, y: 2 };
}

#[test]
fn present_one_pixel_generates_escape() {
    let cfg = WindowConfig::new("term", 1, 1);
    let mut term = TermPlatform::new(&cfg);
    let px = [u32::from_le_bytes([10, 20, 30, 255])];
    let mut buf = Vec::new();
    term.present_to_writer(1, 1, &px, &mut buf).unwrap();
    let s = String::from_utf8(buf).unwrap();
    assert!(s.contains("\u{1b}[48;2;10;20;30m"));
    assert!(s.contains("\u{1b}[0m"));
    assert_eq!(s, "\u{1b}[H\u{1b}[48;2;10;20;30m \u{1b}[0m\n");
    assert_eq!(term.size(), (1, 1));
}

#[test]
fn write_row_truecolor_rle() {
    let a = u32::from_le_bytes([1, 2, 3, 255]);
    let b = u32::from_le_bytes([9, 8, 7, 255]);
    let c = u32::from_le_bytes([50, 60, 70, 255]);
    let row = [a, a, a, b, b, c, c, c, c];
    let mut v = Vec::new();
    TermPlatform::write_row_truecolor(&mut v, &row);
    let s = String::from_utf8(v).unwrap();
    assert_eq!(s.matches("\u{1b}[48;2;").count(), 3);
    assert!(s.ends_with("\u{1b}[0m\n"));
    let spaces = s.chars().filter(|&ch| ch == ' ').count();
    assert_eq!(spaces, row.len());
    assert_eq!(
        s,
        "\u{1b}[48;2;1;2;3m   \u{1b}[48;2;9;8;7m  \u{1b}[48;2;50;60;70m    \u{1b}[0m\n"
    );
}

#[test]
fn term_guard_sequences() {
    let mut buf = Vec::new();
    TermGuard::emit_enter(&mut buf);
    let s = String::from_utf8(buf).unwrap();
    assert!(s.contains("\u{1b}[?1049h"));
    assert!(s.contains("\u{1b}[?25l"));
    assert!(s.contains("\u{1b}[2J"));
    assert!(s.contains("\u{1b}[H"));
    assert_eq!(s, "\u{1b}[?1049h\u{1b}[?25l\u{1b}[2J\u{1b}[H");

    let mut buf2 = Vec::new();
    TermGuard::emit_leave(&mut buf2);
    let s2 = String::from_utf8(buf2).unwrap();
    assert!(s2.contains("\u{1b}[?25h"));
    assert!(s2.contains("\u{1b}[0m"));
    assert!(s2.contains("\u{1b}[?1049l"));
    assert_eq!(s2, "\u{1b}[?25h\u{1b}[0m\u{1b}[?1049l");
}

#[test]
fn parse_basic_keys() {
    let e = TermPlatform::parse_event(b"a").unwrap();
    assert!(matches!(e.0, Event::KeyDown(Key::Char('a'))));
    let e = TermPlatform::parse_event(b"\n").unwrap();
    assert!(matches!(e.0, Event::KeyDown(Key::Enter)));
    let e = TermPlatform::parse_event(b"\x7f").unwrap();
    assert!(matches!(e.0, Event::KeyDown(Key::Backspace)));
}

#[test]
fn parse_arrows_and_escape() {
    let e = TermPlatform::parse_event(b"\x1b[A").unwrap();
    assert!(matches!(e.0, Event::KeyDown(Key::Up)));
    let e = TermPlatform::parse_event(b"\x1b[B").unwrap();
    assert!(matches!(e.0, Event::KeyDown(Key::Down)));
    let e = TermPlatform::parse_event(b"\x1b[C").unwrap();
    assert!(matches!(e.0, Event::KeyDown(Key::Right)));
    let e = TermPlatform::parse_event(b"\x1b[D").unwrap();
    assert!(matches!(e.0, Event::KeyDown(Key::Left)));
    let e = TermPlatform::parse_event(b"\x1b").unwrap();
    assert!(matches!(e.0, Event::KeyDown(Key::Escape)));
}

#[test]
fn parse_edges() {
    assert_eq!(TermPlatform::parse_event(b""), None);
    assert_eq!(TermPlatform::parse_event(b"\x1b[Z"), None);
    assert_eq!(TermPlatform::parse_event(b"\x00"), None);
    assert_eq!(TermPlatform::parse_event(b"\x80"), None);
    assert_eq!(TermPlatform::parse_event(b"\x1b["), Some((Event::KeyDown(Key::Escape), 1)));
    assert_eq!(TermPlatform::parse_event(b"\x1bOA"), Some((Event::KeyDown(Key::Escape), 1)));
    assert_eq!(TermPlatform::parse_event(b"\x1b[Axyz"), Some((Event::KeyDown(Key::Up), 3)));
    assert_eq!(TermPlatform::parse_event(b"\r"), Some((Event::KeyDown(Key::Enter), 1)));
    assert_eq!(TermPlatform::parse_event(b"\x08"), Some((Event::KeyDown(Key::Backspace), 1)));
    assert_eq!(TermPlatform::parse_event(b" "), Some((Event::KeyDown(Key::Char(' ')), 1)));
    assert_eq!(TermPlatform::parse_event(b"~"), Some((Event::KeyDown(Key::Char('~')), 1)));
}

#[test]
fn input_is_taken_event_by_event() {
    let mut term = TermPlatform::new(&WindowConfig::new("t", 2, 2));
    assert_eq!(term.take_event(), None);
    term.push_input(b"a\x1b[");
    term.push_input(b"Cb");
    assert_eq!(term.take_event(), Some(Event::KeyDown(Key::Char('a'))));
    assert_eq!(term.take_event(), Some(Event::KeyDown(Key::Right)));
    assert_eq!(term.take_event(), Some(Event::KeyDown(Key::Char('b'))));
    assert_eq!(term.take_event(), None);
    // bytes that start no key press stay where they are
    term.push_input(b"\x00a");
    assert_eq!(term.take_event(), None);
    assert_eq!(term.take_event(), None);
}

#[test]
fn present_rows_and_errors() {
    let mut term = TermPlatform::new(&WindowConfig::new("t", 2, 2));
    let r = u32::from_le_bytes([255, 0, 0, 255]);
    let r2 = u32::from_le_bytes([255, 0, 0, 7]);
    let g = u32::from_le_bytes([0, 255, 0, 255]);
    let mut buf = b">".to_vec();
    term.present_to_writer(2, 2, &[r, r2, g, r, 99], &mut buf).unwrap();
    assert_eq!(
        String::from_utf8(buf).unwrap(),
        ">\u{1b}[H\u{1b}[48;2;255;0;0m  \u{1b}[0m\n\u{1b}[48;2;0;255;0m \u{1b}[48;2;255;0;0m \u{1b}[0m\n"
    );
    let mut small = Vec::new();
    assert_eq!(
        term.present_to_writer(2, 2, &[r, g, g], &mut small),
        Err(PresentError::BufferTooSmall)
    );
    assert!(small.is_empty());
    let mut none = Vec::new();
    term.present_to_writer(0, 3, &[], &mut none).unwrap();
    assert_eq!(String::from_utf8(none).unwrap(), "\u{1b}[H\u{1b}[0m\n\u{1b}[0m\n\u{1b}[0m\n");
    let mut sp = Vec::new();
    TermPlatform::write_spaces(&mut sp, 70);
    assert_eq!(sp, vec![b' '; 70]);
    let mut e = Vec::new();
    TermPlatform::write_row_truecolor(&mut e, &[]);
    assert_eq!(e, b"\x1b[0m\n".to_vec());
}

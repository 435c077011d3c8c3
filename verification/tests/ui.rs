use ratatui::widgets::{Block, Borders};

use pasotsu_term::app::{App, Mode, Popup};
use pasotsu_term::channel::{Channel, PortConfig};
use pasotsu_term::layout::{centered, inner, Rect};
use pasotsu_term::screen::{Cell, CellColor};
use pasotsu_term::style::{Color, Span, Style};
use pasotsu_term::ui::{checked_draw, draw, draw_cell, draw_popup, plan, render_screen};
use pasotsu_term::ui::{status_line, title_line, title_style, vt_color, DrawStep};

fn channel(name: &str) -> Channel {
    Channel {
        name: name.to_string(),
        cfg: PortConfig { path: None, baud: 9600, format: "8N1".to_string() },
        open: false,
        encoding: "SJIS".to_string(),
        newline: "CR".to_string(),
        backspace: 0x08,
        local_echo: false,
        logging: false,
        modem: None,
        rx_bytes: 0,
        tx_bytes: 0,
        status: String::new(),
        parser: vt100::Parser::new(2, 6, 100),
    }
}

fn app() -> App {
    App {
        channels: [channel("A"), channel("B")],
        active: 0,
        mode: Mode::Normal,
        popup: None,
        zoom: false,
        scroll: 0,
        quit: false,
        redraw: false,
        baud_rates: vec![300, 1200, 2400, 4800, 9600],
        encodings: vec!["SJIS".to_string()],
    }
}

fn rect(x: u16, y: u16, width: u16, height: u16) -> Rect {
    Rect { x, y, width, height }
}

fn text(spans: &[Span]) -> String {
    spans.iter().map(|s| s.text.as_str()).collect()
}

fn plain(fg: Option<Color>, bg: Option<Color>) -> Style {
    Style { fg, bg, bold: false, italic: false, underlined: false, reversed: false }
}

#[test]
fn titles_tell_panes_apart() {
    let s = title_style(0, true);
    assert_eq!((s.fg, s.bg), (Some(Color::White), Some(Color::Rgb(32, 80, 208))));
    assert!(s.bold);
    assert_eq!(title_style(1, false), plain(Some(Color::Gray), Some(Color::Rgb(16, 56, 24))));
    assert_eq!(title_style(1, true).bg, Some(Color::Rgb(24, 144, 64)));
    assert_eq!(title_style(0, false).bg, Some(Color::Rgb(16, 32, 80)));
}

#[test]
fn title_of_a_closed_line() {
    let spans = title_line(&channel("B"), false);
    assert_eq!(text(&spans), " B  ○ (未設定)  9600bps 8N1  [SJIS CR]  RX:0 TX:0  ");
    assert_eq!(spans.len(), 4);
    assert_eq!(spans[1].style, plain(Some(Color::LightRed), None));
    assert_eq!(spans[2].text, "");
}

#[test]
fn title_of_an_open_line() {
    let mut c = channel("A");
    c.cfg.path = Some("/dev/cu.x".to_string());
    c.cfg.baud = 300;
    c.open = true;
    c.modem = Some("MD24".to_string());
    c.backspace = 0x7f;
    c.local_echo = true;
    c.logging = true;
    c.rx_bytes = 1234567;
    c.tx_bytes = 89;
    c.status = "接続".to_string();
    let spans = title_line(&c, true);
    assert_eq!(spans[0].text, "▶A ");
    assert_eq!((spans[1].text.as_str(), spans[1].style.fg), (" ● ", Some(Color::LightGreen)));
    assert_eq!((spans[2].text.as_str(), spans[2].style.fg), ("[MD24] ", Some(Color::LightYellow)));
    assert_eq!(
        spans[3].text,
        "/dev/cu.x  300bps 8N1  [SJIS CR DEL ECHO LOG]  RX:1234567 TX:89  接続"
    );
}

#[test]
fn status_follows_the_mode() {
    let mut a = app();
    let spans = status_line(&a);
    assert_eq!(spans.len(), 10);
    assert_eq!(spans[2].style, plain(Some(Color::Black), Some(Color::Gray)));
    assert_eq!(
        text(&spans),
        " Ctrl-A  コマンド   Ctrl-A Tab  画面切替   Ctrl-A b  bps   Ctrl-A ?  ヘルプ   Ctrl-A q  終了"
    );
    a.mode = Mode::Scroll;
    a.scroll = 42;
    let spans = status_line(&a);
    assert_eq!(text(&spans), " 履歴  42 行上  ↑↓/PgUp/PgDn/g/G で移動  Esc/q で戻る");
    assert_eq!(spans[0].style.bg, Some(Color::Cyan));
    a.mode = Mode::Prefix;
    let spans = status_line(&a);
    assert_eq!(spans.len(), 2);
    assert_eq!(spans[0].style.bg, Some(Color::Yellow));
    assert!(spans[1].text.starts_with(" Tab:切替 b:bps") && spans[1].text.ends_with("q:終了"));
}

#[test]
fn cell_colours() {
    assert_eq!(vt_color(CellColor::Usual, Color::White), Color::White);
    assert_eq!(vt_color(CellColor::Idx(9), Color::White), Color::Indexed(9));
    assert_eq!(vt_color(CellColor::Rgb(1, 2, 3), Color::White), Color::Rgb(1, 2, 3));
}

fn cell(contents: &str) -> Cell {
    Cell {
        contents: contents.to_string(),
        fg: CellColor::Usual,
        bg: CellColor::Usual,
        bold: false,
        italic: false,
        underline: false,
        inverse: false,
        wide: false,
        continuation: false,
    }
}

#[test]
fn cells_are_drawn_in_their_place() {
    let area = rect(10, 5, 4, 3);
    assert!(draw_cell(None, area, 0, 0, Color::Black).is_none());
    let c = Cell { continuation: true, ..cell("") };
    assert!(draw_cell(Some(c), area, 0, 0, Color::Black).is_none());
    let c = Cell { bold: true, inverse: true, fg: CellColor::Idx(3), ..cell("x") };
    match draw_cell(Some(c), area, 2, 1, Color::Black) {
        Some(DrawStep::Put { x, y, text, width, style }) => {
            assert_eq!((x, y, text.as_str(), width), (11, 7, "x", 3));
            assert_eq!((style.fg, style.bg), (Some(Color::Indexed(3)), Some(Color::Black)));
            assert!(style.bold && style.reversed && !style.italic && !style.underlined);
        }
        _ => panic!("not drawn"),
    }
    match draw_cell(Some(cell("")), area, 0, 3, Color::Black) {
        Some(DrawStep::Put { text, width, style, .. }) => {
            assert_eq!((text.as_str(), width), (" ", 1));
            assert_eq!(style.fg, Some(Color::Rgb(224, 224, 224)));
        }
        _ => panic!("not drawn"),
    }
}

#[test]
fn wide_characters_need_room() {
    let area = rect(0, 0, 4, 1);
    let wide = || Some(Cell { wide: true, ..cell("漢") });
    assert!(matches!(draw_cell(wide(), area, 0, 2, Color::Black), Some(DrawStep::Put { .. })));
    assert!(
        matches!(draw_cell(wide(), area, 0, 3, Color::Black), Some(DrawStep::Blank { x: 3, y: 0, .. }))
    );
}

#[test]
fn screens_are_drawn_row_by_row() {
    let mut p = vt100::Parser::new(2, 4, 10);
    p.process("a\u{1b}[1;31mb\u{1b}[0m漢\r\n\u{1b}[4mz".as_bytes());
    let mut steps = Vec::new();
    render_screen(&p, rect(1, 1, 4, 2), Color::Black, &mut steps);
    let seen: Vec<(u16, u16, String)> = steps
        .iter()
        .map(|s| match s {
            DrawStep::Put { x, y, text, .. } => (*x, *y, text.clone()),
            _ => panic!("unexpected step"),
        })
        .collect();
    let want: Vec<(u16, u16, String)> = [
        (1, 1, "a"),
        (2, 1, "b"),
        (3, 1, "漢"),
        (1, 2, "z"),
        (2, 2, " "),
        (3, 2, " "),
        (4, 2, " "),
    ]
    .iter()
    .map(|(x, y, t)| (*x, *y, t.to_string()))
    .collect();
    assert_eq!(seen, want);
    match &steps[1] {
        DrawStep::Put { style, .. } => {
            assert!(style.bold);
            assert_eq!(style.fg, Some(Color::Indexed(1)));
        }
        _ => panic!("unexpected step"),
    }
    assert!(matches!(&steps[3], DrawStep::Put { style, .. } if style.underlined));
}

#[test]
fn history_is_drawn_when_scrolled_back() {
    let mut p = vt100::Parser::new(2, 2, 10);
    p.process(b"1\r\n2\r\n3\r\n4");
    p.set_scrollback(1);
    let mut steps = Vec::new();
    render_screen(&p, rect(0, 0, 1, 2), Color::Black, &mut steps);
    let seen: Vec<String> = steps
        .iter()
        .map(|s| match s {
            DrawStep::Put { text, .. } => text.clone(),
            _ => String::new(),
        })
        .collect();
    assert_eq!(seen, vec!["2".to_string(), "3".to_string()]);
}

#[test]
fn areas_beyond_the_screen_stay_empty() {
    let p = vt100::Parser::new(1, 1, 0);
    let mut steps = Vec::new();
    render_screen(&p, rect(0, 0, 5, 5), Color::Black, &mut steps);
    assert_eq!(steps.len(), 1);
}

#[test]
fn windows_are_centred() {
    assert_eq!(centered(rect(0, 0, 80, 24), 32, 10), rect(24, 7, 32, 10));
    assert_eq!(centered(rect(3, 4, 9, 5), 4, 2), rect(5, 5, 4, 2));
    assert_eq!(centered(rect(3, 4, 9, 5), 20, 20), rect(3, 4, 9, 5));
}

#[test]
fn borders_take_one_on_each_side() {
    for (x, y, w, h) in [(0, 0, 10, 5), (3, 4, 1, 1), (3, 4, 0, 0), (7, 7, 2, 0), (7, 7, 1, 3)] {
        let block = Block::default().borders(Borders::ALL);
        let want = block.inner(ratatui::layout::Rect { x, y, width: w, height: h });
        let got = inner(rect(x, y, w, h));
        assert_eq!((got.x, got.y, got.width, got.height), (want.x, want.y, want.width, want.height));
    }
}

#[test]
fn speed_window() {
    let mut c = channel("A");
    c.cfg.baud = 1200;
    let popup = Popup::Baud { sel: 2, custom: "57".to_string() };
    let rates = vec![300, 1200, 115200, 123456789];
    let steps = draw_popup(&popup, &c, &rates, rect(0, 0, 80, 24), rect(1, 1, 2, 2), rect(5, 5, 3, 1));
    assert_eq!(steps.len(), 4);
    let place = rect(24, 8, 32, 8);
    assert!(matches!(&steps[0], DrawStep::Clear { area } if *area == place));
    assert!(
        matches!(&steps[1], DrawStep::Frame { area, edge } if *area == place && edge.title == " A の bps ")
    );
    match &steps[2] {
        DrawStep::List { area, border, items, selected, highlight } => {
            assert_eq!(*area, rect(1, 1, 2, 2));
            assert!(border.is_none());
            assert_eq!(items, &["     300", "    1200 *", "  115200", "123456789"]);
            assert_eq!(*selected, 2);
            assert!(highlight.bold && highlight.bg == Some(Color::Blue));
        }
        _ => panic!("no list"),
    }
    assert!(matches!(&steps[3], DrawStep::Text { text, .. } if text == "任意: 57_"));
    let popup = Popup::Baud { sel: 2, custom: String::new() };
    let steps = draw_popup(&popup, &c, &rates, rect(0, 0, 80, 24), rect(1, 1, 2, 2), rect(5, 5, 3, 1));
    match &steps[3] {
        DrawStep::Text { area, border, text, style } => {
            assert_eq!((*area, text.as_str()), (rect(5, 5, 3, 1), "数字入力で任意値 / Enter"));
            assert!(border.is_none());
            assert_eq!(*style, plain(Some(Color::Yellow), None));
        }
        _ => panic!("no text"),
    }
}

#[test]
fn port_window() {
    let c = channel("B");
    let area = rect(0, 0, 80, 24);
    let none = Popup::Port { ports: Vec::new(), sel: 0 };
    let steps = draw_popup(&none, &c, &vec![300], area, area, area);
    assert_eq!(steps.len(), 2);
    match &steps[1] {
        DrawStep::Text { area, border, text, style } => {
            assert_eq!(*area, rect(15, 10, 50, 3));
            assert_eq!(text, "シリアルポートが見つかりません");
            let b = border.as_ref().unwrap();
            assert_eq!(b.title, " B のポート (Enter で接続) ");
            assert_eq!(b.style, plain(Some(Color::White), Some(Color::Black)));
            assert_eq!(*style, plain(None, None));
        }
        _ => panic!("no text"),
    }
    let two = Popup::Port { ports: vec!["p".to_string(), "q".to_string()], sel: 1 };
    let steps = draw_popup(&two, &c, &vec![300], area, area, area);
    match &steps[1] {
        DrawStep::List { area, border, items, selected, .. } => {
            assert_eq!(*area, rect(15, 10, 50, 4));
            assert!(border.is_some());
            assert_eq!((items.as_slice(), *selected), (&["p".to_string(), "q".to_string()][..], 1));
        }
        _ => panic!("no list"),
    }
}

#[test]
fn help_window() {
    let area = rect(0, 0, 80, 40);
    let steps = draw_popup(&Popup::Help, &channel("A"), &vec![300], area, area, area);
    match &steps[1] {
        DrawStep::Text { area, border, text, .. } => {
            assert_eq!(*area, rect(16, 8, 48, 24));
            assert_eq!(border.as_ref().unwrap().title, " ヘルプ ");
            let lines: Vec<&str> = text.split('\n').collect();
            assert_eq!(lines.len(), 22);
            assert_eq!(lines[0], "Ctrl-A をプレフィックスにして以下のキー");
            assert_eq!(lines[15], "  Ctrl-L        表示の描き直し");
            assert_eq!(lines[21], "何かキーを押すと閉じます");
        }
        _ => panic!("no text"),
    }
}

#[test]
fn two_panes_share_the_window() {
    let a = app();
    let p = plan(&a, rect(0, 0, 40, 21));
    assert_eq!(p.status, rect(0, 20, 40, 1));
    assert_eq!(p.panes.len(), 2);
    assert_eq!((p.panes[0].index, p.panes[1].index), (0, 1));
    assert_eq!((p.panes[0].title, p.panes[0].body), (rect(0, 0, 40, 1), rect(0, 1, 40, 9)));
    assert_eq!((p.panes[1].title, p.panes[1].body), (rect(0, 10, 40, 1), rect(0, 11, 40, 9)));
}

#[test]
fn zoomed_pane_takes_the_window() {
    let mut a = app();
    a.zoom = true;
    a.active = 1;
    a.popup = Some(Popup::Baud { sel: 0, custom: String::new() });
    let p = plan(&a, rect(0, 0, 40, 21));
    assert_eq!(p.panes.len(), 1);
    assert_eq!((p.panes[0].index, p.panes[0].body), (1, rect(0, 1, 40, 19)));
    // The window of nine rows stands from row 6 on, and has seven rows inside.
    assert_eq!((p.list, p.input), (rect(5, 7, 30, 6), rect(5, 13, 30, 1)));
}

#[test]
fn frames_hold_panes_status_and_cursor() {
    let mut a = app();
    a.channels[0].parser.process(b"hi");
    let area = rect(0, 0, 6, 7);
    let p = plan(&a, area);
    let steps = draw(&a, &p, area);
    assert!(matches!(&steps[0], DrawStep::Line { area, .. } if *area == rect(0, 0, 6, 1)));
    assert!(matches!(&steps[1], DrawStep::Put { x: 0, y: 1, text, .. } if text == "h"));
    let cursors: Vec<(u16, u16)> = steps
        .iter()
        .filter_map(|s| match s {
            DrawStep::Cursor { x, y } => Some((*x, *y)),
            _ => None,
        })
        .collect();
    assert_eq!(cursors, vec![(2, 1)]);
    assert!(matches!(steps.last(), Some(DrawStep::Line { area, .. }) if *area == rect(0, 6, 6, 1)));
    // Two titles, two screens of twelve cells, the cursor and the status.
    assert_eq!(steps.len(), 2 + 24 + 1 + 1);
}

#[test]
fn windows_and_hidden_cursors_take_the_cursor_away() {
    let area = rect(0, 0, 6, 7);
    let count = |a: &App| {
        let p = plan(a, area);
        let steps = draw(a, &p, area);
        steps.iter().filter(|s| matches!(s, DrawStep::Cursor { .. })).count()
    };
    let mut a = app();
    assert_eq!(count(&a), 1);
    a.popup = Some(Popup::Help);
    assert_eq!(count(&a), 0);
    a.popup = None;
    a.channels[0].parser.process(b"\x1b[?25l");
    assert_eq!(count(&a), 0);
    let mut a = app();
    a.channels[0].parser.process(b"1\r\n2\r\n3\r\n4");
    a.channels[0].parser.set_scrollback(1);
    assert_eq!(count(&a), 0);
}

#[test]
fn cursor_stays_in_its_pane() {
    let mut a = app();
    a.channels[0].parser.process(b"\r\nabcdef");
    let area = rect(0, 0, 3, 5);
    let p = plan(&a, area);
    let steps = draw(&a, &p, area);
    let body = p.panes[0].body;
    for s in &steps {
        if let DrawStep::Cursor { x, y } = s {
            assert!(*x == 2 && *y == body.y + body.height - 1);
        }
    }
    assert!(steps.iter().any(|s| matches!(s, DrawStep::Cursor { .. })));
}

#[test]
fn windows_that_cannot_be_drawn_are_refused() {
    let mut a = app();
    let area = rect(0, 0, 6, 7);
    let p = plan(&a, area);
    assert!(checked_draw(&a, &p, area).is_some());
    assert!(checked_draw(&a, &p, rect(65530, 0, 6, 7)).is_none());
    // No place for the cursor.
    let empty = rect(0, 0, 0, 0);
    let q = plan(&a, empty);
    assert!(checked_draw(&a, &q, empty).is_none());
    // Scrolled back by more than the height.
    a.channels[0].parser.process(b"1\r\n2\r\n3\r\n4\r\n5");
    a.channels[0].parser.set_scrollback(2);
    assert!(checked_draw(&a, &p, area).is_some());
    a.channels[0].parser.set_scrollback(3);
    assert!(checked_draw(&a, &p, area).is_none());
    // More ports than rows can be counted.
    let mut a = app();
    let ports: Vec<String> = (0..65534).map(|i| i.to_string()).collect();
    a.popup = Some(Popup::Port { ports, sel: 0 });
    assert!(checked_draw(&a, &p, area).is_none());
}

fn lies_in(r: Rect, area: Rect) -> bool {
    area.x <= r.x
        && area.y <= r.y
        && r.x as u32 + r.width as u32 <= area.x as u32 + area.width as u32
        && r.y as u32 + r.height as u32 <= area.y as u32 + area.height as u32
}

#[test]
fn parts_lie_in_the_window() {
    let mut a = app();
    a.popup = Some(Popup::Baud { sel: 0, custom: String::new() });
    for (x, y) in [(0, 0), (3, 7), (100, 60000), (65000, 65500)] {
        for (w, h) in [(0, 0), (1, 1), (2, 2), (5, 3), (40, 4), (80, 25), (81, 35)] {
            for zoom in [false, true] {
                a.zoom = zoom;
                let area = rect(x, y, w, h);
                let p = plan(&a, area);
                for r in [p.status, p.list, p.input] {
                    assert!(lies_in(r, area), "{r:?} in {area:?}");
                }
                // The window for five speeds has nine rows.
                let place = centered(area, 32, 9);
                assert!(lies_in(p.list, place) && lies_in(p.input, place), "{p:?} in {place:?}");
                for pane in &p.panes {
                    assert!(lies_in(pane.title, area), "{pane:?} in {area:?}");
                    assert!(lies_in(pane.body, area), "{pane:?} in {area:?}");
                }
            }
        }
    }
}

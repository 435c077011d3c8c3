//! What the window shows.

use vstd::prelude::*;

use crate::app::{App, AppState, Mode, Popup, PopupState};
use crate::channel::{Channel, ChannelState};
use crate::layout::{bordered, can_split, centered, inner, middle, split, Limit, Rect};
use crate::screen::{cell, cursor_position, hide_cursor, scrollback, size};
use crate::screen::{Cell, CellColor, CellState, ScreenState};
use crate::style::{colored, colored_span, colors, raw, raw_span, span_states, style_of};
use crate::style::{Color, Span, SpanState, Style};
use crate::text::{decimal, join, joined, push_decimal, texts};

verus! {

// ---------------------------------------------------------------- colours

/// The ground of a pane.
pub open spec fn pane_ground(i: nat) -> Color {
    if i == 0 {
        Color::Rgb(0, 0, 80)
    } else {
        Color::Rgb(64, 8, 16)
    }
}

/// The ground of a pane.
fn pane_bg(i: usize) -> (r: Color)
    ensures
        r == pane_ground(i as nat),
{
    if i == 0 {
        Color::Rgb(0, 0, 80)
    } else {
        Color::Rgb(64, 8, 16)
    }
}

/// The usual colour of text in a pane; as the ground is fixed, so is this.
pub open spec fn pane_text() -> Color {
    Color::Rgb(224, 224, 224)
}

/// The look of a pane's title.
pub open spec fn title_look(i: nat, active: bool) -> Style {
    let bg = if i == 0 {
        if active {
            Color::Rgb(32, 80, 208)
        } else {
            Color::Rgb(16, 32, 80)
        }
    } else {
        if active {
            Color::Rgb(24, 144, 64)
        } else {
            Color::Rgb(16, 56, 24)
        }
    };
    if active {
        Style { bold: true, ..colors(Some(Color::White), Some(bg)) }
    } else {
        colors(Some(Color::Gray), Some(bg))
    }
}

/// The look of a pane's title.
pub fn title_style(i: usize, active: bool) -> (r: Style)
    ensures
        r == title_look(i as nat, active),
{
    let (on, off) = if i == 0 {
        (Color::Rgb(32, 80, 208), Color::Rgb(16, 32, 80))
    } else {
        (Color::Rgb(24, 144, 64), Color::Rgb(16, 56, 24))
    };
    if active {
        let mut style = style_of(Some(Color::White), Some(on));
        style.bold = true;
        style
    } else {
        style_of(Some(Color::Gray), Some(off))
    }
}

/// The colour of a cell, where `usual` is the usual one.
pub open spec fn shown_color(c: CellColor, usual: Color) -> Color {
    match c {
        CellColor::Usual => usual,
        CellColor::Idx(i) => Color::Indexed(i),
        CellColor::Rgb(r, g, b) => Color::Rgb(r, g, b),
    }
}

/// The colour of a cell, where `usual` is the usual one.
pub fn vt_color(c: CellColor, usual: Color) -> (r: Color)
    ensures
        r == shown_color(c, usual),
{
    match c {
        CellColor::Usual => usual,
        CellColor::Idx(i) => Color::Indexed(i),
        CellColor::Rgb(r, g, b) => Color::Rgb(r, g, b),
    }
}

// ---------------------------------------------------------------- steps of drawing

/// A border with a title in it.
#[derive(Debug)]
pub struct Border {
    pub title: String,
    pub style: Style,
}

/// The model of `Border`.
pub struct BorderState {
    pub title: Seq<char>,
    pub style: Style,
}

impl View for Border {
    type V = BorderState;

    open spec fn view(&self) -> BorderState {
        BorderState { title: self.title@, style: self.style }
    }
}

/// The model of an optional border.
pub open spec fn border_state(b: Option<Border>) -> Option<BorderState> {
    match b {
        Some(b) => Some(b@),
        None => None,
    }
}

/// One step of drawing the window.
#[derive(Debug)]
pub enum DrawStep {
    /// A line of styled text in an area with this style.
    Line { area: Rect, spans: Vec<Span>, style: Style },
    /// Text from this place on, cut to `width` columns.
    Put { x: u16, y: u16, text: String, width: usize, style: Style },
    /// A blank at this place.
    Blank { x: u16, y: u16, style: Style },
    /// The cursor at this place.
    Cursor { x: u16, y: u16 },
    /// Nothing but the empty area.
    Clear { area: Rect },
    /// A border along the edges of an area.
    Frame { area: Rect, edge: Border },
    /// A list in an area, perhaps with a border; one item is highlighted.
    List {
        area: Rect,
        border: Option<Border>,
        items: Vec<String>,
        selected: usize,
        highlight: Style,
    },
    /// Text of several lines in an area with this style, perhaps with a border.
    Text { area: Rect, border: Option<Border>, text: String, style: Style },
}

/// The model of `DrawStep`.
pub enum StepState {
    Line { area: Rect, spans: Seq<SpanState>, style: Style },
    Put { x: u16, y: u16, text: Seq<char>, width: nat, style: Style },
    Blank { x: u16, y: u16, style: Style },
    Cursor { x: u16, y: u16 },
    Clear { area: Rect },
    Frame { area: Rect, edge: BorderState },
    List {
        area: Rect,
        border: Option<BorderState>,
        items: Seq<Seq<char>>,
        selected: nat,
        highlight: Style,
    },
    Text { area: Rect, border: Option<BorderState>, text: Seq<char>, style: Style },
}

impl View for DrawStep {
    type V = StepState;

    open spec fn view(&self) -> StepState {
        match self {
            DrawStep::Line { area, spans, style } => StepState::Line {
                area: *area,
                spans: span_states(spans@),
                style: *style,
            },
            DrawStep::Put { x, y, text, width, style } => StepState::Put {
                x: *x,
                y: *y,
                text: text@,
                width: *width as nat,
                style: *style,
            },
            DrawStep::Blank { x, y, style } => StepState::Blank { x: *x, y: *y, style: *style },
            DrawStep::Cursor { x, y } => StepState::Cursor { x: *x, y: *y },
            DrawStep::Clear { area } => StepState::Clear { area: *area },
            DrawStep::Frame { area, edge } => StepState::Frame { area: *area, edge: edge@ },
            DrawStep::List { area, border, items, selected, highlight } => StepState::List {
                area: *area,
                border: border_state(*border),
                items: texts(items@),
                selected: *selected as nat,
                highlight: *highlight,
            },
            DrawStep::Text { area, border, text, style } => StepState::Text {
                area: *area,
                border: border_state(*border),
                text: text@,
                style: *style,
            },
        }
    }
}

/// The models of the steps.
pub open spec fn step_states(steps: Seq<DrawStep>) -> Seq<StepState> {
    steps.map_values(|s: DrawStep| s@)
}

/// Adds a step.
fn add_step(steps: &mut Vec<DrawStep>, step: DrawStep)
    ensures
        step_states(final(steps)@) == step_states(old(steps)@).push(step@),
{
    steps.push(step);
    assert(step_states(steps@) =~= step_states(old(steps)@).push(step@));
}

// ---------------------------------------------------------------- titles

/// The marks of a line's settings.
pub open spec fn flags(c: ChannelState) -> Seq<Seq<char>> {
    let a = seq![c.encoding, c.newline];
    let b = if c.backspace == 0x7f {
        a.push("DEL"@)
    } else {
        a
    };
    let d = if c.local_echo {
        b.push("ECHO"@)
    } else {
        b
    };
    if c.logging {
        d.push("LOG"@)
    } else {
        d
    }
}

/// What a title says of the line behind its modem.
pub open spec fn line_text(c: ChannelState) -> Seq<char> {
    let path = match c.path {
        Some(p) => p,
        None => "(未設定)"@,
    };
    path + "  "@ + decimal(c.baud as nat) + "bps "@ + c.format + "  ["@ + joined(flags(c), " "@)
        + "]  RX:"@ + decimal(c.rx_bytes as nat) + " TX:"@ + decimal(c.tx_bytes as nat) + "  "@
        + c.status
}

/// The title of a pane: a mark where it is active, its letter, whether its port is open, its
/// modem, and its line.
pub open spec fn title_spans(c: ChannelState, active: bool) -> Seq<SpanState> {
    seq![
        raw(
            (if active {
                "▶"@
            } else {
                " "@
            }) + c.name + " "@,
        ),
        if c.open {
            colored(" ● "@, Some(Color::LightGreen), None)
        } else {
            colored(" ○ "@, Some(Color::LightRed), None)
        },
        match c.modem {
            Some(m) => colored("["@ + m + "] "@, Some(Color::LightYellow), None),
            None => raw(""@),
        },
        raw(line_text(c)),
    ]
}

/// The marks of a line's settings.
fn flag_list(ch: &Channel) -> (r: Vec<String>)
    ensures
        texts(r@) == flags(ch@),
{
    let mut r = vec![ch.encoding.clone(), ch.newline.clone()];
    assert(texts(r@) =~= seq![ch@.encoding, ch@.newline]);
    if ch.backspace == 0x7f {
        let ghost before = texts(r@);
        r.push("DEL".to_owned());
        assert(texts(r@) =~= before.push("DEL"@));
    }
    if ch.local_echo {
        let ghost before = texts(r@);
        r.push("ECHO".to_owned());
        assert(texts(r@) =~= before.push("ECHO"@));
    }
    if ch.logging {
        let ghost before = texts(r@);
        r.push("LOG".to_owned());
        assert(texts(r@) =~= before.push("LOG"@));
    }
    r
}

/// What a title says of the line behind its modem.
fn describe_line(ch: &Channel) -> (r: String)
    ensures
        r@ == line_text(ch@),
{
    let mut r = match &ch.cfg.path {
        Some(p) => p.clone(),
        None => "(未設定)".to_owned(),
    };
    r.append("  ");
    push_decimal(&mut r, ch.cfg.baud as u64);
    r.append("bps ");
    r.append(ch.cfg.format.as_str());
    r.append("  [");
    let list = flag_list(ch);
    r.append(join(&list, " ").as_str());
    r.append("]  RX:");
    push_decimal(&mut r, ch.rx_bytes);
    r.append(" TX:");
    push_decimal(&mut r, ch.tx_bytes);
    r.append("  ");
    r.append(ch.status.as_str());
    r
}

/// The title of a pane.
pub fn title_line(ch: &Channel, active: bool) -> (r: Vec<Span>)
    ensures
        span_states(r@) == title_spans(ch@, active),
{
    let mut head = (if active { "▶" } else { " " }).to_owned();
    head.append(ch.name.as_str());
    head.append(" ");
    let state = if ch.open {
        colored_span(" ● ".to_owned(), Some(Color::LightGreen), None)
    } else {
        colored_span(" ○ ".to_owned(), Some(Color::LightRed), None)
    };
    let modem = match &ch.modem {
        Some(m) => {
            let mut text = "[".to_owned();
            text.append(m.as_str());
            text.append("] ");
            colored_span(text, Some(Color::LightYellow), None)
        },
        None => raw_span("".to_owned()),
    };
    let r = vec![raw_span(head), state, modem, raw_span(describe_line(ch))];
    assert(span_states(r@) =~= title_spans(ch@, active));
    r
}

// ---------------------------------------------------------------- the status line

/// A key shown in the status line.
pub open spec fn key_span(text: Seq<char>) -> SpanState {
    colored(text, Some(Color::Black), Some(Color::Gray))
}

/// What the status line says.
pub open spec fn status_spans(mode: Mode, scroll: nat) -> Seq<SpanState> {
    match mode {
        Mode::Prefix => seq![
            colored(" Ctrl-A "@, Some(Color::Black), Some(Color::Yellow)),
            raw(
                " Tab:切替 b:bps p:ポート i:モデム名 e:文字コード n:改行 l:エコー c:消去 r:再接続 x:切断 H:回線切断 L:ログ z:最大化 [:履歴 ?:ヘルプ q:終了"@,
            ),
        ],
        Mode::Scroll => seq![
            colored(" 履歴 "@, Some(Color::Black), Some(Color::Cyan)),
            raw(" "@ + decimal(scroll) + " 行上  ↑↓/PgUp/PgDn/g/G で移動  Esc/q で戻る"@),
        ],
        Mode::Normal => seq![
            key_span(" Ctrl-A "@),
            raw(" コマンド  "@),
            key_span(" Ctrl-A Tab "@),
            raw(" 画面切替  "@),
            key_span(" Ctrl-A b "@),
            raw(" bps  "@),
            key_span(" Ctrl-A ? "@),
            raw(" ヘルプ  "@),
            key_span(" Ctrl-A q "@),
            raw(" 終了"@),
        ],
    }
}

/// A key to show in the status line.
fn key_name(text: &str) -> (r: Span)
    ensures
        r@ == key_span(text@),
{
    colored_span(text.to_owned(), Some(Color::Black), Some(Color::Gray))
}

/// What the status line says.
pub fn status_line(app: &App) -> (r: Vec<Span>)
    ensures
        span_states(r@) == status_spans(app@.mode, app@.scroll),
{
    let r = match app.mode {
        Mode::Prefix => vec![
            colored_span(" Ctrl-A ".to_owned(), Some(Color::Black), Some(Color::Yellow)),
            raw_span(
                " Tab:切替 b:bps p:ポート i:モデム名 e:文字コード n:改行 l:エコー c:消去 r:再接続 x:切断 H:回線切断 L:ログ z:最大化 [:履歴 ?:ヘルプ q:終了".to_owned(),
            ),
        ],
        Mode::Scroll => {
            let mut text = " ".to_owned();
            push_decimal(&mut text, app.scroll as u64);
            text.append(" 行上  ↑↓/PgUp/PgDn/g/G で移動  Esc/q で戻る");
            vec![
                colored_span(" 履歴 ".to_owned(), Some(Color::Black), Some(Color::Cyan)),
                raw_span(text),
            ]
        },
        Mode::Normal => vec![
            key_name(" Ctrl-A "),
            raw_span(" コマンド  ".to_owned()),
            key_name(" Ctrl-A Tab "),
            raw_span(" 画面切替  ".to_owned()),
            key_name(" Ctrl-A b "),
            raw_span(" bps  ".to_owned()),
            key_name(" Ctrl-A ? "),
            raw_span(" ヘルプ  ".to_owned()),
            key_name(" Ctrl-A q "),
            raw_span(" 終了".to_owned()),
        ],
    };
    assert(span_states(r@) =~= status_spans(app@.mode, app@.scroll));
    r
}

// ---------------------------------------------------------------- the screen of a pane

/// The look of a cell on this ground.
pub open spec fn cell_look(c: CellState, bg: Color) -> Style {
    Style {
        fg: Some(shown_color(c.fg, pane_text())),
        bg: Some(shown_color(c.bg, bg)),
        bold: c.bold,
        italic: c.italic,
        underlined: c.underline,
        reversed: c.inverse,
    }
}

/// How a cell of a screen is drawn in `area`: not at all where nothing is there or a wide
/// character goes on, and as a blank where a wide character has no room at the right edge.
pub open spec fn cell_steps(
    c: Option<CellState>,
    area: Rect,
    row: nat,
    col: nat,
    bg: Color,
) -> Seq<StepState> {
    match c {
        None => Seq::empty(),
        Some(c) => if c.continuation {
            Seq::empty()
        } else {
            let x = (area.x + col) as u16;
            let y = (area.y + row) as u16;
            let style = cell_look(c, bg);
            if c.wide && col + 1 >= area.width {
                seq![StepState::Blank { x, y, style }]
            } else {
                let text = if c.contents.len() == 0 {
                    " "@
                } else {
                    c.contents
                };
                seq![StepState::Put { x, y, text, width: (area.width - col) as nat, style }]
            }
        },
    }
}

/// How the first `n` columns of a row are drawn.
pub open spec fn row_steps(s: ScreenState, area: Rect, row: nat, n: nat, bg: Color) -> Seq<StepState>
    decreases n,
{
    if n == 0 {
        Seq::empty()
    } else {
        let col = (n - 1) as nat;
        row_steps(s, area, row, col, bg) + cell_steps(s.cell(row, col), area, row, col, bg)
    }
}

/// How the first `n` rows of a screen are drawn.
pub open spec fn screen_steps(s: ScreenState, area: Rect, n: nat, bg: Color) -> Seq<StepState>
    decreases n,
{
    if n == 0 {
        Seq::empty()
    } else {
        let row = (n - 1) as nat;
        screen_steps(s, area, row, bg) + row_steps(s, area, row, area.width as nat, bg)
    }
}

/// How a cell of a screen is drawn in `area`, if it is.
pub fn draw_cell(c: Option<Cell>, area: Rect, row: u16, col: u16, bg: Color) -> (r: Option<
    DrawStep,
>)
    requires
        area.fits(),
        row < area.height,
        col < area.width,
    ensures
        cell_steps(crate::screen::cell_state(c), area, row as nat, col as nat, bg) == match r {
            Some(step) => seq![step@],
            None => Seq::empty(),
        },
{
    let Some(cell) = c else {
        return None;
    };
    if cell.continuation {
        return None;
    }
    let mut style = style_of(
        Some(vt_color(cell.fg, Color::Rgb(224, 224, 224))),
        Some(vt_color(cell.bg, bg)),
    );
    style.bold = cell.bold;
    style.italic = cell.italic;
    style.underlined = cell.underline;
    style.reversed = cell.inverse;
    let x = area.x + col;
    let y = area.y + row;
    if cell.wide && col + 1 >= area.width {
        Some(DrawStep::Blank { x, y, style })
    } else {
        let text = if cell.contents.as_str().is_empty() {
            " ".to_owned()
        } else {
            cell.contents
        };
        Some(DrawStep::Put { x, y, text, width: (area.width - col) as usize, style })
    }
}

/// Draws the screen of a terminal in `area`.
pub fn render_screen(p: &vt100::Parser, area: Rect, bg: Color, steps: &mut Vec<DrawStep>)
    requires
        area.fits(),
        area.width > 0 && area.height > 0 ==> crate::screen::scroll_offset(*p)
            <= crate::screen::screen_size(*p).0,
    ensures
        step_states(final(steps)@) == step_states(old(steps)@) + screen_steps(
            crate::screen::screen_state(*p),
            area,
            area.height as nat,
            bg,
        ),
{
    let ghost s = crate::screen::screen_state(*p);
    let ghost start = step_states(steps@);
    let mut row: u16 = 0;
    assert(start + screen_steps(s, area, 0, bg) =~= start);
    while row < area.height
        invariant
            row <= area.height,
            area.fits(),
            area.width > 0 && area.height > 0 ==> crate::screen::scroll_offset(*p)
                <= crate::screen::screen_size(*p).0,
            s == crate::screen::screen_state(*p),
            step_states(steps@) == start + screen_steps(s, area, row as nat, bg),
        decreases area.height - row,
    {
        let ghost above = step_states(steps@);
        let mut col: u16 = 0;
        assert(above + row_steps(s, area, row as nat, 0, bg) =~= above);
        while col < area.width
            invariant
                row < area.height,
                col <= area.width,
                area.fits(),
                area.width > 0 && area.height > 0 ==> crate::screen::scroll_offset(*p)
                    <= crate::screen::screen_size(*p).0,
                s == crate::screen::screen_state(*p),
                step_states(steps@) == above + row_steps(s, area, row as nat, col as nat, bg),
            decreases area.width - col,
        {
            let ghost before = step_states(steps@);
            let c = cell(p, row, col);
            if let Some(step) = draw_cell(c, area, row, col, bg) {
                add_step(steps, step);
            }
            assert(step_states(steps@) =~= before + cell_steps(
                s.cell(row as nat, col as nat),
                area,
                row as nat,
                col as nat,
                bg,
            ));
            assert(step_states(steps@) =~= above + row_steps(s, area, row as nat, col as nat + 1, bg));
            col = col + 1;
        }
        assert(step_states(steps@) =~= start + screen_steps(s, area, row as nat + 1, bg));
        row = row + 1;
    }
}

/// Whether a step draws inside `area` and nowhere else.
pub open spec fn draws_within(step: StepState, area: Rect) -> bool {
    match step {
        StepState::Put { x, y, width, .. } => {
            &&& area.x <= x
            &&& x + width == area.x + area.width
            &&& area.y <= y < area.y + area.height
        },
        StepState::Blank { x, y, .. } => {
            &&& area.x <= x < area.x + area.width
            &&& area.y <= y < area.y + area.height
        },
        _ => false,
    }
}

proof fn lemma_row_stays(s: ScreenState, area: Rect, row: nat, n: nat, bg: Color)
    requires
        area.fits(),
        row < area.height,
        n <= area.width,
    ensures
        forall|i: int|
            0 <= i < row_steps(s, area, row, n, bg).len() ==> draws_within(
                #[trigger] row_steps(s, area, row, n, bg)[i],
                area,
            ),
    decreases n,
{
    if n > 0 {
        let col = (n - 1) as nat;
        lemma_row_stays(s, area, row, col, bg);
        let before = row_steps(s, area, row, col, bg);
        let more = cell_steps(s.cell(row, col), area, row, col, bg);
        assert forall|i: int| 0 <= i < more.len() implies draws_within(
            #[trigger] more[i],
            area,
        ) by {}
        assert forall|i: int| 0 <= i < (before + more).len() implies draws_within(
            #[trigger] (before + more)[i],
            area,
        ) by {
            if i >= before.len() {
                assert((before + more)[i] == more[i - before.len()]);
            }
        }
    }
}

/// The screen of a pane is drawn inside its area and nowhere else, whatever the screen holds.
pub proof fn screen_stays_in_its_area(s: ScreenState, area: Rect, n: nat, bg: Color)
    requires
        area.fits(),
        n <= area.height,
    ensures
        forall|i: int|
            0 <= i < screen_steps(s, area, n, bg).len() ==> draws_within(
                #[trigger] screen_steps(s, area, n, bg)[i],
                area,
            ),
    decreases n,
{
    if n > 0 {
        let row = (n - 1) as nat;
        screen_stays_in_its_area(s, area, row, bg);
        lemma_row_stays(s, area, row, area.width as nat, bg);
        let before = screen_steps(s, area, row, bg);
        let more = row_steps(s, area, row, area.width as nat, bg);
        assert forall|i: int| 0 <= i < (before + more).len() implies draws_within(
            #[trigger] (before + more)[i],
            area,
        ) by {
            if i >= before.len() {
                assert((before + more)[i] == more[i - before.len()]);
            }
        }
    }
}

// ---------------------------------------------------------------- windows

/// The look of a window, and of what is selected in it.
pub open spec fn window_look() -> Style {
    colors(Some(Color::White), Some(Color::Black))
}

pub open spec fn selected_look() -> Style {
    Style { bold: true, ..colors(None, Some(Color::Blue)) }
}

/// The border of a window.
pub open spec fn window_border(title: Seq<char>) -> BorderState {
    BorderState { title, style: window_look() }
}

/// A number to the right of eight columns.
pub open spec fn right_aligned(n: nat) -> Seq<char> {
    let d = decimal(n);
    if d.len() >= 8 {
        d
    } else {
        Seq::new((8 - d.len()) as nat, |i: int| ' ') + d
    }
}

/// An item of the list of speeds; the one in use has a mark.
pub open spec fn baud_item(rate: u32, current: u32) -> Seq<char> {
    right_aligned(rate as nat) + (if rate == current {
        " *"@
    } else {
        ""@
    })
}

/// The text below the list of speeds: what was typed, or how to type.
pub open spec fn baud_input(custom: Seq<char>) -> Seq<char> {
    if custom.len() == 0 {
        "数字入力で任意値 / Enter"@
    } else {
        "任意: "@ + custom + "_"@
    }
}

/// The lines of the help window.
pub open spec fn help_lines() -> Seq<Seq<char>> {
    seq![
        "Ctrl-A をプレフィックスにして以下のキー"@,
        ""@,
        "  Tab / o / ↑↓  上下画面の切替"@,
        "  1 / 2         A(上) / B(下) を選択"@,
        "  b             bps 設定"@,
        "  p             ポート選択・接続"@,
        "  r / x         再接続 / 切断"@,
        "  i             モデム名を取得 (ATI3)"@,
        "  H             DTR OFF で回線切断"@,
        "  e             文字コード (SJIS/UTF-8/EUC/JIS)"@,
        "  n             改行コード (CR/CRLF/LF)"@,
        "  h             BackSpace を BS/DEL 切替"@,
        "  l             ローカルエコー"@,
        "  L             受信ログ保存 開始/停止"@,
        "  c             画面消去"@,
        "  Ctrl-L        表示の描き直し"@,
        "  z             アクティブ画面を最大化"@,
        "  [ / PgUp      スクロールバック"@,
        "  Ctrl-A        0x01 を送信"@,
        "  q             終了"@,
        ""@,
        "何かキーを押すと閉じます"@,
    ]
}

/// The height that a window asks for, with its border.
pub open spec fn popup_height(p: PopupState, rates: nat) -> nat {
    match p {
        PopupState::Baud { .. } => rates % 65536 + 4,
        PopupState::Port { ports, .. } => (if ports.len() == 0 {
            1
        } else {
            ports.len() % 65536
        }) + 2,
        PopupState::Help => 24,
    }
}

/// The width that a window asks for, with its border.
pub open spec fn popup_width(p: PopupState) -> u16 {
    match p {
        PopupState::Baud { .. } => 32,
        PopupState::Port { .. } => 50,
        PopupState::Help => 48,
    }
}

/// Where a window stands in the area `area`.
pub open spec fn popup_area(p: PopupState, rates: nat, area: Rect) -> Rect {
    middle(area, popup_width(p), popup_height(p, rates) as u16)
}

/// How a window is drawn over the area `area`; `list` and `input` are the parts of the window
/// for the speed.
pub open spec fn popup_steps(
    p: PopupState,
    c: ChannelState,
    rates: Seq<u32>,
    area: Rect,
    list: Rect,
    input: Rect,
) -> Seq<StepState> {
    let place = popup_area(p, rates.len(), area);
    match p {
        PopupState::Baud { sel, custom } => seq![
            StepState::Clear { area: place },
            StepState::Frame {
                area: place,
                edge: window_border(" "@ + c.name + " の bps "@),
            },
            StepState::List {
                area: list,
                border: None,
                items: rates.map_values(|b: u32| baud_item(b, c.baud)),
                selected: sel,
                highlight: selected_look(),
            },
            StepState::Text {
                area: input,
                border: None,
                text: baud_input(custom),
                style: colors(Some(Color::Yellow), None),
            },
        ],
        PopupState::Port { ports, sel } => {
            let border = Some(window_border(" "@ + c.name + " のポート (Enter で接続) "@));
            if ports.len() == 0 {
                seq![
                    StepState::Clear { area: place },
                    StepState::Text {
                        area: place,
                        border,
                        text: "シリアルポートが見つかりません"@,
                        style: colors(None, None),
                    },
                ]
            } else {
                seq![
                    StepState::Clear { area: place },
                    StepState::List {
                        area: place,
                        border,
                        items: ports,
                        selected: sel,
                        highlight: selected_look(),
                    },
                ]
            }
        },
        PopupState::Help => seq![
            StepState::Clear { area: place },
            StepState::Text {
                area: place,
                border: Some(window_border(" ヘルプ "@)),
                text: joined(help_lines(), "\n"@),
                style: colors(None, None),
            },
        ],
    }
}

/// The border of a window.
fn border_of(title: String) -> (r: Border)
    ensures
        r@ == window_border(title@),
{
    Border { title, style: style_of(Some(Color::White), Some(Color::Black)) }
}

/// The look of what is selected.
fn highlight() -> (r: Style)
    ensures
        r == selected_look(),
{
    let mut style = style_of(None, Some(Color::Blue));
    style.bold = true;
    style
}

/// An item of the list of speeds.
fn rate_item(rate: u32, current: u32) -> (r: String)
    ensures
        r@ == baud_item(rate, current),
{
    let mut digits = String::new();
    push_decimal(&mut digits, rate as u64);
    assert(digits@ =~= decimal(rate as nat));
    let n = digits.as_str().unicode_len();
    let mut r = String::new();
    let mut i: usize = n;
    while i < 8
        invariant
            n <= i,
            n <= 8 ==> i <= 8,
            n > 8 ==> i == n,
            r@ == Seq::new((i - n) as nat, |k: int| ' '),
        decreases 8 - i,
    {
        r.push(' ');
        i = i + 1;
        assert(r@ =~= Seq::new((i - n) as nat, |k: int| ' '));
    }
    r.append(digits.as_str());
    assert(r@ =~= right_aligned(rate as nat));
    if rate == current {
        r.append(" *");
    } else {
        proof {
            reveal_strlit("");
        }
        assert(r@ + ""@ =~= r@);
    }
    r
}

/// The list of speeds.
fn rate_items(rates: &Vec<u32>, current: u32) -> (r: Vec<String>)
    ensures
        texts(r@) == rates@.map_values(|b: u32| baud_item(b, current)),
{
    let mut r: Vec<String> = Vec::new();
    let mut i: usize = 0;
    while i < rates.len()
        invariant
            i <= rates@.len(),
            r@.len() == i,
            forall|k: int| 0 <= k < i ==> (#[trigger] r@[k])@ == baud_item(rates@[k], current),
        decreases rates@.len() - i,
    {
        r.push(rate_item(rates[i], current));
        i = i + 1;
    }
    assert(texts(r@) =~= rates@.map_values(|b: u32| baud_item(b, current)));
    r
}

/// The text of the help window.
fn help_text() -> (r: String)
    ensures
        r@ == joined(help_lines(), "\n"@),
{
    let lines = vec![
        "Ctrl-A をプレフィックスにして以下のキー".to_owned(),
        "".to_owned(),
        "  Tab / o / ↑↓  上下画面の切替".to_owned(),
        "  1 / 2         A(上) / B(下) を選択".to_owned(),
        "  b             bps 設定".to_owned(),
        "  p             ポート選択・接続".to_owned(),
        "  r / x         再接続 / 切断".to_owned(),
        "  i             モデム名を取得 (ATI3)".to_owned(),
        "  H             DTR OFF で回線切断".to_owned(),
        "  e             文字コード (SJIS/UTF-8/EUC/JIS)".to_owned(),
        "  n             改行コード (CR/CRLF/LF)".to_owned(),
        "  h             BackSpace を BS/DEL 切替".to_owned(),
        "  l             ローカルエコー".to_owned(),
        "  L             受信ログ保存 開始/停止".to_owned(),
        "  c             画面消去".to_owned(),
        "  Ctrl-L        表示の描き直し".to_owned(),
        "  z             アクティブ画面を最大化".to_owned(),
        "  [ / PgUp      スクロールバック".to_owned(),
        "  Ctrl-A        0x01 を送信".to_owned(),
        "  q             終了".to_owned(),
        "".to_owned(),
        "何かキーを押すと閉じます".to_owned(),
    ];
    assert(texts(lines@) =~= help_lines());
    join(&lines, "\n")
}

/// Whether the height that the window asks for can be counted.
pub open spec fn popup_fits(p: Option<PopupState>, rates: nat) -> bool {
    p matches Some(p) ==> popup_height(p, rates) <= 65535
}

/// The height that a window asks for, if it can be counted.
fn height_of(p: &Popup, rates: usize) -> (r: Option<u16>)
    ensures
        r == if popup_height(p@, rates as nat) <= 65535 {
            Some(popup_height(p@, rates as nat) as u16)
        } else {
            None
        },
{
    let n: usize = match p {
        Popup::Baud { .. } => rates % 65536 + 4,
        Popup::Port { ports, .. } => if ports.len() == 0 {
            3
        } else {
            ports.len() % 65536 + 2
        },
        Popup::Help => 24,
    };
    if n <= 65535 {
        Some(n as u16)
    } else {
        None
    }
}

/// Where a window stands in the area `area`.
fn place_of(p: &Popup, rates: usize, area: Rect) -> (r: Rect)
    requires
        area.fits(),
        popup_height(p@, rates as nat) <= 65535,
    ensures
        r == popup_area(p@, rates as nat, area),
{
    let h = match height_of(p, rates) {
        Some(h) => h,
        None => 0,
    };
    let w: u16 = match p {
        Popup::Baud { .. } => 32,
        Popup::Port { .. } => 50,
        Popup::Help => 48,
    };
    centered(area, w, h)
}

/// A copy of the strings.
fn copy_texts(list: &Vec<String>) -> (r: Vec<String>)
    ensures
        texts(r@) == texts(list@),
{
    let mut r: Vec<String> = Vec::new();
    let mut i: usize = 0;
    while i < list.len()
        invariant
            i <= list@.len(),
            r@.len() == i,
            forall|k: int| 0 <= k < i ==> (#[trigger] r@[k])@ == list@[k]@,
        decreases list@.len() - i,
    {
        r.push(list[i].clone());
        i = i + 1;
    }
    assert(texts(r@) =~= texts(list@));
    r
}

/// Draws a window over the area `area`.
pub fn draw_popup(
    popup: &Popup,
    ch: &Channel,
    rates: &Vec<u32>,
    area: Rect,
    list: Rect,
    input: Rect,
) -> (r: Vec<DrawStep>)
    requires
        area.fits(),
        popup_height(popup@, rates@.len()) <= 65535,
    ensures
        step_states(r@) == popup_steps(popup@, ch@, rates@, area, list, input),
{
    let place = place_of(popup, rates.len(), area);
    let r = match popup {
        Popup::Baud { sel, custom } => {
            let mut title = " ".to_owned();
            title.append(ch.name.as_str());
            title.append(" の bps ");
            let text = if custom.as_str().is_empty() {
                "数字入力で任意値 / Enter".to_owned()
            } else {
                let mut text = "任意: ".to_owned();
                text.append(custom.as_str());
                text.append("_");
                text
            };
            vec![
                DrawStep::Clear { area: place },
                DrawStep::Frame { area: place, edge: border_of(title) },
                DrawStep::List {
                    area: list,
                    border: None,
                    items: rate_items(rates, ch.cfg.baud),
                    selected: *sel,
                    highlight: highlight(),
                },
                DrawStep::Text {
                    area: input,
                    border: None,
                    text,
                    style: style_of(Some(Color::Yellow), None),
                },
            ]
        },
        Popup::Port { ports, sel } => {
            let mut title = " ".to_owned();
            title.append(ch.name.as_str());
            title.append(" のポート (Enter で接続) ");
            let border = Some(border_of(title));
            if ports.len() == 0 {
                vec![
                    DrawStep::Clear { area: place },
                    DrawStep::Text {
                        area: place,
                        border,
                        text: "シリアルポートが見つかりません".to_owned(),
                        style: style_of(None, None),
                    },
                ]
            } else {
                vec![
                    DrawStep::Clear { area: place },
                    DrawStep::List {
                        area: place,
                        border,
                        items: copy_texts(ports),
                        selected: *sel,
                        highlight: highlight(),
                    },
                ]
            }
        },
        Popup::Help => vec![
            DrawStep::Clear { area: place },
            DrawStep::Text {
                area: place,
                border: Some(border_of(" ヘルプ ".to_owned())),
                text: help_text(),
                style: style_of(None, None),
            },
        ],
    };
    assert(step_states(r@) =~= popup_steps(popup@, ch@, rates@, area, list, input));
    r
}

// ---------------------------------------------------------------- the window

/// Where a pane stands: its title, and the screen below it.
#[derive(Clone, Copy, PartialEq, Eq, Debug)]
pub struct Pane {
    pub index: usize,
    pub title: Rect,
    pub body: Rect,
}

/// Where everything stands.
#[derive(Debug)]
pub struct Plan {
    pub panes: Vec<Pane>,
    pub status: Rect,
    /// The parts of the window for the speed, where that is shown.
    pub list: Rect,
    pub input: Rect,
}

/// Whether this is the pane of this line in `area`, under its title of one row.
pub open spec fn pane_in(pane: Pane, index: nat, area: Rect) -> bool {
    &&& pane.index == index
    &&& can_split(area, (Limit::Length(1), Limit::Min(1)), (pane.title, pane.body))
}

/// Whether the panes share `main`: the active one alone when it is zoomed, else the first above
/// the second, each in one half.
pub open spec fn panes_in(app: AppState, main: Rect, panes: Seq<Pane>) -> bool {
    if app.zoom {
        panes.len() == 1 && pane_in(panes[0], app.active, main)
    } else {
        &&& panes.len() == 2
        &&& exists|halves: (Rect, Rect)|
            {
                &&& #[trigger] can_split(main, (Limit::Ratio(1, 2), Limit::Ratio(1, 2)), halves)
                &&& pane_in(panes[0], 0, halves.0)
                &&& pane_in(panes[1], 1, halves.1)
            }
    }
}

impl Plan {
    /// Whether this is a plan of the window `area`: the panes above one row for the status, and
    /// in the window for the speed a list above one row for what is typed.
    pub open spec fn is_for(self, app: AppState, area: Rect) -> bool {
        &&& exists|main: Rect|
            {
                &&& #[trigger] can_split(
                    area,
                    (Limit::Min(2), Limit::Length(1)),
                    (main, self.status),
                )
                &&& panes_in(app, main, self.panes@)
            }
        &&& app.popup matches Some(p) ==> p is Baud ==> can_split(
            bordered(popup_area(p, app.baud_rates.len(), area)),
            (Limit::Min(1), Limit::Length(1)),
            (self.list, self.input),
        )
    }

    /// Whether everything stands in `area`.
    pub open spec fn within(self, area: Rect) -> bool {
        &&& self.status.within(area)
        &&& self.list.within(area)
        &&& self.input.within(area)
        &&& forall|i: int|
            0 <= i < self.panes@.len() ==> (#[trigger] self.panes@[i]).title.within(area)
                && self.panes@[i].body.within(area)
    }

    /// Whether the panes stand where columns and rows can be counted.
    pub open spec fn fits(self) -> bool {
        forall|i: int|
            0 <= i < self.panes@.len() ==> (#[trigger] self.panes@[i]).index < 2
                && self.panes@[i].body.fits()
    }
}

/// The pane of this line in `area`.
fn plan_pane(index: usize, area: Rect) -> (r: Pane)
    requires
        index < 2,
        area.fits(),
    ensures
        pane_in(r, index as nat, area),
        r.title.within(area),
        r.body.within(area),
        r.body.fits(),
{
    let (title, body) = split(area, (Limit::Length(1), Limit::Min(1)));
    Pane { index, title, body }
}

/// Whether the window can be planned: its rows and columns, and those of what is over it, can be
/// counted.
pub fn can_plan(app: &App, area: Rect) -> (r: bool)
    ensures
        r == (area.fits() && popup_fits(app@.popup, app@.baud_rates.len())),
{
    if !(area.width <= 65535 - area.x && area.height <= 65535 - area.y) {
        return false;
    }
    match &app.popup {
        Some(popup) => height_of(popup, app.baud_rates.len()).is_some(),
        None => true,
    }
}

/// Plans the window.
pub fn plan(app: &App, area: Rect) -> (r: Plan)
    requires
        app@.wf(),
        area.fits(),
        popup_fits(app@.popup, app@.baud_rates.len()),
    ensures
        r.is_for(app@, area),
        r.within(area),
        app@.popup matches Some(p) ==> p is Baud ==> {
            let place = popup_area(p, app@.baud_rates.len(), area);
            r.list.within(place) && r.input.within(place)
        },
        r.fits(),
{
    let (main, status) = split(area, (Limit::Min(2), Limit::Length(1)));
    let panes = if app.zoom {
        vec![plan_pane(app.active, main)]
    } else {
        let halves = split(main, (Limit::Ratio(1, 2), Limit::Ratio(1, 2)));
        vec![plan_pane(0, halves.0), plan_pane(1, halves.1)]
    };
    assert(panes_in(app@, main, panes@));
    let (list, input) = match &app.popup {
        Some(p) => if matches!(p, Popup::Baud { .. }) {
            let place = place_of(p, app.baud_rates.len(), area);
            split(inner(place), (Limit::Min(1), Limit::Length(1)))
        } else {
            (area, area)
        },
        None => (area, area),
    };
    let r = Plan { panes, status, list, input };
    assert(can_split(area, (Limit::Min(2), Limit::Length(1)), (main, r.status)));
    r
}

/// Whether a pane shows the cursor: the active one, while nothing is over it, its cursor is not
/// hidden, and its screen itself is in view.
pub open spec fn shows_cursor(app: AppState, i: nat) -> bool {
    let s = app.channels[i as int].screen;
    i == app.active && app.popup is None && s.offset == 0 && !s.hidden
}

/// Where the cursor stands in `body`: where the screen has it, as far as that is in the area.
pub open spec fn cursor_step(s: ScreenState, body: Rect) -> StepState {
    let c = if s.cursor.1 <= body.width - 1 {
        s.cursor.1 as int
    } else {
        body.width - 1
    };
    let r = if s.cursor.0 <= body.height - 1 {
        s.cursor.0 as int
    } else {
        body.height - 1
    };
    StepState::Cursor { x: (body.x + c) as u16, y: (body.y + r) as u16 }
}

/// How a pane is drawn.
pub open spec fn pane_steps(app: AppState, pane: Pane) -> Seq<StepState> {
    let i = pane.index as nat;
    let c = app.channels[i as int];
    let active = i == app.active;
    seq![
        StepState::Line {
            area: pane.title,
            spans: title_spans(c, active),
            style: title_look(i, active),
        },
    ] + screen_steps(c.screen, pane.body, pane.body.height as nat, pane_ground(i)) + (
    if shows_cursor(app, i) {
        seq![cursor_step(c.screen, pane.body)]
    } else {
        Seq::empty()
    })
}

/// How the first `n` panes are drawn.
pub open spec fn panes_steps(app: AppState, panes: Seq<Pane>, n: nat) -> Seq<StepState>
    decreases n,
{
    if n == 0 {
        Seq::empty()
    } else {
        panes_steps(app, panes, (n - 1) as nat) + pane_steps(app, panes[n - 1])
    }
}

/// How the window is drawn: the panes, the status line, and over them the window that is shown.
pub open spec fn frame_steps(app: AppState, plan: Plan, area: Rect) -> Seq<StepState> {
    panes_steps(app, plan.panes@, plan.panes@.len()) + seq![
        StepState::Line {
            area: plan.status,
            spans: status_spans(app.mode, app.scroll),
            style: colors(None, Some(Color::DarkGray)),
        },
    ] + match app.popup {
        Some(p) => popup_steps(p, app.chan(), app.baud_rates, area, plan.list, plan.input),
        None => Seq::empty(),
    }
}

/// Whether a pane can be drawn: it is not scrolled back by more than its height, and the cursor
/// that it shows has a place to be.
pub open spec fn pane_drawable(app: AppState, pane: Pane) -> bool {
    let s = app.channels[pane.index as int].screen;
    &&& pane.index < 2
    &&& pane.body.fits()
    &&& pane.body.width > 0 && pane.body.height > 0 ==> s.offset <= s.size.0
    &&& shows_cursor(app, pane.index as nat) ==> pane.body.width > 0 && pane.body.height > 0
}

/// Whether the window can be drawn by this plan.
pub open spec fn drawable(app: AppState, plan: Plan, area: Rect) -> bool {
    &&& area.fits()
    &&& popup_fits(app.popup, app.baud_rates.len())
    &&& forall|i: int|
        0 <= i < plan.panes@.len() ==> pane_drawable(app, #[trigger] plan.panes@[i])
}

/// Draws a pane.
fn draw_pane(app: &App, pane: Pane, steps: &mut Vec<DrawStep>)
    requires
        app@.wf(),
        pane_drawable(app@, pane),
    ensures
        step_states(final(steps)@) == step_states(old(steps)@) + pane_steps(app@, pane),
{
    let i = pane.index;
    let active = i == app.active;
    let ghost start = step_states(steps@);
    let spans = title_line(&app.channels[i], active);
    add_step(
        steps,
        DrawStep::Line { area: pane.title, spans, style: title_style(i, active) },
    );
    let p = &app.channels[i].parser;
    render_screen(p, pane.body, pane_bg(i), steps);
    if active && app.popup.is_none() && scrollback(p) == 0 && !hide_cursor(p) {
        let (r, c) = cursor_position(p);
        let c = if c <= pane.body.width - 1 { c } else { pane.body.width - 1 };
        let r = if r <= pane.body.height - 1 { r } else { pane.body.height - 1 };
        add_step(steps, DrawStep::Cursor { x: pane.body.x + c, y: pane.body.y + r });
    }
    assert(step_states(steps@) =~= start + pane_steps(app@, pane));
}

/// Draws the window by this plan.
pub fn draw(app: &App, plan: &Plan, area: Rect) -> (r: Vec<DrawStep>)
    requires
        app@.wf(),
        drawable(app@, *plan, area),
    ensures
        step_states(r@) == frame_steps(app@, *plan, area),
{
    let mut steps: Vec<DrawStep> = Vec::new();
    let mut i: usize = 0;
    assert(step_states(steps@) =~= panes_steps(app@, plan.panes@, 0));
    while i < plan.panes.len()
        invariant
            i <= plan.panes@.len(),
            app@.wf(),
            drawable(app@, *plan, area),
            step_states(steps@) == panes_steps(app@, plan.panes@, i as nat),
        decreases plan.panes@.len() - i,
    {
        draw_pane(app, plan.panes[i], &mut steps);
        i = i + 1;
    }
    let ghost panes = step_states(steps@);
    add_step(
        &mut steps,
        DrawStep::Line {
            area: plan.status,
            spans: status_line(app),
            style: style_of(None, Some(Color::DarkGray)),
        },
    );
    let ghost below = step_states(steps@);
    if let Some(popup) = &app.popup {
        let mut over = draw_popup(
            popup,
            &app.channels[app.active],
            &app.baud_rates,
            area,
            plan.list,
            plan.input,
        );
        let ghost top = step_states(over@);
        steps.append(&mut over);
        assert(step_states(steps@) =~= below + top);
    }
    assert(step_states(steps@) =~= frame_steps(app@, *plan, area));
    steps
}

/// Whether a pane can be drawn.
fn can_draw_pane(app: &App, pane: Pane) -> (r: bool)
    requires
        app@.wf(),
    ensures
        r == pane_drawable(app@, pane),
{
    if !(pane.index < 2) {
        return false;
    }
    let body = pane.body;
    if !(body.width <= 65535 - body.x && body.height <= 65535 - body.y) {
        return false;
    }
    let p = &app.channels[pane.index].parser;
    let empty = body.width == 0 || body.height == 0;
    let offset = scrollback(p);
    if !empty && offset > size(p).0 as usize {
        return false;
    }
    let cursor = pane.index == app.active && app.popup.is_none() && offset == 0 && !hide_cursor(p);
    !(cursor && empty)
}

/// Draws the window by this plan, if it can be drawn.
pub fn checked_draw(app: &App, plan: &Plan, area: Rect) -> (r: Option<Vec<DrawStep>>)
    requires
        app@.wf(),
    ensures
        match r {
            Some(steps) => drawable(app@, *plan, area) && step_states(steps@) == frame_steps(
                app@,
                *plan,
                area,
            ),
            None => !drawable(app@, *plan, area),
        },
{
    if !can_plan(app, area) {
        return None;
    }
    let mut i: usize = 0;
    while i < plan.panes.len()
        invariant
            i <= plan.panes@.len(),
            app@.wf(),
            forall|k: int| 0 <= k < i ==> pane_drawable(app@, #[trigger] plan.panes@[k]),
        decreases plan.panes@.len() - i,
    {
        if !can_draw_pane(app, plan.panes[i]) {
            assert(!pane_drawable(app@, plan.panes@[i as int]));
            return None;
        }
        i = i + 1;
    }
    Some(draw(app, plan, area))
}

} // verus!

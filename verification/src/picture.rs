//! What can be seen in the window, whatever the program holds.

use vstd::prelude::*;

use crate::app::{AppState, Mode, PopupState};
use crate::channel::ChannelState;
use crate::layout::{bordered, can_split, Limit, Rect};
use crate::screen::{CellColor, CellState, ScreenState};
use crate::style::{Color, SpanState, Style};
use crate::text::{decimal, joined};
use crate::ui::{baud_item, drawable, flags, frame_steps, help_lines, pane_drawable, pane_steps};
use crate::ui::{panes_steps, popup_area, popup_fits, popup_steps, row_steps, screen_steps};
use crate::ui::{status_spans, title_spans, BorderState, Pane, Plan, StepState};

verus! {

// ---------------------------------------------------------------- titles

/// The text of the pieces, one after another.
pub open spec fn spoken(spans: Seq<SpanState>) -> Seq<char>
    decreases spans.len(),
{
    if spans.len() == 0 {
        Seq::empty()
    } else {
        spans[0].text + spoken(spans.skip(1))
    }
}

/// The plain style with these colours.
pub open spec fn plain(fg: Option<Color>, bg: Option<Color>) -> Style {
    Style { fg, bg, bold: false, italic: false, underlined: false, reversed: false }
}

/// What a title says of a line's port, speed, form and settings, of what it has received and
/// sent, and of what there is to say.
pub open spec fn line_said(c: ChannelState) -> Seq<char> {
    (if c.path is Some {
        c.path->0
    } else {
        "(未設定)"@
    }) + "  "@ + decimal(c.baud as nat) + "bps "@ + c.format + "  ["@ + joined(flags(c), " "@)
        + "]  RX:"@ + decimal(c.rx_bytes as nat) + " TX:"@ + decimal(c.tx_bytes as nat) + "  "@
        + c.status
}

/// What a title has to say: whether the line gets the keys, its letter, whether its port is open,
/// its modem where that is known, and what else there is to say of it.
pub open spec fn title_text(c: ChannelState, active: bool) -> Seq<char> {
    ((if active {
        "▶"@
    } else {
        " "@
    }) + c.name + " "@) + (if c.open {
        " ● "@
    } else {
        " ○ "@
    }) + (if c.modem is Some {
        "["@ + c.modem->0 + "] "@
    } else {
        Seq::empty()
    }) + line_said(c)
}

/// Whether `text` holds `part`.
pub open spec fn holds(text: Seq<char>, part: Seq<char>) -> bool {
    exists|before: Seq<char>, after: Seq<char>| text == #[trigger] (before + part + after)
}

proof fn lemma_holds(text: Seq<char>, part: Seq<char>, before: Seq<char>, after: Seq<char>)
    requires
        text == before + part + after,
    ensures
        holds(text, part),
{
}

proof fn lemma_holds_more(x: Seq<char>, y: Seq<char>, part: Seq<char>)
    ensures
        holds(x, part) ==> holds(x + y, part),
        holds(y, part) ==> holds(x + y, part),
{
    if holds(x, part) {
        let (b, a) = choose|b: Seq<char>, a: Seq<char>| x == #[trigger] (b + part + a);
        assert(x + y =~= b + part + (a + y));
    }
    if holds(y, part) {
        let (b, a) = choose|b: Seq<char>, a: Seq<char>| y == #[trigger] (b + part + a);
        assert(x + y =~= (x + b) + part + a);
    }
}

proof fn lemma_spoken_four(t: Seq<SpanState>)
    requires
        t.len() == 4,
    ensures
        spoken(t) == t[0].text + t[1].text + t[2].text + t[3].text,
{
    reveal_with_fuel(spoken, 5);
    let (a, b, d, e) = (t[0].text, t[1].text, t[2].text, t[3].text);
    assert(t.skip(1)[0] == t[1]);
    assert(t.skip(1).skip(1)[0] == t[2]);
    assert(t.skip(1).skip(1).skip(1)[0] == t[3]);
    assert(spoken(t) == a + (b + (d + (e + Seq::empty()))));
    assert(a + (b + (d + (e + Seq::empty()))) =~= a + b + d + e);
}

proof fn lemma_title_text(c: ChannelState, active: bool)
    ensures
        spoken(title_spans(c, active)) == title_text(c, active),
        title_spans(c, active).len() == 4,
{
    reveal_strlit("");
    assert(""@ =~= Seq::empty());
    lemma_spoken_four(title_spans(c, active));
    assert(title_spans(c, active)[3].text == line_said(c));
}

/// What is said of a line holds its port and its speed.
#[verifier::spinoff_prover]
proof fn lemma_line_holds(c: ChannelState)
    ensures
        c.path matches Some(p) ==> holds(line_said(c), p),
        holds(line_said(c), decimal(c.baud as nat) + "bps"@),
{
    reveal_strlit("bps ");
    reveal_strlit("bps");
    reveal_strlit(" ");
    let path = if c.path is Some {
        c.path->0
    } else {
        "(未設定)"@
    };
    let speed = decimal(c.baud as nat);
    let both = speed + "bps"@;
    let a = path + "  "@ + speed + "bps "@;
    assert("bps "@ =~= "bps"@ + " "@);
    assert(a =~= (path + "  "@) + both + " "@);
    lemma_holds(a, both, path + "  "@, " "@);
    assert(a =~= Seq::<char>::empty() + path + ("  "@ + speed + "bps "@));
    lemma_holds(a, path, Seq::empty(), "  "@ + speed + "bps "@);
    lemma_line_holds_on(c, a, both);
    lemma_line_holds_on(c, a, path);
}

proof fn lemma_line_holds_on(c: ChannelState, a: Seq<char>, part: Seq<char>)
    requires
        holds(a, part),
        a == (if c.path is Some {
            c.path->0
        } else {
            "(未設定)"@
        }) + "  "@ + decimal(c.baud as nat) + "bps "@,
    ensures
        holds(line_said(c), part),
{
    let b = a + c.format;
    lemma_holds_more(a, c.format, part);
    let d = b + "  ["@;
    lemma_holds_more(b, "  ["@, part);
    let e = d + joined(flags(c), " "@);
    lemma_holds_more(d, joined(flags(c), " "@), part);
    let f = e + "]  RX:"@;
    lemma_holds_more(e, "]  RX:"@, part);
    let g = f + decimal(c.rx_bytes as nat);
    lemma_holds_more(f, decimal(c.rx_bytes as nat), part);
    let h = g + " TX:"@;
    lemma_holds_more(g, " TX:"@, part);
    let i = h + decimal(c.tx_bytes as nat);
    lemma_holds_more(h, decimal(c.tx_bytes as nat), part);
    let j = i + "  "@;
    lemma_holds_more(i, "  "@, part);
    lemma_holds_more(j, c.status, part);
}

/// The title of a line holds its letter, its port and its speed.
#[verifier::spinoff_prover]
proof fn lemma_title_holds(c: ChannelState, active: bool)
    ensures
        holds(title_text(c, active), c.name),
        c.path matches Some(p) ==> holds(title_text(c, active), p),
        holds(title_text(c, active), decimal(c.baud as nat) + "bps"@),
{
    let mark = if active {
        "▶"@
    } else {
        " "@
    };
    let state = if c.open {
        " ● "@
    } else {
        " ○ "@
    };
    let modem = if c.modem is Some {
        "["@ + c.modem->0 + "] "@
    } else {
        Seq::empty()
    };
    let head = mark + c.name + " "@;
    let line = line_said(c);
    lemma_holds(head, c.name, mark, " "@);
    lemma_holds_more(head, state, c.name);
    lemma_holds_more(head + state, modem, c.name);
    lemma_holds_more(head + state + modem, line, c.name);
    lemma_line_holds(c);
    if c.path is Some {
        lemma_holds_more(head + state + modem, line, c.path->0);
    }
    lemma_holds_more(head + state + modem, line, decimal(c.baud as nat) + "bps"@);
}

/// The title line of every pane stands first among the steps that draw the pane, in the pane's
/// title area. It says what there is to say of the line with the pane's index, in the colours of
/// that pane: brighter ones, and bold, where the pane gets the keys.
#[verifier::spinoff_prover]
pub proof fn pane_is_titled_by_its_line(app: AppState, pane: Pane)
    ensures
        ({
            let steps = pane_steps(app, pane);
            let c = app.channels[pane.index as int];
            let active = pane.index == app.active;
            &&& steps.len() > 0
            &&& steps[0] matches StepState::Line { area, spans, style }
            &&& area == pane.title
            &&& spoken(spans) == title_text(c, active)
            &&& holds(spoken(spans), c.name)
            &&& c.path matches Some(p) ==> holds(spoken(spans), p)
            &&& holds(spoken(spans), decimal(c.baud as nat) + "bps"@)
            &&& spans.len() == 4
            &&& spans[0].style == plain(None, None)
            &&& spans[1].style == plain(
                Some(
                    if c.open {
                        Color::LightGreen
                    } else {
                        Color::LightRed
                    },
                ),
                None,
            )
            &&& c.modem is Some ==> spans[2].style == plain(Some(Color::LightYellow), None)
            &&& spans[3].style == plain(None, None)
            &&& style == if active {
                Style {
                    bold: true,
                    ..plain(
                        Some(Color::White),
                        Some(
                            if pane.index == 0 {
                                Color::Rgb(32, 80, 208)
                            } else {
                                Color::Rgb(24, 144, 64)
                            },
                        ),
                    )
                }
            } else {
                plain(
                    Some(Color::Gray),
                    Some(
                        if pane.index == 0 {
                            Color::Rgb(16, 32, 80)
                        } else {
                            Color::Rgb(16, 56, 24)
                        },
                    ),
                )
            }
        }),
{
    let c = app.channels[pane.index as int];
    let active = pane.index == app.active;
    lemma_title_text(c, active);
    lemma_title_holds(c, active);
}

/// The settings shown in a title: the character code and the line end always, then a mark each
/// for DEL, the echo and the log, in this order, where they are on.
pub proof fn title_marks_settings(c: ChannelState)
    ensures
        ({
            let f = flags(c);
            let n = 2 + (if c.backspace == 0x7f {
                1int
            } else {
                0
            });
            let m = n + (if c.local_echo {
                1int
            } else {
                0
            });
            &&& f.len() == m + (if c.logging {
                1int
            } else {
                0
            })
            &&& f[0] == c.encoding && f[1] == c.newline
            &&& c.backspace == 0x7f ==> f[2] == "DEL"@
            &&& c.local_echo ==> f[n] == "ECHO"@
            &&& c.logging ==> f[m] == "LOG"@
        }),
{
}

/// What a pane shows depends on its own line alone, on which pane gets the keys, and on whether a
/// window is over it: another line may change in any way.
pub proof fn panes_show_their_own_line(a: AppState, b: AppState, pane: Pane)
    requires
        a.channels[pane.index as int] == b.channels[pane.index as int],
        a.active == b.active,
        a.popup is None == b.popup is None,
    ensures
        pane_steps(a, pane) == pane_steps(b, pane),
{
}

/// What a pane shows of a line that does not get the keys depends on nothing but that line.
pub proof fn resting_panes_show_their_line_alone(a: AppState, b: AppState, pane: Pane)
    requires
        a.channels[pane.index as int] == b.channels[pane.index as int],
        a.active != pane.index,
        b.active != pane.index,
    ensures
        pane_steps(a, pane) == pane_steps(b, pane),
{
}

// ---------------------------------------------------------------- the whole window

proof fn lemma_panes_in_frame(app: AppState, panes: Seq<Pane>, n: nat, k: int)
    requires
        0 <= k < n,
    ensures
        ({
            let s = panes_steps(app, panes, n);
            let from = panes_steps(app, panes, k as nat).len() as int;
            let p = pane_steps(app, panes[k]);
            from + p.len() <= s.len() && s.subrange(from, from + p.len()) == p
        }),
    decreases n,
{
    let s = panes_steps(app, panes, n);
    let t = panes_steps(app, panes, (n - 1) as nat);
    let from = panes_steps(app, panes, k as nat).len() as int;
    let p = pane_steps(app, panes[k]);
    if k == n - 1 {
        assert(s.subrange(from, from + p.len()) =~= p);
    } else {
        lemma_panes_in_frame(app, panes, (n - 1) as nat, k);
        assert(s.subrange(from, from + p.len()) =~= t.subrange(from, from + p.len()));
    }
}

/// Every pane of the plan is drawn, in one piece; its title line is in the frame, says what there
/// is to say of the line with the pane's index, and is the same in every program in which that
/// line, the active pane and whether a window is shown are the same.
#[verifier::spinoff_prover]
pub proof fn frame_titles_every_pane(
    app: AppState,
    other: AppState,
    plan: Plan,
    area: Rect,
    k: int,
)
    requires
        0 <= k < plan.panes@.len(),
        app.channels[plan.panes@[k].index as int] == other.channels[plan.panes@[k].index as int],
        app.active == other.active,
        app.popup is None == other.popup is None,
    ensures
        ({
            let pane = plan.panes@[k];
            let c = app.channels[pane.index as int];
            let f = frame_steps(app, plan, area);
            let g = frame_steps(other, plan, area);
            exists|i: int, j: int|
                {
                    &&& 0 <= i < f.len()
                    &&& 0 <= j < g.len()
                    &&& #[trigger] f[i] == #[trigger] g[j]
                    &&& f[i] matches StepState::Line { area: at, spans, .. }
                    &&& at == pane.title
                    &&& spoken(spans) == title_text(c, pane.index == app.active)
                }
        }),
{
    let pane = plan.panes@[k];
    let f = frame_steps(app, plan, area);
    let g = frame_steps(other, plan, area);
    let n = plan.panes@.len();
    lemma_panes_in_frame(app, plan.panes@, n, k);
    lemma_panes_in_frame(other, plan.panes@, n, k);
    let i = panes_steps(app, plan.panes@, k as nat).len() as int;
    let j = panes_steps(other, plan.panes@, k as nat).len() as int;
    pane_is_titled_by_its_line(app, pane);
    panes_show_their_own_line(app, other, pane);
    let p = pane_steps(app, pane);
    let s = panes_steps(app, plan.panes@, n);
    let t = panes_steps(other, plan.panes@, n);
    assert(s.subrange(i, i + p.len())[0] == s[i]);
    assert(t.subrange(j, j + p.len())[0] == t[j]);
    assert(f[i] == s[i]);
    assert(g[j] == t[j]);
    assert(f[i] == g[j]);
}

/// The frame is the panes in the order of the plan, then the status line on its dark ground in
/// its area, then the window that is shown, for the active line, if there is one; and nothing
/// else.
#[verifier::spinoff_prover]
pub proof fn frame_is_panes_status_and_window(app: AppState, plan: Plan, area: Rect)
    ensures
        ({
            let f = frame_steps(app, plan, area);
            let status = seq![
                StepState::Line {
                    area: plan.status,
                    spans: status_spans(app.mode, app.scroll),
                    style: plain(None, Some(Color::DarkGray)),
                },
            ];
            let window = match app.popup {
                Some(p) => popup_steps(
                    p,
                    app.channels[app.active as int],
                    app.baud_rates,
                    area,
                    plan.list,
                    plan.input,
                ),
                None => Seq::empty(),
            };
            let p = plan.panes@;
            &&& p.len() == 1 ==> f == pane_steps(app, p[0]) + status + window
            &&& p.len() == 2 ==> f == pane_steps(app, p[0]) + pane_steps(app, p[1]) + status
                + window
        }),
{
    reveal_with_fuel(panes_steps, 3);
    let f = frame_steps(app, plan, area);
    let p = plan.panes@;
    let none = Seq::<StepState>::empty();
    if p.len() == 1 {
        assert(none + pane_steps(app, p[0]) =~= pane_steps(app, p[0]));
    } else if p.len() == 2 {
        assert(none + pane_steps(app, p[0]) =~= pane_steps(app, p[0]));
    }
}

/// A plan has the active pane alone where it is zoomed, and else both, the first one above; each
/// has a title of one row, and one row is left for the status.
pub proof fn plan_has_the_panes(app: AppState, plan: Plan, area: Rect)
    requires
        plan.is_for(app, area),
    ensures
        ({
            let p = plan.panes@;
            let row = (Limit::Length(1), Limit::Min(1));
            &&& app.zoom ==> exists|main: Rect|
                {
                    &&& #[trigger] can_split(
                        area,
                        (Limit::Min(2), Limit::Length(1)),
                        (main, plan.status),
                    )
                    &&& p.len() == 1
                    &&& p[0].index == app.active
                    &&& can_split(main, row, (p[0].title, p[0].body))
                }
            &&& !app.zoom ==> exists|main: Rect, halves: (Rect, Rect)|
                {
                    &&& #[trigger] can_split(
                        area,
                        (Limit::Min(2), Limit::Length(1)),
                        (main, plan.status),
                    )
                    &&& #[trigger] can_split(
                        main,
                        (Limit::Ratio(1, 2), Limit::Ratio(1, 2)),
                        halves,
                    )
                    &&& p.len() == 2
                    &&& p[0].index == 0 && p[1].index == 1
                    &&& can_split(halves.0, row, (p[0].title, p[0].body))
                    &&& can_split(halves.1, row, (p[1].title, p[1].body))
                }
            &&& (app.popup matches Some(w) && w is Baud) ==> can_split(
                bordered(popup_area(app.popup->0, app.baud_rates.len(), area)),
                (Limit::Min(1), Limit::Length(1)),
                (plan.list, plan.input),
            )
        }),
{
}

/// A pane can be drawn where it is one of the two, its area can be counted, its line is not
/// scrolled back by more than a screen, unless the area is empty, and the cursor that it shows
/// has a place; and only there.
pub proof fn which_panes_can_be_drawn(app: AppState, pane: Pane)
    ensures
        ({
            let s = app.channels[pane.index as int].screen;
            let b = pane.body;
            let room = b.width > 0 && b.height > 0;
            let cursor = pane.index == app.active && app.popup is None && s.offset == 0
                && !s.hidden;
            pane_drawable(app, pane) <==> {
                &&& pane.index < 2
                &&& b.x + b.width <= 65535
                &&& b.y + b.height <= 65535
                &&& !room || s.offset <= s.size.0
                &&& !cursor || room
            }
        }),
{
}

/// The window can be drawn where its area and what is over it can be counted and every pane of
/// the plan can be drawn. A window over it can be counted where its list is not too long.
pub proof fn which_windows_can_be_drawn(app: AppState, plan: Plan, area: Rect)
    ensures
        drawable(app, plan, area) <==> {
            &&& area.x + area.width <= 65535
            &&& area.y + area.height <= 65535
            &&& popup_fits(app.popup, app.baud_rates.len())
            &&& forall|i: int|
                0 <= i < plan.panes@.len() ==> pane_drawable(app, #[trigger] plan.panes@[i])
        },
        app.popup is None || app.popup == Some(PopupState::Help) ==> popup_fits(
            app.popup,
            app.baud_rates.len(),
        ),
        app.baud_rates.len() <= 65531 && (app.popup matches Some(PopupState::Port { ports, .. })
            ==> ports.len() <= 65533) ==> popup_fits(app.popup, app.baud_rates.len()),
{
}

// ---------------------------------------------------------------- the screen of a pane

/// The colour that a cell asks for, or the usual one where it asks for none.
pub open spec fn tone(c: CellColor, usual: Color) -> Color {
    if c == CellColor::Usual {
        usual
    } else if c is Idx {
        Color::Indexed(c->Idx_0)
    } else {
        Color::Rgb(c->Rgb_0, c->Rgb_1, c->Rgb_2)
    }
}

/// Whether a step shows this cell at this row and column of `area`: its text, or a blank where it
/// has none or its character is too wide for the last column, in its colours and looks.
pub open spec fn shows(
    step: StepState,
    c: CellState,
    area: Rect,
    row: int,
    col: int,
    bg: Color,
) -> bool {
    let style = Style {
        fg: Some(tone(c.fg, Color::Rgb(224, 224, 224))),
        bg: Some(tone(c.bg, bg)),
        bold: c.bold,
        italic: c.italic,
        underlined: c.underline,
        reversed: c.inverse,
    };
    if c.wide && col + 1 == area.width {
        step matches StepState::Blank { x, y, style: s } && x == area.x + col && y == area.y + row
            && s == style
    } else {
        &&& step matches StepState::Put { x, y, text, width, style: s }
        &&& x == area.x + col && y == area.y + row && s == style
        &&& width == area.width - col
        &&& c.contents.len() > 0 ==> text == c.contents
        &&& c.contents.len() == 0 ==> text == " "@
    }
}

/// Whether a step shows the cell that is in view at this row and column.
pub open spec fn shows_place(
    step: StepState,
    s: ScreenState,
    area: Rect,
    row: int,
    col: int,
    bg: Color,
) -> bool {
    s.cell(row as nat, col as nat) matches Some(c) && !c.continuation && shows(
        step,
        c,
        area,
        row,
        col,
        bg,
    )
}

/// Whether there is a character, or a blank, to show at this row and column.
pub open spec fn has_place(s: ScreenState, row: int, col: int) -> bool {
    s.cell(row as nat, col as nat) matches Some(c) && !c.continuation
}

/// The row and column that a step of a screen draws at.
pub open spec fn step_place(step: StepState) -> (int, int) {
    match step {
        StepState::Put { x, y, .. } => (y as int, x as int),
        StepState::Blank { x, y, .. } => (y as int, x as int),
        _ => (-1, -1),
    }
}

/// Whether the first step draws above the second, or left of it in one row.
pub open spec fn drawn_before(a: StepState, b: StepState) -> bool {
    let (p, q) = (step_place(a), step_place(b));
    p.0 < q.0 || p.0 == q.0 && p.1 < q.1
}

/// Whether a step shows what is in view in one of the first `n` columns of a row.
pub open spec fn shows_in_row(
    step: StepState,
    s: ScreenState,
    area: Rect,
    row: int,
    n: int,
    bg: Color,
) -> bool {
    exists|col: int| 0 <= col < n && #[trigger] shows_place(step, s, area, row, col, bg)
}

/// Whether a step shows what is in view at one place of the first `n` rows.
pub open spec fn shows_in_rows(
    step: StepState,
    s: ScreenState,
    area: Rect,
    n: int,
    bg: Color,
) -> bool {
    exists|row: int, col: int|
        0 <= row < n && 0 <= col < area.width && #[trigger] shows_place(
            step,
            s,
            area,
            row,
            col,
            bg,
        )
}

/// Whether the steps draw what is in view in these columns of a row, each place once.
pub open spec fn draws_row(
    steps: Seq<StepState>,
    s: ScreenState,
    area: Rect,
    row: int,
    n: int,
    bg: Color,
) -> bool {
    &&& forall|i: int|
        0 <= i < steps.len() ==> shows_in_row(#[trigger] steps[i], s, area, row, n, bg)
    &&& forall|col: int|
        0 <= col < n && #[trigger] has_place(s, row, col) ==> exists|i: int|
            0 <= i < steps.len() && shows_place(#[trigger] steps[i], s, area, row, col, bg)
    &&& forall|i: int, j: int|
        0 <= i < j < steps.len() ==> drawn_before(#[trigger] steps[i], #[trigger] steps[j])
}

#[verifier::spinoff_prover]
proof fn lemma_row(s: ScreenState, area: Rect, row: nat, n: nat, bg: Color)
    requires
        area.fits(),
        row < area.height,
        n <= area.width,
    ensures
        draws_row(row_steps(s, area, row, n, bg), s, area, row as int, n as int, bg),
    decreases n,
{
    let steps = row_steps(s, area, row, n, bg);
    if n > 0 {
        let col = (n - 1) as nat;
        lemma_row(s, area, row, col, bg);
        let before = row_steps(s, area, row, col, bg);
        let more = crate::ui::cell_steps(s.cell(row, col), area, row, col, bg);
        assert(more.len() == 0 || more.len() == 1);
        assert(more.len() == 1 <==> has_place(s, row as int, col as int));
        if more.len() == 1 {
            assert(shows_place(more[0], s, area, row as int, col as int, bg));
            assert(steps[before.len() as int] == more[0]);
        }
        assert forall|i: int| 0 <= i < steps.len() implies shows_in_row(
            #[trigger] steps[i],
            s,
            area,
            row as int,
            n as int,
            bg,
        ) by {
            if i < before.len() {
                assert(steps[i] == before[i]);
                assert(shows_in_row(before[i], s, area, row as int, col as int, bg));
                let c = choose|c: int|
                    0 <= c < col && #[trigger] shows_place(before[i], s, area, row as int, c, bg);
                assert(shows_place(steps[i], s, area, row as int, c, bg));
            } else {
                assert(shows_place(steps[i], s, area, row as int, col as int, bg));
            }
        }
        assert forall|c: int| 0 <= c < n && #[trigger] has_place(s, row as int, c) implies exists|
            i: int,
        |
            0 <= i < steps.len() && shows_place(
                #[trigger] steps[i],
                s,
                area,
                row as int,
                c,
                bg,
            ) by {
            if c < col {
                let i = choose|i: int|
                    0 <= i < before.len() && shows_place(
                        #[trigger] before[i],
                        s,
                        area,
                        row as int,
                        c,
                        bg,
                    );
                assert(steps[i] == before[i]);
            } else {
                assert(shows_place(steps[before.len() as int], s, area, row as int, c, bg));
            }
        }
        assert forall|i: int, j: int| 0 <= i < j < steps.len() implies drawn_before(
            #[trigger] steps[i],
            #[trigger] steps[j],
        ) by {
            assert(steps[i] == before[i]);
            if j < before.len() {
                assert(steps[j] == before[j]);
            } else {
                assert(shows_in_row(before[i], s, area, row as int, col as int, bg));
                let c = choose|c: int|
                    0 <= c < col && #[trigger] shows_place(before[i], s, area, row as int, c, bg);
                assert(step_place(before[i]) == (area.y + row, area.x + c));
                assert(step_place(more[0]) == (area.y + row, area.x + col));
            }
        }
    }
}

/// Whether the steps draw what is in view in these rows, each place once.
pub open spec fn draws_rows(
    steps: Seq<StepState>,
    s: ScreenState,
    area: Rect,
    n: int,
    bg: Color,
) -> bool {
    &&& forall|i: int|
        0 <= i < steps.len() ==> shows_in_rows(#[trigger] steps[i], s, area, n, bg)
    &&& forall|row: int, col: int|
        0 <= row < n && 0 <= col < area.width && #[trigger] has_place(s, row, col) ==> exists|
            i: int,
        |
            0 <= i < steps.len() && shows_place(#[trigger] steps[i], s, area, row, col, bg)
    &&& forall|i: int, j: int|
        0 <= i < j < steps.len() ==> drawn_before(#[trigger] steps[i], #[trigger] steps[j])
}

/// The screen of a pane is drawn place by place: every step shows what is in view at one place,
/// everything in view is shown, row by row from the left, and no place twice.
#[verifier::spinoff_prover]
pub proof fn screen_is_drawn_as_it_is(s: ScreenState, area: Rect, n: nat, bg: Color)
    requires
        area.fits(),
        n <= area.height,
    ensures
        draws_rows(screen_steps(s, area, n, bg), s, area, n as int, bg),
    decreases n,
{
    let steps = screen_steps(s, area, n, bg);
    if n > 0 {
        let last = (n - 1) as nat;
        screen_is_drawn_as_it_is(s, area, last, bg);
        lemma_row(s, area, last, area.width as nat, bg);
        let w = area.width as int;
        let before = screen_steps(s, area, last, bg);
        let more = row_steps(s, area, last, area.width as nat, bg);
        assert forall|i: int| 0 <= i < steps.len() implies shows_in_rows(
            #[trigger] steps[i],
            s,
            area,
            n as int,
            bg,
        ) by {
            if i < before.len() {
                assert(steps[i] == before[i]);
                assert(shows_in_rows(before[i], s, area, last as int, bg));
                let (row, col) = choose|row: int, col: int|
                    0 <= row < last && 0 <= col < w && #[trigger] shows_place(
                        before[i],
                        s,
                        area,
                        row,
                        col,
                        bg,
                    );
                assert(shows_place(steps[i], s, area, row, col, bg));
            } else {
                let m = i - before.len();
                assert(steps[i] == more[m]);
                assert(shows_in_row(more[m], s, area, last as int, w, bg));
                let col = choose|col: int|
                    0 <= col < w && #[trigger] shows_place(
                        more[m],
                        s,
                        area,
                        last as int,
                        col,
                        bg,
                    );
                assert(shows_place(steps[i], s, area, last as int, col, bg));
            }
        }
        assert forall|row: int, col: int|
            0 <= row < n && 0 <= col < w && #[trigger] has_place(s, row, col) implies exists|
            i: int,
        | 0 <= i < steps.len() && shows_place(#[trigger] steps[i], s, area, row, col, bg) by {
            if row < last {
                let i = choose|i: int|
                    0 <= i < before.len() && shows_place(
                        #[trigger] before[i],
                        s,
                        area,
                        row,
                        col,
                        bg,
                    );
                assert(steps[i] == before[i]);
            } else {
                let m = choose|m: int|
                    0 <= m < more.len() && shows_place(
                        #[trigger] more[m],
                        s,
                        area,
                        last as int,
                        col,
                        bg,
                    );
                assert(steps[before.len() + m] == more[m]);
            }
        }
        assert forall|i: int, j: int| 0 <= i < j < steps.len() implies drawn_before(
            #[trigger] steps[i],
            #[trigger] steps[j],
        ) by {
            if j < before.len() {
                assert(steps[i] == before[i] && steps[j] == before[j]);
            } else if i >= before.len() {
                assert(steps[i] == more[i - before.len()] && steps[j] == more[j - before.len()]);
            } else {
                let m = j - before.len();
                assert(steps[i] == before[i] && steps[j] == more[m]);
                assert(shows_in_rows(before[i], s, area, last as int, bg));
                assert(shows_in_row(more[m], s, area, last as int, w, bg));
                let (row, c) = choose|row: int, c: int|
                    0 <= row < last && 0 <= c < w && #[trigger] shows_place(
                        before[i],
                        s,
                        area,
                        row,
                        c,
                        bg,
                    );
                let d = choose|d: int|
                    0 <= d < w && #[trigger] shows_place(more[m], s, area, last as int, d, bg);
                assert(step_place(before[i]).0 == area.y + row);
                assert(step_place(more[m]).0 == area.y + last);
            }
        }
    }
}

/// The row that is in view at the top is as far above the screen's own first row as the view is
/// scrolled back; the others follow it.
pub proof fn view_starts_where_it_is_scrolled_to(s: ScreenState, row: nat, col: nat)
    requires
        s.offset + s.size.0 <= s.rows.len(),
    ensures
        row >= s.size.0 ==> s.cell(row, col) is None,
        row < s.size.0 ==> ({
            let line = s.rows[s.rows.len() - s.size.0 - s.offset + row];
            s.cell(row, col) == if col < line.len() {
                Some(line[col as int])
            } else {
                None
            }
        }),
{
}

/// A pane is its title, then its screen in its body on the pane's own ground, and last the cursor
/// where it is shown: in the active pane, without a window, not scrolled back and not hidden. The
/// cursor stands where the screen has it, or at the edge where the body ends before that.
#[verifier::spinoff_prover]
pub proof fn pane_is_title_screen_and_cursor(app: AppState, pane: Pane)
    requires
        pane.body.fits(),
        pane.body.width > 0,
        pane.body.height > 0,
    ensures
        ({
            let steps = pane_steps(app, pane);
            let s = app.channels[pane.index as int].screen;
            let b = pane.body;
            let bg = if pane.index == 0 {
                Color::Rgb(0, 0, 80)
            } else {
                Color::Rgb(64, 8, 16)
            };
            let n = screen_steps(s, b, b.height as nat, bg).len() as int;
            let cursor = pane.index == app.active && app.popup is None && s.offset == 0
                && !s.hidden;
            &&& draws_rows(steps.subrange(1, n + 1), s, b, b.height as int, bg)
            &&& steps.len() == n + 1 + (if cursor {
                1int
            } else {
                0
            })
            &&& cursor ==> (steps.last() matches StepState::Cursor { x, y } && {
                &&& s.cursor.1 < b.width ==> x == b.x + s.cursor.1
                &&& s.cursor.1 >= b.width ==> x == b.x + b.width - 1
                &&& s.cursor.0 < b.height ==> y == b.y + s.cursor.0
                &&& s.cursor.0 >= b.height ==> y == b.y + b.height - 1
            })
        }),
{
    let steps = pane_steps(app, pane);
    let s = app.channels[pane.index as int].screen;
    let b = pane.body;
    let bg = crate::ui::pane_ground(pane.index as nat);
    let drawn = screen_steps(s, b, b.height as nat, bg);
    screen_is_drawn_as_it_is(s, b, b.height as nat, bg);
    assert(steps.subrange(1, drawn.len() as int + 1) =~= drawn);
}

// ---------------------------------------------------------------- the status line

/// The status line says what keys are meant for: commands after Ctrl-A, how far the view is
/// scrolled back, or else how to begin.
#[verifier::spinoff_prover]
pub proof fn status_tells_the_mode(scroll: nat)
    ensures
        ({
            let p = status_spans(Mode::Prefix, scroll);
            let s = status_spans(Mode::Scroll, scroll);
            let n = status_spans(Mode::Normal, scroll);
            &&& p.len() == 2
            &&& p[0].text == " Ctrl-A "@
            &&& p[0].style == plain(Some(Color::Black), Some(Color::Yellow))
            &&& p[1].text
                == " Tab:切替 b:bps p:ポート i:モデム名 e:文字コード n:改行 l:エコー c:消去 r:再接続 x:切断 H:回線切断 L:ログ z:最大化 [:履歴 ?:ヘルプ q:終了"@
            &&& p[1].style == plain(None, None)
            &&& s.len() == 2
            &&& s[0].text == " 履歴 "@
            &&& s[0].style == plain(Some(Color::Black), Some(Color::Cyan))
            &&& s[1].text == " "@ + decimal(scroll)
                + " 行上  ↑↓/PgUp/PgDn/g/G で移動  Esc/q で戻る"@
            &&& s[1].style == plain(None, None)
            &&& n.len() == 10
            &&& n[0].text == " Ctrl-A "@ && n[1].text == " コマンド  "@
            &&& n[2].text == " Ctrl-A Tab "@ && n[3].text == " 画面切替  "@
            &&& n[4].text == " Ctrl-A b "@ && n[5].text == " bps  "@
            &&& n[6].text == " Ctrl-A ? "@ && n[7].text == " ヘルプ  "@
            &&& n[8].text == " Ctrl-A q "@ && n[9].text == " 終了"@
            &&& forall|i: int|
                0 <= i < 10 ==> (#[trigger] n[i]).style == if i % 2 == 0 {
                    plain(Some(Color::Black), Some(Color::Gray))
                } else {
                    plain(None, None)
                }
        }),
{
    let n = status_spans(Mode::Normal, scroll);
    assert forall|i: int| 0 <= i < 10 implies (#[trigger] n[i]).style == if i % 2 == 0 {
        plain(Some(Color::Black), Some(Color::Gray))
    } else {
        plain(None, None)
    } by {}
}

// ---------------------------------------------------------------- windows

/// The border of a window with this title: white on black.
pub open spec fn edged(title: Seq<char>) -> BorderState {
    BorderState { title, style: plain(Some(Color::White), Some(Color::Black)) }
}

/// The look of what is selected: bold on blue.
pub open spec fn chosen_look() -> Style {
    Style { bold: true, ..plain(None, Some(Color::Blue)) }
}

/// The window for the speed: it clears its place, names the line, lists every speed with the
/// selected one highlighted, and shows the digits typed, or what may be typed.
pub proof fn speed_window_shows_the_speeds(
    sel: nat,
    custom: Seq<char>,
    c: ChannelState,
    rates: Seq<u32>,
    area: Rect,
    list: Rect,
    input: Rect,
)
    ensures
        ({
            let w = PopupState::Baud { sel, custom };
            let place = popup_area(w, rates.len(), area);
            let s = popup_steps(w, c, rates, area, list, input);
            &&& s.len() == 4
            &&& s[0] == StepState::Clear { area: place }
            &&& s[1] == StepState::Frame {
                area: place,
                edge: edged(" "@ + c.name + " の bps "@),
            }
            &&& s[2] matches StepState::List { area: at, border, items, selected, highlight }
            &&& at == list && border is None && selected == sel && highlight == chosen_look()
            &&& items.len() == rates.len()
            &&& forall|i: int|
                0 <= i < rates.len() ==> #[trigger] items[i] == baud_item(rates[i], c.baud)
            &&& s[3] == StepState::Text {
                area: input,
                border: None,
                text: if custom.len() > 0 {
                    "任意: "@ + custom + "_"@
                } else {
                    "数字入力で任意値 / Enter"@
                },
                style: plain(Some(Color::Yellow), None),
            }
        }),
{
}

/// A speed of the list is its digits to the right of eight columns, with a mark behind them where
/// the line has that speed.
pub proof fn speeds_are_aligned(rate: u32, current: u32)
    ensures
        ({
            let item = baud_item(rate, current);
            let d = decimal(rate as nat);
            let pad = if d.len() < 8 {
                8 - d.len()
            } else {
                0
            };
            &&& forall|i: int| 0 <= i < pad ==> #[trigger] item[i] == ' '
            &&& item.len() >= pad + d.len()
            &&& item.subrange(pad, pad + d.len()) == d
            &&& item.skip(pad + d.len()) == if rate == current {
                seq![' ', '*']
            } else {
                Seq::empty()
            }
        }),
{
    reveal_strlit(" *");
    reveal_strlit("");
    let item = baud_item(rate, current);
    let d = decimal(rate as nat);
    let pad = if d.len() < 8 {
        8 - d.len()
    } else {
        0
    };
    assert(item.subrange(pad, pad + d.len()) =~= d);
}

/// The window for the port: it clears its place, names the line, and lists the ports with the
/// selected one highlighted, or says that there is none.
pub proof fn port_window_shows_the_ports(
    ports: Seq<Seq<char>>,
    sel: nat,
    c: ChannelState,
    rates: Seq<u32>,
    area: Rect,
    list: Rect,
    input: Rect,
)
    ensures
        ({
            let w = PopupState::Port { ports, sel };
            let place = popup_area(w, rates.len(), area);
            let border = Some(edged(" "@ + c.name + " のポート (Enter で接続) "@));
            let s = popup_steps(w, c, rates, area, list, input);
            &&& s.len() == 2
            &&& s[0] == StepState::Clear { area: place }
            &&& ports.len() > 0 ==> s[1] == StepState::List {
                area: place,
                border,
                items: ports,
                selected: sel,
                highlight: chosen_look(),
            }
            &&& ports.len() == 0 ==> s[1] == StepState::Text {
                area: place,
                border,
                text: "シリアルポートが見つかりません"@,
                style: plain(None, None),
            }
        }),
{
}

/// The help window clears its place and shows its lines, each on a row of its own: what comes
/// first, one line for each command, and how to go on.
#[verifier::spinoff_prover]
pub proof fn help_window_shows_the_commands(
    c: ChannelState,
    rates: Seq<u32>,
    area: Rect,
    list: Rect,
    input: Rect,
)
    ensures
        ({
            let place = popup_area(PopupState::Help, rates.len(), area);
            let h = help_lines();
            let s = popup_steps(PopupState::Help, c, rates, area, list, input);
            &&& s.len() == 2
            &&& s[0] == StepState::Clear { area: place }
            &&& s[1] == StepState::Text {
                area: place,
                border: Some(edged(" ヘルプ "@)),
                text: joined(h, "\n"@),
                style: plain(None, None),
            }
            &&& h.len() == 22
            &&& h[0] == "Ctrl-A をプレフィックスにして以下のキー"@
            &&& h[2] == "  Tab / o / ↑↓  上下画面の切替"@
            &&& h[3] == "  1 / 2         A(上) / B(下) を選択"@
            &&& h[4] == "  b             bps 設定"@
            &&& h[5] == "  p             ポート選択・接続"@
            &&& h[6] == "  r / x         再接続 / 切断"@
            &&& h[7] == "  i             モデム名を取得 (ATI3)"@
            &&& h[8] == "  H             DTR OFF で回線切断"@
            &&& h[9] == "  e             文字コード (SJIS/UTF-8/EUC/JIS)"@
            &&& h[10] == "  n             改行コード (CR/CRLF/LF)"@
            &&& h[11] == "  h             BackSpace を BS/DEL 切替"@
            &&& h[12] == "  l             ローカルエコー"@
            &&& h[13] == "  L             受信ログ保存 開始/停止"@
            &&& h[14] == "  c             画面消去"@
            &&& h[15] == "  Ctrl-L        表示の描き直し"@
            &&& h[16] == "  z             アクティブ画面を最大化"@
            &&& h[17] == "  [ / PgUp      スクロールバック"@
            &&& h[18] == "  Ctrl-A        0x01 を送信"@
            &&& h[19] == "  q             終了"@
            &&& h[21] == "何かキーを押すと閉じます"@
        }),
{
}

/// A window stands in the middle. It has room for its list and its border, the window for the
/// speed also for what is typed and its border, as far as the area has.
pub proof fn windows_have_room(w: PopupState, rates: nat, area: Rect)
    requires
        area.fits(),
        rates <= 65531,
        w matches PopupState::Port { ports, .. } ==> ports.len() <= 65533,
    ensures
        ({
            let place = popup_area(w, rates, area);
            let width = if w is Baud {
                32int
            } else if w is Port {
                50
            } else {
                48
            };
            let height = match w {
                PopupState::Baud { .. } => rates + 4,
                PopupState::Port { ports, .. } => if ports.len() == 0 {
                    3
                } else {
                    ports.len() + 2
                },
                PopupState::Help => help_lines().len() + 2,
            };
            &&& place.width == if width <= area.width {
                width
            } else {
                area.width as int
            }
            &&& place.height == if height <= area.height {
                height
            } else {
                area.height as nat
            }
            &&& place.within(area)
            &&& 0 <= (area.x + area.width - place.x - place.width) - (place.x - area.x) <= 1
            &&& 0 <= (area.y + area.height - place.y - place.height) - (place.y - area.y) <= 1
        }),
{
    match w {
        PopupState::Baud { .. } => {
            assert(rates % 65536 == rates);
        },
        PopupState::Port { ports, .. } => {
            assert(ports.len() % 65536 == ports.len());
        },
        PopupState::Help => {},
    }
}

/// A border takes one row and one column on each side; where there are not that many, nothing is
/// left.
pub proof fn border_takes_the_edges(area: Rect)
    requires
        area.fits(),
    ensures
        ({
            let r = bordered(area);
            &&& area.width >= 2 ==> r.x == area.x + 1 && r.x + r.width + 1 == area.x + area.width
            &&& area.height >= 2 ==> r.y == area.y + 1 && r.y + r.height + 1 == area.y
                + area.height
            &&& area.width < 2 ==> r.width == 0 && r.x == area.x + area.width
            &&& area.height < 2 ==> r.height == 0 && r.y == area.y + area.height
        }),
{
}

} // verus!

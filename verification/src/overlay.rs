//! Race overlay decisions: pixel clipping, leaderboard layout, and the
//! texts of the banners and rows.
use vstd::prelude::*;
use vstd::string::*;
use crate::text::{decimal, push_decimal};

verus! {

/// Errors that can occur while drawing race overlays.
#[derive(Debug)]
pub enum OverlayError {
    /// The embedded font failed to initialise.
    FontInit(String),
    /// A text rasterization step failed.
    Rasterize(String),
}

/// How an overlay error reads.
pub open spec fn overlay_error_text(e: OverlayError) -> Seq<char> {
    match e {
        OverlayError::FontInit(m) => "Font initialization failed: "@ + m@,
        OverlayError::Rasterize(m) => "Text rasterization failed: "@ + m@,
    }
}

impl OverlayError {
    /// The error's text, as it is shown to the user.
    pub fn message(&self) -> (m: String)
        ensures
            m@ == overlay_error_text(*self),
    {
        match self {
            OverlayError::FontInit(s) => {
                let mut m = String::from_str("Font initialization failed: ");
                m.append(s.as_str());
                m
            },
            OverlayError::Rasterize(s) => {
                let mut m = String::from_str("Text rasterization failed: ");
                m.append(s.as_str());
                m
            },
        }
    }
}

/// The pixel rectangle `[x0, x1) × [y0, y1)` a fill covers inside a
/// `fw × fh` frame, or `None` when nothing of it is inside.
pub open spec fn clipped(x: int, y: int, w: int, h: int, fw: int, fh: int) -> Option<(int, int, int, int)> {
    let x0 = if x > 0 { x } else { 0 };
    let y0 = if y > 0 { y } else { 0 };
    let x1 = if x + w < fw { x + w } else { fw };
    let y1 = if y + h < fh { y + h } else { fh };
    if x0 >= x1 || y0 >= y1 {
        None
    } else {
        Some((x0, y0, x1, y1))
    }
}

/// Clip the rectangle at `(x, y)` of size `w × h` to a `fw × fh` frame.
pub fn clip_rect(x: i32, y: i32, w: i32, h: i32, fw: i32, fh: i32) -> (r: Option<(i32, i32, i32, i32)>)
    requires
        i32::MIN <= x + w <= i32::MAX,
        i32::MIN <= y + h <= i32::MAX,
    ensures
        match clipped(x as int, y as int, w as int, h as int, fw as int, fh as int) {
            Some((x0, y0, x1, y1)) => r == Some((x0 as i32, y0 as i32, x1 as i32, y1 as i32)),
            None => r is None,
        },
{
    let x0 = if x > 0 { x } else { 0 };
    let y0 = if y > 0 { y } else { 0 };
    let xe = x + w;
    let ye = y + h;
    let x1: i32 = if xe < fw { xe } else { fw };
    let y1: i32 = if ye < fh { ye } else { fh };
    if x0 >= x1 || y0 >= y1 {
        None
    } else {
        Some((x0, y0, x1, y1))
    }
}

/// Most leaderboard rows drawn.
pub const MAX_ROWS: usize = 8;

/// Rows the leaderboard draws: finished racers first, then running ones,
/// at most [`MAX_ROWS`] in all.
pub open spec fn leaderboard_rows(finished: nat, active: nat) -> (nat, nat) {
    let f = if finished < MAX_ROWS { finished } else { MAX_ROWS as nat };
    let room = (MAX_ROWS - f) as nat;
    (f, if active < room { active } else { room })
}

/// How many finished and how many running racers the leaderboard lists,
/// and how many it leaves out.
pub fn leaderboard_layout(finished: usize, active: usize) -> (r: (usize, usize, usize))
    requires
        finished + active <= usize::MAX,
    ensures
        (r.0 as nat, r.1 as nat) == leaderboard_rows(finished as nat, active as nat),
        r.2 == (if finished + active > MAX_ROWS { finished + active - MAX_ROWS } else { 0 }),
{
    let f = if finished < MAX_ROWS { finished } else { MAX_ROWS };
    let room = MAX_ROWS - f;
    let a = if active < room { active } else { room };
    let total = finished + active;
    let more = if total > MAX_ROWS { total - MAX_ROWS } else { 0 };
    (f, a, more)
}

/// Text of the "more racers" line.
pub open spec fn more_text(n: nat) -> Seq<char> {
    "+ "@ + decimal(n) + " more"@
}

/// The line under a full leaderboard: `"+ N more"`.
pub fn more_racers_text(n: usize) -> (s: String)
    ensures
        s@ == more_text(n as nat),
{
    let mut s = String::from_str("+ ");
    push_decimal(&mut s, n as u64);
    s.append(" more");
    s
}

/// Label of a running racer's row: `"rank. name"`.
pub fn active_row_label(rank: usize, name: &str) -> (s: String)
    ensures
        s@ == decimal(rank as nat) + ". "@ + name@,
{
    let mut s = String::new();
    push_decimal(&mut s, rank as u64);
    s.append(". ");
    s.append(name);
    s
}

/// Title of the winner announcement: `"name wins!"`.
pub fn winner_title(name: &str) -> (s: String)
    ensures
        s@ == name@ + " wins!"@,
{
    let mut s = String::from_str(name);
    s.append(" wins!");
    s
}

/// Text of the elimination banner: a cross mark, the name, `ELIMINATED!`.
pub fn elimination_banner_text(name: &str) -> (s: String)
    ensures
        s@ == "\u{274c} "@ + name@ + " ELIMINATED!"@,
{
    let mut s = String::from_str("\u{274c} ");
    s.append(name);
    s.append(" ELIMINATED!");
    s
}

} // verus!

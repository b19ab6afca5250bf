//! Rendering computations shared by the two presentation modes.
//!
//! Plain mode lists each post as `<@handle> text`, oldest first. Panel mode
//! presents the buffer newest first, each row carrying the post's time of day
//! as `HH:MM:SS`, its author handle colored by row position, and its text.

use vstd::prelude::*;
use crate::creds::dup_bytes;
use crate::timeline::{Post, PostBuffer, PostView};

verus! {

/// One color of the panel palette.
#[derive(Clone, Copy, Debug, PartialEq, Eq, Structural)]
pub struct Rgb {
    pub r: u8,
    pub g: u8,
    pub b: u8,
}

/// The fixed qualitative palette panel mode colors rows with.
pub open spec fn tableau_colors() -> Seq<Rgb> {
    seq![
        Rgb { r: 0x4e, g: 0x79, b: 0xa7 },
        Rgb { r: 0xf2, g: 0x8e, b: 0x2c },
        Rgb { r: 0xe1, g: 0x57, b: 0x59 },
        Rgb { r: 0x76, g: 0xb7, b: 0xb2 },
        Rgb { r: 0x59, g: 0xa1, b: 0x4f },
        Rgb { r: 0xed, g: 0xc9, b: 0x49 },
        Rgb { r: 0xaf, g: 0x7a, b: 0xa1 },
        Rgb { r: 0xff, g: 0x9d, b: 0xa7 },
        Rgb { r: 0x9c, g: 0x75, b: 0x5f },
        Rgb { r: 0xba, g: 0xb0, b: 0xab },
    ]
}

/// Relies on colorous::TABLEAU10: the ten Tableau10 palette colors, exactly
/// the constants that crate defines.
#[verifier::external_body]
fn tableau10() -> (r: Vec<Rgb>)
    ensures
        r@ == tableau_colors(),
{
    colorous::TABLEAU10.iter().map(|c| Rgb { r: c.r, g: c.g, b: c.b }).collect()
}

/// The palette panel mode uses.
pub fn panel_palette() -> (r: Vec<Rgb>)
    ensures
        r@ == tableau_colors(),
        r@.len() == 10,
{
    tableau10()
}

/// The second of the day a timestamp falls on.
pub open spec fn day_seconds(ts: int) -> int {
    ts % 86400
}

/// A decimal digit byte.
pub open spec fn digit(n: int) -> u8 {
    (48 + n) as u8
}

/// Two decimal digit bytes, zero padded.
pub open spec fn two_digits(n: int) -> Seq<u8> {
    seq![digit(n / 10), digit(n % 10)]
}

/// The time of day of a timestamp as `HH:MM:SS`.
pub open spec fn hms_spec(ts: int) -> Seq<u8> {
    let s = day_seconds(ts);
    two_digits(s / 3600) + seq![58u8] + two_digits((s % 3600) / 60) + seq![58u8] + two_digits(
        s % 60,
    )
}

/// Writes a timestamp's time of day as `HH:MM:SS`.
pub fn format_hms(ts: i64) -> (r: Vec<u8>)
    ensures
        r@ == hms_spec(ts as int),
{
    let r0 = ts % 86400;
    let sec: i64 = if r0 < 0 {
        r0 + 86400
    } else {
        r0
    };
    proof {
        assert(sec == day_seconds(ts as int));
        assert(0 <= sec < 86400);
    }
    let h = sec / 3600;
    let m = (sec % 3600) / 60;
    let s2 = sec % 60;
    proof {
        assert(0 <= h < 24);
        assert(0 <= m < 60);
        assert(0 <= s2 < 60);
    }
    let mut r: Vec<u8> = Vec::new();
    r.push((48 + h / 10) as u8);
    r.push((48 + h % 10) as u8);
    r.push(58);
    r.push((48 + m / 10) as u8);
    r.push((48 + m % 10) as u8);
    r.push(58);
    r.push((48 + s2 / 10) as u8);
    r.push((48 + s2 % 10) as u8);
    proof {
        assert(r@ =~= hms_spec(ts as int));
    }
    r
}

/// One plain-mode output line: `<@handle> text`.
pub open spec fn line_of(p: PostView) -> Seq<u8> {
    seq![60u8, 64u8] + p.handle + (seq![62u8, 32u8] + p.text)
}

/// Writes one post as a plain-mode line.
pub fn format_line(p: &Post) -> (r: Vec<u8>)
    ensures
        r@ == line_of(p@),
{
    let mut r: Vec<u8> = Vec::new();
    r.push(60);
    r.push(64);
    let mut h = dup_bytes(&p.handle);
    r.append(&mut h);
    r.push(62);
    r.push(32);
    let mut t = dup_bytes(&p.text);
    r.append(&mut t);
    proof {
        assert(r@ =~= line_of(p@));
    }
    r
}

/// Plain mode's whole output: each post of the buffer as `<@handle> text`, one
/// line per post, in timestamp order.
pub fn plain_lines(buffer: &PostBuffer) -> (r: Vec<Vec<u8>>)
    ensures
        r@.len() == buffer@.len(),
        forall|i: int| 0 <= i < r@.len() ==> (#[trigger] r@[i])@ == line_of(buffer@[i]),
{
    let mut r: Vec<Vec<u8>> = Vec::new();
    let n = buffer.len();
    let mut i: usize = 0;
    while i < n
        invariant
            n == buffer@.len(),
            i <= n,
            r@.len() == i,
            forall|j: int| 0 <= j < i ==> (#[trigger] r@[j])@ == line_of(buffer@[j]),
        decreases n - i,
    {
        let line = format_line(buffer.post_at(i));
        r.push(line);
        i = i + 1;
    }
    r
}

/// One row of the panel: the post's time of day, its author handle, the
/// handle's color, and the post's text.
#[derive(Debug)]
pub struct PanelRow {
    /// The post's time of day as `HH:MM:SS`, drawn dim.
    pub time: Vec<u8>,
    /// The author's handle, drawn bold in `color`.
    pub handle: Vec<u8>,
    /// The row's color: positional, row index modulo the palette size.
    pub color: Rgb,
    /// The post's text.
    pub text: Vec<u8>,
}

/// Panel mode's whole output: the buffer newest first, row `i` colored with
/// `palette[i mod palette_size]`.
pub fn render_panel(buffer: &PostBuffer, palette: &Vec<Rgb>) -> (rows: Vec<PanelRow>)
    requires
        palette@.len() > 0,
    ensures
        rows@.len() == buffer@.len(),
        forall|i: int|
            0 <= i < rows@.len() ==> {
                &&& (#[trigger] rows@[i]).time@ == hms_spec(buffer@.reverse()[i].timestamp)
                &&& rows@[i].handle@ == buffer@.reverse()[i].handle
                &&& rows@[i].text@ == buffer@.reverse()[i].text
                &&& rows@[i].color == palette@[i % palette@.len() as int]
            },
{
    let rev = buffer.rev_posts();
    proof {
        assert(crate::timeline::posts_view(rev@).len() == rev@.len());
        assert(buffer@.reverse().len() == buffer@.len());
    }
    let mut rows: Vec<PanelRow> = Vec::new();
    let mut i: usize = 0;
    while i < rev.len()
        invariant
            crate::timeline::posts_view(rev@) == buffer@.reverse(),
            rev@.len() == buffer@.len(),
            palette@.len() > 0,
            i <= rev@.len(),
            rows@.len() == i,
            forall|j: int|
                0 <= j < i ==> {
                    &&& (#[trigger] rows@[j]).time@ == hms_spec(buffer@.reverse()[j].timestamp)
                    &&& rows@[j].handle@ == buffer@.reverse()[j].handle
                    &&& rows@[j].text@ == buffer@.reverse()[j].text
                    &&& rows@[j].color == palette@[j % palette@.len() as int]
                },
        decreases rev@.len() - i,
    {
        let p = &rev[i];
        proof {
            assert(p@ == buffer@.reverse()[i as int]);
        }
        let row = PanelRow {
            time: format_hms(p.timestamp),
            handle: dup_bytes(&p.handle),
            color: palette[i % palette.len()],
            text: dup_bytes(&p.text),
        };
        rows.push(row);
        i = i + 1;
    }
    rows
}

/// Panel mode's output with its fixed palette.
pub fn panel_rows(buffer: &PostBuffer) -> (rows: Vec<PanelRow>)
    ensures
        rows@.len() == buffer@.len(),
        forall|i: int|
            0 <= i < rows@.len() ==> {
                &&& (#[trigger] rows@[i]).time@ == hms_spec(buffer@.reverse()[i].timestamp)
                &&& rows@[i].handle@ == buffer@.reverse()[i].handle
                &&& rows@[i].text@ == buffer@.reverse()[i].text
                &&& rows@[i].color == tableau_colors()[i % 10]
            },
{
    let palette = panel_palette();
    render_panel(buffer, &palette)
}

} // verus!

//! Dashboard renderer: a pure mapping from the latest snapshot, the CPU
//! history and the viewport width to the content of one frame — header
//! text, chart series and title, memory/swap gauge percentages, and one
//! formatted list line per disk entry. The terminal layer draws these;
//! nothing here touches a screen.

use vstd::prelude::*;
use vstd::slice::slice_to_vec;
use crate::history::History;
use crate::numerals::{dec_digits, format_milli_one_decimal, milli_one_decimal, u64_to_dec};
use crate::snapshot::{DiskEntry, MetricsSnapshot};
use crate::MAX_HISTORY;

verus! {

/// One point of the CPU chart. Coordinates are in thousandths: `x_milli`
/// of a terminal column, `y_milli` of a CPU percent.
pub struct ChartPoint {
    pub x_milli: u64,
    pub y_milli: u64,
}

/// The mathematical content of a chart series.
pub open spec fn point_views(ps: Seq<ChartPoint>) -> Seq<(u64, u64)> {
    ps.map_values(|p: ChartPoint| (p.x_milli, p.y_milli))
}

/// The content of one frame, as plain data.
pub struct FrameModel {
    /// The raw uptime line, shown verbatim in the header panel.
    pub header_line: Vec<u8>,
    /// Chart title: the instantaneous CPU percentage to one decimal.
    pub chart_title: Vec<u8>,
    /// The CPU series, x spread evenly across the chart width.
    pub chart_points: Vec<ChartPoint>,
    /// Memory used as a percentage of total, clamped to [0, 100].
    pub memory_percent: u64,
    /// Swap used as a percentage of total, clamped to [0, 100].
    pub swap_percent: u64,
    /// One formatted line per disk entry, in input order.
    pub disk_lines: Vec<Vec<u8>>,
}

/// `used` as a whole-number percentage of `total`, truncated, clamped to
/// [0, 100]; zero when `total` is zero, so a zero total can never fault.
pub open spec fn percent_of(used: u64, total: u64) -> u64 {
    if total == 0 {
        0
    } else if used * 100 / (total as int) > 100 {
        100
    } else {
        (used * 100 / (total as int)) as u64
    }
}

/// Compute `percent_of` without overflow or division by zero.
pub fn gauge_percent(used: u64, total: u64) -> (r: u64)
    ensures
        r == percent_of(used, total),
        r <= 100,
        total == 0 ==> r == 0,
{
    if total == 0 {
        0
    } else {
        let w: u128 = (used as u128) * 100 / (total as u128);
        if w > 100 {
            100
        } else {
            w as u64
        }
    }
}

/// The sample run the chart plots: the history itself, or — with fewer
/// than two retained samples — padded with the instantaneous CPU value so
/// that a line can always be drawn.
pub open spec fn padded_samples(h: Seq<u64>, cpu: u64) -> Seq<u64> {
    if h.len() >= 2 {
        h
    } else if h.len() == 1 {
        h.push(cpu)
    } else {
        seq![cpu, cpu]
    }
}

/// X position of point `i` of `n`, in thousandths of a column: the points
/// are spread evenly from column 0 to column `width`.
pub open spec fn x_spread(i: int, n: int, width: u16) -> u64 {
    (i * width * 1000 / (n - 1)) as u64
}

/// The chart series drawn for history `h` at instantaneous value `cpu`.
pub open spec fn chart_series(h: Seq<u64>, cpu: u64, width: u16) -> Seq<(u64, u64)> {
    let pts = padded_samples(h, cpu);
    Seq::new(pts.len(), |i: int| (x_spread(i, pts.len() as int, width), pts[i]))
}

/// `"CPU Usage: "`.
pub open spec fn title_prefix() -> Seq<u8> {
    seq![67u8, 80, 85, 32, 85, 115, 97, 103, 101, 58, 32]
}

/// The chart title: the prefix, the CPU percentage to one decimal place,
/// and a percent sign.
pub open spec fn chart_title_of(cpu_milli: u64) -> Seq<u8> {
    title_prefix() + milli_one_decimal(cpu_milli as nat) + seq![37u8]
}

/// Render the chart title for an instantaneous CPU value.
pub fn format_chart_title(cpu_milli: u64) -> (v: Vec<u8>)
    ensures
        v@ == chart_title_of(cpu_milli),
{
    let mut v: Vec<u8> = Vec::new();
    v.push(67);
    v.push(80);
    v.push(85);
    v.push(32);
    v.push(85);
    v.push(115);
    v.push(97);
    v.push(103);
    v.push(101);
    v.push(58);
    v.push(32);
    proof {
        assert(v@ =~= title_prefix());
    }
    let mut num = format_milli_one_decimal(cpu_milli);
    v.append(&mut num);
    v.push(37);
    proof {
        assert(v@ =~= chart_title_of(cpu_milli));
    }
    v
}

/// What `humansize` renders a byte count as, with binary (1024-based)
/// suffixes. The result is a function of the count alone.
pub uninterp spec fn binary_size_of(n: u64) -> Seq<u8>;

/// Relies on humansize::format_size with its BINARY options: formats a
/// byte count with 1024-based unit suffixes, from the count alone.
#[verifier::external_body]
fn format_binary_size(n: u64) -> (r: Vec<u8>)
    ensures
        r@ == binary_size_of(n),
{
    humansize::format_size(n, humansize::BINARY).into_bytes()
}

/// One disk list line: `<mount>: <used> / <total> (<percent>%)`, sizes in
/// binary units, the percentage guarded against a zero total.
pub open spec fn disk_line_of(mount: Seq<u8>, total: u64, used: u64) -> Seq<u8> {
    mount + seq![58u8, 32] + binary_size_of(used) + seq![32u8, 47, 32] + binary_size_of(total)
        + seq![32u8, 40] + dec_digits(percent_of(used, total) as nat) + seq![37u8, 41]
}

/// Render one disk entry's list line, as `disk_line_of` describes.
pub fn format_disk_line(e: &DiskEntry) -> (v: Vec<u8>)
    ensures
        v@ == disk_line_of(e.mount@, e.total_bytes, e.used_bytes),
{
    let mut v = slice_to_vec(e.mount.as_slice());
    v.push(58);
    v.push(32);
    let mut used_s = format_binary_size(e.used_bytes);
    v.append(&mut used_s);
    v.push(32);
    v.push(47);
    v.push(32);
    let mut total_s = format_binary_size(e.total_bytes);
    v.append(&mut total_s);
    v.push(32);
    v.push(40);
    let pct = gauge_percent(e.used_bytes, e.total_bytes);
    let mut pct_s = u64_to_dec(pct);
    v.append(&mut pct_s);
    v.push(37);
    v.push(41);
    proof {
        assert(v@ =~= disk_line_of(e.mount@, e.total_bytes, e.used_bytes));
    }
    v
}

/// Build the chart series for `h` (at most `MAX_HISTORY` samples) and the
/// instantaneous value `cpu`, as `chart_series` describes.
fn build_chart_points(h: &History, cpu: u64, width: u16) -> (out: Vec<ChartPoint>)
    requires
        h.wf(),
    ensures
        point_views(out@) == chart_series(h@, cpu, width),
        out@.len() >= 2,
{
    let mut pts: Vec<u64> = h.to_vec();
    if pts.len() == 0 {
        pts.push(cpu);
        pts.push(cpu);
    } else if pts.len() == 1 {
        pts.push(cpu);
    }
    proof {
        assert(pts@ == padded_samples(h@, cpu));
    }
    let n = pts.len();
    let mut out: Vec<ChartPoint> = Vec::new();
    let mut i: usize = 0;
    while i < n
        invariant
            0 <= i <= n,
            2 <= n <= MAX_HISTORY + 1,
            n == pts@.len(),
            out@.len() == i,
            forall|j: int|
                0 <= j < i ==> #[trigger] point_views(out@)[j] == (
                    x_spread(j, n as int, width),
                    pts@[j],
                ),
        decreases n - i,
    {
        proof {
            assert((i as int) * (width as int) <= (MAX_HISTORY + 1) * (u16::MAX as int))
                by (nonlinear_arith)
                requires
                    0 <= i <= MAX_HISTORY + 1 && 0 <= width <= u16::MAX,
            ;
        }
        let x: u64 = (i as u64) * (width as u64) * 1000 / ((n - 1) as u64);
        proof {
            assert(x == x_spread(i as int, n as int, width));
        }
        let p = ChartPoint { x_milli: x, y_milli: pts[i] };
        proof {
            assert(point_views(out@.push(p)) =~= point_views(out@).push((p.x_milli, p.y_milli)));
        }
        out.push(p);
        i = i + 1;
    }
    proof {
        assert(point_views(out@) =~= chart_series(h@, cpu, width));
    }
    out
}

/// Render one frame from the latest snapshot, the history and the chart
/// width. Pure: reads its inputs and produces plain data. The gauge
/// percentages are defined (zero) even when a total is zero, and the
/// chart always has at least two points — with an empty history both
/// carry the instantaneous CPU value.
pub fn render(snap: &MetricsSnapshot, h: &History, width: u16) -> (f: FrameModel)
    requires
        h.wf(),
    ensures
        f.header_line@ == snap.uptime_line@,
        f.chart_title@ == chart_title_of(snap.cpu_usage_milli),
        point_views(f.chart_points@) == chart_series(h@, snap.cpu_usage_milli, width),
        f.chart_points@.len() >= 2,
        h@.len() == 0 ==> f.chart_points@.len() == 2 && f.chart_points@[0].y_milli
            == snap.cpu_usage_milli && f.chart_points@[1].y_milli == snap.cpu_usage_milli,
        f.memory_percent == percent_of(snap.memory_used_bytes, snap.memory_total_bytes),
        f.swap_percent == percent_of(snap.swap_used_bytes, snap.swap_total_bytes),
        f.memory_percent <= 100,
        f.swap_percent <= 100,
        snap.memory_total_bytes == 0 ==> f.memory_percent == 0,
        snap.swap_total_bytes == 0 ==> f.swap_percent == 0,
        f.disk_lines@.len() == snap.disk_entries@.len(),
        forall|i: int|
            0 <= i < snap.disk_entries@.len() ==> #[trigger] f.disk_lines@[i]@ == disk_line_of(
                snap.disk_entries@[i].mount@,
                snap.disk_entries@[i].total_bytes,
                snap.disk_entries@[i].used_bytes,
            ),
{
    let header_line = slice_to_vec(snap.uptime_line.as_slice());
    let chart_title = format_chart_title(snap.cpu_usage_milli);
    let chart_points = build_chart_points(h, snap.cpu_usage_milli, width);
    proof {
        if h@.len() == 0 {
            assert(point_views(chart_points@).len() == 2);
            assert(point_views(chart_points@)[0] == chart_series(h@, snap.cpu_usage_milli, width)[0]);
            assert(point_views(chart_points@)[1] == chart_series(h@, snap.cpu_usage_milli, width)[1]);
        }
    }
    let memory_percent = gauge_percent(snap.memory_used_bytes, snap.memory_total_bytes);
    let swap_percent = gauge_percent(snap.swap_used_bytes, snap.swap_total_bytes);
    let n = snap.disk_entries.len();
    let mut disk_lines: Vec<Vec<u8>> = Vec::new();
    let mut i: usize = 0;
    while i < n
        invariant
            0 <= i <= n,
            n == snap.disk_entries@.len(),
            disk_lines@.len() == i,
            forall|j: int|
                0 <= j < i ==> #[trigger] disk_lines@[j]@ == disk_line_of(
                    snap.disk_entries@[j].mount@,
                    snap.disk_entries@[j].total_bytes,
                    snap.disk_entries@[j].used_bytes,
                ),
        decreases n - i,
    {
        let line = format_disk_line(&snap.disk_entries[i]);
        disk_lines.push(line);
        i = i + 1;
    }
    FrameModel { header_line, chart_title, chart_points, memory_percent, swap_percent, disk_lines }
}

} // verus!

//! How downloads are shown.

use vstd::prelude::*;
use vstd::string::*;
use crate::clock::{format_moment, utc_moment, valid_instant, Moment};
use crate::download::folder_queue::task_views;
use crate::download::task::{DownloadStatus, DownloadTask, TaskView};
use crate::ids::{format_uuid, uuid_text};
use crate::text::{decimal, decimal_u64};

verus! {

// ---------------------------------------------------------------------------
// Sizes
// ---------------------------------------------------------------------------

/// `n / d` rounded to a whole number; halfway between two, the even one.
pub open spec fn half_even(n: nat, d: nat) -> nat {
    let q = n / d;
    let r = n % d;
    if 2 * r < d || (2 * r == d && q % 2 == 0) {
        q
    } else {
        q + 1
    }
}

/// A number rounded to 53 binary digits, at a multiple of `unit` or more.
pub open spec fn to_53_bits(n: nat, unit: nat) -> nat
    decreases n / unit,
{
    if unit == 0 || n / unit < 0x20_0000_0000_0000 {
        half_even(n, unit) * unit
    } else {
        proof {
            assert(n / (unit * 2) < n / unit) by (nonlinear_arith)
                requires
                    unit > 0,
                    n / unit >= 0x20_0000_0000_0000,
            ;
        }
        to_53_bits(n, unit * 2)
    }
}

/// A size in a unit, in hundredths of the unit.
pub open spec fn hundredths(bytes: nat, unit: nat) -> nat {
    half_even(to_53_bits(bytes, 1) * 100, unit)
}

/// A number of hundredths, as a decimal number with two places.
pub open spec fn two_places(n: nat) -> Seq<char> {
    decimal(n / 100) + "."@ + decimal((n / 10) % 10) + decimal(n % 10)
}

/// A size in the largest unit that it reaches, of bytes and their multiples by
/// powers of 1024. Multiples are given to two places.
pub open spec fn bytes_text(bytes: nat) -> Seq<char> {
    if bytes >= 1_073_741_824 {
        two_places(hundredths(bytes, 1_073_741_824)) + " GB"@
    } else if bytes >= 1_048_576 {
        two_places(hundredths(bytes, 1_048_576)) + " MB"@
    } else if bytes >= 1024 {
        two_places(hundredths(bytes, 1024)) + " KB"@
    } else {
        decimal(bytes) + " B"@
    }
}

fn round_half_even(n: u128, d: u128) -> (r: u128)
    requires
        d > 0,
        d <= u64::MAX,
        n < u128::MAX,
    ensures
        r == half_even(n as nat, d as nat),
        r <= n / d + 1,
{
    let q: u128 = n / d;
    let rest: u128 = n % d;
    assert(q <= n) by (nonlinear_arith)
        requires
            q == n / d,
            d > 0,
    ;
    assert(rest < d) by (nonlinear_arith)
        requires
            rest == n % d,
            d > 0,
    ;
    if 2 * rest < d || (2 * rest == d && q % 2 == 0) {
        q
    } else {
        q + 1
    }
}

fn round_53(n: u64) -> (r: u128)
    ensures
        r == to_53_bits(n as nat, 1),
        r <= 0x1_0000_0000_0000_0000,
{
    let mut unit: u128 = 1;
    while n as u128 / unit >= 0x20_0000_0000_0000
        invariant
            1 <= unit <= 2048,
            unit == 1 || unit == 2 || unit == 4 || unit == 8 || unit == 16 || unit == 32 || unit
                == 64 || unit == 128 || unit == 256 || unit == 512 || unit == 1024 || unit == 2048,
            to_53_bits(n as nat, 1) == to_53_bits(n as nat, unit as nat),
        decreases 4096 - unit,
    {
        assert(unit < 2048) by (nonlinear_arith)
            requires
                n as u128 / unit >= 0x20_0000_0000_0000,
                1 <= unit <= 2048,
                n <= u64::MAX,
        ;
        unit = unit * 2;
    }
    let q: u128 = round_half_even(n as u128, unit);
    assert(q <= 0x20_0000_0000_0000);
    assert(q * unit <= 0x1_0000_0000_0000_0000) by (nonlinear_arith)
        requires
            q <= 0x20_0000_0000_0000,
            1 <= unit <= 2048,
    ;
    q * unit
}

fn show_hundredths(bytes: u64, unit: u64) -> (r: String)
    requires
        unit >= 1024,
    ensures
        r@ == two_places(hundredths(bytes as nat, unit as nat)),
{
    let rounded: u128 = round_53(bytes);
    let n: u128 = round_half_even(rounded * 100, unit as u128);
    assert(n <= u64::MAX) by (nonlinear_arith)
        requires
            n <= (rounded * 100) / (unit as int) + 1,
            rounded <= 0x1_0000_0000_0000_0000,
            unit >= 1024,
    ;
    let h: u64 = n as u64;
    let mut s = decimal_u64(h / 100);
    s.append(".");
    s.append(decimal_u64((h / 10) % 10).as_str());
    s.append(decimal_u64(h % 10).as_str());
    s
}

/// A size in the largest unit that it reaches.
pub fn format_bytes(bytes: u64) -> (r: String)
    ensures
        r@ == bytes_text(bytes as nat),
{
    let mut s = if bytes >= 1_073_741_824 {
        show_hundredths(bytes, 1_073_741_824)
    } else if bytes >= 1_048_576 {
        show_hundredths(bytes, 1_048_576)
    } else if bytes >= 1024 {
        show_hundredths(bytes, 1024)
    } else {
        decimal_u64(bytes)
    };
    if bytes >= 1_073_741_824 {
        s.append(" GB");
    } else if bytes >= 1_048_576 {
        s.append(" MB");
    } else if bytes >= 1024 {
        s.append(" KB");
    } else {
        s.append(" B");
    }
    s
}

/// Up to 53 binary digits nothing is rounded before the hundredths are.
pub proof fn law_small_sizes_are_exact(bytes: nat, unit: nat)
    requires
        bytes < 0x20_0000_0000_0000,
    ensures
        hundredths(bytes, unit) == half_even(bytes * 100, unit),
{
}

/// A rounded quotient is the nearest whole number, and of two that are as near the
/// even one.
pub proof fn law_rounded_to_the_nearest(n: nat, d: nat)
    requires
        d > 0,
    ensures
        2 * (half_even(n, d) * d) <= 2 * n + d,
        2 * n <= 2 * (half_even(n, d) * d) + d,
        2 * (half_even(n, d) * d) == 2 * n + d || 2 * n == 2 * (half_even(n, d) * d) + d
            ==> half_even(n, d) % 2 == 0,
        n % d == 0 ==> half_even(n, d) * d == n,
{
    let q = n / d;
    let r = n % d;
    assert(n == q * d + r && r < d) by (nonlinear_arith)
        requires
            q == n / d,
            r == n % d,
            d > 0,
    ;
    assert((q + 1) * d == q * d + d) by (nonlinear_arith);
    if 2 * r > d || (2 * r == d && q % 2 == 1) {
        assert(half_even(n, d) == q + 1);
        if 2 * r == d {
            assert((q + 1) % 2 == 0);
        }
    }
}

/// Hundredths are written behind a point, two digits of them.
pub proof fn law_two_places(whole: nat, tenths: nat, rest: nat)
    requires
        tenths < 10,
        rest < 10,
    ensures
        two_places(whole * 100 + tenths * 10 + rest) == decimal(whole) + "."@ + decimal(tenths)
            + decimal(rest),
{
    let n = whole * 100 + tenths * 10 + rest;
    assert(n / 100 == whole);
    assert((n / 10) % 10 == tenths);
    assert(n % 10 == rest);
}

/// A size is given in bytes below a kibibyte, then in kibibytes, mebibytes and
/// gibibytes, each as soon as there is one; so many of a unit are written as that
/// number.
pub proof fn law_sizes_by_unit(bytes: nat, k: nat)
    requires
        1 <= k,
    ensures
        bytes < 1024 ==> bytes_text(bytes) == decimal(bytes) + " B"@,
        1024 <= bytes < 1024 * 1024 ==> bytes_text(bytes) == two_places(hundredths(bytes, 1024))
            + " KB"@,
        1024 * 1024 <= bytes < 1024 * 1024 * 1024 ==> bytes_text(bytes) == two_places(
            hundredths(bytes, 1024 * 1024),
        ) + " MB"@,
        1024 * 1024 * 1024 <= bytes ==> bytes_text(bytes) == two_places(
            hundredths(bytes, 1024 * 1024 * 1024),
        ) + " GB"@,
        k < 1024 ==> bytes_text(k * 1024) == decimal(k) + "."@ + decimal(0) + decimal(0) + " KB"@,
        k < 1024 ==> bytes_text(k * 1_048_576) == decimal(k) + "."@ + decimal(0) + decimal(0)
            + " MB"@,
        k < 8_388_608 ==> bytes_text(k * 1_073_741_824) == decimal(k) + "."@ + decimal(0) + decimal(
            0,
        ) + " GB"@,
{
    law_two_places(k, 0, 0);
    lemma_whole_units(k, 1024);
    lemma_whole_units(k, 1_048_576);
    lemma_whole_units(k, 1_073_741_824);
}

/// So many of a unit are a hundred times as many hundredths.
proof fn lemma_whole_units(k: nat, unit: nat)
    requires
        unit > 0,
    ensures
        k * unit < 0x20_0000_0000_0000 ==> hundredths(k * unit, unit) == k * 100,
{
    if k * unit < 0x20_0000_0000_0000 {
        law_small_sizes_are_exact(k * unit, unit);
        let n = k * unit * 100;
        assert(n == (k * 100) * unit) by (nonlinear_arith)
            requires
                n == k * unit * 100,
        ;
        vstd::arithmetic::div_mod::lemma_div_multiples_vanish((k * 100) as int, unit as int);
        vstd::arithmetic::div_mod::lemma_mod_multiples_basic((k * 100) as int, unit as int);
        vstd::arithmetic::mul::lemma_mul_is_commutative((k * 100) as int, unit as int);
    }
}

// ---------------------------------------------------------------------------
// Downloads
// ---------------------------------------------------------------------------

/// The name of a status as it is shown.
pub open spec fn status_shown(status: DownloadStatus) -> Seq<char> {
    match status {
        DownloadStatus::Pending => "Pending"@,
        DownloadStatus::Downloading => "Downloading"@,
        DownloadStatus::Paused => "Paused"@,
        DownloadStatus::Completed => "Completed"@,
        DownloadStatus::Error => "Error"@,
        DownloadStatus::Deleted => "Deleted"@,
    }
}

/// The sign of a status in lists.
pub open spec fn status_icon(status: DownloadStatus) -> Seq<char> {
    match status {
        DownloadStatus::Pending => "\u{23f8}"@,
        DownloadStatus::Downloading => "\u{2b07}"@,
        DownloadStatus::Completed => "\u{2713}"@,
        DownloadStatus::Error => "\u{2717}"@,
        DownloadStatus::Paused => "\u{23f8}"@,
        DownloadStatus::Deleted => "\u{1f5d1}"@,
    }
}

/// A line with a heading.
pub open spec fn line(heading: Seq<char>, text: Seq<char>) -> Seq<char> {
    heading + text + "\n"@
}

/// A line with a heading, if there is something to put on it.
pub open spec fn line_if(heading: Seq<char>, text: Option<Seq<char>>) -> Seq<char> {
    match text {
        Some(t) => line(heading, t),
        None => Seq::empty(),
    }
}

/// A moment as it is shown, if there is one.
pub open spec fn moment_if(moment: Option<Moment>) -> Option<Seq<char>> {
    match moment {
        Some(m) => Some(utc_moment(m)),
        None => None,
    }
}

/// All about a download, given how many hundredths of it are here.
pub open spec fn details(t: TaskView, percent: u8) -> Seq<char> {
    line("ID: "@, uuid_text(t.id)) + line("URL: "@, t.url) + line("Filename: "@, t.filename) + line(
        "Folder: "@,
        t.folder_id,
    ) + line("Status: "@, status_shown(t.status)) + line_if(
        "Size: "@,
        if t.size is Some {
            Some(bytes_text(t.size->0 as nat))
        } else {
            None
        },
    ) + line_if(
        "Downloaded: "@,
        if t.downloaded > 0 {
            Some(bytes_text(t.downloaded as nat))
        } else {
            None
        },
    ) + line_if(
        "Progress: "@,
        if t.downloaded > 0 && t.size is Some {
            Some(decimal(percent as nat) + "%"@)
        } else {
            None
        },
    ) + line_if(
        "Resume: "@,
        if t.resume_supported {
            Some("Supported"@)
        } else {
            None
        },
    ) + line("Created: "@, utc_moment(t.created_at)) + line_if(
        "Started: "@,
        moment_if(t.started_at),
    ) + line_if("Completed: "@, moment_if(t.completed_at))
}

/// A download on one line, given how many hundredths of it are here.
pub open spec fn summary(t: TaskView, percent: u8) -> Seq<char> {
    status_icon(t.status) + " "@ + uuid_text(t.id) + " ["@ + (if t.size is Some {
        decimal(percent as nat) + "%"@
    } else {
        bytes_text(t.downloaded as nat)
    }) + "] "@ + t.filename
}

/// How a status is shown, in words and as a sign.
pub proof fn law_statuses_are_shown(status: DownloadStatus)
    ensures
        status == DownloadStatus::Pending ==> status_shown(status) == "Pending"@ && status_icon(
            status,
        ) == "\u{23f8}"@,
        status == DownloadStatus::Downloading ==> status_shown(status) == "Downloading"@
            && status_icon(status) == "\u{2b07}"@,
        status == DownloadStatus::Paused ==> status_shown(status) == "Paused"@ && status_icon(
            status,
        ) == "\u{23f8}"@,
        status == DownloadStatus::Completed ==> status_shown(status) == "Completed"@ && status_icon(
            status,
        ) == "\u{2713}"@,
        status == DownloadStatus::Error ==> status_shown(status) == "Error"@ && status_icon(status)
            == "\u{2717}"@,
        status == DownloadStatus::Deleted ==> status_shown(status) == "Deleted"@ && status_icon(
            status,
        ) == "\u{1f5d1}"@,
{
}

/// A list shows how much of a download is here: in hundredths where its size is
/// known, else in bytes.
pub proof fn law_summary_shows_how_much(t: TaskView, percent: u8)
    ensures
        t.size is Some ==> summary(t, percent) == status_icon(t.status) + " "@ + uuid_text(t.id)
            + " ["@ + (decimal(percent as nat) + "%"@) + "] "@ + t.filename,
        t.size is None ==> summary(t, percent) == status_icon(t.status) + " "@ + uuid_text(t.id)
            + " ["@ + bytes_text(t.downloaded as nat) + "] "@ + t.filename,
{
}

/// Of a download that has not begun, only who it is and when it was added is shown;
/// each thing that is known besides has a line of its own.
pub proof fn law_details_show_what_is_known(t: TaskView, percent: u8)
    ensures
        ({
            let head = "ID: "@ + uuid_text(t.id) + "\n"@ + ("URL: "@ + t.url + "\n"@) + (
            "Filename: "@ + t.filename + "\n"@) + ("Folder: "@ + t.folder_id + "\n"@) + ("Status: "@
                + status_shown(t.status) + "\n"@);
            let size = if t.size is Some {
                "Size: "@ + bytes_text(t.size->0 as nat) + "\n"@
            } else {
                Seq::empty()
            };
            let here = if t.downloaded != 0 {
                "Downloaded: "@ + bytes_text(t.downloaded as nat) + "\n"@
            } else {
                Seq::empty()
            };
            let progress = if t.downloaded != 0 && t.size is Some {
                "Progress: "@ + (decimal(percent as nat) + "%"@) + "\n"@
            } else {
                Seq::empty()
            };
            let resume = if t.resume_supported {
                "Resume: "@ + "Supported"@ + "\n"@
            } else {
                Seq::empty()
            };
            let created = "Created: "@ + utc_moment(t.created_at) + "\n"@;
            let started = if t.started_at is Some {
                "Started: "@ + utc_moment(t.started_at->0) + "\n"@
            } else {
                Seq::empty()
            };
            let completed = if t.completed_at is Some {
                "Completed: "@ + utc_moment(t.completed_at->0) + "\n"@
            } else {
                Seq::empty()
            };
            details(t, percent) == head + size + here + progress + resume + created + started
                + completed
        }),
{
}

/// The times of a download are moments that the calendar covers.
pub open spec fn times_valid(t: TaskView) -> bool {
    &&& valid_instant(t.created_at)
    &&& t.started_at is Some ==> valid_instant(t.started_at->0)
    &&& t.completed_at is Some ==> valid_instant(t.completed_at->0)
}

pub(crate) fn show_status(status: DownloadStatus) -> (r: &'static str)
    ensures
        r@ == status_shown(status),
{
    match status {
        DownloadStatus::Pending => "Pending",
        DownloadStatus::Downloading => "Downloading",
        DownloadStatus::Paused => "Paused",
        DownloadStatus::Completed => "Completed",
        DownloadStatus::Error => "Error",
        DownloadStatus::Deleted => "Deleted",
    }
}

fn icon(status: DownloadStatus) -> (r: &'static str)
    ensures
        r@ == status_icon(status),
{
    match status {
        DownloadStatus::Pending => "\u{23f8}",
        DownloadStatus::Downloading => "\u{2b07}",
        DownloadStatus::Completed => "\u{2713}",
        DownloadStatus::Error => "\u{2717}",
        DownloadStatus::Paused => "\u{23f8}",
        DownloadStatus::Deleted => "\u{1f5d1}",
    }
}

pub(crate) fn append_line(out: &mut String, heading: &str, text: &str)
    ensures
        final(out)@ == old(out)@ + line(heading@, text@),
{
    out.append(heading);
    out.append(text);
    out.append("\n");
    assert(out@ =~= old(out)@ + line(heading@, text@));
}

fn append_moment(out: &mut String, heading: &str, moment: Option<Moment>)
    requires
        moment is Some ==> valid_instant(moment->0),
    ensures
        final(out)@ == old(out)@ + line_if(heading@, moment_if(moment)),
{
    if let Some(m) = moment {
        append_line(out, heading, format_moment(m).as_str());
    }
    assert(out@ =~= old(out)@ + line_if(heading@, moment_if(moment)));
}

fn percent_text(percent: u8) -> (r: String)
    ensures
        r@ == decimal(percent as nat) + "%"@,
{
    let mut s = decimal_u64(percent as u64);
    s.append("%");
    s
}

/// A download as it is shown, at length or on one line, given how many
/// hundredths of it are here.
pub fn format_download(task: &DownloadTask, detailed: bool, percent: u8) -> (r: String)
    requires
        times_valid(task@),
    ensures
        r@ == (if detailed {
            details(task@, percent)
        } else {
            summary(task@, percent)
        }),
{
    if detailed {
        let mut out = String::new();
        append_line(&mut out, "ID: ", format_uuid(task.id).as_str());
        append_line(&mut out, "URL: ", task.url.as_str());
        append_line(&mut out, "Filename: ", task.filename.as_str());
        append_line(&mut out, "Folder: ", task.folder_id.as_str());
        append_line(&mut out, "Status: ", show_status(task.status));
        let ghost head = line("ID: "@, uuid_text(task.id)) + line("URL: "@, task.url@) + line(
            "Filename: "@,
            task.filename@,
        ) + line("Folder: "@, task.folder_id@) + line("Status: "@, status_shown(task.status));
        assert(out@ =~= head);
        if let Some(total) = task.size {
            append_line(&mut out, "Size: ", format_bytes(total).as_str());
        }
        let ghost sized = head + line_if(
            "Size: "@,
            if task.size is Some {
                Some(bytes_text(task.size->0 as nat))
            } else {
                None
            },
        );
        assert(out@ =~= sized);
        if task.downloaded > 0 {
            append_line(&mut out, "Downloaded: ", format_bytes(task.downloaded).as_str());
        }
        let ghost loaded = sized + line_if(
            "Downloaded: "@,
            if task.downloaded > 0 {
                Some(bytes_text(task.downloaded as nat))
            } else {
                None
            },
        );
        assert(out@ =~= loaded);
        if task.downloaded > 0 && task.size.is_some() {
            append_line(&mut out, "Progress: ", percent_text(percent).as_str());
        }
        let ghost measured = loaded + line_if(
            "Progress: "@,
            if task.downloaded > 0 && task.size is Some {
                Some(decimal(percent as nat) + "%"@)
            } else {
                None
            },
        );
        assert(out@ =~= measured);
        if task.resume_supported {
            append_line(&mut out, "Resume: ", "Supported");
        }
        let ghost resumable = measured + line_if(
            "Resume: "@,
            if task.resume_supported {
                Some("Supported"@)
            } else {
                None
            },
        );
        assert(out@ =~= resumable);
        append_line(&mut out, "Created: ", format_moment(task.created_at).as_str());
        append_moment(&mut out, "Started: ", task.started_at);
        append_moment(&mut out, "Completed: ", task.completed_at);
        out
    } else {
        let mut out = icon(task.status).to_owned();
        out.append(" ");
        out.append(format_uuid(task.id).as_str());
        out.append(" [");
        let progress = match task.size {
            Some(_) => percent_text(percent),
            None => format_bytes(task.downloaded),
        };
        out.append(progress.as_str());
        out.append("] ");
        out.append(task.filename.as_str());
        out
    }
}

/// Downloads on a line each.
pub open spec fn summaries(ts: Seq<TaskView>, percents: Seq<u8>) -> Seq<char>
    decreases ts.len(),
{
    if ts.len() == 0 {
        Seq::empty()
    } else if ts.len() == 1 {
        summary(ts[0], percents[0])
    } else {
        summaries(ts.drop_last(), percents) + "\n"@ + summary(ts.last(), percents[ts.len() - 1])
    }
}

/// Downloads in a list stand on lines of their own.
pub proof fn law_lists_line_by_line(ts: Seq<TaskView>, percents: Seq<u8>, t: TaskView)
    requires
        ts.len() > 0,
    ensures
        summaries(Seq::empty(), percents) == Seq::<char>::empty(),
        summaries(seq![t], percents) == summary(t, percents[0]),
        summaries(ts.push(t), percents) == summaries(ts, percents) + "\n"@ + summary(
            t,
            percents[ts.len() as int],
        ),
{
    assert(ts.push(t).drop_last() =~= ts);
}

/// Downloads as a list, given how many hundredths of each are here.
pub fn format_downloads(tasks: &Vec<DownloadTask>, percents: &Vec<u8>) -> (r: String)
    requires
        percents@.len() == tasks@.len(),
        forall|i: int| 0 <= i < tasks@.len() ==> times_valid((#[trigger] tasks@[i])@),
    ensures
        r@ == (if tasks@.len() == 0 {
            "No downloads in queue."@
        } else {
            summaries(task_views(tasks@), percents@)
        }),
{
    if tasks.len() == 0 {
        return "No downloads in queue.".to_owned();
    }
    let ghost ts = task_views(tasks@);
    let mut out = format_download(&tasks[0], false, percents[0]);
    assert(ts.take(1)[0] == tasks@[0]@);
    assert(out@ == summaries(ts.take(1), percents@));
    for i in 1..tasks.len()
        invariant
            ts == task_views(tasks@),
            percents@.len() == tasks@.len(),
            forall|i: int| 0 <= i < tasks@.len() ==> times_valid((#[trigger] tasks@[i])@),
            out@ == summaries(ts.take(i as int), percents@),
    {
        assert(ts.take(i + 1).drop_last() =~= ts.take(i as int));
        assert(ts.take(i + 1).last() == tasks@[i as int]@);
        let next = format_download(&tasks[i], false, percents[i]);
        out.append("\n");
        out.append(next.as_str());
    }
    assert(ts.take(ts.len() as int) =~= ts);
    out
}

} // verus!

//! What the headless mode prints.

use vstd::prelude::*;

use crate::banner::{banner_lines, title, TAGLINE};
use crate::log::{
    average_drain_rate, format_hms, format_temperature_or_none, hms, mean_drain_rate,
    temperature_or_none, LogEntry,
};
use crate::number::value::{fixed, Real, Width};
use crate::number::{Double, Single};
use crate::text::{
    decimal, decimal_text, lemma_occurs_between, lemma_occurs_in_longer, occurs, pad_with_blanks,
        padded,
    texts,
};

verus! {

/// The title and the description, set off by empty lines.
pub open spec fn intro() -> Seq<Seq<char>> {
    title() + seq![""@, TAGLINE@, ""@]
}

/// Mode, number of load threads and length of the session.
pub open spec fn plan_text(no_load: bool, num_threads: nat, target: Option<Double>) -> Seq<char> {
    "Mode: "@ + (if no_load {
        "monitor-only"@
    } else {
        "drain"@
    }) + "  |  load threads: "@ + (if no_load {
        "0 (monitoring)"@
    } else {
        decimal(num_threads)
    }) + "  |  duration: "@ + (match target {
        Some(t) => hms(t@),
        None => "until Ctrl-C"@,
    })
}

/// A number of at least `width` characters with `places` decimal places.
pub open spec fn column(x: Real, width: nat, places: nat) -> Seq<char> {
    padded(fixed(Width::Single, x, places), ' ', width)
}

/// One compact status line.
pub open spec fn status_text(data: Seq<LogEntry>, elapsed: Real) -> Seq<char> {
    if data.len() == 0 {
        "["@ + hms(elapsed) + "]  waiting for first battery reading..."@
    } else {
        let e = data.last();
        "["@ + hms(elapsed) + "]  Battery "@ + column(e.percentage@, 5, 1) + "%  Drain "@ + column(
            e.drain_rate@,
            5,
            2,
        ) + "%/min (avg "@ + column(mean_drain_rate(data), 5, 2) + ")  CPU "@ + column(
            e.cpu_usage@,
            3,
            0,
        ) + "%  Mem "@ + column(e.memory_usage@, 3, 0) + "%  CPU "@ + column(e.cpu_temp@, 3, 0)
            + "°C  Batt "@ + temperature_or_none(e.battery_temp@, 0)
    }
}

/// Big beautiful title + description, straight to stdout.
pub fn intro_lines() -> (lines: Vec<String>)
    ensures
        texts(lines@) == intro(),
{
    let mut lines = banner_lines();
    lines.push(String::from_str(""));
    lines.push(String::from_str(TAGLINE));
    lines.push(String::from_str(""));
    assert(texts(lines@) =~= intro());
    lines
}

/// The line that tells what a session will do.
pub fn plan_line(no_load: bool, num_threads: usize, target: Option<Double>) -> (text: String)
    ensures
        text@ == plan_text(no_load, num_threads as nat, target),
{
    let mut text = String::from_str("Mode: ");
    if no_load {
        text.append("monitor-only");
    } else {
        text.append("drain");
    }
    text.append("  |  load threads: ");
    if no_load {
        text.append("0 (monitoring)");
    } else {
        text.append(decimal_text(num_threads as u128).as_str());
    }
    text.append("  |  duration: ");
    match target {
        Some(t) => {
            text.append(format_hms(t).as_str());
        },
        None => {
            text.append("until Ctrl-C");
        },
    }
    text
}

fn column_text(x: Single, width: usize, places: u32) -> (text: String)
    requires
        places <= 9,
    ensures
        text@ == column(x@, width as nat, places as nat),
{
    pad_with_blanks(x.fixed(places), width)
}

/// One compact status line for headless mode.
pub fn status_line(data: &[LogEntry], elapsed: Double) -> (text: String)
    ensures
        text@ == status_text(data@, elapsed@),
{
    let mut text = String::from_str("[");
    text.append(format_hms(elapsed).as_str());
    if data.len() == 0 {
        text.append("]  waiting for first battery reading...");
        return text;
    }
    let e = &data[data.len() - 1];
    text.append("]  Battery ");
    text.append(column_text(e.percentage, 5, 1).as_str());
    text.append("%  Drain ");
    text.append(column_text(e.drain_rate, 5, 2).as_str());
    text.append("%/min (avg ");
    text.append(column_text(average_drain_rate(data), 5, 2).as_str());
    text.append(")  CPU ");
    text.append(column_text(e.cpu_usage, 3, 0).as_str());
    text.append("%  Mem ");
    text.append(column_text(e.memory_usage, 3, 0).as_str());
    text.append("%  CPU ");
    text.append(column_text(e.cpu_temp, 3, 0).as_str());
    text.append("°C  Batt ");
    text.append(format_temperature_or_none(e.battery_temp, 0).as_str());
    text
}

/// The status line shows the time since the start, the values of the newest entry and the
/// average, each under its name.
pub proof fn lemma_status_line_shows_the_newest_entry(data: Seq<LogEntry>, elapsed: Real)
    requires
        data.len() > 0,
    ensures
        occurs("["@ + hms(elapsed) + "]  Battery "@, status_text(data, elapsed)),
        occurs("]  Battery "@ + padded(fixed(Width::Single, data[data.len() - 1].percentage@, 1),
            ' ', 5) + "%  Drain "@, status_text(data, elapsed)),
        occurs("%  Drain "@ + padded(fixed(Width::Single, data[data.len() - 1].drain_rate@, 2),
            ' ', 5) + "%/min (avg "@, status_text(data, elapsed)),
        occurs("%/min (avg "@ + padded(fixed(Width::Single, mean_drain_rate(data), 2), ' ', 5)
            + ")  CPU "@, status_text(data, elapsed)),
        occurs(")  CPU "@ + padded(fixed(Width::Single, data[data.len() - 1].cpu_usage@, 0), ' ',
            3) + "%  Mem "@, status_text(data, elapsed)),
        occurs("%  Mem "@ + padded(fixed(Width::Single, data[data.len() - 1].memory_usage@, 0),
            ' ', 3) + "%  CPU "@, status_text(data, elapsed)),
        occurs("%  CPU "@ + padded(fixed(Width::Single, data[data.len() - 1].cpu_temp@, 0), ' ',
            3) + "°C  Batt "@, status_text(data, elapsed)),
        occurs("°C  Batt "@ + temperature_or_none(data[data.len() - 1].battery_temp@, 0),
            status_text(data, elapsed)),
{
    let p0 = "["@;
    let p1 = hms(elapsed);
    let p2 = "]  Battery "@;
    let p3 = padded(fixed(Width::Single, data[data.len() - 1].percentage@, 1), ' ', 5);
    let p4 = "%  Drain "@;
    let p5 = padded(fixed(Width::Single, data[data.len() - 1].drain_rate@, 2), ' ', 5);
    let p6 = "%/min (avg "@;
    let p7 = padded(fixed(Width::Single, mean_drain_rate(data), 2), ' ', 5);
    let p8 = ")  CPU "@;
    let p9 = padded(fixed(Width::Single, data[data.len() - 1].cpu_usage@, 0), ' ', 3);
    let p10 = "%  Mem "@;
    let p11 = padded(fixed(Width::Single, data[data.len() - 1].memory_usage@, 0), ' ', 3);
    let p12 = "%  CPU "@;
    let p13 = padded(fixed(Width::Single, data[data.len() - 1].cpu_temp@, 0), ' ', 3);
    let p14 = "°C  Batt "@;
    let p15 = temperature_or_none(data[data.len() - 1].battery_temp@, 0);
    let t0 = p0;
    let t1 = t0 + p1;
    let t2 = t1 + p2;
    let t3 = t2 + p3;
    let t4 = t3 + p4;
    let t5 = t4 + p5;
    let t6 = t5 + p6;
    let t7 = t6 + p7;
    let t8 = t7 + p8;
    let t9 = t8 + p9;
    let t10 = t9 + p10;
    let t11 = t10 + p11;
    let t12 = t11 + p12;
    let t13 = t12 + p13;
    let t14 = t13 + p14;
    let t15 = t14 + p15;
    assert(status_text(data, elapsed) == t15);
    assert(t2 =~= Seq::<char>::empty() + (p0 + p1 + p2));
    lemma_occurs_between(Seq::empty(), p0 + p1 + p2, Seq::empty());
    lemma_occurs_in_longer(p0 + p1 + p2, t2, p3);
    lemma_occurs_in_longer(p0 + p1 + p2, t3, p4);
    lemma_occurs_in_longer(p0 + p1 + p2, t4, p5);
    lemma_occurs_in_longer(p0 + p1 + p2, t5, p6);
    lemma_occurs_in_longer(p0 + p1 + p2, t6, p7);
    lemma_occurs_in_longer(p0 + p1 + p2, t7, p8);
    lemma_occurs_in_longer(p0 + p1 + p2, t8, p9);
    lemma_occurs_in_longer(p0 + p1 + p2, t9, p10);
    lemma_occurs_in_longer(p0 + p1 + p2, t10, p11);
    lemma_occurs_in_longer(p0 + p1 + p2, t11, p12);
    lemma_occurs_in_longer(p0 + p1 + p2, t12, p13);
    lemma_occurs_in_longer(p0 + p1 + p2, t13, p14);
    lemma_occurs_in_longer(p0 + p1 + p2, t14, p15);
    assert(t4 =~= t1 + (p2 + p3 + p4));
    lemma_occurs_between(t1, p2 + p3 + p4, Seq::empty());
    lemma_occurs_in_longer(p2 + p3 + p4, t4, p5);
    lemma_occurs_in_longer(p2 + p3 + p4, t5, p6);
    lemma_occurs_in_longer(p2 + p3 + p4, t6, p7);
    lemma_occurs_in_longer(p2 + p3 + p4, t7, p8);
    lemma_occurs_in_longer(p2 + p3 + p4, t8, p9);
    lemma_occurs_in_longer(p2 + p3 + p4, t9, p10);
    lemma_occurs_in_longer(p2 + p3 + p4, t10, p11);
    lemma_occurs_in_longer(p2 + p3 + p4, t11, p12);
    lemma_occurs_in_longer(p2 + p3 + p4, t12, p13);
    lemma_occurs_in_longer(p2 + p3 + p4, t13, p14);
    lemma_occurs_in_longer(p2 + p3 + p4, t14, p15);
    assert(t6 =~= t3 + (p4 + p5 + p6));
    lemma_occurs_between(t3, p4 + p5 + p6, Seq::empty());
    lemma_occurs_in_longer(p4 + p5 + p6, t6, p7);
    lemma_occurs_in_longer(p4 + p5 + p6, t7, p8);
    lemma_occurs_in_longer(p4 + p5 + p6, t8, p9);
    lemma_occurs_in_longer(p4 + p5 + p6, t9, p10);
    lemma_occurs_in_longer(p4 + p5 + p6, t10, p11);
    lemma_occurs_in_longer(p4 + p5 + p6, t11, p12);
    lemma_occurs_in_longer(p4 + p5 + p6, t12, p13);
    lemma_occurs_in_longer(p4 + p5 + p6, t13, p14);
    lemma_occurs_in_longer(p4 + p5 + p6, t14, p15);
    assert(t8 =~= t5 + (p6 + p7 + p8));
    lemma_occurs_between(t5, p6 + p7 + p8, Seq::empty());
    lemma_occurs_in_longer(p6 + p7 + p8, t8, p9);
    lemma_occurs_in_longer(p6 + p7 + p8, t9, p10);
    lemma_occurs_in_longer(p6 + p7 + p8, t10, p11);
    lemma_occurs_in_longer(p6 + p7 + p8, t11, p12);
    lemma_occurs_in_longer(p6 + p7 + p8, t12, p13);
    lemma_occurs_in_longer(p6 + p7 + p8, t13, p14);
    lemma_occurs_in_longer(p6 + p7 + p8, t14, p15);
    assert(t10 =~= t7 + (p8 + p9 + p10));
    lemma_occurs_between(t7, p8 + p9 + p10, Seq::empty());
    lemma_occurs_in_longer(p8 + p9 + p10, t10, p11);
    lemma_occurs_in_longer(p8 + p9 + p10, t11, p12);
    lemma_occurs_in_longer(p8 + p9 + p10, t12, p13);
    lemma_occurs_in_longer(p8 + p9 + p10, t13, p14);
    lemma_occurs_in_longer(p8 + p9 + p10, t14, p15);
    assert(t12 =~= t9 + (p10 + p11 + p12));
    lemma_occurs_between(t9, p10 + p11 + p12, Seq::empty());
    lemma_occurs_in_longer(p10 + p11 + p12, t12, p13);
    lemma_occurs_in_longer(p10 + p11 + p12, t13, p14);
    lemma_occurs_in_longer(p10 + p11 + p12, t14, p15);
    assert(t14 =~= t11 + (p12 + p13 + p14));
    lemma_occurs_between(t11, p12 + p13 + p14, Seq::empty());
    lemma_occurs_in_longer(p12 + p13 + p14, t14, p15);
    assert(t15 =~= t13 + (p14 + p15));
    lemma_occurs_between(t13, p14 + p15, Seq::empty());
}

/// The plan names the number of load threads and the length of the session.
pub proof fn lemma_plan_line_shows_the_plan(num_threads: nat, t: Double)
    ensures
        occurs("Mode: "@ + "drain"@ + "  |  load threads: "@, plan_text(false, num_threads,
            Some(t))),
        occurs("  |  load threads: "@ + decimal(num_threads) + "  |  duration: "@,
            plan_text(false, num_threads, Some(t))),
        occurs("  |  duration: "@ + hms(t@), plan_text(false, num_threads, Some(t))),
{
    let p0 = "Mode: "@;
    let p1 = "drain"@;
    let p2 = "  |  load threads: "@;
    let p3 = decimal(num_threads);
    let p4 = "  |  duration: "@;
    let p5 = hms(t@);
    let t0 = p0;
    let t1 = t0 + p1;
    let t2 = t1 + p2;
    let t3 = t2 + p3;
    let t4 = t3 + p4;
    let t5 = t4 + p5;
    assert(plan_text(false, num_threads, Some(t)) == t5);
    assert(t2 =~= Seq::<char>::empty() + (p0 + p1 + p2));
    lemma_occurs_between(Seq::empty(), p0 + p1 + p2, Seq::empty());
    lemma_occurs_in_longer(p0 + p1 + p2, t2, p3);
    lemma_occurs_in_longer(p0 + p1 + p2, t3, p4);
    lemma_occurs_in_longer(p0 + p1 + p2, t4, p5);
    assert(t4 =~= t1 + (p2 + p3 + p4));
    lemma_occurs_between(t1, p2 + p3 + p4, Seq::empty());
    lemma_occurs_in_longer(p2 + p3 + p4, t4, p5);
    assert(t5 =~= t3 + (p4 + p5));
    lemma_occurs_between(t3, p4 + p5, Seq::empty());
}

/// A session that only monitors, and one without an end, are announced as such.
pub proof fn lemma_plan_line_of_other_sessions(num_threads: nat)
    ensures
        plan_text(true, num_threads, None) == "Mode: "@ + "monitor-only"@ + "  |  load threads: "@
            + "0 (monitoring)"@ + "  |  duration: "@ + "until Ctrl-C"@,
        plan_text(false, num_threads, None) == "Mode: "@ + "drain"@ + "  |  load threads: "@
            + decimal(num_threads) + "  |  duration: "@ + "until Ctrl-C"@,
{
}

/// Before the first reading only the time since the start is shown.
pub proof fn lemma_status_line_without_entries(elapsed: Real)
    ensures
        status_text(Seq::<LogEntry>::empty(), elapsed) == "["@ + hms(elapsed)
            + "]  waiting for first battery reading..."@,
{
}

} // verus!

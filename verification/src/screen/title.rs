//! The splash screen and the header of the dashboard.

use vstd::prelude::*;

use crate::banner::{banner_lines, title, TAGLINE};
use crate::text::texts;

use super::span::{
    colored, colored_span, empty_line, line, lines, plain, plain_span, put, strong, strong_span, Color,
    Span, Styled,
};

verus! {

/// The splash screen, one span in each line: the title, the description, and how to go on.
pub open spec fn splash() -> Seq<Styled> {
    title().map_values(|row: Seq<char>| strong(row, Color::Cyan)) + seq![
        plain(""@),
        colored(TAGLINE@, Color::Gray),
        plain(""@),
        strong("Press any key to begin  ▸"@, Color::Yellow),
    ]
}

/// The header: the title with the state of the load, and the description.
pub open spec fn header(paused: bool, monitor_only: bool) -> Seq<Seq<Styled>> {
    let name = strong("⚡  B A T T E R Y   D R A I N E R  ⚡"@, Color::Cyan);
    seq![
        if monitor_only {
            seq![name, colored("   [MONITOR ONLY]"@, Color::Blue)]
        } else if paused {
            seq![name, strong("   ⏸ LOAD PAUSED"@, Color::Yellow)]
        } else {
            seq![name]
        },
        seq![colored(TAGLINE@, Color::Gray)],
    ]
}

/// Full-screen splash: the big block-font title and a one-line description.
pub fn ui_splash() -> (spans: Vec<Span>)
    ensures
        line(spans@) == splash(),
{
    let rows = banner_lines();
    let mut spans = empty_line();
    let mut i: usize = 0;
    let ghost big = title().map_values(|row: Seq<char>| strong(row, Color::Cyan));
    proof {
        assert(texts(rows@).len() == title().len());
        assert(big.take(0) =~= line(spans@));
    }
    while i < rows.len()
        invariant
            i <= rows@.len(),
            texts(rows@) == title(),
            big == title().map_values(|row: Seq<char>| strong(row, Color::Cyan)),
            line(spans@) == big.take(i as int),
        decreases rows@.len() - i,
    {
        proof {
            assert(texts(rows@)[i as int] == rows@[i as int]@);
            assert(big.take(i + 1) =~= big.take(i as int).push(big[i as int]));
        }
        put(&mut spans, strong_span(rows[i].as_str(), Color::Cyan));
        i += 1;
    }
    assert(big.take(i as int) =~= big);
    put(&mut spans, plain_span(""));
    put(&mut spans, colored_span(TAGLINE, Color::Gray));
    put(&mut spans, plain_span(""));
    put(&mut spans, strong_span("Press any key to begin  ▸", Color::Yellow));
    assert(line(spans@) =~= splash());
    spans
}

/// Compact dashboard header: stylized title + description.
pub fn header_widget(paused: bool, monitor_only: bool) -> (rows: Vec<Vec<Span>>)
    ensures
        lines(rows@) == header(paused, monitor_only),
{
    let mut title_spans = empty_line();
    put(&mut title_spans, strong_span("⚡  B A T T E R Y   D R A I N E R  ⚡", Color::Cyan));
    if monitor_only {
        put(&mut title_spans, colored_span("   [MONITOR ONLY]", Color::Blue));
    } else if paused {
        put(&mut title_spans, strong_span("   ⏸ LOAD PAUSED", Color::Yellow));
    }
    let mut description = empty_line();
    put(&mut description, colored_span(TAGLINE, Color::Gray));
    let ghost first = line(title_spans@);
    let ghost second = line(description@);
    let mut rows: Vec<Vec<Span>> = Vec::new();
    rows.push(title_spans);
    rows.push(description);
    proof {
        assert(first =~= header(paused, monitor_only)[0]);
        assert(second =~= header(paused, monitor_only)[1]);
        assert(lines(rows@) =~= seq![first, second]);
    }
    rows
}

} // verus!

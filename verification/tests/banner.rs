use battery_drainer::banner::{banner_lines, banner_word, glyph, TAGLINE};

#[test]
fn banner_word_rows_are_aligned() {
    let rows = banner_word("BATTERY");
    assert_eq!(rows.len(), 5);
    let width = rows[0].chars().count();
    assert!(width > 0);
    for row in &rows {
        assert_eq!(row.chars().count(), width, "row `{}` has wrong width", row);
    }
}

#[test]
fn banner_lines_has_both_words() {
    let lines = banner_lines();
    // 5 rows per word plus one blank separator line.
    assert_eq!(lines.len(), 11);
    assert!(lines[5].is_empty());
}

#[test]
fn glyphs_have_their_rows() {
    assert_eq!(glyph('B'), ["████ ", "█   █", "████ ", "█   █", "████ "]);
    assert_eq!(glyph('A'), [" ███ ", "█   █", "█████", "█   █", "█   █"]);
    assert_eq!(glyph('T'), ["█████", "  █  ", "  █  ", "  █  ", "  █  "]);
    assert_eq!(glyph('E'), ["█████", "█    ", "████ ", "█    ", "█████"]);
    assert_eq!(glyph('R'), ["████ ", "█   █", "████ ", "█  █ ", "█   █"]);
    assert_eq!(glyph('Y'), ["█   █", "█   █", " ███ ", "  █  ", "  █  "]);
    assert_eq!(glyph('D'), ["████ ", "█   █", "█   █", "█   █", "████ "]);
    assert_eq!(glyph('I'), ["█████", "  █  ", "  █  ", "  █  ", "█████"]);
    assert_eq!(glyph('N'), ["█   █", "██  █", "█ █ █", "█  ██", "█   █"]);
    for c in ['b', 'Z', ' ', '€'] {
        assert_eq!(glyph(c), ["     "; 5]);
    }
}

#[test]
fn words_are_set_glyph_by_glyph() {
    assert_eq!(banner_word(""), ["", "", "", "", ""]);
    assert_eq!(
        banner_word("IN"),
        [
            "█████ █   █",
            "  █   ██  █",
            "  █   █ █ █",
            "  █   █  ██",
            "█████ █   █",
        ]
    );
    let lines = banner_lines();
    assert_eq!(lines[0], "████   ███  █████ █████ █████ ████  █   █");
    assert_eq!(lines[10], "████  █   █ █   █ █████ █   █ █████ █   █");
    assert!(TAGLINE.starts_with("Maximize CPU load, watch the battery drain in real time, and"));
}

//! The block-font title.

use vstd::prelude::*;

use crate::text::texts;

verus! {

/// One-line description shown under the title on the splash screen, in the
/// dashboard header, and in headless mode.
pub const TAGLINE: &'static str =
    "Maximize CPU load, watch the battery drain in real time, and measure worst-case battery life.";

/// The five rows of the block-font glyph for `c`; characters without a glyph are blank.
pub open spec fn glyph_rows(c: char) -> Seq<Seq<char>> {
    match c {
        'B' => seq!["████ "@, "█   █"@, "████ "@, "█   █"@, "████ "@],
        'A' => seq![" ███ "@, "█   █"@, "█████"@, "█   █"@, "█   █"@],
        'T' => seq!["█████"@, "  █  "@, "  █  "@, "  █  "@, "  █  "@],
        'E' => seq!["█████"@, "█    "@, "████ "@, "█    "@, "█████"@],
        'R' => seq!["████ "@, "█   █"@, "████ "@, "█  █ "@, "█   █"@],
        'Y' => seq!["█   █"@, "█   █"@, " ███ "@, "  █  "@, "  █  "@],
        'D' => seq!["████ "@, "█   █"@, "█   █"@, "█   █"@, "████ "@],
        'I' => seq!["█████"@, "  █  "@, "  █  "@, "  █  "@, "█████"@],
        'N' => seq!["█   █"@, "██  █"@, "█ █ █"@, "█  ██"@, "█   █"@],
        _ => seq!["     "@, "     "@, "     "@, "     "@, "     "@],
    }
}

/// Row `row` of `word` in the block font: the glyph rows, one blank between neighbours.
pub open spec fn banner_row(word: Seq<char>, row: int) -> Seq<char>
    decreases word.len(),
{
    if word.len() == 0 {
        Seq::empty()
    } else if word.len() == 1 {
        glyph_rows(word[0])[row]
    } else {
        banner_row(word.drop_last(), row) + " "@ + glyph_rows(word.last())[row]
    }
}

/// All five rows of `word`.
pub open spec fn banner_rows(word: Seq<char>) -> Seq<Seq<char>> {
    Seq::new(5, |row: int| banner_row(word, row))
}

/// The two-line title: both words with an empty line between them.
pub open spec fn title() -> Seq<Seq<char>> {
    banner_rows("BATTERY"@) + seq![Seq::<char>::empty()] + banner_rows("DRAINER"@)
}

/// A 5-row block-font glyph for the small set of letters our title needs.
pub fn glyph(c: char) -> (rows: [&'static str; 5])
    ensures
        forall|i: int| 0 <= i < 5 ==> (#[trigger] rows@[i])@ == glyph_rows(c)[i],
{
    match c {
        'B' => ["████ ", "█   █", "████ ", "█   █", "████ "],
        'A' => [" ███ ", "█   █", "█████", "█   █", "█   █"],
        'T' => ["█████", "  █  ", "  █  ", "  █  ", "  █  "],
        'E' => ["█████", "█    ", "████ ", "█    ", "█████"],
        'R' => ["████ ", "█   █", "████ ", "█  █ ", "█   █"],
        'Y' => ["█   █", "█   █", " ███ ", "  █  ", "  █  "],
        'D' => ["████ ", "█   █", "█   █", "█   █", "████ "],
        'I' => ["█████", "  █  ", "  █  ", "  █  ", "█████"],
        'N' => ["█   █", "██  █", "█ █ █", "█  ██", "█   █"],
        _ => ["     ", "     ", "     ", "     ", "     "],
    }
}

/// Render a single word as 5 block-font rows of equal display width.
pub fn banner_word(word: &str) -> (rows: Vec<String>)
    ensures
        texts(rows@) == banner_rows(word@),
{
    let count: usize = word.unicode_len();
    let mut rows: Vec<String> = Vec::new();
    let mut row: usize = 0;
    while row < 5
        invariant
            row <= 5,
            count == word@.len(),
            rows@.len() == row,
            forall|r: int| 0 <= r < row ==> (#[trigger] rows@[r])@ == banner_row(word@, r),
        decreases 5 - row,
    {
        let mut line = String::new();
        let mut i: usize = 0;
        while i < count
            invariant
                row < 5,
                i <= count,
                count == word@.len(),
                line@ == banner_row(word@.take(i as int), row as int),
            decreases count - i,
        {
            if i > 0 {
                line.append(" ");
            }
            let rows_of_letter = glyph(word.get_char(i));
            line.append(rows_of_letter[row]);
            proof {
                let longer = word@.take(i + 1);
                assert(longer.drop_last() == word@.take(i as int));
                assert(longer.last() == word@[i as int]);
                if i == 0 {
                    assert(line@ == glyph_rows(word@[0])[row as int]);
                }
            }
            i += 1;
        }
        assert(word@.take(count as int) == word@);
        rows.push(line);
        row += 1;
    }
    assert(texts(rows@) == banner_rows(word@));
    rows
}

/// The full "BATTERY / DRAINER" block-font title, stacked on two lines.
pub fn banner_lines() -> (lines: Vec<String>)
    ensures
        texts(lines@) == title(),
{
    let mut lines = banner_word("BATTERY");
    let mut second = banner_word("DRAINER");
    let ghost first = texts(lines@);
    let ghost rest = texts(second@);
    lines.push(String::new());
    lines.append(&mut second);
    assert(texts(lines@) == first + seq![Seq::<char>::empty()] + rest);
    lines
}

/// Every row of a glyph is five characters wide.
proof fn lemma_glyph_width(c: char, row: int)
    requires
        0 <= row < 5,
    ensures
        glyph_rows(c).len() == 5,
        glyph_rows(c)[row].len() == 5,
{
    reveal_strlit("████ ");
    reveal_strlit("█   █");
    reveal_strlit(" ███ ");
    reveal_strlit("█████");
    reveal_strlit("  █  ");
    reveal_strlit("█    ");
    reveal_strlit("█  █ ");
    reveal_strlit("██  █");
    reveal_strlit("█ █ █");
    reveal_strlit("█  ██");
    reveal_strlit("     ");
}

/// The rows of a rendered word are aligned: a word of `n` letters is `6n - 1` characters
/// wide in every row, and a word without letters is empty in every row.
pub proof fn lemma_banner_rows_are_aligned(word: Seq<char>, row: int)
    requires
        0 <= row < 5,
    ensures
        banner_row(word, row).len() == if word.len() == 0 {
            0
        } else {
            6 * word.len() - 1
        },
    decreases word.len(),
{
    if word.len() > 0 {
        lemma_glyph_width(word.last(), row);
        reveal_strlit(" ");
        if word.len() > 1 {
            lemma_banner_rows_are_aligned(word.drop_last(), row);
        }
    }
}

/// The title has eleven lines, the sixth is empty, and all others are equally wide.
pub proof fn lemma_title_shape(line: int)
    requires
        0 <= line < 11,
    ensures
        title().len() == 11,
        title()[line].len() == if line == 5 {
            0nat
        } else {
            41
        },
{
    reveal_strlit("BATTERY");
    reveal_strlit("DRAINER");
    if line < 5 {
        lemma_banner_rows_are_aligned("BATTERY"@, line);
    } else if line > 5 {
        lemma_banner_rows_are_aligned("DRAINER"@, line - 6);
    }
}

/// Characters that the title does not need are blank.
pub proof fn lemma_other_glyphs_are_blank(c: char, row: int)
    requires
        !"BATERYDIN"@.contains(c),
        0 <= row < 5,
    ensures
        glyph_rows(c)[row] == "     "@,
{
    reveal_strlit("BATERYDIN");
    let known = "BATERYDIN"@;
    assert(known[0] == 'B' && known[1] == 'A' && known[2] == 'T' && known[3] == 'E' && known[4]
        == 'R' && known[5] == 'Y' && known[6] == 'D' && known[7] == 'I' && known[8] == 'N');
}

/// A word is set letter by letter, with one blank between two letters.
pub proof fn lemma_words_are_set_letter_by_letter(word: Seq<char>, c: char, row: int)
    requires
        word.len() > 0,
    ensures
        banner_row(seq![c], row) == glyph_rows(c)[row],
        banner_row(word.push(c), row) == banner_row(word, row) + " "@ + glyph_rows(c)[row],
{
    assert(word.push(c).drop_last() =~= word);
}

} // verus!

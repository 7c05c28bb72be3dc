//! Laying out the description of a run for the printed report: the words are
//! set on lines of a fixed width, and the text is cut short after a fixed
//! number of lines.

use vstd::prelude::*;

verus! {

/// The width of each ASCII character in Times Roman, in thousandths of the
/// font size.
pub const GLYPH_WIDTHS: [usize; 128] = [
    778, 778, 778, 778, 778, 778, 778, 778, 778, 778, 778, 778, 778, 778, 778, 778,
    778, 778, 778, 778, 778, 778, 778, 778, 778, 778, 778, 778, 778, 778, 778, 778,
    250, 333, 408, 500, 500, 833, 778, 180, 333, 333, 500, 564, 250, 333, 250, 278,
    500, 500, 500, 500, 500, 500, 500, 500, 500, 500, 278, 278, 564, 564, 564, 444,
    921, 722, 667, 667, 722, 611, 556, 722, 722, 333, 389, 722, 611, 889, 722, 722,
    556, 722, 667, 556, 611, 722, 722, 944, 722, 722, 611, 333, 278, 333, 469, 500,
    333, 444, 500, 444, 500, 444, 333, 500, 500, 278, 278, 500, 278, 778, 500, 500,
    500, 500, 333, 389, 278, 500, 500, 722, 500, 500, 444, 480, 200, 480, 541, 778,
];

/// The width of a line: three quarters of the width of an A4 page, 595
/// points, at a font size of twelve points.
pub const LINE_WIDTH: u128 = 595 * 3 * 1000 / 4 / 12;

/// The number of line breaks at which the text is cut short.
pub const LINES: usize = 5;

/// The width of a character: that of its glyph where it is ASCII, nothing
/// where it is not, since the report shows ASCII only.
pub open spec fn glyph_width(c: char) -> int {
    if (c as u32) < 128 {
        GLYPH_WIDTHS@[c as u32 as int] as int
    } else {
        0
    }
}

/// The width of a text: the sum of the widths of its characters.
pub open spec fn text_width(text: Seq<char>) -> int
    decreases text.len(),
{
    if text.len() == 0 {
        0
    } else {
        text_width(text.drop_last()) + glyph_width(text.last())
    }
}

/// A layout under way: the text so far, the width of the line being set,
/// the number of line breaks, and whether the text was cut short.
pub struct Layout {
    pub text: Seq<char>,
    pub width: int,
    pub breaks: int,
    pub cut: bool,
}

/// The layout before any word.
pub open spec fn blank_layout() -> Layout {
    Layout { text: Seq::empty(), width: 0, breaks: 0, cut: false }
}

/// The layout with one more word. The word and a space go on the line being
/// set if they fit; else they begin a new line, or, where that would be one
/// line too many, three dots end the text. A layout cut short stays as it is.
pub open spec fn place(layout: Layout, word: Seq<char>) -> Layout {
    if layout.cut {
        layout
    } else if layout.width + text_width(word) + glyph_width(' ') > LINE_WIDTH {
        if layout.breaks + 1 >= LINES {
            Layout {
                text: layout.text + seq!['.', '.', '.'],
                width: text_width(word),
                breaks: layout.breaks + 1,
                cut: true,
            }
        } else {
            Layout {
                text: layout.text.push('\n') + word.push(' '),
                width: text_width(word),
                breaks: layout.breaks + 1,
                cut: false,
            }
        }
    } else {
        Layout {
            text: layout.text + word.push(' '),
            width: layout.width + text_width(word) + glyph_width(' '),
            breaks: layout.breaks,
            cut: false,
        }
    }
}

/// The layout of the words, placed one after the other.
pub open spec fn laid_out(words: Seq<Vec<char>>) -> Layout
    decreases words.len(),
{
    if words.len() == 0 {
        blank_layout()
    } else {
        place(laid_out(words.drop_last()), words.last()@)
    }
}

/// The width of a character.
pub fn width_of(c: char) -> (w: usize)
    ensures
        w == glyph_width(c),
        w <= 944,
{
    let code: u32 = c as u32;
    if code < 128 {
        GLYPH_WIDTHS[code as usize]
    } else {
        0
    }
}

/// The width of a word.
pub fn word_width(word: &Vec<char>) -> (w: u128)
    ensures
        w == text_width(word@),
        w <= 944 * word@.len(),
{
    let mut w: u128 = 0;
    let mut i: usize = 0;
    assert(word@.len() == word.len());
    while i < word.len()
        invariant
            i <= word@.len(),
            word@.len() <= usize::MAX,
            w == text_width(word@.take(i as int)),
            w <= 944 * i,
        decreases word@.len() - i,
    {
        assert(word@.take(i + 1).drop_last() =~= word@.take(i as int));
        let glyph = width_of(word[i]);
        w = w + glyph as u128;
        i += 1;
    }
    assert(word@.take(word@.len() as int) =~= word@);
    w
}

/// The description as the report shows it: the words set on lines, a line
/// feed before each line but the first, and three dots where the text is cut
/// short.
pub fn wrap(words: &Vec<Vec<char>>) -> (text: Vec<char>)
    ensures
        text@ == laid_out(words@).text,
{
    let mut text: Vec<char> = Vec::new();
    let mut width: u128 = 0;
    let mut breaks: usize = 0;
    let mut i: usize = 0;
    while i < words.len()
        invariant
            i <= words@.len(),
            !laid_out(words@.take(i as int)).cut,
            text@ == laid_out(words@.take(i as int)).text,
            width == laid_out(words@.take(i as int)).width,
            breaks == laid_out(words@.take(i as int)).breaks,
            breaks < LINES,
            width <= 944 * usize::MAX + LINE_WIDTH,
        decreases words@.len() - i,
    {
        let word = &words[i];
        let ghost before = laid_out(words@.take(i as int));
        assert(words@.take(i + 1).drop_last() =~= words@.take(i as int));
        assert(laid_out(words@.take(i + 1)) == place(before, word@));
        let own = word_width(word);
        assert(word@.len() == word.len());
        let reach = width + own + 250;
        if reach > LINE_WIDTH {
            width = own;
            breaks += 1;
            if breaks >= LINES {
                text.push('.');
                text.push('.');
                text.push('.');
                proof {
                    assert(text@ =~= before.text + seq!['.', '.', '.']);
                    lemma_cut_is_final(words@, i + 1);
                }
                return text;
            }
            text.push('\n');
        } else {
            width = reach;
        }
        let ghost lead = text@;
        let mut k: usize = 0;
        while k < word.len()
            invariant
                k <= word@.len(),
                text@ == lead + word@.take(k as int),
            decreases word@.len() - k,
        {
            text.push(word[k]);
            assert(text@ =~= lead + word@.take(k + 1));
            k += 1;
        }
        text.push(' ');
        proof {
            assert(word@.take(word@.len() as int) =~= word@);
            assert(text@ =~= lead + word@.push(' '));
        }
        i += 1;
    }
    assert(words@.take(words@.len() as int) =~= words@);
    text
}

/// Once a layout is cut short, further words change nothing.
pub proof fn lemma_cut_is_final(words: Seq<Vec<char>>, k: int)
    requires
        0 <= k <= words.len(),
        laid_out(words.take(k)).cut,
    ensures
        laid_out(words) == laid_out(words.take(k)),
    decreases words.len() - k,
{
    if k == words.len() {
        assert(words.take(k) =~= words);
    } else {
        assert(words.take(k + 1).drop_last() =~= words.take(k));
        lemma_cut_is_final(words, k + 1);
    }
}

/// A layout never has more line breaks than it is cut short at, and is cut
/// short exactly when it has that many.
pub proof fn lemma_breaks_are_limited(words: Seq<Vec<char>>)
    ensures
        0 <= laid_out(words).breaks <= LINES,
        laid_out(words).cut <==> laid_out(words).breaks == LINES,
    decreases words.len(),
{
    if words.len() > 0 {
        lemma_breaks_are_limited(words.drop_last());
    }
}

} // verus!

use elisa::report::{width_of, word_width, wrap, GLYPH_WIDTHS, LINES, LINE_WIDTH};

fn words(text: &str) -> Vec<Vec<char>> {
    text.split_whitespace().map(|w| w.chars().collect()).collect()
}

fn wrapped(text: &str) -> String {
    wrap(&words(text)).into_iter().collect()
}

/// The layout written out step by step, on ordinary strings.
fn expected(description: &str) -> String {
    let mut parsed = String::new();
    let max_width = 595usize * 3 * 1000 / 4 / 12;
    let mut lines = 0;
    let mut width = 0;
    for word in description.split_whitespace() {
        let mut word_width = 0;
        for c in word.chars() {
            if !c.is_ascii() {
                continue;
            }
            word_width += GLYPH_WIDTHS[c as usize];
        }
        width += word_width;
        width += GLYPH_WIDTHS[' ' as usize];
        if width > max_width {
            width = word_width;
            lines += 1;
            if lines >= 5 {
                parsed.push_str("...");
                break;
            }
            parsed.push('\n');
        }
        parsed.push_str(word);
        parsed.push(' ');
    }
    parsed
}

#[test]
fn line_width_and_lines() {
    assert_eq!(LINE_WIDTH, 37187);
    assert_eq!(LINES, 5);
}

#[test]
fn glyph_widths() {
    assert_eq!(width_of(' '), 250);
    assert_eq!(width_of('W'), 944);
    assert_eq!(width_of('i'), 278);
    assert_eq!(width_of('\u{7f}'), 778);
    assert_eq!(width_of('\0'), 778);
    assert_eq!(width_of('é'), 0);
    assert_eq!(width_of('\u{80}'), 0);
}

#[test]
fn word_width_is_the_sum_of_its_glyphs() {
    let word: Vec<char> = "Wide".chars().collect();
    assert_eq!(word_width(&word), 944 + 278 + 500 + 444);
    let word: Vec<char> = "naïve".chars().collect();
    assert_eq!(word_width(&word), 500 + 444 + 500 + 444);
    assert_eq!(word_width(&Vec::new()), 0);
}

#[test]
fn short_description_stays_on_one_line() {
    assert_eq!(wrapped("Plate 7, second run"), "Plate 7, second run ");
    assert_eq!(wrapped(""), "");
    assert_eq!(wrapped("   \n\t "), "");
}

#[test]
fn long_description_is_broken_into_lines() {
    // 14 words of 2500 and a space of 250 each make 38500: the last begins a new line
    let text = "nnnnn ".repeat(14);
    let out = wrapped(&text);
    assert_eq!(out, format!("{}\nnnnnn ", "nnnnn ".repeat(13)));
}

#[test]
fn description_is_cut_short_at_the_fifth_line_break() {
    let text = "nnnnn ".repeat(100);
    let out = wrapped(&text);
    assert!(out.ends_with("..."));
    assert_eq!(out.matches('\n').count(), 4);
    assert_eq!(out.lines().count(), 5);
    assert_eq!(out, expected(&text));
}

#[test]
fn word_wider_than_a_line_gets_a_line_of_its_own() {
    let giant = "W".repeat(40);
    let text = format!("a {giant} b");
    assert_eq!(wrapped(&text), format!("a \n{giant} \nb "));
}

#[test]
fn layout_agrees_with_the_steps_written_out() {
    let texts = [
        "Serum samples of the third cohort, diluted one to ten, measured at 450 nm after \
         thirty minutes of incubation at room temperature; plate sealed and shaken twice.",
        "ΑΒΓΔ ελληνικά and ASCII mixed, naïve café",
        "x",
        "a b c d e f g h i j k l m n o p q r s t u v w x y z",
    ];
    for text in texts {
        assert_eq!(wrapped(text), expected(text), "{text}");
        let long = format!("{text} ").repeat(40);
        assert_eq!(wrapped(&long), expected(&long));
    }
}

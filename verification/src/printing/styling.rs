//! The text of a rendered cell: terminal escape codes around its character.

use crate::printing::{Cell, RgbColor, FILLED};
use vstd::prelude::*;

verus! {

/// The decimal digit for a number below ten.
pub open spec fn digit(d: int) -> char {
    seq!['0', '1', '2', '3', '4', '5', '6', '7', '8', '9'][d]
}

/// A channel in decimal, without leading zeros.
pub open spec fn decimal(n: u8) -> Seq<char> {
    if n >= 100 {
        seq![digit(n as int / 100), digit(n as int / 10 % 10), digit(n as int % 10)]
    } else if n >= 10 {
        seq![digit(n as int / 10), digit(n as int % 10)]
    } else {
        seq![digit(n as int)]
    }
}

/// The escape code that selects a 24-bit colour: `ESC [ ground 8 ; 2 ; r ; g
/// ; b m`, where `ground` is `3` for the foreground and `4` for the
/// background.
pub open spec fn color_code(ground: char, color: RgbColor) -> Seq<char> {
    seq!['\x1b', '[', ground, '8', ';', '2', ';'] + decimal(color.0) + seq![';'] + decimal(color.1) + seq![';']
        + decimal(color.2) + seq!['m']
}

/// The escape code that selects a foreground colour and, where one is given,
/// a background colour after it.
pub open spec fn style_code(foreground: RgbColor, background: Option<RgbColor>) -> Seq<char> {
    color_code('3', foreground) + match background {
        Some(color) => color_code('4', color),
        None => Seq::empty(),
    }
}

/// The escape code that resets all terminal styling.
pub open spec fn reset_code() -> Seq<char> {
    seq!['\x1b', '[', '0', 'm']
}

/// The background of a cell: its own colour where it is filled, none
/// otherwise.
pub open spec fn background_of(cell: Cell) -> Option<RgbColor> {
    if cell.0 == FILLED {
        Some(cell.1)
    } else {
        None
    }
}

/// The text of one cell: a reset, the cell's style, and its character twice,
/// so that a cell is about as wide as it is tall.
pub open spec fn cell_text(cell: Cell) -> Seq<char> {
    reset_code() + style_code(cell.1, background_of(cell)) + seq![cell.0, cell.0]
}

/// The texts of the cells of a row, joined.
pub open spec fn cells_text(row: Seq<Cell>) -> Seq<char>
    decreases row.len(),
{
    if row.len() == 0 {
        Seq::empty()
    } else {
        cells_text(row.drop_last()) + cell_text(row.last())
    }
}

/// The text of one row: its cells, a reset, and a line feed.
pub open spec fn row_text(row: Seq<Cell>) -> Seq<char> {
    cells_text(row) + reset_code() + seq!['\n']
}

/// The text of a grid: its rows from the first to the last, joined.
pub open spec fn grid_text(rows: Seq<Seq<Cell>>) -> Seq<char>
    decreases rows.len(),
{
    if rows.len() == 0 {
        Seq::empty()
    } else {
        grid_text(rows.drop_last()) + row_text(rows.last())
    }
}

/// `String::push` appends one character to the text.
pub assume_specification[ String::push ](text: &mut String, ch: char)
    ensures
        final(text)@ == old(text)@.push(ch),
;

/// `String::push_str` appends a string slice to the text.
pub assume_specification[ String::push_str ](text: &mut String, string: &str)
    ensures
        final(text)@ == old(text)@ + string@,
;

/// Renders `anstyle::Reset` with `Display`: the fixed code `ESC [ 0 m`.
#[verifier::external_body]
pub(crate) fn reset_text() -> (text: String)
    ensures
        text@ == reset_code(),
{
    format!("{}", anstyle::Reset)
}

/// Renders with `Display` the `anstyle::Style` that has the given foreground
/// and background colours and no effects: the 24-bit colour code of the
/// foreground, then that of the background where there is one, each channel
/// in decimal without leading zeros, as [`style_code`] spells it out.
#[verifier::external_body]
pub(crate) fn style_text(foreground: RgbColor, background: Option<RgbColor>) -> (text: String)
    ensures
        text@ == style_code(foreground, background),
{
    let fg = anstyle::Color::Rgb(anstyle::RgbColor(foreground.0, foreground.1, foreground.2));
    let bg = background.map(|c| anstyle::Color::Rgb(anstyle::RgbColor(c.0, c.1, c.2)));
    format!("{}", anstyle::Style::new().fg_color(Some(fg)).bg_color(bg))
}

/// Appends to `text` one rendered cell: the reset code, the style code, and
/// the character twice.
pub fn push_cell(text: &mut String, reset: &str, style: &str, character: char)
    ensures
        final(text)@ == old(text)@ + reset@ + style@ + seq![character, character],
{
    text.push_str(reset);
    text.push_str(style);
    text.push(character);
    text.push(character);
    assert(text@ =~= old(text)@ + reset@ + style@ + seq![character, character]);
}

/// A character that ends a channel in a colour code.
pub open spec fn is_stop(c: char) -> bool {
    c == ';' || c == 'm'
}

/// The digits are the ten characters from `'0'` on.
pub proof fn lemma_digit_value(d: int)
    requires
        0 <= d < 10,
    ensures
        digit(d) as int == '0' as int + d,
        !is_stop(digit(d)),
{
    if d == 0 {
    } else if d == 1 {
    } else if d == 2 {
    } else if d == 3 {
    } else if d == 4 {
    } else if d == 5 {
    } else if d == 6 {
    } else if d == 7 {
    } else if d == 8 {
    } else {
        assert(d == 9);
    }
}

/// A channel in decimal has one to three characters, all digits.
pub proof fn lemma_decimal_is_digits(n: u8)
    ensures
        1 <= decimal(n).len() <= 3,
        forall|i: int| 0 <= i < decimal(n).len() ==> !is_stop(#[trigger] decimal(n)[i]),
{
    lemma_digit_value(n as int / 100);
    lemma_digit_value(n as int / 10 % 10);
    lemma_digit_value(n as int % 10);
    if n < 10 {
        lemma_digit_value(n as int);
    } else if n < 100 {
        lemma_digit_value(n as int / 10);
    }
}

/// A channel in decimal is as long as the value has digits.
pub proof fn lemma_decimal_len(n: u8)
    ensures
        decimal(n).len() == if n >= 100 {
            3nat
        } else if n >= 10 {
            2nat
        } else {
            1nat
        },
{
}

/// Two channels written alike are one value.
pub proof fn lemma_decimal_tells_values_apart(m: u8, n: u8)
    requires
        decimal(m) == decimal(n),
    ensures
        m == n,
{
    lemma_digit_value(m as int / 100);
    lemma_digit_value(m as int / 10 % 10);
    lemma_digit_value(m as int % 10);
    lemma_digit_value(n as int / 100);
    lemma_digit_value(n as int / 10 % 10);
    lemma_digit_value(n as int % 10);
    if m < 10 {
        lemma_digit_value(m as int);
    } else if m < 100 {
        lemma_digit_value(m as int / 10);
    }
    if n < 10 {
        lemma_digit_value(n as int);
    } else if n < 100 {
        lemma_digit_value(n as int / 10);
    }
    lemma_decimal_len(m);
    lemma_decimal_len(n);
    assert(decimal(m).len() == decimal(n).len());
    let (m2, m1, m0) = (m as int / 100, m as int / 10 % 10, m as int % 10);
    let (n2, n1, n0) = (n as int / 100, n as int / 10 % 10, n as int % 10);
    assert(m == 100 * m2 + 10 * m1 + m0);
    assert(n == 100 * n2 + 10 * n1 + n0);
    if m >= 100 {
        assert(decimal(m)[0] == digit(m2) && decimal(n)[0] == digit(n2));
        assert(decimal(m)[1] == digit(m1) && decimal(n)[1] == digit(n1));
        assert(decimal(m)[2] == digit(m0) && decimal(n)[2] == digit(n0));
        assert(digit(m2) as int == digit(n2) as int);
        assert(digit(m1) as int == digit(n1) as int);
        assert(digit(m0) as int == digit(n0) as int);
    } else if m >= 10 {
        assert(decimal(m)[0] == digit(m as int / 10) && decimal(n)[0] == digit(n as int / 10));
        assert(decimal(m)[1] == digit(m0) && decimal(n)[1] == digit(n0));
        assert(digit(m as int / 10) as int == digit(n as int / 10) as int);
        assert(digit(m0) as int == digit(n0) as int);
    } else {
        assert(decimal(m)[0] == digit(m as int) && decimal(n)[0] == digit(n as int));
        assert(digit(m as int) as int == digit(n as int) as int);
    }
}

/// Where two texts agree, and each is a run of characters that are no stops
/// followed by a stop and more, the runs agree and what follows them agrees.
pub proof fn lemma_runs_agree(run_a: Seq<char>, rest_a: Seq<char>, run_b: Seq<char>, rest_b: Seq<char>)
    requires
        run_a + rest_a == run_b + rest_b,
        rest_a.len() > 0 && is_stop(rest_a[0]),
        rest_b.len() > 0 && is_stop(rest_b[0]),
        forall|i: int| 0 <= i < run_a.len() ==> !is_stop(#[trigger] run_a[i]),
        forall|i: int| 0 <= i < run_b.len() ==> !is_stop(#[trigger] run_b[i]),
    ensures
        run_a == run_b,
        rest_a == rest_b,
{
    let text = run_a + rest_a;
    if run_a.len() < run_b.len() {
        assert(text[run_a.len() as int] == rest_a[0]);
        assert((run_b + rest_b)[run_a.len() as int] == run_b[run_a.len() as int]);
    } else if run_b.len() < run_a.len() {
        assert((run_b + rest_b)[run_b.len() as int] == rest_b[0]);
        assert(text[run_b.len() as int] == run_a[run_b.len() as int]);
    }
    assert(run_a =~= text.subrange(0, run_a.len() as int));
    assert(run_b =~= (run_b + rest_b).subrange(0, run_b.len() as int));
    assert(rest_a =~= text.subrange(run_a.len() as int, text.len() as int));
    assert(rest_b =~= (run_b + rest_b).subrange(run_b.len() as int, text.len() as int));
}

/// Where two texts agree, and each is the same head, then three runs of
/// characters that are no stops, separated by `;` and ended by `m`, and then
/// more, the runs agree one by one and what follows agrees.
pub proof fn lemma_three_runs_agree(
    head: Seq<char>,
    red_a: Seq<char>,
    green_a: Seq<char>,
    blue_a: Seq<char>,
    after_a: Seq<char>,
    red_b: Seq<char>,
    green_b: Seq<char>,
    blue_b: Seq<char>,
    after_b: Seq<char>,
)
    requires
        head + red_a + seq![';'] + green_a + seq![';'] + blue_a + seq!['m'] + after_a == head + red_b + seq![';']
            + green_b + seq![';'] + blue_b + seq!['m'] + after_b,
        forall|i: int| 0 <= i < red_a.len() ==> !is_stop(#[trigger] red_a[i]),
        forall|i: int| 0 <= i < green_a.len() ==> !is_stop(#[trigger] green_a[i]),
        forall|i: int| 0 <= i < blue_a.len() ==> !is_stop(#[trigger] blue_a[i]),
        forall|i: int| 0 <= i < red_b.len() ==> !is_stop(#[trigger] red_b[i]),
        forall|i: int| 0 <= i < green_b.len() ==> !is_stop(#[trigger] green_b[i]),
        forall|i: int| 0 <= i < blue_b.len() ==> !is_stop(#[trigger] blue_b[i]),
    ensures
        red_a == red_b,
        green_a == green_b,
        blue_a == blue_b,
        after_a == after_b,
{
    let end_a = seq!['m'] + after_a;
    let end_b = seq!['m'] + after_b;
    let from_blue_a = seq![';'] + (blue_a + end_a);
    let from_blue_b = seq![';'] + (blue_b + end_b);
    let from_green_a = seq![';'] + (green_a + from_blue_a);
    let from_green_b = seq![';'] + (green_b + from_blue_b);
    let text_a = head + (red_a + from_green_a);
    let text_b = head + (red_b + from_green_b);
    assert(text_a =~= head + red_a + seq![';'] + green_a + seq![';'] + blue_a + seq!['m'] + after_a);
    assert(text_b =~= head + red_b + seq![';'] + green_b + seq![';'] + blue_b + seq!['m'] + after_b);
    assert(red_a + from_green_a =~= text_a.subrange(head.len() as int, text_a.len() as int));
    assert(red_b + from_green_b =~= text_b.subrange(head.len() as int, text_b.len() as int));
    lemma_runs_agree(red_a, from_green_a, red_b, from_green_b);
    assert(green_a + from_blue_a =~= from_green_a.subrange(1, from_green_a.len() as int));
    assert(green_b + from_blue_b =~= from_green_b.subrange(1, from_green_b.len() as int));
    lemma_runs_agree(green_a, from_blue_a, green_b, from_blue_b);
    assert(blue_a + end_a =~= from_blue_a.subrange(1, from_blue_a.len() as int));
    assert(blue_b + end_b =~= from_blue_b.subrange(1, from_blue_b.len() as int));
    lemma_runs_agree(blue_a, end_a, blue_b, end_b);
    assert(after_a =~= end_a.subrange(1, end_a.len() as int));
    assert(after_b =~= end_b.subrange(1, end_b.len() as int));
}

/// The colour can be read back from the front of a text: where two texts
/// agree and each begins with a colour code for the same ground, the two
/// colours are one and what follows the codes agrees.
pub proof fn lemma_color_code_reads_back(ground: char, a: RgbColor, after_a: Seq<char>, b: RgbColor, after_b: Seq<char>)
    requires
        color_code(ground, a) + after_a == color_code(ground, b) + after_b,
    ensures
        a == b,
        after_a == after_b,
{
    lemma_decimal_is_digits(a.0);
    lemma_decimal_is_digits(b.0);
    lemma_decimal_is_digits(a.1);
    lemma_decimal_is_digits(b.1);
    lemma_decimal_is_digits(a.2);
    lemma_decimal_is_digits(b.2);
    lemma_three_runs_agree(
        seq!['\x1b', '[', ground, '8', ';', '2', ';'],
        decimal(a.0),
        decimal(a.1),
        decimal(a.2),
        after_a,
        decimal(b.0),
        decimal(b.1),
        decimal(b.2),
        after_b,
    );
    lemma_decimal_tells_values_apart(a.0, b.0);
    lemma_decimal_tells_values_apart(a.1, b.1);
    lemma_decimal_tells_values_apart(a.2, b.2);
}

/// The colours can be read back from a style code: two styles with one code
/// have the same foreground and the same background. So the colour that a
/// rendered cell is written with is that cell's colour and no other.
pub proof fn lemma_style_code_tells_colors_apart(
    foreground_a: RgbColor,
    background_a: Option<RgbColor>,
    foreground_b: RgbColor,
    background_b: Option<RgbColor>,
)
    requires
        style_code(foreground_a, background_a) == style_code(foreground_b, background_b),
    ensures
        foreground_a == foreground_b,
        background_a == background_b,
{
    let after_a = match background_a {
        Some(color) => color_code('4', color),
        None => Seq::empty(),
    };
    let after_b = match background_b {
        Some(color) => color_code('4', color),
        None => Seq::empty(),
    };
    lemma_color_code_reads_back('3', foreground_a, after_a, foreground_b, after_b);
    match (background_a, background_b) {
        (Some(a), Some(b)) => {
            assert(color_code('4', a) + Seq::<char>::empty() =~= color_code('4', a));
            assert(color_code('4', b) + Seq::<char>::empty() =~= color_code('4', b));
            lemma_color_code_reads_back('4', a, Seq::empty(), b, Seq::empty());
        },
        (Some(a), None) => {
            assert(color_code('4', a).len() > 0);
        },
        (None, Some(b)) => {
            assert(color_code('4', b).len() > 0);
        },
        (None, None) => {},
    }
}

} // verus!

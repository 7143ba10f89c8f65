use vstd::prelude::*;

use crate::game::{
    board::{Board, Grid, COLUMNS, ROWS},
    player::Player,
};

pub mod minimax_alpha_beta;
pub mod minimax_alpha_beta_with_transposition_table;
pub mod monte_carlo;

verus! {

/// Whether a search records its tree, and how many nodes at most.
pub struct GraphvizConfig {
    pub enabled: bool,
    pub max_nodes: usize,
}

impl Default for GraphvizConfig {
    fn default() -> (config: Self)
        ensures
            !config.enabled,
            config.max_nodes == 0,
    {
        GraphvizConfig { enabled: false, max_nodes: 0 }
    }
}

/// The character of the decimal digit `d`.
pub open spec fn digit_char(d: int) -> char {
    (48 + d) as char
}

/// The decimal digits of `n`, most significant first, without leading zeros.
pub open spec fn decimal_digits(n: nat) -> Seq<char>
    decreases n,
{
    if n < 10 {
        seq![digit_char(n as int)]
    } else {
        decimal_digits(n / 10).push(digit_char((n % 10) as int))
    }
}

/// `value` written in decimal, with a leading `-` when it is negative.
pub open spec fn decimal(value: int) -> Seq<char> {
    if value < 0 {
        seq!['-'] + decimal_digits((-value) as nat)
    } else {
        decimal_digits(value as nat)
    }
}

/// The text of the decimal digit `d`.
fn digit_str(d: u64) -> (text: &'static str)
    requires
        d < 10,
    ensures
        text@ == seq![digit_char(d as int)],
{
    proof {
        reveal_strlit("0");
        reveal_strlit("1");
        reveal_strlit("2");
        reveal_strlit("3");
        reveal_strlit("4");
        reveal_strlit("5");
        reveal_strlit("6");
        reveal_strlit("7");
        reveal_strlit("8");
        reveal_strlit("9");
    }
    if d == 0 {
        "0"
    } else if d == 1 {
        "1"
    } else if d == 2 {
        "2"
    } else if d == 3 {
        "3"
    } else if d == 4 {
        "4"
    } else if d == 5 {
        "5"
    } else if d == 6 {
        "6"
    } else if d == 7 {
        "7"
    } else if d == 8 {
        "8"
    } else {
        "9"
    }
}

/// Appends the decimal digits of `n` to `text`.
fn append_digits(text: &mut String, n: u64)
    ensures
        final(text)@ == old(text)@ + decimal_digits(n as nat),
    decreases n,
{
    if n >= 10 {
        append_digits(text, n / 10);
    }
    text.append(digit_str(n % 10));
    proof {
        assert(old(text)@ + decimal_digits((n / 10) as nat) + seq![digit_char((n % 10) as int)] =~= old(text)@
            + decimal_digits((n / 10) as nat).push(digit_char((n % 10) as int)));
        assert(n < 10 ==> old(text)@ + seq![digit_char((n % 10) as int)] =~= old(text)@ + decimal_digits(n as nat));
    }
}

/// `value` written in decimal, with a leading minus sign when it is
/// negative.
pub fn isize_to_string(value: isize) -> (text: String)
    ensures
        text@ == decimal(value as int),
{
    let mut text = String::new();
    let magnitude: u64 = if value < 0 {
        proof {
            reveal_strlit("-");
        }
        text.append("-");
        (-(value as i128)) as u64
    } else {
        value as u64
    };
    append_digits(&mut text, magnitude);
    proof {
        assert(text@ =~= decimal(value as int));
    }
    text
}

/// Appends `n` in decimal to `text`.
pub fn append_usize(text: &mut String, n: usize)
    ensures
        final(text)@ == old(text)@ + decimal(n as int),
{
    append_digits(text, n as u64);
}

/// Appends `value` in decimal to `text`, with a leading minus sign when it
/// is negative.
pub fn append_isize(text: &mut String, value: isize)
    ensures
        final(text)@ == old(text)@ + decimal(value as int),
{
    let written = isize_to_string(value);
    text.append(written.as_str());
}

/// `text` with each newline written as an HTML line break.
pub open spec fn html_lines(text: Seq<char>) -> Seq<char>
    decreases text.len(),
{
    if text.len() == 0 {
        Seq::empty()
    } else {
        html_lines(text.drop_last()) + if text.last() == '\n' {
            "<BR/>"@
        } else {
            seq![text.last()]
        }
    }
}

/// Appends `s` to `text`, each newline written as an HTML line break.
pub fn append_html_lines(text: &mut String, s: &str)
    ensures
        final(text)@ == old(text)@ + html_lines(s@),
{
    let ghost start = text@;
    let len = s.unicode_len();
    let mut i: usize = 0;
    while i < len
        invariant
            i <= len,
            len == s@.len(),
            text@ == start + html_lines(s@.subrange(0, i as int)),
        decreases len - i,
    {
        let c = s.get_char(i);
        let ghost before = text@;
        if c == '\n' {
            text.append("<BR/>");
        } else {
            text.append(s.substring_char(i, i + 1));
        }
        proof {
            assert(s@.subrange(0, i + 1).drop_last() =~= s@.subrange(0, i as int));
            assert(s@.subrange(i as int, i + 1) =~= seq![c]);
            assert(start + html_lines(s@.subrange(0, i + 1)) =~= before + (if c == '\n' {
                "<BR/>"@
            } else {
                seq![c]
            }));
        }
        i += 1;
    }
    proof {
        assert(s@.subrange(0, len as int) =~= s@);
    }
}

/// Whether two texts differ in one place only, at `k`, which follows the
/// eight characters `BORDER="`.
#[verifier::opaque]
pub open spec fn differ_at(a: Seq<char>, b: Seq<char>, k: int) -> bool {
    &&& a.len() == b.len()
    &&& 8 <= k < a.len()
    &&& a.subrange(k - 8, k) == seq!['B', 'O', 'R', 'D', 'E', 'R', '=', '"']
    &&& forall|j: int| 0 <= j < a.len() && j != k ==> a[j] == b[j]
}

/// Two texts that differ only at `k`, right after `BORDER="`, do so.
pub proof fn lemma_differ_from(a: Seq<char>, b: Seq<char>, k: int)
    requires
        a.len() == b.len(),
        8 <= k < a.len(),
        a.subrange(k - 8, k) == seq!['B', 'O', 'R', 'D', 'E', 'R', '=', '"'],
        forall|j: int| 0 <= j < a.len() && j != k ==> a[j] == b[j],
    ensures
        differ_at(a, b, k),
{
    reveal(differ_at);
}

/// What `differ_at` says.
pub proof fn lemma_differ_at(a: Seq<char>, b: Seq<char>, k: int)
    requires
        differ_at(a, b, k),
    ensures
        a.len() == b.len(),
        8 <= k < a.len(),
        a.subrange(k - 8, k) == seq!['B', 'O', 'R', 'D', 'E', 'R', '=', '"'],
        forall|j: int| 0 <= j < a.len() && j != k ==> a[j] == b[j],
{
    reveal(differ_at);
}

/// Appending the same text to two texts that differ in one place only
/// keeps them differing in that place only, with the same characters there.
pub proof fn lemma_differ_append(a: Seq<char>, b: Seq<char>, k: int, rest: Seq<char>)
    requires
        differ_at(a, b, k),
    ensures
        differ_at(a + rest, b + rest, k),
        (a + rest)[k] == a[k],
        (b + rest)[k] == b[k],
{
    reveal(differ_at);
    assert((a + rest).subrange(k - 8, k) =~= a.subrange(k - 8, k));
}

/// Whether two texts of the same length differ only in the `n` characters
/// from `k` on, which follow the text `before`.
#[verifier::opaque]
pub open spec fn differ_span(a: Seq<char>, b: Seq<char>, k: int, n: int, before: Seq<char>) -> bool {
    &&& a.len() == b.len()
    &&& before.len() <= k
    &&& 0 <= n
    &&& k + n <= a.len()
    &&& a.subrange(k - before.len(), k) == before
    &&& forall|j: int| 0 <= j < a.len() && !(k <= j < k + n) ==> a[j] == b[j]
}

/// Two texts that differ only in a span after `before` do so.
pub proof fn lemma_differ_span_from(a: Seq<char>, b: Seq<char>, k: int, n: int, before: Seq<char>)
    requires
        a.len() == b.len(),
        before.len() <= k,
        0 <= n,
        k + n <= a.len(),
        a.subrange(k - before.len(), k) == before,
        forall|j: int| 0 <= j < a.len() && !(k <= j < k + n) ==> a[j] == b[j],
    ensures
        differ_span(a, b, k, n, before),
{
    reveal(differ_span);
}

/// What `differ_span` says.
pub proof fn lemma_differ_span(a: Seq<char>, b: Seq<char>, k: int, n: int, before: Seq<char>)
    requires
        differ_span(a, b, k, n, before),
    ensures
        a.len() == b.len(),
        before.len() <= k,
        0 <= n,
        k + n <= a.len(),
        a.subrange(k - before.len(), k) == before,
        forall|j: int| 0 <= j < a.len() && !(k <= j < k + n) ==> a[j] == b[j],
{
    reveal(differ_span);
}

/// Appending the same text to two texts that differ in one span only keeps
/// them differing in that span only, with the same characters there.
pub proof fn lemma_differ_span_append(a: Seq<char>, b: Seq<char>, k: int, n: int, before: Seq<char>, rest: Seq<char>)
    requires
        differ_span(a, b, k, n, before),
    ensures
        differ_span(a + rest, b + rest, k, n, before),
        (a + rest).subrange(k, k + n) == a.subrange(k, k + n),
        (b + rest).subrange(k, k + n) == b.subrange(k, k + n),
{
    reveal(differ_span);
    assert((a + rest).subrange(k - before.len(), k) =~= a.subrange(k - before.len(), k));
    assert((a + rest).subrange(k, k + n) =~= a.subrange(k, k + n));
    assert((b + rest).subrange(k, k + n) =~= b.subrange(k, k + n));
}

/// The picture of a cell: a red, a yellow or an empty disc.
pub open spec fn glyph(cell: Option<Player>) -> char {
    match cell {
        Some(Player::Red) => '🔴',
        Some(Player::Yellow) => '🟡',
        None => '⚪',
    }
}

/// The first `k` cells of `row`, pictured and separated by spaces (no space
/// after the last column).
pub open spec fn row_text(grid: Grid, row: int, k: int) -> Seq<char>
    decreases k,
{
    if k <= 0 {
        Seq::empty()
    } else {
        row_text(grid, row, k - 1).push(glyph(grid[row][k - 1])) + if k < COLUMNS {
            seq![' ']
        } else {
            Seq::empty()
        }
    }
}

/// The first `n` rows pictured from the top, each ending with a newline.
pub open spec fn board_text(grid: Grid, n: int) -> Seq<char>
    decreases n,
{
    if n <= 0 {
        Seq::empty()
    } else {
        board_text(grid, n - 1) + row_text(grid, n - 1, COLUMNS as int).push('\n')
    }
}

fn glyph_str(cell: Option<Player>) -> (text: &'static str)
    ensures
        text@ == seq![glyph(cell)],
{
    match cell {
        Some(Player::Red) => {
            proof {
                reveal_strlit("🔴");
            }
            "🔴"
        },
        Some(Player::Yellow) => {
            proof {
                reveal_strlit("🟡");
            }
            "🟡"
        },
        None => {
            proof {
                reveal_strlit("⚪");
            }
            "⚪"
        },
    }
}

/// The board pictured row by row from the top (see `board_text`).
pub fn to_ascii(board: &Board) -> (text: String)
    ensures
        text@ == board_text(board.spec_grid(), ROWS as int),
{
    let grid = board.grid();

    let mut text = String::new();

    let mut row: usize = 0;
    while row < ROWS
        invariant
            row <= ROWS,
            grid == board.spec_grid(),
            text@ == board_text(grid, row as int),
        decreases ROWS - row,
    {
        let ghost before = text@;
        let mut column: usize = 0;
        while column < COLUMNS
            invariant
                row < ROWS,
                column <= COLUMNS,
                text@ == before + row_text(grid, row as int, column as int),
            decreases COLUMNS - column,
        {
            text.append(glyph_str(grid[row][column]));

            if column + 1 < COLUMNS {
                proof {
                    reveal_strlit(" ");
                }
                text.append(" ");
            }
            column += 1;
        }
        proof {
            reveal_strlit("\n");
        }
        text.append("\n");
        row += 1;
    }

    text
}

} // verus!

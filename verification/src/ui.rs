//! Console text: the banner, section frames and aligned tables the
//! interactive runner prints, and the matching of the `start` / `quit`
//! console commands.
//!
//! Everything here only builds text; printing it and reading the console
//! stay outside the library.

use vstd::prelude::*;
use vstd::string::StringExecFns;

use crate::text::{char_is_whitespace, is_unicode_whitespace, push_char, str_to_chars};

verus! {

/// `n` copies of one character.
pub open spec fn char_run(c: char, n: nat) -> Seq<char> {
    Seq::new(n, |i: int| c)
}

/// A string of `n` copies of one character.
pub fn repeat_char(c: char, n: usize) -> (r: String)
    ensures
        r@ == char_run(c, n as nat),
{
    let mut out = String::new();
    let mut i: usize = 0;
    while i < n
        invariant
            i <= n,
            out@.len() == i,
            forall|m: int| 0 <= m < i ==> out@[m] == c,
        decreases n - i,
    {
        push_char(&mut out, c);
        i = i + 1;
    }
    proof {
        assert(out@ =~= char_run(c, n as nat));
    }
    out
}

/// `s` centered in a field of `width` characters; text wider than the field
/// stays as it is.
pub open spec fn centered(s: Seq<char>, width: nat) -> Seq<char> {
    if s.len() >= width {
        s
    } else {
        let left = ((width - s.len()) as nat) / 2;
        let right = ((width - s.len() - left) as nat);
        char_run(' ', left) + s + char_run(' ', right)
    }
}

/// Appends `s` centered in a field of `width` characters.
fn push_centered(out: &mut String, s: &Vec<char>, width: usize)
    ensures
        final(out)@ == old(out)@ + centered(s@, width as nat),
{
    let n: usize = s.len();
    if n >= width {
        let mut i: usize = 0;
        while i < n
            invariant
                i <= n,
                n == s@.len(),
                out@ == old(out)@ + s@.subrange(0, i as int),
            decreases n - i,
        {
            push_char(out, s[i]);
            i = i + 1;
            proof {
                assert(old(out)@ + s@.subrange(0, i - 1) + seq![s@[i - 1]] =~= old(out)@
                    + s@.subrange(0, i as int));
            }
        }
        proof {
            assert(s@.subrange(0, n as int) =~= s@);
        }
    } else {
        let left: usize = (width - n) / 2;
        let right: usize = width - n - left;
        let pad_left = repeat_char(' ', left);
        out.append(pad_left.as_str());
        let mut i: usize = 0;
        while i < n
            invariant
                i <= n,
                n == s@.len(),
                out@ == old(out)@ + char_run(' ', left as nat) + s@.subrange(0, i as int),
            decreases n - i,
        {
            push_char(out, s[i]);
            i = i + 1;
            proof {
                assert(old(out)@ + char_run(' ', left as nat) + s@.subrange(0, i - 1) + seq![
                    s@[i - 1],
                ] =~= old(out)@ + char_run(' ', left as nat) + s@.subrange(0, i as int));
            }
        }
        let pad_right = repeat_char(' ', right);
        out.append(pad_right.as_str());
        proof {
            assert(s@.subrange(0, n as int) =~= s@);
            assert(old(out)@ + char_run(' ', left as nat) + s@ + char_run(' ', right as nat)
                =~= old(out)@ + centered(s@, width as nat));
        }
    }
}

/// The welcome banner: a 60-wide box with the title and subtitle centered.
pub open spec fn banner_text(title: Seq<char>, subtitle: Seq<char>) -> Seq<char> {
    "\u{250c}"@ + char_run('\u{2500}', 60) + "\u{2510}\n\u{2502}"@ + centered(title, 60)
        + "\u{2502}\n\u{2502}"@ + centered(subtitle, 60) + "\u{2502}\n\u{2514}"@ + char_run(
        '\u{2500}',
        60,
    ) + "\u{2518}\n"@
}

/// Renders the welcome banner.
pub fn render_banner(title: &str, subtitle: &str) -> (r: String)
    ensures
        r@ == banner_text(title@, subtitle@),
{
    let title_chars = str_to_chars(title);
    let subtitle_chars = str_to_chars(subtitle);
    let dashes = repeat_char('\u{2500}', 60);
    let mut out = String::new();
    out.append("\u{250c}");
    out.append(dashes.as_str());
    out.append("\u{2510}\n\u{2502}");
    push_centered(&mut out, &title_chars, 60);
    out.append("\u{2502}\n\u{2502}");
    push_centered(&mut out, &subtitle_chars, 60);
    out.append("\u{2502}\n\u{2514}");
    out.append(dashes.as_str());
    out.append("\u{2518}\n");
    proof {
        assert(out@ =~= banner_text(title@, subtitle@));
    }
    out
}

/// A section frame: the title in a snug box, preceded by a blank line.
pub open spec fn section_text(title: Seq<char>) -> Seq<char> {
    "\n\u{250c}"@ + char_run('\u{2500}', title.len() + 4) + "\u{2510}\n\u{2502}  "@ + title
        + "  \u{2502}\n\u{2514}"@ + char_run('\u{2500}', title.len() + 4) + "\u{2518}\n"@
}

/// Renders a section frame.
pub fn render_section(title: &str) -> (r: String)
    requires
        title@.len() + 4 <= usize::MAX,
    ensures
        r@ == section_text(title@),
{
    let title_chars = str_to_chars(title);
    proof {
        vstd::std_specs::vec::axiom_spec_len(&title_chars);
    }
    let dashes = repeat_char('\u{2500}', title_chars.len() + 4);
    let mut out = String::new();
    out.append("\n\u{250c}");
    out.append(dashes.as_str());
    out.append("\u{2510}\n\u{2502}  ");
    out.append(title);
    out.append("  \u{2502}\n\u{2514}");
    out.append(dashes.as_str());
    out.append("\u{2518}\n");
    proof {
        assert(out@ =~= section_text(title@));
    }
    out
}

/// The character count of the widest left entry and the widest right entry.
pub open spec fn column_widths(rows: Seq<(Seq<char>, Seq<char>)>) -> (nat, nat)
    decreases rows.len(),
{
    if rows.len() == 0 {
        (0, 0)
    } else {
        let (l, r) = column_widths(rows.drop_last());
        let ll = if rows.last().0.len() > l {
            rows.last().0.len()
        } else {
            l
        };
        let rr = if rows.last().1.len() > r {
            rows.last().1.len()
        } else {
            r
        };
        (ll, rr)
    }
}

/// One row of the table: the left entry padded out to the left column, the
/// right entry padded in from the right column.
pub open spec fn table_row(left: Seq<char>, right: Seq<char>, lw: nat, rw: nat) -> Seq<char>
    recommends
        left.len() <= lw,
        right.len() <= rw,
{
    "   \u{2502} "@ + left + char_run(' ', (lw - left.len()) as nat) + " "@ + char_run(
        ' ',
        (rw - right.len()) as nat,
    ) + right + " \u{2502}\n"@
}

/// The rows of the table, in order.
pub open spec fn table_rows(rows: Seq<(Seq<char>, Seq<char>)>, lw: nat, rw: nat) -> Seq<char>
    decreases rows.len(),
{
    if rows.len() == 0 {
        Seq::empty()
    } else {
        table_rows(rows.drop_last(), lw, rw) + table_row(rows.last().0, rows.last().1, lw, rw)
    }
}

/// The whole table: a frame sized to the widest entries, the rows aligned
/// in two columns, and a blank line after.
pub open spec fn table_text(rows: Seq<(Seq<char>, Seq<char>)>) -> Seq<char> {
    let (lw, rw) = column_widths(rows);
    let inner = lw + rw + 3;
    "   \u{250c}"@ + char_run('\u{2500}', inner) + "\u{2510}\n"@ + table_rows(rows, lw, rw)
        + "   \u{2514}"@ + char_run('\u{2500}', inner) + "\u{2518}\n\n"@
}

/// The models of the table's rows.
pub open spec fn row_views(rows: Seq<(String, String)>) -> Seq<(Seq<char>, Seq<char>)> {
    rows.map_values(|row: (String, String)| (row.0@, row.1@))
}

/// Renders a two-column table with both columns aligned, as the loading
/// statistics and settings listings show it.
pub fn render_table(rows: &Vec<(String, String)>) -> (r: String)
    requires
        column_widths(row_views(rows@)).0 + column_widths(row_views(rows@)).1 + 3 <= usize::MAX,
    ensures
        r@ == table_text(row_views(rows@)),
{
    let ghost vs = row_views(rows@);
    let mut lw: usize = 0;
    let mut rw: usize = 0;
    let mut i: usize = 0;
    while i < rows.len()
        invariant
            i <= rows@.len(),
            vs == row_views(rows@),
            (lw as nat, rw as nat) == column_widths(vs.take(i as int)),
            lw <= usize::MAX,
            rw <= usize::MAX,
        decreases rows@.len() - i,
    {
        proof {
            assert(vs.take(i + 1).drop_last() =~= vs.take(i as int));
            assert(vs.take(i + 1).last() == vs[i as int]);
        }
        let left_chars = str_to_chars(&rows[i].0);
        let right_chars = str_to_chars(&rows[i].1);
        proof {
            vstd::std_specs::vec::axiom_spec_len(&left_chars);
            vstd::std_specs::vec::axiom_spec_len(&right_chars);
        }
        if left_chars.len() > lw {
            lw = left_chars.len();
        }
        if right_chars.len() > rw {
            rw = right_chars.len();
        }
        i = i + 1;
    }
    proof {
        assert(vs.take(rows@.len() as int) =~= vs);
    }
    let dashes = repeat_char('\u{2500}', lw + rw + 3);
    let mut out = String::new();
    out.append("   \u{250c}");
    out.append(dashes.as_str());
    out.append("\u{2510}\n");
    let ghost rows_head = out@;
    let mut j: usize = 0;
    while j < rows.len()
        invariant
            j <= rows@.len(),
            vs == row_views(rows@),
            (lw as nat, rw as nat) == column_widths(vs),
            out@ == rows_head + table_rows(vs.take(j as int), lw as nat, rw as nat),
        decreases rows@.len() - j,
    {
        let ghost before = out@;
        proof {
            assert(vs.take(j + 1).drop_last() =~= vs.take(j as int));
            assert(vs.take(j + 1).last() == vs[j as int]);
            lemma_column_widths_bound(vs, j as int);
        }
        out.append("   \u{2502} ");
        out.append(rows[j].0.as_str());
        let left_len: usize = str_to_chars(&rows[j].0).len();
        let pad_left = repeat_char(' ', lw - left_len);
        out.append(pad_left.as_str());
        out.append(" ");
        let right_len: usize = str_to_chars(&rows[j].1).len();
        let pad_right = repeat_char(' ', rw - right_len);
        out.append(pad_right.as_str());
        out.append(rows[j].1.as_str());
        out.append(" \u{2502}\n");
        proof {
            assert(out@ =~= before + table_row(vs[j as int].0, vs[j as int].1, lw as nat,
            rw as nat));
        }
        j = j + 1;
    }
    out.append("   \u{2514}");
    out.append(dashes.as_str());
    out.append("\u{2518}\n\n");
    proof {
        assert(vs.take(rows@.len() as int) =~= vs);
        assert(out@ =~= table_text(vs));
    }
    out
}

/// Every entry fits its column.
proof fn lemma_column_widths_bound(rows: Seq<(Seq<char>, Seq<char>)>, i: int)
    requires
        0 <= i < rows.len(),
    ensures
        rows[i].0.len() <= column_widths(rows).0,
        rows[i].1.len() <= column_widths(rows).1,
    decreases rows.len(),
{
    if i < rows.len() - 1 {
        lemma_column_widths_bound(rows.drop_last(), i);
        assert(rows.drop_last()[i] == rows[i]);
    }
}

/// Leading and trailing whitespace removed.
pub open spec fn trim_ws(s: Seq<char>) -> Seq<char>
    decreases s.len(),
{
    if s.len() == 0 {
        s
    } else if is_unicode_whitespace(s[0]) {
        trim_ws(s.drop_first())
    } else if is_unicode_whitespace(s.last()) {
        trim_ws(s.drop_last())
    } else {
        s
    }
}

/// The code of a character with an ASCII capital lowered.
pub open spec fn ascii_lower_code(c: char) -> int {
    if 65 <= (c as u32) <= 90 {
        (c as u32) + 32
    } else {
        (c as u32) as int
    }
}

/// Equality up to ASCII case.
pub open spec fn eq_ignore_ascii_case(a: Seq<char>, b: Seq<char>) -> bool {
    a.len() == b.len() && forall|i: int|
        0 <= i < a.len() ==> ascii_lower_code(a[i]) == ascii_lower_code(#[trigger] b[i])
}

/// Trimming a window keeps it: whitespace left of `b` and right of `e`
/// falls away, and nothing else does.
proof fn lemma_trim_window(s: Seq<char>, b: int, e: int)
    requires
        0 <= b <= e <= s.len(),
        forall|m: int| 0 <= m < b ==> is_unicode_whitespace(#[trigger] s[m]),
        forall|m: int| e <= m < s.len() ==> is_unicode_whitespace(#[trigger] s[m]),
        b == e || (!is_unicode_whitespace(s[b]) && !is_unicode_whitespace(s[e - 1])),
    ensures
        trim_ws(s) == s.subrange(b, e),
    decreases s.len(),
{
    if s.len() == 0 {
        assert(s.subrange(0, 0) =~= s);
    } else if b > 0 {
        assert(is_unicode_whitespace(s[0]));
        lemma_trim_window(s.drop_first(), b - 1, e - 1);
        assert(s.drop_first().subrange(b - 1, e - 1) =~= s.subrange(b, e));
    } else if b == e {
        assert(is_unicode_whitespace(s[0]));
        lemma_trim_window(s.drop_first(), 0, 0);
        assert(s.drop_first().subrange(0, 0) =~= s.subrange(b, e));
    } else if e < s.len() {
        assert(is_unicode_whitespace(s.last()));
        assert(!is_unicode_whitespace(s[0]));
        lemma_trim_window(s.drop_last(), b, e);
        assert(s.drop_last().subrange(b, e) =~= s.subrange(b, e));
    } else {
        assert(!is_unicode_whitespace(s[0]));
        assert(!is_unicode_whitespace(s.last()));
        assert(s.subrange(0, s.len() as int) =~= s);
    }
}

/// Whether a console line means the given command: the line with its
/// surrounding whitespace removed equals the command up to ASCII case. The
/// start and quit prompts accept their answers this way.
pub fn command_matches(input: &str, command: &str) -> (r: bool)
    ensures
        r == eq_ignore_ascii_case(trim_ws(input@), command@),
{
    let s = str_to_chars(input);
    let c = str_to_chars(command);
    proof {
        vstd::std_specs::vec::axiom_spec_len(&s);
    }
    let n: usize = s.len();
    let mut b: usize = 0;
    while b < n && char_is_whitespace(s[b])
        invariant
            0 <= b <= n,
            n == s@.len(),
            forall|m: int| 0 <= m < b ==> is_unicode_whitespace(#[trigger] s@[m]),
        decreases n - b,
    {
        b = b + 1;
    }
    let mut e: usize = n;
    while e > b && char_is_whitespace(s[e - 1])
        invariant
            b <= e <= n,
            n == s@.len(),
            forall|m: int| e <= m < n ==> is_unicode_whitespace(#[trigger] s@[m]),
        decreases e,
    {
        e = e - 1;
    }
    proof {
        lemma_trim_window(s@, b as int, e as int);
    }
    let ghost trimmed = s@.subrange(b as int, e as int);
    if e - b != c.len() {
        return false;
    }
    let mut i: usize = 0;
    while i < c.len()
        invariant
            0 <= i <= c@.len(),
            b + c@.len() == e <= s@.len(),
            s@ == input@,
            c@ == command@,
            trimmed == s@.subrange(b as int, e as int),
            trim_ws(input@) == trimmed,
            trimmed.len() == c@.len(),
            forall|m: int|
                0 <= m < i ==> ascii_lower_code(trimmed[m]) == ascii_lower_code(
                    #[trigger] c@[m],
                ),
        decreases c@.len() - i,
    {
        let mut va: u32 = s[b + i] as u32;
        if 65 <= va && va <= 90 {
            va = va + 32;
        }
        let mut vb: u32 = c[i] as u32;
        if 65 <= vb && vb <= 90 {
            vb = vb + 32;
        }
        proof {
            assert(trimmed[i as int] == s@[b + i]);
        }
        if va != vb {
            proof {
                assert(ascii_lower_code(trimmed[i as int]) != ascii_lower_code(c@[i as int]));
            }
            return false;
        }
        i = i + 1;
    }
    true
}

} // verus!

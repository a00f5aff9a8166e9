use vstd::prelude::*;
use vstd::string::StrSliceExecFns;

use crate::text::{string_views, text};

verus! {

/// Width of a trace frame between its corners.
pub const TRACE_BOX_WIDTH: usize = 116;

/// Width of the text inside a trace frame's side bars.
pub const TRACE_BOX_TEXT_WIDTH: usize = 114;

pub const ANSI_GREEN: &'static str = "\x1b[32m";

pub const ANSI_BLUE: &'static str = "\x1b[34m";

pub const ANSI_PURPLE: &'static str = "\x1b[35m";

pub const ANSI_RESET: &'static str = "\x1b[0m";

/// `s` repeated `n` times.
pub open spec fn repeated(s: Seq<char>, n: nat) -> Seq<char>
    decreases n,
{
    if n == 0 {
        Seq::empty()
    } else {
        repeated(s, (n - 1) as nat) + s
    }
}

/// The first `width` characters of `s`.
pub open spec fn first_chars(s: Seq<char>, width: nat) -> Seq<char> {
    if s.len() <= width {
        s
    } else {
        s.take(width as int)
    }
}

/// `s` cut into pieces of `width` characters, the last one possibly shorter; an empty
/// text gives one empty piece, and a width of 0 an empty piece before the whole text.
pub open spec fn wrapped(s: Seq<char>, width: nat) -> Seq<Seq<char>>
    decreases s.len(),
{
    if s.len() == 0 || s.len() <= width {
        seq![s]
    } else if width == 0 {
        seq![Seq::empty(), s]
    } else {
        seq![s.take(width as int)] + wrapped(s.skip(width as int), width)
    }
}

/// The top border, with ` title ` after the corner.
pub open spec fn box_top(color: Seq<char>, title: Seq<char>) -> Seq<char> {
    let t = " "@ + title + " "@;
    if t.len() >= TRACE_BOX_WIDTH {
        color + "╭"@ + first_chars(t, TRACE_BOX_WIDTH as nat) + "╮"@ + ANSI_RESET@
    } else {
        color + "╭"@ + t + repeated("─"@, (TRACE_BOX_WIDTH - t.len()) as nat) + "╮"@ + ANSI_RESET@
    }
}

/// A text line between the side bars, cut or padded to the text width.
pub open spec fn box_line(color: Seq<char>, line: Seq<char>) -> Seq<char> {
    let l = first_chars(line, TRACE_BOX_TEXT_WIDTH as nat);
    color + "│"@ + ANSI_RESET@ + " "@ + l + repeated(" "@, (TRACE_BOX_TEXT_WIDTH - l.len()) as nat)
        + " "@ + color + "│"@ + ANSI_RESET@
}

/// A separator across the frame, with `title` after the left tee.
pub open spec fn box_separator(color: Seq<char>, title: Seq<char>) -> Seq<char> {
    if title.len() >= TRACE_BOX_WIDTH {
        color + "├"@ + first_chars(title, TRACE_BOX_WIDTH as nat) + "┤"@ + ANSI_RESET@
    } else {
        color + "├"@ + title + repeated("─"@, (TRACE_BOX_WIDTH - title.len()) as nat) + "┤"@
            + ANSI_RESET@
    }
}

/// The bottom border.
pub open spec fn box_bottom(color: Seq<char>) -> Seq<char> {
    color + "╰"@ + repeated("─"@, TRACE_BOX_WIDTH as nat) + "╯"@ + ANSI_RESET@
}

/// Appends `s` to `out` `n` times.
fn append_repeated(out: &mut String, s: &str, n: usize)
    ensures
        final(out)@ == old(out)@ + repeated(s@, n as nat),
{
    let mut i: usize = 0;
    while i < n
        invariant
            i <= n,
            out@ == old(out)@ + repeated(s@, i as nat),
        decreases n - i,
    {
        out.append(s);
        i = i + 1;
        assert(out@ =~= old(out)@ + repeated(s@, i as nat));
    }
}

/// The first `width` characters of `line`.
pub fn trim_chars(line: &str, width: usize) -> (r: String)
    ensures
        r@ == first_chars(line@, width as nat),
{
    let n = line.unicode_len();
    if n <= width {
        let r = text(line);
        r
    } else {
        text(line.substring_char(0, width))
    }
}

/// `line` cut into pieces of `width` characters.
pub fn wrap_chars(line: &str, width: usize) -> (r: Vec<String>)
    ensures
        string_views(r@) == wrapped(line@, width as nat),
{
    let n = line.unicode_len();
    if width == 0 && n > 0 {
        proof {
            reveal_strlit("");
        }
        let mut out: Vec<String> = Vec::new();
        let first = text("");
        assert(first@ =~= Seq::<char>::empty());
        out.push(first);
        out.push(text(line));
        assert(string_views(out@) =~= seq![Seq::<char>::empty(), line@]);
        return out;
    }
    let ghost s = line@;
    if width == 0 {
        let mut out: Vec<String> = Vec::new();
        out.push(text(line));
        assert(string_views(out@) =~= seq![line@]);
        return out;
    }
    let mut out: Vec<String> = Vec::new();
    let mut start: usize = 0;
    assert(s.skip(0) =~= s);
    assert(string_views(out@) =~= Seq::<Seq<char>>::empty());
    assert(string_views(out@) + wrapped(s.skip(0), width as nat) =~= wrapped(s, width as nat));
    while n - start > width
        invariant
            n == s.len(),
            s == line@,
            width > 0,
            start <= n,
            string_views(out@) + wrapped(s.skip(start as int), width as nat) == wrapped(s, width as nat),
        decreases n - start,
    {
        let piece = text(line.substring_char(start, start + width));
        let ghost rest = s.skip(start as int);
        proof {
            assert(piece@ =~= rest.take(width as int));
            assert(rest.skip(width as int) =~= s.skip(start + width));
        }
        let ghost prev = string_views(out@);
        out.push(piece);
        start = start + width;
        proof {
            let v = string_views(out@);
            assert(v =~= prev.push(rest.take(width as int)));
            assert(v.drop_last() =~= prev);
            assert(wrapped(rest, width as nat) == seq![rest.take(width as int)] + wrapped(
                rest.skip(width as int),
                width as nat,
            ));
            assert(v.drop_last() + wrapped(rest, width as nat) == v + wrapped(
                s.skip(start as int),
                width as nat,
            )) by {
                assert(v.drop_last() + (seq![rest.take(width as int)] + wrapped(
                    rest.skip(width as int),
                    width as nat,
                )) =~= v + wrapped(s.skip(start as int), width as nat));
            }
        }
    }
    let last = text(line.substring_char(start, n));
    proof {
        assert(last@ =~= s.skip(start as int));
        assert(wrapped(s.skip(start as int), width as nat) == seq![s.skip(start as int)]);
    }
    let ghost before = string_views(out@);
    out.push(last);
    assert(string_views(out@) =~= before + seq![last@]);
    out
}

/// The top border of a trace frame.
pub fn trace_box_top(color: &str, title: &str) -> (r: String)
    ensures
        r@ == box_top(color@, title@),
{
    let mut t = text(" ");
    t.append(title);
    t.append(" ");
    let width = t.as_str().unicode_len();
    let mut out = text(color);
    out.append("╭");
    if width >= TRACE_BOX_WIDTH {
        let cut = trim_chars(t.as_str(), TRACE_BOX_WIDTH);
        out.append(cut.as_str());
    } else {
        out.append(t.as_str());
        append_repeated(&mut out, "─", TRACE_BOX_WIDTH - width);
    }
    out.append("╮");
    out.append(ANSI_RESET);
    assert(out@ =~= box_top(color@, title@));
    out
}

/// One text line of a trace frame.
pub fn trace_box_line(color: &str, line: &str) -> (r: String)
    ensures
        r@ == box_line(color@, line@),
{
    let l = trim_chars(line, TRACE_BOX_TEXT_WIDTH);
    let width = l.as_str().unicode_len();
    let mut out = text(color);
    out.append("│");
    out.append(ANSI_RESET);
    out.append(" ");
    out.append(l.as_str());
    append_repeated(&mut out, " ", TRACE_BOX_TEXT_WIDTH - width);
    out.append(" ");
    out.append(color);
    out.append("│");
    out.append(ANSI_RESET);
    assert(out@ =~= box_line(color@, line@));
    out
}

/// A separator line of a trace frame.
pub fn trace_box_separator(color: &str, title: &str) -> (r: String)
    ensures
        r@ == box_separator(color@, title@),
{
    let width = title.unicode_len();
    let mut out = text(color);
    out.append("├");
    if width >= TRACE_BOX_WIDTH {
        let cut = trim_chars(title, TRACE_BOX_WIDTH);
        out.append(cut.as_str());
    } else {
        out.append(title);
        append_repeated(&mut out, "─", TRACE_BOX_WIDTH - width);
    }
    out.append("┤");
    out.append(ANSI_RESET);
    assert(out@ =~= box_separator(color@, title@));
    out
}

/// The bottom border of a trace frame.
pub fn trace_box_bottom(color: &str) -> (r: String)
    ensures
        r@ == box_bottom(color@),
{
    let mut out = text(color);
    out.append("╰");
    append_repeated(&mut out, "─", TRACE_BOX_WIDTH);
    out.append("╯");
    out.append(ANSI_RESET);
    assert(out@ =~= box_bottom(color@));
    out
}

} // verus!

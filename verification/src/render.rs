//! Text building blocks for the report renderer: decimal formatting of
//! integer quantities, string repetition, and the box drawing used by
//! the terminal report.

use vstd::prelude::*;
use vstd::string::StringExecFns;

verus! {

/// The decimal digit character for `d`.
pub open spec fn spec_digit(d: int) -> char {
    if d == 0 {
        '0'
    } else if d == 1 {
        '1'
    } else if d == 2 {
        '2'
    } else if d == 3 {
        '3'
    } else if d == 4 {
        '4'
    } else if d == 5 {
        '5'
    } else if d == 6 {
        '6'
    } else if d == 7 {
        '7'
    } else if d == 8 {
        '8'
    } else {
        '9'
    }
}

/// The decimal rendering of a non-negative integer, no leading zeros.
pub open spec fn spec_dec(n: int) -> Seq<char>
    recommends
        n >= 0,
    decreases n,
{
    if n < 10 {
        seq![spec_digit(n)]
    } else {
        spec_dec(n / 10).push(spec_digit(n % 10))
    }
}

/// `s` repeated `n` times.
pub open spec fn spec_repeat(s: Seq<char>, n: int) -> Seq<char>
    decreases n,
{
    if n <= 0 {
        Seq::empty()
    } else {
        spec_repeat(s, n - 1) + s
    }
}

/// Microseconds rendered as milliseconds with two decimal places,
/// truncated: whole part, a dot, then hundredths of a millisecond.
pub open spec fn spec_ms(us: int) -> Seq<char>
    recommends
        us >= 0,
{
    let hund = (us % 1000) / 10;
    spec_dec(us / 1000) + seq!['.', spec_digit(hund / 10), spec_digit(hund % 10)]
}

fn digit_str(d: u64) -> (r: &'static str)
    requires
        d < 10,
    ensures
        r@ =~= seq![spec_digit(d as int)],
{
    proof {
        reveal_strlit("0");
        reveal_strlit("1");
        reveal_strlit("2");
        reveal_strlit("3");
        reveal_strlit("4");
        reveal_strlit("5");
        reveal_strlit("6");
        reveal_strlit("7");
        reveal_strlit("8");
        reveal_strlit("9");
    }
    if d == 0 {
        "0"
    } else if d == 1 {
        "1"
    } else if d == 2 {
        "2"
    } else if d == 3 {
        "3"
    } else if d == 4 {
        "4"
    } else if d == 5 {
        "5"
    } else if d == 6 {
        "6"
    } else if d == 7 {
        "7"
    } else if d == 8 {
        "8"
    } else {
        "9"
    }
}

/// Renders `n` in decimal.
pub fn fmt_u64(n: u64) -> (r: String)
    ensures
        r@ =~= spec_dec(n as int),
    decreases n,
{
    if n < 10 {
        String::from_str(digit_str(n))
    } else {
        let mut s = fmt_u64(n / 10);
        s.append(digit_str(n % 10));
        proof {
            assert(spec_dec((n / 10) as int).push(spec_digit((n % 10) as int)) =~= spec_dec(
                (n / 10) as int,
            ) + seq![spec_digit((n % 10) as int)]);
        }
        s
    }
}

/// Renders a microsecond quantity as milliseconds with two decimals.
pub fn fmt_ms(us: u64) -> (r: String)
    ensures
        r@ =~= spec_ms(us as int),
{
    proof {
        reveal_strlit(".");
    }
    let mut s = fmt_u64(us / 1000);
    let hund = (us % 1000) / 10;
    s.append(".");
    s.append(digit_str(hund / 10));
    s.append(digit_str(hund % 10));
    s
}

/// Microseconds rendered as milliseconds with one decimal place,
/// truncated.
pub open spec fn spec_ms1(us: int) -> Seq<char>
    recommends
        us >= 0,
{
    spec_dec(us / 1000) + seq!['.', spec_digit((us % 1000) / 100)]
}

/// Renders a microsecond quantity as milliseconds with one decimal.
pub fn fmt_ms1(us: u64) -> (r: String)
    ensures
        r@ =~= spec_ms1(us as int),
{
    proof {
        reveal_strlit(".");
    }
    let mut s = fmt_u64(us / 1000);
    s.append(".");
    s.append(digit_str((us % 1000) / 100));
    s
}

/// `s` left-padded with spaces to width `w`.
pub open spec fn spec_pad_left(s: Seq<char>, w: int) -> Seq<char> {
    spec_repeat(
        seq![' '],
        if s.len() < w {
            w - s.len()
        } else {
            0
        },
    ) + s
}

/// Left-pads a string with spaces to width `w`.
pub fn pad_left(s: String, w: usize) -> (r: String)
    ensures
        r@ =~= spec_pad_left(s@, w as int),
{
    proof {
        reveal_strlit(" ");
        assert(" "@ =~= seq![' ']);
    }
    let n = s.as_str().unicode_len();
    let padn = if n < w {
        w - n
    } else {
        0
    };
    let mut out = repeat_str(" ", padn);
    out.append(s.as_str());
    out
}

/// `s` repeated `n` times.
pub fn repeat_str(s: &str, n: usize) -> (r: String)
    ensures
        r@ =~= spec_repeat(s@, n as int),
{
    let mut out = String::new();
    let mut i: usize = 0;
    while i < n
        invariant
            i <= n,
            out@ =~= spec_repeat(s@, i as int),
        decreases n - i,
    {
        out.append(s);
        i = i + 1;
    }
    out
}

/// One content row of the box: a border, a space, the line, padding out
/// to the interior width (none if the line is too long), a border.
pub open spec fn spec_box_line(line: Seq<char>, width: int) -> Seq<char> {
    seq!['\u{2551}', ' '] + line + spec_repeat(
        seq![' '],
        if line.len() + 3 <= width {
            width - line.len() - 3
        } else {
            0
        },
    ) + seq!['\u{2551}', '\n']
}

/// The content rows of the box, in order.
pub open spec fn spec_box_content(lines: Seq<Seq<char>>, width: int) -> Seq<char>
    decreases lines.len(),
{
    if lines.len() == 0 {
        Seq::empty()
    } else {
        spec_box_line(lines[0], width) + spec_box_content(lines.drop_first(), width)
    }
}

/// The whole box: a double-line top border, the centered title row and
/// a separator rule when a title is given, the content rows, and a
/// bottom border.
pub open spec fn spec_draw_box(title: Seq<char>, lines: Seq<Seq<char>>, width: int) -> Seq<char> {
    let top = seq!['\u{2554}'] + spec_repeat(seq!['\u{2550}'], width - 2) + seq!['\u{2557}', '\n'];
    let bottom = seq!['\u{255a}'] + spec_repeat(seq!['\u{2550}'], width - 2) + seq!['\u{255d}'];
    if title.len() == 0 {
        top + spec_box_content(lines, width) + bottom
    } else {
        let pad = (width - 4 - title.len()) / 2;
        let title_row = seq!['\u{2551}'] + spec_repeat(seq![' '], pad) + title + spec_repeat(
            seq![' '],
            width - 2 - pad - title.len(),
        ) + seq!['\u{2551}', '\n'];
        let sep = seq!['\u{2560}'] + spec_repeat(seq!['\u{2550}'], width - 2) + seq![
            '\u{2563}',
            '\n',
        ];
        top + title_row + sep + spec_box_content(lines, width) + bottom
    }
}

proof fn lemma_box_content_push(lines: Seq<Seq<char>>, line: Seq<char>, width: int)
    ensures
        spec_box_content(lines.push(line), width) =~= spec_box_content(lines, width)
            + spec_box_line(line, width),
    decreases lines.len(),
{
    let s = lines.push(line);
    assert(s.len() == lines.len() + 1);
    assert(s[0] == if lines.len() == 0 {
        line
    } else {
        lines[0]
    });
    assert(spec_box_content(s, width) == spec_box_line(s[0], width) + spec_box_content(
        s.drop_first(),
        width,
    ));
    if lines.len() == 0 {
        assert(s.drop_first() =~= Seq::<Seq<char>>::empty());
        assert(spec_box_content(s.drop_first(), width) == Seq::<char>::empty());
        assert(spec_box_content(lines, width) == Seq::<char>::empty());
    } else {
        assert(s.drop_first() =~= lines.drop_first().push(line));
        lemma_box_content_push(lines.drop_first(), line, width);
        assert(spec_box_content(lines, width) == spec_box_line(lines[0], width)
            + spec_box_content(lines.drop_first(), width));
    }
}

/// Draws a fixed-width box around the content lines, with the title
/// centered between double-line borders and a separator rule.
pub fn draw_box(title: &str, content: Vec<String>, width: usize) -> (r: String)
    requires
        width >= 4,
        title@.len() == 0 || title@.len() + 4 <= width,
    ensures
        r@ =~= spec_draw_box(title@, content.deep_view(), width as int),
{
    proof {
        reveal_strlit("\u{2554}");
        reveal_strlit("\u{2550}");
        reveal_strlit("\u{2557}\n");
        reveal_strlit("\u{2551}");
        reveal_strlit("\u{2551} ");
        reveal_strlit("\u{2551}\n");
        reveal_strlit("\u{2560}");
        reveal_strlit("\u{2563}\n");
        reveal_strlit("\u{255a}");
        reveal_strlit("\u{255d}");
        reveal_strlit(" ");
        assert("\u{2554}"@ =~= seq!['\u{2554}']);
        assert("\u{2550}"@ =~= seq!['\u{2550}']);
        assert("\u{2557}\n"@ =~= seq!['\u{2557}', '\n']);
        assert("\u{2551}"@ =~= seq!['\u{2551}']);
        assert("\u{2551} "@ =~= seq!['\u{2551}', ' ']);
        assert("\u{2551}\n"@ =~= seq!['\u{2551}', '\n']);
        assert("\u{2560}"@ =~= seq!['\u{2560}']);
        assert("\u{2563}\n"@ =~= seq!['\u{2563}', '\n']);
        assert("\u{255a}"@ =~= seq!['\u{255a}']);
        assert("\u{255d}"@ =~= seq!['\u{255d}']);
        assert(" "@ =~= seq![' ']);
    }
    let mut out = String::new();
    out.append("\u{2554}");
    let rule = repeat_str("\u{2550}", width - 2);
    out.append(rule.as_str());
    out.append("\u{2557}\n");
    let tl = title.unicode_len();
    if tl > 0 {
        let pad = (width - 4 - tl) / 2;
        proof {
            assert((width - 4 - tl) as int / 2 <= (width - 4 - tl) as int);
        }
        out.append("\u{2551}");
        let p1 = repeat_str(" ", pad);
        out.append(p1.as_str());
        out.append(title);
        let p2 = repeat_str(" ", width - 2 - pad - tl);
        out.append(p2.as_str());
        out.append("\u{2551}\n");
        out.append("\u{2560}");
        let rule2 = repeat_str("\u{2550}", width - 2);
        out.append(rule2.as_str());
        out.append("\u{2563}\n");
    }
    let ghost head = out@;
    let mut i: usize = 0;
    while i < content.len()
        invariant
            i <= content@.len(),
            width >= 4,
            out@ =~= head + spec_box_content(content.deep_view().take(i as int), width as int),
        decreases content@.len() - i,
    {
        proof {
            reveal_strlit("\u{2551} ");
            reveal_strlit("\u{2551}\n");
            reveal_strlit(" ");
            assert("\u{2551} "@ =~= seq!['\u{2551}', ' ']);
            assert("\u{2551}\n"@ =~= seq!['\u{2551}', '\n']);
            assert(" "@ =~= seq![' ']);
        }
        let line = &content[i];
        out.append("\u{2551} ");
        out.append(line.as_str());
        let ll = line.as_str().unicode_len();
        let padn = if ll <= width - 3 {
            width - ll - 3
        } else {
            0
        };
        let p = repeat_str(" ", padn);
        out.append(p.as_str());
        out.append("\u{2551}\n");
        proof {
            assert(content.deep_view().take(i + 1) =~= content.deep_view().take(i as int).push(
                content@[i as int]@,
            ));
            lemma_box_content_push(
                content.deep_view().take(i as int),
                content@[i as int]@,
                width as int,
            );
            assert(out@ =~= head + spec_box_content(
                content.deep_view().take(i + 1),
                width as int,
            ));
        }
        i = i + 1;
    }
    proof {
        assert(content.deep_view().take(content@.len() as int) =~= content.deep_view());
    }
    out.append("\u{255a}");
    let rule3 = repeat_str("\u{2550}", width - 2);
    out.append(rule3.as_str());
    out.append("\u{255d}");
    proof {
        assert(out@ =~= spec_draw_box(title@, content.deep_view(), width as int));
    }
    out
}

} // verus!

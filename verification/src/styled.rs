//! Styling of the detail text of the interactive browser.
use vstd::prelude::*;
use vstd::string::{StrSliceExecFns, StringExecFns};

verus! {

/// The position of the first `c` in `s` from `k` on.
pub open spec fn find_char_from(s: Seq<char>, c: char, k: int) -> Option<int>
    decreases s.len() - k,
{
    if k < 0 || k >= s.len() {
        None
    } else if s[k] == c {
        Some(k)
    } else {
        find_char_from(s, c, k + 1)
    }
}

/// A line without the carriage return that ends it, if one does.
pub open spec fn strip_cr(line: Seq<char>) -> Seq<char> {
    if line.len() > 0 && line.last() == '\r' { line.drop_last() } else { line }
}

/// The lines of a text, as `str::lines` splits it: at each `\n`, a
/// `\r` before it dropped, with no line after a final `\n`.
pub open spec fn lines_of(s: Seq<char>) -> Seq<Seq<char>>
    decreases s.len(),
{
    if s.len() == 0 {
        Seq::empty()
    } else {
        match find_char_from(s, '\n', 0) {
            None => seq![s],
            Some(j) => if 0 <= j < s.len() {
                seq![strip_cr(s.subrange(0, j))] + lines_of(s.subrange(j + 1, s.len() as int))
            } else {
                Seq::empty()
            },
        }
    }
}

/// The position of the first `: ` in a line.
pub open spec fn label_end(line: Seq<char>) -> Option<int> {
    if exists|k: int| 0 <= k && k + 1 < line.len() && line[k] == ':' && #[trigger] line[k + 1] == ' ' {
        Some(choose|k: int| 0 <= k && k + 1 < line.len() && line[k] == ':' && #[trigger] line[k + 1] == ' '
            && forall|q: int| 0 <= q < k ==> !(line[q] == ':' && #[trigger] line[q + 1] == ' '))
    } else {
        None
    }
}

/// Whether `needle` occurs in `hay`.
pub open spec fn occurs(hay: Seq<char>, needle: Seq<char>) -> bool {
    exists|k: int| 0 <= k && k + needle.len() <= hay.len() && #[trigger] hay.subrange(k, k + needle.len()) == needle
}

/// A line of detail text styled: the label before the first `: ` dim, and
/// the value after it red when it holds `<unavailable:`.
pub open spec fn colorize_line(line: Seq<char>) -> Seq<char> {
    match label_end(line) {
        None => line,
        Some(pos) => {
            let label = line.subrange(0, pos);
            let value = line.subrange(pos + 2, line.len() as int);
            if occurs(value, "<unavailable:"@) {
                "\x1b[2m"@ + label + "\x1b[0m: \x1b[31m"@ + value + "\x1b[0m"@
            } else {
                "\x1b[2m"@ + label + "\x1b[0m: "@ + value
            }
        },
    }
}

/// Styled lines joined by `\n`.
pub open spec fn colorized_lines(lines: Seq<Seq<char>>) -> Seq<char>
    decreases lines.len(),
{
    if lines.len() == 0 {
        Seq::empty()
    } else if lines.len() == 1 {
        colorize_line(lines[0])
    } else {
        colorized_lines(lines.drop_last()) + "\n"@ + colorize_line(lines.last())
    }
}

/// The characters of a text.
fn chars_of(s: &str) -> (r: Vec<char>)
    ensures
        r@ == s@,
{
    let n = s.unicode_len();
    let mut out: Vec<char> = Vec::new();
    let mut i: usize = 0;
    while i < n
        invariant
            n == s@.len(),
            i <= n,
            out@ == s@.subrange(0, i as int),
        decreases n - i,
    {
        out.push(s.get_char(i));
        proof {
            assert(out@ =~= s@.subrange(0, i + 1));
        }
        i = i + 1;
    }
    proof {
        assert(out@ =~= s@);
    }
    out
}

/// Whether `needle` occurs in `hay` at `k`.
fn matches_at(hay: &Vec<char>, needle: &Vec<char>, k: usize) -> (r: bool)
    requires
        k + needle@.len() <= hay@.len(),
    ensures
        r == (hay@.subrange(k as int, k + needle@.len()) == needle@),
{
    let n = hay.len();
    let mut j: usize = 0;
    while j < needle.len()
        invariant
            n == hay@.len(),
            k + needle@.len() <= hay@.len(),
            j <= needle@.len(),
            forall|q: int| 0 <= q < j ==> hay@[k + q] == needle@[q],
        decreases needle@.len() - j,
    {
        if hay[k + j] != needle[j] {
            proof {
                assert(hay@.subrange(k as int, k + needle@.len())[j as int] != needle@[j as int]);
            }
            return false;
        }
        j = j + 1;
    }
    proof {
        assert(hay@.subrange(k as int, k + needle@.len()) =~= needle@);
    }
    true
}

/// Whether `needle` occurs in `hay[lo..hi]`.
fn occurs_in(hay: &Vec<char>, lo: usize, hi: usize, needle: &Vec<char>) -> (r: bool)
    requires
        lo <= hi <= hay@.len(),
    ensures
        r == occurs(hay@.subrange(lo as int, hi as int), needle@),
{
    let ghost h = hay@.subrange(lo as int, hi as int);
    if needle.len() > hi - lo {
        return false;
    }
    let last = hi - needle.len();
    let mut k: usize = lo;
    while k < last
        invariant
            lo <= k <= last,
            last == hi - needle@.len(),
            hi <= hay@.len(),
            h == hay@.subrange(lo as int, hi as int),
            forall|q: int| 0 <= q < k - lo ==> #[trigger] h.subrange(q, q + needle@.len()) != needle@,
        decreases last - k,
    {
        let found = matches_at(hay, needle, k);
        proof {
            assert(h.subrange(k - lo, k - lo + needle@.len()) =~= hay@.subrange(k as int, k + needle@.len()));
        }
        if found {
            return true;
        }
        k = k + 1;
    }
    let found = matches_at(hay, needle, last);
    proof {
        assert(h.subrange(last - lo, last - lo + needle@.len()) =~= hay@.subrange(last as int, last + needle@.len()));
        if !found {
            assert forall|q: int| 0 <= q && q + needle@.len() <= h.len() implies #[trigger] h.subrange(q, q + needle@.len()) != needle@ by {
                assert(q <= last - lo);
            }
        }
    }
    found
}

/// The position of the first `: ` in `chars[lo..hi]`.
fn find_label_end(chars: &Vec<char>, lo: usize, hi: usize) -> (r: Option<usize>)
    requires
        lo <= hi <= chars@.len(),
    ensures
        ({
            let line = chars@.subrange(lo as int, hi as int);
            match r {
                Some(p) => lo <= p && p + 1 < hi && line[p - lo] == ':' && line[p - lo + 1] == ' '
                    && forall|q: int| 0 <= q < p - lo ==> !(line[q] == ':' && #[trigger] line[q + 1] == ' '),
                None => forall|q: int| 0 <= q && q + 1 < line.len() ==> !(line[q] == ':' && #[trigger] line[q + 1] == ' '),
            }
        }),
{
    let ghost line = chars@.subrange(lo as int, hi as int);
    let mut k: usize = lo;
    while k < hi
        invariant
            lo <= k <= hi,
            hi <= chars@.len(),
            line == chars@.subrange(lo as int, hi as int),
            forall|q: int| 0 <= q < k - lo && q + 1 < line.len() ==> !(line[q] == ':' && #[trigger] line[q + 1] == ' '),
        decreases hi - k,
    {
        if k + 1 < hi && chars[k] == ':' && chars[k + 1] == ' ' {
            return Some(k);
        }
        k = k + 1;
    }
    None
}

/// Appends the styled form of line `[lo, hi)` of `input`.
fn push_colorized_line(out: &mut String, input: &str, chars: &Vec<char>, lo: usize, hi: usize, marker: &Vec<char>)
    requires
        chars@ == input@,
        lo <= hi <= chars@.len(),
        marker@ == "<unavailable:"@,
    ensures
        final(out)@ == old(out)@ + colorize_line(input@.subrange(lo as int, hi as int)),
{
    let ghost line = input@.subrange(lo as int, hi as int);
    let found = find_label_end(chars, lo, hi);
    match found {
        None => {
            proof {
                assert(chars@.subrange(lo as int, hi as int) == line);
            }
            out.append(input.substring_char(lo, hi));
        },
        Some(pos) => {
            proof {
                let p = pos - lo;
                assert(line[p] == ':' && line[p + 1] == ' ');
                assert(label_end(line) == Some(p as int)) by {
                    let c = choose|q: int| 0 <= q && q + 1 < line.len() && line[q] == ':' && #[trigger] line[q + 1] == ' '
                        && forall|r: int| 0 <= r < q ==> !(line[r] == ':' && #[trigger] line[r + 1] == ' ');
                    if c < p {
                    } else if c > p {
                        assert(!(line[p] == ':' && line[p + 1] == ' '));
                    }
                }
            }
            let unavailable = occurs_in(chars, pos + 2, hi, marker);
            proof {
                assert(chars@.subrange(pos + 2, hi as int) =~= line.subrange(pos - lo + 2, line.len() as int));
                assert(input@.subrange(lo as int, pos as int) =~= line.subrange(0, pos - lo));
            }
            out.append("\x1b[2m");
            out.append(input.substring_char(lo, pos));
            if unavailable {
                out.append("\x1b[0m: \x1b[31m");
                out.append(input.substring_char(pos + 2, hi));
                out.append("\x1b[0m");
            } else {
                out.append("\x1b[0m: ");
                out.append(input.substring_char(pos + 2, hi));
            }
            proof {
                assert(out@ =~= old(out)@ + colorize_line(line));
            }
        },
    }
}

/// Styles detail text line by line: each label (the text before the
/// first `: `) dim, and each value holding `<unavailable:` red.
#[verifier::rlimit(50)]
pub fn colorize_detail(input: &str) -> (r: String)
    ensures
        r@ == colorized_lines(lines_of(input@)),
{
    let chars = chars_of(input);
    let marker = chars_of("<unavailable:");
    let n = chars.len();
    let mut out = String::new();
    let mut start: usize = 0;
    let mut first = true;
    let ghost mut done: Seq<Seq<char>> = Seq::empty();
    proof {
        assert(input@.subrange(0, n as int) =~= input@);
        assert(Seq::<Seq<char>>::empty() + lines_of(input@) =~= lines_of(input@));
    }
    while start < n
        invariant
            n == chars@.len(),
            chars@ == input@,
            marker@ == "<unavailable:"@,
            start <= n,
            first == (done.len() == 0),
            done + lines_of(input@.subrange(start as int, n as int)) == lines_of(input@),
            out@ == colorized_lines(done),
        decreases n - start,
    {
        let mut end = start;
        while end < n && chars[end] != '\n'
            invariant
                start <= end <= n,
                n == chars@.len(),
                forall|q: int| start <= q < end ==> chars@[q] != '\n',
            decreases n - end,
        {
            end = end + 1;
        }
        let line_end = if end < n && end > start && chars[end - 1] == '\r' { end - 1 } else { end };
        proof {
            lemma_lines_step(input@, start as int, end as int, line_end as int);
        }
        if !first {
            out.append("\n");
        }
        push_colorized_line(&mut out, input, &chars, start, line_end, &marker);
        proof {
            let line = input@.subrange(start as int, line_end as int);
            lemma_colorized_push(done, line);
            lemma_lines_regroup(done, line, lines_of(input@.subrange(if end < n { end + 1 } else { n as int }, n as int)));
            done = done.push(line);
        }
        first = false;
        start = if end < n { end + 1 } else { n };
    }
    proof {
        assert(input@.subrange(start as int, n as int) =~= Seq::<char>::empty());
        assert(done + Seq::<Seq<char>>::empty() =~= done);
    }
    out
}

/// Styling one more line appends it after a newline, unless it is the first.
proof fn lemma_colorized_push(done: Seq<Seq<char>>, line: Seq<char>)
    ensures
        colorized_lines(done.push(line)) == if done.len() == 0 {
            colorize_line(line)
        } else {
            colorized_lines(done) + "\n"@ + colorize_line(line)
        },
{
    assert(done.push(line).drop_last() =~= done);
}

/// Moving a line from the lines to come to the lines done.
proof fn lemma_lines_regroup(done: Seq<Seq<char>>, line: Seq<char>, rest: Seq<Seq<char>>)
    ensures
        done.push(line) + rest == done + (seq![line] + rest),
{
    assert(done.push(line) + rest =~= done + (seq![line] + rest));
}

/// The lines of `s[start..]`: the first ends at `end`, the first newline
/// (or the end of the text), without a carriage return before that newline.
proof fn lemma_lines_step(s: Seq<char>, start: int, end: int, line_end: int)
    requires
        0 <= start < end <= s.len() || (0 <= start == end < s.len()),
        forall|q: int| start <= q < end ==> s[q] != '\n',
        end < s.len() ==> s[end] == '\n',
        line_end == if end < s.len() && end > start && s[end - 1] == '\r' { end - 1 } else { end },
    ensures
        lines_of(s.subrange(start, s.len() as int)) == seq![s.subrange(start, line_end)]
            + lines_of(s.subrange(if end < s.len() { end + 1 } else { s.len() as int }, s.len() as int)),
{
    let rest = s.subrange(start, s.len() as int);
    lemma_find_newline(rest, end - start);
    if end < s.len() {
        assert(rest.subrange(0, end - start) =~= s.subrange(start, end));
        assert(strip_cr(s.subrange(start, end)) =~= s.subrange(start, line_end));
        assert(rest.subrange(end - start + 1, rest.len() as int) =~= s.subrange(end + 1, s.len() as int));
    } else {
        assert(rest =~= s.subrange(start, line_end));
        assert(s.subrange(s.len() as int, s.len() as int) =~= Seq::<char>::empty());
        assert(lines_of(Seq::<char>::empty()) == Seq::<Seq<char>>::empty());
        assert(seq![rest] + Seq::<Seq<char>>::empty() =~= seq![rest]);
    }
}

/// Where the first newline of a text stands, when its first `j` characters are no newlines.
proof fn lemma_find_newline(s: Seq<char>, j: int)
    requires
        0 <= j <= s.len(),
        forall|q: int| 0 <= q < j ==> s[q] != '\n',
        j < s.len() ==> s[j] == '\n',
    ensures
        j < s.len() ==> find_char_from(s, '\n', 0) == Some(j),
        j == s.len() ==> find_char_from(s, '\n', 0) is None,
{
    lemma_find_from(s, j, 0);
}

proof fn lemma_find_from(s: Seq<char>, j: int, k: int)
    requires
        0 <= k <= j <= s.len(),
        forall|q: int| 0 <= q < j ==> s[q] != '\n',
        j < s.len() ==> s[j] == '\n',
    ensures
        j < s.len() ==> find_char_from(s, '\n', k) == Some(j),
        j == s.len() ==> find_char_from(s, '\n', k) is None,
    decreases j - k,
{
    if k < j {
        lemma_find_from(s, j, k + 1);
    }
}

/// A foreground color of styled text.
#[derive(Clone, Copy, Debug, PartialEq, Eq, Structural)]
pub enum SpanColor {
    Cyan,
    Red,
    Green,
}

/// The style of a run of text: its foreground color, bold, dim.
#[derive(Clone, Copy, Debug, PartialEq, Eq, Structural)]
pub struct SpanStyle {
    pub fg: Option<SpanColor>,
    pub bold: bool,
    pub dim: bool,
}

/// A run of text in one style.
#[derive(Clone, Debug, PartialEq, Eq)]
pub struct StyledSpan {
    pub text: String,
    pub style: SpanStyle,
}

/// Styled text: lines of styled runs.
#[derive(Clone, Debug, PartialEq, Eq)]
pub struct StyledText {
    pub lines: Vec<Vec<StyledSpan>>,
}

/// The plain style.
pub open spec fn plain_style() -> SpanStyle {
    SpanStyle { fg: None, bold: false, dim: false }
}

/// The style after an SGR sequence with these parameters: `0` or nothing
/// resets; `1;36` is bold cyan, `31` red, `32` green (each on the plain
/// style); `2` adds dim; anything else leaves the style as it is.
pub open spec fn sgr_style(style: SpanStyle, params: Seq<char>) -> SpanStyle {
    if params == "0"@ || params == ""@ {
        plain_style()
    } else if params == "1;36"@ {
        SpanStyle { fg: Some(SpanColor::Cyan), bold: true, dim: false }
    } else if params == "2"@ {
        SpanStyle { dim: true, ..style }
    } else if params == "31"@ {
        SpanStyle { fg: Some(SpanColor::Red), bold: false, dim: false }
    } else if params == "32"@ {
        SpanStyle { fg: Some(SpanColor::Green), bold: false, dim: false }
    } else {
        style
    }
}

/// The runs of a line after closing the run in `buffer`, if it holds text.
pub open spec fn flush(spans: Seq<(Seq<char>, SpanStyle)>, buffer: Seq<char>, style: SpanStyle) -> Seq<(Seq<char>, SpanStyle)> {
    if buffer.len() > 0 { spans.push((buffer, style)) } else { spans }
}

/// The first escape or newline from `k` on.
pub open spec fn find_special(s: Seq<char>, k: int) -> Option<int>
    decreases s.len() - k,
{
    if k < 0 || k >= s.len() {
        None
    } else if s[k] == '\x1b' || s[k] == '\n' {
        Some(k)
    } else {
        find_special(s, k + 1)
    }
}

/// The first character from `k` on that ends a control sequence (`@` to `~`).
pub open spec fn find_final(s: Seq<char>, k: int) -> Option<int>
    decreases s.len() - k,
{
    if k < 0 || k >= s.len() {
        None
    } else if '@' <= s[k] <= '~' {
        Some(k)
    } else {
        find_final(s, k + 1)
    }
}

/// The lines of ANSI-styled text from `i` on, given the lines so far, the
/// runs of the current line, the text of the current run and its style.
/// Control sequences are dropped; SGR ones (ending in `m`) close the
/// current run and change the style; an escape that starts no control
/// sequence is kept as text.
pub open spec fn ansi_from(s: Seq<char>, i: int, lines: Seq<Seq<(Seq<char>, SpanStyle)>>, spans: Seq<(Seq<char>, SpanStyle)>,
    buffer: Seq<char>, style: SpanStyle) -> Seq<Seq<(Seq<char>, SpanStyle)>>
    decreases s.len() - i,
{
    if i < 0 || i > s.len() {
        lines
    } else {
        match find_special(s, i) {
            None => lines.push(flush(spans, buffer + s.subrange(i, s.len() as int), style)),
            Some(pos) => if pos < i || pos >= s.len() {
                lines
            } else {
                let text = buffer + s.subrange(i, pos);
                if s[pos] == '\n' {
                    ansi_from(s, pos + 1, lines.push(flush(spans, text, style)), Seq::empty(), Seq::empty(), style)
                } else if pos + 1 < s.len() && s[pos + 1] == '[' {
                    match find_final(s, pos + 2) {
                        Some(end) => if end < pos + 2 || end >= s.len() {
                            lines
                        } else if s[end] == 'm' {
                            ansi_from(s, end + 1, lines, flush(spans, text, style), Seq::empty(),
                                sgr_style(style, s.subrange(pos + 2, end)))
                        } else {
                            ansi_from(s, end + 1, lines, spans, text, style)
                        },
                        None => ansi_from(s, pos + 1, lines, spans, text.push('\x1b'), style),
                    }
                } else {
                    ansi_from(s, pos + 1, lines, spans, text.push('\x1b'), style)
                }
            },
        }
    }
}

/// The text of a line's runs, one after the other.
pub open spec fn line_text(line: Seq<(Seq<char>, SpanStyle)>) -> Seq<char>
    decreases line.len(),
{
    if line.len() == 0 { Seq::empty() } else { line[0].0 + line_text(line.skip(1)) }
}

/// The text of lines of runs, joined by newlines.
pub open spec fn join_lines(lines: Seq<Seq<(Seq<char>, SpanStyle)>>) -> Seq<char>
    decreases lines.len(),
{
    if lines.len() == 0 {
        Seq::empty()
    } else if lines.len() == 1 {
        line_text(lines[0])
    } else {
        line_text(lines[0]) + seq!['\n'] + join_lines(lines.skip(1))
    }
}

/// Whether every run of the lines is in the plain style.
pub open spec fn all_plain(lines: Seq<Seq<(Seq<char>, SpanStyle)>>) -> bool {
    forall|i: int, k: int| 0 <= i < lines.len() && 0 <= k < lines[i].len() ==> #[trigger] lines[i][k].1 == plain_style()
}

proof fn lemma_find_special(s: Seq<char>, k: int)
    requires
        0 <= k <= s.len(),
    ensures
        match find_special(s, k) {
            None => forall|j: int| k <= j < s.len() ==> #[trigger] s[j] != '\x1b' && s[j] != '\n',
            Some(p) => k <= p < s.len() && (s[p] == '\x1b' || s[p] == '\n')
                && forall|j: int| k <= j < p ==> #[trigger] s[j] != '\x1b' && s[j] != '\n',
        },
    decreases s.len() - k,
{
    if k < s.len() && !(s[k] == '\x1b' || s[k] == '\n') {
        lemma_find_special(s, k + 1);
    }
}

proof fn lemma_plain_from(s: Seq<char>, i: int, lines: Seq<Seq<(Seq<char>, SpanStyle)>>)
    requires
        0 <= i <= s.len(),
        forall|k: int| 0 <= k < s.len() ==> #[trigger] s[k] != '\x1b',
    ensures
        ({
            let out = ansi_from(s, i, lines, Seq::empty(), Seq::empty(), plain_style());
            &&& out.len() > lines.len()
            &&& out.subrange(0, lines.len() as int) == lines
            &&& join_lines(out.skip(lines.len() as int)) == s.subrange(i, s.len() as int)
            &&& forall|q: int, k: int| lines.len() <= q < out.len() && 0 <= k < out[q].len() ==> #[trigger] out[q][k].1 == plain_style()
        }),
    decreases s.len() - i,
{
    lemma_find_special(s, i);
    let e: Seq<char> = Seq::empty();
    let out = ansi_from(s, i, lines, Seq::empty(), Seq::empty(), plain_style());
    match find_special(s, i) {
        None => {
            let text = e + s.subrange(i, s.len() as int);
            assert(text =~= s.subrange(i, s.len() as int));
            let l = flush(Seq::empty(), text, plain_style());
            assert(out == lines.push(l));
            assert(out.skip(lines.len() as int) =~= seq![l]);
            assert(out.subrange(0, lines.len() as int) =~= lines);
            if text.len() > 0 {
                assert(l =~= seq![(text, plain_style())]);
                assert(line_text(l.skip(1)) == Seq::<char>::empty());
                assert(line_text(l) =~= text);
            } else {
                assert(line_text(l) =~= text);
            }
        },
        Some(p) => {
            assert(s[p] == '\n');
            let text = e + s.subrange(i, p);
            assert(text =~= s.subrange(i, p));
            let l = flush(Seq::empty(), text, plain_style());
            let lines2 = lines.push(l);
            lemma_plain_from(s, p + 1, lines2);
            assert(out == ansi_from(s, p + 1, lines2, Seq::empty(), Seq::empty(), plain_style()));
            assert(out.subrange(0, lines.len() as int) =~= lines) by {
                assert(out.subrange(0, lines2.len() as int) == lines2);
                assert forall|q: int| 0 <= q < lines.len() implies out[q] == lines[q] by {
                    assert(out.subrange(0, lines2.len() as int)[q] == lines2[q]);
                }
            }
            let tail = out.skip(lines.len() as int);
            assert(out[lines.len() as int] == l) by {
                assert(out.subrange(0, lines2.len() as int)[lines.len() as int] == lines2[lines.len() as int]);
            }
            assert(tail.skip(1) =~= out.skip(lines2.len() as int));
            assert(tail.len() >= 2);
            assert(line_text(l) =~= s.subrange(i, p)) by {
                if text.len() > 0 {
                    assert(l =~= seq![(text, plain_style())]);
                    assert(line_text(l.skip(1)) == Seq::<char>::empty());
                }
            }
            assert(join_lines(tail) == line_text(tail[0]) + seq!['\n'] + join_lines(tail.skip(1)));
            assert(s.subrange(i, s.len() as int) =~= s.subrange(i, p) + seq!['\n'] + s.subrange(p + 1, s.len() as int));
            assert forall|q: int, k: int| lines.len() <= q < out.len() && 0 <= k < out[q].len() implies #[trigger] out[q][k].1 == plain_style() by {
                if q == lines.len() {
                    if text.len() > 0 {
                        assert(l =~= seq![(text, plain_style())]);
                    }
                }
            }
        },
    }
}

/// Text without escape characters parses into its newline-separated
/// pieces, one line each, all in the plain style: joining the runs of each
/// line and the lines by newlines gives the text back.
pub proof fn lemma_plain_text_parses_to_lines(s: Seq<char>)
    requires
        forall|k: int| 0 <= k < s.len() ==> #[trigger] s[k] != '\x1b',
    ensures
        join_lines(ansi_from(s, 0, Seq::empty(), Seq::empty(), Seq::empty(), plain_style())) == s,
        all_plain(ansi_from(s, 0, Seq::empty(), Seq::empty(), Seq::empty(), plain_style())),
{
    lemma_plain_from(s, 0, Seq::empty());
    let out = ansi_from(s, 0, Seq::empty(), Seq::empty(), Seq::empty(), plain_style());
    assert(out.skip(0) =~= out);
    assert(s.subrange(0, s.len() as int) =~= s);
}

/// A run as plain values.
pub open spec fn span_view(span: StyledSpan) -> (Seq<char>, SpanStyle) {
    (span.text@, span.style)
}

/// The runs of a line as plain values.
pub open spec fn spans_view(spans: Seq<StyledSpan>) -> Seq<(Seq<char>, SpanStyle)> {
    Seq::new(spans.len(), |i: int| span_view(spans[i]))
}

/// Lines of runs as plain values.
pub open spec fn lines_view(lines: Seq<Vec<StyledSpan>>) -> Seq<Seq<(Seq<char>, SpanStyle)>> {
    Seq::new(lines.len(), |i: int| spans_view(lines[i]@))
}

/// The first escape or newline from `k` on.
fn find_special_exec(chars: &Vec<char>, k: usize) -> (r: Option<usize>)
    requires
        k <= chars@.len(),
    ensures
        match r {
            Some(p) => find_special(chars@, k as int) == Some(p as int) && k <= p < chars@.len(),
            None => find_special(chars@, k as int) is None,
        },
{
    let mut j = k;
    while j < chars.len()
        invariant
            k <= j <= chars@.len(),
            find_special(chars@, k as int) == find_special(chars@, j as int),
        decreases chars@.len() - j,
    {
        if chars[j] == '\x1b' || chars[j] == '\n' {
            return Some(j);
        }
        j = j + 1;
    }
    None
}

/// The first character from `k` on that ends a control sequence.
fn find_final_exec(chars: &Vec<char>, k: usize) -> (r: Option<usize>)
    requires
        k <= chars@.len(),
    ensures
        match r {
            Some(p) => find_final(chars@, k as int) == Some(p as int) && k <= p < chars@.len(),
            None => find_final(chars@, k as int) is None,
        },
{
    let mut j = k;
    while j < chars.len()
        invariant
            k <= j <= chars@.len(),
            find_final(chars@, k as int) == find_final(chars@, j as int),
        decreases chars@.len() - j,
    {
        if '@' <= chars[j] && chars[j] <= '~' {
            return Some(j);
        }
        j = j + 1;
    }
    None
}

/// Whether `chars[lo..hi]` is the text `t`.
fn range_is(chars: &Vec<char>, lo: usize, hi: usize, t: &str) -> (r: bool)
    requires
        lo <= hi <= chars@.len(),
    ensures
        r == (chars@.subrange(lo as int, hi as int) == t@),
{
    let tc = chars_of(t);
    if tc.len() != hi - lo {
        proof {
            assert(chars@.subrange(lo as int, hi as int).len() != t@.len());
        }
        return false;
    }
    let mut j: usize = 0;
    while j < tc.len()
        invariant
            lo <= hi <= chars@.len(),
            tc@ == t@,
            tc@.len() == hi - lo,
            j <= tc@.len(),
            forall|q: int| 0 <= q < j ==> chars@[lo + q] == tc@[q],
        decreases tc@.len() - j,
    {
        if chars[lo + j] != tc[j] {
            proof {
                assert(chars@.subrange(lo as int, hi as int)[j as int] != t@[j as int]);
            }
            return false;
        }
        j = j + 1;
    }
    proof {
        assert(chars@.subrange(lo as int, hi as int) =~= t@);
    }
    true
}

/// The style after an SGR sequence whose parameters are `chars[lo..hi]`.
pub fn apply_sgr(style: SpanStyle, chars: &Vec<char>, lo: usize, hi: usize) -> (r: SpanStyle)
    requires
        lo <= hi <= chars@.len(),
    ensures
        r == sgr_style(style, chars@.subrange(lo as int, hi as int)),
{
    if range_is(chars, lo, hi, "0") || range_is(chars, lo, hi, "") {
        SpanStyle { fg: None, bold: false, dim: false }
    } else if range_is(chars, lo, hi, "1;36") {
        SpanStyle { fg: Some(SpanColor::Cyan), bold: true, dim: false }
    } else if range_is(chars, lo, hi, "2") {
        SpanStyle { dim: true, ..style }
    } else if range_is(chars, lo, hi, "31") {
        SpanStyle { fg: Some(SpanColor::Red), bold: false, dim: false }
    } else if range_is(chars, lo, hi, "32") {
        SpanStyle { fg: Some(SpanColor::Green), bold: false, dim: false }
    } else {
        style
    }
}

/// Closes the current run, if it holds text.
fn push_span(spans: &mut Vec<StyledSpan>, buffer: &mut String, style: SpanStyle)
    ensures
        spans_view(final(spans)@) == flush(spans_view(old(spans)@), old(buffer)@, style),
        final(buffer)@ == Seq::<char>::empty(),
{
    let mut text = String::new();
    std::mem::swap(&mut text, buffer);
    let ghost before = spans@;
    if text.as_str().unicode_len() > 0 {
        spans.push(StyledSpan { text, style });
        proof {
            assert(spans_view(spans@) =~= spans_view(before).push((old(buffer)@, style)));
        }
    }
}

/// Reads ANSI-styled text into lines of styled runs. Only SGR sequences
/// change the style; other control sequences are dropped.
#[verifier::rlimit(60)]
pub fn parse_ansi(input: &str) -> (r: StyledText)
    ensures
        lines_view(r.lines@) == ansi_from(input@, 0, Seq::empty(), Seq::empty(), Seq::empty(), plain_style()),
{
    let chars = chars_of(input);
    let n = chars.len();
    let ghost s = input@;
    let mut lines: Vec<Vec<StyledSpan>> = Vec::new();
    let mut spans: Vec<StyledSpan> = Vec::new();
    let mut buffer = String::new();
    let mut style = SpanStyle { fg: None, bold: false, dim: false };
    let mut i: usize = 0;
    proof {
        assert(lines_view(lines@) =~= Seq::<Seq<(Seq<char>, SpanStyle)>>::empty());
        assert(spans_view(spans@) =~= Seq::<(Seq<char>, SpanStyle)>::empty());
    }
    loop
        invariant
            chars@ == s,
            s == input@,
            n == s.len(),
            i <= n,
            ansi_from(s, i as int, lines_view(lines@), spans_view(spans@), buffer@, style)
                == ansi_from(s, 0, Seq::empty(), Seq::empty(), Seq::empty(), plain_style()),
        decreases n - i,
    {
        let ghost before_lines = lines_view(lines@);
        let ghost before_spans = spans_view(spans@);
        let ghost before_buffer = buffer@;
        match find_special_exec(&chars, i) {
            None => {
                buffer.append(input.substring_char(i, n));
                push_span(&mut spans, &mut buffer, style);
                lines.push(spans);
                proof {
                    assert(lines_view(lines@) =~= before_lines.push(flush(before_spans, before_buffer + s.subrange(i as int, n as int), style)));
                }
                return StyledText { lines };
            },
            Some(pos) => {
                buffer.append(input.substring_char(i, pos));
                if chars[pos] == '\n' {
                    push_span(&mut spans, &mut buffer, style);
                    let mut line: Vec<StyledSpan> = Vec::new();
                    std::mem::swap(&mut line, &mut spans);
                    lines.push(line);
                    proof {
                        assert(lines_view(lines@) =~= before_lines.push(flush(before_spans, before_buffer + s.subrange(i as int, pos as int), style)));
                        assert(spans_view(spans@) =~= Seq::<(Seq<char>, SpanStyle)>::empty());
                    }
                    i = pos + 1;
                } else if pos + 1 < n && chars[pos + 1] == '[' {
                    match find_final_exec(&chars, pos + 2) {
                        Some(end) => {
                            if chars[end] == 'm' {
                                push_span(&mut spans, &mut buffer, style);
                                style = apply_sgr(style, &chars, pos + 2, end);
                            }
                            i = end + 1;
                        },
                        None => {
                            buffer.append("\x1b");
                            proof {
                                reveal_strlit("\x1b");
                                assert(buffer@ =~= (before_buffer + s.subrange(i as int, pos as int)).push('\x1b'));
                            }
                            i = pos + 1;
                        },
                    }
                } else {
                    buffer.append("\x1b");
                    proof {
                        reveal_strlit("\x1b");
                        assert(buffer@ =~= (before_buffer + s.subrange(i as int, pos as int)).push('\x1b'));
                    }
                    i = pos + 1;
                }
            },
        }
    }
}

} // verus!

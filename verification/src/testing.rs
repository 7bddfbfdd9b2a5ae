//! Helpers for testing rendered output: comparing screens and naming keys.
use vstd::prelude::*;
use crate::base::chars::{
    chars_to_string,
    parse_u8,
    parsed_u8,
    str_eq,
    str_to_chars,
    string_push,
    string_push_str,
    trim_end,
    trimmed_end,
};
use crate::event::KeyCode;

verus! {

/// A line without the carriage return that ended it, if one did.
pub open spec fn strip_cr(l: Seq<char>) -> Seq<char> {
    if l.len() > 0 && l.last() == '\r' {
        l.drop_last()
    } else {
        l
    }
}

/// The lines ended so far among the first `n` characters, and the text of
/// the line still open.
pub open spec fn lines_upto(s: Seq<char>, n: int) -> (Seq<Seq<char>>, Seq<char>)
    decreases n,
{
    if n <= 0 {
        (Seq::empty(), Seq::empty())
    } else {
        let (done, cur) = lines_upto(s, n - 1);
        if s[n - 1] == '\n' {
            (done.push(strip_cr(cur)), Seq::empty())
        } else {
            (done, cur.push(s[n - 1]))
        }
    }
}

/// The lines of a string, as `str::lines` gives them: split at line feeds,
/// a carriage return before a line feed removed, and no empty line after a
/// final line feed.
pub open spec fn text_lines(s: Seq<char>) -> Seq<Seq<char>> {
    let (done, cur) = lines_upto(s, s.len() as int);
    if cur.len() > 0 {
        done.push(cur)
    } else {
        done
    }
}

/// A string as Rust's `Debug` formatting shows it: quoted, with special
/// characters escaped.
pub uninterp spec fn debug_quoted(s: Seq<char>) -> Seq<char>;

/// The lines of a string, as `str::lines` gives them.
fn lines_of(s: &str) -> (r: Vec<String>)
    ensures
        views(r@) == text_lines(s@),
{
    let cs = str_to_chars(s);
    let mut done: Vec<String> = Vec::new();
    let mut cur: Vec<char> = Vec::new();
    let mut i: usize = 0;
    while i < cs.len()
        invariant
            i <= cs@.len(),
            cs@ == s@,
            views(done@) == lines_upto(s@, i as int).0,
            cur@ == lines_upto(s@, i as int).1,
        decreases cs@.len() - i,
    {
        let c = cs[i];
        if c == '\n' {
            let n = cur.len();
            let keep = if n > 0 && cur[n - 1] == '\r' { n - 1 } else { n };
            let line = chars_to_string(cur.as_slice().split_at(keep).0);
            proof {
                assert(cur@.take(keep as int) =~= strip_cr(cur@));
            }
            let ghost before = done@;
            done.push(line);
            assert(views(done@) =~= views(before).push(strip_cr(lines_upto(s@, i as int).1)));
            cur = Vec::new();
        } else {
            cur.push(c);
        }
        i = i + 1;
    }
    if cur.len() > 0 {
        let line = chars_to_string(cur.as_slice());
        let ghost before = done@;
        done.push(line);
        assert(views(done@) =~= views(before).push(cur@));
    }
    done
}

/// `format!("{:?}", s)` for a string slice; named `debug_quoted`.
#[verifier::external_body]
pub(crate) fn debug_str(s: &str) -> (r: String)
    ensures
        r@ == debug_quoted(s@),
{
    format!("{:?}", s)
}

/// The text of each string.
pub open spec fn views(v: Seq<String>) -> Seq<Seq<char>> {
    v.map_values(|l: String| l@)
}

/// The decimal digits of `n`.
pub open spec fn decimal(n: nat) -> Seq<char>
    decreases n,
{
    if n < 10 {
        seq![(n + 48) as char]
    } else {
        decimal(n / 10).push(((n % 10) + 48) as char)
    }
}

/// Append the decimal digits of `n`.
pub(crate) fn push_decimal(out: &mut String, n: usize)
    ensures
        final(out)@ == old(out)@ + decimal(n as nat),
    decreases n,
{
    if n >= 10 {
        push_decimal(out, n / 10);
    }
    let d = (n % 10) as u8;
    string_push(out, (d + 48) as char);
    proof {
        if n >= 10 {
            assert(old(out)@ + decimal(n as nat) =~= old(out)@ + decimal((n / 10) as nat) + seq![((n % 10) + 48) as char]);
        } else {
            assert(old(out)@ + decimal(n as nat) =~= old(out)@.push((n + 48) as char));
        }
    }
}

/// Row `i` of a screen, or the empty row past its end.
pub open spec fn row_or_empty(rows: Seq<Seq<char>>, i: int) -> Seq<char> {
    if 0 <= i < rows.len() {
        rows[i]
    } else {
        Seq::empty()
    }
}

/// The rows, among the first `n`, that differ between two screens.
pub open spec fn differing_rows(a: Seq<Seq<char>>, b: Seq<Seq<char>>, n: int) -> Seq<int>
    decreases n,
{
    if n <= 0 {
        Seq::empty()
    } else {
        let rest = differing_rows(a, b, n - 1);
        if row_or_empty(a, n - 1) != row_or_empty(b, n - 1) {
            rest.push(n - 1)
        } else {
            rest
        }
    }
}

/// The number of rows of the taller screen.
pub open spec fn rows_max(a: Seq<Seq<char>>, b: Seq<Seq<char>>) -> int {
    if a.len() > b.len() {
        a.len() as int
    } else {
        b.len() as int
    }
}

/// Row `i` of a screen, or `<missing>` past its end.
pub open spec fn row_or_missing(rows: Seq<Seq<char>>, i: int) -> Seq<char> {
    if 0 <= i < rows.len() {
        rows[i]
    } else {
        "<missing>"@
    }
}

/// The first column at which two rows differ, or the length of the shorter
/// one when one is a prefix of the other.
pub open spec fn first_difference(x: Seq<char>, y: Seq<char>, i: int) -> int
    decreases x.len() - i,
{
    if i >= x.len() || i >= y.len() || x[i] != y[i] {
        i
    } else {
        first_difference(x, y, i + 1)
    }
}

/// The report `frame_diff` gives for two screens (rows already without their
/// trailing whitespace), or `None` when no row differs.
pub open spec fn frame_report(a: Seq<Seq<char>>, b: Seq<Seq<char>>) -> Option<Seq<char>> {
    let diff = differing_rows(a, b, rows_max(a, b));
    if diff.len() == 0 {
        None
    } else {
        let first = diff[0];
        let got = row_or_missing(a, first);
        let want = row_or_missing(b, first);
        let column = first_difference(got, want, 0);
        Some(
            "rendered frame does not match\n"@ + (if a.len() != b.len() {
                "  height: rendered "@ + decimal(a.len()) + " rows, expected "@ + decimal(b.len())
                    + "\n"@
            } else {
                Seq::empty()
            }) + "  "@ + decimal(diff.len()) + " row(s) differ; first at row "@ + decimal(
                first as nat,
            ) + ", column "@ + decimal(column as nat) + "\n"@ + "    expected: "@ + debug_quoted(
                want,
            ) + "\n"@ + "    rendered: "@ + debug_quoted(got) + "\n"@ + "              "@
                + Seq::new((column + 1) as nat, |i: int| ' ') + "^\n"@,
        )
    }
}

/// The rows of a screen without their trailing whitespace.
pub open spec fn screen_rows(s: Seq<char>) -> Seq<Seq<char>> {
    text_lines(s).map_values(|l: Seq<char>| trimmed_end(l))
}

/// The rows of a screen, each without its trailing whitespace.
fn rows_of(s: &str) -> (r: Vec<String>)
    ensures
        views(r@) == screen_rows(s@),
{
    let lines = lines_of(s);
    let mut out: Vec<String> = Vec::new();
    let mut i: usize = 0;
    while i < lines.len()
        invariant
            i <= lines@.len(),
            views(lines@) == text_lines(s@),
            views(out@) == screen_rows(s@).take(i as int),
        decreases lines@.len() - i,
    {
        let t = trim_end(lines[i].as_str());
        let ghost prev = out@;
        out.push(t.to_owned());
        proof {
            assert(text_lines(s@)[i as int] == lines@[i as int]@);
            assert(views(out@) =~= prev.map_values(|l: String| l@).push(t@));
            assert(screen_rows(s@).take(i + 1) =~= screen_rows(s@).take(i as int).push(screen_rows(s@)[i as int]));
        }
        i = i + 1;
    }
    proof {
        assert(screen_rows(s@).take(i as int) =~= screen_rows(s@));
    }
    out
}

/// Compare a rendered frame against an expected screen.
///
/// Returns `None` when they match, or a report naming the first row that
/// differs and the column where it diverges. Trailing whitespace is ignored
/// on both sides, so an expected screen can be written without padding every
/// line out to the full width.
pub fn frame_diff(actual: &str, expected: &str) -> (r: Option<String>)
    ensures
        match frame_report(screen_rows(actual@), screen_rows(expected@)) {
            Some(rep) => r is Some && r->0@ == rep,
            None => r is None,
        },
{
    let a = rows_of(actual);
    let b = rows_of(expected);
    let differing = differing_indices(&a, &b);
    if differing.len() == 0 {
        return None;
    }
    let first = differing[0];
    let missing = "<missing>";
    let got: &str = if first < a.len() { a[first].as_str() } else { missing };
    let want: &str = if first < b.len() { b[first].as_str() } else { missing };
    let column = first_column(got, want);
    let report = diff_report(a.len(), b.len(), differing.len(), first, column, got, want);
    proof {
        let av = views(a@);
        let bv = views(b@);
        assert(got@ == row_or_missing(av, first as int));
        assert(want@ == row_or_missing(bv, first as int));
        let diff = differing_rows(av, bv, rows_max(av, bv));
        assert(differing@[0] as int == diff[0]);
        assert(av == screen_rows(actual@));
        assert(bv == screen_rows(expected@));
        assert(frame_report(av, bv) == Some(report@));
    }
    Some(report)
}

/// The rows that differ between two screens.
fn differing_indices(a: &Vec<String>, b: &Vec<String>) -> (r: Vec<usize>)
    ensures
        ({
            let av = views(a@);
            let bv = views(b@);
            &&& r@.len() == differing_rows(av, bv, rows_max(av, bv)).len()
            &&& forall|k: int| 0 <= k < r@.len() ==> r@[k] as int == #[trigger] differing_rows(av, bv, rows_max(av, bv))[k]
        }),
{
    let ghost av = views(a@);
    let ghost bv = views(b@);
    let n = if a.len() > b.len() { a.len() } else { b.len() };
    let mut differing: Vec<usize> = Vec::new();
    let mut i: usize = 0;
    while i < n
        invariant
            i <= n,
            av == views(a@),
            bv == views(b@),
            n == rows_max(av, bv),
            differing@.len() == differing_rows(av, bv, i as int).len(),
            forall|k: int| 0 <= k < differing@.len() ==> differing@[k] as int == #[trigger] differing_rows(av, bv, i as int)[k],
        decreases n - i,
    {
        let empty = "";
        let x: &str = if i < a.len() { a[i].as_str() } else { empty };
        let y: &str = if i < b.len() { b[i].as_str() } else { empty };
        proof {
            reveal_strlit("");
            assert(x@ == row_or_empty(av, i as int));
            assert(y@ == row_or_empty(bv, i as int));
        }
        if !str_eq(x, y) {
            differing.push(i);
        }
        i = i + 1;
    }
    differing
}

/// The first column at which two rows differ.
fn first_column(got: &str, want: &str) -> (r: usize)
    ensures
        r == first_difference(got@, want@, 0),
{
    let gc = str_to_chars(got);
    let wc = str_to_chars(want);
    let mut column: usize = 0;
    while column < gc.len() && column < wc.len() && gc[column] == wc[column]
        invariant
            column <= gc@.len(),
            column <= wc@.len(),
            gc@ == got@,
            wc@ == want@,
            first_difference(gc@, wc@, 0) == first_difference(gc@, wc@, column as int),
        decreases gc@.len() - column,
    {
        column = column + 1;
    }
    column
}

/// The text of a mismatch report.
fn diff_report(
    rendered_rows: usize,
    expected_rows: usize,
    count: usize,
    first: usize,
    column: usize,
    got: &str,
    want: &str,
) -> (r: String)
    ensures
        r@ == "rendered frame does not match\n"@ + (if rendered_rows != expected_rows {
            "  height: rendered "@ + decimal(rendered_rows as nat) + " rows, expected "@ + decimal(
                expected_rows as nat,
            ) + "\n"@
        } else {
            Seq::empty()
        }) + "  "@ + decimal(count as nat) + " row(s) differ; first at row "@ + decimal(first as nat)
            + ", column "@ + decimal(column as nat) + "\n"@ + "    expected: "@ + debug_quoted(want@)
            + "\n"@ + "    rendered: "@ + debug_quoted(got@) + "\n"@ + "              "@ + Seq::new(
            (column + 1) as nat,
            |i: int| ' ',
        ) + "^\n"@,
{
    let mut report = String::new();
    string_push_str(&mut report, "rendered frame does not match\n");
    if rendered_rows != expected_rows {
        string_push_str(&mut report, "  height: rendered ");
        push_decimal(&mut report, rendered_rows);
        string_push_str(&mut report, " rows, expected ");
        push_decimal(&mut report, expected_rows);
        string_push_str(&mut report, "\n");
    }
    string_push_str(&mut report, "  ");
    push_decimal(&mut report, count);
    string_push_str(&mut report, " row(s) differ; first at row ");
    push_decimal(&mut report, first);
    string_push_str(&mut report, ", column ");
    push_decimal(&mut report, column);
    string_push_str(&mut report, "\n");
    string_push_str(&mut report, "    expected: ");
    let wq = debug_str(want);
    string_push_str(&mut report, wq.as_str());
    string_push_str(&mut report, "\n");
    string_push_str(&mut report, "    rendered: ");
    let gq = debug_str(got);
    string_push_str(&mut report, gq.as_str());
    string_push_str(&mut report, "\n");
    string_push_str(&mut report, "              ");
    let ghost before_pad = report@;
    string_push(&mut report, ' ');
    let mut p: usize = 0;
    while p < column
        invariant
            p <= column,
            report@ == before_pad + Seq::new((p + 1) as nat, |i: int| ' '),
        decreases column - p,
    {
        string_push(&mut report, ' ');
        assert(before_pad + Seq::new((p + 2) as nat, |i: int| ' ') =~= (before_pad + Seq::new((p + 1) as nat, |i: int| ' ')).push(' '));
        p = p + 1;
    }
    string_push_str(&mut report, "^\n");
    report
}

/// The key a name in a test script stands for.
pub open spec fn key_named(name: Seq<char>) -> Option<KeyCode> {
    if name == "Up"@ {
        Some(KeyCode::Up)
    } else if name == "Down"@ {
        Some(KeyCode::Down)
    } else if name == "Left"@ {
        Some(KeyCode::Left)
    } else if name == "Right"@ {
        Some(KeyCode::Right)
    } else if name == "Enter"@ {
        Some(KeyCode::Enter)
    } else if name == "Esc"@ {
        Some(KeyCode::Esc)
    } else if name == "Tab"@ {
        Some(KeyCode::Tab)
    } else if name == "BackTab"@ {
        Some(KeyCode::BackTab)
    } else if name == "Backspace"@ {
        Some(KeyCode::Backspace)
    } else if name == "Delete"@ {
        Some(KeyCode::Delete)
    } else if name == "Home"@ {
        Some(KeyCode::Home)
    } else if name == "End"@ {
        Some(KeyCode::End)
    } else if name == "PageUp"@ {
        Some(KeyCode::PageUp)
    } else if name == "PageDown"@ {
        Some(KeyCode::PageDown)
    } else if name == "Insert"@ {
        Some(KeyCode::Insert)
    } else if name == "Space"@ {
        Some(KeyCode::Char(' '))
    } else if name.len() > 0 && name[0] == 'F' && (parsed_u8(name.drop_first()) matches Some(n) && 1
        <= n <= 12) {
        Some(KeyCode::F(parsed_u8(name.drop_first())->0))
    } else if name.len() == 1 {
        Some(KeyCode::Char(name[0]))
    } else {
        None
    }
}

/// Parse a key name used in test scripts.
///
/// Named keys are `Up`, `Down`, `Left`, `Right`, `Enter`, `Esc`, `Tab`,
/// `BackTab`, `Backspace`, `Delete`, `Home`, `End`, `PageUp`, `PageDown`,
/// `Insert` and `Space`. Function keys are `F1`–`F12`. Any single character
/// is itself, so `a`, `+` and `q` all work.
pub fn parse_key(name: &str) -> (r: Option<KeyCode>)
    ensures
        r == key_named(name@),
{
    if str_eq(name, "Up") {
        return Some(KeyCode::Up);
    }
    if str_eq(name, "Down") {
        return Some(KeyCode::Down);
    }
    if str_eq(name, "Left") {
        return Some(KeyCode::Left);
    }
    if str_eq(name, "Right") {
        return Some(KeyCode::Right);
    }
    if str_eq(name, "Enter") {
        return Some(KeyCode::Enter);
    }
    if str_eq(name, "Esc") {
        return Some(KeyCode::Esc);
    }
    if str_eq(name, "Tab") {
        return Some(KeyCode::Tab);
    }
    if str_eq(name, "BackTab") {
        return Some(KeyCode::BackTab);
    }
    if str_eq(name, "Backspace") {
        return Some(KeyCode::Backspace);
    }
    if str_eq(name, "Delete") {
        return Some(KeyCode::Delete);
    }
    if str_eq(name, "Home") {
        return Some(KeyCode::Home);
    }
    if str_eq(name, "End") {
        return Some(KeyCode::End);
    }
    if str_eq(name, "PageUp") {
        return Some(KeyCode::PageUp);
    }
    if str_eq(name, "PageDown") {
        return Some(KeyCode::PageDown);
    }
    if str_eq(name, "Insert") {
        return Some(KeyCode::Insert);
    }
    if str_eq(name, "Space") {
        return Some(KeyCode::Char(' '));
    }
    let cs = str_to_chars(name);
    if cs.len() > 0 && cs[0] == 'F' {
        let digits = chars_to_string(cs.as_slice().split_at(1).1);
        proof {
            assert(cs@.skip(1) =~= cs@.drop_first());
        }
        match parse_u8(digits.as_str()) {
            Some(n) => {
                if 1 <= n && n <= 12 {
                    return Some(KeyCode::F(n));
                }
            },
            None => {},
        }
    }
    if cs.len() == 1 {
        Some(KeyCode::Char(cs[0]))
    } else {
        None
    }
}

} // verus!

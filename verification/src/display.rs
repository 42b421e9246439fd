//! What a listing shows of a text: pages of lines, and entries picked by the
//! script of their preview.

use vstd::prelude::*;
use crate::search::{kind_name, kind_text};
use crate::shadow_tree::{JsonTreeNode, NodeKind, NodeView, views};
use crate::text::{
    chars_of, decimal, digit, extend_str, push_decimal, same_chars, string_of, trim_chars, trimmed,
};

verus! {

/// A line without the carriage return that it may end with.
pub open spec fn without_return(line: Seq<char>) -> Seq<char> {
    if line.len() > 0 && line.last() == '\r' {
        line.drop_last()
    } else {
        line
    }
}

/// The lines of a text from the line that begins at `start` on, where the
/// characters from `start` up to `at` hold no line feed. A line ends with a
/// line feed, or with a carriage return and a line feed, neither of which
/// belongs to it; the last line may end with the text. A text that ends with
/// a line feed has no empty line after it.
pub open spec fn lines_between(s: Seq<char>, start: int, at: int) -> Seq<Seq<char>>
    decreases s.len() - at,
{
    if at < 0 || at >= s.len() {
        if 0 <= start < s.len() {
            seq![s.subrange(start, s.len() as int)]
        } else {
            Seq::empty()
        }
    } else if s[at] == '\n' {
        seq![without_return(s.subrange(start, at))] + lines_between(s, at + 1, at + 1)
    } else {
        lines_between(s, start, at + 1)
    }
}

/// The lines of a text.
pub open spec fn lines_of(s: Seq<char>) -> Seq<Seq<char>> {
    lines_between(s, 0, 0)
}

/// Lines put together with a line feed between one and the next.
pub open spec fn join_lines(lines: Seq<Seq<char>>) -> Seq<char>
    decreases lines.len(),
{
    if lines.len() == 0 {
        Seq::empty()
    } else if lines.len() == 1 {
        lines[0]
    } else {
        join_lines(lines.drop_last()) + seq!['\n'] + lines.last()
    }
}

/// The number of pages that `count` lines fill with `per_page` lines on a
/// page: at least one.
pub open spec fn page_count(count: nat, per_page: nat) -> nat {
    if count == 0 {
        1
    } else {
        ((count - 1) / per_page as int + 1) as nat
    }
}

/// The lines on a page, counted from one: none if there is no such page.
pub open spec fn page_lines(lines: Seq<Seq<char>>, page: nat, per_page: nat) -> Seq<Seq<char>> {
    if page < 1 || page > page_count(lines.len(), per_page) {
        Seq::empty()
    } else {
        let start = (page - 1) * per_page;
        let end = if start + per_page < lines.len() {
            start + per_page
        } else {
            lines.len() as int
        };
        lines.subrange(start, end)
    }
}

/// The lines of a text.
pub fn split_lines(text: &Vec<char>) -> (lines: Vec<Vec<char>>)
    ensures
        lines@.map_values(|l: Vec<char>| l@) == lines_of(text@),
{
    let mut lines: Vec<Vec<char>> = Vec::new();
    let mut from: usize = 0;
    while from < text.len()
        invariant
            from <= text.len(),
            lines_of(text@) == lines@.map_values(|l: Vec<char>| l@) + lines_between(
                text@,
                from as int,
                from as int,
            ),
        decreases text.len() - from,
    {
        let mut end: usize = from;
        while end < text.len() && text[end] != '\n'
            invariant
                from <= end <= text.len(),
                lines_between(text@, from as int, from as int) == lines_between(
                    text@,
                    from as int,
                    end as int,
                ),
            decreases text.len() - end,
        {
            end = end + 1;
        }
        let terminated = end < text.len();
        let stop: usize = if terminated && end > from && text[end - 1] == '\r' {
            end - 1
        } else {
            end
        };
        let mut line: Vec<char> = Vec::new();
        let mut k: usize = from;
        while k < stop
            invariant
                from <= k <= stop <= text.len(),
                line@ == text@.subrange(from as int, k as int),
            decreases stop - k,
        {
            line.push(text[k]);
            assert(line@ =~= text@.subrange(from as int, k + 1));
            k = k + 1;
        }
        proof {
            let whole = text@.subrange(from as int, end as int);
            if terminated {
                if end > from {
                    assert(whole.last() == text@[end - 1]);
                }
                assert(line@ =~= without_return(whole));
            } else {
                assert(line@ =~= whole);
            }
        }
        let ghost before = lines@.map_values(|l: Vec<char>| l@);
        lines.push(line);
        assert(lines@.map_values(|l: Vec<char>| l@) =~= before.push(line@));
        if terminated {
            from = end + 1;
        } else {
            from = end;
        }
    }
    assert(lines_between(text@, from as int, from as int) =~= Seq::<Seq<char>>::empty());
    lines
}

/// One page of a text, and the number of pages that the text fills.
///
/// The pages are counted from one. A page that the text does not have is
/// empty.
pub fn paginate_text(text: &str, page: usize, lines_per_page: usize) -> (r: (String, usize))
    requires
        lines_per_page > 0,
    ensures
        r.1 == page_count(lines_of(text@).len(), lines_per_page as nat),
        r.0@ == join_lines(page_lines(lines_of(text@), page as nat, lines_per_page as nat)),
{
    let chars = chars_of(text);
    let lines = split_lines(&chars);
    let total = lines.len();
    let ghost all = lines_of(text@);
    assert(all.len() == total);
    let pages: usize = if total == 0 {
        1
    } else {
        (total - 1) / lines_per_page + 1
    };
    if page < 1 || page > pages || total == 0 {
        proof {
            let shown = page_lines(all, page as nat, lines_per_page as nat);
            if 1 <= page <= pages {
                assert(page == 1);
                assert((page - 1) * lines_per_page == 0);
            }
            assert(shown =~= Seq::<Seq<char>>::empty());
        }
        return (String::new(), pages);
    }
    assert((page - 1) * lines_per_page <= total - 1) by (nonlinear_arith)
        requires
            1 <= page <= pages,
            total > 0,
            lines_per_page > 0,
            pages == (total - 1) / (lines_per_page as int) + 1,
    ;
    let start: usize = (page - 1) * lines_per_page;
    let end: usize = if lines_per_page < total - start {
        start + lines_per_page
    } else {
        total
    };
    let ghost shown = all.subrange(start as int, end as int);
    let mut out: Vec<char> = Vec::new();
    let mut k: usize = start;
    while k < end
        invariant
            start <= k <= end <= lines.len(),
            all == lines@.map_values(|l: Vec<char>| l@),
            out@ == join_lines(all.subrange(start as int, k as int)),
        decreases end - k,
    {
        proof {
            let next = all.subrange(start as int, k + 1);
            assert(next.drop_last() =~= all.subrange(start as int, k as int));
            assert(next.last() == lines@[k as int]@);
        }
        if k > start {
            out.push('\n');
        }
        let mut j: usize = 0;
        let ghost base = out@;
        while j < lines[k].len()
            invariant
                k < lines.len(),
                j <= lines@[k as int].len(),
                out@ == base + lines@[k as int]@.take(j as int),
            decreases lines@[k as int].len() - j,
        {
            out.push(lines[k][j]);
            assert(out@ =~= base + lines@[k as int]@.take(j + 1));
            j = j + 1;
        }
        assert(lines@[k as int]@.take(lines@[k as int].len() as int) =~= lines@[k as int]@);
        assert(out@ =~= join_lines(all.subrange(start as int, k + 1)));
        k = k + 1;
    }
    (string_of(&out), pages)
}

/// Whether a character is a Chinese character: one of the unified
/// ideographs, of their extension A, or of the compatibility ideographs.
pub open spec fn is_chinese(c: char) -> bool {
    ('\u{4e00}' <= c && c <= '\u{9fff}') || ('\u{3400}' <= c && c <= '\u{4dbf}') || ('\u{f900}'
        <= c && c <= '\u{faff}')
}

/// Whether a character is a letter of the English alphabet.
pub open spec fn is_english(c: char) -> bool {
    ('a' <= c && c <= 'z') || ('A' <= c && c <= 'Z')
}

/// Whether a character is a Chinese character.
pub fn is_chinese_char(c: char) -> (b: bool)
    ensures
        b == is_chinese(c),
{
    ('\u{4e00}' <= c && c <= '\u{9fff}') || ('\u{3400}' <= c && c <= '\u{4dbf}') || ('\u{f900}'
        <= c && c <= '\u{faff}')
}

/// Whether a character is a letter of the English alphabet.
pub fn is_english_char(c: char) -> (b: bool)
    ensures
        b == is_english(c),
{
    ('a' <= c && c <= 'z') || ('A' <= c && c <= 'Z')
}

/// Whether a text passes a filter by script. The filter `chinese` passes a
/// text with a Chinese character and no English letter, the filter `english`
/// a text with an English letter and no Chinese character, and any other
/// filter every text.
pub open spec fn passes_script(text: Seq<char>, filter: Seq<char>) -> bool {
    let chinese = exists|i: int| 0 <= i < text.len() && is_chinese(#[trigger] text[i]);
    let english = exists|i: int| 0 <= i < text.len() && is_english(#[trigger] text[i]);
    if filter == "chinese"@ {
        chinese && !english
    } else if filter == "english"@ {
        english && !chinese
    } else {
        true
    }
}

/// Whether a text passes a filter by script.
pub fn matches_char_filter(text: &str, filter: &str) -> (b: bool)
    ensures
        b == passes_script(text@, filter@),
{
    let chars = chars_of(text);
    let mut chinese = false;
    let mut english = false;
    let mut i: usize = 0;
    while i < chars.len()
        invariant
            i <= chars.len(),
            chinese == exists|j: int| 0 <= j < i && is_chinese(#[trigger] chars@[j]),
            english == exists|j: int| 0 <= j < i && is_english(#[trigger] chars@[j]),
        decreases chars.len() - i,
    {
        if is_chinese_char(chars[i]) {
            chinese = true;
        }
        if is_english_char(chars[i]) {
            english = true;
        }
        i = i + 1;
    }
    let wanted = chars_of(filter);
    let for_chinese = chars_of("chinese");
    let for_english = chars_of("english");
    if same_chars(&wanted, &for_chinese) {
        chinese && !english
    } else if same_chars(&wanted, &for_english) {
        english && !chinese
    } else {
        true
    }
}

/// A text without the double quotes at its start and at its end.
pub open spec fn unquoted(s: Seq<char>) -> Seq<char> {
    strip_quotes_end(strip_quotes_start(s))
}

/// A text without the double quotes at its start.
pub open spec fn strip_quotes_start(s: Seq<char>) -> Seq<char>
    decreases s.len(),
{
    if s.len() > 0 && s[0] == '"' {
        strip_quotes_start(s.drop_first())
    } else {
        s
    }
}

/// A text without the double quotes at its end.
pub open spec fn strip_quotes_end(s: Seq<char>) -> Seq<char>
    decreases s.len(),
{
    if s.len() > 0 && s.last() == '"' {
        strip_quotes_end(s.drop_last())
    } else {
        s
    }
}

/// Whether the preview of a value of the named kind shows an empty value:
/// null always; a string if nothing but white space stands between its
/// quotes; an array if its preview is `[]`; an object if its preview is
/// `{}`.
pub open spec fn shows_empty(preview: Seq<char>, kind: Seq<char>) -> bool {
    if kind == "Null"@ {
        true
    } else if kind == "String"@ {
        trimmed(unquoted(preview)).len() == 0
    } else if kind == "Array"@ {
        trimmed(preview) == seq!['[', ']']
    } else if kind == "Object"@ {
        trimmed(preview) == seq!['{', '}']
    } else {
        false
    }
}

fn unquote(s: &Vec<char>) -> (r: Vec<char>)
    ensures
        r@ == unquoted(s@),
{
    let mut start: usize = 0;
    assert(s@.skip(0) =~= s@);
    while start < s.len() && s[start] == '"'
        invariant
            start <= s.len(),
            strip_quotes_start(s@) == strip_quotes_start(s@.skip(start as int)),
        decreases s.len() - start,
    {
        proof {
            let rest = s@.skip(start as int);
            assert(rest[0] == s@[start as int]);
            assert(rest.drop_first() =~= s@.skip(start + 1));
        }
        start = start + 1;
    }
    proof {
        let rest = s@.skip(start as int);
        if start < s.len() {
            assert(rest[0] == s@[start as int]);
        }
        assert(strip_quotes_start(s@) == rest);
    }
    let mut end: usize = s.len();
    while end > start && s[end - 1] == '"'
        invariant
            start <= end <= s.len(),
            unquoted(s@) == strip_quotes_end(s@.subrange(start as int, end as int)),
        decreases end - start,
    {
        proof {
            let part = s@.subrange(start as int, end as int);
            assert(part.last() == s@[end - 1]);
            assert(part.drop_last() =~= s@.subrange(start as int, end - 1));
        }
        end = end - 1;
    }
    proof {
        let part = s@.subrange(start as int, end as int);
        if end > start {
            assert(part.last() == s@[end - 1]);
        }
        assert(unquoted(s@) == part);
    }
    let mut r: Vec<char> = Vec::new();
    let mut k: usize = start;
    while k < end
        invariant
            start <= k <= end <= s.len(),
            r@ == s@.subrange(start as int, k as int),
        decreases end - k,
    {
        r.push(s[k]);
        assert(r@ =~= s@.subrange(start as int, k + 1));
        k = k + 1;
    }
    r
}

/// Whether the preview of a value of the named kind shows an empty value.
pub fn is_empty_value(preview: &str, kind: &str) -> (b: bool)
    ensures
        b == shows_empty(preview@, kind@),
{
    let shown = chars_of(preview);
    let named = chars_of(kind);
    let null = chars_of("Null");
    let string = chars_of("String");
    let array = chars_of("Array");
    let object = chars_of("Object");
    if same_chars(&named, &null) {
        true
    } else if same_chars(&named, &string) {
        let inner = unquote(&shown);
        trim_chars(&inner).len() == 0
    } else if same_chars(&named, &array) {
        let t = trim_chars(&shown);
        let empty = vec!['[', ']'];
        assert(empty@ =~= seq!['[', ']']);
        same_chars(&t, &empty)
    } else if same_chars(&named, &object) {
        let t = trim_chars(&shown);
        let empty = vec!['{', '}'];
        assert(empty@ =~= seq!['{', '}']);
        same_chars(&t, &empty)
    } else {
        false
    }
}

/// One row of the tree as it is displayed.
#[derive(Debug, Clone)]
pub struct TreeRow {
    /// The name of the entry.
    pub name: String,
    /// The address of the entry.
    pub path: String,
    /// The kind of the entry.
    pub kind: NodeKind,
    /// The number of immediate members of the entry.
    pub children: usize,
    /// The preview of the entry.
    pub preview: String,
    /// The indentation of the row.
    pub depth: usize,
    /// Whether the members of the entry are shown.
    pub expanded: bool,
}

/// The mathematical content of a row.
pub struct RowView {
    pub name: Seq<char>,
    pub path: Seq<char>,
    pub kind: NodeKind,
    pub children: nat,
    pub preview: Seq<char>,
    pub depth: nat,
    pub expanded: bool,
}

impl View for TreeRow {
    type V = RowView;

    open spec fn view(&self) -> RowView {
        RowView {
            name: self.name@,
            path: self.path@,
            kind: self.kind,
            children: self.children as nat,
            preview: self.preview@,
            depth: self.depth as nat,
            expanded: self.expanded,
        }
    }
}

/// Whether an entry gets a row: it is shown, its preview passes the filter
/// by script, and, where empty values are hidden, it does not show one.
pub open spec fn gets_row(n: NodeView, script: Seq<char>, hide_empty: bool) -> bool {
    n.visible && passes_script(n.preview, script) && !(hide_empty && shows_empty(
        n.preview,
        kind_name(n.kind),
    ))
}

/// The row of an entry: the entry itself, at depth zero where the tree is
/// flattened.
pub open spec fn row_of(n: NodeView, flatten: bool) -> RowView {
    RowView {
        name: n.name,
        path: n.path,
        kind: n.kind,
        children: n.children,
        preview: n.preview,
        depth: if flatten {
            0
        } else {
            n.depth
        },
        expanded: n.expanded,
    }
}

/// The rows of the first `upto` entries of an index, in the order of the
/// index.
pub open spec fn rows_of(
    nodes: Seq<NodeView>,
    script: Seq<char>,
    hide_empty: bool,
    flatten: bool,
    upto: int,
) -> Seq<RowView>
    decreases upto,
{
    if upto <= 0 {
        Seq::empty()
    } else if gets_row(nodes[upto - 1], script, hide_empty) {
        rows_of(nodes, script, hide_empty, flatten, upto - 1).push(row_of(nodes[upto - 1], flatten))
    } else {
        rows_of(nodes, script, hide_empty, flatten, upto - 1)
    }
}

/// The rows of a list of rows, as mathematical contents.
pub open spec fn row_views(rows: Seq<TreeRow>) -> Seq<RowView> {
    rows.map_values(|r: TreeRow| r@)
}

/// The rows that the tree displays: one for each shown entry whose preview
/// passes the filter by script and, where empty values are hidden, shows
/// none; all at depth zero where the tree is flattened.
pub fn display_rows(
    nodes: &Vec<JsonTreeNode>,
    char_filter: &str,
    hide_empty: bool,
    flatten_mode: bool,
) -> (rows: Vec<TreeRow>)
    ensures
        row_views(rows@) == rows_of(
            views(nodes@),
            char_filter@,
            hide_empty,
            flatten_mode,
            nodes.len() as int,
        ),
{
    let mut rows: Vec<TreeRow> = Vec::new();
    let mut i: usize = 0;
    while i < nodes.len()
        invariant
            i <= nodes.len(),
            row_views(rows@) == rows_of(
                views(nodes@),
                char_filter@,
                hide_empty,
                flatten_mode,
                i as int,
            ),
        decreases nodes.len() - i,
    {
        let node = &nodes[i];
        assert(views(nodes@)[i as int] == node@);
        let shown = node.visible && matches_char_filter(node.preview.as_str(), char_filter) && !(
        hide_empty && is_empty_value(node.preview.as_str(), kind_text(node.kind)));
        if shown {
            let ghost before = row_views(rows@);
            let row = TreeRow {
                name: node.name.clone(),
                path: node.path.clone(),
                kind: node.kind,
                children: node.children,
                preview: node.preview.clone(),
                depth: if flatten_mode {
                    0
                } else {
                    node.depth
                },
                expanded: node.expanded,
            };
            rows.push(row);
            assert(row_views(rows@) =~= before.push(row_of(node@, flatten_mode)));
        }
        i = i + 1;
    }
    rows
}

/// The time of day of a moment given in milliseconds, as hours, minutes,
/// seconds and milliseconds.
pub open spec fn time_of_day(millis: nat) -> (nat, nat, nat, nat) {
    let of_day = millis % 86_400_000;
    let seconds = of_day / 1000;
    (seconds / 3600, (seconds % 3600) / 60, seconds % 60, of_day % 1000)
}

/// A number below one hundred in two digits.
pub open spec fn two_digits(n: nat) -> Seq<char> {
    seq![digit(n / 10 % 10), digit(n % 10)]
}

/// A number below one thousand in three digits.
pub open spec fn three_digits(n: nat) -> Seq<char> {
    seq![digit(n / 100 % 10), digit(n / 10 % 10), digit(n % 10)]
}

/// The stamp that a line of the log bears: the time of day as
/// `hh:mm:ss.mmm`.
pub open spec fn stamp_of(millis: nat) -> Seq<char> {
    let t = time_of_day(millis);
    two_digits(t.0) + seq![':'] + two_digits(t.1) + seq![':'] + two_digits(t.2) + seq!['.']
        + three_digits(t.3)
}

fn push_digit(out: &mut Vec<char>, d: u64)
    requires
        d < 10,
    ensures
        final(out)@ == old(out)@.push(digit(d as nat)),
{
    let ghost before = out@;
    push_decimal(out, d);
    assert(decimal(d as nat) =~= seq![digit(d as nat)]);
    assert(out@ =~= before.push(digit(d as nat)));
}

/// The log with one more line: the message, with the time of day of the
/// moment `millis` before it in square brackets.
pub fn log_line(current_log: &str, millis: u64, message: &str) -> (log: String)
    ensures
        log@ == if current_log@.len() == 0 {
            seq!['['] + stamp_of(millis as nat) + seq![']', ' '] + message@
        } else {
            current_log@ + seq!['\n', '['] + stamp_of(millis as nat) + seq![']', ' '] + message@
        },
{
    let of_day = millis % 86_400_000;
    let seconds = of_day / 1000;
    let hours = seconds / 3600;
    let minutes = (seconds % 3600) / 60;
    let secs = seconds % 60;
    let ms = of_day % 1000;
    let mut out = chars_of(current_log);
    if out.len() > 0 {
        out.push('\n');
    }
    out.push('[');
    push_digit(&mut out, hours / 10 % 10);
    push_digit(&mut out, hours % 10);
    out.push(':');
    push_digit(&mut out, minutes / 10 % 10);
    push_digit(&mut out, minutes % 10);
    out.push(':');
    push_digit(&mut out, secs / 10 % 10);
    push_digit(&mut out, secs % 10);
    out.push('.');
    push_digit(&mut out, ms / 100 % 10);
    push_digit(&mut out, ms / 10 % 10);
    push_digit(&mut out, ms % 10);
    out.push(']');
    out.push(' ');
    let ghost stamped = out@;
    extend_str(&mut out, message);
    proof {
        let stamp = stamp_of(millis as nat);
        if current_log@.len() == 0 {
            assert(stamped =~= seq!['['] + stamp + seq![']', ' ']);
        } else {
            assert(stamped =~= current_log@ + seq!['\n', '['] + stamp + seq![']', ' ']);
        }
    }
    string_of(&out)
}

} // verus!

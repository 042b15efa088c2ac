//! Line splitting and blank detection on page text.

use vstd::prelude::*;

verus! {

/// Whether `c` has the Unicode `White_Space` property.
pub open spec fn is_white_space(c: char) -> bool {
    let u = c as u32;
    ||| 0x09 <= u <= 0x0d
    ||| u == 0x20
    ||| u == 0x85
    ||| u == 0xa0
    ||| u == 0x1680
    ||| 0x2000 <= u <= 0x200a
    ||| u == 0x2028
    ||| u == 0x2029
    ||| u == 0x202f
    ||| u == 0x205f
    ||| u == 0x3000
}

/// A text is blank when it holds white space only (the empty text included).
pub open spec fn is_blank_text(s: Seq<char>) -> bool {
    forall|i: int| 0 <= i < s.len() ==> is_white_space(#[trigger] s[i])
}

/// A line that was ended by a line feed loses one carriage return before it.
pub open spec fn strip_carriage_return(s: Seq<char>) -> Seq<char> {
    if s.len() > 0 && s.last() == '\r' {
        s.drop_last()
    } else {
        s
    }
}

/// Reading `s` from the left: the lines ended so far, and the line still open.
pub open spec fn scan_lines(s: Seq<char>) -> (Seq<Seq<char>>, Seq<char>)
    decreases s.len(),
{
    if s.len() == 0 {
        (Seq::empty(), Seq::empty())
    } else {
        let (done, open) = scan_lines(s.drop_last());
        if s.last() == '\n' {
            (done.push(strip_carriage_return(open)), Seq::empty())
        } else {
            (done, open.push(s.last()))
        }
    }
}

/// The lines of a text: split at `\n` or `\r\n`, terminators left out; a final
/// line ending is optional, so a text that ends with one has no empty last line.
pub open spec fn lines_of(s: Seq<char>) -> Seq<Seq<char>> {
    let (done, open) = scan_lines(s);
    if open.len() == 0 {
        done
    } else {
        done.push(open)
    }
}

/// The character sequences that a sequence of strings holds.
pub open spec fn string_views(v: Seq<String>) -> Seq<Seq<char>> {
    v.map_values(|s: String| s@)
}

/// The characters of `s`, in order: std's `str::chars`, collected into a
/// vector. Claims that the vector holds the string's characters in order.
#[verifier::external_body]
fn chars_of(s: &str) -> (v: Vec<char>)
    ensures
        v@ == s@,
{
    s.chars().collect()
}

/// A string made of the given characters, in order: std's
/// `FromIterator<&char>` for `String`. Claims that the string holds exactly
/// those characters, in order.
#[verifier::external_body]
fn string_from_chars(v: &Vec<char>) -> (s: String)
    ensures
        s@ == v@,
{
    v.iter().collect()
}

/// The strings joined into one, `sep` between each two, as `[String]::join` does.
pub fn join_strings(parts: &Vec<String>, sep: &str) -> (res: String)
    ensures
        res@ == join_with(string_views(parts@), sep@),
{
    let ghost views = string_views(parts@);
    let mut res = String::new();
    let mut i: usize = 0;
    while i < parts.len()
        invariant
            0 <= i <= parts.len(),
            views == string_views(parts@),
            res@ == join_with(views.take(i as int), sep@),
        decreases parts.len() - i,
    {
        assert(views.take(i + 1).drop_last() =~= views.take(i as int));
        assert(parts@[i as int]@ == views[i as int]);
        if i > 0 {
            res.append(sep);
        } else {
            assert(res@ =~= Seq::<char>::empty());
        }
        res.append(parts[i].as_str());
        proof {
            if i == 0 {
                assert(views.take(1) =~= seq![views[0]]);
            }
        }
        i = i + 1;
    }
    assert(views.take(views.len() as int) =~= views);
    res
}

/// Whether `c` is white space in the sense of Unicode's `White_Space` property.
pub fn is_white_space_char(c: char) -> (b: bool)
    ensures
        b == is_white_space(c),
{
    let u = c as u32;
    (0x09 <= u && u <= 0x0d) || u == 0x20 || u == 0x85 || u == 0xa0 || u == 0x1680 || (0x2000 <= u
        && u <= 0x200a) || u == 0x2028 || u == 0x2029 || u == 0x202f || u == 0x205f || u == 0x3000
}

/// Whether the text holds white space only, so that trimming it leaves nothing.
pub fn is_blank(text: &str) -> (b: bool)
    ensures
        b == is_blank_text(text@),
        b <==> forall|i: int| 0 <= i < text@.len() ==> is_white_space(#[trigger] text@[i]),
        !b <==> exists|i: int| 0 <= i < text@.len() && !is_white_space(#[trigger] text@[i]),
{
    let chars = chars_of(text);
    let mut i: usize = 0;
    while i < chars.len()
        invariant
            0 <= i <= chars.len(),
            chars@ == text@,
            forall|k: int| 0 <= k < i ==> is_white_space(#[trigger] chars@[k]),
        decreases chars.len() - i,
    {
        if !is_white_space_char(chars[i]) {
            return false;
        }
        i = i + 1;
    }
    true
}

/// The lines of `text`, as `str::lines` yields them.
pub fn split_lines(text: &str) -> (lines: Vec<String>)
    ensures
        string_views(lines@) == lines_of(text@),
{
    let chars = chars_of(text);
    let mut lines: Vec<String> = Vec::new();
    let mut open: Vec<char> = Vec::new();
    let mut i: usize = 0;
    while i < chars.len()
        invariant
            0 <= i <= chars.len(),
            chars@ == text@,
            scan_lines(chars@.take(i as int)) == (string_views(lines@), open@),
        decreases chars.len() - i,
    {
        let ghost before = lines@;
        let c = chars[i];
        assert(chars@.take(i + 1).drop_last() =~= chars@.take(i as int));
        if c == '\n' {
            let mut line = open;
            if line.len() > 0 && line[line.len() - 1] == '\r' {
                line.pop();
            }
            let s = string_from_chars(&line);
            lines.push(s);
            open = Vec::new();
            assert(string_views(lines@) =~= string_views(before).push(s@));
        } else {
            open.push(c);
        }
        i = i + 1;
    }
    assert(chars@.take(chars@.len() as int) =~= chars@);
    if open.len() > 0 {
        let ghost before = lines@;
        let s = string_from_chars(&open);
        lines.push(s);
        assert(string_views(lines@) =~= string_views(before).push(s@));
    }
    lines
}

/// The lines, each followed by a line feed, one after the other.
pub open spec fn terminated(lines: Seq<Seq<char>>) -> Seq<char>
    decreases lines.len(),
{
    if lines.len() == 0 {
        Seq::empty()
    } else {
        terminated(lines.drop_last()) + lines.last() + seq!['\n']
    }
}

/// The parts joined into one text, `sep` between each two.
pub open spec fn join_with(parts: Seq<Seq<char>>, sep: Seq<char>) -> Seq<char>
    decreases parts.len(),
{
    if parts.len() == 0 {
        Seq::empty()
    } else if parts.len() == 1 {
        parts[0]
    } else {
        join_with(parts.drop_last(), sep) + sep + parts.last()
    }
}

proof fn lemma_scan_without_carriage_return(s: Seq<char>)
    requires
        forall|i: int| 0 <= i < s.len() ==> s[i] != '\r',
    ensures
        s =~= terminated(scan_lines(s).0) + scan_lines(s).1,
        forall|i: int| 0 <= i < scan_lines(s).1.len() ==> scan_lines(s).1[i] != '\r',
        scan_lines(s).1.len() > 0 ==> scan_lines(s).1.last() == s.last(),
    decreases s.len(),
{
    if s.len() > 0 {
        let t = s.drop_last();
        assert forall|i: int| 0 <= i < t.len() implies t[i] != '\r' by {
            assert(t[i] == s[i]);
        }
        lemma_scan_without_carriage_return(t);
        let (done, open) = scan_lines(t);
        assert(s =~= t.push(s.last()));
        if s.last() == '\n' {
            assert(strip_carriage_return(open) == open);
            let d2 = done.push(open);
            assert(d2.drop_last() =~= done);
            assert(d2.last() == open);
            assert(terminated(d2) == terminated(done) + open + seq!['\n']);
            assert(scan_lines(s).0 == d2);
            assert(scan_lines(s).1 == Seq::<char>::empty());
        } else {
            assert(scan_lines(s).0 == done);
            assert(scan_lines(s).1 == open.push(s.last()));
            assert(terminated(done) + open.push(s.last()) =~= (terminated(done) + open).push(
                s.last(),
            ));
        }
    }
}

proof fn lemma_terminated_joined(lines: Seq<Seq<char>>)
    requires
        lines.len() > 0,
    ensures
        terminated(lines) =~= join_with(lines, seq!['\n']) + seq!['\n'],
    decreases lines.len(),
{
    let d = lines.drop_last();
    assert(terminated(lines) == terminated(d) + lines.last() + seq!['\n']);
    if lines.len() > 1 {
        lemma_terminated_joined(d);
        assert(join_with(lines, seq!['\n']) == join_with(d, seq!['\n']) + seq!['\n']
            + lines.last());
    } else {
        assert(d =~= Seq::<Seq<char>>::empty());
        assert(terminated(d) =~= Seq::<char>::empty());
        assert(lines.last() == lines[0]);
    }
}

/// Lines are split at line feeds: in a text without carriage returns, joining
/// its lines by line feeds gives the text back, without its final line feed.
pub proof fn law_lines_rejoin(s: Seq<char>)
    requires
        forall|i: int| 0 <= i < s.len() ==> s[i] != '\r',
    ensures
        join_with(lines_of(s), seq!['\n']) == if s.len() > 0 && s.last() == '\n' {
            s.drop_last()
        } else {
            s
        },
{
    lemma_scan_without_carriage_return(s);
    let (done, open) = scan_lines(s);
    if open.len() > 0 {
        if done.len() > 0 {
            lemma_terminated_joined(done);
            assert(done.push(open).drop_last() =~= done);
        }
    } else if done.len() > 0 {
        lemma_terminated_joined(done);
    }
}

/// The final line ending is optional: a line feed after a text whose last
/// line is unterminated, and does not end in a carriage return, adds no line.
pub proof fn law_final_line_ending_optional(s: Seq<char>)
    requires
        s.len() > 0,
        s.last() != '\n',
        s.last() != '\r',
    ensures
        lines_of(s.push('\n')) == lines_of(s),
{
    assert(s.push('\n').drop_last() =~= s);
    let (done, open) = scan_lines(s);
    let t = s.drop_last();
    assert(open == scan_lines(t).1.push(s.last()));
}

/// No line holds a line feed.
pub proof fn law_lines_hold_no_line_feed(s: Seq<char>)
    ensures
        forall|k: int, i: int|
            0 <= k < lines_of(s).len() && 0 <= i < lines_of(s)[k].len() ==> #[trigger] lines_of(
                s,
            )[k][i] != '\n',
{
    lemma_scan_no_line_feed(s);
}

proof fn lemma_scan_no_line_feed(s: Seq<char>)
    ensures
        forall|k: int, i: int|
            0 <= k < scan_lines(s).0.len() && 0 <= i < scan_lines(s).0[k].len()
                ==> #[trigger] scan_lines(s).0[k][i] != '\n',
        forall|i: int| 0 <= i < scan_lines(s).1.len() ==> #[trigger] scan_lines(s).1[i] != '\n',
    decreases s.len(),
{
    if s.len() > 0 {
        let t = s.drop_last();
        lemma_scan_no_line_feed(t);
        let (done, open) = scan_lines(t);
        if s.last() == '\n' {
            let line = strip_carriage_return(open);
            assert forall|i: int| 0 <= i < line.len() implies line[i] != '\n' by {
                assert(line[i] == open[i]);
            }
            let d2 = done.push(line);
            assert forall|k: int, i: int| 0 <= k < d2.len() && 0 <= i < d2[k].len() implies #[trigger] d2[k][i]
                != '\n' by {
                if k < done.len() {
                    assert(d2[k] == done[k]);
                }
            }
        } else {
            let o2 = open.push(s.last());
            assert forall|i: int| 0 <= i < o2.len() implies #[trigger] o2[i] != '\n' by {
                if i < open.len() {
                    assert(o2[i] == open[i]);
                }
            }
        }
    }
}

/// A blank text has blank lines only.
pub proof fn law_blank_text_has_blank_lines(s: Seq<char>)
    requires
        is_blank_text(s),
    ensures
        forall|k: int| 0 <= k < lines_of(s).len() ==> is_blank_text(#[trigger] lines_of(s)[k]),
{
    lemma_scan_blank(s);
}

proof fn lemma_scan_blank(s: Seq<char>)
    requires
        is_blank_text(s),
    ensures
        forall|k: int| 0 <= k < scan_lines(s).0.len() ==> is_blank_text(#[trigger] scan_lines(s).0[k]),
        is_blank_text(scan_lines(s).1),
    decreases s.len(),
{
    if s.len() > 0 {
        let t = s.drop_last();
        assert(is_blank_text(t)) by {
            assert forall|i: int| 0 <= i < t.len() implies is_white_space(#[trigger] t[i]) by {
                assert(t[i] == s[i]);
            }
        }
        lemma_scan_blank(t);
        assert(is_white_space(s[s.len() - 1]));
    }
}

/// A text is blank exactly when every character in it is white space: one
/// character that is not white space makes it non-blank.
pub proof fn law_blank_iff_white_space_only(s: Seq<char>)
    ensures
        is_blank_text(s) <==> forall|i: int| 0 <= i < s.len() ==> is_white_space(#[trigger] s[i]),
        (exists|i: int| 0 <= i < s.len() && !is_white_space(#[trigger] s[i])) ==> !is_blank_text(s),
{
}

/// No visible ASCII character (from `!` to `~`: digits, letters, punctuation)
/// is white space, and neither is a letter outside ASCII such as `é`.
pub proof fn law_visible_characters_are_not_white_space(c: char)
    requires
        0x21 <= (c as u32) <= 0x7e || (0xc0 <= (c as u32) <= 0x24f),
    ensures
        !is_white_space(c),
{
}

proof fn lemma_scan_append(x: Seq<char>, y: Seq<char>)
    requires
        scan_lines(x).1.len() == 0,
    ensures
        scan_lines(x + y) == (scan_lines(x).0 + scan_lines(y).0, scan_lines(y).1),
    decreases y.len(),
{
    if y.len() == 0 {
        assert(x + y =~= x);
        assert(scan_lines(x).0 + Seq::<Seq<char>>::empty() =~= scan_lines(x).0);
    } else {
        let y2 = y.drop_last();
        lemma_scan_append(x, y2);
        assert((x + y).drop_last() =~= x + y2);
        assert((x + y).last() == y.last());
        let (d, o) = scan_lines(y2);
        if y.last() == '\n' {
            assert(scan_lines(x).0 + d.push(strip_carriage_return(o)) =~= (scan_lines(x).0
                + d).push(strip_carriage_return(o)));
        }
    }
}

proof fn lemma_scan_without_line_feed(a: Seq<char>)
    requires
        forall|i: int| 0 <= i < a.len() ==> a[i] != '\n',
    ensures
        scan_lines(a) == (Seq::<Seq<char>>::empty(), a),
    decreases a.len(),
{
    if a.len() > 0 {
        let t = a.drop_last();
        assert forall|i: int| 0 <= i < t.len() implies t[i] != '\n' by {
            assert(t[i] == a[i]);
        }
        lemma_scan_without_line_feed(t);
        assert(a[a.len() - 1] != '\n');
        assert(t.push(a.last()) =~= a);
    }
}

/// How lines are split, from the front: a text without line feeds is one
/// line, kept whole (carriage returns included) unless it is empty; a line
/// ended by `\n` or by `\r\n` is the text before that ending, and the lines
/// after it are those of the rest of the text.
pub proof fn law_lines_from_the_front(a: Seq<char>, rest: Seq<char>)
    requires
        forall|i: int| 0 <= i < a.len() ==> a[i] != '\n',
    ensures
        lines_of(a) == if a.len() == 0 {
            Seq::<Seq<char>>::empty()
        } else {
            seq![a]
        },
        (a.len() == 0 || a.last() != '\r') ==> lines_of(a + seq!['\n'] + rest) == seq![a]
            + lines_of(rest),
        lines_of(a + seq!['\r', '\n'] + rest) == seq![a] + lines_of(rest),
{
    lemma_scan_without_line_feed(a);
    if a.len() == 0 || a.last() != '\r' {
        let x = a + seq!['\n'];
        assert(x.drop_last() =~= a);
        assert(strip_carriage_return(a) == a);
        assert(scan_lines(x) == (seq![a], Seq::<char>::empty()));
        lemma_scan_append(x, rest);
        let (d, o) = scan_lines(rest);
        assert(seq![a] + d.push(o) =~= (seq![a] + d).push(o));
    }
    let ar = a.push('\r');
    assert forall|i: int| 0 <= i < ar.len() implies ar[i] != '\n' by {
        if i < a.len() {
            assert(ar[i] == a[i]);
        }
    }
    lemma_scan_without_line_feed(ar);
    let x = a + seq!['\r', '\n'];
    assert(x.drop_last() =~= ar);
    assert(ar.drop_last() =~= a);
    assert(scan_lines(x) == (seq![a], Seq::<char>::empty()));
    lemma_scan_append(x, rest);
    let (d, o) = scan_lines(rest);
    assert(seq![a] + d.push(o) =~= (seq![a] + d).push(o));
}

} // verus!

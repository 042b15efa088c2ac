//! From the text of a PDF's pages to positioned text items.
//!
//! Each non-blank line becomes one item. Boxes are estimated: items are stacked
//! 12 units apart from the top, start at the left edge, and are 7 units wide per
//! byte of their UTF-8 text.

use vstd::prelude::*;
use vstd::utf8::encode_utf8;
use crate::error::ParseError;
use crate::text::{
    is_blank, is_blank_text, is_white_space, law_blank_text_has_blank_lines, lines_of, split_lines, string_views,
};
use crate::text_item::TextItem;

verus! {

/// Height of one text item, and the distance between the tops of consecutive items.
pub const LINE_HEIGHT: i32 = 12;

/// Estimated width of one byte of text.
pub const BYTE_WIDTH: i32 = 7;

/// Number of bytes in the UTF-8 encoding of `s`.
pub open spec fn utf8_len(s: Seq<char>) -> int {
    encode_utf8(s).len() as int
}

/// Estimated width of a line: its byte count, cast to `i32` as `as` casts
/// (keeping the low 32 bits), times the width of a byte.
pub open spec fn estimated_width(line: Seq<char>) -> int {
    BYTE_WIDTH * (utf8_len(line) as i32)
}

/// The estimated width of the line is an `i32`.
pub open spec fn width_fits(line: Seq<char>) -> bool {
    i32::MIN <= estimated_width(line) <= i32::MAX
}

/// The non-blank lines among `lines`, in order.
pub open spec fn non_blank(lines: Seq<Seq<char>>) -> Seq<Seq<char>>
    decreases lines.len(),
{
    if lines.len() == 0 {
        Seq::empty()
    } else {
        let rest = non_blank(lines.drop_last());
        if is_blank_text(lines.last()) {
            rest
        } else {
            rest.push(lines.last())
        }
    }
}

/// Each line paired with the index of the page it stands on.
pub open spec fn on_page(lines: Seq<Seq<char>>, page: int) -> Seq<(Seq<char>, int)> {
    lines.map_values(|l: Seq<char>| (l, page))
}

/// The non-blank lines of all pages, in page order, each with its page index.
pub open spec fn statement_lines(pages: Seq<Seq<char>>) -> Seq<(Seq<char>, int)>
    decreases pages.len(),
{
    if pages.len() == 0 {
        Seq::empty()
    } else {
        statement_lines(pages.drop_last()) + on_page(
            non_blank(lines_of(pages.last())),
            pages.len() - 1,
        )
    }
}

/// `item` is the `k`-th item of a statement, holding `line` of page `page`.
pub open spec fn placed(item: TextItem, line: Seq<char>, page: int, k: int) -> bool {
    &&& item.text@ == line
    &&& item.x1 == 0
    &&& item.y1 == LINE_HEIGHT * k
    &&& item.x2 == estimated_width(line)
    &&& item.y2 == LINE_HEIGHT * k + LINE_HEIGHT
    &&& item.page == page
}

/// The items that the pages' text yields, one per non-blank line, in order.
pub open spec fn items_match(items: Seq<TextItem>, pages: Seq<Seq<char>>) -> bool {
    items_match_lines(items, statement_lines(pages))
}

/// `items` are the items of the given lines, each with its page, in order.
pub open spec fn items_match_lines(items: Seq<TextItem>, lines: Seq<(Seq<char>, int)>) -> bool {
    &&& items.len() == lines.len()
    &&& forall|k: int|
        0 <= k < items.len() ==> placed(#[trigger] items[k], lines[k].0, lines[k].1, k)
}

/// Every coordinate of the items of these pages fits in an `i32`.
pub open spec fn coordinates_fit(pages: Seq<Seq<char>>) -> bool {
    &&& pages.len() <= i32::MAX
    &&& LINE_HEIGHT * statement_lines(pages).len() <= i32::MAX
    &&& forall|p: int, j: int|
        0 <= p < pages.len() && 0 <= j < lines_of(pages[p]).len() && !is_blank_text(
            #[trigger] lines_of(pages[p])[j],
        ) ==> width_fits(lines_of(pages[p])[j])
}

proof fn lemma_non_blank_prefix_len(lines: Seq<Seq<char>>, j: int)
    requires
        0 <= j <= lines.len(),
    ensures
        non_blank(lines.take(j)).len() <= non_blank(lines).len(),
    decreases lines.len() - j,
{
    if j < lines.len() {
        assert(lines.take(j + 1).drop_last() =~= lines.take(j));
        lemma_non_blank_prefix_len(lines, j + 1);
    } else {
        assert(lines.take(j) =~= lines);
    }
}

proof fn lemma_statement_prefix_len(pages: Seq<Seq<char>>, p: int)
    requires
        0 <= p <= pages.len(),
    ensures
        statement_lines(pages.take(p)).len() <= statement_lines(pages).len(),
    decreases pages.len() - p,
{
    if p < pages.len() {
        assert(pages.take(p + 1).drop_last() =~= pages.take(p));
        lemma_statement_prefix_len(pages, p + 1);
    } else {
        assert(pages.take(p) =~= pages);
    }
}

/// Whether every coordinate of the items of these pages fits in an `i32`.
pub fn coordinates_fit_in_i32(page_texts: &Vec<String>) -> (b: bool)
    ensures
        b == coordinates_fit(string_views(page_texts@)),
{
    let ghost pages = string_views(page_texts@);
    if page_texts.len() > i32::MAX as usize {
        return false;
    }
    let mut count: usize = 0;
    let mut p: usize = 0;
    while p < page_texts.len()
        invariant
            0 <= p <= page_texts.len(),
            pages == string_views(page_texts@),
            count == statement_lines(pages.take(p as int)).len(),
            LINE_HEIGHT * count <= i32::MAX,
            forall|q: int, j: int|
                0 <= q < p && 0 <= j < lines_of(pages[q]).len() && !is_blank_text(
                    #[trigger] lines_of(pages[q])[j],
                ) ==> width_fits(lines_of(pages[q])[j]),
        decreases page_texts.len() - p,
    {
        let lines = split_lines(page_texts[p].as_str());
        let ghost ls = lines_of(pages[p as int]);
        let mut kept: usize = 0;
        let mut j: usize = 0;
        while j < lines.len()
            invariant
                0 <= p < page_texts.len(),
                0 <= j <= lines.len(),
                pages == string_views(page_texts@),
                string_views(lines@) == ls,
                ls == lines_of(pages[p as int]),
                count == statement_lines(pages.take(p as int)).len(),
                kept == non_blank(ls.take(j as int)).len(),
                LINE_HEIGHT * (count + kept) <= i32::MAX,
                forall|jj: int|
                    0 <= jj < j && !is_blank_text(#[trigger] ls[jj]) ==> width_fits(ls[jj]),
            decreases lines.len() - j,
        {
            assert(ls.take(j + 1).drop_last() =~= ls.take(j as int));
            assert(lines@[j as int]@ == ls[j as int]);
            if !is_blank(lines[j].as_str()) {
                let n = lines[j].as_str().as_bytes().len();
                assert(n == utf8_len(ls[j as int]));
                let w: i32 = n as i32;
                if w > i32::MAX / BYTE_WIDTH || w < i32::MIN / BYTE_WIDTH {
                    assert(!is_blank_text(lines_of(pages[p as int])[j as int]));
                    return false;
                }
                if count + kept >= (i32::MAX / LINE_HEIGHT) as usize {
                    proof {
                        lemma_non_blank_prefix_len(ls, j + 1);
                        assert(pages.take(p + 1).drop_last() =~= pages.take(p as int));
                        lemma_statement_prefix_len(pages, p + 1);
                    }
                    return false;
                }
                kept = kept + 1;
            }
            j = j + 1;
        }
        assert(ls.take(ls.len() as int) =~= ls);
        assert(pages.take(p + 1).drop_last() =~= pages.take(p as int));
        count = count + kept;
        p = p + 1;
    }
    assert(pages.take(pages.len() as int) =~= pages);
    true
}

/// Message of the error returned when the pages hold no text.
pub open spec fn no_text_message() -> Seq<char> {
    "No text extracted from PDF"@
}

/// The text items of a statement whose pages hold the given text, in order:
/// one per non-blank line (lines as `str::lines` yields them), the `k`-th
/// starting at height `12 * k`. Fails with a `PdfError` when no line is left.
pub fn extract_text_items_from_page_texts(page_texts: &Vec<String>) -> (res: Result<
    Vec<TextItem>,
    ParseError,
>)
    requires
        coordinates_fit(string_views(page_texts@)),
    ensures
        match res {
            Ok(items) => statement_lines(string_views(page_texts@)).len() > 0 && items_match(
                items@,
                string_views(page_texts@),
            ),
            Err(e) => {
                &&& statement_lines(string_views(page_texts@)).len() == 0
                &&& e matches ParseError::PdfError(m) && m@ == no_text_message()
            },
        },
{
    let ghost pages = string_views(page_texts@);
    let mut text_items: Vec<TextItem> = Vec::new();
    let mut page_index: usize = 0;
    while page_index < page_texts.len()
        invariant
            0 <= page_index <= page_texts.len(),
            pages == string_views(page_texts@),
            coordinates_fit(pages),
            items_match(text_items@, pages.take(page_index as int)),
        decreases page_texts.len() - page_index,
    {
        let lines = split_lines(page_texts[page_index].as_str());
        let ghost ls = lines_of(pages[page_index as int]);
        let ghost done = statement_lines(pages.take(page_index as int));
        let mut j: usize = 0;
        while j < lines.len()
            invariant
                0 <= page_index < page_texts.len(),
                0 <= j <= lines.len(),
                pages == string_views(page_texts@),
                coordinates_fit(pages),
                string_views(lines@) == ls,
                ls == lines_of(pages[page_index as int]),
                done == statement_lines(pages.take(page_index as int)),
                items_match_lines(
                    text_items@,
                    done + on_page(non_blank(ls.take(j as int)), page_index as int),
                ),
            decreases lines.len() - j,
        {
            let ghost acc = done + on_page(non_blank(ls.take(j as int)), page_index as int);
            let ghost before = text_items@;
            assert(ls.take(j + 1).drop_last() =~= ls.take(j as int));
            assert(lines@[j as int]@ == ls[j as int]);
            let line = &lines[j];
            if !is_blank(line.as_str()) {
                proof {
                    lemma_non_blank_prefix_len(ls, j + 1);
                    assert(pages.take(page_index + 1).drop_last() =~= pages.take(
                        page_index as int,
                    ));
                    lemma_statement_prefix_len(pages, page_index + 1);
                    assert(!is_blank_text(lines_of(pages[page_index as int])[j as int]));
                }
                let n = line.as_str().as_bytes().len();
                let y_coord = text_items.len() as i32 * LINE_HEIGHT;
                let item = TextItem::new(
                    line.clone(),
                    0,
                    y_coord,
                    n as i32 * BYTE_WIDTH,
                    y_coord + LINE_HEIGHT,
                    page_index as i32,
                );
                text_items.push(item);
                proof {
                    let next = done + on_page(non_blank(ls.take(j + 1)), page_index as int);
                    assert(next =~= acc.push((ls[j as int], page_index as int)));
                    assert forall|k: int| 0 <= k < text_items@.len() implies placed(
                        #[trigger] text_items@[k],
                        next[k].0,
                        next[k].1,
                        k,
                    ) by {
                        if k < before.len() {
                            assert(text_items@[k] == before[k]);
                        }
                    }
                }
            } else {
                assert(done + on_page(non_blank(ls.take(j + 1)), page_index as int) =~= acc);
            }
            j = j + 1;
        }
        assert(ls.take(ls.len() as int) =~= ls);
        assert(pages.take(page_index + 1).drop_last() =~= pages.take(page_index as int));
        page_index = page_index + 1;
    }
    assert(pages.take(pages.len() as int) =~= pages);
    if text_items.len() == 0 {
        return Err(ParseError::PdfError("No text extracted from PDF".to_owned()));
    }
    Ok(text_items)
}

proof fn lemma_non_blank_members(lines: Seq<Seq<char>>)
    ensures
        forall|k: int|
            0 <= k < non_blank(lines).len() ==> !is_blank_text(#[trigger] non_blank(lines)[k])
                && lines.contains(non_blank(lines)[k]),
    decreases lines.len(),
{
    if lines.len() > 0 {
        let d = lines.drop_last();
        lemma_non_blank_members(d);
        let r = non_blank(d);
        assert forall|k: int| 0 <= k < non_blank(lines).len() implies !is_blank_text(
            #[trigger] non_blank(lines)[k],
        ) && lines.contains(non_blank(lines)[k]) by {
            if k < r.len() {
                assert(non_blank(lines)[k] == r[k]);
                let j = choose|j: int| 0 <= j < d.len() && d[j] == r[k];
                assert(lines[j] == d[j]);
            } else {
                assert(non_blank(lines)[k] == lines.last());
                assert(lines[lines.len() - 1] == lines.last());
            }
        }
    }
}

proof fn lemma_non_blank_of_blank(lines: Seq<Seq<char>>)
    requires
        forall|k: int| 0 <= k < lines.len() ==> is_blank_text(#[trigger] lines[k]),
    ensures
        non_blank(lines).len() == 0,
    decreases lines.len(),
{
    if lines.len() > 0 {
        let d = lines.drop_last();
        assert forall|k: int| 0 <= k < d.len() implies is_blank_text(#[trigger] d[k]) by {
            assert(d[k] == lines[k]);
        }
        lemma_non_blank_of_blank(d);
        assert(is_blank_text(lines[lines.len() - 1]));
    }
}

proof fn lemma_statement_lines_shape(pages: Seq<Seq<char>>)
    ensures
        forall|k: int|
            0 <= k < statement_lines(pages).len() ==> {
                let (line, p) = #[trigger] statement_lines(pages)[k];
                &&& 0 <= p < pages.len()
                &&& !is_blank_text(line)
                &&& lines_of(pages[p]).contains(line)
            },
        forall|k: int, l: int|
            0 <= k < l < statement_lines(pages).len() ==> #[trigger] statement_lines(pages)[k].1
                <= #[trigger] statement_lines(pages)[l].1,
    decreases pages.len(),
{
    if pages.len() > 0 {
        let d = pages.drop_last();
        lemma_statement_lines_shape(d);
        let prev = statement_lines(d);
        let last = pages.len() - 1;
        let nb = non_blank(lines_of(pages.last()));
        lemma_non_blank_members(lines_of(pages.last()));
        let all = statement_lines(pages);
        assert(all == prev + on_page(nb, last));
        assert forall|k: int| 0 <= k < all.len() implies {
            let (line, p) = #[trigger] all[k];
            &&& 0 <= p < pages.len()
            &&& !is_blank_text(line)
            &&& lines_of(pages[p]).contains(line)
        } by {
            if k < prev.len() {
                assert(all[k] == prev[k]);
                assert(pages[prev[k].1] == d[prev[k].1]);
            } else {
                assert(all[k] == (nb[k - prev.len()], last));
                assert(pages[last] == pages.last());
            }
        }
        assert forall|k: int, l: int| 0 <= k < l < all.len() implies #[trigger] all[k].1
            <= #[trigger] all[l].1 by {
            if l < prev.len() {
                assert(all[k] == prev[k] && all[l] == prev[l]);
            } else if k < prev.len() {
                assert(all[k] == prev[k]);
                assert(all[l].1 == last);
            } else {
                assert(all[l].1 == last && all[k].1 == last);
            }
        }
    }
}

/// Items come in reading order: each is one line height tall, each starts
/// where the one before it ends, and their pages never go back.
pub proof fn law_items_in_reading_order(items: Seq<TextItem>, pages: Seq<Seq<char>>)
    requires
        items_match(items, pages),
    ensures
        forall|k: int| 0 <= k < items.len() ==> #[trigger] items[k].y2 == items[k].y1 + LINE_HEIGHT,
        forall|k: int| 0 < k < items.len() ==> #[trigger] items[k].y1 == items[k - 1].y2,
        forall|k: int, l: int|
            0 <= k < l < items.len() ==> #[trigger] items[k].y1 < #[trigger] items[l].y1
                && items[k].page <= items[l].page,
{
    lemma_statement_lines_shape(pages);
    let lines = statement_lines(pages);
    assert forall|k: int| 0 < k < items.len() implies #[trigger] items[k].y1 == items[k - 1].y2 by {
        assert(placed(items[k], lines[k].0, lines[k].1, k));
        assert(placed(items[k - 1], lines[k - 1].0, lines[k - 1].1, k - 1));
    }
    assert forall|k: int, l: int| 0 <= k < l < items.len() implies #[trigger] items[k].y1
        < #[trigger] items[l].y1 && items[k].page <= items[l].page by {
        assert(placed(items[k], lines[k].0, lines[k].1, k));
        assert(placed(items[l], lines[l].0, lines[l].1, l));
        assert(lines[k].1 <= lines[l].1);
    }
}

/// Every item holds a non-blank line of the page it is placed on.
pub proof fn law_items_are_non_blank_lines(items: Seq<TextItem>, pages: Seq<Seq<char>>)
    requires
        items_match(items, pages),
    ensures
        forall|k: int|
            0 <= k < items.len() ==> {
                &&& 0 <= #[trigger] items[k].page < pages.len()
                &&& !is_blank_text(items[k].text@)
                &&& lines_of(pages[items[k].page as int]).contains(items[k].text@)
            },
{
    lemma_statement_lines_shape(pages);
    let lines = statement_lines(pages);
    assert forall|k: int| 0 <= k < items.len() implies {
        &&& 0 <= #[trigger] items[k].page < pages.len()
        &&& !is_blank_text(items[k].text@)
        &&& lines_of(pages[items[k].page as int]).contains(items[k].text@)
    } by {
        assert(placed(items[k], lines[k].0, lines[k].1, k));
        let (line, p) = lines[k];
    }
}

/// Pages that hold white space only yield no item.
pub proof fn law_blank_pages_give_no_items(pages: Seq<Seq<char>>)
    requires
        forall|p: int| 0 <= p < pages.len() ==> is_blank_text(#[trigger] pages[p]),
    ensures
        statement_lines(pages).len() == 0,
    decreases pages.len(),
{
    if pages.len() > 0 {
        let d = pages.drop_last();
        assert forall|p: int| 0 <= p < d.len() implies is_blank_text(#[trigger] d[p]) by {
            assert(d[p] == pages[p]);
        }
        law_blank_pages_give_no_items(d);
        assert(is_blank_text(pages[pages.len() - 1]));
        law_blank_text_has_blank_lines(pages.last());
        lemma_non_blank_of_blank(lines_of(pages.last()));
    }
}

/// The line holds a character that is not white space.
pub open spec fn holds_text(line: Seq<char>) -> bool {
    exists|i: int| 0 <= i < line.len() && !is_white_space(#[trigger] line[i])
}

/// The lines of a page's text that hold a character other than white space,
/// in order, repeated lines included.
pub open spec fn text_lines(page: Seq<char>) -> Seq<Seq<char>> {
    lines_of(page).filter(|l: Seq<char>| holds_text(l))
}

/// How many text lines the pages before page `p` hold.
pub open spec fn text_lines_before(pages: Seq<Seq<char>>, p: int) -> int
    decreases p,
{
    if p <= 0 || p > pages.len() {
        0
    } else {
        text_lines_before(pages, p - 1) + text_lines(pages[p - 1]).len()
    }
}

proof fn lemma_non_blank_is_filter(lines: Seq<Seq<char>>)
    ensures
        non_blank(lines) == lines.filter(|l: Seq<char>| holds_text(l)),
    decreases lines.len(),
{
    reveal(Seq::filter);
    if lines.len() > 0 {
        lemma_non_blank_is_filter(lines.drop_last());
        let l = lines.last();
        if holds_text(l) {
            let i = choose|i: int| 0 <= i < l.len() && !is_white_space(#[trigger] l[i]);
            assert(!is_blank_text(l));
        } else {
            assert(is_blank_text(l));
        }
    }
}

proof fn lemma_statement_len(pages: Seq<Seq<char>>, p: int)
    requires
        0 <= p <= pages.len(),
    ensures
        statement_lines(pages.take(p)).len() == text_lines_before(pages, p),
    decreases p,
{
    if p > 0 {
        lemma_statement_len(pages, p - 1);
        assert(pages.take(p).drop_last() =~= pages.take(p - 1));
        assert(pages.take(p).last() == pages[p - 1]);
        lemma_non_blank_is_filter(lines_of(pages[p - 1]));
    } else {
        assert(pages.take(0) =~= Seq::<Seq<char>>::empty());
    }
}

proof fn lemma_statement_prefix(pages: Seq<Seq<char>>, p: int)
    requires
        0 <= p <= pages.len(),
    ensures
        statement_lines(pages.take(p)).len() <= statement_lines(pages).len(),
        forall|k: int|
            0 <= k < statement_lines(pages.take(p)).len() ==> statement_lines(pages)[k]
                == #[trigger] statement_lines(pages.take(p))[k],
    decreases pages.len() - p,
{
    if p < pages.len() {
        lemma_statement_prefix(pages, p + 1);
        assert(pages.take(p + 1).drop_last() =~= pages.take(p));
        let short = statement_lines(pages.take(p));
        let long = statement_lines(pages.take(p + 1));
        assert forall|k: int| 0 <= k < short.len() implies statement_lines(pages)[k]
            == #[trigger] short[k] by {
            assert(long[k] == short[k]);
        }
    } else {
        assert(pages.take(p) =~= pages);
    }
}

/// Item `k` holds `line` of page `p`, its box stacked at place `k` and as wide
/// as seven units per byte of the line (the byte count taken as an `i32`).
pub open spec fn item_holds(items: Seq<TextItem>, k: int, line: Seq<char>, p: int) -> bool {
    &&& 0 <= k < items.len()
    &&& items[k].text@ == line
    &&& items[k].page == p
    &&& items[k].x1 == 0
    &&& items[k].y1 == 12 * k
    &&& items[k].x2 == 7 * (#[verifier::truncate] (encode_utf8(line).len() as i32))
    &&& items[k].y2 == 12 * k + 12
}

/// Every line of every page that holds a character other than white space
/// yields exactly one item, repeated lines included, in page then line order:
/// there are as many items as such lines, and the `j`-th such line of page `p`
/// is held by the item that follows those of the pages before.
pub proof fn law_one_item_per_text_line(items: Seq<TextItem>, pages: Seq<Seq<char>>)
    requires
        items_match(items, pages),
    ensures
        items.len() == text_lines_before(pages, pages.len() as int),
        forall|p: int, j: int|
            0 <= p < pages.len() && 0 <= j < text_lines(pages[p]).len() ==> item_holds(
                items,
                text_lines_before(pages, p) + j,
                #[trigger] text_lines(pages[p])[j],
                p,
            ),
{
    lemma_statement_len(pages, pages.len() as int);
    assert(pages.take(pages.len() as int) =~= pages);
    let all = statement_lines(pages);
    assert forall|p: int, j: int|
        0 <= p < pages.len() && 0 <= j < text_lines(pages[p]).len() implies item_holds(
        items,
        text_lines_before(pages, p) + j,
        #[trigger] text_lines(pages[p])[j],
        p,
    ) by {
        let k = text_lines_before(pages, p) + j;
        lemma_statement_len(pages, p);
        lemma_statement_len(pages, p + 1);
        lemma_statement_prefix(pages, p + 1);
        lemma_non_blank_is_filter(lines_of(pages[p]));
        assert(pages.take(p + 1).drop_last() =~= pages.take(p));
        assert(pages.take(p + 1).last() == pages[p]);
        let upto = statement_lines(pages.take(p + 1));
        assert(upto == statement_lines(pages.take(p)) + on_page(
            non_blank(lines_of(pages[p])),
            p,
        ));
        assert(upto[k] == (text_lines(pages[p])[j], p));
        assert(all[k] == upto[k]);
        assert(placed(items[k], all[k].0, all[k].1, k));
    }
}

/// The guard is exactly `i32`-fitness: the coordinates of the pages' items fit
/// exactly when there are at most `i32::MAX` pages, twelve times the number of
/// text lines is at most `i32::MAX`, and every text line's width (its byte
/// count as `i32`, times seven) is an `i32`.
pub proof fn law_coordinates_fit_exactly(pages: Seq<Seq<char>>)
    ensures
        coordinates_fit(pages) <==> {
            &&& pages.len() <= i32::MAX
            &&& 12 * text_lines_before(pages, pages.len() as int) <= i32::MAX
            &&& forall|p: int, j: int|
                0 <= p < pages.len() && 0 <= j < lines_of(pages[p]).len() && holds_text(
                    #[trigger] lines_of(pages[p])[j],
                ) ==> i32::MIN <= 7 * (#[verifier::truncate] (encode_utf8(lines_of(pages[p])[j]).len() as i32))
                    <= i32::MAX
        },
{
    lemma_statement_len(pages, pages.len() as int);
    assert(pages.take(pages.len() as int) =~= pages);
    assert forall|p: int, j: int|
        0 <= p < pages.len() && 0 <= j < lines_of(pages[p]).len() implies (holds_text(
        #[trigger] lines_of(pages[p])[j],
    ) <==> !is_blank_text(lines_of(pages[p])[j])) by {
        let l = lines_of(pages[p])[j];
        if holds_text(l) {
            let i = choose|i: int| 0 <= i < l.len() && !is_white_space(#[trigger] l[i]);
            assert(!is_blank_text(l));
        }
    }
}

} // verus!

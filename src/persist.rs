use vstd::prelude::*;

use crate::store::{item_views, ListItem, TodoList};
use crate::text::{chars_of, str_equals};

verus! {

/// The position of the first line feed in `s`, or its length when it has none.
pub open spec fn first_newline(s: Seq<char>) -> nat
    decreases s.len(),
{
    if s.len() == 0 {
        0
    } else if s[0] == '\n' {
        0
    } else {
        1 + first_newline(s.drop_first())
    }
}

/// A line without the carriage return that ends it, if any.
pub open spec fn strip_cr(line: Seq<char>) -> Seq<char> {
    if line.len() > 0 && line.last() == '\r' {
        line.drop_last()
    } else {
        line
    }
}

/// The lines of a text, as `str::lines` gives them: split at each line feed,
/// a carriage return before it dropped, and no empty line after a final line feed.
pub open spec fn lines_of(s: Seq<char>) -> Seq<Seq<char>>
    decreases s.len(),
{
    if s.len() == 0 {
        seq![]
    } else {
        let j = first_newline(s);
        if j >= s.len() {
            seq![s]
        } else {
            seq![strip_cr(s.take(j as int))] + lines_of(s.skip((j + 1) as int))
        }
    }
}

/// The items that a file's lines describe: each item takes two lines, its
/// text and then `true` when it is done; a last line without a partner is
/// dropped.
pub open spec fn decode_items(lines: Seq<Seq<char>>) -> Seq<(Seq<char>, bool)>
    decreases lines.len(),
{
    if lines.len() < 2 {
        seq![]
    } else {
        seq![(lines[0], lines[1] == "true"@)] + decode_items(lines.skip(2))
    }
}

/// The text that stands for a completion flag.
pub open spec fn flag_text(completed: bool) -> Seq<char> {
    if completed {
        "true"@
    } else {
        "false"@
    }
}

/// The two lines, each ended by a line feed, that store one item.
pub open spec fn encode_item(item: (Seq<char>, bool)) -> Seq<char> {
    item.0 + seq!['\n'] + flag_text(item.1) + seq!['\n']
}

/// The file text that stores a list: its items' lines, in order.
pub open spec fn encode_items(items: Seq<(Seq<char>, bool)>) -> Seq<char>
    decreases items.len(),
{
    if items.len() == 0 {
        seq![]
    } else {
        encode_item(items[0]) + encode_items(items.drop_first())
    }
}

/// An item text that a file keeps as it is: no line feed in it, and no
/// carriage return at its end.
pub open spec fn storable(description: Seq<char>) -> bool {
    !description.contains('\n') && !(description.len() > 0 && description.last() == '\r')
}

/// The first line feed is where the scan for one stops.
proof fn lemma_first_newline(s: Seq<char>, m: int)
    requires
        0 <= m <= s.len(),
        forall|k: int| 0 <= k < m ==> s[k] != '\n',
        m == s.len() || s[m] == '\n',
    ensures
        first_newline(s) == m,
    decreases m,
{
    if m > 0 {
        lemma_first_newline(s.drop_first(), m - 1);
    }
}

/// Encoding one more item appends its two lines.
proof fn lemma_encode_push(items: Seq<(Seq<char>, bool)>, item: (Seq<char>, bool))
    ensures
        encode_items(items.push(item)) == encode_items(items) + encode_item(item),
    decreases items.len(),
{
    if items.len() == 0 {
        assert(items.push(item).drop_first() =~= seq![]);
        assert(encode_items(items.push(item).drop_first()) == Seq::<char>::empty());
        assert(encode_items(items) == Seq::<char>::empty());
        assert(encode_items(items.push(item)) =~= encode_item(item));
    } else {
        assert(items.push(item).drop_first() =~= items.drop_first().push(item));
        lemma_encode_push(items.drop_first(), item);
        assert(encode_items(items.push(item)) =~= encode_items(items) + encode_item(item));
    }
}

/// A text that starts with a line ended by a line feed has that line first.
proof fn lemma_lines_cons(line: Seq<char>, rest: Seq<char>)
    requires
        !line.contains('\n'),
    ensures
        lines_of(line + seq!['\n'] + rest) == seq![strip_cr(line)] + lines_of(rest),
{
    let s = line + seq!['\n'] + rest;
    assert forall|k: int| 0 <= k < line.len() implies s[k] != '\n' by {
        assert(s[k] == line[k]);
    }
    lemma_first_newline(s, line.len() as int);
    assert(s.take(line.len() as int) =~= line);
    assert(s.skip((line.len() + 1) as int) =~= rest);
}

/// Every two lines make one item: a file of `n` lines loads `n / 2` items, so
/// an unmatched last line is dropped.
pub proof fn lemma_decode_len(lines: Seq<Seq<char>>)
    ensures
        decode_items(lines).len() == lines.len() / 2,
    decreases lines.len(),
{
    if lines.len() >= 2 {
        lemma_decode_len(lines.skip(2));
    }
}

/// Saving a list and loading the text back gives the same items in the same
/// order, when no item text holds a line feed or ends with a carriage return.
pub proof fn lemma_save_load(items: Seq<(Seq<char>, bool)>)
    requires
        forall|i: int| 0 <= i < items.len() ==> storable(#[trigger] items[i].0),
    ensures
        decode_items(lines_of(encode_items(items))) == items,
    decreases items.len(),
{
    reveal_strlit("true");
    reveal_strlit("false");
    if items.len() > 0 {
        let d = items[0].0;
        let f = flag_text(items[0].1);
        let rest = items.drop_first();
        assert forall|i: int| 0 <= i < rest.len() implies storable(#[trigger] rest[i].0) by {
            assert(rest[i] == items[i + 1]);
        }
        lemma_save_load(rest);
        assert(storable(items[0].0));
        assert(!f.contains('\n'));
        let tail = encode_items(rest);
        assert(encode_items(items) =~= d + seq!['\n'] + (f + seq!['\n'] + tail));
        lemma_lines_cons(d, f + seq!['\n'] + tail);
        lemma_lines_cons(f, tail);
        assert(strip_cr(d) == d);
        assert(strip_cr(f) == f);
        let lines = seq![d] + (seq![f] + lines_of(tail));
        assert(lines.skip(2) =~= lines_of(tail));
        assert((f == "true"@) == items[0].1);
        assert(decode_items(lines) =~= seq![(d, items[0].1)] + rest);
        assert(items =~= seq![items[0]] + rest);
    }
}

/// Splits a text into its lines, as `str::lines` does.
pub fn split_lines(s: &str) -> (r: Vec<String>)
    ensures
        line_views(r@) == lines_of(s@),
{
    let cs = chars_of(s);
    let n = cs.len();
    let mut out: Vec<String> = Vec::new();
    let mut start: usize = 0;
    assert(s@.skip(0) =~= s@);
    assert(line_views(out@) + lines_of(s@) =~= lines_of(s@));
    while start < n
        invariant
            cs@ == s@,
            n == s@.len(),
            start <= n,
            lines_of(s@) == line_views(out@) + lines_of(s@.skip(start as int)),
        decreases n - start,
    {
        let mut j: usize = start;
        while j < n && cs[j] != '\n'
            invariant
                cs@ == s@,
                n == s@.len(),
                start <= j <= n,
                forall|k: int| start <= k < j ==> s@[k] != '\n',
            decreases n - j,
        {
            j = j + 1;
        }
        let ghost t = s@.skip(start as int);
        proof {
            assert forall|k: int| 0 <= k < j - start implies t[k] != '\n' by {
                assert(t[k] == s@[start + k]);
            }
            lemma_first_newline(t, j - start);
        }
        let ghost old_out = out@;
        if j == n {
            out.push(s.substring_char(start, n).to_owned());
            assert(line_views(out@) =~= line_views(old_out).push(t));
            assert(lines_of(t) =~= seq![t]);
            assert(s@.skip(n as int) =~= seq![]);
            assert(lines_of(s@) =~= line_views(out@) + lines_of(s@.skip(n as int)));
            start = n;
        } else {
            let end = if j > start && cs[j - 1] == '\r' {
                j - 1
            } else {
                j
            };
            out.push(s.substring_char(start, end).to_owned());
            assert(t.take(j - start) =~= s@.subrange(start as int, j as int));
            assert(strip_cr(t.take(j - start)) =~= s@.subrange(start as int, end as int));
            assert(t.skip(j - start + 1) =~= s@.skip(j + 1));
            assert(line_views(out@) =~= line_views(old_out).push(strip_cr(t.take(j - start))));
            assert(lines_of(s@) =~= line_views(out@) + lines_of(s@.skip(j + 1)));
            start = j + 1;
        }
    }
    assert(s@.skip(n as int) =~= seq![]);
    assert(line_views(out@) + lines_of(s@.skip(n as int)) =~= line_views(out@));
    out
}

/// The characters of each line.
pub open spec fn line_views(v: Seq<String>) -> Seq<Seq<char>> {
    v.map_values(|l: String| l@)
}

impl TodoList {
    /// The text of the file that stores this list.
    pub fn to_save_text(&self) -> (r: String)
        ensures
            r@ == encode_items(self@),
    {
        let items = self.items();
        let ghost v = item_views(items@);
        let mut text = String::new();
        let mut i: usize = 0;
        while i < items.len()
            invariant
                v == item_views(items@),
                v == self@,
                i <= items@.len(),
                text@ == encode_items(v.take(i as int)),
            decreases items@.len() - i,
        {
            let item = &items[i];
            proof {
                lemma_encode_push(v.take(i as int), v[i as int]);
                assert(v.take(i + 1) =~= v.take(i as int).push(v[i as int]));
            }
            text.append(item.description.as_str());
            text.append("\n");
            if item.completed {
                text.append("true");
            } else {
                text.append("false");
            }
            text.append("\n");
            proof {
                reveal_strlit("\n");
                assert(text@ =~= encode_items(v.take(i as int)) + encode_item(v[i as int]));
            }
            i = i + 1;
        }
        assert(v.take(items@.len() as int) =~= v);
        text
    }

    /// The list that a file's text stores: two lines per item, its text and
    /// its flag (`true` for done, any other line for open); a last line
    /// without a partner is dropped.
    pub fn from_save_text(contents: &str) -> (r: TodoList)
        ensures
            r@ == decode_items(lines_of(contents@)),
            r@.len() == lines_of(contents@).len() / 2,
    {
        let lines = split_lines(contents);
        let ghost ls = line_views(lines@);
        let mut items: Vec<ListItem> = Vec::new();
        let mut i: usize = 0;
        assert(ls.skip(0) =~= ls);
        assert(item_views(items@) + decode_items(ls) =~= decode_items(ls));
        while lines.len() - i >= 2
            invariant
                ls == line_views(lines@),
                i <= lines@.len(),
                decode_items(ls) == item_views(items@) + decode_items(ls.skip(i as int)),
            decreases lines@.len() - i,
        {
            let completed = str_equals(lines[i + 1].as_str(), "true");
            let ghost old_items = items@;
            items.push(ListItem { description: lines[i].clone(), completed });
            proof {
                let rest = ls.skip(i as int);
                assert(rest[0] == ls[i as int]);
                assert(rest[1] == ls[i + 1]);
                assert(rest.skip(2) =~= ls.skip(i + 2));
                assert(item_views(items@) =~= item_views(old_items).push((ls[i as int], completed)));
                assert(decode_items(ls) =~= item_views(items@) + decode_items(ls.skip(i + 2)));
            }
            i = i + 2;
        }
        assert(decode_items(ls.skip(i as int)) =~= seq![]);
        assert(item_views(items@) + decode_items(ls.skip(i as int)) =~= item_views(items@));
        proof {
            lemma_decode_len(ls);
        }
        TodoList::from_items(items)
    }
}

} // verus!

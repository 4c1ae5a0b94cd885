use vstd::prelude::*;

use crate::command::ListType;
use crate::text::{chars_of, trim, trim_of};

verus! {

/// One entry of the list: its text and whether it is done.
#[derive(Debug)]
pub struct ListItem {
    pub description: String,
    pub completed: bool,
}

impl View for ListItem {
    type V = (Seq<char>, bool);

    open spec fn view(&self) -> (Seq<char>, bool) {
        (self.description@, self.completed)
    }
}

/// Why an index given by the user was refused.
#[derive(Clone, Copy, Debug, PartialEq, Eq, Structural)]
pub enum IndexError {
    /// The text is not a decimal number that fits in `usize`.
    NotANumber,
    /// The number is outside `1..=len`; carries `len`, the length of the list.
    OutOfRange(usize),
}

/// One line of a listing: its number (from 1), the item's text, and for the
/// full listing the marker `X` (done) or `O` (open).
#[derive(Debug)]
pub struct ListEntry {
    pub number: usize,
    pub description: String,
    pub marker: Option<char>,
}

impl View for ListEntry {
    type V = (int, Seq<char>, Option<char>);

    open spec fn view(&self) -> (int, Seq<char>, Option<char>) {
        (self.number as int, self.description@, self.marker)
    }
}

/// The items of a vector, as (text, done) pairs.
pub open spec fn item_views(v: Seq<ListItem>) -> Seq<(Seq<char>, bool)> {
    v.map_values(|it: ListItem| it@)
}

/// The lines of a listing, as (number, text, marker) triples.
pub open spec fn entry_views(v: Seq<ListEntry>) -> Seq<(int, Seq<char>, Option<char>)> {
    v.map_values(|e: ListEntry| e@)
}

/// The ordered to-do list. Positions seen by users run from 1 to its length.
pub struct TodoList {
    items: Vec<ListItem>,
}

/// The marker of an item in the full listing.
pub open spec fn marker_of(completed: bool) -> char {
    if completed {
        'X'
    } else {
        'O'
    }
}

/// Whether a listing of the given scope shows an item.
pub open spec fn shown(scope: ListType, completed: bool) -> bool {
    match scope {
        ListType::All => true,
        ListType::Done => completed,
        ListType::Open => !completed,
    }
}

/// The filter of a scope, on (text, done) pairs.
pub open spec fn keeps(scope: ListType) -> spec_fn((Seq<char>, bool)) -> bool {
    |it: (Seq<char>, bool)| shown(scope, it.1)
}

/// The lines of a listing: the items the scope keeps, in list order, numbered
/// from 1; the full listing marks each, the others do not.
pub open spec fn listing(items: Seq<(Seq<char>, bool)>, scope: ListType) -> Seq<
    (int, Seq<char>, Option<char>),
> {
    let kept = items.filter(keeps(scope));
    Seq::new(
        kept.len(),
        |k: int|
            (
                k + 1,
                kept[k].0,
                if scope == ListType::All {
                    Some(marker_of(kept[k].1))
                } else {
                    None
                },
            ),
    )
}

/// An ASCII decimal digit.
pub open spec fn is_digit(c: char) -> bool {
    '0' <= c && c <= '9'
}

/// The value of a decimal digit.
pub open spec fn digit_value(c: char) -> nat {
    (c as u32 - '0' as u32) as nat
}

/// The number that a string of decimal digits writes.
pub open spec fn decimal_value(ds: Seq<char>) -> nat
    decreases ds.len(),
{
    if ds.len() == 0 {
        0
    } else {
        decimal_value(ds.drop_last()) * 10 + digit_value(ds.last())
    }
}

/// The digits of an index text: all of it, or what follows a leading `+`.
pub open spec fn digits_part(s: Seq<char>) -> Seq<char> {
    if s.len() > 0 && s[0] == '+' {
        s.drop_first()
    } else {
        s
    }
}

/// The number an index text writes, when it is one or more decimal digits,
/// optionally after a `+`, whose value fits in `usize`.
pub open spec fn index_value(s: Seq<char>) -> Option<nat> {
    let ds = digits_part(s);
    if ds.len() > 0 && (forall|k: int| 0 <= k < ds.len() ==> is_digit(#[trigger] ds[k]))
        && decimal_value(ds) <= usize::MAX {
        Some(decimal_value(ds))
    } else {
        None
    }
}

/// A prefix of a digit string never writes a larger number.
proof fn lemma_decimal_prefix(ds: Seq<char>, j: int)
    requires
        0 <= j <= ds.len(),
    ensures
        decimal_value(ds.take(j)) <= decimal_value(ds),
    decreases ds.len(),
{
    if j < ds.len() {
        assert(ds.drop_last().take(j) =~= ds.take(j));
        lemma_decimal_prefix(ds.drop_last(), j);
    } else {
        assert(ds.take(j) =~= ds);
    }
}

/// Reads a 1-based index typed by the user: decimal digits, optionally after `+`.
pub fn parse_index(text: &str) -> (r: Result<usize, IndexError>)
    ensures
        match index_value(text@) {
            Some(v) => r == Ok::<usize, IndexError>(v as usize),
            None => r == Err::<usize, IndexError>(IndexError::NotANumber),
        },
{
    let cs = chars_of(text);
    let n = cs.len();
    let start: usize = if n > 0 && cs[0] == '+' {
        1
    } else {
        0
    };
    let ghost ds = digits_part(text@);
    assert(ds =~= text@.subrange(start as int, n as int));
    if start == n {
        return Err(IndexError::NotANumber);
    }
    let mut v: usize = 0;
    let mut i: usize = start;
    while i < n
        invariant
            cs@ == text@,
            n == cs@.len(),
            start <= i <= n,
            ds == text@.subrange(start as int, n as int),
            ds == digits_part(text@),
            forall|k: int| 0 <= k < i - start ==> is_digit(#[trigger] ds[k]),
            v == decimal_value(ds.take(i - start)),
        decreases n - i,
    {
        let c = cs[i];
        if !('0' <= c && c <= '9') {
            assert(!is_digit(ds[i - start]));
            return Err(IndexError::NotANumber);
        }
        let d = (c as u32 - '0' as u32) as usize;
        assert(ds.take(i - start + 1).drop_last() =~= ds.take(i - start));
        assert(decimal_value(ds.take(i - start + 1)) == v * 10 + d);
        proof {
            lemma_decimal_prefix(ds, i - start + 1);
        }
        match v.checked_mul(10) {
            None => {
                return Err(IndexError::NotANumber);
            },
            Some(m) => match m.checked_add(d) {
                None => {
                    return Err(IndexError::NotANumber);
                },
                Some(next) => {
                    v = next;
                },
            },
        }
        i = i + 1;
    }
    assert(ds.take(n - start) =~= ds);
    Ok(v)
}


impl View for TodoList {
    type V = Seq<(Seq<char>, bool)>;

    closed spec fn view(&self) -> Seq<(Seq<char>, bool)> {
        item_views(self.items@)
    }
}

/// Whether `index` names an item of a list of length `len`.
pub open spec fn valid_index(index: int, len: nat) -> bool {
    1 <= index <= len
}

impl TodoList {
    /// An empty list.
    pub fn new() -> (r: TodoList)
        ensures
            r@ == Seq::<(Seq<char>, bool)>::empty(),
    {
        let r = TodoList { items: Vec::new() };
        assert(r@ =~= Seq::<(Seq<char>, bool)>::empty());
        r
    }

    /// A list holding `items`, in order.
    pub fn from_items(items: Vec<ListItem>) -> (r: TodoList)
        ensures
            r@ == item_views(items@),
    {
        TodoList { items }
    }

    /// The items, in order.
    pub fn items(&self) -> (r: &Vec<ListItem>)
        ensures
            item_views(r@) == self@,
    {
        &self.items
    }

    /// The number of items.
    pub fn len(&self) -> (r: usize)
        ensures
            r == self@.len(),
    {
        self.items.len()
    }

    /// Appends an open item with the given text.
    pub fn add(&mut self, description: String)
        ensures
            final(self)@ == old(self)@.push((description@, false)),
    {
        self.items.push(ListItem { description, completed: false });
        assert(self@ =~= old(self)@.push((description@, false)));
    }

    /// Removes the item at the 1-based `index` and returns its text; an index
    /// outside `1..=len` changes nothing and reports the length.
    pub fn remove(&mut self, index: usize) -> (r: Result<String, IndexError>)
        ensures
            valid_index(index as int, old(self)@.len()) ==> {
                &&& r is Ok
                &&& r->Ok_0@ == old(self)@[index - 1].0
                &&& final(self)@ == old(self)@.remove(index - 1)
            },
            !valid_index(index as int, old(self)@.len()) ==> {
                &&& r == Err::<String, IndexError>(IndexError::OutOfRange(old(self)@.len() as usize))
                &&& final(self)@ == old(self)@
            },
    {
        let len = self.items.len();
        if index >= 1 && index <= len {
            let removed = self.items.remove(index - 1);
            assert(self@ =~= old(self)@.remove(index - 1));
            Ok(removed.description)
        } else {
            Err(IndexError::OutOfRange(len))
        }
    }

    /// Marks the item at the 1-based `index` as done and returns its text; an
    /// index outside `1..=len` changes nothing and reports the length.
    pub fn complete(&mut self, index: usize) -> (r: Result<String, IndexError>)
        ensures
            valid_index(index as int, old(self)@.len()) ==> {
                &&& r is Ok
                &&& r->Ok_0@ == old(self)@[index - 1].0
                &&& final(self)@ == old(self)@.update(index - 1, (old(self)@[index - 1].0, true))
            },
            !valid_index(index as int, old(self)@.len()) ==> {
                &&& r == Err::<String, IndexError>(IndexError::OutOfRange(old(self)@.len() as usize))
                &&& final(self)@ == old(self)@
            },
    {
        let len = self.items.len();
        if index >= 1 && index <= len {
            let i = index - 1;
            self.items[i].completed = true;
            assert(self@ =~= old(self)@.update(i as int, (old(self)@[i as int].0, true)));
            Ok(self.items[i].description.clone())
        } else {
            Err(IndexError::OutOfRange(len))
        }
    }

    /// The lines that a listing of the given scope shows.
    pub fn list(&self, scope: ListType) -> (r: Vec<ListEntry>)
        ensures
            entry_views(r@) == listing(self@, scope),
    {
        let ghost items = self@;
        let n = self.items.len();
        let mut out: Vec<ListEntry> = Vec::new();
        let mut i: usize = 0;
        while i < n
            invariant
                n == items.len(),
                items == self@,
                i <= n,
                entry_views(out@) == listing(items.take(i as int), scope),
            decreases n - i,
        {
            let item = &self.items[i];
            let ghost pre = items.take(i as int);
            let ghost cur = items.take(i + 1);
            assert(cur.drop_last() =~= pre);
            assert(cur.last() == item@);
            reveal(Seq::filter);
            let ghost kept = pre.filter(keeps(scope));
            assert(entry_views(out@).len() == out@.len());
            assert(listing(pre, scope).len() == kept.len());
            assert(out@.len() == kept.len());
            proof {
                pre.lemma_filter_len(keeps(scope));
            }
            let keep = match scope {
                ListType::All => true,
                ListType::Done => item.completed,
                ListType::Open => !item.completed,
            };
            assert(keeps(scope)(cur.last()) == keep);
            if keep {
                assert(cur.filter(keeps(scope)) == kept.push(item@));
                let marker = match scope {
                    ListType::All => Some(if item.completed { 'X' } else { 'O' }),
                    _ => None,
                };
                let ghost old_out = out@;
                let entry = ListEntry {
                    number: out.len() + 1,
                    description: item.description.clone(),
                    marker,
                };
                assert(entry@ == listing(cur, scope)[kept.len() as int]);
                out.push(entry);
                assert(entry_views(out@) =~= entry_views(old_out).push(entry@));
                assert(listing(cur, scope) =~= listing(pre, scope).push(entry@));
                assert(entry_views(out@) =~= listing(cur, scope));
            } else {
                assert(cur.filter(keeps(scope)) == kept);
                assert(entry_views(out@) =~= listing(cur, scope));
            }
            i = i + 1;
        }
        assert(items.take(n as int) =~= items);
        out
    }
}


/// Adds the item typed on an input line, without the whitespace around it;
/// returns the text added.
pub fn add_new_todo(todos: &mut TodoList, line: &str) -> (added: String)
    ensures
        added@ == trim_of(line@),
        final(todos)@ == old(todos)@.push((trim_of(line@), false)),
{
    let description = trim(line);
    let added = description.clone();
    todos.add(description);
    added
}

/// Removes the item whose 1-based index is typed on an input line; returns
/// its text. Text that is no number, or a number that names no item, changes
/// nothing.
pub fn remove_todo(todos: &mut TodoList, line: &str) -> (r: Result<String, IndexError>)
    ensures
        match index_value(trim_of(line@)) {
            None => r == Err::<String, IndexError>(IndexError::NotANumber) && final(todos)@
                == old(todos)@,
            Some(v) => if valid_index(v as int, old(todos)@.len()) {
                &&& r is Ok
                &&& r->Ok_0@ == old(todos)@[v - 1].0
                &&& final(todos)@ == old(todos)@.remove(v - 1)
            } else {
                &&& r == Err::<String, IndexError>(
                    IndexError::OutOfRange(old(todos)@.len() as usize),
                )
                &&& final(todos)@ == old(todos)@
            },
        },
{
    let text = trim(line);
    match parse_index(text.as_str()) {
        Err(e) => Err(e),
        Ok(index) => todos.remove(index),
    }
}

/// Marks as done the item whose 1-based index is typed on an input line;
/// returns its text. Text that is no number, or a number that names no item,
/// changes nothing.
pub fn complete_todo(todos: &mut TodoList, line: &str) -> (r: Result<String, IndexError>)
    ensures
        match index_value(trim_of(line@)) {
            None => r == Err::<String, IndexError>(IndexError::NotANumber) && final(todos)@
                == old(todos)@,
            Some(v) => if valid_index(v as int, old(todos)@.len()) {
                &&& r is Ok
                &&& r->Ok_0@ == old(todos)@[v - 1].0
                &&& final(todos)@ == old(todos)@.update(v - 1, (old(todos)@[v - 1].0, true))
            } else {
                &&& r == Err::<String, IndexError>(
                    IndexError::OutOfRange(old(todos)@.len() as usize),
                )
                &&& final(todos)@ == old(todos)@
            },
        },
{
    let text = trim(line);
    match parse_index(text.as_str()) {
        Err(e) => Err(e),
        Ok(index) => todos.complete(index),
    }
}

/// Removing the item just added, at its index (the new length), gives back the
/// list as it was and reports the added text; in particular adding to an empty
/// list and removing index 1 leaves it empty.
pub proof fn lemma_add_then_remove(items: Seq<(Seq<char>, bool)>, description: Seq<char>)
    ensures
        valid_index((items.len() + 1) as int, items.push((description, false)).len()),
        items.push((description, false))[items.len() as int].0 == description,
        items.push((description, false)).remove(items.len() as int) == items,
{
    assert(items.push((description, false)).remove(items.len() as int) =~= items);
}

/// Index 0 and the index one past the end name no item, so `remove` and
/// `complete` leave the list as it is and report its length.
pub proof fn lemma_out_of_range(items: Seq<(Seq<char>, bool)>)
    ensures
        !valid_index(0, items.len()),
        !valid_index((items.len() + 1) as int, items.len()),
{
}

/// Completing the same item twice: the second call succeeds too and changes
/// nothing more, and the item stays done.
pub proof fn lemma_complete_twice(items: Seq<(Seq<char>, bool)>, index: int)
    requires
        valid_index(index, items.len()),
    ensures
        ({
            let once = items.update(index - 1, (items[index - 1].0, true));
            &&& valid_index(index, once.len())
            &&& once[index - 1].1
            &&& once[index - 1].0 == items[index - 1].0
            &&& once.update(index - 1, (once[index - 1].0, true)) == once
        }),
{
    let once = items.update(index - 1, (items[index - 1].0, true));
    assert(once.update(index - 1, (once[index - 1].0, true)) =~= once);
}

} // verus!

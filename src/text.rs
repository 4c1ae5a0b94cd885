use vstd::prelude::*;

verus! {

/// Copies the characters of `s` into a vector, one element per `char`.
pub fn chars_of(s: &str) -> (r: Vec<char>)
    ensures
        r@ == s@,
{
    let mut r: Vec<char> = Vec::new();
    for c in it: s.chars()
        invariant
            r@ == it.seq().take(it.index() as int),
            it.seq() == s@,
    {
        r.push(c);
    }
    r
}

/// Whether two strings hold the same characters.
pub fn str_equals(a: &str, b: &str) -> (r: bool)
    ensures
        r == (a@ == b@),
{
    let n = a.unicode_len();
    if n != b.unicode_len() {
        return false;
    }
    let mut i: usize = 0;
    while i < n
        invariant
            n == a@.len(),
            n == b@.len(),
            i <= n,
            forall|k: int| 0 <= k < i ==> a@[k] == b@[k],
        decreases n - i,
    {
        if a.get_char(i) != b.get_char(i) {
            return false;
        }
        i = i + 1;
    }
    assert(a@ =~= b@);
    true
}


/// The separators of command words: ASCII space, tab, line feed, form feed and carriage return.
pub open spec fn is_ascii_ws(c: char) -> bool {
    c == ' ' || c == '\t' || c == '\n' || c == '\x0C' || c == '\r'
}

/// The maximal runs of non-separator characters of `s`, in order.
pub open spec fn tokens(s: Seq<char>) -> Seq<Seq<char>>
    decreases s.len(),
{
    if s.len() == 0 {
        seq![]
    } else {
        let rest = tokens(s.drop_last());
        let c = s.last();
        if is_ascii_ws(c) {
            rest
        } else if s.len() >= 2 && !is_ascii_ws(s[s.len() - 2]) {
            rest.drop_last().push(rest.last().push(c))
        } else {
            rest.push(seq![c])
        }
    }
}

/// Splits `s` into its words, as `str::split_ascii_whitespace` does.
pub fn split_words(s: &str) -> (r: Vec<&str>)
    ensures
        r@.len() == tokens(s@).len(),
        forall|k: int| 0 <= k < r@.len() ==> #[trigger] r@[k]@ == tokens(s@)[k],
{
    let cs = chars_of(s);
    let n = cs.len();
    let mut spans: Vec<(usize, usize)> = Vec::new();
    let mut i: usize = 0;
    while i < n
        invariant
            n == cs@.len(),
            cs@ == s@,
            i <= n,
            spans@.len() == tokens(s@.take(i as int)).len(),
            forall|k: int|
                0 <= k < spans@.len() ==> {
                    &&& #[trigger] spans@[k].0 < spans@[k].1 <= i
                    &&& s@.subrange(spans@[k].0 as int, spans@[k].1 as int) == tokens(
                        s@.take(i as int),
                    )[k]
                },
            i > 0 && !is_ascii_ws(s@[i - 1]) ==> spans@.len() > 0 && spans@.last().1 == i,
        decreases n - i,
    {
        let c = cs[i];
        let ghost pre = s@.take(i as int);
        let ghost cur = s@.take(i + 1);
        let ghost old_spans = spans@;
        assert(cur.drop_last() =~= pre);
        assert(cur.last() == c);
        if is_ws_char(c) {
            assert(tokens(cur) == tokens(pre));
        } else if i > 0 && !is_ws_char(cs[i - 1]) {
            assert(cur[cur.len() - 2] == s@[i - 1]);
            assert(tokens(cur) == tokens(pre).drop_last().push(tokens(pre).last().push(c)));
            let last = spans.len() - 1;
            let start = spans[last].0;
            spans.set(last, (start, i + 1));
            proof {
                assert(s@.subrange(start as int, i + 1) =~= s@.subrange(start as int, i as int).push(
                    c,
                ));
                assert forall|k: int| 0 <= k < spans@.len() implies {
                    &&& spans@[k].0 < spans@[k].1 <= i + 1
                    &&& s@.subrange(spans@[k].0 as int, spans@[k].1 as int) == tokens(cur)[k]
                } by {
                    if k < last {
                        assert(spans@[k] == old_spans[k]);
                    } else {
                        assert(old_spans[k].0 < old_spans[k].1);
                        assert(tokens(pre)[k] == s@.subrange(start as int, i as int));
                        assert(tokens(cur)[k] == tokens(pre)[k].push(c));
                    }
                }
            }
        } else {
            if i > 0 {
                assert(cur[cur.len() - 2] == s@[i - 1]);
            }
            assert(tokens(cur) == tokens(pre).push(seq![c]));
            spans.push((i, i + 1));
            proof {
                assert(s@.subrange(i as int, i + 1) =~= seq![c]);
                assert forall|k: int| 0 <= k < spans@.len() implies {
                    &&& spans@[k].0 < spans@[k].1 <= i + 1
                    &&& s@.subrange(spans@[k].0 as int, spans@[k].1 as int) == tokens(cur)[k]
                } by {
                    if k < old_spans.len() {
                        assert(spans@[k] == old_spans[k]);
                    }
                }
            }
        }
        i = i + 1;
    }
    assert(s@.take(n as int) =~= s@);
    assert(tokens(s@.take(n as int)) == tokens(s@));
    let mut r: Vec<&str> = Vec::new();
    let mut j: usize = 0;
    while j < spans.len()
        invariant
            n == s@.len(),
            j <= spans@.len(),
            spans@.len() == tokens(s@).len(),
            forall|k: int|
                0 <= k < spans@.len() ==> {
                    &&& #[trigger] spans@[k].0 < spans@[k].1 <= n
                    &&& s@.subrange(spans@[k].0 as int, spans@[k].1 as int) == tokens(s@)[k]
                },
            r@.len() == j,
            forall|k: int| 0 <= k < j ==> #[trigger] r@[k]@ == tokens(s@)[k],
        decreases spans@.len() - j,
    {
        let (a, b) = spans[j];
        assert(a < b <= n);
        r.push(s.substring_char(a, b));
        j = j + 1;
    }
    r
}

/// Whether `c` separates command words.
pub fn is_ws_char(c: char) -> (r: bool)
    ensures
        r == is_ascii_ws(c),
{
    c == ' ' || c == '\t' || c == '\n' || c == '\x0C' || c == '\r'
}

/// The characters with the Unicode property White_Space.
pub open spec fn is_white_space(c: char) -> bool {
    ||| '\u{0009}' <= c && c <= '\u{000D}'
    ||| c == '\u{0020}'
    ||| c == '\u{0085}'
    ||| c == '\u{00A0}'
    ||| c == '\u{1680}'
    ||| '\u{2000}' <= c && c <= '\u{200A}'
    ||| c == '\u{2028}'
    ||| c == '\u{2029}'
    ||| c == '\u{202F}'
    ||| c == '\u{205F}'
    ||| c == '\u{3000}'
}

/// A text without its leading White_Space.
pub open spec fn trim_start_of(s: Seq<char>) -> Seq<char>
    decreases s.len(),
{
    if s.len() > 0 && is_white_space(s[0]) {
        trim_start_of(s.drop_first())
    } else {
        s
    }
}

/// A text without its trailing White_Space.
pub open spec fn trim_end_of(s: Seq<char>) -> Seq<char>
    decreases s.len(),
{
    if s.len() > 0 && is_white_space(s.last()) {
        trim_end_of(s.drop_last())
    } else {
        s
    }
}

/// A text without its leading and trailing White_Space.
pub open spec fn trim_of(s: Seq<char>) -> Seq<char> {
    trim_end_of(trim_start_of(s))
}

/// Relies on `str::trim`: the text without leading and trailing whitespace,
/// which its documentation defines as the Unicode property White_Space.
#[verifier::external_body]
pub fn trim(s: &str) -> (r: String)
    ensures
        r@ == trim_of(s@),
{
    s.trim().to_string()
}

} // verus!

//! Scanning a raw HTTP response head for a header value. The head is split
//! into lines, each line at its first `':'` into name and value, and the
//! last line with a matching name wins.

use vstd::prelude::*;

use crate::text::{find_first, lemma_find_first, lemma_find_first_is};

verus! {

/// A line with its trailing carriage return, if any, removed.
pub open spec fn strip_cr(l: Seq<char>) -> Seq<char> {
    if l.len() > 0 && l[l.len() - 1] == '\r' {
        l.drop_last()
    } else {
        l
    }
}

/// The lines of `s`: split at every newline, each with a trailing carriage
/// return removed; a final line without a newline counts too.
pub open spec fn lines_of(s: Seq<char>) -> Seq<Seq<char>>
    decreases s.len(),
    via lines_of_decreases
{
    if s.len() == 0 {
        Seq::empty()
    } else {
        match find_first(s, '\n') {
            None => seq![strip_cr(s)],
            Some(i) => seq![strip_cr(s.subrange(0, i))] + lines_of(
                s.subrange(i + 1, s.len() as int),
            ),
        }
    }
}

#[via_fn]
proof fn lines_of_decreases(s: Seq<char>) {
    if s.len() != 0 {
        lemma_find_first(s, '\n');
    }
}

/// A line split at its first `':'` into name and value; a line without a
/// `':'` carries no header.
pub open spec fn split_colon(l: Seq<char>) -> Option<(Seq<char>, Seq<char>)> {
    match find_first(l, ':') {
        None => None,
        Some(i) => Some((l.subrange(0, i), l.subrange(i + 1, l.len() as int))),
    }
}

/// The value of the last line among `lines` whose name is `name`.
pub open spec fn lookup_lines(lines: Seq<Seq<char>>, name: Seq<char>) -> Option<Seq<char>>
    decreases lines.len(),
{
    if lines.len() == 0 {
        None
    } else {
        match split_colon(lines.last()) {
            Some(kv) => if kv.0 == name {
                Some(kv.1)
            } else {
                lookup_lines(lines.drop_last(), name)
            },
            None => lookup_lines(lines.drop_last(), name),
        }
    }
}

/// The value of header `name` in the raw response head `head`.
pub open spec fn header_value(head: Seq<char>, name: Seq<char>) -> Option<Seq<char>> {
    lookup_lines(lines_of(head), name)
}

/// The second option where the first is `None`.
pub open spec fn or_else(a: Option<Seq<char>>, b: Option<Seq<char>>) -> Option<Seq<char>> {
    if a is Some {
        a
    } else {
        b
    }
}

proof fn lemma_lookup_append(l1: Seq<Seq<char>>, l2: Seq<Seq<char>>, name: Seq<char>)
    ensures
        lookup_lines(l1 + l2, name) == or_else(lookup_lines(l2, name), lookup_lines(l1, name)),
    decreases l2.len(),
{
    if l2.len() == 0 {
        assert(l1 + l2 =~= l1);
    } else {
        lemma_lookup_append(l1, l2.drop_last(), name);
        assert((l1 + l2).drop_last() =~= l1 + l2.drop_last());
        assert((l1 + l2).last() == l2.last());
    }
}

proof fn lemma_lines_split(s: Seq<char>, i: int)
    requires
        0 <= i < s.len(),
        s[i] == '\n',
        forall|j: int| 0 <= j < i ==> s[j] != '\n',
    ensures
        lines_of(s) == seq![strip_cr(s.subrange(0, i))] + lines_of(
            s.subrange(i + 1, s.len() as int),
        ),
{
    lemma_find_first_is(s, '\n', i);
}

proof fn lemma_lines_single(s: Seq<char>)
    requires
        s.len() > 0,
        forall|j: int| 0 <= j < s.len() ==> s[j] != '\n',
    ensures
        lines_of(s) == seq![strip_cr(s)],
{
    lemma_find_first(s, '\n');
    if find_first(s, '\n') is Some {
        assert(false);
    }
}

proof fn lemma_lookup_single(l: Seq<char>, name: Seq<char>)
    ensures
        lookup_lines(seq![l], name) == (match split_colon(l) {
            Some(kv) => if kv.0 == name {
                Some(kv.1)
            } else {
                None
            },
            None => None,
        }),
{
    let ls = seq![l];
    assert(ls.last() == l);
    assert(ls.drop_last() =~= Seq::<Seq<char>>::empty());
    assert(lookup_lines(Seq::<Seq<char>>::empty(), name) is None);
}

/// The value of the last `name` header of the raw response head, scanning
/// the head line by line.
pub fn find_header_value(head: &str, name: &str) -> (r: Option<String>)
    ensures
        match r {
            Some(v) => header_value(head@, name@) == Some(v@),
            None => header_value(head@, name@) is None,
        },
{
    let n = head.unicode_len();
    let mut start: usize = 0;
    let mut result: Option<String> = None;
    proof {
        assert(head@.subrange(0, n as int) =~= head@);
    }
    while start < n
        invariant
            start <= n,
            n as nat == head@.len(),
            ({
                let rest = head@.subrange(start as int, n as int);
                let cur = match &result {
                    Some(v) => Some(v@),
                    None => None::<Seq<char>>,
                };
                or_else(lookup_lines(lines_of(rest), name@), cur) == header_value(head@, name@)
            }),
        decreases n - start,
    {
        let ghost rest = head@.subrange(start as int, n as int);
        let ghost cur0 = match &result {
            Some(v) => Some(v@),
            None => None::<Seq<char>>,
        };
        // find the end of the current line
        let mut j = start;
        while j < n && head.get_char(j) != '\n'
            invariant
                start <= j <= n,
                n as nat == head@.len(),
                forall|k: int| start <= k < j ==> head@[k] != '\n',
            decreases n - j,
        {
            j += 1;
        }
        let ghost line_raw = head@.subrange(start as int, j as int);
        // strip a trailing carriage return
        let mut line_end = j;
        if line_end > start && head.get_char(line_end - 1) == '\r' {
            line_end -= 1;
        }
        let ghost line = head@.subrange(start as int, line_end as int);
        proof {
            assert(line =~= strip_cr(line_raw));
        }
        // split the line at its first ':'
        let mut k = start;
        while k < line_end && head.get_char(k) != ':'
            invariant
                start <= k <= line_end,
                line_end as nat <= head@.len(),
                forall|m: int| start <= m < k ==> head@[m] != ':',
            decreases line_end - k,
        {
            k += 1;
        }
        if k < line_end {
            // a header line; take its value if the name matches
            proof {
                assert(head@[k as int] == ':');
                assert(forall|m: int|
                    0 <= m < k - start ==> line[m] == head@[m + start] && line[m] != ':');
                lemma_find_first_is(line, ':', k - start);
                assert(line.subrange(0, k - start) =~= head@.subrange(start as int, k as int));
                assert(line.subrange(k - start + 1, line.len() as int) =~= head@.subrange(
                    k + 1,
                    line_end as int,
                ));
            }
            let key = head.substring_char(start, k);
            if crate::text::str_eq(key, name) {
                result = Some(head.substring_char(k + 1, line_end).to_owned());
            }
        } else {
            proof {
                lemma_find_first(line, ':');
                if find_first(line, ':') is Some {
                    assert(false);
                }
            }
        }
        proof {
            let cur1 = match &result {
                Some(v) => Some(v@),
                None => None::<Seq<char>>,
            };
            lemma_lookup_single(line, name@);
            assert(cur1 == or_else(lookup_lines(seq![line], name@), cur0));
            if j < n {
                // an inner line, ending at a newline
                assert(rest[j - start] == '\n');
                lemma_lines_split(rest, j - start);
                assert(rest.subrange(0, j - start) =~= line_raw);
                let rest2 = rest.subrange(j - start + 1, rest.len() as int);
                assert(rest2 =~= head@.subrange(j + 1, n as int));
                lemma_lookup_append(seq![line], lines_of(rest2), name@);
                assert(seq![strip_cr(line_raw)] + lines_of(rest2) =~= seq![line] + lines_of(
                    rest2,
                ));
            } else {
                // the final line, without a newline
                assert(rest.len() > 0);
                assert(forall|m: int| 0 <= m < rest.len() ==> rest[m] == head@[m + start]);
                lemma_lines_single(rest);
                assert(rest =~= line_raw);
            }
        }
        if j < n {
            start = j + 1;
        } else {
            start = n;
        }
    }
    proof {
        assert(head@.subrange(n as int, n as int) =~= Seq::<char>::empty());
    }
    result
}

} // verus!

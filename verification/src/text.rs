//! Character-level text operations shared by the lexers and the resolver:
//! splitting a string by a separator, joining pieces with a separator, and
//! reading an unsigned decimal number, each specified over sequences of
//! characters.

use vstd::prelude::*;

verus! {

// ---------------------------------------------------------------------------
// Splitting by a separator
// ---------------------------------------------------------------------------

/// The separator `sep` occurs in `s` starting exactly at position `i`.
pub open spec fn match_at(s: Seq<char>, sep: Seq<char>, i: int) -> bool {
    &&& 0 <= i
    &&& i + sep.len() <= s.len()
    &&& s.subrange(i, i + sep.len() as int) == sep
}

/// Position of the first occurrence of `sep` in `s` at or after `i`.
pub open spec fn first_match_from(s: Seq<char>, sep: Seq<char>, i: int) -> Option<int>
    decreases s.len() - i,
        when 0 <= i && sep.len() >= 1
{
    if i + sep.len() > s.len() {
        None
    } else if s.subrange(i, i + sep.len() as int) == sep {
        Some(i)
    } else {
        first_match_from(s, sep, i + 1)
    }
}

proof fn lemma_first_match_from_bounds(s: Seq<char>, sep: Seq<char>, i: int, j: int)
    requires
        0 <= i,
        sep.len() >= 1,
        first_match_from(s, sep, i) == Some(j),
    ensures
        i <= j,
        match_at(s, sep, j),
        forall|k: int| i <= k < j ==> !match_at(s, sep, k),
    decreases s.len() - i,
{
    if i + sep.len() > s.len() {
        // contradicts the Some result
    } else if s.subrange(i, i + sep.len() as int) == sep {
        // j == i
    } else {
        lemma_first_match_from_bounds(s, sep, i + 1, j);
    }
}

/// The pieces of `s` cut at each leftmost occurrence of `sep`, scanning from
/// `start`; the occurrences themselves are dropped. With no occurrence left,
/// the rest of `s` is the one remaining piece (so the result is never empty).
pub open spec fn split_chars_at(s: Seq<char>, sep: Seq<char>, start: int) -> Seq<Seq<char>>
    decreases s.len() - start,
        when 0 <= start <= s.len() && sep.len() >= 1
    via split_chars_at_decreases
{
    match first_match_from(s, sep, start) {
        None => seq![s.subrange(start, s.len() as int)],
        Some(i) => seq![s.subrange(start, i)] + split_chars_at(s, sep, i + sep.len() as int),
    }
}

#[via_fn]
proof fn split_chars_at_decreases(s: Seq<char>, sep: Seq<char>, start: int) {
    match first_match_from(s, sep, start) {
        None => {},
        Some(i) => {
            lemma_first_match_from_bounds(s, sep, start, i);
        },
    }
}

/// What `str::split` yields for a non-empty separator, in order. A separator
/// that is empty never arises from the placeholder grammar; it is mapped to
/// the whole string as a single piece to keep the function total.
pub open spec fn split_chars(s: Seq<char>, sep: Seq<char>) -> Seq<Seq<char>> {
    if sep.len() == 0 {
        seq![s]
    } else {
        split_chars_at(s, sep, 0)
    }
}

/// Whether `sep` occurs in `s` starting at position `pos`, checked by
/// comparing characters.
fn matches_at(s: &str, sep: &str, pos: usize) -> (b: bool)
    requires
        pos + sep@.len() <= s@.len(),
    ensures
        b == match_at(s@, sep@, pos as int),
{
    let n: usize = s.unicode_len();
    let m: usize = sep.unicode_len();
    let mut k: usize = 0;
    while k < m
        invariant
            0 <= k <= m,
            n == s@.len(),
            m == sep@.len(),
            pos + m <= n,
            forall|kk: int| 0 <= kk < k ==> s@[pos + kk] == sep@[kk],
        decreases m - k,
    {
        if s.get_char(pos + k) != sep.get_char(k) {
            proof {
                assert(s@.subrange(pos as int, pos + m) != sep@) by {
                    assert(s@.subrange(pos as int, pos + m)[k as int] == s@[pos + k]);
                }
            }
            return false;
        }
        k = k + 1;
    }
    proof {
        assert(s@.subrange(pos as int, pos + m) =~= sep@);
    }
    true
}

/// The pieces of `s` separated by `sep`, as `str::split` produces them for a
/// non-empty separator.
pub fn split_str(s: &str, sep: &str) -> (r: Vec<String>)
    requires
        sep@.len() >= 1,
    ensures
        r.deep_view() == split_chars(s@, sep@),
{
    let n: usize = s.unicode_len();
    let m: usize = sep.unicode_len();
    let mut r: Vec<String> = Vec::new();
    let mut start: usize = 0;
    let mut cur: usize = 0;
    loop
        invariant
            n == s@.len(),
            m == sep@.len(),
            m >= 1,
            start <= cur <= n,
            first_match_from(s@, sep@, start as int) == first_match_from(s@, sep@, cur as int),
            split_chars(s@, sep@) == r.deep_view() + split_chars_at(s@, sep@, start as int),
        ensures
            r.deep_view() == split_chars(s@, sep@),
        decreases n - cur,
    {
        if n - cur < m {
            // No further occurrence: the rest is the final piece.
            let piece: String = s.substring_char(start, n).to_owned();
            let ghost pieces = r.deep_view();
            r.push(piece);
            proof {
                assert(first_match_from(s@, sep@, cur as int) is None);
                assert(r.deep_view() =~~= pieces + seq![piece@]);
                assert(r.deep_view() =~~= split_chars(s@, sep@));
            }
            return r;
        }
        if matches_at(s, sep, cur) {
            let piece: String = s.substring_char(start, cur).to_owned();
            let ghost pieces = r.deep_view();
            r.push(piece);
            proof {
                assert(first_match_from(s@, sep@, cur as int) == Some(cur as int));
                assert(split_chars_at(s@, sep@, start as int) == seq![s@.subrange(
                    start as int,
                    cur as int,
                )] + split_chars_at(s@, sep@, cur + m));
                assert(r.deep_view() =~~= pieces + seq![piece@]);
                assert((pieces + seq![piece@]) + split_chars_at(s@, sep@, cur + m) =~~= pieces + (
                seq![piece@] + split_chars_at(s@, sep@, cur + m)));
            }
            start = cur + m;
            cur = start;
        } else {
            proof {
                assert(first_match_from(s@, sep@, cur as int) == first_match_from(
                    s@,
                    sep@,
                    cur + 1,
                ));
            }
            cur = cur + 1;
        }
    }
}

/// The pieces of every field split by `sep`, flattened in field order then
/// piece order.
pub open spec fn split_all(fields: Seq<Seq<char>>, sep: Seq<char>) -> Seq<Seq<char>>
    decreases fields.len(),
{
    if fields.len() == 0 {
        Seq::empty()
    } else {
        split_chars(fields[0], sep) + split_all(fields.drop_first(), sep)
    }
}

pub proof fn lemma_split_all_push(fields: Seq<Seq<char>>, f: Seq<char>, sep: Seq<char>)
    ensures
        split_all(fields.push(f), sep) == split_all(fields, sep) + split_chars(f, sep),
    decreases fields.len(),
{
    if fields.len() == 0 {
        assert(fields.push(f).drop_first() =~= Seq::<Seq<char>>::empty());
        assert(split_all(Seq::<Seq<char>>::empty(), sep) == Seq::<Seq<char>>::empty());
        assert(split_all(fields.push(f), sep) =~= split_chars(f, sep));
        assert(split_all(fields, sep) + split_chars(f, sep) =~= split_chars(f, sep));
    } else {
        lemma_split_all_push(fields.drop_first(), f, sep);
        assert(fields.push(f).drop_first() =~= fields.drop_first().push(f));
        assert(split_all(fields.push(f), sep) =~= split_all(fields, sep) + split_chars(f, sep));
    }
}

// ---------------------------------------------------------------------------
// Character runs
// ---------------------------------------------------------------------------

/// End of the maximal run of characters satisfying `pred` that starts at
/// position `i` of `s`: the first position at or after `i` that is out of
/// `s` or whose character fails `pred`.
pub open spec fn run_end(s: Seq<char>, i: int, pred: spec_fn(char) -> bool) -> int
    decreases s.len() - i,
        when 0 <= i <= s.len()
{
    if i == s.len() || !pred(s[i]) {
        i
    } else {
        run_end(s, i + 1, pred)
    }
}

// ---------------------------------------------------------------------------
// Joining with a separator
// ---------------------------------------------------------------------------

/// The pieces of `parts` concatenated with `sep` between adjacent pieces.
pub open spec fn join_chars(parts: Seq<Seq<char>>, sep: Seq<char>) -> Seq<char>
    decreases parts.len(),
{
    if parts.len() == 0 {
        Seq::empty()
    } else if parts.len() == 1 {
        parts[0]
    } else {
        parts[0] + sep + join_chars(parts.drop_first(), sep)
    }
}

proof fn lemma_join_chars_push(parts: Seq<Seq<char>>, sep: Seq<char>, x: Seq<char>)
    requires
        parts.len() >= 1,
    ensures
        join_chars(parts.push(x), sep) == join_chars(parts, sep) + sep + x,
    decreases parts.len(),
{
    if parts.len() == 1 {
        assert(parts.push(x).drop_first() =~= seq![x]);
        assert(join_chars(seq![x], sep) == x);
        assert(join_chars(parts.push(x), sep) =~= parts[0] + sep + x);
        assert(join_chars(parts, sep) + sep + x =~= parts[0] + sep + x);
    } else {
        lemma_join_chars_push(parts.drop_first(), sep, x);
        assert(parts.push(x).drop_first() =~= parts.drop_first().push(x));
        assert(join_chars(parts.push(x), sep) =~= join_chars(parts, sep) + sep + x);
    }
}

/// The pieces of `v` joined with `sep` between adjacent pieces, as
/// `[String]::join` produces it.
pub fn join_strs(v: &Vec<String>, sep: &str) -> (r: String)
    ensures
        r@ == join_chars(v.deep_view(), sep@),
{
    let mut r: String = String::new();
    let n: usize = v.len();
    let mut i: usize = 0;
    while i < n
        invariant
            n == v.len(),
            0 <= i <= n,
            r@ == join_chars(v.deep_view().take(i as int), sep@),
        decreases n - i,
    {
        if i > 0 {
            r.append(sep);
        }
        r.append(v[i].as_str());
        proof {
            let parts = v.deep_view();
            assert(parts.take(i + 1) =~= parts.take(i as int).push(parts[i as int]));
            if i > 0 {
                lemma_join_chars_push(parts.take(i as int), sep@, parts[i as int]);
            } else {
                assert(join_chars(parts.take(1), sep@) == parts[0]);
            }
        }
        i = i + 1;
    }
    proof {
        assert(v.deep_view().take(n as int) =~= v.deep_view());
    }
    r
}

// ---------------------------------------------------------------------------
// Decimal digits
// ---------------------------------------------------------------------------

/// A decimal digit.
pub open spec fn is_digit(c: char) -> bool {
    '0' <= c && c <= '9'
}

/// The numeric value of one decimal digit.
pub open spec fn digit_val(c: char) -> nat
    recommends
        is_digit(c),
{
    ((c as int) - ('0' as int)) as nat
}

/// The value of a run of decimal digits, most significant first.
pub open spec fn digits_val(ds: Seq<char>) -> nat
    decreases ds.len(),
{
    if ds.len() == 0 {
        0
    } else {
        digits_val(ds.drop_last()) * 10 + digit_val(ds.last())
    }
}

proof fn lemma_digits_val_prefix_le(ds: Seq<char>, i: int)
    requires
        0 <= i <= ds.len(),
    ensures
        digits_val(ds.take(i)) <= digits_val(ds),
    decreases ds.len() - i,
{
    if i < ds.len() {
        lemma_digits_val_prefix_le(ds, i + 1);
        assert(ds.take(i + 1).drop_last() =~= ds.take(i));
        assert(digits_val(ds.take(i)) <= digits_val(ds.take(i + 1)));
    } else {
        assert(ds.take(i) =~= ds);
    }
}

/// The value of the digit run `s[from..to]`, or `None` when it does not fit
/// in `usize`.
pub fn parse_usize(s: &str, from: usize, to: usize) -> (r: Option<usize>)
    requires
        from <= to <= s@.len(),
        forall|i: int| from <= i < to ==> is_digit(s@[i]),
    ensures
        match r {
            Some(v) => v == digits_val(s@.subrange(from as int, to as int)),
            None => digits_val(s@.subrange(from as int, to as int)) > usize::MAX,
        },
{
    let ghost ds = s@.subrange(from as int, to as int);
    let mut acc: usize = 0;
    let mut i: usize = from;
    while i < to
        invariant
            from <= i <= to <= s@.len(),
            forall|k: int| from <= k < to ==> is_digit(s@[k]),
            ds == s@.subrange(from as int, to as int),
            acc == digits_val(ds.take(i - from)),
        decreases to - i,
    {
        let c: char = s.get_char(i);
        assert(is_digit(c));
        let d: usize = (c as u32 - '0' as u32) as usize;
        proof {
            assert(ds.take(i - from + 1).drop_last() =~= ds.take(i - from));
            assert(ds.take(i - from + 1).last() == c);
        }
        let shifted: usize = match acc.checked_mul(10) {
            Some(x) => x,
            None => {
                proof {
                    lemma_digits_val_prefix_le(ds, i - from + 1);
                }
                return None;
            },
        };
        let next: usize = match shifted.checked_add(d) {
            Some(x) => x,
            None => {
                proof {
                    lemma_digits_val_prefix_le(ds, i - from + 1);
                }
                return None;
            },
        };
        acc = next;
        i = i + 1;
    }
    proof {
        assert(ds.take(to - from) =~= ds);
    }
    Some(acc)
}

} // verus!

//! Cutting the input lines into entries.
//!
//! The input arrives as lines; depending on the configuration they are
//! passed through one per entry, joined into a single entry, regrouped into
//! entries of a fixed number of arguments, or re-split by a custom entry
//! separator.

use vstd::prelude::*;

use crate::cli::EntriesOptions;
use crate::text::{join_chars, join_strs, split_all, split_chars, split_str};

verus! {

/// The lines regrouped into chunks of `size` arguments, each chunk joined
/// with `sep`; the last chunk holds whatever remains.
pub open spec fn chunks_joined(args: Seq<Seq<char>>, size: usize, sep: Seq<char>) -> Seq<Seq<char>>
    decreases args.len(),
        when size > 0
{
    if args.len() == 0 {
        Seq::empty()
    } else if args.len() <= size {
        seq![join_chars(args, sep)]
    } else {
        seq![join_chars(args.take(size as int), sep)] + chunks_joined(
            args.skip(size as int),
            size,
            sep,
        )
    }
}

/// What the entry-splitting step yields for the given configuration: one
/// entry joining everything, chunks of a fixed size, the lines themselves,
/// or the concatenated lines re-split by the entry separator.
pub open spec fn entries_of_lines(
    lines: Seq<Seq<char>>,
    single_entry: bool,
    entry_size: usize,
    entries_separator: Seq<char>,
    args_separator: Seq<char>,
) -> Seq<Seq<char>> {
    if single_entry {
        seq![join_chars(lines, args_separator)]
    } else if entry_size > 0 {
        chunks_joined(split_all(lines, args_separator), entry_size, args_separator)
    } else if entries_separator == seq!['\n'] {
        lines
    } else {
        split_chars(join_chars(lines, Seq::empty()), entries_separator)
    }
}

/// The arguments of all lines flattened in order: each line split by `sep`,
/// line order kept, piece order kept.
fn split_lines(stdin_lines: &Vec<String>, sep: &str) -> (r: Vec<String>)
    requires
        sep@.len() >= 1,
    ensures
        r.deep_view() == split_all(stdin_lines.deep_view(), sep@),
{
    let ghost lines = stdin_lines.deep_view();
    let n: usize = stdin_lines.len();
    let mut r: Vec<String> = Vec::new();
    let mut i: usize = 0;
    proof {
        assert(r.deep_view() =~= split_all(lines.take(0), sep@));
    }
    while i < n
        invariant
            0 <= i <= n,
            n == stdin_lines.len(),
            lines == stdin_lines.deep_view(),
            sep@.len() >= 1,
            r.deep_view() == split_all(lines.take(i as int), sep@),
        decreases n - i,
    {
        let mut pieces: Vec<String> = split_str(stdin_lines[i].as_str(), sep);
        let ghost prev = r.deep_view();
        r.append(&mut pieces);
        proof {
            crate::text::lemma_split_all_push(lines.take(i as int), lines[i as int], sep@);
            assert(lines.take(i + 1) =~= lines.take(i as int).push(lines[i as int]));
            assert(r.deep_view() =~~= split_all(lines.take(i + 1), sep@));
        }
        i = i + 1;
    }
    proof {
        assert(lines.take(n as int) =~= lines);
    }
    r
}

/// All arguments of the input, regrouped into entries of `size` arguments
/// each, every entry joined back with `sep`; the last entry holds whatever
/// remains.
pub fn split_by_size(stdin_lines: Vec<String>, size: usize, sep: &str) -> (r: Vec<String>)
    requires
        size > 0,
        sep@.len() >= 1,
    ensures
        r.deep_view() == chunks_joined(split_all(stdin_lines.deep_view(), sep@), size, sep@),
{
    let all_args: Vec<String> = split_lines(&stdin_lines, sep);
    let ghost alldv = all_args.deep_view();
    let n: usize = all_args.len();
    let mut r: Vec<String> = Vec::new();
    let mut idx: usize = 0;
    proof {
        assert(alldv.skip(0) =~= alldv);
        assert(r.deep_view() + chunks_joined(alldv, size, sep@) =~= chunks_joined(
            alldv,
            size,
            sep@,
        ));
    }
    while idx < n
        invariant
            0 <= idx <= n,
            n == all_args.len(),
            alldv == all_args.deep_view(),
            size > 0,
            chunks_joined(alldv, size, sep@) == r.deep_view() + chunks_joined(
                alldv.skip(idx as int),
                size,
                sep@,
            ),
        decreases n - idx,
    {
        let c: usize = if n - idx < size {
            n - idx
        } else {
            size
        };
        let mut chunk: Vec<String> = Vec::new();
        let mut k: usize = 0;
        while k < c
            invariant
                0 <= k <= c,
                idx + c <= n,
                n == all_args.len(),
                alldv == all_args.deep_view(),
                chunk.deep_view() == alldv.subrange(idx as int, idx + k),
            decreases c - k,
        {
            let elem: &String = &all_args[idx + k];
            proof {
                assert(elem@ == alldv[idx + k]);
            }
            let ghost prevc = chunk.deep_view();
            chunk.push(elem.clone());
            proof {
                assert(chunk.deep_view() =~~= prevc.push(alldv[idx + k]));
                assert(prevc.push(alldv[idx + k]) =~~= alldv.subrange(idx as int, idx + k + 1));
            }
            k = k + 1;
        }
        let joined: String = join_strs(&chunk, sep);
        let ghost prev = r.deep_view();
        r.push(joined);
        proof {
            let rest = alldv.skip(idx as int);
            if n - idx <= size {
                assert(rest.len() <= size);
                assert(alldv.subrange(idx as int, idx + c) =~= rest);
                assert(chunks_joined(rest, size, sep@) == seq![join_chars(rest, sep@)]);
                assert(alldv.skip(idx + c) =~= Seq::<Seq<char>>::empty());
                assert(chunks_joined(alldv.skip(idx + c), size, sep@) == Seq::<
                    Seq<char>,
                >::empty());
                assert(r.deep_view() =~= prev.push(join_chars(rest, sep@)));
                assert(prev.push(join_chars(rest, sep@)) =~= prev + chunks_joined(
                    rest,
                    size,
                    sep@,
                ));
                assert(r.deep_view() + chunks_joined(alldv.skip(idx + c), size, sep@)
                    =~= r.deep_view());
            } else {
                assert(rest.len() > size);
                assert(c == size);
                assert(alldv.subrange(idx as int, idx + c) =~= rest.take(size as int));
                assert(rest.skip(size as int) =~= alldv.skip(idx + c));
                assert(chunks_joined(rest, size, sep@) == seq![join_chars(
                    rest.take(size as int),
                    sep@,
                )] + chunks_joined(alldv.skip(idx + c), size, sep@));
                assert(r.deep_view() =~= prev.push(join_chars(rest.take(size as int), sep@)));
                assert(prev + (seq![join_chars(rest.take(size as int), sep@)] + chunks_joined(
                    alldv.skip(idx + c),
                    size,
                    sep@,
                )) =~= r.deep_view() + chunks_joined(alldv.skip(idx + c), size, sep@));
            }
        }
        idx = idx + c;
    }
    proof {
        assert(alldv.skip(n as int) =~= Seq::<Seq<char>>::empty());
        assert(chunks_joined(alldv.skip(n as int), size, sep@) == Seq::<Seq<char>>::empty());
        assert(r.deep_view() + Seq::<Seq<char>>::empty() =~= r.deep_view());
    }
    r
}

/// The input lines cut into entries as the configuration asks: one joined
/// entry, fixed-size entries, the lines themselves for the newline
/// separator, or the concatenated lines re-split by the entry separator.
pub fn split_input_lines_into_entries(
    stdin_lines: Vec<String>,
    entries: &EntriesOptions,
    args_separator: &str,
) -> (r: Vec<String>)
    requires
        args_separator@.len() >= 1,
        entries.entries_separator@.len() >= 1,
    ensures
        r.deep_view() == entries_of_lines(
            stdin_lines.deep_view(),
            entries.single_entry,
            entries.entry_size,
            entries.entries_separator@,
            args_separator@,
        ),
{
    let ghost lines = stdin_lines.deep_view();
    if entries.single_entry {
        let joined: String = join_strs(&stdin_lines, args_separator);
        let mut r: Vec<String> = Vec::new();
        r.push(joined);
        proof {
            assert(r.deep_view() =~~= seq![join_chars(lines, args_separator@)]);
        }
        r
    } else if entries.entry_size > 0 {
        split_by_size(stdin_lines, entries.entry_size, args_separator)
    } else {
        let newline: String = String::from_str("\n");
        proof {
            reveal_strlit("\n");
            assert(newline@ =~= seq!['\n']);
        }
        if entries.entries_separator == newline {
            stdin_lines
        } else {
            let empty: String = String::new();
            proof {
                assert(empty@ =~= Seq::<char>::empty());
            }
            let joined: String = join_strs(&stdin_lines, empty.as_str());
            split_str(joined.as_str(), entries.entries_separator.as_str())
        }
    }
}

} // verus!

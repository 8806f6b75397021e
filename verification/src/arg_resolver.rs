//! Resolution of command arguments for each input entry: the templates from
//! the command line are compiled once, then every entry is split into fields
//! and expanded through them.

use vstd::prelude::*;
use vstd::pervasive::unreached;

pub mod tokens;

pub use crate::arg_parser::arguments_resolver::resolve_template_args;
pub use crate::arg_parser::ResolveError;

use crate::arg_parser::arguments_resolver::compile_all;
use crate::arg_parser::{resolver_output, ArgumentResolver, PartView};
use crate::cli::Cli;
use crate::text::{split_chars, split_str};

verus! {

/// The argument vector that one entry resolves to, under the compiled form
/// of the given templates.
pub open spec fn entry_args(
    templates: Seq<Seq<char>>,
    entry: Seq<char>,
    args_separator: Seq<char>,
) -> Result<Seq<Seq<char>>, ResolveError> {
    resolver_output(compile_all(templates)->Ok_0, split_chars(entry, args_separator))
}

/// Round trip of free text: templates without brace characters — and so
/// without placeholders — compile, and resolving them returns any field
/// list unchanged.
pub proof fn lemma_round_trip_free_text(ts: Seq<Seq<char>>, fields: Seq<Seq<char>>)
    requires
        forall|i: int, k: int|
            0 <= i < ts.len() && 0 <= k < ts[i].len() ==> !crate::is_brace(#[trigger] ts[i][k]),
    ensures
        compile_all(ts) is Ok,
        resolver_output(compile_all(ts)->Ok_0, fields) == Ok::<Seq<Seq<char>>, ResolveError>(
            fields,
        ),
{
    crate::arg_parser::arguments_resolver::lemma_compile_all_brace_free(ts);
    crate::arg_parser::lemma_free_text_round_trip(compile_all(ts)->Ok_0, fields);
}

/// One resolved argument vector per entry, in entry order: each entry is
/// split into fields by the argument separator and expanded through the
/// compiled templates. As the surrounding program does, this requires the
/// templates to compile and every entry to resolve; a failing template or
/// entry is rejected before this point.
pub fn resolve_cmd_args(stdin_entries: Vec<String>, cli: &Cli) -> (r: Vec<Vec<String>>)
    requires
        cli.args_separator@.len() >= 1,
        compile_all(cli.args_templates.deep_view()) is Ok,
        forall|k: int|
            0 <= k < stdin_entries.len() ==> #[trigger] entry_args(
                cli.args_templates.deep_view(),
                stdin_entries[k]@,
                cli.args_separator@,
            ) is Ok,
    ensures
        r.len() == stdin_entries.len(),
        forall|k: int|
            0 <= k < stdin_entries.len() ==> Ok::<Seq<Seq<char>>, ResolveError>(
                r.deep_view()[k],
            ) == #[trigger] entry_args(
                cli.args_templates.deep_view(),
                stdin_entries[k]@,
                cli.args_separator@,
            ),
{
    let ghost templates = cli.args_templates.deep_view();
    let args_resolver: ArgumentResolver = match ArgumentResolver::new(&cli.args_templates) {
        Ok(a) => a,
        Err(_) => unreached(),
    };
    proof {
        assert(args_resolver.templates() == compile_all(templates)->Ok_0);
    }
    let n: usize = stdin_entries.len();
    let mut entries_out: Vec<Vec<String>> = Vec::new();
    let mut i: usize = 0;
    while i < n
        invariant
            0 <= i <= n,
            n == stdin_entries.len(),
            cli.args_separator@.len() >= 1,
            args_resolver.wf(),
            args_resolver.templates() == compile_all(cli.args_templates.deep_view())->Ok_0,
            forall|k: int|
                0 <= k < n ==> #[trigger] entry_args(
                    cli.args_templates.deep_view(),
                    stdin_entries[k]@,
                    cli.args_separator@,
                ) is Ok,
            entries_out.len() == i,
            forall|k: int|
                0 <= k < i ==> Ok::<Seq<Seq<char>>, ResolveError>(
                    entries_out.deep_view()[k],
                ) == #[trigger] entry_args(
                    cli.args_templates.deep_view(),
                    stdin_entries[k]@,
                    cli.args_separator@,
                ),
        decreases n - i,
    {
        let entry: &String = &stdin_entries[i];
        let fields: Vec<String> = split_str(entry.as_str(), cli.args_separator.as_str());
        let mut input_args: Vec<&str> = Vec::new();
        let m: usize = fields.len();
        let mut j: usize = 0;
        while j < m
            invariant
                0 <= j <= m,
                m == fields.len(),
                input_args.deep_view() == fields.deep_view().take(j as int),
            decreases m - j,
        {
            let ghost prev = input_args.deep_view();
            input_args.push(fields[j].as_str());
            proof {
                assert(input_args.deep_view() =~~= prev.push(fields.deep_view()[j as int]));
                assert(prev.push(fields.deep_view()[j as int]) =~~= fields.deep_view().take(j + 1));
            }
            j = j + 1;
        }
        proof {
            assert(fields.deep_view().take(m as int) =~= fields.deep_view());
            assert(input_args.deep_view() == split_chars(entry@, cli.args_separator@));
        }
        let resolved: Vec<String> = match args_resolver.resolve(input_args) {
            Ok(v) => v,
            Err(_) => {
                proof {
                    assert(entry_args(
                        cli.args_templates.deep_view(),
                        stdin_entries[i as int]@,
                        cli.args_separator@,
                    ) is Ok);
                }
                unreached()
            },
        };
        let ghost prev_out = entries_out.deep_view();
        entries_out.push(resolved);
        proof {
            assert(entries_out.deep_view() =~~= prev_out.push(resolved.deep_view()));
        }
        i = i + 1;
    }
    entries_out
}

} // verus!

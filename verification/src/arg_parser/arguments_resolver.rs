//! Compiling template strings into sequences of parts.
//!
//! Each template is lexed into placeholder spans, free text and escaped runs;
//! placeholder spans are handed to the placeholder parser, text runs become
//! literal parts (an escaped run stands for its text after the backslash).
//! Compilation fails on the first erroring template.

use vstd::prelude::*;

use crate::arg_parser::placeholder_resolver::{parse_placeholder, resolve_arg_placeholder};
use crate::arg_parser::{PartView, ResolvedArgument, ResolvedArgumentPart};
use crate::arg_resolver::tokens::{
    lemma_template_step_bounds, template_step, ArgTemplateToken, LexingError, LexingErrorView,
    TemplateLexer,
};

verus! {

/// The parts of the template `s` from position `pos` on, or the first error:
/// a lexing failure, or a placeholder span whose interior is rejected.
pub open spec fn compile_from(s: Seq<char>, pos: int) -> Result<Seq<PartView>, LexingErrorView>
    decreases s.len() - pos,
        when 0 <= pos <= s.len()
    via compile_from_decreases
{
    if pos == s.len() {
        Ok(Seq::empty())
    } else {
        let (kind, end) = template_step(s, pos);
        match kind {
            None => Err(LexingErrorView::InvalidDefinition),
            Some(tok) => {
                let head: Result<PartView, LexingErrorView> = match tok {
                    ArgTemplateToken::ArgPlaceholder => parse_placeholder(s.subrange(pos, end)),
                    ArgTemplateToken::FreeText => Ok(PartView::FreeText(s.subrange(pos, end))),
                    ArgTemplateToken::EscapedText => Ok(
                        PartView::FreeText(s.subrange(pos + 1, end)),
                    ),
                };
                match head {
                    Err(e) => Err(e),
                    Ok(p) => match compile_from(s, end) {
                        Err(e) => Err(e),
                        Ok(rest) => Ok(seq![p] + rest),
                    },
                }
            },
        }
    }
}

#[via_fn]
proof fn compile_from_decreases(s: Seq<char>, pos: int) {
    if pos < s.len() {
        lemma_template_step_bounds(s, pos);
    }
}

/// The compiled parts of one whole template string, or its first error.
pub open spec fn compile_template(s: Seq<char>) -> Result<Seq<PartView>, LexingErrorView> {
    compile_from(s, 0)
}

/// The compiled parts of every template, one entry per template in the same
/// order, failing on the first erroring template with no partial result.
pub open spec fn compile_all(ts: Seq<Seq<char>>) -> Result<Seq<Seq<PartView>>, LexingErrorView>
    decreases ts.len(),
{
    if ts.len() == 0 {
        Ok(Seq::empty())
    } else {
        match compile_template(ts[0]) {
            Err(e) => Err(e),
            Ok(parts) => match compile_all(ts.drop_first()) {
                Err(e) => Err(e),
                Ok(rest) => Ok(seq![parts] + rest),
            },
        }
    }
}

/// Compilation is order-preserving: a compiled list holds one parts list per
/// input template, in the same order, each the compiled form of its own
/// template string alone.
pub proof fn lemma_compile_all_order(ts: Seq<Seq<char>>)
    requires
        compile_all(ts) is Ok,
    ensures
        compile_all(ts)->Ok_0.len() == ts.len(),
        forall|i: int|
            0 <= i < ts.len() ==> compile_template(ts[i]) == Ok::<Seq<PartView>, LexingErrorView>(
                #[trigger] compile_all(ts)->Ok_0[i],
            ),
    decreases ts.len(),
{
    if ts.len() > 0 {
        lemma_compile_all_order(ts.drop_first());
        let parts = compile_template(ts[0])->Ok_0;
        let rest = compile_all(ts.drop_first())->Ok_0;
        let all = compile_all(ts)->Ok_0;
        assert(all =~~= seq![parts] + rest);
        assert forall|i: int| 0 <= i < ts.len() implies compile_template(ts[i]) == Ok::<
            Seq<PartView>,
            LexingErrorView,
        >(#[trigger] all[i]) by {
            if i > 0 {
                assert(all[i] == rest[i - 1]);
                assert(ts.drop_first()[i - 1] == ts[i]);
            }
        }
    }
}

/// A template without brace characters compiles, and to literal parts only:
/// free text and escaped runs never form a placeholder.
pub proof fn lemma_compile_brace_free(s: Seq<char>, pos: int)
    requires
        0 <= pos <= s.len(),
        forall|k: int| 0 <= k < s.len() ==> !crate::is_brace(#[trigger] s[k]),
    ensures
        compile_from(s, pos) is Ok,
        forall|j: int|
            0 <= j < compile_from(s, pos)->Ok_0.len() ==> (#[trigger] compile_from(
                s,
                pos,
            )->Ok_0[j]) is FreeText,
    decreases s.len() - pos,
{
    if pos == s.len() {
    } else {
        let (kind, end) = template_step(s, pos);
        lemma_template_step_bounds(s, pos);
        lemma_compile_brace_free(s, end);
        assert(!crate::is_brace(s[pos]));
        assert(kind == Some(ArgTemplateToken::FreeText) || kind == Some(
            ArgTemplateToken::EscapedText,
        ));
        let rest = compile_from(s, end)->Ok_0;
        let parts = compile_from(s, pos)->Ok_0;
        assert(parts =~= seq![parts[0]] + rest);
        assert(parts[0] is FreeText);
        assert forall|j: int| 0 <= j < parts.len() implies (#[trigger] parts[j]) is FreeText by {
            if j > 0 {
                assert(parts[j] == rest[j - 1]);
            }
        }
    }
}

/// Every template of the list is brace-free: the whole list compiles, and no
/// compiled part is a placeholder.
pub proof fn lemma_compile_all_brace_free(ts: Seq<Seq<char>>)
    requires
        forall|i: int, k: int|
            0 <= i < ts.len() && 0 <= k < ts[i].len() ==> !crate::is_brace(#[trigger] ts[i][k]),
    ensures
        compile_all(ts) is Ok,
        forall|i: int, j: int|
            0 <= i < ts.len() && 0 <= j < compile_all(ts)->Ok_0[i].len() ==> (
            #[trigger] compile_all(ts)->Ok_0[i][j]) is FreeText,
        compile_all(ts)->Ok_0.len() == ts.len(),
    decreases ts.len(),
{
    if ts.len() == 0 {
    } else {
        assert forall|k: int| 0 <= k < ts[0].len() implies !crate::is_brace(
            #[trigger] ts[0][k],
        ) by {}
        lemma_compile_brace_free(ts[0], 0);
        assert forall|i: int, k: int|
            0 <= i < ts.drop_first().len() && 0 <= k < ts.drop_first()[i].len() implies !crate::is_brace(
            #[trigger] ts.drop_first()[i][k],
        ) by {
            assert(ts.drop_first()[i] == ts[i + 1]);
        }
        lemma_compile_all_brace_free(ts.drop_first());
        let parts = compile_template(ts[0])->Ok_0;
        let rest = compile_all(ts.drop_first())->Ok_0;
        let all = compile_all(ts)->Ok_0;
        assert(all =~~= seq![parts] + rest);
        assert forall|i: int, j: int|
            0 <= i < ts.len() && 0 <= j < all[i].len() implies (#[trigger] all[i][j]) is FreeText by {
            if i == 0 {
                assert(all[0] == parts);
            } else {
                assert(all[i] == rest[i - 1]);
                assert(ts.drop_first()[i - 1] == ts[i]);
            }
        }
    }
}

/// `acc` already compiled, followed by whatever `r` still yields.
spec fn compile_compose(acc: Seq<PartView>, r: Result<Seq<PartView>, LexingErrorView>) -> Result<
    Seq<PartView>,
    LexingErrorView,
> {
    match r {
        Ok(rest) => Ok(acc + rest),
        Err(e) => Err(e),
    }
}

/// The compiled parts of one template string, left to right.
pub fn resolve_arg_template(arg_template: &str) -> (r: Result<ResolvedArgument, LexingError>)
    ensures
        match r {
            Ok(parts) => compile_template(arg_template@) == Ok::<Seq<PartView>, LexingErrorView>(
                parts.deep_view(),
            ),
            Err(e) => compile_template(arg_template@) == Err::<Seq<PartView>, LexingErrorView>(e@),
        },
{
    let ghost s = arg_template@;
    let mut lex: TemplateLexer = TemplateLexer::new(arg_template);
    let mut resolved: Vec<ResolvedArgumentPart> = Vec::new();
    loop
        invariant
            s == arg_template@,
            lex.wf(),
            lex.src@ == s,
            compile_from(s, 0) == compile_compose(
                resolved.deep_view(),
                compile_from(s, lex.pos as int),
            ),
        ensures
            compile_from(s, 0) == Ok::<Seq<PartView>, LexingErrorView>(resolved.deep_view()),
        decreases s.len() - lex.pos,
    {
        let ghost pos = lex.pos as int;
        match lex.next() {
            None => {
                proof {
                    assert(resolved.deep_view() + Seq::<PartView>::empty()
                        =~= resolved.deep_view());
                }
                break ;
            },
            Some(token) => {
                proof {
                    lemma_template_step_bounds(s, pos);
                }
                let part: ResolvedArgumentPart = match token {
                    Ok(ArgTemplateToken::ArgPlaceholder) => {
                        let span: String = lex.slice();
                        match resolve_arg_placeholder(span.as_str()) {
                            Ok(p) => p,
                            Err(e) => {
                                return Err(e);
                            },
                        }
                    },
                    Ok(ArgTemplateToken::FreeText) => ResolvedArgumentPart::FreeText(lex.slice()),
                    Ok(ArgTemplateToken::EscapedText) => {
                        // The backslash is dropped: the escaped run stands
                        // for its own text.
                        let span: String = lex.slice();
                        let text: String = span.as_str().substring_char(
                            1,
                            span.as_str().unicode_len(),
                        ).to_owned();
                        proof {
                            assert(text@ =~= s.subrange(pos + 1, lex.pos as int));
                        }
                        ResolvedArgumentPart::FreeText(text)
                    },
                    Err(e) => {
                        return Err(e);
                    },
                };
                let ghost prev = resolved.deep_view();
                let ghost end = lex.pos as int;
                resolved.push(part);
                proof {
                    assert(resolved.deep_view() =~= prev.push(part@));
                    match compile_from(s, end) {
                        Err(e) => {},
                        Ok(rest) => {
                            assert(prev + (seq![part@] + rest) =~= prev.push(part@) + rest);
                        },
                    }
                }
            },
        }
    }
    Ok(resolved)
}

/// `acc` already compiled, followed by whatever `r` still yields, one parts
/// list per template.
spec fn compile_all_compose(
    acc: Seq<Seq<PartView>>,
    r: Result<Seq<Seq<PartView>>, LexingErrorView>,
) -> Result<Seq<Seq<PartView>>, LexingErrorView> {
    match r {
        Ok(rest) => Ok(acc + rest),
        Err(e) => Err(e),
    }
}

/// The compiled form of every template, in template order; compilation is
/// deterministic in the template strings alone and fails on the first bad
/// template with no partial result.
pub fn resolve_template_args(arg_templates: &Vec<String>) -> (r: Result<
    Vec<ResolvedArgument>,
    LexingError,
>)
    ensures
        match r {
            Ok(compiled) => compile_all(arg_templates.deep_view()) == Ok::<
                Seq<Seq<PartView>>,
                LexingErrorView,
            >(compiled.deep_view()),
            Err(e) => compile_all(arg_templates.deep_view()) == Err::<
                Seq<Seq<PartView>>,
                LexingErrorView,
            >(e@),
        },
{
    let ghost ts = arg_templates.deep_view();
    let mut result: Vec<ResolvedArgument> = Vec::new();
    let n: usize = arg_templates.len();
    let mut i: usize = 0;
    proof {
        assert(ts.skip(0) =~= ts);
        match compile_all(ts) {
            Err(e) => {},
            Ok(all) => {
                assert(Seq::<Seq<PartView>>::empty() + all =~= all);
            },
        }
    }
    while i < n
        invariant
            0 <= i <= n,
            n == arg_templates.len(),
            ts == arg_templates.deep_view(),
            compile_all(ts) == compile_all_compose(result.deep_view(), compile_all(ts.skip(i as int))),
        decreases n - i,
    {
        proof {
            assert(ts.skip(i as int)[0] == ts[i as int]);
            assert(ts.skip(i as int).drop_first() =~= ts.skip(i + 1));
        }
        let compiled: ResolvedArgument = match resolve_arg_template(arg_templates[i].as_str()) {
            Ok(parts) => parts,
            Err(e) => {
                return Err(e);
            },
        };
        let ghost prev = result.deep_view();
        result.push(compiled);
        proof {
            assert(result.deep_view() =~~= prev.push(compiled.deep_view()));
            match compile_all(ts.skip(i + 1)) {
                Err(e) => {},
                Ok(rest) => {
                    assert(prev + (seq![compiled.deep_view()] + rest) =~~= prev.push(
                        compiled.deep_view(),
                    ) + rest);
                },
            }
        }
        i = i + 1;
    }
    proof {
        assert(ts.skip(n as int) =~= Seq::<Seq<char>>::empty());
        assert(result.deep_view() + Seq::<Seq<PartView>>::empty() =~~= result.deep_view());
    }
    Ok(result)
}


/// Determinism of compilation: one template string admits a single compiled
/// form, whatever run produced it.
pub proof fn lemma_compile_deterministic(
    s: Seq<char>,
    r1: Result<Seq<PartView>, LexingErrorView>,
    r2: Result<Seq<PartView>, LexingErrorView>,
)
    requires
        r1 == compile_template(s),
        r2 == compile_template(s),
    ensures
        r1 == r2,
{
}

} // verus!

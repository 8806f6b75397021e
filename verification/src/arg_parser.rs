//! Compiled template parts and their resolution against one entry's fields.
//!
//! A compiled template is an ordered sequence of [`ResolvedArgumentPart`];
//! resolving it against the fields of one entry yields zero or more strings
//! per part, combined left to right by an ordered cartesian product.

use vstd::prelude::*;

use crate::text::{lemma_split_all_push, split_all, split_chars};

pub mod arguments_resolver;
pub mod placeholder_resolver;

pub use crate::arg_resolver::tokens::LexingError;

verus! {

// ---------------------------------------------------------------------------
// Parts
// ---------------------------------------------------------------------------

/// One part of a compiled template: a placeholder's field-selection rule or a
/// run of literal text.
#[derive(Debug, Clone, PartialEq, Eq)]
pub enum ResolvedArgumentPart {
    /// `{i}`: the field at position `i`.
    Index(usize),
    /// `{i<sep>}`: field `i` split by the separator, all pieces.
    IndexSplit(usize, String),
    /// `{i<sep>j}`: field `i` split by the separator, piece `j`.
    IndexSplitIndex(usize, String, usize),
    /// `{<sep>j}`: every field split by the separator, piece `j` of each.
    SplitIndex(String, usize),
    /// `{<sep>}`: every field split by the separator, all pieces flattened.
    Split(String),
    /// `{}`: all fields unchanged.
    Empty,
    /// Literal text, one output.
    FreeText(String),
}

/// Mathematical value of a [`ResolvedArgumentPart`].
#[verifier::ext_equal]
pub enum PartView {
    Index(usize),
    IndexSplit(usize, Seq<char>),
    IndexSplitIndex(usize, Seq<char>, usize),
    SplitIndex(Seq<char>, usize),
    Split(Seq<char>),
    Empty,
    FreeText(Seq<char>),
}

impl View for ResolvedArgumentPart {
    type V = PartView;

    open spec fn view(&self) -> PartView {
        match self {
            ResolvedArgumentPart::Index(i) => PartView::Index(*i),
            ResolvedArgumentPart::IndexSplit(i, sep) => PartView::IndexSplit(*i, sep@),
            ResolvedArgumentPart::IndexSplitIndex(i, sep, j) => PartView::IndexSplitIndex(
                *i,
                sep@,
                *j,
            ),
            ResolvedArgumentPart::SplitIndex(sep, j) => PartView::SplitIndex(sep@, *j),
            ResolvedArgumentPart::Split(sep) => PartView::Split(sep@),
            ResolvedArgumentPart::Empty => PartView::Empty,
            ResolvedArgumentPart::FreeText(t) => PartView::FreeText(t@),
        }
    }
}

impl DeepView for ResolvedArgumentPart {
    type V = PartView;

    open spec fn deep_view(&self) -> PartView {
        self.view()
    }
}

/// A compiled template: the parts of one template string, in order.
pub type ResolvedArgument = Vec<ResolvedArgumentPart>;

/// Why resolving a template against one entry's fields failed.
#[derive(Debug, Clone, Copy, PartialEq, Eq, Structural)]
pub enum ResolveError {
    /// A field index or split-piece index exceeded the available count.
    InvalidIndex(usize),
    /// Reserved fallback for unclassified failures.
    Other,
}

// ---------------------------------------------------------------------------
// Evaluation of one part
// ---------------------------------------------------------------------------

/// Every field has a piece `j` when split by `sep`.
pub open spec fn split_index_ok(fields: Seq<Seq<char>>, sep: Seq<char>, j: usize) -> bool {
    forall|k: int| 0 <= k < fields.len() ==> j < split_chars(fields[k], sep).len()
}

/// The output set of one part against one entry's fields: which strings the
/// part contributes, in order, or the index that was out of range.
pub open spec fn eval_part(p: PartView, fields: Seq<Seq<char>>) -> Result<
    Seq<Seq<char>>,
    ResolveError,
> {
    match p {
        PartView::Index(i) => if i < fields.len() {
            Ok(seq![fields[i as int]])
        } else {
            Err(ResolveError::InvalidIndex(i))
        },
        PartView::IndexSplit(i, sep) => if i < fields.len() {
            Ok(split_chars(fields[i as int], sep))
        } else {
            Err(ResolveError::InvalidIndex(i))
        },
        PartView::IndexSplitIndex(i, sep, j) => if i < fields.len() {
            let pieces = split_chars(fields[i as int], sep);
            if j < pieces.len() {
                Ok(seq![pieces[j as int]])
            } else {
                Err(ResolveError::InvalidIndex(j))
            }
        } else {
            Err(ResolveError::InvalidIndex(i))
        },
        PartView::SplitIndex(sep, j) => if split_index_ok(fields, sep, j) {
            Ok(Seq::new(fields.len(), |k: int| split_chars(fields[k], sep)[j as int]))
        } else {
            Err(ResolveError::InvalidIndex(j))
        },
        PartView::Split(sep) => Ok(split_all(fields, sep)),
        PartView::Empty => Ok(fields),
        PartView::FreeText(t) => Ok(seq![t]),
    }
}

// ---------------------------------------------------------------------------
// Cartesian multiplication
// ---------------------------------------------------------------------------

/// Every piece of `b`, each prefixed with `y`, in the order of `b`.
pub open spec fn prefix_all(y: Seq<char>, b: Seq<Seq<char>>) -> Seq<Seq<char>>
    decreases b.len(),
{
    if b.len() == 0 {
        Seq::empty()
    } else {
        seq![y + b[0]] + prefix_all(y, b.drop_first())
    }
}

proof fn lemma_prefix_all(y: Seq<char>, b: Seq<Seq<char>>)
    ensures
        prefix_all(y, b).len() == b.len(),
        forall|j: int| 0 <= j < b.len() ==> prefix_all(y, b)[j] == y + b[j],
    decreases b.len(),
{
    if b.len() > 0 {
        lemma_prefix_all(y, b.drop_first());
    }
}

/// The ordered cartesian concatenation of `a` and `b`: every `a[i] + b[j]`,
/// the left side varying slower.
pub open spec fn product(a: Seq<Seq<char>>, b: Seq<Seq<char>>) -> Seq<Seq<char>>
    decreases a.len(),
{
    if a.len() == 0 {
        Seq::empty()
    } else {
        prefix_all(a[0], b) + product(a.drop_first(), b)
    }
}

/// Cartesian multiplication with the empty collection as identity: a side
/// with no strings passes the other side through unchanged rather than
/// annihilating it.
pub open spec fn multiply(a: Seq<Seq<char>>, b: Seq<Seq<char>>) -> Seq<Seq<char>> {
    if a.len() == 0 {
        b
    } else if b.len() == 0 {
        a
    } else {
        product(a, b)
    }
}

proof fn lemma_product_push(a: Seq<Seq<char>>, y: Seq<char>, b: Seq<Seq<char>>)
    ensures
        product(a.push(y), b) == product(a, b) + prefix_all(y, b),
    decreases a.len(),
{
    if a.len() == 0 {
        assert(a.push(y).drop_first() =~= Seq::<Seq<char>>::empty());
        assert(product(Seq::<Seq<char>>::empty(), b) == Seq::<Seq<char>>::empty());
        assert(product(a.push(y), b) =~= prefix_all(y, b));
        assert(product(a, b) + prefix_all(y, b) =~= prefix_all(y, b));
    } else {
        lemma_product_push(a.drop_first(), y, b);
        assert(a.push(y).drop_first() =~= a.drop_first().push(y));
        assert(a.push(y)[0] == a[0]);
        assert(product(a.push(y), b) =~= product(a, b) + prefix_all(y, b));
    }
}

/// The ordering law of the cartesian product: output `i * |b| + j` is
/// `a[i] + b[j]` — the left part is the outer loop, the right the inner.
pub proof fn lemma_product_index(a: Seq<Seq<char>>, b: Seq<Seq<char>>, i: int, j: int)
    requires
        0 <= i < a.len(),
        0 <= j < b.len(),
    ensures
        product(a, b).len() == a.len() * b.len(),
        product(a, b)[i * b.len() + j] == a[i] + b[j],
    decreases a.len(),
{
    lemma_product_len(a, b);
    lemma_prefix_all(a[0], b);
    if i == 0 {
        assert(product(a, b)[i * b.len() + j] == prefix_all(a[0], b)[j]);
    } else {
        lemma_product_index(a.drop_first(), b, i - 1, j);
        lemma_product_len(a.drop_first(), b);
        assert((i - 1) * b.len() == i * b.len() - b.len()) by (nonlinear_arith);
        assert(b.len() <= i * b.len()) by (nonlinear_arith)
            requires
                1 <= i,
                0 < b.len(),
        ;
        assert(i * b.len() + j < a.len() * b.len()) by (nonlinear_arith)
            requires
                0 <= i < a.len(),
                0 <= j < b.len(),
        ;
        assert(product(a, b)[i * b.len() + j] == product(a.drop_first(), b)[(i - 1) * b.len() + j]);
        assert(a.drop_first()[i - 1] == a[i]);
    }
}

proof fn lemma_product_len(a: Seq<Seq<char>>, b: Seq<Seq<char>>)
    ensures
        product(a, b).len() == a.len() * b.len(),
    decreases a.len(),
{
    if a.len() == 0 {
    } else {
        lemma_prefix_all(a[0], b);
        lemma_product_len(a.drop_first(), b);
        assert((a.len() - 1) * b.len() == a.len() * b.len() - b.len()) by (nonlinear_arith);
    }
}

// ---------------------------------------------------------------------------
// Evaluation of a whole template and of a template list
// ---------------------------------------------------------------------------

/// Left-to-right fold of a template's parts over the running result `acc`:
/// each part's outputs are multiplied onto what the parts before it produced.
pub open spec fn eval_parts(
    parts: Seq<PartView>,
    fields: Seq<Seq<char>>,
    acc: Seq<Seq<char>>,
) -> Result<Seq<Seq<char>>, ResolveError>
    decreases parts.len(),
{
    if parts.len() == 0 {
        Ok(acc)
    } else {
        match eval_part(parts[0], fields) {
            Err(e) => Err(e),
            Ok(out) => eval_parts(parts.drop_first(), fields, multiply(acc, out)),
        }
    }
}

/// The strings one compiled template contributes for one entry.
pub open spec fn eval_template(parts: Seq<PartView>, fields: Seq<Seq<char>>) -> Result<
    Seq<Seq<char>>,
    ResolveError,
> {
    eval_parts(parts, fields, Seq::empty())
}

/// Each compiled template's expansion, concatenated in template order,
/// failing on the first template that fails.
pub open spec fn eval_templates(ts: Seq<Seq<PartView>>, fields: Seq<Seq<char>>) -> Result<
    Seq<Seq<char>>,
    ResolveError,
>
    decreases ts.len(),
{
    if ts.len() == 0 {
        Ok(Seq::empty())
    } else {
        match eval_template(ts[0], fields) {
            Err(e) => Err(e),
            Ok(out) => match eval_templates(ts.drop_first(), fields) {
                Err(e) => Err(e),
                Ok(rest) => Ok(out + rest),
            },
        }
    }
}

/// Some template holds a part other than literal text.
pub open spec fn has_placeholder(ts: Seq<Seq<PartView>>) -> bool {
    exists|i: int, j: int|
        0 <= i < ts.len() && 0 <= j < ts[i].len() && !(ts[i][j] is FreeText)
}

/// What resolution returns for one entry: with no placeholder part anywhere
/// — pure free text, or no template at all — the fields pass through
/// verbatim; otherwise every template is expanded and the results are
/// concatenated.
pub open spec fn resolver_output(ts: Seq<Seq<PartView>>, fields: Seq<Seq<char>>) -> Result<
    Seq<Seq<char>>,
    ResolveError,
> {
    if !has_placeholder(ts) {
        Ok(fields)
    } else {
        eval_templates(ts, fields)
    }
}

// ---------------------------------------------------------------------------
// Executable resolution
// ---------------------------------------------------------------------------

/// The field at `idx`, or the index that was out of range.
pub fn get_input_arg<'a>(idx: usize, input_args: &Vec<&'a str>) -> (r: Result<&'a str, ResolveError>)
    ensures
        match r {
            Ok(s) => idx < input_args.len() && s@ == input_args.deep_view()[idx as int],
            Err(e) => idx >= input_args.len() && e == ResolveError::InvalidIndex(idx),
        },
{
    if idx < input_args.len() {
        Ok(input_args[idx])
    } else {
        Err(ResolveError::InvalidIndex(idx))
    }
}

/// The piece at `idx` of a split field, or the index that was out of range.
pub fn get_split_arg(idx: usize, pieces: &Vec<String>) -> (r: Result<&String, ResolveError>)
    ensures
        match r {
            Ok(s) => idx < pieces.len() && s@ == pieces.deep_view()[idx as int],
            Err(e) => idx >= pieces.len() && e == ResolveError::InvalidIndex(idx),
        },
{
    if idx < pieces.len() {
        Ok(&pieces[idx])
    } else {
        Err(ResolveError::InvalidIndex(idx))
    }
}

/// One field split by one separator; a separator that is empty (which the
/// placeholder grammar never produces) leaves the field whole.
fn split_field(f: &str, sep: &str) -> (r: Vec<String>)
    ensures
        r.deep_view() == split_chars(f@, sep@),
{
    if sep.unicode_len() == 0 {
        let mut r: Vec<String> = Vec::new();
        r.push(f.to_owned());
        proof {
            assert(r.deep_view() =~~= split_chars(f@, sep@));
        }
        r
    } else {
        crate::text::split_str(f, sep)
    }
}

/// Holds the templates compiled once, to be resolved against every entry.
#[derive(Debug)]
pub struct ArgumentResolver {
    /// The compiled templates, one parts list per template string, in order.
    pub resolved_args: Vec<ResolvedArgument>,
    /// Whether any compiled template holds a part other than literal text;
    /// when none does, resolution passes the fields through verbatim.
    pub has_any_placeholder: bool,
}

impl ArgumentResolver {
    /// The compiled templates as mathematical values.
    pub open spec fn templates(&self) -> Seq<Seq<PartView>> {
        self.resolved_args.deep_view()
    }

    /// The cached placeholder flag agrees with the compiled templates.
    pub open spec fn wf(&self) -> bool {
        self.has_any_placeholder == has_placeholder(self.templates())
    }

    /// Compiles every template string, in order, failing on the first bad
    /// template with no partial result.
    pub fn new(arg_templates: &Vec<String>) -> (r: Result<ArgumentResolver, LexingError>)
        ensures
            match r {
                Ok(ar) => ar.wf() && crate::arg_parser::arguments_resolver::compile_all(
                    arg_templates.deep_view(),
                ) == Ok::<Seq<Seq<PartView>>, crate::arg_resolver::tokens::LexingErrorView>(
                    ar.templates(),
                ),
                Err(e) => crate::arg_parser::arguments_resolver::compile_all(
                    arg_templates.deep_view(),
                ) == Err::<Seq<Seq<PartView>>, crate::arg_resolver::tokens::LexingErrorView>(e@),
            },
    {
        let resolved_args: Vec<ResolvedArgument> =
            crate::arg_parser::arguments_resolver::resolve_template_args(arg_templates)?;
        let has_any_placeholder: bool = templates_have_placeholder(&resolved_args);
        Ok(ArgumentResolver { resolved_args, has_any_placeholder })
    }

    /// The argument strings for one entry: with no placeholder part anywhere
    /// the fields pass through verbatim; otherwise each template's expansion,
    /// concatenated in template order, failing on the first out-of-range
    /// index.
    pub fn resolve(&self, input_args: Vec<&str>) -> (r: Result<Vec<String>, ResolveError>)
        requires
            self.wf(),
        ensures
            match r {
                Ok(v) => resolver_output(self.templates(), input_args.deep_view()) == Ok::<
                    Seq<Seq<char>>,
                    ResolveError,
                >(v.deep_view()),
                Err(e) => resolver_output(self.templates(), input_args.deep_view()) == Err::<
                    Seq<Seq<char>>,
                    ResolveError,
                >(e),
            },
    {
        let ghost fields = input_args.deep_view();
        if !self.has_any_placeholder {
            // Pure free text or no template at all: pass the fields through.
            let n: usize = input_args.len();
            let mut out: Vec<String> = Vec::new();
            let mut i: usize = 0;
            while i < n
                invariant
                    0 <= i <= n,
                    n == input_args.len(),
                    fields == input_args.deep_view(),
                    out.deep_view() == fields.take(i as int),
                decreases n - i,
            {
                out.push(input_args[i].to_owned());
                proof {
                    assert(fields.take(i + 1) =~= fields.take(i as int).push(fields[i as int]));
                    assert(out.deep_view() =~~= fields.take(i + 1));
                }
                i = i + 1;
            }
            proof {
                assert(fields.take(n as int) =~= fields);
            }
            return Ok(out);
        }
        let ghost ts = self.templates();
        let mut result: Vec<String> = Vec::new();
        let n: usize = self.resolved_args.len();
        let mut i: usize = 0;
        proof {
            assert(ts.skip(0) =~= ts);
            assert(result.deep_view() =~= Seq::<Seq<char>>::empty());
            match eval_templates(ts, fields) {
                Err(e) => {},
                Ok(all) => {
                    assert(Seq::<Seq<char>>::empty() + all =~= all);
                },
            }
        }
        while i < n
            invariant
                0 <= i <= n,
                n == self.resolved_args.len(),
                ts == self.templates(),
                fields == input_args.deep_view(),
                has_placeholder(ts),
                eval_templates(ts, fields) == resolve_compose(
                    result.deep_view(),
                    eval_templates(ts.skip(i as int), fields),
                ),
            decreases n - i,
        {
            proof {
                assert(ts.skip(i as int)[0] == ts[i as int]);
                assert(ts.skip(i as int).drop_first() =~= ts.skip(i + 1));
            }
            let mut resolved: Vec<String> = match self.resolve_arg_template(
                &self.resolved_args[i],
                &input_args,
            ) {
                Ok(v) => v,
                Err(e) => {
                    return Err(e);
                },
            };
            let ghost prev = result.deep_view();
            let ghost out = resolved.deep_view();
            result.append(&mut resolved);
            proof {
                assert(result.deep_view() =~~= prev + out);
                match eval_templates(ts.skip(i + 1), fields) {
                    Err(e) => {},
                    Ok(rest) => {
                        assert(prev + (out + rest) =~= (prev + out) + rest);
                    },
                }
            }
            i = i + 1;
        }
        proof {
            assert(ts.skip(n as int) =~= Seq::<Seq<PartView>>::empty());
            assert(result.deep_view() + Seq::<Seq<char>>::empty() =~= result.deep_view());
        }
        Ok(result)
    }

    /// One template's expansion for one entry: each part's outputs folded
    /// onto the running result by cartesian multiplication, left to right.
    fn resolve_arg_template(
        &self,
        arg_template: &Vec<ResolvedArgumentPart>,
        input_args: &Vec<&str>,
    ) -> (r: Result<Vec<String>, ResolveError>)
        ensures
            match r {
                Ok(v) => eval_template(arg_template.deep_view(), input_args.deep_view()) == Ok::<
                    Seq<Seq<char>>,
                    ResolveError,
                >(v.deep_view()),
                Err(e) => eval_template(arg_template.deep_view(), input_args.deep_view()) == Err::<
                    Seq<Seq<char>>,
                    ResolveError,
                >(e),
            },
    {
        let ghost parts = arg_template.deep_view();
        let ghost fields = input_args.deep_view();
        let mut resolved: Vec<String> = Vec::new();
        let n: usize = arg_template.len();
        let mut i: usize = 0;
        proof {
            assert(parts.skip(0) =~= parts);
            assert(resolved.deep_view() =~= Seq::<Seq<char>>::empty());
        }
        while i < n
            invariant
                0 <= i <= n,
                n == arg_template.len(),
                parts == arg_template.deep_view(),
                fields == input_args.deep_view(),
                eval_template(parts, fields) == eval_parts(
                    parts.skip(i as int),
                    fields,
                    resolved.deep_view(),
                ),
            decreases n - i,
        {
            proof {
                assert(parts.skip(i as int)[0] == parts[i as int]);
                assert(parts.skip(i as int).drop_first() =~= parts.skip(i + 1));
            }
            let part: &ResolvedArgumentPart = &arg_template[i];
            let single: Vec<String> = match resolve_single_arg_part(part, input_args) {
                Ok(v) => v,
                Err(e) => {
                    return Err(e);
                },
            };
            resolved = multiply_args_parts(resolved, single);
            i = i + 1;
        }
        proof {
            assert(parts.skip(n as int) =~= Seq::<PartView>::empty());
        }
        Ok(resolved)
    }
}

/// `acc` already expanded, followed by whatever templates `r` covers.
spec fn resolve_compose(acc: Seq<Seq<char>>, r: Result<Seq<Seq<char>>, ResolveError>) -> Result<
    Seq<Seq<char>>,
    ResolveError,
> {
    match r {
        Ok(rest) => Ok(acc + rest),
        Err(e) => Err(e),
    }
}

/// Whether any compiled template holds a part other than literal text.
fn templates_have_placeholder(ts: &Vec<ResolvedArgument>) -> (b: bool)
    ensures
        b == has_placeholder(ts.deep_view()),
{
    let ghost tsd = ts.deep_view();
    let n: usize = ts.len();
    let mut i: usize = 0;
    while i < n
        invariant
            0 <= i <= n,
            n == ts.len(),
            tsd == ts.deep_view(),
            forall|x: int, y: int|
                0 <= x < i && 0 <= y < tsd[x].len() ==> (#[trigger] tsd[x][y]) is FreeText,
        decreases n - i,
    {
        let row: &ResolvedArgument = &ts[i];
        let m: usize = row.len();
        let mut j: usize = 0;
        while j < m
            invariant
                0 <= i < n,
                0 <= j <= m,
                n == ts.len(),
                m == row.len(),
                tsd == ts.deep_view(),
                row@ == ts@[i as int]@,
                forall|y: int| 0 <= y < j ==> (#[trigger] tsd[i as int][y]) is FreeText,
            decreases m - j,
        {
            let part: &ResolvedArgumentPart = &row[j];
            proof {
                assert(part@ == tsd[i as int][j as int]);
            }
            if !(matches!(part, ResolvedArgumentPart::FreeText(_))) {
                proof {
                    assert(0 <= i < tsd.len() && 0 <= j < tsd[i as int].len() && !(tsd[i as int][
                    j as int] is FreeText));
                }
                return true;
            }
            j = j + 1;
        }
        i = i + 1;
    }
    proof {
        assert(!has_placeholder(tsd)) by {
            if has_placeholder(tsd) {
                let (x, y) = choose|x: int, y: int|
                    0 <= x < tsd.len() && 0 <= y < tsd[x].len() && !(tsd[x][y] is FreeText);
                assert((tsd[x][y]) is FreeText);
            }
        }
    }
    false
}

/// The strings that one part contributes for one entry's fields, in order.
#[verifier::loop_isolation(false)]
#[verifier::rlimit(60)]
#[verifier::spinoff_prover]
pub fn resolve_single_arg_part(
    arg_template: &ResolvedArgumentPart,
    input_args: &Vec<&str>,
) -> (r: Result<Vec<String>, ResolveError>)
    ensures
        match r {
            Ok(v) => eval_part(arg_template@, input_args.deep_view()) == Ok::<
                Seq<Seq<char>>,
                ResolveError,
            >(v.deep_view()),
            Err(e) => eval_part(arg_template@, input_args.deep_view()) == Err::<
                Seq<Seq<char>>,
                ResolveError,
            >(e),
        },
{
    let ghost fields = input_args.deep_view();
    match arg_template {
        ResolvedArgumentPart::Index(idx) => {
            let arg: &str = get_input_arg(*idx, input_args)?;
            let mut v: Vec<String> = Vec::new();
            v.push(arg.to_owned());
            proof {
                assert(v.deep_view() =~~= seq![fields[*idx as int]]);
            }
            Ok(v)
        },
        ResolvedArgumentPart::IndexSplit(idx, split_by) => {
            let arg: &str = get_input_arg(*idx, input_args)?;
            Ok(split_field(arg, split_by.as_str()))
        },
        ResolvedArgumentPart::IndexSplitIndex(idx, split_by, split_idx) => {
            let arg: &str = get_input_arg(*idx, input_args)?;
            let pieces: Vec<String> = split_field(arg, split_by.as_str());
            let piece: &String = get_split_arg(*split_idx, &pieces)?;
            let mut v: Vec<String> = Vec::new();
            v.push(piece.as_str().to_owned());
            proof {
                assert(v.deep_view() =~~= seq![
                    split_chars(fields[*idx as int], split_by@)[*split_idx as int],
                ]);
            }
            Ok(v)
        },
        ResolvedArgumentPart::SplitIndex(split_by, split_idx) => {
            let n: usize = input_args.len();
            let mut v: Vec<String> = Vec::new();
            let mut i: usize = 0;
            while i < n
                invariant
                    0 <= i <= n,
                    n == input_args.len(),
                    fields == input_args.deep_view(),
                    v.deep_view().len() == i,
                    forall|k: int|
                        0 <= k < i ==> *split_idx < #[trigger] split_chars(
                            fields[k],
                            split_by@,
                        ).len() && v.deep_view()[k] == split_chars(fields[k], split_by@)[
                        *split_idx as int],
                decreases n - i,
            {
                let f: &str = input_args[i];
                proof {
                    assert(f@ == fields[i as int]);
                }
                let pieces: Vec<String> = split_field(f, split_by.as_str());
                let piece: &String = match get_split_arg(*split_idx, &pieces) {
                    Ok(p) => p,
                    Err(e) => {
                        proof {
                            assert(pieces.deep_view().len() == pieces.len());
                            assert(!(*split_idx < split_chars(fields[i as int], split_by@).len()));
                            assert(!split_index_ok(fields, split_by@, *split_idx));
                        }
                        return Err(e);
                    },
                };
                let out: String = piece.as_str().to_owned();
                let ghost prevv = v.deep_view();
                v.push(out);
                proof {
                    assert(pieces.deep_view().len() == pieces.len());
                    assert(v.deep_view() =~= prevv.push(
                        split_chars(fields[i as int], split_by@)[*split_idx as int],
                    ));
                    assert forall|k: int| 0 <= k < i + 1 implies *split_idx < #[trigger] split_chars(
                        fields[k],
                        split_by@,
                    ).len() && v.deep_view()[k] == split_chars(fields[k], split_by@)[
                    *split_idx as int] by {
                        if k < i {
                            assert(*split_idx < split_chars(fields[k], split_by@).len());
                            assert(v.deep_view()[k] == prevv[k]);
                        } else {
                            assert(split_chars(fields[i as int], split_by@)
                                == pieces.deep_view());
                            assert(*split_idx < split_chars(fields[i as int], split_by@).len());
                            assert(v.deep_view()[k] == split_chars(fields[i as int], split_by@)[
                            *split_idx as int]);
                        }
                    }
                }
                i = i + 1;
            }
            proof {
                assert forall|k: int| 0 <= k < fields.len() implies *split_idx < split_chars(
                    fields[k],
                    split_by@,
                ).len() by {
                    assert(*split_idx < split_chars(fields[k], split_by@).len());
                }
                assert(split_index_ok(fields, split_by@, *split_idx));
                assert(v.deep_view() =~~= Seq::new(
                    fields.len(),
                    |k: int| split_chars(fields[k], split_by@)[*split_idx as int],
                ));
            }
            Ok(v)
        },
        ResolvedArgumentPart::Split(split_by) => {
            let n: usize = input_args.len();
            let mut v: Vec<String> = Vec::new();
            let mut i: usize = 0;
            while i < n
                invariant
                    0 <= i <= n,
                    n == input_args.len(),
                    fields == input_args.deep_view(),
                    v.deep_view() == split_all(fields.take(i as int), split_by@),
                decreases n - i,
            {
                let mut pieces: Vec<String> = split_field(input_args[i], split_by.as_str());
                let ghost prev = v.deep_view();
                v.append(&mut pieces);
                proof {
                    lemma_split_all_push(fields.take(i as int), fields[i as int], split_by@);
                    assert(fields.take(i + 1) =~= fields.take(i as int).push(fields[i as int]));
                    assert(v.deep_view() =~~= split_all(fields.take(i + 1), split_by@));
                }
                i = i + 1;
            }
            proof {
                assert(fields.take(n as int) =~= fields);
            }
            Ok(v)
        },
        ResolvedArgumentPart::Empty => {
            let n: usize = input_args.len();
            let mut v: Vec<String> = Vec::new();
            let mut i: usize = 0;
            while i < n
                invariant
                    0 <= i <= n,
                    n == input_args.len(),
                    fields == input_args.deep_view(),
                    v.deep_view() == fields.take(i as int),
                decreases n - i,
            {
                v.push(input_args[i].to_owned());
                proof {
                    assert(fields.take(i + 1) =~= fields.take(i as int).push(fields[i as int]));
                    assert(v.deep_view() =~~= fields.take(i + 1));
                }
                i = i + 1;
            }
            proof {
                assert(fields.take(n as int) =~= fields);
            }
            Ok(v)
        },
        ResolvedArgumentPart::FreeText(text) => {
            let mut v: Vec<String> = Vec::new();
            v.push(text.as_str().to_owned());
            proof {
                assert(v.deep_view() =~~= seq![text@]);
            }
            Ok(v)
        },
    }
}

/// The cartesian combination of the running result `a` with the next part's
/// outputs `b`, `a` varying slower; an empty side passes the other through.
pub fn multiply_args_parts(a: Vec<String>, b: Vec<String>) -> (r: Vec<String>)
    ensures
        r.deep_view() == multiply(a.deep_view(), b.deep_view()),
{
    if a.len() == 0 {
        return b;
    }
    if b.len() == 0 {
        return a;
    }
    let ghost adv = a.deep_view();
    let ghost bdv = b.deep_view();
    let mut result: Vec<String> = Vec::new();
    let mut i: usize = 0;
    while i < a.len()
        invariant
            0 <= i <= a.len(),
            a.len() > 0,
            b.len() > 0,
            adv == a.deep_view(),
            bdv == b.deep_view(),
            result.deep_view() == product(adv.take(i as int), bdv),
        decreases a.len() - i,
    {
        let mut j: usize = 0;
        while j < b.len()
            invariant
                0 <= i < a.len(),
                0 <= j <= b.len(),
                adv == a.deep_view(),
                bdv == b.deep_view(),
                result.deep_view() == product(adv.take(i as int), bdv) + prefix_all(
                    adv[i as int],
                    bdv.take(j as int),
                ),
            decreases b.len() - j,
        {
            let combined: String = a[i].clone().concat(b[j].as_str());
            let ghost prev = result.deep_view();
            result.push(combined);
            proof {
                lemma_product_len(adv.take(i as int), bdv);
                lemma_prefix_all(adv[i as int], bdv.take(j as int));
                lemma_prefix_all(adv[i as int], bdv.take(j + 1));
                assert(bdv.take(j + 1).drop_last() =~= bdv.take(j as int));
                assert(prefix_all(adv[i as int], bdv.take(j + 1)) =~= prefix_all(
                    adv[i as int],
                    bdv.take(j as int),
                ).push(adv[i as int] + bdv[j as int]));
                assert(result.deep_view() =~= prev.push(adv[i as int] + bdv[j as int]));
                assert(result.deep_view() =~= product(adv.take(i as int), bdv) + prefix_all(
                    adv[i as int],
                    bdv.take(j + 1),
                ));
            }
            j = j + 1;
        }
        proof {
            lemma_product_push(adv.take(i as int), adv[i as int], bdv);
            assert(adv.take(i + 1) =~= adv.take(i as int).push(adv[i as int]));
            assert(bdv.take(b.len() as int) =~= bdv);
            assert(result.deep_view() =~= product(adv.take(i + 1), bdv));
        }
        i = i + 1;
    }
    proof {
        assert(adv.take(a.len() as int) =~= adv);
    }
    result
}


// ---------------------------------------------------------------------------
// Laws
// ---------------------------------------------------------------------------

/// Round trip of free text: a template list with no placeholder part — pure
/// free text, or empty — resolves every field list to the fields themselves,
/// unchanged.
pub proof fn lemma_free_text_round_trip(ts: Seq<Seq<PartView>>, fields: Seq<Seq<char>>)
    requires
        forall|i: int, j: int|
            0 <= i < ts.len() && 0 <= j < ts[i].len() ==> (#[trigger] ts[i][j]) is FreeText,
    ensures
        resolver_output(ts, fields) == Ok::<Seq<Seq<char>>, ResolveError>(fields),
{
    assert(!has_placeholder(ts)) by {
        if has_placeholder(ts) {
            let (x, y) = choose|x: int, y: int|
                0 <= x < ts.len() && 0 <= y < ts[x].len() && !(ts[x][y] is FreeText);
            assert((ts[x][y]) is FreeText);
        }
    }
}

/// Identity on an empty side: multiplying with a side that holds no strings
/// passes the other side through unchanged — an empty output set is a no-op,
/// not an annihilator.
pub proof fn lemma_multiply_identity(a: Seq<Seq<char>>, b: Seq<Seq<char>>)
    ensures
        a.len() == 0 ==> multiply(a, b) == b,
        b.len() == 0 ==> multiply(a, b) == a,
{
}

/// Determinism of resolution: one template list and one field list admit a
/// single output, whatever run produced it.
pub proof fn lemma_resolve_deterministic(
    ts: Seq<Seq<PartView>>,
    fields: Seq<Seq<char>>,
    r1: Result<Seq<Seq<char>>, ResolveError>,
    r2: Result<Seq<Seq<char>>, ResolveError>,
)
    requires
        r1 == resolver_output(ts, fields),
        r2 == resolver_output(ts, fields),
    ensures
        r1 == r2,
{
}

} // verus!

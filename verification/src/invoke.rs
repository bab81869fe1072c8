//! Invocation planning: from a document reference and a set of include
//! directories to the compiler command line.
//!
//! The library only plans the invocation; the caller spawns the process and
//! hands the captured standard-error text to the parser. Only documents
//! that resolve to a local, text-representable path are accepted, and that
//! is checked here, before any process could be started.

use vstd::prelude::*;

verus! {

/// How a document reference's filesystem path resolved, as plain values.
pub enum DocPath {
    /// The reference could not be resolved to a filesystem path at all.
    Unresolvable,
    /// The path exists but cannot be represented as text.
    NonRepresentable,
    /// The resolved path, as text.
    Local(String),
}

/// A document reference: the reference's scheme and its resolved
/// filesystem path, reduced to plain values by the caller.
pub struct DocRef {
    pub scheme: String,
    pub path: DocPath,
}

/// Why no invocation could be planned for a document reference.
#[derive(Clone, Copy, Debug, PartialEq, Eq, Structural)]
pub enum InvokeError {
    /// The reference does not use the local-file scheme.
    UnsupportedScheme,
    /// The reference's path could not be resolved.
    UnresolvablePath,
    /// The resolved path is not representable as text.
    NonRepresentablePath,
}

/// One `-I<dir>` argument per representable include directory, in order;
/// entries that are not representable as text are skipped.
pub open spec fn spec_include_args(ps: Seq<Option<Seq<char>>>) -> Seq<Seq<char>>
    decreases ps.len(),
{
    if ps.len() == 0 {
        Seq::empty()
    } else {
        (match ps[0] {
            Some(p) => seq!["-I"@ + p],
            None => Seq::empty(),
        }) + spec_include_args(ps.drop_first())
    }
}

/// The full command line for one document: the tool, its syntax-check
/// subcommand, the include arguments, and the document path last.
pub open spec fn spec_invocation_args(path: Seq<char>, ps: Seq<Option<Seq<char>>>) -> Seq<
    Seq<char>,
> {
    seq!["capnp"@, "compile"@] + spec_include_args(ps) + seq![path]
}

/// Appending one directory entry extends the include arguments by that
/// entry's argument, or by nothing when the entry is not representable.
proof fn lemma_include_args_push(ps: Seq<Option<Seq<char>>>, x: Option<Seq<char>>)
    ensures
        spec_include_args(ps.push(x)) == spec_include_args(ps) + (match x {
            Some(p) => seq!["-I"@ + p],
            None => Seq::<Seq<char>>::empty(),
        }),
    decreases ps.len(),
{
    let item = (match x {
        Some(p) => seq!["-I"@ + p],
        None => Seq::<Seq<char>>::empty(),
    });
    if ps.len() == 0 {
        assert(ps.push(x)[0] == x);
        assert(ps.push(x).drop_first() =~= Seq::<Option<Seq<char>>>::empty());
        assert(spec_include_args(ps.push(x)) == item + spec_include_args(
            Seq::<Option<Seq<char>>>::empty(),
        ));
        assert(spec_include_args(Seq::<Option<Seq<char>>>::empty()) =~= Seq::<Seq<char>>::empty());
        assert(spec_include_args(ps.push(x)) =~= spec_include_args(ps) + item);
    } else {
        assert(ps.push(x)[0] == ps[0]);
        assert(ps.push(x).drop_first() =~= ps.drop_first().push(x));
        lemma_include_args_push(ps.drop_first(), x);
        let head = (match ps[0] {
            Some(p) => seq!["-I"@ + p],
            None => Seq::<Seq<char>>::empty(),
        });
        assert(head + (spec_include_args(ps.drop_first()) + item) =~= (head + spec_include_args(
            ps.drop_first(),
        )) + item);
    }
}

/// Plan the compiler invocation for one document.
///
/// Succeeds exactly when the reference uses the local-file scheme and its
/// path is representable as text; the arguments are then the syntax-check
/// subcommand, one `-I` argument per representable include directory in
/// order, and the document path last. A `None` include entry stands for a
/// directory whose path is not representable: it is skipped, and never
/// fails the whole plan.
pub fn invocation_args(doc: &DocRef, search_paths: &Vec<Option<String>>) -> (r: Result<
    Vec<String>,
    InvokeError,
>)
    ensures
        doc.scheme@ != "file"@ ==> r == Err::<Vec<String>, InvokeError>(
            InvokeError::UnsupportedScheme,
        ),
        doc.scheme@ == "file"@ ==> match doc.path {
            DocPath::Unresolvable => r == Err::<Vec<String>, InvokeError>(
                InvokeError::UnresolvablePath,
            ),
            DocPath::NonRepresentable => r == Err::<Vec<String>, InvokeError>(
                InvokeError::NonRepresentablePath,
            ),
            DocPath::Local(p) => r matches Ok(args) && args.deep_view() == spec_invocation_args(
                p@,
                search_paths.deep_view(),
            ),
        },
{
    let file_scheme = "file".to_owned();
    if !(doc.scheme == file_scheme) {
        return Err(InvokeError::UnsupportedScheme);
    }
    let path: &String = match &doc.path {
        DocPath::Unresolvable => {
            return Err(InvokeError::UnresolvablePath);
        },
        DocPath::NonRepresentable => {
            return Err(InvokeError::NonRepresentablePath);
        },
        DocPath::Local(p) => p,
    };
    let ghost dv = search_paths.deep_view();
    let mut args: Vec<String> = Vec::new();
    args.push("capnp".to_owned());
    args.push("compile".to_owned());
    proof {
        assert(dv.take(0) =~= Seq::<Option<Seq<char>>>::empty());
        assert(args.deep_view() =~= seq!["capnp"@, "compile"@] + spec_include_args(dv.take(0)));
    }
    let k = search_paths.len();
    let mut i: usize = 0;
    while i < k
        invariant
            0 <= i <= k,
            k == search_paths@.len(),
            dv == search_paths.deep_view(),
            args.deep_view() == seq!["capnp"@, "compile"@] + spec_include_args(dv.take(i as int)),
        decreases k - i,
    {
        let ghost prev = args.deep_view();
        match &search_paths[i] {
            Some(p) => {
                let mut a = "-I".to_owned();
                a.append(p.as_str());
                args.push(a);
            },
            None => {},
        }
        proof {
            assert(dv.take(i as int + 1) =~= dv.take(i as int).push(dv[i as int]));
            lemma_include_args_push(dv.take(i as int), dv[i as int]);
            if dv[i as int] is Some {
                assert(args.deep_view() =~= prev.push("-I"@ + dv[i as int]->Some_0));
            }
            assert(args.deep_view() =~= seq!["capnp"@, "compile"@] + spec_include_args(
                dv.take(i as int + 1),
            ));
        }
        i = i + 1;
    }
    args.push(path.clone());
    proof {
        assert(dv.take(k as int) =~= dv);
        assert(args.deep_view() =~= spec_invocation_args(path@, dv));
    }
    Ok(args)
}

} // verus!

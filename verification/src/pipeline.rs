//! The per-target pipeline: seed the fold with the target's existing
//! content (when there is any), stream the fragment texts through the
//! parser dispatch and the merge, and render the result.
use crate::config::{
    format_view, renderable, spec_dispatch, spec_merge, spec_render, ConfigModel, ConfigValue,
    PatchError,
};
use vstd::prelude::*;

verus! {

/// Fragment files that never contribute to a merge, by exact basename.
pub open spec fn spec_ignored(name: Seq<char>) -> bool {
    name == "AGENTS.md"@ || name == "README.md"@
}

/// Whether a fragment basename is on the fixed ignore list.
pub fn is_ignored(name: &String) -> (r: bool)
    ensures
        r == spec_ignored(name@),
{
    *name == "AGENTS.md".to_owned() || *name == "README.md".to_owned()
}

/// The views of a vector of texts.
pub open spec fn texts_view(s: Seq<String>) -> Seq<Seq<char>> {
    Seq::new(
        s.len(),
        |i: int|
            if 0 <= i < s.len() {
                s[i]@
            } else {
                arbitrary()
            },
    )
}

/// The views of a vector of named fragments.
pub open spec fn pairs_view(s: Seq<(String, String)>) -> Seq<(Seq<char>, Seq<char>)> {
    Seq::new(
        s.len(),
        |i: int|
            if 0 <= i < s.len() {
                (s[i].0@, s[i].1@)
            } else {
                arbitrary()
            },
    )
}

/// The contents of the fragments that take part in a merge: listing order
/// kept, ignored basenames dropped.
pub open spec fn spec_inputs(fragments: Seq<(Seq<char>, Seq<char>)>) -> Seq<Seq<char>>
    decreases fragments.len(),
{
    if fragments.len() == 0 {
        Seq::empty()
    } else {
        let rest = spec_inputs(fragments.subrange(1, fragments.len() as int));
        if spec_ignored(fragments[0].0) {
            rest
        } else {
            seq![fragments[0].1] + rest
        }
    }
}

/// The left fold of the pipeline: parse each text under the format tag and
/// merge it into the accumulated value, stopping at the first error.
pub open spec fn spec_fold(
    format: Option<Seq<char>>,
    acc: ConfigModel,
    texts: Seq<Seq<char>>,
) -> Result<ConfigModel, PatchError>
    decreases texts.len(),
{
    if texts.len() == 0 {
        Ok(acc)
    } else {
        match spec_dispatch(format, texts[0]) {
            Err(e) => Err(e),
            Ok(v) => match spec_merge(acc, v) {
                Err(e) => Err(e),
                Ok(m) => spec_fold(format, m, texts.subrange(1, texts.len() as int)),
            },
        }
    }
}

/// What assembling one target yields: the texts that take part are the
/// existing content (only when non-empty) followed by the surviving
/// fragment contents in listing order; they are folded from `Empty` and the
/// result is rendered.
pub open spec fn spec_assemble(
    format: Option<Seq<char>>,
    existing: Seq<char>,
    fragments: Seq<(Seq<char>, Seq<char>)>,
) -> Result<Seq<char>, PatchError> {
    let inputs = if existing.len() > 0 {
        seq![existing] + spec_inputs(fragments)
    } else {
        spec_inputs(fragments)
    };
    match spec_fold(format, ConfigModel::Empty, inputs) {
        Ok(m) => Ok(spec_render(m)),
        Err(e) => Err(e),
    }
}

/// Assembles one target: `existing` is the target file's current content
/// (the seed of the fold when non-empty), `fragments` are the patch
/// directory's files as (basename, content) pairs in listing order.  On
/// success the returned text overwrites the target file.
#[verifier::loop_isolation(false)]
pub fn assemble_target(
    format: &Option<String>,
    existing: &String,
    fragments: Vec<(String, String)>,
) -> (r: Result<String, PatchError>)
    ensures
        match r {
            Ok(s) => spec_assemble(format_view(*format), existing@, pairs_view(fragments@)) == Ok::<
                Seq<char>,
                PatchError,
            >(s@),
            Err(e) => spec_assemble(format_view(*format), existing@, pairs_view(fragments@))
                == Err::<Seq<char>, PatchError>(e),
        },
{
    let ghost all_inputs: Seq<Seq<char>> = if existing@.len() > 0 {
        seq![existing@] + spec_inputs(pairs_view(fragments@))
    } else {
        spec_inputs(pairs_view(fragments@))
    };

    let mut texts: Vec<String> = Vec::new();
    if !existing.as_str().is_empty() {
        texts.push(existing.clone());
    }
    let mut fr = fragments;
    proof {
        assert(pairs_view(fr@) =~= pairs_view(fragments@));
    }
    while fr.len() > 0
        invariant
            texts_view(texts@) + spec_inputs(pairs_view(fr@)) == all_inputs,
        decreases fr@.len(),
    {
        let ghost texts_b = texts@;
        let ghost fr_b = fr@;
        let (name, content) = fr.remove(0);
        proof {
            assert(pairs_view(fr@) =~= pairs_view(fr_b).subrange(
                1,
                pairs_view(fr_b).len() as int,
            ));
            assert(pairs_view(fr_b)[0] == (name@, content@));
        }
        if !is_ignored(&name) {
            texts.push(content);
            proof {
                assert(texts_view(texts@) =~= texts_view(texts_b).push(content@));
                assert(texts_view(texts_b).push(content@) + spec_inputs(pairs_view(fr@))
                    =~= texts_view(texts_b) + (seq![content@] + spec_inputs(pairs_view(fr@))));
            }
        }
    }
    proof {
        assert(spec_inputs(pairs_view(fr@)) =~= Seq::<Seq<char>>::empty());
        assert(texts_view(texts@) + Seq::<Seq<char>>::empty() =~= texts_view(texts@));
        assert(texts_view(texts@) == all_inputs);
    }

    let mut acc = ConfigValue::Empty;
    let mut ts = texts;
    while ts.len() > 0
        invariant
            renderable(acc@),
            acc@.wf(),
            spec_fold(format_view(*format), acc@, texts_view(ts@)) == spec_fold(
                format_view(*format),
                ConfigModel::Empty,
                all_inputs,
            ),
        decreases ts@.len(),
    {
        let ghost ts_b = ts@;
        let t = ts.remove(0);
        proof {
            assert(texts_view(ts@) =~= texts_view(ts_b).subrange(
                1,
                texts_view(ts_b).len() as int,
            ));
            assert(texts_view(ts_b)[0] == t@);
        }
        let parsed = match ConfigValue::parse_dispatch(format, t) {
            Ok(v) => v,
            Err(e) => {
                proof {
                    assert(spec_fold(format_view(*format), acc@, texts_view(ts_b)) == Err::<
                        ConfigModel,
                        PatchError,
                    >(e));
                }
                return Err(e);
            },
        };
        let ghost acc_b = acc@;
        acc = match acc.try_merge(parsed) {
            Ok(m) => m,
            Err(e) => {
                proof {
                    assert(spec_fold(format_view(*format), acc_b, texts_view(ts_b)) == Err::<
                        ConfigModel,
                        PatchError,
                    >(e));
                }
                return Err(e);
            },
        };
        proof {
            assert(spec_fold(format_view(*format), acc_b, texts_view(ts_b)) == spec_fold(
                format_view(*format),
                acc@,
                texts_view(ts@),
            ));
        }
    }
    proof {
        assert(texts_view(ts@) =~= Seq::<Seq<char>>::empty());
    }
    Ok(acc.render())
}

/// Law: the per-target fold is left-associative — folding the texts `ts`
/// and then one more text `t` on top of the result equals folding
/// `ts.push(t)` in one pass.
pub proof fn lemma_fold_left_associative(
    format: Option<Seq<char>>,
    acc: ConfigModel,
    ts: Seq<Seq<char>>,
    t: Seq<char>,
)
    ensures
        spec_fold(format, acc, ts.push(t)) == (match spec_fold(format, acc, ts) {
            Ok(m) => match spec_dispatch(format, t) {
                Ok(v) => spec_merge(m, v),
                Err(e) => Err(e),
            },
            Err(e) => Err(e),
        }),
    decreases ts.len(),
{
    if ts.len() == 0 {
        reveal_with_fuel(spec_fold, 2);
        assert(ts.push(t)[0] == t);
        assert(ts.push(t).subrange(1, ts.push(t).len() as int) =~= Seq::<Seq<char>>::empty());
    } else {
        let rest = ts.subrange(1, ts.len() as int);
        assert(ts.push(t)[0] == ts[0]);
        assert(ts.push(t).subrange(1, ts.push(t).len() as int) =~= rest.push(t));
        match spec_dispatch(format, ts[0]) {
            Err(_) => {},
            Ok(v) => {
                match spec_merge(acc, v) {
                    Err(_) => {},
                    Ok(m) => {
                        lemma_fold_left_associative(format, m, rest, t);
                    },
                }
            },
        }
    }
}

} // verus!

//! Steps that are done one after another, until one fails.
use vstd::prelude::*;

verus! {

/// What comes of steps that are done one after another, if each in turn fails with the error that
/// `outcomes` has for it, or is done where there is none: the steps that are tried, the last of
/// which may have failed, and what is returned. It is nothing if there are not enough outcomes.
pub open spec fn until_failure<Step, Error>(
    steps: Seq<Step>,
    outcomes: Seq<Option<Error>>,
) -> Option<(Seq<Step>, Result<(), Error>)>
    decreases steps.len(),
{
    if steps.len() == 0 {
        Some((Seq::empty(), Ok(())))
    } else if outcomes.len() == 0 {
        None
    } else {
        match outcomes[0] {
            Some(error) => Some((seq![steps[0]], Err(error))),
            None => match until_failure(steps.drop_first(), outcomes.drop_first()) {
                Some((tried, result)) => Some((seq![steps[0]] + tried, result)),
                None => None,
            },
        }
    }
}

/// Whether `ended` is how steps end: if none fails, all are tried, in order, and they succeed. If
/// one fails, those before it and it are tried and none after it, and its error is returned.
pub open spec fn ends_at_failure<Step, Error>(
    steps: Seq<Step>,
    outcomes: Seq<Option<Error>>,
    ended: Option<(Seq<Step>, Result<(), Error>)>,
) -> bool {
    match ended {
        Some((tried, Ok(_))) => {
            &&& tried == steps
            &&& forall|i: int| 0 <= i < steps.len() ==> (#[trigger] outcomes[i]) is None
        },
        Some((tried, Err(error))) => {
            &&& 0 < tried.len() <= steps.len()
            &&& tried == steps.take(tried.len() as int)
            &&& outcomes[tried.len() - 1] == Some(error)
            &&& forall|i: int| 0 <= i < tried.len() - 1 ==> (#[trigger] outcomes[i]) is None
        },
        None => false,
    }
}

/// Steps that are done one after another end at the first that fails, or after the last.
pub proof fn law_until_failure<Step, Error>(steps: Seq<Step>, outcomes: Seq<Option<Error>>)
    requires
        outcomes.len() >= steps.len(),
    ensures
        ends_at_failure(steps, outcomes, until_failure(steps, outcomes)),
    decreases steps.len(),
{
    if steps.len() > 0 && outcomes[0] is None {
        let rest = outcomes.drop_first();
        law_until_failure(steps.drop_first(), rest);
        match until_failure(steps.drop_first(), rest) {
            Some((tried, Ok(_))) => {
                assert(seq![steps[0]] + tried =~= steps);
                assert forall|i: int| 0 <= i < steps.len() implies (
                #[trigger] outcomes[i]) is None by {
                    if i > 0 {
                        assert(rest[i - 1] == outcomes[i]);
                    }
                }
            },
            Some((tried, Err(_))) => {
                let all = seq![steps[0]] + tried;
                assert(all =~= steps.take(all.len() as int));
                assert(rest[tried.len() - 1] == outcomes[all.len() - 1]);
                assert forall|i: int| 0 <= i < all.len() - 1 implies (
                #[trigger] outcomes[i]) is None by {
                    if i > 0 {
                        assert(rest[i - 1] == outcomes[i]);
                    }
                }
            },
            None => {},
        }
    } else if steps.len() > 0 {
        assert(seq![steps[0]] =~= steps.take(1));
    } else {
        assert(steps =~= Seq::empty());
    }
}

} // verus!

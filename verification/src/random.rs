use vstd::prelude::*;

verus! {

/// Whether `coin` is an outcome that a call of `random_bool` can give; of
/// the coin itself nothing is claimed.
pub closed spec fn coin_outcome(coin: bool) -> bool {
    call_ensures(random_bool, (), coin)
}

/// Whether `outcome` is an outcome that a call of `random_ratio` with this
/// numerator and denominator can give.
pub closed spec fn ratio_outcome(numerator: u32, denominator: u32, outcome: bool) -> bool {
    call_ensures(random_ratio, (numerator, denominator), outcome)
}

/// What a call of `random_bool` gave is one of its outcomes.
pub(crate) proof fn lemma_coin_outcome(coin: bool)
    requires
        call_ensures(random_bool, (), coin),
    ensures
        coin_outcome(coin),
{
}

/// What a call of `random_ratio` gave is one of its outcomes.
pub(crate) proof fn lemma_ratio_outcome(numerator: u32, denominator: u32, outcome: bool)
    requires
        call_ensures(random_ratio, (numerator, denominator), outcome),
    ensures
        ratio_outcome(numerator, denominator, outcome),
{
}

/// The outcomes of `random_ratio` are those that its contract allows: never
/// `true` for a zero numerator, always `true` for a numerator equal to the
/// denominator.
pub proof fn lemma_ratio_outcome_bounds(numerator: u32, denominator: u32, outcome: bool)
    requires
        ratio_outcome(numerator, denominator, outcome),
        0 < denominator,
        numerator <= denominator,
    ensures
        numerator == 0 ==> !outcome,
        numerator == denominator ==> outcome,
{
}

/// Calls `rand::random::<bool>()`, a fair coin from the thread-local
/// generator; nothing is claimed of the outcome.
#[verifier::external_body]
pub(crate) fn random_bool() -> bool {
    rand::random::<bool>()
}

/// Calls `rand::random_ratio`, which is `true` with probability
/// `numerator / denominator`. It panics unless `0 < denominator` and
/// `numerator <= denominator`; its documentation guarantees `false` for a zero
/// numerator and `true` when numerator and denominator are equal. Nothing
/// else is claimed of the outcome.
#[verifier::external_body]
pub(crate) fn random_ratio(numerator: u32, denominator: u32) -> (outcome: bool)
    requires
        0 < denominator,
        numerator <= denominator,
    ensures
        numerator == 0 ==> !outcome,
        numerator == denominator ==> outcome,
{
    rand::random_ratio(numerator, denominator)
}

} // verus!

//! Validators and their balances.

use vstd::prelude::*;

verus! {

/// What the registry holds of a validator.
#[derive(Clone, Copy, Debug)]
pub struct ValidatorState {
    pub pubkey: [u8; 48],
    pub effective_balance: u64,
    pub slashed: bool,
    pub activation_epoch: u64,
    pub exit_epoch: u64,
}

impl ValidatorState {
    /// The validator is active in the epoch.
    pub open spec fn active(&self, epoch: u64) -> bool {
        self.activation_epoch <= epoch < self.exit_epoch
    }

    pub fn is_active(&self, epoch: u64) -> (r: bool)
        ensures
            r == self.active(epoch),
    {
        self.activation_epoch <= epoch && epoch < self.exit_epoch
    }
}

/// At least two thirds of the total.
pub open spec fn supermajority(attesting: int, total: int) -> bool {
    3 * attesting >= 2 * total
}

/// Whether `attesting` is at least two thirds of `total`.
pub fn is_supermajority(attesting: u64, total: u64) -> (r: bool)
    ensures
        r == supermajority(attesting as int, total as int),
{
    3 * (attesting as u128) >= 2 * (total as u128)
}

/// Effective balances of the active ones among the first `n` validators.
pub open spec fn active_balance(vs: Seq<ValidatorState>, epoch: u64, n: nat) -> int
    decreases n,
{
    if n == 0 {
        0
    } else {
        active_balance(vs, epoch, (n - 1) as nat) + if vs[n - 1].active(epoch) {
            vs[n - 1].effective_balance as int
        } else {
            0
        }
    }
}

/// Validator `i` takes part: it is active, not slashed, and marked.
pub open spec fn attests(vs: Seq<ValidatorState>, marks: Seq<bool>, epoch: u64, i: int) -> bool {
    vs[i].active(epoch) && !vs[i].slashed && i < marks.len() && marks[i]
}

/// Effective balances of those among the first `n` validators that take part.
pub open spec fn attesting_balance(
    vs: Seq<ValidatorState>,
    marks: Seq<bool>,
    epoch: u64,
    n: nat,
) -> int
    decreases n,
{
    if n == 0 {
        0
    } else {
        attesting_balance(vs, marks, epoch, (n - 1) as nat) + if attests(vs, marks, epoch, n - 1) {
            vs[n - 1].effective_balance as int
        } else {
            0
        }
    }
}

pub proof fn lemma_active_monotone(vs: Seq<ValidatorState>, epoch: u64, i: nat, j: nat)
    requires
        i <= j,
    ensures
        0 <= active_balance(vs, epoch, i) <= active_balance(vs, epoch, j),
    decreases j,
{
    if j > 0 {
        if i < j {
            lemma_active_monotone(vs, epoch, i, (j - 1) as nat);
        } else {
            lemma_active_monotone(vs, epoch, (j - 1) as nat, (j - 1) as nat);
        }
    }
}

/// Those that take part hold no more than all active validators.
pub proof fn law_attesting_within_active(
    vs: Seq<ValidatorState>,
    marks: Seq<bool>,
    epoch: u64,
    n: nat,
)
    ensures
        0 <= attesting_balance(vs, marks, epoch, n) <= active_balance(vs, epoch, n),
    decreases n,
{
    if n > 0 {
        law_attesting_within_active(vs, marks, epoch, (n - 1) as nat);
    }
}

/// Total effective balance of the active validators.
pub fn total_active_balance(validators: &[ValidatorState], epoch: u64) -> (r: u64)
    requires
        active_balance(validators@, epoch, validators.len() as nat) <= u64::MAX,
    ensures
        r == active_balance(validators@, epoch, validators.len() as nat),
{
    let mut sum: u64 = 0;
    let mut i: usize = 0;
    while i < validators.len()
        invariant
            i <= validators.len(),
            sum == active_balance(validators@, epoch, i as nat),
            active_balance(validators@, epoch, validators.len() as nat) <= u64::MAX,
        decreases validators.len() - i,
    {
        proof {
            lemma_active_monotone(validators@, epoch, (i + 1) as nat, validators.len() as nat);
        }
        if validators[i].is_active(epoch) {
            sum = sum + validators[i].effective_balance;
        }
        i = i + 1;
    }
    sum
}

/// Total effective balance of the validators that take part.
pub fn total_attesting_balance(
    validators: &[ValidatorState],
    participating: &[bool],
    epoch: u64,
) -> (r: u64)
    requires
        active_balance(validators@, epoch, validators.len() as nat) <= u64::MAX,
    ensures
        r == attesting_balance(validators@, participating@, epoch, validators.len() as nat),
{
    let mut sum: u64 = 0;
    let mut i: usize = 0;
    while i < validators.len()
        invariant
            i <= validators.len(),
            sum == attesting_balance(validators@, participating@, epoch, i as nat),
            active_balance(validators@, epoch, validators.len() as nat) <= u64::MAX,
        decreases validators.len() - i,
    {
        proof {
            lemma_active_monotone(validators@, epoch, (i + 1) as nat, validators.len() as nat);
            law_attesting_within_active(validators@, participating@, epoch, (i + 1) as nat);
        }
        let marked: bool = i < participating.len() && participating[i];
        if validators[i].is_active(epoch) && !validators[i].slashed && marked {
            sum = sum + validators[i].effective_balance;
        }
        i = i + 1;
    }
    sum
}

/// A validator that joins adds its effective balance to that of the active
/// ones if it is active in the epoch: activated by then, and not yet exited. It
/// adds its balance to that of those that take part if, besides, it is not
/// slashed and it is marked.
pub proof fn law_one_more_validator(
    vs: Seq<ValidatorState>,
    v: ValidatorState,
    marks: Seq<bool>,
    epoch: u64,
)
    ensures
        active_balance(Seq::empty(), epoch, 0) == 0,
        attesting_balance(Seq::empty(), marks, epoch, 0) == 0,
        v.activation_epoch <= epoch && epoch < v.exit_epoch ==> active_balance(
            vs.push(v),
            epoch,
            vs.len() + 1,
        ) == active_balance(vs, epoch, vs.len()) + v.effective_balance,
        epoch < v.activation_epoch || v.exit_epoch <= epoch ==> active_balance(
            vs.push(v),
            epoch,
            vs.len() + 1,
        ) == active_balance(vs, epoch, vs.len()),
        v.activation_epoch <= epoch && epoch < v.exit_epoch && !v.slashed && vs.len() < marks.len()
            && marks[vs.len() as int] ==> attesting_balance(
            vs.push(v),
            marks,
            epoch,
            vs.len() + 1,
        ) == attesting_balance(vs, marks, epoch, vs.len()) + v.effective_balance,
        epoch < v.activation_epoch || v.exit_epoch <= epoch || v.slashed || vs.len() >= marks.len()
            || !marks[vs.len() as int] ==> attesting_balance(
            vs.push(v),
            marks,
            epoch,
            vs.len() + 1,
        ) == attesting_balance(vs, marks, epoch, vs.len()),
{
    lemma_balances_local(vs, vs.push(v), marks, epoch, vs.len());
}

proof fn lemma_balances_local(
    vs: Seq<ValidatorState>,
    ws: Seq<ValidatorState>,
    marks: Seq<bool>,
    epoch: u64,
    n: nat,
)
    requires
        forall|i: int| 0 <= i < n ==> vs[i] == ws[i],
    ensures
        active_balance(vs, epoch, n) == active_balance(ws, epoch, n),
        attesting_balance(vs, marks, epoch, n) == attesting_balance(ws, marks, epoch, n),
    decreases n,
{
    if n > 0 {
        assert(vs[n - 1] == ws[n - 1]);
        lemma_balances_local(vs, ws, marks, epoch, (n - 1) as nat);
    }
}

/// A supermajority leaves at most half of its own weight out: two parts of
/// three are enough, and anything less is not.
pub proof fn law_supermajority(attesting: int, total: int, third: int)
    requires
        0 <= third,
    ensures
        supermajority(attesting, total) <==> 2 * (total - attesting) <= attesting,
        supermajority(2 * third, 3 * third),
        !supermajority(2 * third - 1, 3 * third),
        supermajority(total, total) <==> total >= 0,
{
}

} // verus!

//! Laws that relate the ledger's operations to one another, stated over the
//! same owner-to-balance maps that the operations' contracts use.

use vstd::prelude::*;

use crate::ledger::balance_in;
use crate::ledger::credited;
use crate::ledger::transferred;
use crate::ledger::ErrorKind;

verus! {

/// A transfer that an account can cover succeeds: the debited account ends
/// `amount` lower, the credited account `amount` higher, and every other
/// account keeps its balance.
pub proof fn lemma_transfer_success(
    m: Map<Seq<char>, u64>,
    from: Seq<char>,
    to: Seq<char>,
    amount: u64,
)
    requires
        m.contains_key(from),
        amount <= m[from],
        from != to,
        balance_in(m, to) + amount <= u64::MAX,
    ensures
        transferred(m, from, to, amount) matches Ok(r) && balance_in(r, from) == m[from] - amount
            && balance_in(r, to) == balance_in(m, to) + amount && forall|w: Seq<char>|
            w != from && w != to ==> balance_in(r, w) == balance_in(m, w),
{
}

/// A transfer of more than the debited account holds fails with
/// `InsufficientBalance`, whatever the recipient; the failure stands for the
/// map being left as it was.
pub proof fn lemma_transfer_insufficient(
    m: Map<Seq<char>, u64>,
    from: Seq<char>,
    to: Seq<char>,
    amount: u64,
)
    requires
        m.contains_key(from),
        amount > m[from],
    ensures
        transferred(m, from, to, amount) == Err::<Map<Seq<char>, u64>, ErrorKind>(
            ErrorKind::InsufficientBalance,
        ),
{
}

/// A transfer debiting an identity with no record fails with
/// `AccountNotFound`, whatever the amount — an amount of 0 included.
pub proof fn lemma_transfer_absent(
    m: Map<Seq<char>, u64>,
    from: Seq<char>,
    to: Seq<char>,
    amount: u64,
)
    requires
        !m.contains_key(from),
    ensures
        transferred(m, from, to, amount) == Err::<Map<Seq<char>, u64>, ErrorKind>(
            ErrorKind::AccountNotFound,
        ),
{
}

/// Crediting 0 succeeds and changes no balance that any identity holds.
pub proof fn lemma_credit_zero(m: Map<Seq<char>, u64>, who: Seq<char>)
    ensures
        credited(m, who, 0) matches Ok(r) && forall|w: Seq<char>|
            balance_in(r, w) == balance_in(m, w),
{
}

/// Two credits to one account add up: crediting `a` and then `b` ends in
/// the same map as crediting `a + b` at once, as long as the combined
/// credit fits in a `u64`.
pub proof fn lemma_credit_additive(m: Map<Seq<char>, u64>, who: Seq<char>, a: u64, b: u64)
    requires
        balance_in(m, who) + a + b <= u64::MAX,
    ensures
        credited(m, who, a) matches Ok(r1) && credited(r1, who, b) == credited(
            m,
            who,
            (a + b) as u64,
        ),
{
    let r1 = credited(m, who, a).unwrap();
    assert(credited(r1, who, b).unwrap() =~= credited(m, who, (a + b) as u64).unwrap());
}

/// A transfer of an account to itself, of no more than it holds, succeeds
/// and leaves the whole map exactly as it was.
pub proof fn lemma_transfer_self(m: Map<Seq<char>, u64>, from: Seq<char>, amount: u64)
    requires
        m.contains_key(from),
        amount <= m[from],
    ensures
        transferred(m, from, from, amount) matches Ok(r) && r == m,
{
    assert(transferred(m, from, from, amount).unwrap() =~= m);
}

} // verus!

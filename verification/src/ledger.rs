//! The ledger itself: account records, the owner-to-balance view, and the
//! three operations `credit`, `transfer` and `balance_of`.

use vstd::prelude::*;

verus! {

/// Why `credit` or `transfer` refused to change the ledger.
#[derive(Clone, Copy, Debug, PartialEq, Eq, Structural)]
pub enum ErrorKind {
    /// `transfer` was asked to debit an identity that has no record.
    AccountNotFound,
    /// The debited record holds less than the requested amount.
    InsufficientBalance,
    /// The credit would push the recipient's balance past `u64::MAX`.
    Overflow,
}

impl ErrorKind {
    /// The error text that a host surfaces to the end caller.
    pub fn message(&self) -> (r: String)
        ensures
            *self == ErrorKind::AccountNotFound ==> r@ == "Sender not found"@,
            *self == ErrorKind::InsufficientBalance ==> r@ == "Insufficient balance"@,
            *self == ErrorKind::Overflow ==> r@ == "Balance overflow"@,
    {
        match self {
            ErrorKind::AccountNotFound => String::from_str("Sender not found"),
            ErrorKind::InsufficientBalance => String::from_str("Insufficient balance"),
            ErrorKind::Overflow => String::from_str("Balance overflow"),
        }
    }
}

/// The balance that `who` holds in the map `m`; an absent identity holds 0.
pub open spec fn balance_in(m: Map<Seq<char>, u64>, who: Seq<char>) -> int {
    if m.contains_key(who) {
        m[who] as int
    } else {
        0
    }
}

/// The map after crediting `amount` to `who`: a record is created when none
/// exists, added to otherwise, and the credit is refused only when the new
/// balance would not fit in a `u64`.
pub open spec fn credited(m: Map<Seq<char>, u64>, who: Seq<char>, amount: u64) -> Result<
    Map<Seq<char>, u64>,
    ErrorKind,
> {
    if balance_in(m, who) + amount > u64::MAX {
        Err(ErrorKind::Overflow)
    } else {
        Ok(m.insert(who, (balance_in(m, who) + amount) as u64))
    }
}

/// The map after moving `amount` from `from` to `to`: the debit is checked
/// first, then `to` is credited exactly as `credited` says. Any failure
/// stands for the map being left as it was.
pub open spec fn transferred(
    m: Map<Seq<char>, u64>,
    from: Seq<char>,
    to: Seq<char>,
    amount: u64,
) -> Result<Map<Seq<char>, u64>, ErrorKind> {
    if !m.contains_key(from) {
        Err(ErrorKind::AccountNotFound)
    } else if m[from] < amount {
        Err(ErrorKind::InsufficientBalance)
    } else {
        credited(m.insert(from, (m[from] - amount) as u64), to, amount)
    }
}

/// One account record: an owner identity and the balance it holds.
struct Token {
    owner: String,
    balance: u64,
}

/// No two records share an owner, so a sequence of records denotes a map
/// without ambiguity.
spec fn unique_owners(s: Seq<Token>) -> bool {
    forall|i: int, j: int| 0 <= i < j < s.len() ==> s[i].owner@ != s[j].owner@
}

/// The owner-to-balance map that a sequence of records denotes.
spec fn map_of(s: Seq<Token>) -> Map<Seq<char>, u64>
    decreases s.len(),
{
    if s.len() == 0 {
        Map::empty()
    } else {
        map_of(s.drop_last()).insert(s.last().owner@, s.last().balance)
    }
}

/// The ledger: a collection of account records, at most one per owner.
pub struct Ledger {
    tokens: Vec<Token>,
}

impl View for Ledger {
    type V = Map<Seq<char>, u64>;

    closed spec fn view(&self) -> Map<Seq<char>, u64> {
        map_of(self.tokens@)
    }
}

/// A record at any index is present in the denoted map with its balance.
proof fn lemma_map_of_index(s: Seq<Token>, i: int)
    requires
        unique_owners(s),
        0 <= i < s.len(),
    ensures
        map_of(s).contains_key(s[i].owner@),
        map_of(s)[s[i].owner@] == s[i].balance,
    decreases s.len(),
{
    if i < s.len() - 1 {
        assert forall|a: int, b: int|
            0 <= a < b < s.drop_last().len() implies s.drop_last()[a].owner@
            != s.drop_last()[b].owner@ by {
            assert(s.drop_last()[a] == s[a]);
            assert(s.drop_last()[b] == s[b]);
        }
        lemma_map_of_index(s.drop_last(), i);
        assert(s[i].owner@ != s.last().owner@);
    }
}

/// An identity that no record carries is absent from the denoted map.
proof fn lemma_map_of_absent(s: Seq<Token>, k: Seq<char>)
    requires
        forall|i: int| 0 <= i < s.len() ==> s[i].owner@ != k,
    ensures
        !map_of(s).contains_key(k),
    decreases s.len(),
{
    if s.len() > 0 {
        assert forall|i: int| 0 <= i < s.drop_last().len() implies s.drop_last()[i].owner@
            != k by {
            assert(s.drop_last()[i] == s[i]);
        }
        lemma_map_of_absent(s.drop_last(), k);
    }
}

/// Replacing the balance of the record at index `i` replaces that owner's
/// entry in the denoted map and touches nothing else.
proof fn lemma_map_of_update(s: Seq<Token>, i: int, t: Token)
    requires
        unique_owners(s),
        0 <= i < s.len(),
        t.owner@ == s[i].owner@,
    ensures
        map_of(s.update(i, t)) == map_of(s).insert(t.owner@, t.balance),
    decreases s.len(),
{
    let su = s.update(i, t);
    if i == s.len() - 1 {
        assert(su.drop_last() =~= s.drop_last());
        assert(map_of(su) =~= map_of(s).insert(t.owner@, t.balance));
    } else {
        assert forall|a: int, b: int|
            0 <= a < b < s.drop_last().len() implies s.drop_last()[a].owner@
            != s.drop_last()[b].owner@ by {
            assert(s.drop_last()[a] == s[a]);
            assert(s.drop_last()[b] == s[b]);
        }
        assert(su.drop_last() =~= s.drop_last().update(i, t));
        lemma_map_of_update(s.drop_last(), i, t);
        assert(s[i].owner@ != s.last().owner@);
        assert(map_of(su) =~= map_of(s).insert(t.owner@, t.balance));
    }
}

impl Ledger {
    /// Well-formed: each owner identity appears in at most one record.
    pub closed spec fn wf(&self) -> bool {
        unique_owners(self.tokens@)
    }

    /// A ledger with no records at all: every identity holds 0.
    pub fn new() -> (r: Ledger)
        ensures
            r.wf(),
            r@ == Map::<Seq<char>, u64>::empty(),
    {
        Ledger { tokens: Vec::new() }
    }

    /// The index of the record owned by `who`, if one exists.
    fn find_owner(&self, who: &String) -> (r: Option<usize>)
        requires
            self.wf(),
        ensures
            match r {
                Some(i) => i < self.tokens@.len() && self.tokens@[i as int].owner@ == who@
                    && self@.contains_key(who@) && self@[who@] == self.tokens@[i as int].balance,
                None => !self@.contains_key(who@) && forall|j: int|
                    0 <= j < self.tokens@.len() ==> self.tokens@[j].owner@ != who@,
            },
    {
        let n = self.tokens.len();
        let mut i: usize = 0;
        while i < n
            invariant
                n == self.tokens@.len(),
                i <= n,
                self.wf(),
                forall|j: int| 0 <= j < i ==> self.tokens@[j].owner@ != who@,
            decreases n - i,
        {
            if self.tokens[i].owner == *who {
                proof {
                    lemma_map_of_index(self.tokens@, i as int);
                }
                return Some(i);
            }
            i += 1;
        }
        proof {
            lemma_map_of_absent(self.tokens@, who@);
        }
        None
    }

    /// Credit `amount` to `who`: create a record when none exists, add to
    /// the existing one otherwise. Refused only when the new balance would
    /// not fit in a `u64`, and then the ledger is left untouched.
    pub fn credit(&mut self, who: &String, amount: u64) -> (r: Result<(), ErrorKind>)
        requires
            old(self).wf(),
        ensures
            final(self).wf(),
            match credited(old(self)@, who@, amount) {
                Ok(m) => r == Ok::<(), ErrorKind>(()) && final(self)@ == m,
                Err(e) => r == Err::<(), ErrorKind>(e) && final(self)@ == old(self)@,
            },
    {
        let ghost s0 = self.tokens@;
        match self.find_owner(who) {
            Some(i) => {
                let bal = self.tokens[i].balance;
                if amount > u64::MAX - bal {
                    Err(ErrorKind::Overflow)
                } else {
                    self.tokens[i].balance = bal + amount;
                    proof {
                        lemma_map_of_update(s0, i as int, self.tokens@[i as int]);
                        assert forall|a: int, b: int|
                            0 <= a < b < self.tokens@.len() implies self.tokens@[a].owner@
                            != self.tokens@[b].owner@ by {
                            assert(self.tokens@[a].owner == s0[a].owner);
                            assert(self.tokens@[b].owner == s0[b].owner);
                        }
                    }
                    Ok(())
                }
            },
            None => {
                self.tokens.push(Token { owner: who.clone(), balance: amount });
                proof {
                    assert(self.tokens@.drop_last() =~= s0);
                    assert forall|a: int, b: int|
                        0 <= a < b < self.tokens@.len() implies self.tokens@[a].owner@
                        != self.tokens@[b].owner@ by {
                        if b < s0.len() {
                            assert(self.tokens@[a].owner == s0[a].owner);
                            assert(self.tokens@[b].owner == s0[b].owner);
                        } else {
                            assert(self.tokens@[a].owner == s0[a].owner);
                            assert(self.tokens@[b].owner@ == who@);
                        }
                    }
                }
                Ok(())
            },
        }
    }

    /// Move `amount` from `from` to `to`: check and apply the debit, then
    /// credit `to` as `credit` does. The two steps apply as one unit: on any
    /// failure, the debit included, the ledger is left untouched.
    pub fn transfer(&mut self, from: &String, to: &String, amount: u64) -> (r: Result<
        (),
        ErrorKind,
    >)
        requires
            old(self).wf(),
        ensures
            final(self).wf(),
            match transferred(old(self)@, from@, to@, amount) {
                Ok(m) => r == Ok::<(), ErrorKind>(()) && final(self)@ == m,
                Err(e) => r == Err::<(), ErrorKind>(e) && final(self)@ == old(self)@,
            },
    {
        let ci = match self.find_owner(from) {
            Some(ci) => ci,
            None => {
                return Err(ErrorKind::AccountNotFound);
            },
        };
        let cbal = self.tokens[ci].balance;
        if cbal < amount {
            return Err(ErrorKind::InsufficientBalance);
        }
        // The credit's overflow check must come before the debit, so that a
        // refused transfer leaves the ledger untouched.
        let rbal = self.balance_of(to);
        if !(*from == *to) && amount > u64::MAX - rbal {
            return Err(ErrorKind::Overflow);
        }
        let ghost s0 = self.tokens@;
        self.tokens[ci].balance = cbal - amount;
        proof {
            lemma_map_of_update(s0, ci as int, self.tokens@[ci as int]);
            assert forall|a: int, b: int|
                0 <= a < b < self.tokens@.len() implies self.tokens@[a].owner@
                != self.tokens@[b].owner@ by {
                assert(self.tokens@[a].owner == s0[a].owner);
                assert(self.tokens@[b].owner == s0[b].owner);
            }
        }
        self.credit(to, amount)
    }

    /// The balance held by `who`; 0 when no record exists, which is not an
    /// error but the default state of every identity.
    pub fn balance_of(&self, who: &String) -> (r: u64)
        requires
            self.wf(),
        ensures
            r == balance_in(self@, who@),
    {
        match self.find_owner(who) {
            Some(i) => self.tokens[i].balance,
            None => 0,
        }
    }
}

} // verus!

//! The chart of accounts: the catalogue that postings refer to.

use crate::error::ValidationError;
use crate::text::same_text;
use vstd::prelude::*;

verus! {

/// The five kinds of account of double-entry bookkeeping.
#[derive(Clone, Copy, Debug, PartialEq, Eq, Structural)]
pub enum AccountType {
    Asset,
    Liability,
    Equity,
    Revenue,
    Expense,
}

/// An account of one company.
#[derive(Clone, Debug, PartialEq, Eq)]
pub struct ChartOfAccount {
    pub id: u64,
    pub company_id: u128,
    pub code: String,
    pub name: String,
    pub account_type: AccountType,
    pub is_active: bool,
}

/// What it takes to open an account.
#[derive(Clone, Debug, PartialEq, Eq)]
pub struct CreateChartOfAccount {
    pub company_id: u128,
    pub code: String,
    pub name: String,
    pub account_type: AccountType,
}

/// Whether `accounts` holds an account of `company_id` under `code`.
pub open spec fn has_code(accounts: Seq<ChartOfAccount>, company_id: u128, code: Seq<char>) -> bool {
    exists|i: int|
        0 <= i < accounts.len() && (#[trigger] accounts[i]).company_id == company_id
            && accounts[i].code@ == code
}

/// Whether `position` is where `accounts` holds the account of `company_id`
/// under `code`.
pub open spec fn is_at(
    accounts: Seq<ChartOfAccount>,
    company_id: u128,
    code: Seq<char>,
    position: int,
) -> bool {
    &&& 0 <= position < accounts.len()
    &&& accounts[position].company_id == company_id
    &&& accounts[position].code@ == code
}

/// Whether `account_id` names an active account of `company_id`: the
/// accounts that a new posting may refer to.
pub open spec fn postable(accounts: Seq<ChartOfAccount>, company_id: u128, account_id: u64) -> bool {
    &&& account_id < accounts.len()
    &&& accounts[account_id as int].company_id == company_id
    &&& accounts[account_id as int].is_active
}

/// Whether some accounts make a sound registry: ids are positions, and a
/// code occurs once in a company.
pub open spec fn sound_chart(accounts: Seq<ChartOfAccount>) -> bool {
    &&& forall|i: int| 0 <= i < accounts.len() ==> (#[trigger] accounts[i]).id == i
    &&& forall|i: int, j: int|
        0 <= i < j < accounts.len() && (#[trigger] accounts[i]).company_id == (
        #[trigger] accounts[j]).company_id ==> accounts[i].code@ != accounts[j].code@
}

/// The registry of accounts. An account's id is its position, and within a
/// company no two accounts share a code.
pub struct ChartOfAccounts {
    accounts: Vec<ChartOfAccount>,
}

impl View for ChartOfAccounts {
    type V = Seq<ChartOfAccount>;

    closed spec fn view(&self) -> Seq<ChartOfAccount> {
        self.accounts@
    }
}

impl ChartOfAccounts {
    /// Ids are positions, and a code occurs once in a company.
    pub open spec fn wf(&self) -> bool {
        sound_chart(self@)
    }

    /// Takes stored accounts back in as a registry, where they make a
    /// sound one: every account has its position as its id, and within a
    /// company no code occurs twice.
    pub fn restore(accounts: Vec<ChartOfAccount>) -> (r: Option<ChartOfAccounts>)
        ensures
            r is Some <==> sound_chart(accounts@),
            r matches Some(chart) ==> chart.wf() && chart@ == accounts@,
    {
        let mut i: usize = 0;
        while i < accounts.len()
            invariant
                i <= accounts@.len(),
                sound_chart(accounts@.take(i as int)),
            decreases accounts.len() - i,
        {
            if accounts[i].id != i as u64 {
                return None;
            }
            let mut j: usize = 0;
            while j < i
                invariant
                    j <= i < accounts@.len(),
                    forall|k: int|
                        0 <= k < j ==> !((#[trigger] accounts@[k]).company_id
                            == accounts@[i as int].company_id && accounts@[k].code@
                            == accounts@[i as int].code@),
                decreases i - j,
            {
                if accounts[j].company_id == accounts[i].company_id && accounts[j].code
                    == accounts[i].code {
                    return None;
                }
                j = j + 1;
            }
            proof {
                let now = accounts@.take(i + 1);
                let was = accounts@.take(i as int);
                assert forall|a: int, b: int|
                    0 <= a < b < now.len() && (#[trigger] now[a]).company_id == (
                    #[trigger] now[b]).company_id implies now[a].code@ != now[b].code@ by {
                    if b < i {
                        assert(was[a].company_id == was[b].company_id);
                    }
                }
                assert forall|a: int| 0 <= a < now.len() implies (#[trigger] now[a]).id == a by {
                    if a < i {
                        assert(was[a].id == a);
                    }
                }
            }
            i = i + 1;
        }
        proof {
            assert(accounts@.take(i as int) =~= accounts@);
        }
        Some(ChartOfAccounts { accounts })
    }

    /// A registry without accounts.
    pub fn new() -> (r: ChartOfAccounts)
        ensures
            r@ == Seq::<ChartOfAccount>::empty(),
            r.wf(),
    {
        ChartOfAccounts { accounts: Vec::new() }
    }

    /// How many accounts there are.
    pub fn len(&self) -> (n: usize)
        ensures
            n == self@.len(),
    {
        self.accounts.len()
    }

    /// Where the account of `company_id` under `code` stands, if there is one.
    fn position_of(&self, company_id: u128, code: &String) -> (r: Option<usize>)
        ensures
            match r {
                Some(p) => is_at(self@, company_id, code@, p as int),
                None => !has_code(self@, company_id, code@),
            },
    {
        let mut i: usize = 0;
        while i < self.accounts.len()
            invariant
                i <= self.accounts.len(),
                forall|j: int|
                    0 <= j < i ==> !((#[trigger] self@[j]).company_id == company_id
                        && self@[j].code@ == code@),
            decreases self.accounts.len() - i,
        {
            if self.accounts[i].company_id == company_id && self.accounts[i].code == *code {
                return Some(i);
            }
            i = i + 1;
        }
        None
    }

    /// Opens an account, active from the start, and returns its id.
    ///
    /// Fails with `DuplicateCode`, changing nothing, where the company has
    /// an account under that code already.
    pub fn create_account(&mut self, draft: CreateChartOfAccount) -> (r: Result<
        u64,
        ValidationError,
    >)
        requires
            old(self).wf(),
        ensures
            final(self).wf(),
            has_code(old(self)@, draft.company_id, draft.code@) ==> r == Err::<
                u64,
                ValidationError,
            >(ValidationError::DuplicateCode) && final(self)@ == old(self)@,
            !has_code(old(self)@, draft.company_id, draft.code@) ==> (r matches Ok(id)
                && id == old(self)@.len()) && final(self)@ == old(self)@.push(
                (ChartOfAccount {
                    id: old(self)@.len() as u64,
                    company_id: draft.company_id,
                    code: draft.code,
                    name: draft.name,
                    account_type: draft.account_type,
                    is_active: true,
                }),
            ),
    {
        match self.position_of(draft.company_id, &draft.code) {
            Some(_) => Err(ValidationError::DuplicateCode),
            None => {
                let id: u64 = self.accounts.len() as u64;
                self.accounts.push(
                    ChartOfAccount {
                        id,
                        company_id: draft.company_id,
                        code: draft.code,
                        name: draft.name,
                        account_type: draft.account_type,
                        is_active: true,
                    },
                );
                Ok(id)
            },
        }
    }

    /// Closes an account to new postings. Nothing else about it changes,
    /// and no other account is touched.
    ///
    /// Fails with `NotFound`, changing nothing, where there is no such
    /// account.
    pub fn deactivate(&mut self, account_id: u64) -> (r: Result<(), ValidationError>)
        requires
            old(self).wf(),
        ensures
            final(self).wf(),
            account_id >= old(self)@.len() ==> r == Err::<(), ValidationError>(
                ValidationError::NotFound,
            ) && final(self)@ == old(self)@,
            account_id < old(self)@.len() ==> r == Ok::<(), ValidationError>(())
                && final(self)@ == old(self)@.update(
                account_id as int,
                (ChartOfAccount { is_active: false, ..old(self)@[account_id as int] }),
            ),
    {
        if account_id >= self.accounts.len() as u64 {
            return Err(ValidationError::NotFound);
        }
        let i: usize = account_id as usize;
        self.accounts[i].is_active = false;
        proof {
            assert(self@ =~= old(self)@.update(
                account_id as int,
                (ChartOfAccount { is_active: false, ..old(self)@[account_id as int] }),
            ));
        }
        Ok(())
    }

    /// The account of `company_id` under `code`.
    ///
    /// Fails with `NotFound` where the company has none under that code.
    pub fn lookup(&self, company_id: u128, code: &String) -> (r: Result<
        &ChartOfAccount,
        ValidationError,
    >)
        requires
            self.wf(),
        ensures
            !has_code(self@, company_id, code@) ==> r == Err::<&ChartOfAccount, ValidationError>(
                ValidationError::NotFound,
            ),
            has_code(self@, company_id, code@) ==> r is Ok && is_at(
                self@,
                company_id,
                code@,
                r->Ok_0.id as int,
            ) && *r->Ok_0 == self@[r->Ok_0.id as int],
    {
        match self.position_of(company_id, code) {
            Some(p) => Ok(&self.accounts[p]),
            None => Err(ValidationError::NotFound),
        }
    }

    /// The account with this id.
    ///
    /// Fails with `NotFound` where there is none.
    pub fn get(&self, account_id: u64) -> (r: Result<&ChartOfAccount, ValidationError>)
        ensures
            account_id >= self@.len() ==> r == Err::<&ChartOfAccount, ValidationError>(
                ValidationError::NotFound,
            ),
            account_id < self@.len() ==> r == Ok::<&ChartOfAccount, ValidationError>(
                &self@[account_id as int],
            ),
    {
        if account_id >= self.accounts.len() as u64 {
            Err(ValidationError::NotFound)
        } else {
            Ok(&self.accounts[account_id as usize])
        }
    }

    /// Whether a new posting of `company_id` may refer to `account_id`.
    pub fn is_postable(&self, company_id: u128, account_id: u64) -> (r: bool)
        ensures
            r == postable(self@, company_id, account_id),
    {
        if account_id >= self.accounts.len() as u64 {
            return false;
        }
        let i: usize = account_id as usize;
        self.accounts[i].company_id == company_id && self.accounts[i].is_active
    }
}

impl AccountType {
    /// The name under which the database stores this kind of account.
    pub open spec fn spec_name(self) -> Seq<char> {
        match self {
            AccountType::Asset => "asset"@,
            AccountType::Liability => "liability"@,
            AccountType::Equity => "equity"@,
            AccountType::Revenue => "revenue"@,
            AccountType::Expense => "expense"@,
        }
    }

    /// The name under which the database stores this kind of account.
    pub fn name(self) -> (r: &'static str)
        ensures
            r@ == self.spec_name(),
    {
        match self {
            AccountType::Asset => "asset",
            AccountType::Liability => "liability",
            AccountType::Equity => "equity",
            AccountType::Revenue => "revenue",
            AccountType::Expense => "expense",
        }
    }

    /// The kind of account that the database stores under `name`, if it is one.
    pub fn from_name(name: &str) -> (r: Option<AccountType>)
        ensures
            match r {
                Some(t) => t.spec_name() == name@,
                None => forall|t: AccountType| t.spec_name() != name@,
            },
    {
        if same_text(name, "asset") {
            Some(AccountType::Asset)
        } else if same_text(name, "liability") {
            Some(AccountType::Liability)
        } else if same_text(name, "equity") {
            Some(AccountType::Equity)
        } else if same_text(name, "revenue") {
            Some(AccountType::Revenue)
        } else if same_text(name, "expense") {
            Some(AccountType::Expense)
        } else {
            None
        }
    }

    /// No two of the names are the same.
    pub proof fn lemma_names_differ(a: AccountType, b: AccountType)
        requires
            a != b,
        ensures
            a.spec_name() != b.spec_name(),
    {
        reveal_strlit("asset");
        reveal_strlit("liability");
        reveal_strlit("equity");
        reveal_strlit("revenue");
        reveal_strlit("expense");
        let x = a.spec_name();
        let y = b.spec_name();
        if x.len() == y.len() {
            assert(x[0] != y[0] || x[1] != y[1]);
        }
    }
}

} // verus!

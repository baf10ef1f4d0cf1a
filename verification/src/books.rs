//! The books of the suite: the chart of accounts, the journal and the
//! stock ledger side by side, behind the operations that callers use.

use crate::accounts::ChartOfAccounts;
use crate::error::{LedgerError, ValidationError};
use crate::journal::{
    account_ledger, after_reversal, posted_entry, rejection, CreateJournalEntry,
    CreateJournalEntryView, CreateJournalLine, Journal, JournalEntryView, JournalLine,
};
use crate::money::{CurrencyUnit, ExchangeRate, MAX_SCALE};
use crate::stock::{
    cell_balance, insertion_point, record_outcome, Balance, Batch, CreateStockMovement,
    Inventory, MovementType, ReferenceType, ReplayFault, StockMovement,
};
use vstd::prelude::*;

verus! {

/// The chart of accounts, the journal and the stock ledger of the suite.
pub struct Books {
    pub accounts: ChartOfAccounts,
    pub journal: Journal,
    pub stock: Inventory,
}

/// The error of the first of `entries` that `rejection` turns down, if
/// one is.
pub open spec fn first_rejection(
    accounts: Seq<crate::accounts::ChartOfAccount>,
    base: CurrencyUnit,
    entries: Seq<CreateJournalEntryView>,
) -> Option<ValidationError>
    decreases entries.len(),
{
    if entries.len() == 0 {
        None
    } else {
        match first_rejection(accounts, base, entries.drop_last()) {
            Some(e) => Some(e),
            None => rejection(accounts, base, entries.last()),
        }
    }
}

/// The journal after `entries` were posted one after the other.
pub open spec fn posted_all(
    journal: Seq<JournalEntryView>,
    base: CurrencyUnit,
    entries: Seq<CreateJournalEntryView>,
) -> Seq<JournalEntryView>
    decreases entries.len(),
{
    if entries.len() == 0 {
        journal
    } else {
        let so_far = posted_all(journal, base, entries.drop_last());
        so_far.push(posted_entry(so_far, base, entries.last()))
    }
}

/// Some drafts as mathematical values.
pub open spec fn draft_views(entries: Seq<CreateJournalEntry>) -> Seq<CreateJournalEntryView> {
    Seq::new(entries.len(), |i: int| entries[i]@)
}

/// Once one of some entries is turned down, more entries do not change
/// which.
proof fn lemma_rejection_stays(
    accounts: Seq<crate::accounts::ChartOfAccount>,
    base: CurrencyUnit,
    entries: Seq<CreateJournalEntryView>,
    k: int,
)
    requires
        0 <= k <= entries.len(),
        first_rejection(accounts, base, entries.take(k)) is Some,
    ensures
        first_rejection(accounts, base, entries) == first_rejection(accounts, base, entries.take(k)),
    decreases entries.len() - k,
{
    if k < entries.len() {
        assert(entries.take(k + 1).drop_last() =~= entries.take(k));
        lemma_rejection_stays(accounts, base, entries, k + 1);
    } else {
        assert(entries.take(k) =~= entries);
    }
}

/// Posting some entries adds one posted entry for each.
proof fn lemma_posted_all_len(
    journal: Seq<JournalEntryView>,
    base: CurrencyUnit,
    entries: Seq<CreateJournalEntryView>,
)
    ensures
        posted_all(journal, base, entries).len() == journal.len() + entries.len(),
    decreases entries.len(),
{
    if entries.len() > 0 {
        lemma_posted_all_len(journal, base, entries.drop_last());
    }
}

impl Books {
    /// The three parts are sound, each by its own rules.
    pub open spec fn wf(&self) -> bool {
        &&& self.accounts.wf()
        &&& self.journal.wf()
        &&& self.stock.wf()
    }

    /// Empty books that balance in `base`.
    ///
    /// Fails with `InvalidScale` where the scale of `base` is beyond
    /// `MAX_SCALE`.
    pub fn new(base: CurrencyUnit) -> (r: Result<Books, ValidationError>)
        ensures
            base.scale > MAX_SCALE ==> (r matches Err(e) && e == ValidationError::InvalidScale),
            base.scale <= MAX_SCALE ==> (r matches Ok(books) && books.wf() && books.journal.base()
                == base && books.journal@.len() == 0 && books.stock@.len() == 0
                && books.accounts@.len() == 0),
    {
        match Journal::new(base) {
            Ok(journal) => Ok(
                Books { accounts: ChartOfAccounts::new(), journal, stock: Inventory::new() },
            ),
            Err(e) => Err(e),
        }
    }

    /// Posts a journal entry of `company_id` dated `entry_date` and
    /// returns its id. The rules, their order and the entry that results
    /// are those of `Journal::post`.
    pub fn post_journal_entry(
        &mut self,
        company_id: u128,
        entry_date: i32,
        currency: Option<CurrencyUnit>,
        exchange_rate: Option<ExchangeRate>,
        lines: Vec<CreateJournalLine>,
    ) -> (r: Result<u64, LedgerError>)
        requires
            old(self).wf(),
        ensures
            final(self).wf(),
            final(self).accounts@ == old(self).accounts@,
            final(self).stock@ == old(self).stock@,
            final(self).stock.projection() == old(self).stock.projection(),
            final(self).journal.base() == old(self).journal.base(),
            ({
                let draft = CreateJournalEntryView {
                    company_id,
                    entry_date,
                    currency,
                    exchange_rate,
                    lines: lines@,
                };
                match rejection(old(self).accounts@, old(self).journal.base(), draft) {
                    Some(e) => r == Err::<u64, LedgerError>(LedgerError::Validation(e)) && final(self).journal@ == old(self).journal@,
                    None => (r matches Ok(id) && id == old(self).journal@.len()) && final(self).journal@ == old(self).journal@.push(
                        posted_entry(old(self).journal@, old(self).journal.base(), draft),
                    ),
                }
            }),
    {
        let draft = CreateJournalEntry { company_id, entry_date, currency, exchange_rate, lines };
        match self.journal.post(&self.accounts, &draft) {
            Ok(id) => Ok(id),
            Err(e) => Err(LedgerError::Validation(e)),
        }
    }

    /// Reverses a posted entry as of `date` and returns the id of the
    /// entry that cancels it, as `Journal::reverse` does.
    pub fn reverse_journal_entry(&mut self, entry_id: u64, date: i32) -> (r: Result<
        u64,
        LedgerError,
    >)
        requires
            old(self).wf(),
        ensures
            final(self).wf(),
            final(self).accounts@ == old(self).accounts@,
            final(self).stock@ == old(self).stock@,
            final(self).stock.projection() == old(self).stock.projection(),
            final(self).journal.base() == old(self).journal.base(),
            entry_id >= old(self).journal@.len() ==> r == Err::<u64, LedgerError>(
                LedgerError::Validation(ValidationError::NotFound),
            ) && final(self).journal@ == old(self).journal@,
            entry_id < old(self).journal@.len() && old(self).journal@[entry_id as int].reversed
                ==> r == Err::<u64, LedgerError>(
                LedgerError::Validation(ValidationError::AlreadyReversed),
            ) && final(self).journal@ == old(self).journal@,
            entry_id < old(self).journal@.len() && !old(self).journal@[entry_id as int].reversed
                ==> (r matches Ok(id) && id == old(self).journal@.len()) && final(self).journal@ == after_reversal(old(self).journal@, entry_id, date),
    {
        match self.journal.reverse(entry_id, date) {
            Ok(id) => Ok(id),
            Err(e) => Err(LedgerError::Validation(e)),
        }
    }

    /// Records a stock movement as of `moved_at` and returns its id, as
    /// `Inventory::record_movement` does.
    pub fn record_stock_movement(
        &mut self,
        company_id: u128,
        variant_id: u128,
        warehouse_id: u128,
        quantity: i64,
        movement_type: MovementType,
        unit_cost: Option<u64>,
        reference: Option<(ReferenceType, u128)>,
        moved_at: i64,
    ) -> (r: Result<u64, LedgerError>)
        requires
            old(self).wf(),
        ensures
            final(self).wf(),
            final(self).accounts@ == old(self).accounts@,
            final(self).journal@ == old(self).journal@,
            final(self).journal.base() == old(self).journal.base(),
            ({
                let draft = CreateStockMovement {
                    company_id,
                    variant_id,
                    warehouse_id,
                    quantity,
                    movement_type,
                    reference_type: match reference {
                        Some(x) => Some(x.0),
                        None => None,
                    },
                    reference_id: match reference {
                        Some(x) => Some(x.1),
                        None => None,
                    },
                    unit_cost,
                };
                match record_outcome(old(self).stock@, draft, moved_at) {
                    Err(e) => r == Err::<u64, LedgerError>(e) && final(self).stock@ == old(self).stock@ && final(self).stock.projection() == old(self).stock.projection(),
                    Ok(m) => r == Ok::<u64, LedgerError>(m.id) && final(self).stock@ == old(self).stock@.insert(insertion_point(old(self).stock@, moved_at), m),
                }
            }),
    {
        let draft = CreateStockMovement {
            company_id,
            variant_id,
            warehouse_id,
            quantity,
            movement_type,
            reference_type: match reference {
                Some(x) => Some(x.0),
                None => None,
            },
            reference_id: match reference {
                Some(x) => Some(x.1),
                None => None,
            },
            unit_cost,
        };
        self.stock.record_movement(&draft, moved_at)
    }

    /// The quantity on hand and the weighted-average cost of a cell: what
    /// a replay of the cell's movements gives.
    pub fn get_balance(&self, variant_id: u128, warehouse_id: u128) -> (r: Balance)
        requires
            self.wf(),
        ensures
            cell_balance(self.stock@, variant_id, warehouse_id) == Ok::<Balance, ReplayFault>(r),
            r.quantity >= 0,
    {
        self.stock.get_balance(variant_id, warehouse_id)
    }

    /// The posted lines on one account, of the entries dated from `from`
    /// to `to` (both included), in the order of posting.
    pub fn get_account_ledger(&self, account_id: u64, from: i32, to: i32) -> (r: Vec<JournalLine>)
        ensures
            r@ == account_ledger(self.journal@, account_id, from, to),
    {
        self.journal.get_account_ledger(account_id, from, to)
    }

    /// Posts `entries` one after the other, all of them or none, and
    /// returns the ids they were posted under. Where one is turned down,
    /// none is posted and the stock batch that came with them is taken
    /// back.
    pub(crate) fn post_all_or_revert(&mut self, batch: Batch, entries: &Vec<CreateJournalEntry>) -> (r:
        Result<Vec<u64>, LedgerError>)
        requires
            old(self).wf(),
            batch.covers(old(self).stock@),
            crate::stock::state_wf(batch.log_before(), batch.rows_before()),
        ensures
            final(self).wf(),
            final(self).accounts@ == old(self).accounts@,
            final(self).journal.base() == old(self).journal.base(),
            match first_rejection(old(self).accounts@, old(self).journal.base(), draft_views(entries@)) {
                Some(e) => r matches Err(x) && x == LedgerError::Validation(e) && final(self).journal@ == old(self).journal@ && final(self).stock@ == batch.log_before()
                    && final(self).stock.projection() == batch.rows_before(),
                None => r matches Ok(ids) && final(self).journal@ == posted_all(
                    old(self).journal@,
                    old(self).journal.base(),
                    draft_views(entries@),
                ) && final(self).stock@ == old(self).stock@ && final(self).stock.projection()
                    == old(self).stock.projection() && ids@.len() == entries@.len() && forall|
                    i: int,
                |
                    0 <= i < ids@.len() ==> #[trigger] ids@[i] == old(self).journal@.len() + i,
            },
    {
        let ghost accounts = self.accounts@;
        let ghost base = self.journal.base();
        let mut i: usize = 0;
        proof {
            assert(draft_views(entries@).take(0) =~= Seq::<CreateJournalEntryView>::empty());
        }
        while i < entries.len()
            invariant
                i <= entries@.len(),
                *self == *old(self),
                self.wf(),
                batch.covers(self.stock@),
                crate::stock::state_wf(batch.log_before(), batch.rows_before()),
                accounts == self.accounts@,
                base == self.journal.base(),
                first_rejection(accounts, base, draft_views(entries@).take(i as int)) is None,
            decreases entries.len() - i,
        {
            proof {
                assert(draft_views(entries@).take(i + 1).drop_last() =~= draft_views(entries@).take(i as int));
                assert(draft_views(entries@).take(i + 1).last() == entries@[i as int]@);
            }
            match self.journal.validate(&self.accounts, &entries[i]) {
                Ok(()) => {},
                Err(e) => {
                    proof {
                        lemma_rejection_stays(accounts, base, draft_views(entries@), i + 1);
                    }
                    self.stock.revert(batch);
                    return Err(LedgerError::Validation(e));
                },
            }
            i = i + 1;
        }
        proof {
            assert(draft_views(entries@).take(i as int) =~= draft_views(entries@));
        }
        let mut ids: Vec<u64> = Vec::new();
        let mut j: usize = 0;
        let ghost start = self.journal@;
        while j < entries.len()
            invariant
                j <= entries@.len(),
                self.wf(),
                self.accounts == old(self).accounts,
                self.stock == old(self).stock,
                accounts == self.accounts@,
                base == self.journal.base(),
                start == old(self).journal@,
                first_rejection(accounts, base, draft_views(entries@)) is None,
                self.journal@ == posted_all(start, base, draft_views(entries@).take(j as int)),
                ids@.len() == j,
                forall|k: int| 0 <= k < j ==> #[trigger] ids@[k] == start.len() + k,
            decreases entries.len() - j,
        {
            proof {
                assert(draft_views(entries@).take(j + 1).drop_last() =~= draft_views(entries@).take(j as int));
                assert(draft_views(entries@).take(j + 1).last() == entries@[j as int]@);
                lemma_posted_all_len(start, base, draft_views(entries@).take(j as int));
                lemma_none_rejected(accounts, base, draft_views(entries@), j as int);
            }
            let length: usize = self.journal.len();
            let ghost earlier = ids@;
            match self.journal.post(&self.accounts, &entries[j]) {
                Ok(id) => {
                    ids.push(id);
                    proof {
                        assert(length == start.len() + j);
                        assert(id == length);
                        assert forall|k: int| 0 <= k < j + 1 implies #[trigger] ids@[k]
                            == start.len() + k by {
                            if k < j {
                                assert(ids@[k] == earlier[k]);
                            }
                        }
                    }
                },
                Err(_) => {},
            }
            j = j + 1;
        }
        proof {
            assert(draft_views(entries@).take(j as int) =~= draft_views(entries@));
        }
        Ok(ids)
    }
}

/// Where none of some entries is turned down, each of them passes.
proof fn lemma_none_rejected(
    accounts: Seq<crate::accounts::ChartOfAccount>,
    base: CurrencyUnit,
    entries: Seq<CreateJournalEntryView>,
    k: int,
)
    requires
        0 <= k < entries.len(),
        first_rejection(accounts, base, entries) is None,
    ensures
        rejection(accounts, base, entries[k]) is None,
    decreases entries.len(),
{
    if k < entries.len() - 1 {
        lemma_none_rejected(accounts, base, entries.drop_last(), k);
    }
}

} // verus!
